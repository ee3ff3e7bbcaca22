//! The laws the extractor obeys, stated once over the session model
//! and proved from the transition functions: what a duplicate name,
//! a duplicate sequence number, or an invalid path can never do, how
//! versions are ordered in the output, that a block open at end of
//! file is still emitted, and that a run is deterministic.

use vstd::prelude::*;

use crate::plan::chunks_of_entry;
use crate::plan::plan_spec;
use crate::seqnum::has_seq_suffix;
use crate::seqnum::suffix_num;
use crate::session::EntryV;
use crate::session::SessionV;
use crate::session::SourceFileV;
use crate::session::State;
use crate::session::VersionV;
use crate::session::close_dup;
use crate::session::close_step;
use crate::session::entry_has_seq;
use crate::session::file_reset;
use crate::session::file_step;
use crate::session::header_line_spec;
use crate::session::init_session;
use crate::session::key_of;
use crate::session::lines_fold;
use crate::session::run_spec;
use crate::session::store_has_key;
use crate::session::validate_path_spec;
use crate::session::versions_sorted;
use crate::text::split_dots;
use crate::text::trim_spec;

verus! {

/// A second block carrying a raw name identical to a registered one,
/// anywhere in the scanned tree, is rejected: closing it leaves the
/// store exactly as it was, so the second occurrence never reaches
/// any output.
pub proof fn lemma_duplicate_name_dropped(v: SessionV, file: Seq<char>, doc_root: Seq<char>)
    requires
        v.names.contains(v.current_name),
    ensures
        close_step(v, file, doc_root).store == v.store,
        close_step(v, file, doc_root).names == v.names,
        close_step(v, file, doc_root).fatal == v.fatal,
{
}

/// Two blocks with the same clean logical path and the same sequence
/// number are the one fatal condition: the second close stores
/// nothing and records the duplicate, and the recorded fatal refuses
/// the whole write plan.
pub proof fn lemma_duplicate_seq_fatal(v: SessionV, file: Seq<char>, doc_root: Seq<char>, n: u16)
    requires
        close_dup(v, doc_root) == Option::Some(n),
    ensures
        close_step(v, file, doc_root).fatal == Option::Some(n),
        close_step(v, file, doc_root).store == v.store,
{
}

/// A block whose logical path has more segments than declared
/// prefixes plus one, or a segment from position 1 on that does not
/// start with the prefix declared for it, is rejected before any
/// file write: closing it leaves the store unchanged.
pub proof fn lemma_invalid_path_not_stored(v: SessionV, file: Seq<char>, doc_root: Seq<char>)
    requires
        ({
            let parts = split_dots(trim_spec(key_of(doc_root, v.current_name)));
            ||| parts.len() > v.prefixes.len() + 1
            ||| exists|k: int|
                1 <= k < parts.len() && !(#[trigger] v.prefixes[k - 1]).is_prefix_of(parts[k])
        }),
    ensures
        close_step(v, file, doc_root).store == v.store,
{
    let key = trim_spec(key_of(doc_root, v.current_name));
    let parts = split_dots(key);
    if parts.len() <= v.prefixes.len() + 1 {
        let k = choose|k: int|
            1 <= k < parts.len() && !(#[trigger] v.prefixes[k - 1]).is_prefix_of(parts[k]);
        assert(!crate::session::prefix_ok(v.prefixes, parts));
        assert(validate_path_spec(v.prefixes, v.names, key) is Some);
    }
}

/// One entry's chunks stand contiguously in the plan, at the offset
/// given by the entries before it, in the entry's own order.
pub proof fn lemma_plan_offsets(store: Seq<EntryV>, i: int)
    requires
        0 <= i < store.len(),
    ensures
        ({
            let off = plan_spec(store.take(i)).len();
            &&& off + chunks_of_entry(store[i]).len() <= plan_spec(store).len()
            &&& forall|k: int|
                0 <= k < chunks_of_entry(store[i]).len() ==> plan_spec(store)[off + k]
                    == chunks_of_entry(store[i])[k]
        }),
    decreases store.len(),
{
    if i == store.len() - 1 {
        assert(store.take(i) =~~= store.drop_last());
    } else {
        let t = store.drop_last();
        assert(store.take(i) =~~= t.take(i));
        lemma_plan_offsets(t, i);
        assert(t[i] == store[i]);
    }
}

/// Two blocks with the same logical path and different sequence
/// numbers both appear in the write plan, bound for the same output
/// file, in strictly ascending sequence order — wherever in the tree
/// walk each of them was found.
pub proof fn lemma_same_path_versions_ordered(store: Seq<EntryV>, i: int, a: int, b: int)
    requires
        0 <= i < store.len(),
        versions_sorted(store[i].versions),
        0 <= a < b < store[i].versions.len(),
    ensures
        ({
            let off = plan_spec(store.take(i)).len();
            let cs = chunks_of_entry(store[i]);
            &&& off + b < plan_spec(store).len()
            &&& plan_spec(store)[off + a] == cs[a]
            &&& plan_spec(store)[off + b] == cs[b]
            &&& cs[a].file_path == cs[b].file_path
            &&& store[i].versions[a].seq < store[i].versions[b].seq
            &&& cs[a].lines == store[i].versions[a].lines.push(Seq::<char>::empty())
            &&& cs[b].lines == store[i].versions[b].lines.push(Seq::<char>::empty())
        }),
{
    lemma_plan_offsets(store, i);
}

/// A comment block that runs to end of file, with no code line after
/// it, is still closed and emitted: when its name and path are good
/// and its sequence number fresh, processing the file stores it.
pub proof fn lemma_eof_block_emitted(
    v: SessionV,
    file: Seq<char>,
    doc_root: Seq<char>,
    prefix: Seq<char>,
    lines: Seq<Seq<char>>,
)
    requires
        v.fatal is None,
        ({
            let w = lines_fold(file_reset(v, prefix), lines, file, doc_root);
            &&& w.fatal is None
            &&& w.state is COMMENT
            &&& w.body.len() > 0
            &&& has_seq_suffix(w.current_name)
            &&& suffix_num(w.current_name) <= u16::MAX
            &&& !w.names.contains(w.current_name)
            &&& (validate_path_spec(
                w.prefixes,
                w.names,
                trim_spec(key_of(doc_root, w.current_name)),
            ) is None)
            &&& !store_has_key(w.store, key_of(doc_root, w.current_name))
        }),
    ensures
        ({
            let w = lines_fold(file_reset(v, prefix), lines, file, doc_root);
            let key = key_of(doc_root, w.current_name);
            let out = file_step(v, file, doc_root, prefix, lines);
            &&& out.store.len() == w.store.len() + 1
            &&& store_has_key(out.store, key)
            &&& out.store.last().key == key
            &&& out.store.last().versions == seq![
                VersionV {
                    seq: suffix_num(w.current_name) as u16,
                    lines: seq![header_line_spec(file, w.comment_line_start)] + w.body,
                },
            ]
        }),
{
    let w = lines_fold(file_reset(v, prefix), lines, file, doc_root);
    let key = key_of(doc_root, w.current_name);
    let out = file_step(v, file, doc_root, prefix, lines);
    assert(out == close_step(w, file, doc_root));
    assert(out.store.last().key == key);
    assert(store_has_key(out.store, key)) by {
        assert(out.store[out.store.len() - 1].key == key);
    }
}

/// A logical path acceptable for the declared prefixes: once
/// trimmed, it has at most one segment more than there are prefixes,
/// and each segment after the first starts with the prefix declared
/// for its position.
pub open spec fn valid_key(prefixes: Seq<Seq<char>>, key: Seq<char>) -> bool {
    let parts = split_dots(trim_spec(key));
    &&& parts.len() <= prefixes.len() + 1
    &&& crate::session::prefix_ok(prefixes, parts)
}

/// Every logical path in the store is acceptable.
pub open spec fn store_keys_valid(prefixes: Seq<Seq<char>>, store: Seq<EntryV>) -> bool {
    forall|i: int| 0 <= i < store.len() ==> valid_key(prefixes, (#[trigger] store[i]).key)
}

/// Closing a block can only add a path the validator accepted, so an
/// acceptable store stays acceptable.
pub proof fn lemma_close_keys_valid(v: SessionV, file: Seq<char>, doc_root: Seq<char>)
    requires
        store_keys_valid(v.prefixes, v.store),
    ensures
        close_step(v, file, doc_root).prefixes == v.prefixes,
        store_keys_valid(v.prefixes, close_step(v, file, doc_root).store),
{
    let out = close_step(v, file, doc_root);
    let key = key_of(doc_root, v.current_name);
    if out.store =~~= v.store {
    } else {
        assert(validate_path_spec(v.prefixes, v.names, trim_spec(key)) is None);
        assert(valid_key(v.prefixes, key));
        assert forall|i: int| 0 <= i < out.store.len() implies valid_key(
            v.prefixes,
            (#[trigger] out.store[i]).key,
        ) by {
            if i < v.store.len() {
                assert(out.store[i].key == v.store[i].key);
            } else {
                assert(out.store[i].key == key);
            }
        }
    }
}

/// One line keeps the store acceptable and the prefixes unchanged.
pub proof fn lemma_line_keys_valid(
    v: SessionV,
    line: Seq<char>,
    file: Seq<char>,
    doc_root: Seq<char>,
)
    requires
        store_keys_valid(v.prefixes, v.store),
    ensures
        crate::session::line_step(v, line, file, doc_root).prefixes == v.prefixes,
        store_keys_valid(v.prefixes, crate::session::line_step(v, line, file, doc_root).store),
{
    lemma_close_keys_valid(v, file, doc_root);
}

/// A file's lines keep the store acceptable.
pub proof fn lemma_lines_fold_keys_valid(
    v: SessionV,
    lines: Seq<Seq<char>>,
    file: Seq<char>,
    doc_root: Seq<char>,
)
    requires
        store_keys_valid(v.prefixes, v.store),
    ensures
        lines_fold(v, lines, file, doc_root).prefixes == v.prefixes,
        store_keys_valid(v.prefixes, lines_fold(v, lines, file, doc_root).store),
    decreases lines.len(),
{
    if lines.len() > 0 {
        lemma_lines_fold_keys_valid(v, lines.drop_last(), file, doc_root);
        lemma_line_keys_valid(
            lines_fold(v, lines.drop_last(), file, doc_root),
            lines.last(),
            file,
            doc_root,
        );
    }
}

/// One whole file keeps the store acceptable for the declared
/// hierarchy.
pub proof fn lemma_file_keys_valid(
    v: SessionV,
    file: Seq<char>,
    doc_root: Seq<char>,
    prefix: Seq<char>,
    lines: Seq<Seq<char>>,
)
    requires
        store_keys_valid(split_dots(prefix), v.store),
    ensures
        store_keys_valid(split_dots(prefix), file_step(v, file, doc_root, prefix, lines).store),
{
    if v.fatal is None {
        let v0 = file_reset(v, prefix);
        lemma_lines_fold_keys_valid(v0, lines, file, doc_root);
        let v1 = lines_fold(v0, lines, file, doc_root);
        lemma_close_keys_valid(v1, file, doc_root);
    }
}

/// Every logical path stored by a whole run obeys the declared
/// hierarchy: a path too deep or off its prefixes never reaches the
/// store, and the plan is built from the store alone — so no such
/// path is ever written.
pub proof fn lemma_run_keys_valid(
    v: SessionV,
    files: Seq<SourceFileV>,
    doc_root: Seq<char>,
    start: Seq<char>,
    prefix: Seq<char>,
)
    requires
        store_keys_valid(split_dots(prefix), v.store),
    ensures
        store_keys_valid(split_dots(prefix), run_spec(v, files, doc_root, start, prefix).store),
{
    let w = SessionV { marker: start, state: State::CODE, ..v };
    lemma_run_fold_keys_valid(w, files, doc_root, prefix);
}

/// The fold behind [`lemma_run_keys_valid`].
pub proof fn lemma_run_fold_keys_valid(
    v: SessionV,
    files: Seq<SourceFileV>,
    doc_root: Seq<char>,
    prefix: Seq<char>,
)
    requires
        store_keys_valid(split_dots(prefix), v.store),
    ensures
        store_keys_valid(
            split_dots(prefix),
            crate::session::run_fold(v, files, doc_root, prefix).store,
        ),
    decreases files.len(),
{
    if files.len() > 0 {
        lemma_run_fold_keys_valid(v, files.drop_last(), doc_root, prefix);
        lemma_file_keys_valid(
            crate::session::run_fold(v, files.drop_last(), doc_root, prefix),
            files.last().name,
            doc_root,
            prefix,
            files.last().lines,
        );
    }
}

/// A run is a pure function of its inputs: two sessions that each
/// processed the same files, in the same order, with the same
/// document root, marker and hierarchy declaration, hold the same
/// store and produce the same write plan, byte for byte — so
/// deleting the document root and re-running is idempotent.
pub proof fn lemma_rerun_identical(
    files: Seq<SourceFileV>,
    doc_root: Seq<char>,
    start: Seq<char>,
    prefix: Seq<char>,
    v1: SessionV,
    v2: SessionV,
)
    requires
        v1 == run_spec(init_session(), files, doc_root, start, prefix),
        v2 == run_spec(init_session(), files, doc_root, start, prefix),
    ensures
        v1.store == v2.store,
        v1.diags == v2.diags,
        v1.fatal == v2.fatal,
        plan_spec(v1.store) == plan_spec(v2.store),
{
}

} // verus!
