//! The aggregation session: the per-file block-parsing state machine,
//! the store of blocks accumulated across the whole tree, and the
//! global name-uniqueness set.
//!
//! Every mutation of the session is specified by a pure transition
//! function on [`SessionV`], the mathematical model of the session, so
//! that a whole run is a fold of those transitions over the input and
//! is therefore deterministic.

use vstd::prelude::*;

use crate::digits::dec_str;
use crate::errors::BlockError;
use crate::seqnum::clean_name;
use crate::seqnum::has_seq_suffix;
use crate::seqnum::suffix_num;
use crate::text::split_dots;
use crate::text::trim_spec;

verus! {

/// Parser mode. `CODE` is the initial mode; `COMMENT` means a block is
/// being accumulated; `ERROR` is reached when a block is rejected and
/// stops block recognition for the rest of the file.
#[derive(PartialEq, Eq, Structural, Clone, Copy, Debug)]
pub enum State {
    CODE,
    COMMENT,
    ERROR,
}

/// One stored version of a logical path: its sequence number and the
/// lines to emit for it, header line included.
#[derive(Debug, PartialEq, Eq)]
pub struct Version {
    pub seq: u16,
    pub lines: Vec<String>,
}

/// One store entry: a logical path, untrimmed, with its versions in
/// strictly ascending sequence order.
#[derive(Debug, PartialEq, Eq)]
pub struct Entry {
    pub path: String,
    pub versions: Vec<Version>,
}

/// A failure recorded while scanning, with the file it came from.
#[derive(Debug, PartialEq, Eq)]
pub struct Diagnostic {
    pub file: String,
    pub error: BlockError,
}

/// One input file: its name and its lines, already read by the caller.
#[derive(Debug, PartialEq, Eq)]
pub struct SourceFile {
    pub name: String,
    pub lines: Vec<String>,
}

/// Model of a stored version.
#[verifier::ext_equal]
pub ghost struct VersionV {
    pub seq: u16,
    pub lines: Seq<Seq<char>>,
}

/// Model of a store entry.
#[verifier::ext_equal]
pub ghost struct EntryV {
    pub key: Seq<char>,
    pub versions: Seq<VersionV>,
}

/// Model of a recorded failure.
#[verifier::ext_equal]
pub ghost struct DiagV {
    pub file: Seq<char>,
    pub error: ErrorV,
}

/// Model of [`BlockError`].
#[verifier::ext_equal]
pub ghost enum ErrorV {
    EmptyPath,
    PathTooDeep,
    DuplicateBlockName,
    PrefixMismatch(Seq<char>, Seq<char>),
    MissingSequenceNumber,
    DuplicateSequenceNumber(u16),
}

/// Model of an input file.
#[verifier::ext_equal]
pub ghost struct SourceFileV {
    pub name: Seq<char>,
    pub lines: Seq<Seq<char>>,
}

/// Model of the whole session.
#[verifier::ext_equal]
pub ghost struct SessionV {
    pub prefixes: Seq<Seq<char>>,
    pub state: State,
    pub store: Seq<EntryV>,
    pub body: Seq<Seq<char>>,
    pub marker: Seq<char>,
    pub names: Seq<Seq<char>>,
    pub current_name: Seq<char>,
    pub line_counter: u16,
    pub comment_line_start: u16,
    pub fatal: Option<u16>,
    pub diags: Seq<DiagV>,
}

/// The model of an error value.
pub open spec fn error_v(e: BlockError) -> ErrorV {
    match e {
        BlockError::EmptyPath => ErrorV::EmptyPath,
        BlockError::PathTooDeep => ErrorV::PathTooDeep,
        BlockError::DuplicateBlockName => ErrorV::DuplicateBlockName,
        BlockError::PrefixMismatch(a, x) => ErrorV::PrefixMismatch(a@, x@),
        BlockError::MissingSequenceNumber => ErrorV::MissingSequenceNumber,
        BlockError::DuplicateSequenceNumber(n) => ErrorV::DuplicateSequenceNumber(n),
    }
}

impl DeepView for Version {
    type V = VersionV;

    open spec fn deep_view(&self) -> VersionV {
        VersionV { seq: self.seq, lines: self.lines.deep_view() }
    }
}

impl DeepView for Entry {
    type V = EntryV;

    open spec fn deep_view(&self) -> EntryV {
        EntryV { key: self.path@, versions: self.versions.deep_view() }
    }
}

impl DeepView for Diagnostic {
    type V = DiagV;

    open spec fn deep_view(&self) -> DiagV {
        DiagV { file: self.file@, error: error_v(self.error) }
    }
}

impl DeepView for SourceFile {
    type V = SourceFileV;

    open spec fn deep_view(&self) -> SourceFileV {
        SourceFileV { name: self.name@, lines: self.lines.deep_view() }
    }
}

/// The aggregation session. It is built incrementally while the caller
/// walks the source tree, and consumed once by the write-plan pass.
pub struct Comments {
    folder_prefixes: Vec<String>,
    current_state: State,
    comment_history: Vec<Entry>,
    comment: Vec<String>,
    start_of_comment: String,
    comment_block_names: Vec<String>,
    current_comment_name: String,
    line_counter: u16,
    comment_line_start: u16,
    fatal: Option<u16>,
    diagnostics: Vec<Diagnostic>,
}

impl View for Comments {
    type V = SessionV;

    closed spec fn view(&self) -> SessionV {
        SessionV {
            prefixes: self.folder_prefixes.deep_view(),
            state: self.current_state,
            store: self.comment_history.deep_view(),
            body: self.comment.deep_view(),
            marker: self.start_of_comment@,
            names: self.comment_block_names.deep_view(),
            current_name: self.current_comment_name@,
            line_counter: self.line_counter,
            comment_line_start: self.comment_line_start,
            fatal: self.fatal,
            diags: self.diagnostics.deep_view(),
        }
    }
}

/// Strictly ascending sequence numbers.
pub open spec fn versions_sorted(vs: Seq<VersionV>) -> bool {
    forall|a: int, b: int| 0 <= a < b < vs.len() ==> vs[a].seq < vs[b].seq
}

/// The session invariant: store keys are distinct, and every entry
/// keeps its versions in strictly ascending sequence order.
pub open spec fn wf(v: SessionV) -> bool {
    &&& forall|i: int, j: int| 0 <= i < j < v.store.len() ==> v.store[i].key != v.store[j].key
    &&& forall|i: int| 0 <= i < v.store.len() ==> versions_sorted(#[trigger] v.store[i].versions)
    &&& forall|i: int| 0 <= i < v.store.len() ==> #[trigger] v.store[i].versions.len() >= 1
}

/// The store holds the logical path `key`.
pub open spec fn store_has_key(store: Seq<EntryV>, key: Seq<char>) -> bool {
    exists|i: int| 0 <= i < store.len() && store[i].key == key
}

/// The index of the entry for `key`.
pub open spec fn store_key_at(store: Seq<EntryV>, key: Seq<char>) -> int {
    choose|i: int| 0 <= i < store.len() && store[i].key == key
}

/// The run of versions holds sequence number `n`.
pub open spec fn entry_has_seq(vs: Seq<VersionV>, n: u16) -> bool {
    exists|i: int| 0 <= i < vs.len() && vs[i].seq == n
}

/// Where a version with sequence number `n` belongs in a run sorted
/// ascending: just before the first member that is not below `n`.
pub open spec fn insert_pos(vs: Seq<VersionV>, n: u16) -> int
    decreases vs.len(),
{
    if vs.len() == 0 {
        0
    } else if vs[0].seq >= n {
        0
    } else {
        1 + insert_pos(vs.drop_first(), n)
    }
}

/// `insert_pos` lies in range, everything before it is below `n`, and
/// what it points at (if anything) is not.
pub proof fn lemma_insert_pos_props(vs: Seq<VersionV>, n: u16)
    ensures
        0 <= insert_pos(vs, n) <= vs.len(),
        forall|k: int| 0 <= k < insert_pos(vs, n) ==> vs[k].seq < n,
        insert_pos(vs, n) == vs.len() || vs[insert_pos(vs, n)].seq >= n,
    decreases vs.len(),
{
    if vs.len() == 0 {
    } else if vs[0].seq >= n {
    } else {
        let t = vs.drop_first();
        lemma_insert_pos_props(t, n);
        assert(forall|k: int| 0 <= k < t.len() ==> t[k] == vs[k + 1]);
        assert(forall|k: int| 1 <= k < vs.len() ==> #[trigger] vs[k] == t[k - 1]);
    }
}

/// Inserting a fresh sequence number at `insert_pos` keeps the run
/// sorted.
pub proof fn lemma_insert_keeps_sorted(vs: Seq<VersionV>, nv: VersionV)
    requires
        versions_sorted(vs),
        forall|k: int| 0 <= k < vs.len() ==> vs[k].seq != nv.seq,
    ensures
        versions_sorted(
            vs.take(insert_pos(vs, nv.seq)) + seq![nv] + vs.skip(insert_pos(vs, nv.seq)),
        ),
{
    let p = insert_pos(vs, nv.seq);
    lemma_insert_pos_props(vs, nv.seq);
    let w = vs.take(p) + seq![nv] + vs.skip(p);
    assert(w.len() == vs.len() + 1);
    assert(forall|k: int| 0 <= k < p ==> w[k] == vs[k]);
    assert(w[p] == nv);
    assert(forall|k: int| p < k < w.len() ==> w[k] == vs[k - 1]);
    assert forall|a: int, b: int| 0 <= a < b < w.len() implies w[a].seq < w[b].seq by {
        if a < p && b == p {
            assert(vs[a].seq < nv.seq);
        } else if a == p && b > p {
            assert(vs[b - 1].seq >= nv.seq);
            assert(vs[b - 1].seq != nv.seq);
        } else if a < p && b > p {
            assert(vs[a].seq < vs[b - 1].seq || a == b - 1);
        }
    }
}

/// Increment that sticks at the largest 16-bit value instead of
/// wrapping.
pub open spec fn sat_inc(c: u16) -> u16 {
    if c == 0xffff {
        c
    } else {
        (c + 1) as u16
    }
}

/// The synthetic first line of an emitted block, naming the source
/// file and the line on which the block's body begins.
pub open spec fn header_line_spec(file: Seq<char>, line: u16) -> Seq<char> {
    "[SOURCE FILE:](file:///"@ + file + ") LINE: "@ + dec_str(line as int) + "\n"@
}

/// The store key of a block: the document root, a dot, and the raw
/// name with its sequence suffix removed.
pub open spec fn key_of(doc_root: Seq<char>, raw: Seq<char>) -> Seq<char> {
    doc_root + seq!['.'] + clean_name(raw)
}

/// Every segment after the first starts with the hierarchy prefix
/// declared for its position.
pub open spec fn prefix_ok(prefixes: Seq<Seq<char>>, parts: Seq<Seq<char>>) -> bool {
    forall|k: int| 1 <= k < parts.len() ==> (#[trigger] prefixes[k - 1]).is_prefix_of(parts[k])
}

/// The first position from 1 on whose segment does not start with its
/// declared prefix, or `parts.len()` if every one does.
pub open spec fn first_bad_from(prefixes: Seq<Seq<char>>, parts: Seq<Seq<char>>, k: int) -> int
    decreases parts.len() - k,
{
    if k < 1 || k >= parts.len() {
        parts.len() as int
    } else if !prefixes[k - 1].is_prefix_of(parts[k]) {
        k
    } else {
        first_bad_from(prefixes, parts, k + 1)
    }
}

/// The verdict of the path validator on a dot-delimited path, given
/// the declared hierarchy prefixes and the already registered names.
pub open spec fn validate_path_spec(
    prefixes: Seq<Seq<char>>,
    names: Seq<Seq<char>>,
    p: Seq<char>,
) -> Option<ErrorV> {
    let parts = split_dots(p);
    if parts.len() == 0 {
        Option::Some(ErrorV::EmptyPath)
    } else if parts.len() > prefixes.len() + 1 {
        Option::Some(ErrorV::PathTooDeep)
    } else if names.contains(p) {
        Option::Some(ErrorV::DuplicateBlockName)
    } else if !prefix_ok(prefixes, parts) {
        let k = first_bad_from(prefixes, parts, 1);
        Option::Some(ErrorV::PrefixMismatch(parts[k], prefixes[k - 1]))
    } else {
        Option::None
    }
}

/// Closing a block: what the session becomes when a comment region
/// ends. An empty body leaves only the mode reset; otherwise the block
/// is named, validated and stored, or rejected with a diagnostic; a
/// sequence number already present for the same path is the one fatal
/// outcome and is recorded in `fatal`.
pub open spec fn close_step(v: SessionV, file: Seq<char>, doc_root: Seq<char>) -> SessionV {
    if v.body.len() == 0 {
        SessionV { state: State::CODE, ..v }
    } else {
        let all_lines = seq![header_line_spec(file, v.comment_line_start)] + v.body;
        if !(has_seq_suffix(v.current_name) && suffix_num(v.current_name) <= u16::MAX) {
            SessionV {
                state: State::ERROR,
                body: Seq::empty(),
                diags: v.diags.push(DiagV { file, error: ErrorV::MissingSequenceNumber }),
                ..v
            }
        } else {
            let n = suffix_num(v.current_name) as u16;
            let key = key_of(doc_root, v.current_name);
            if v.names.contains(v.current_name) {
                SessionV {
                    state: State::ERROR,
                    body: Seq::empty(),
                    diags: v.diags.push(DiagV { file, error: ErrorV::DuplicateBlockName }),
                    ..v
                }
            } else {
                match validate_path_spec(v.prefixes, v.names, trim_spec(key)) {
                    Option::Some(err) => SessionV {
                        state: State::ERROR,
                        body: Seq::empty(),
                        diags: v.diags.push(DiagV { file, error: err }),
                        ..v
                    },
                    Option::None => {
                        if store_has_key(v.store, key) && entry_has_seq(
                            v.store[store_key_at(v.store, key)].versions,
                            n,
                        ) {
                            SessionV {
                                state: State::CODE,
                                body: Seq::empty(),
                                fatal: Option::Some(n),
                                diags: v.diags.push(
                                    DiagV { file, error: ErrorV::DuplicateSequenceNumber(n) },
                                ),
                                ..v
                            }
                        } else if store_has_key(v.store, key) {
                            let i = store_key_at(v.store, key);
                            let e = v.store[i];
                            let p = insert_pos(e.versions, n);
                            let e2 = EntryV {
                                key: e.key,
                                versions: e.versions.take(p) + seq![
                                    VersionV { seq: n, lines: all_lines },
                                ] + e.versions.skip(p),
                            };
                            SessionV {
                                state: State::CODE,
                                body: Seq::empty(),
                                store: v.store.update(i, e2),
                                names: v.names.push(v.current_name),
                                ..v
                            }
                        } else {
                            SessionV {
                                state: State::CODE,
                                body: Seq::empty(),
                                store: v.store.push(
                                    EntryV {
                                        key,
                                        versions: seq![VersionV { seq: n, lines: all_lines }],
                                    },
                                ),
                                names: v.names.push(v.current_name),
                                ..v
                            }
                        }
                    },
                }
            }
        }
    }
}

/// The sequence number that closing would find already taken, if any:
/// exactly the case in which [`close_step`] records a fatal outcome.
pub open spec fn close_dup(v: SessionV, doc_root: Seq<char>) -> Option<u16> {
    if v.body.len() == 0 {
        Option::None
    } else if !(has_seq_suffix(v.current_name) && suffix_num(v.current_name) <= u16::MAX) {
        Option::None
    } else {
        let n = suffix_num(v.current_name) as u16;
        let key = key_of(doc_root, v.current_name);
        if v.names.contains(v.current_name) {
            Option::None
        } else if validate_path_spec(v.prefixes, v.names, trim_spec(key)) is Some {
            Option::None
        } else if store_has_key(v.store, key) && entry_has_seq(
            v.store[store_key_at(v.store, key)].versions,
            n,
        ) {
            Option::Some(n)
        } else {
            Option::None
        }
    }
}

/// Opening a block: remember the trimmed raw name from the metadata
/// line and the line on which the body will begin.
pub open spec fn start_step(v: SessionV, line: Seq<char>) -> SessionV {
    SessionV {
        comment_line_start: sat_inc(v.line_counter),
        current_name: trim_spec(line.skip(v.marker.len() as int)),
        ..v
    }
}

/// A comment line: the first one opens a block, later ones extend its
/// body with the marker stripped and nothing re-trimmed.
pub open spec fn comment_step(v: SessionV, line: Seq<char>) -> SessionV {
    if v.state == State::CODE {
        SessionV { state: State::COMMENT, ..start_step(v, line) }
    } else {
        SessionV { body: v.body.push(line.skip(v.marker.len() as int)), ..v }
    }
}

impl Default for Comments {
    /// An empty session: no prefixes, no marker, nothing stored.
    fn default() -> (r: Comments)
        ensures
            r@ == init_session(),
            wf(r@),
    {
        Comments {
            folder_prefixes: Vec::new(),
            current_state: State::CODE,
            comment_history: Vec::new(),
            comment: Vec::new(),
            start_of_comment: String::new(),
            comment_block_names: Vec::new(),
            current_comment_name: String::new(),
            line_counter: 0,
            comment_line_start: 0,
            fatal: Option::None,
            diagnostics: Vec::new(),
        }
    }
}

/// `first_bad_from` names `k` when every segment from `j` up to `k`
/// matches its prefix and the one at `k` does not.
pub proof fn lemma_first_bad_from_at(
    prefixes: Seq<Seq<char>>,
    parts: Seq<Seq<char>>,
    j: int,
    k: int,
)
    requires
        1 <= j <= k < parts.len(),
        forall|m: int| j <= m < k ==> (#[trigger] prefixes[m - 1]).is_prefix_of(parts[m]),
        !prefixes[k - 1].is_prefix_of(parts[k]),
    ensures
        first_bad_from(prefixes, parts, j) == k,
    decreases k - j,
{
    if j < k {
        lemma_first_bad_from_at(prefixes, parts, j + 1, k);
    }
}

/// `insert_pos` is pinned down by a scan that stops at the first
/// sequence number not below `n`.
pub proof fn lemma_insert_pos_at(vs: Seq<VersionV>, n: u16, p: int)
    requires
        0 <= p <= vs.len(),
        forall|k: int| 0 <= k < p ==> vs[k].seq < n,
        p == vs.len() || vs[p].seq >= n,
    ensures
        insert_pos(vs, n) == p,
    decreases p,
{
    if p == 0 {
    } else {
        assert(vs[0].seq < n);
        let t = vs.drop_first();
        assert(forall|k: int| 0 <= k < t.len() ==> t[k] == vs[k + 1]);
        assert(forall|k: int| 1 <= k < vs.len() ==> #[trigger] vs[k] == t[k - 1]);
        lemma_insert_pos_at(t, n, p - 1);
    }
}

/// Find the entry of `key` in the store, scanning front to back.
fn find_entry(store: &Vec<Entry>, key: &str) -> (r: Option<usize>)
    ensures
        match r {
            Option::Some(i) => i < store@.len() && store.deep_view()[i as int].key == key@,
            Option::None => !store_has_key(store.deep_view(), key@),
        },
{
    let mut i: usize = 0;
    while i < store.len()
        invariant
            i <= store@.len(),
            forall|j: int| 0 <= j < i ==> store.deep_view()[j].key != key@,
        decreases store@.len() - i,
    {
        if crate::text::str_eq(store[i].path.as_str(), key) {
            return Option::Some(i);
        }
        i = i + 1;
    }
    Option::None
}

/// Find where sequence number `n` belongs in a sorted run of
/// versions; also report whether it is already there.
fn find_insert_pos(versions: &Vec<Version>, n: u16) -> (r: (bool, usize))
    requires
        versions_sorted(versions.deep_view()),
    ensures
        r.1 == insert_pos(versions.deep_view(), n),
        r.0 == entry_has_seq(versions.deep_view(), n),
        r.1 <= versions@.len(),
{
    let ghost vs = versions.deep_view();
    let mut i: usize = 0;
    while i < versions.len() && versions[i].seq < n
        invariant
            i <= vs.len(),
            vs == versions.deep_view(),
            vs.len() == versions@.len(),
            forall|k: int| 0 <= k < i ==> vs[k].seq < n,
        decreases vs.len() - i,
    {
        i = i + 1;
    }
    proof {
        lemma_insert_pos_at(vs, n, i as int);
    }
    let has = i < versions.len() && versions[i].seq == n;
    proof {
        if has {
            assert(entry_has_seq(vs, n));
        } else if entry_has_seq(vs, n) {
            let k = choose|k: int| 0 <= k < vs.len() && vs[k].seq == n;
            if k < i {
                assert(vs[k].seq < n);
            } else if k > i {
                assert(vs[i as int].seq < vs[k].seq);
            }
            assert(false);
        }
    }
    (has, i)
}

impl Comments {
    /// Is this exact raw name already registered in the global
    /// uniqueness set?
    pub fn name_registered(&self, name: &str) -> (r: bool)
        ensures
            r == self@.names.contains(name@),
    {
        let mut i: usize = 0;
        while i < self.comment_block_names.len()
            invariant
                i <= self.comment_block_names@.len(),
                forall|j: int| 0 <= j < i ==> self.comment_block_names.deep_view()[j] != name@,
            decreases self.comment_block_names@.len() - i,
        {
            if crate::text::str_eq(self.comment_block_names[i].as_str(), name) {
                proof {
                    assert(self@.names[i as int] == name@);
                }
                return true;
            }
            i = i + 1;
        }
        proof {
            if self@.names.contains(name@) {
                let j = choose|j: int| 0 <= j < self@.names.len() && self@.names[j] == name@;
                assert(self.comment_block_names.deep_view()[j] != name@);
            }
        }
        false
    }

    /// Record a raw block name in the global uniqueness set.
    pub fn register_block_name(&mut self, name: String)
        ensures
            final(self)@ == (SessionV { names: old(self)@.names.push(name@), ..old(self)@ }),
    {
        self.comment_block_names.push(name);
        proof {
            assert(self.comment_block_names.deep_view() =~~= old(
                self,
            ).comment_block_names.deep_view().push(name@));
            assert(self@ =~~= SessionV { names: old(self)@.names.push(name@), ..old(self)@ });
        }
    }

    /// Check a dot-delimited path against the declared hierarchy
    /// prefixes and the registered names, exactly as
    /// [`validate_path_spec`] says: it must split into at most one
    /// segment more than there are prefixes, must not repeat a
    /// registered name, and every segment after the first must start
    /// with the prefix declared for its position.
    pub fn is_valid_folder_path(
        &self,
        folder_prefixes: &Vec<String>,
        file_path_and_name: &str,
    ) -> (r: Result<(), BlockError>)
        ensures
            ({
                let verdict = validate_path_spec(
                    folder_prefixes.deep_view(),
                    self@.names,
                    file_path_and_name@,
                );
                &&& r is Ok <==> verdict is None
                &&& (r matches Err(e) ==> verdict == Option::Some(error_v(e)))
            }),
    {
        let ghost ps = folder_prefixes.deep_view();
        let ghost parts = split_dots(file_path_and_name@);
        let path: Vec<String> = crate::text::split_dots_exec(file_path_and_name);
        if path.len() == 0 {
            return Err(BlockError::EmptyPath);
        }
        if path.len() - 1 > folder_prefixes.len() {
            return Err(BlockError::PathTooDeep);
        }
        if self.name_registered(file_path_and_name) {
            return Err(BlockError::DuplicateBlockName);
        }
        let mut k: usize = 1;
        while k < path.len()
            invariant
                1 <= k <= parts.len(),
                parts == path.deep_view(),
                parts == split_dots(file_path_and_name@),
                parts.len() == path@.len(),
                parts.len() <= ps.len() + 1,
                ps == folder_prefixes.deep_view(),
                ps.len() == folder_prefixes@.len(),
                !self@.names.contains(file_path_and_name@),
                forall|m: int| 1 <= m < k ==> (#[trigger] ps[m - 1]).is_prefix_of(parts[m]),
            decreases parts.len() - k,
        {
            if !crate::text::starts_with(path[k].as_str(), folder_prefixes[k - 1].as_str()) {
                let actual = path[k].clone();
                let expected = folder_prefixes[k - 1].clone();
                proof {
                    assert(parts[k as int] == path@[k as int]@);
                    assert(ps[k as int - 1] == folder_prefixes@[k as int - 1]@);
                    assert(!ps[k as int - 1].is_prefix_of(parts[k as int]));
                    assert(!prefix_ok(ps, parts));
                    lemma_first_bad_from_at(ps, parts, 1, k as int);
                    assert(actual@ == parts[first_bad_from(ps, parts, 1)]);
                    assert(expected@ == ps[first_bad_from(ps, parts, 1) - 1]);
                }
                return Err(BlockError::PrefixMismatch(actual, expected));
            }
            k = k + 1;
        }
        Ok(())
    }

    /// Open a block: remember the trimmed raw name from the metadata
    /// line and the line its body will start on.
    fn parse_comment_start(&mut self, line: &str) -> (r: Result<(), BlockError>)
        requires
            old(self)@.marker.is_prefix_of(line@),
        ensures
            final(self)@ == start_step(old(self)@, line@),
            r is Ok,
    {
        let mlen = self.start_of_comment.unicode_len();
        let n = line.unicode_len();
        let comment_name = crate::text::trim(line.substring_char(mlen, n));
        self.comment_line_start = if self.line_counter == 0xffff {
            self.line_counter
        } else {
            self.line_counter + 1
        };
        self.current_comment_name = String::from_str(comment_name);
        proof {
            assert(line@.subrange(mlen as int, n as int) =~= line@.skip(mlen as int));
            assert(self@ =~~= start_step(old(self)@, line@));
        }
        Ok(())
    }

    /// Consume one comment line, as [`comment_step`] says: the first
    /// one opens the block, later ones extend its body with the
    /// marker stripped and nothing re-trimmed.
    pub fn parse_comment(&mut self, line: &str) -> (r: Result<(), BlockError>)
        requires
            old(self)@.marker.is_prefix_of(line@),
        ensures
            final(self)@ == comment_step(old(self)@, line@),
            r is Ok,
    {
        if self.current_state == State::CODE {
            self.current_state = State::COMMENT;
            self.parse_comment_start(line)?;
            proof {
                assert(self@ =~~= comment_step(old(self)@, line@));
            }
        } else {
            let mlen = self.start_of_comment.unicode_len();
            let n = line.unicode_len();
            let comment_line = String::from_str(line.substring_char(mlen, n));
            self.comment.push(comment_line);
            proof {
                assert(line@.subrange(mlen as int, n as int) =~= line@.skip(mlen as int));
                assert(self.comment.deep_view() =~~= old(self).comment.deep_view().push(
                    line@.skip(old(self)@.marker.len() as int),
                ));
                assert(self@ =~~= comment_step(old(self)@, line@));
            }
        }
        Ok(())
    }

    /// Close the current block, as [`close_step`] says. An empty body
    /// only returns the parser to `CODE`. Otherwise the block gains a
    /// synthetic first line naming its source, its raw name is parsed
    /// and validated, and the block is stored under its logical path
    /// in ascending sequence order; a rejected block is dropped with
    /// a diagnostic, and a sequence number already taken for the same
    /// path is the one fatal outcome.
    pub fn write_out_all_history(&mut self, file_name: &str, doc_root: &str) -> (r: Result<
        (),
        BlockError,
    >)
        requires
            wf(old(self)@),
        ensures
            final(self)@ == close_step(old(self)@, file_name@, doc_root@),
            wf(final(self)@),
            (match close_dup(old(self)@, doc_root@) {
                Option::Some(n) => r == Err::<(), BlockError>(
                    BlockError::DuplicateSequenceNumber(n),
                ),
                Option::None => r is Ok,
            }),
    {
        let ghost v0 = self@;
        self.current_state = State::CODE;
        if self.comment.len() == 0 {
            proof {
                assert(self@ =~~= close_step(v0, file_name@, doc_root@));
            }
            return Ok(());
        }
        let mut header = String::from_str("[SOURCE FILE:](file:///");
        header.append(file_name);
        header.append(") LINE: ");
        let d = crate::digits::u16_to_string(self.comment_line_start);
        header.append(d.as_str());
        header.append("\n");
        proof {
            assert(header@ == header_line_spec(file_name@, v0.comment_line_start));
        }
        let mut all_lines: Vec<String> = Vec::new();
        all_lines.push(header);
        all_lines.append(&mut self.comment);
        let ghost glines = seq![header_line_spec(file_name@, v0.comment_line_start)] + v0.body;
        proof {
            assert(all_lines.deep_view() =~~= glines);
            assert(self.comment.deep_view() =~~= Seq::<Seq<char>>::empty());
        }
        let stripped = crate::seqnum::strip_number_in_str(&self.current_comment_name);
        let (n, clean) = match stripped {
            Result::Err(e) => {
                self.current_state = State::ERROR;
                self.diagnostics.push(
                    Diagnostic { file: String::from_str(file_name), error: e },
                );
                proof {
                    assert(self.diagnostics.deep_view() =~~= v0.diags.push(
                        DiagV { file: file_name@, error: ErrorV::MissingSequenceNumber },
                    ));
                    assert(self@ =~~= close_step(v0, file_name@, doc_root@));
                }
                return Ok(());
            },
            Result::Ok(p) => p,
        };
        let mut key = String::from_str(doc_root);
        key.append(".");
        key.append(clean.as_str());
        let ghost gkey = key_of(doc_root@, v0.current_name);
        proof {
            reveal_strlit(".");
            assert("."@ =~= seq!['.']);
            assert(key@ == gkey);
        }
        if self.name_registered(self.current_comment_name.as_str()) {
            self.current_state = State::ERROR;
            self.diagnostics.push(
                Diagnostic { file: String::from_str(file_name), error: BlockError::DuplicateBlockName },
            );
            proof {
                assert(self.diagnostics.deep_view() =~~= v0.diags.push(
                    DiagV { file: file_name@, error: ErrorV::DuplicateBlockName },
                ));
                assert(self@ =~~= close_step(v0, file_name@, doc_root@));
            }
            return Ok(());
        }
        let valid = self.is_valid_folder_path(&self.folder_prefixes, crate::text::trim(
            key.as_str(),
        ));
        match valid {
            Result::Err(e) => {
                let ghost gerr = error_v(e);
                self.current_state = State::ERROR;
                self.diagnostics.push(
                    Diagnostic { file: String::from_str(file_name), error: e },
                );
                proof {
                    assert(self.diagnostics.deep_view() =~~= v0.diags.push(
                        DiagV { file: file_name@, error: gerr },
                    ));
                    assert(self@ =~~= close_step(v0, file_name@, doc_root@));
                }
                return Ok(());
            },
            Result::Ok(_) => {},
        }
        match find_entry(&self.comment_history, key.as_str()) {
            Option::Some(i) => {
                proof {
                    assert(self.comment_history.deep_view() == v0.store);
                    assert(v0.store[i as int].key == gkey);
                    assert(store_has_key(v0.store, gkey));
                    let ci = store_key_at(v0.store, gkey);
                    assert(0 <= ci < v0.store.len() && v0.store[ci].key == gkey);
                    if ci != i {
                        assert(v0.store[ci].key != v0.store[i as int].key);
                    }
                    assert(ci == i);
                    assert(versions_sorted(v0.store[i as int].versions));
                }
                let (has, pos) = find_insert_pos(&self.comment_history[i].versions, n);
                if has {
                    self.fatal = Option::Some(n);
                    self.diagnostics.push(
                        Diagnostic {
                            file: String::from_str(file_name),
                            error: BlockError::DuplicateSequenceNumber(n),
                        },
                    );
                    proof {
                        assert(self.diagnostics.deep_view() =~~= v0.diags.push(
                            DiagV { file: file_name@, error: ErrorV::DuplicateSequenceNumber(n) },
                        ));
                        assert(self@ =~~= close_step(v0, file_name@, doc_root@));
                        assert(close_dup(v0, doc_root@) == Option::Some(n));
                    }
                    return Err(BlockError::DuplicateSequenceNumber(n));
                }
                let ghost old_versions = v0.store[i as int].versions;
                let ghost vv = VersionV { seq: n, lines: glines };
                let ghost e2 = EntryV {
                    key: v0.store[i as int].key,
                    versions: old_versions.take(pos as int) + seq![vv] + old_versions.skip(
                        pos as int,
                    ),
                };
                let mut e = self.comment_history.remove(i);
                e.versions.insert(pos, Version { seq: n, lines: all_lines });
                proof {
                    assert(e.deep_view() =~~= e2);
                }
                self.comment_history.insert(i, e);
                self.comment_block_names.push(self.current_comment_name.clone());
                proof {
                    assert(self.comment_history.deep_view() =~~= v0.store.update(i as int, e2));
                    assert(self.comment_block_names.deep_view() =~~= v0.names.push(
                        v0.current_name,
                    ));
                    assert(self@ =~~= close_step(v0, file_name@, doc_root@));
                    lemma_insert_keeps_sorted(old_versions, vv);
                    assert(versions_sorted(e2.versions));
                    assert(forall|j: int|
                        0 <= j < v0.store.len() && j != i ==> self@.store[j] == v0.store[j]);
                    assert(wf(self@));
                }
                Ok(())
            },
            Option::None => {
                proof {
                    assert(self.comment_history.deep_view() == v0.store);
                    assert(!store_has_key(v0.store, gkey));
                }
                let mut versions: Vec<Version> = Vec::new();
                versions.push(Version { seq: n, lines: all_lines });
                let ghost ev = EntryV {
                    key: gkey,
                    versions: seq![VersionV { seq: n, lines: glines }],
                };
                self.comment_history.push(Entry { path: key, versions });
                self.comment_block_names.push(self.current_comment_name.clone());
                proof {
                    assert(self.comment_history.deep_view() =~~= v0.store.push(ev));
                    assert(self.comment_block_names.deep_view() =~~= v0.names.push(
                        v0.current_name,
                    ));
                    assert(self@ =~~= close_step(v0, file_name@, doc_root@));
                    assert(forall|j: int|
                        0 <= j < v0.store.len() ==> #[trigger] v0.store[j].key != gkey);
                    assert(forall|j: int|
                        0 <= j < v0.store.len() ==> self@.store[j] == v0.store[j]);
                    assert(versions_sorted(ev.versions));
                    assert(wf(self@));
                }
                Ok(())
            },
        }
    }

    /// Parse one file's lines, as [`file_step`] says: reset the
    /// per-file parser state, feed every line to the state machine,
    /// and close a block still open at end of file. The only error
    /// returned is the fatal duplicate-sequence outcome; every other
    /// failure is recorded as a diagnostic and scanning continues.
    pub fn parse_file(
        &mut self,
        file_name: &str,
        doc_root: &str,
        folder_prefix: &str,
        lines: &Vec<String>,
    ) -> (r: Result<(), BlockError>)
        requires
            wf(old(self)@),
        ensures
            final(self)@ == file_step(
                old(self)@,
                file_name@,
                doc_root@,
                folder_prefix@,
                lines.deep_view(),
            ),
            wf(final(self)@),
            (match final(self)@.fatal {
                Option::Some(n) => r == Err::<(), BlockError>(
                    BlockError::DuplicateSequenceNumber(n),
                ),
                Option::None => r is Ok,
            }),
    {
        if let Option::Some(n) = self.fatal {
            return Err(BlockError::DuplicateSequenceNumber(n));
        }
        self.folder_prefixes = crate::text::split_dots_exec(folder_prefix);
        self.current_state = State::CODE;
        self.comment.clear();
        self.line_counter = 1;
        let ghost v0 = self@;
        let ghost ls = lines.deep_view();
        proof {
            assert(self.comment.deep_view() =~~= Seq::<Seq<char>>::empty());
            assert(v0 =~~= file_reset(old(self)@, folder_prefix@));
            assert(ls.take(0) =~~= Seq::<Seq<char>>::empty());
        }
        let mut idx: usize = 0;
        while idx < lines.len()
            invariant
                idx <= lines@.len(),
                ls == lines.deep_view(),
                ls.len() == lines@.len(),
                wf(self@),
                self@.fatal is None,
                old(self)@.fatal is None,
                v0 == file_reset(old(self)@, folder_prefix@),
                self@ == lines_fold(v0, ls.take(idx as int), file_name@, doc_root@),
            decreases lines@.len() - idx,
        {
            let ghost vpre = self@;
            let t = crate::text::trim(lines[idx].as_str());
            if self.current_state != State::ERROR {
                if crate::text::starts_with(t, self.start_of_comment.as_str()) {
                    self.parse_comment(t)?;
                } else if self.current_state == State::COMMENT {
                    match self.write_out_all_history(file_name, doc_root) {
                        Result::Err(e2) => {
                            proof {
                                assert(ls.take(idx + 1).drop_last() =~~= ls.take(idx as int));
                                assert(ls.take(idx + 1).last() == ls[idx as int]);
                                assert(self@ == lines_fold(
                                    v0,
                                    ls.take(idx + 1),
                                    file_name@,
                                    doc_root@,
                                ));
                                lemma_lines_fold_stuck(v0, ls, idx + 1, file_name@, doc_root@);
                            }
                            return Err(e2);
                        },
                        Result::Ok(_) => {},
                    }
                }
            }
            self.line_counter = if self.line_counter == 0xffff {
                self.line_counter
            } else {
                self.line_counter + 1
            };
            idx = idx + 1;
            proof {
                assert(ls.take(idx as int).drop_last() =~~= ls.take(idx - 1));
                assert(ls.take(idx as int).last() == ls[idx - 1]);
                assert(lines@[idx - 1]@ == ls[idx - 1]);
                assert(self@ =~~= line_step(vpre, ls[idx - 1], file_name@, doc_root@));
            }
        }
        proof {
            assert(ls.take(lines@.len() as int) =~~= ls);
        }
        if self.current_state == State::COMMENT {
            match self.write_out_all_history(file_name, doc_root) {
                Result::Err(e2) => {
                    return Err(e2);
                },
                Result::Ok(_) => {},
            }
        }
        Ok(())
    }

    /// Build the write plan from everything stored, as
    /// [`crate::plan::plan_spec`] says: for every logical path in
    /// store order, one chunk per version in ascending sequence
    /// order. A recorded fatal duplicate refuses the whole plan, so
    /// an ambiguous store produces no output at all.
    pub fn write_history(&self) -> (r: Result<Vec<crate::plan::WriteChunk>, BlockError>)
        ensures
            (match self@.fatal {
                Option::Some(n) => r == Err::<Vec<crate::plan::WriteChunk>, BlockError>(
                    BlockError::DuplicateSequenceNumber(n),
                ),
                Option::None => (r matches Ok(plan) && plan.deep_view()
                    == crate::plan::plan_spec(self@.store)),
            }),
    {
        if let Option::Some(n) = self.fatal {
            return Err(BlockError::DuplicateSequenceNumber(n));
        }
        let mut out: Vec<crate::plan::WriteChunk> = Vec::new();
        let mut i: usize = 0;
        proof {
            assert(self@.store.take(0) =~~= Seq::<EntryV>::empty());
        }
        while i < self.comment_history.len()
            invariant
                i <= self.comment_history@.len(),
                self@.store.len() == self.comment_history@.len(),
                self@.fatal is None,
                out.deep_view() == crate::plan::plan_spec(self@.store.take(i as int)),
            decreases self.comment_history@.len() - i,
        {
            let mut cs = crate::plan::chunks_for_entry(&self.comment_history[i]);
            out.append(&mut cs);
            i = i + 1;
            proof {
                assert(self@.store.take(i as int).drop_last() =~~= self@.store.take(i - 1));
                assert(self@.store.take(i as int).last() == self@.store[i - 1]);
                assert(self.comment_history@[i - 1].deep_view() == self@.store[i - 1]);
                assert(out.deep_view() =~~= crate::plan::plan_spec(self@.store.take(i as int)));
            }
        }
        proof {
            assert(self@.store.take(self.comment_history@.len() as int) =~~= self@.store);
        }
        Ok(out)
    }

    /// Run the whole extraction: record the marker, process every
    /// file in order, and hand back the write plan, as [`run_spec`]
    /// says. Failures short of the fatal duplicate are recorded as
    /// diagnostics and do not stop the run; the fatal duplicate
    /// aborts the plan.
    pub fn comment_in_files(
        &mut self,
        files: &Vec<SourceFile>,
        doc_root: &str,
        start: &str,
        folder_prefixes: &str,
    ) -> (r: Result<Vec<crate::plan::WriteChunk>, BlockError>)
        requires
            wf(old(self)@),
        ensures
            final(self)@ == run_spec(
                old(self)@,
                files.deep_view(),
                doc_root@,
                start@,
                folder_prefixes@,
            ),
            wf(final(self)@),
            (match final(self)@.fatal {
                Option::Some(n) => r == Err::<Vec<crate::plan::WriteChunk>, BlockError>(
                    BlockError::DuplicateSequenceNumber(n),
                ),
                Option::None => (r matches Ok(plan) && plan.deep_view()
                    == crate::plan::plan_spec(final(self)@.store)),
            }),
    {
        self.start_of_comment = String::from_str(start);
        self.current_state = State::CODE;
        let ghost v0 = self@;
        let ghost fs = files.deep_view();
        proof {
            assert(v0 =~~= SessionV { marker: start@, state: State::CODE, ..old(self)@ });
            assert(fs.take(0) =~~= Seq::<SourceFileV>::empty());
        }
        let mut i: usize = 0;
        while i < files.len()
            invariant
                i <= files@.len(),
                fs == files.deep_view(),
                fs.len() == files@.len(),
                wf(self@),
                self@ == run_fold(v0, fs.take(i as int), doc_root@, folder_prefixes@),
            decreases files@.len() - i,
        {
            let f = &files[i];
            let _ = self.parse_file(f.name.as_str(), doc_root, folder_prefixes, &f.lines);
            i = i + 1;
            proof {
                assert(fs.take(i as int).drop_last() =~~= fs.take(i - 1));
                assert(fs.take(i as int).last() == fs[i - 1]);
                assert(files@[i - 1].deep_view() == fs[i - 1]);
            }
        }
        proof {
            assert(fs.take(files@.len() as int) =~~= fs);
        }
        self.write_history()
    }

    /// The diagnostics recorded so far, in the order they arose.
    pub fn diagnostics(&self) -> (r: &Vec<Diagnostic>)
        ensures
            r.deep_view() == self@.diags,
    {
        &self.diagnostics
    }

    /// The fatal duplicate sequence number, if the run hit one.
    pub fn fatal_duplicate(&self) -> (r: Option<u16>)
        ensures
            r == self@.fatal,
    {
        self.fatal
    }

    /// The parser mode after the last line consumed.
    pub fn current_state(&self) -> (r: State)
        ensures
            r == self@.state,
    {
        self.current_state
    }
}

/// One input line, as the scanner classifies it: a line whose trimmed
/// form starts with the marker opens or extends a block, any other
/// line closes an open block, `ERROR` mode consumes lines with no
/// effect, and after a fatal outcome nothing changes any more. The
/// line counter advances unless the line ended in the fatal outcome.
pub open spec fn line_step(
    v: SessionV,
    line: Seq<char>,
    file: Seq<char>,
    doc_root: Seq<char>,
) -> SessionV {
    if v.fatal is Some {
        v
    } else {
        let t = trim_spec(line);
        let w = if v.state == State::ERROR {
            v
        } else if v.marker.is_prefix_of(t) {
            comment_step(v, t)
        } else if v.state == State::COMMENT {
            close_step(v, file, doc_root)
        } else {
            v
        };
        if w.fatal is Some {
            w
        } else {
            SessionV { line_counter: sat_inc(w.line_counter), ..w }
        }
    }
}

/// The lines of one file, fed to [`line_step`] in order.
pub open spec fn lines_fold(
    v: SessionV,
    lines: Seq<Seq<char>>,
    file: Seq<char>,
    doc_root: Seq<char>,
) -> SessionV
    decreases lines.len(),
{
    if lines.len() == 0 {
        v
    } else {
        line_step(lines_fold(v, lines.drop_last(), file, doc_root), lines.last(), file, doc_root)
    }
}

/// The per-file reset: parser mode back to `CODE`, the body buffer
/// empty, the line counter at one, and the hierarchy prefixes taken
/// from the declaration.
pub open spec fn file_reset(v: SessionV, folder_prefix: Seq<char>) -> SessionV {
    SessionV {
        prefixes: split_dots(folder_prefix),
        state: State::CODE,
        body: Seq::empty(),
        line_counter: 1,
        ..v
    }
}

/// One whole file: reset the per-file parser state, feed every line,
/// and close a block still open at end of file. After a fatal outcome
/// the session no longer changes.
pub open spec fn file_step(
    v: SessionV,
    file: Seq<char>,
    doc_root: Seq<char>,
    folder_prefix: Seq<char>,
    lines: Seq<Seq<char>>,
) -> SessionV {
    if v.fatal is Some {
        v
    } else {
        let v1 = lines_fold(file_reset(v, folder_prefix), lines, file, doc_root);
        if v1.fatal is Some {
            v1
        } else if v1.state == State::COMMENT {
            close_step(v1, file, doc_root)
        } else {
            v1
        }
    }
}

/// Once the fold has hit the fatal outcome, the remaining lines of
/// the file change nothing.
pub proof fn lemma_lines_fold_stuck(
    v0: SessionV,
    ls: Seq<Seq<char>>,
    j: int,
    file: Seq<char>,
    doc_root: Seq<char>,
)
    requires
        0 <= j <= ls.len(),
        lines_fold(v0, ls.take(j), file, doc_root).fatal is Some,
    ensures
        lines_fold(v0, ls, file, doc_root) == lines_fold(v0, ls.take(j), file, doc_root),
    decreases ls.len() - j,
{
    if j < ls.len() {
        assert(ls.take(j + 1).drop_last() =~~= ls.take(j));
        assert(ls.take(j + 1).last() == ls[j]);
        lemma_lines_fold_stuck(v0, ls, j + 1, file, doc_root);
    } else {
        assert(ls.take(j) =~~= ls);
    }
}

/// The files of one run, fed to [`file_step`] in order.
pub open spec fn run_fold(
    v: SessionV,
    files: Seq<SourceFileV>,
    doc_root: Seq<char>,
    folder_prefix: Seq<char>,
) -> SessionV
    decreases files.len(),
{
    if files.len() == 0 {
        v
    } else {
        file_step(
            run_fold(v, files.drop_last(), doc_root, folder_prefix),
            files.last().name,
            doc_root,
            folder_prefix,
            files.last().lines,
        )
    }
}

/// A whole run: record the marker, then process every file in order.
pub open spec fn run_spec(
    v: SessionV,
    files: Seq<SourceFileV>,
    doc_root: Seq<char>,
    start: Seq<char>,
    folder_prefix: Seq<char>,
) -> SessionV {
    run_fold(
        SessionV { marker: start, state: State::CODE, ..v },
        files,
        doc_root,
        folder_prefix,
    )
}

/// The model of a fresh session.
pub open spec fn init_session() -> SessionV {
    SessionV {
        prefixes: Seq::empty(),
        state: State::CODE,
        store: Seq::empty(),
        body: Seq::empty(),
        marker: Seq::empty(),
        names: Seq::empty(),
        current_name: Seq::empty(),
        line_counter: 0,
        comment_line_start: 0,
        fatal: Option::None,
        diags: Seq::empty(),
    }
}

} // verus!
