//! The write plan: the finalization pass turns the block store into a
//! list of append operations, one per stored version, in store order
//! and, within one logical path, in ascending sequence order. The
//! caller executes the plan: it creates each chunk's directories and
//! appends the chunk's lines to its file.

use vstd::prelude::*;

use crate::session::Entry;
use crate::session::EntryV;
use crate::session::VersionV;
use crate::text::join_slash;
use crate::text::split_dots;
use crate::text::trim_spec;

verus! {

/// One append operation of the plan: the directories to create, the
/// file to append to, and the lines to write, one per output line.
#[derive(Debug, PartialEq, Eq)]
pub struct WriteChunk {
    pub dir_path: String,
    pub file_path: String,
    pub lines: Vec<String>,
}

/// Model of a chunk.
#[verifier::ext_equal]
pub ghost struct ChunkV {
    pub dir_path: Seq<char>,
    pub file_path: Seq<char>,
    pub lines: Seq<Seq<char>>,
}

impl DeepView for WriteChunk {
    type V = ChunkV;

    open spec fn deep_view(&self) -> ChunkV {
        ChunkV {
            dir_path: self.dir_path@,
            file_path: self.file_path@,
            lines: self.lines.deep_view(),
        }
    }
}

/// The directory part of a logical path: every segment of the trimmed
/// key but the last, joined with `/`.
pub open spec fn chunk_dir_spec(key: Seq<char>) -> Seq<char> {
    join_slash(split_dots(trim_spec(key)).drop_last())
}

/// The file part of a logical path: every segment of the trimmed key
/// joined with `/`, with the Markdown suffix.
pub open spec fn chunk_file_spec(key: Seq<char>) -> Seq<char> {
    join_slash(split_dots(trim_spec(key))) + ".md"@
}

/// The chunks one entry contributes: one per version, in the entry's
/// (ascending) order, each ending in a blank separator line.
pub open spec fn chunks_of_entry(e: EntryV) -> Seq<ChunkV> {
    e.versions.map_values(
        |v: VersionV|
            ChunkV {
                dir_path: chunk_dir_spec(e.key),
                file_path: chunk_file_spec(e.key),
                lines: v.lines.push(Seq::<char>::empty()),
            },
    )
}

/// The whole plan: every entry's chunks, in store order.
pub open spec fn plan_spec(store: Seq<EntryV>) -> Seq<ChunkV>
    decreases store.len(),
{
    if store.len() == 0 {
        Seq::empty()
    } else {
        plan_spec(store.drop_last()) + chunks_of_entry(store.last())
    }
}

/// Build one entry's chunks, exactly as [`chunks_of_entry`] says.
pub fn chunks_for_entry(e: &Entry) -> (r: Vec<WriteChunk>)
    ensures
        r.deep_view() == chunks_of_entry(e.deep_view()),
{
    let trimmed = crate::text::trim(e.path.as_str());
    let mut parts = crate::text::split_dots_exec(trimmed);
    let mut file_path = crate::text::join_slash_exec(&parts);
    file_path.append(".md");
    proof {
        crate::text::lemma_split_dots_len(trimmed@);
    }
    let _last = parts.pop();
    let dir_path = crate::text::join_slash_exec(&parts);
    proof {
        assert(parts.deep_view() =~~= split_dots(trim_spec(e.path@)).drop_last());
        assert(dir_path@ == chunk_dir_spec(e.path@));
        assert(file_path@ == chunk_file_spec(e.path@));
    }
    let ghost chunks = chunks_of_entry(e.deep_view());
    let mut r: Vec<WriteChunk> = Vec::new();
    let mut i: usize = 0;
    proof {
        assert(r.deep_view() =~~= chunks.take(0));
    }
    while i < e.versions.len()
        invariant
            i <= e.versions@.len(),
            chunks == chunks_of_entry(e.deep_view()),
            chunks.len() == e.versions@.len(),
            dir_path@ == chunk_dir_spec(e.path@),
            file_path@ == chunk_file_spec(e.path@),
            r.deep_view() == chunks.take(i as int),
        decreases e.versions@.len() - i,
    {
        let v = &e.versions[i];
        let mut ls: Vec<String> = Vec::new();
        let mut j: usize = 0;
        while j < v.lines.len()
            invariant
                j <= v.lines@.len(),
                ls.deep_view() == v.lines.deep_view().take(j as int),
            decreases v.lines@.len() - j,
        {
            let ghost pre = ls.deep_view();
            let c = v.lines[j].clone();
            proof {
                assert(c@ == v.lines.deep_view()[j as int]);
            }
            ls.push(c);
            j = j + 1;
            proof {
                assert(ls.deep_view() =~~= pre.push(c@));
                assert(v.lines.deep_view().take(j as int) =~~= v.lines.deep_view().take(
                    j - 1,
                ).push(v.lines.deep_view()[j - 1]));
            }
        }
        let ghost body = ls.deep_view();
        proof {
            assert(body =~~= v.lines.deep_view());
        }
        ls.push(String::new());
        proof {
            assert(ls.deep_view() =~~= v.lines.deep_view().push(Seq::<char>::empty()));
        }
        let ghost rpre = r.deep_view();
        r.push(WriteChunk { dir_path: dir_path.clone(), file_path: file_path.clone(), lines: ls });
        i = i + 1;
        proof {
            assert(e.versions@[i - 1].deep_view() == e.deep_view().versions[i - 1]);
            assert(r.deep_view() =~~= rpre.push(chunks[i - 1]));
            assert(chunks.take(i as int) =~~= chunks.take(i - 1).push(chunks[i - 1]));
        }
    }
    proof {
        assert(chunks.take(e.versions@.len() as int) =~~= chunks);
    }
    r
}

} // verus!
