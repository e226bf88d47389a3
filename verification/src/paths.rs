//! Path expressions and their syntactic normalization.
//!
//! Normalization is purely textual: it never queries the filesystem. A path
//! expression is resolved against an absolute working directory and its `.`
//! and `..` segments are collapsed, yielding a canonical identity key that
//! can be compared for equality.

use vstd::prelude::*;
use vstd::string::StringExecFns;

verus! {

/// The segment spelling that names the current directory.
pub open spec fn cur_dir_seg() -> Seq<char> {
    "."@
}

/// The segment spelling that names the parent directory.
pub open spec fn parent_dir_seg() -> Seq<char> {
    ".."@
}

/// The `.` and `..` marker segments are distinct spellings.
pub proof fn lemma_marker_segs_differ()
    ensures
        cur_dir_seg() != parent_dir_seg(),
{
    reveal_strlit(".");
    reveal_strlit("..");
    assert(cur_dir_seg().len() == 1);
    assert(parent_dir_seg().len() == 2);
}

/// A raw path expression as it appears in an edit action: possibly relative,
/// and possibly containing redundant `.` and `..` segments.
pub struct PathExpr {
    /// Whether the expression names its location from the root.
    pub absolute: bool,
    /// The expression's segments, in order; `.` and `..` are ordinary entries here.
    pub segments: Vec<String>,
}

impl PathExpr {
    /// The expression's segments as a mathematical sequence of character sequences.
    pub open spec fn segs(&self) -> Seq<Seq<char>> {
        self.segments.deep_view()
    }
}

/// The canonical identity key for a filesystem location: the segments of an
/// absolute path with every `.` dropped and every `..` collapsed away.
pub struct NormalizedPath {
    segments: Vec<String>,
}

impl View for NormalizedPath {
    type V = Seq<Seq<char>>;

    closed spec fn view(&self) -> Seq<Seq<char>> {
        self.segments.deep_view()
    }
}

impl NormalizedPath {
    /// A normalized path holds no `.` or `..` segments.
    pub open spec fn is_collapsed(&self) -> bool {
        forall|i: int|
            0 <= i < self@.len() ==> self@[i] != cur_dir_seg() && self@[i] != parent_dir_seg()
    }

    /// Read access to the canonical segments.
    pub fn segments(&self) -> (r: &Vec<String>)
        ensures
            r.deep_view() == self@,
    {
        &self.segments
    }

    /// Whether two normalized paths are the same identity key.
    pub fn same_identity(&self, other: &NormalizedPath) -> (r: bool)
        ensures
            r == (self@ == other@),
    {
        if self.segments.len() != other.segments.len() {
            proof {
                assert(self@.len() == self.segments@.len());
                assert(other@.len() == other.segments@.len());
            }
            return false;
        }
        let mut i: usize = 0;
        while i < self.segments.len()
            invariant
                i <= self.segments@.len(),
                self.segments@.len() == other.segments@.len(),
                forall|j: int| 0 <= j < i ==> self@[j] == other@[j],
            decreases self.segments@.len() - i,
        {
            if !(self.segments[i] == other.segments[i]) {
                proof {
                    assert(self@[i as int] == self.segments@[i as int]@);
                    assert(other@[i as int] == other.segments@[i as int]@);
                }
                return false;
            }
            i = i + 1;
        }
        proof {
            assert(self@ =~= other@);
        }
        true
    }
}

/// Collapse `.` and `..` segments: walking left to right, a `.` segment is
/// dropped, a `..` segment removes the most recently kept segment (a no-op
/// when nothing has been kept), and any other segment is appended.
pub open spec fn collapse(segs: Seq<Seq<char>>) -> Seq<Seq<char>>
    decreases segs.len(),
{
    if segs.len() == 0 {
        Seq::empty()
    } else {
        let rest = collapse(segs.drop_last());
        let last = segs.last();
        if last == cur_dir_seg() {
            rest
        } else if last == parent_dir_seg() {
            if rest.len() == 0 {
                rest
            } else {
                rest.drop_last()
            }
        } else {
            rest.push(last)
        }
    }
}

/// The segments a path expression stands for once resolved against the
/// working directory: an absolute expression keeps its own segments, a
/// relative one is appended to the working directory's.
pub open spec fn resolved_segs(cwd: PathExpr, path: PathExpr) -> Seq<Seq<char>> {
    if path.absolute {
        path.segs()
    } else {
        cwd.segs() + path.segs()
    }
}

/// The canonical identity key of `path` as referenced from `cwd`.
pub open spec fn normalize_spec(cwd: PathExpr, path: PathExpr) -> Seq<Seq<char>> {
    collapse(resolved_segs(cwd, path))
}

fn is_cur_dir(seg: &String) -> (r: bool)
    ensures
        r == (seg@ == cur_dir_seg()),
{
    let marker: String = String::from_str(".");
    *seg == marker
}

fn is_parent_dir(seg: &String) -> (r: bool)
    ensures
        r == (seg@ == parent_dir_seg()),
{
    let marker: String = String::from_str("..");
    *seg == marker
}

/// Collapse the `.` and `..` segments of an absolute path expression,
/// walking its segments left to right.
pub fn normalize_path_components(path: &PathExpr) -> (r: NormalizedPath)
    requires
        path.absolute,
    ensures
        r@ == collapse(path.segs()),
        r.is_collapsed(),
{
    let mut out: Vec<String> = Vec::new();
    let mut i: usize = 0;
    while i < path.segments.len()
        invariant
            i <= path.segments.len(),
            out.deep_view() == collapse(path.segs().take(i as int)),
        decreases path.segments.len() - i,
    {
        let ghost prefix = path.segs().take(i as int);
        let ghost prefix_next = path.segs().take(i + 1);
        proof {
            assert(prefix_next.drop_last() =~= prefix);
            assert(prefix_next.last() == path.segs()[i as int]);
        }
        let seg = &path.segments[i];
        proof {
            lemma_marker_segs_differ();
            assert(seg@ == path.segs()[i as int]);
        }
        if is_parent_dir(seg) {
            if out.len() > 0 {
                let ghost before = out.deep_view();
                out.pop();
                proof {
                    assert(out.deep_view() =~= before.drop_last());
                }
            }
        } else if is_cur_dir(seg) {
        } else {
            let ghost before = out.deep_view();
            out.push(seg.clone());
            proof {
                assert(out.deep_view() =~= before.push(seg@));
            }
        }
        i = i + 1;
    }
    proof {
        assert(path.segs().take(path.segments.len() as int) =~= path.segs());
    }
    let result = NormalizedPath { segments: out };
    proof {
        lemma_collapse_is_collapsed(path.segs());
    }
    result
}

/// Every segment that `collapse` keeps is an ordinary name: never `.` or `..`.
pub proof fn lemma_collapse_is_collapsed(segs: Seq<Seq<char>>)
    ensures
        forall|i: int|
            0 <= i < collapse(segs).len() ==> collapse(segs)[i] != cur_dir_seg() && collapse(
                segs,
            )[i] != parent_dir_seg(),
    decreases segs.len(),
{
    if segs.len() > 0 {
        lemma_collapse_is_collapsed(segs.drop_last());
        let rest = collapse(segs.drop_last());
        let last = segs.last();
        assert forall|i: int|
            0 <= i < collapse(segs).len() implies collapse(segs)[i] != cur_dir_seg() && collapse(
            segs,
        )[i] != parent_dir_seg() by {
            if last == cur_dir_seg() {
                assert(collapse(segs)[i] == rest[i]);
            } else if last == parent_dir_seg() {
                assert(collapse(segs)[i] == rest[i]);
            } else {
                if i < rest.len() {
                    assert(collapse(segs)[i] == rest[i]);
                } else {
                    assert(collapse(segs)[i] == last);
                }
            }
        }
    }
}

/// Resolve a possibly relative path expression against an absolute working
/// directory, then collapse its `.` and `..` segments.
pub fn resolve_and_normalize(cwd: &PathExpr, path: &PathExpr) -> (r: NormalizedPath)
    requires
        cwd.absolute,
    ensures
        r@ == normalize_spec(*cwd, *path),
        r.is_collapsed(),
{
    if path.absolute {
        normalize_path_components(path)
    } else {
        let mut joined_segments: Vec<String> = Vec::new();
        append_cloned(&mut joined_segments, &cwd.segments);
        append_cloned(&mut joined_segments, &path.segments);
        let joined = PathExpr { absolute: true, segments: joined_segments };
        proof {
            assert(joined.segs() =~= cwd.segs() + path.segs());
        }
        normalize_path_components(&joined)
    }
}

fn append_cloned(dst: &mut Vec<String>, src: &Vec<String>)
    ensures
        final(dst)@ == old(dst)@ + src@,
{
    let mut i: usize = 0;
    while i < src.len()
        invariant
            i <= src.len(),
            dst@ == old(dst)@ + src@.take(i as int),
        decreases src.len() - i,
    {
        dst.push(src[i].clone());
        proof {
            assert(old(dst)@ + src@.take(i + 1) =~= (old(dst)@ + src@.take(i as int)).push(
                src@[i as int],
            ));
        }
        i = i + 1;
    }
    proof {
        assert(src@.take(src.len() as int) =~= src@);
    }
}

} // verus!
