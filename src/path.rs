//! Paths as text, with `/` between components.
use vstd::prelude::*;
use vstd::string::*;

verus! {

/// `part` appended to `base`: an absolute `part` stands alone, an empty
/// `base` adds nothing, and a single `/` separates the two otherwise.
pub open spec fn joined(base: Seq<char>, part: Seq<char>) -> Seq<char> {
    if part.len() > 0 && part[0] == '/' {
        part
    } else if base.len() == 0 {
        part
    } else if base.last() == '/' {
        base + part
    } else {
        base + seq!['/'] + part
    }
}

/// Index just past the last `/` of `s` at or before `end`, or 0 where there is none.
pub open spec fn segment_start(s: Seq<char>, end: int) -> int
    decreases end,
{
    if end <= 0 {
        0
    } else if s[end - 1] == '/' {
        end
    } else {
        segment_start(s, end - 1)
    }
}

/// The last component of a path: what follows its last `/`.
pub open spec fn last_component(s: Seq<char>) -> Seq<char> {
    s.subrange(segment_start(s, s.len() as int), s.len() as int)
}

/// A path whose last component names an entry: neither empty, `.` nor `..`.
pub open spec fn names_entry(s: Seq<char>) -> bool {
    let c = last_component(s);
    &&& c.len() > 0
    &&& c != seq!['.']
    &&& c != seq!['.', '.']
}

proof fn lemma_segment_start_bounds(s: Seq<char>, end: int)
    requires
        0 <= end <= s.len(),
    ensures
        0 <= segment_start(s, end) <= end,
        forall|i: int| segment_start(s, end) <= i < end ==> s[i] != '/',
    decreases end,
{
    if end > 0 && s[end - 1] != '/' {
        lemma_segment_start_bounds(s, end - 1);
    }
}

/// Joins `part` onto `base`, as `joined` describes.
pub fn join_path(base: &str, part: &str) -> (r: String)
    ensures
        r@ == joined(base@, part@),
{
    let part_len = part.unicode_len();
    let base_len = base.unicode_len();
    if part_len > 0 && part.get_char(0) == '/' {
        part.to_owned()
    } else if base_len == 0 {
        part.to_owned()
    } else if base.get_char(base_len - 1) == '/' {
        let r = base.to_owned();
        r.concat(part)
    } else {
        let r = base.to_owned();
        let r = r.concat("/");
        proof {
            reveal_strlit("/");
        }
        let r = r.concat(part);
        assert(r@ =~= base@ + seq!['/'] + part@);
        r
    }
}

/// The last component of `directory`.
pub fn file_name(directory: &str) -> (r: String)
    ensures
        r@ == last_component(directory@),
{
    let len = directory.unicode_len();
    let mut start: usize = len;
    while start > 0 && directory.get_char(start - 1) != '/'
        invariant
            len == directory@.len(),
            start <= len,
            segment_start(directory@, start as int) == segment_start(directory@, len as int),
        decreases start,
    {
        start = start - 1;
    }
    proof {
        lemma_segment_start_bounds(directory@, len as int);
    }
    directory.substring_char(start, len).to_owned()
}

} // verus!
