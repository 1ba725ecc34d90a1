//! Title and node-name cleanup for the query driver: dot-to-space
//! rewriting with space trimming, and the final path component of a
//! node name.

use vstd::prelude::*;
use vstd::string::StrSliceExecFns;

verus! {

/// A dot rewritten to a space; other characters pass through.
pub open spec fn dot_to_space(c: char) -> char {
    if c == '.' {
        ' '
    } else {
        c
    }
}

/// The text with every dot rewritten to a space.
pub open spec fn replace_dots(s: Seq<char>) -> Seq<char>
    decreases s.len(),
{
    if s.len() == 0 {
        Seq::empty()
    } else {
        replace_dots(s.drop_last()).push(dot_to_space(s.last()))
    }
}

/// The length of `s` once trailing spaces are dropped.
pub open spec fn trim_end_len(s: Seq<char>) -> int
    decreases s.len(),
{
    if s.len() == 0 {
        0
    } else if s.last() != ' ' {
        s.len() as int
    } else {
        trim_end_len(s.drop_last())
    }
}

/// The position of the first character of `s` at or after `i` that is
/// not a space, or the length of `s`.
pub open spec fn first_non_space_from(s: Seq<char>, i: int) -> int
    decreases s.len() - i,
{
    if i < 0 || i >= s.len() {
        s.len() as int
    } else if s[i] != ' ' {
        i
    } else {
        first_non_space_from(s, i + 1)
    }
}

/// The cleaned title of a raw token: dots become spaces, and trailing
/// then leading spaces are dropped.
pub open spec fn get_title_spec(s: Seq<char>) -> Seq<char> {
    let t = replace_dots(s).take(trim_end_len(replace_dots(s)));
    t.skip(first_non_space_from(t, 0))
}

/// Dropping trailing spaces never lengthens the text.
proof fn lemma_trim_end_len_bound(s: Seq<char>)
    ensures
        0 <= trim_end_len(s) <= s.len(),
    decreases s.len(),
{
    if s.len() > 0 && s.last() == ' ' {
        lemma_trim_end_len_bound(s.drop_last());
    }
}

/// Cleans a raw title token: every dot becomes a space, and trailing
/// then leading spaces are dropped.
pub fn get_title(title_original: &str) -> (r: String)
    ensures
        r@ == get_title_spec(title_original@),
{
    let n = title_original.unicode_len();
    let mut replaced = String::new();
    let mut i: usize = 0;
    while i < n
        invariant
            i <= n,
            n == title_original@.len(),
            replaced@ == replace_dots(title_original@.take(i as int)),
        decreases n - i,
    {
        let c = title_original.get_char(i);
        if c == '.' {
            crate::shims::push_char(&mut replaced, ' ');
        } else {
            crate::shims::push_char(&mut replaced, c);
        }
        proof {
            assert(title_original@.take(i + 1).drop_last() =~= title_original@.take(i as int));
            assert(title_original@.take(i + 1).last() == title_original@[i as int]);
        }
        i = i + 1;
    }
    proof {
        assert(title_original@.take(n as int) =~= title_original@);
    }
    let rs = replaced.as_str();
    let mut end: usize = rs.unicode_len();
    proof {
        assert(rs@.take(end as int) =~= rs@);
    }
    while end > 0 && rs.get_char(end - 1) == ' '
        invariant
            end <= rs@.len(),
            rs@ == replaced@,
            trim_end_len(rs@) == trim_end_len(rs@.take(end as int)),
        decreases end,
    {
        proof {
            assert(rs@.take(end as int).drop_last() =~= rs@.take(end - 1));
            assert(rs@.take(end as int).last() == rs@[end - 1]);
        }
        end = end - 1;
    }
    proof {
        assert(rs@.take(rs@.len() as int) =~= rs@);
        if end > 0 {
            assert(rs@.take(end as int).last() == rs@[end - 1]);
        }
        assert(trim_end_len(rs@) == end as int);
    }
    let ghost t = rs@.take(end as int);
    let mut start: usize = 0;
    while start < end && rs.get_char(start) == ' '
        invariant
            start <= end,
            end <= rs@.len(),
            rs@ == replaced@,
            t == rs@.take(end as int),
            first_non_space_from(t, 0) == first_non_space_from(t, start as int),
        decreases end - start,
    {
        proof {
            assert(t[start as int] == rs@[start as int]);
        }
        start = start + 1;
    }
    proof {
        if start < end {
            assert(t[start as int] == rs@[start as int]);
        }
        assert(first_non_space_from(t, start as int) == start as int);
    }
    let out = rs.substring_char(start, end).to_owned();
    proof {
        assert(out@ =~= t.skip(first_non_space_from(t, 0)));
    }
    out
}

/// The position of the last path separator (`/` or `\`) strictly below
/// `bound`, or `-1`.
pub open spec fn last_sep_before(s: Seq<char>, bound: int) -> int
    decreases bound,
{
    if bound <= 0 || bound > s.len() {
        -1
    } else if s[bound - 1] == '/' || s[bound - 1] == '\\' {
        bound - 1
    } else {
        last_sep_before(s, bound - 1)
    }
}

/// The final path component of a node name: everything after the last
/// path separator, or the whole name when it has none.
pub open spec fn node_name_spec(s: Seq<char>) -> Seq<char> {
    let p = last_sep_before(s, s.len() as int);
    if p >= 0 {
        s.skip(p + 1)
    } else {
        s
    }
}

/// The final path component of a full node name.
pub fn get_node_name(full_node_name: &String) -> (r: String)
    ensures
        r@ == node_name_spec(full_node_name@),
{
    let s = full_node_name.as_str();
    let n = s.unicode_len();
    let mut p: usize = n;
    while p > 0 && !(s.get_char(p - 1) == '/' || s.get_char(p - 1) == '\\')
        invariant
            p <= n,
            n == s@.len(),
            s@ == full_node_name@,
            last_sep_before(s@, n as int) == last_sep_before(s@, p as int),
        decreases p,
    {
        p = p - 1;
    }
    if p == 0 {
        proof {
            assert(last_sep_before(s@, n as int) == -1);
        }
        return full_node_name.clone();
    }
    proof {
        assert(last_sep_before(s@, p as int) == p - 1);
        assert(last_sep_before(s@, n as int) == p - 1);
    }
    let out = s.substring_char(p, n).to_owned();
    proof {
        assert(out@ =~= s@.skip(p as int));
    }
    out
}

} // verus!
