//! Delimited-line field decoding.
//!
//! Each schema has a fixed, ordered field list.  A line splits on a
//! delimiter (tab preferred, comma as fallback when the line has no tab);
//! the trailing fields map to the trailing schema columns, and everything
//! before them is absorbed into the first field.  This tolerates free-text
//! early fields that contain unescaped delimiter characters.  A line with
//! fewer segments than the schema has fields fails to decode.

use vstd::prelude::*;
use vstd::string::StrSliceExecFns;

verus! {

/// Whether `c` occurs in `s`.
pub open spec fn contains_char(s: Seq<char>, c: char) -> bool {
    exists|i: int| 0 <= i < s.len() && s[i] == c
}

/// The delimiter used for a line: tab when the line has one, else comma.
pub open spec fn field_delim(s: Seq<char>) -> char {
    if contains_char(s, '\t') {
        '\t'
    } else {
        ','
    }
}

/// The greatest position strictly below `bound` holding `d`, or `-1`.
pub open spec fn last_index_before(s: Seq<char>, d: char, bound: int) -> int
    decreases bound,
{
    if bound <= 0 || bound > s.len() {
        -1
    } else if s[bound - 1] == d {
        bound - 1
    } else {
        last_index_before(s, d, bound - 1)
    }
}

/// The position of the `k`-th delimiter counting from the right end of
/// `s` (`k >= 1`), `s.len()` for `k == 0`, or `-1` when `s` holds fewer
/// than `k` delimiters.
pub open spec fn nth_delim_from_right(s: Seq<char>, d: char, k: int) -> int
    decreases k,
{
    if k <= 0 {
        s.len() as int
    } else {
        let rest = nth_delim_from_right(s, d, k - 1);
        if rest < 0 {
            -1
        } else {
            last_index_before(s, d, rest)
        }
    }
}

/// Delimiter positions from the right are strictly decreasing while they
/// exist, and never exceed the length of `s`.
pub proof fn lemma_nth_delim_decreasing(s: Seq<char>, d: char, k: int)
    requires
        k >= 0,
    ensures
        nth_delim_from_right(s, d, k) <= s.len(),
        k > 0 && nth_delim_from_right(s, d, k) >= 0 ==> nth_delim_from_right(s, d, k)
            < nth_delim_from_right(s, d, k - 1),
    decreases k,
{
    if k > 0 {
        lemma_nth_delim_decreasing(s, d, k - 1);
        let rest = nth_delim_from_right(s, d, k - 1);
        if rest >= 0 {
            lemma_last_index_before_bounds(s, d, rest);
        }
    }
}

/// `last_index_before` stays below its bound and inside `s`.
pub proof fn lemma_last_index_before_bounds(s: Seq<char>, d: char, bound: int)
    ensures
        bound >= 0 ==> last_index_before(s, d, bound) < bound,
        last_index_before(s, d, bound) >= -1,
        last_index_before(s, d, bound) < s.len(),
    decreases bound,
{
    if bound > 0 && bound <= s.len() && s[bound - 1] != d {
        lemma_last_index_before_bounds(s, d, bound - 1);
    }
}

/// The decoded field list of a line for a schema of `n` columns: the
/// last `n - 1` delimiter-separated segments become the last `n - 1`
/// fields, everything before them is the first field, and a line with
/// fewer than `n` segments decodes to `None`.
pub open spec fn decode_fields_spec(line: Seq<char>, n: int) -> Option<Seq<Seq<char>>> {
    let d = field_delim(line);
    if n < 1 {
        None
    } else if nth_delim_from_right(line, d, n - 1) < 0 {
        None
    } else {
        Some(
            Seq::new(
                n as nat,
                |i: int|
                    if i == 0 {
                        line.take(nth_delim_from_right(line, d, n - 1))
                    } else {
                        line.subrange(
                            nth_delim_from_right(line, d, n - i) + 1,
                            nth_delim_from_right(line, d, n - i - 1),
                        )
                    },
            ),
        )
    }
}

/// The positions of the rightmost `m` occurrences of `delim` in `s`,
/// right to left; shorter when `s` holds fewer occurrences.
fn delim_positions(s: &str, delim: char, m: usize) -> (pos: Vec<usize>)
    ensures
        pos.len() <= m,
        forall|k: int|
            0 <= k < pos.len() ==> #[trigger] pos@[k] == nth_delim_from_right(
                s@,
                delim,
                k + 1,
            ) && 0 <= pos@[k] < s@.len(),
        pos.len() < m ==> nth_delim_from_right(s@, delim, pos.len() + 1) < 0,
{
    let len = s.unicode_len();
    let mut pos: Vec<usize> = Vec::new();
    let mut j: usize = len;
    while j > 0 && pos.len() < m
        invariant
            j <= len,
            len == s@.len(),
            pos.len() <= m,
            forall|k: int|
                0 <= k < pos.len() ==> #[trigger] pos@[k] == nth_delim_from_right(
                    s@,
                    delim,
                    k + 1,
                ) && j <= pos@[k] < len,
            last_index_before(
                s@,
                delim,
                nth_delim_from_right(s@, delim, pos.len() as int),
            ) == last_index_before(s@, delim, j as int),
            nth_delim_from_right(s@, delim, pos.len() as int) >= 0,
        decreases j,
    {
        j = j - 1;
        if s.get_char(j) == delim {
            proof {
                assert(last_index_before(s@, delim, j + 1) == j);
                assert(nth_delim_from_right(s@, delim, pos@.len() as int + 1)
                    == last_index_before(
                    s@,
                    delim,
                    nth_delim_from_right(s@, delim, pos@.len() as int),
                ));
            }
            pos.push(j);
        }
    }
    proof {
        if pos@.len() < m {
            assert(j == 0);
            assert(last_index_before(s@, delim, 0) == -1);
            assert(nth_delim_from_right(s@, delim, pos@.len() as int + 1)
                == last_index_before(
                s@,
                delim,
                nth_delim_from_right(s@, delim, pos@.len() as int),
            ));
        }
    }
    pos
}

/// Splits `line` into the `n` fields of its schema, tab-first with comma
/// fallback, absorbing early unassigned segments into the first field.
#[verifier::rlimit(60)]
pub fn decode_fields(line: &String, n: usize) -> (r: Option<Vec<String>>)
    requires
        n >= 1,
    ensures
        match r {
            Some(fields) => {
                &&& decode_fields_spec(line@, n as int) is Some
                &&& fields.deep_view() == decode_fields_spec(line@, n as int).unwrap()
            },
            None => decode_fields_spec(line@, n as int) is None,
        },
{
    let s = line.as_str();
    let len = s.unicode_len();
    let ghost d_spec = field_delim(line@);

    // choose the delimiter: tab when present, comma otherwise
    let mut has_tab = false;
    let mut i: usize = 0;
    while i < len
        invariant
            i <= len,
            len == s@.len(),
            has_tab == exists|k: int| 0 <= k < i && s@[k] == '\t',
        decreases len - i,
    {
        if s.get_char(i) == '\t' {
            has_tab = true;
        }
        i = i + 1;
    }
    let delim: char = if has_tab {
        '\t'
    } else {
        ','
    };
    proof {
        assert(delim == d_spec);
    }

    let pos = delim_positions(s, delim, n - 1);
    if pos.len() < n - 1 {
        proof {
            lemma_nth_missing_monotone(line@, d_spec, pos@.len() as int + 1, n as int - 1);
        }
        return None;
    }

    let mut fields: Vec<String> = Vec::new();
    let first_end: usize = if n == 1 {
        len
    } else {
        pos[n - 2]
    };
    proof {
        assert(nth_delim_from_right(line@, d_spec, n - 1) == first_end as int);
    }
    fields.push(s.substring_char(0, first_end).to_owned());
    let mut fi: usize = 1;
    while fi < n
        invariant
            1 <= fi <= n,
            n >= 1,
            len == s@.len(),
            s@ == line@,
            d_spec == field_delim(line@),
            pos.len() == n - 1,
            forall|k: int|
                0 <= k < pos.len() ==> #[trigger] pos@[k] == nth_delim_from_right(
                    line@,
                    d_spec,
                    k + 1,
                ) && 0 <= pos@[k] < len,
            fields.len() == fi,
            fields@[0]@ == line@.take(nth_delim_from_right(line@, d_spec, n - 1)),
            forall|k: int|
                1 <= k < fi ==> #[trigger] fields@[k]@ == line@.subrange(
                    nth_delim_from_right(line@, d_spec, n - k) + 1,
                    nth_delim_from_right(line@, d_spec, n - k - 1),
                ),
        decreases n - fi,
    {
        let begin = pos[n - 1 - fi] + 1;
        let end: usize = if fi == n - 1 {
            len
        } else {
            pos[n - 2 - fi]
        };
        proof {
            assert(begin as int == nth_delim_from_right(line@, d_spec, n - fi) + 1);
            assert(end as int == nth_delim_from_right(line@, d_spec, n - fi - 1));
            lemma_nth_delim_decreasing(line@, d_spec, n - fi);
        }
        fields.push(s.substring_char(begin, end).to_owned());
        fi = fi + 1;
    }
    proof {
        let spec_fields = decode_fields_spec(line@, n as int).unwrap();
        assert forall|k: int| 0 <= k < n implies fields.deep_view()[k] == spec_fields[k] by {
            assert(fields.deep_view()[k] == fields@[k]@);
        }
        assert(fields.deep_view() =~= spec_fields);
    }
    Some(fields)
}

/// Once the `k`-th delimiter from the right is missing, every later one
/// is missing too.
proof fn lemma_nth_missing_monotone(s: Seq<char>, d: char, k: int, m: int)
    requires
        0 <= k <= m,
        nth_delim_from_right(s, d, k) < 0,
    ensures
        nth_delim_from_right(s, d, m) < 0,
    decreases m - k,
{
    if k < m {
        lemma_nth_missing_monotone(s, d, k + 1, m);
    }
}

} // verus!
