//! The tolerant substring scanner and the line resolver.
//!
//! The scanner makes a single left-to-right pass over a haystack of raw
//! bytes and records, for every offset where the needle matches, the
//! offset just past the most recent line terminator seen so far.  Matching
//! is ASCII case-insensitive and skips a fixed set of punctuation bytes in
//! the haystack.  Multi-byte encoded characters are compared byte for
//! byte, so any diacritic folding must happen before scanning.
//!
//! The line resolver turns an offset produced by the scanner back into the
//! enclosing physical line of the text.

use crate::norm::canonical_key;
use crate::norm::title_ready;
use vstd::prelude::*;
use vstd::string::StringSliceAdditionalSpecFns;
use vstd::string::StrSliceExecFns;
use vstd::utf8::encode_utf8;
use vstd::utf8::is_char_boundary;
use vstd::utf8::encode_utf8_valid_utf8;
use vstd::utf8::is_char_boundary_start_end_of_seq;
use vstd::utf8::is_char_boundary_iff_not_is_continuation_byte;
use vstd::utf8::valid_utf8_split;

verus! {

/// Punctuation bytes that the scanner skips in the haystack without
/// consuming the needle: `:`, `.`, `'`, `?`, `;` (the comma is not
/// skipped).
pub open spec fn is_skip_byte(b: u8) -> bool {
    b == 58 || b == 46 || b == 39 || b == 63 || b == 59
}

/// ASCII case folding of one byte: `A`..`Z` fold to `a`..`z`.
pub open spec fn fold_byte(b: u8) -> u8 {
    if 65 <= b && b <= 90 {
        (b + 32) as u8
    } else {
        b
    }
}

/// A line terminator byte as the scanner tracks it: `\n` or `\r`.
pub open spec fn is_eol_byte(b: u8) -> bool {
    b == 10 || b == 13
}

/// Whether the needle `nee`, starting at needle position `n`, matches the
/// haystack `hay` from cursor `h` on: skip bytes in the haystack are
/// invisible, every other byte must equal the next needle byte after case
/// folding, and a haystack that runs out before the needle is consumed
/// does not match.
pub open spec fn matches_from(hay: Seq<u8>, nee: Seq<u8>, h: int, n: int) -> bool
    decreases hay.len() - h,
{
    if n >= nee.len() {
        true
    } else if h < 0 || h >= hay.len() {
        false
    } else if is_skip_byte(hay[h]) {
        matches_from(hay, nee, h + 1, n)
    } else if fold_byte(hay[h]) == nee[n] {
        matches_from(hay, nee, h + 1, n + 1)
    } else {
        false
    }
}

/// Whether the needle matches the haystack starting at offset `j`.
pub open spec fn match_at(hay: Seq<u8>, nee: Seq<u8>, j: int) -> bool {
    matches_from(hay, nee, j, 0)
}

/// The offset just past the last line terminator at a position `<= j`,
/// or `0` when no terminator occurs up to `j`.
pub open spec fn last_line_start(hay: Seq<u8>, j: int) -> int
    decreases j + 1,
{
    if j < 0 || j >= hay.len() {
        0
    } else if is_eol_byte(hay[j]) {
        j + 1
    } else {
        last_line_start(hay, j - 1)
    }
}

/// The scanner's output for all starting offsets below `end`: for every
/// offset where the needle matches, the enclosing line start is recorded,
/// in scan order and without deduplication.
pub open spec fn scan_upto(hay: Seq<u8>, nee: Seq<u8>, end: int) -> Seq<int>
    decreases end,
{
    if end <= 0 {
        Seq::empty()
    } else {
        scan_upto(hay, nee, end - 1) + (if match_at(hay, nee, end - 1) {
            seq![last_line_start(hay, end - 1)]
        } else {
            Seq::<int>::empty()
        })
    }
}

/// The scanner's full output over the whole haystack.
pub open spec fn scan_spec(hay: Seq<u8>, nee: Seq<u8>) -> Seq<int> {
    scan_upto(hay, nee, hay.len() as int)
}

/// Every offset the scanner records lies within the haystack.
pub proof fn lemma_scan_offsets_in_range(hay: Seq<u8>, nee: Seq<u8>, end: int)
    requires
        end <= hay.len(),
    ensures
        forall|k: int|
            0 <= k < scan_upto(hay, nee, end).len() ==> 0 <= #[trigger] scan_upto(
                hay,
                nee,
                end,
            )[k] <= hay.len(),
    decreases end,
{
    if end > 0 {
        lemma_scan_offsets_in_range(hay, nee, end - 1);
        lemma_last_line_start_in_range(hay, end - 1);
        let prev = scan_upto(hay, nee, end - 1);
        let cur = scan_upto(hay, nee, end);
        assert forall|k: int| 0 <= k < cur.len() implies 0 <= #[trigger] cur[k] <= hay.len() by {
            if k < prev.len() {
                assert(cur[k] == prev[k]);
            } else {
                assert(cur[k] == last_line_start(hay, end - 1));
            }
        }
    }
}

/// The recorded line start for position `j` lies between `0` and `j + 1`.
pub proof fn lemma_last_line_start_in_range(hay: Seq<u8>, j: int)
    ensures
        0 <= last_line_start(hay, j),
        -1 <= j && j < hay.len() ==> last_line_start(hay, j) <= j + 1,
    decreases j + 1,
{
    if 0 <= j && j < hay.len() && !is_eol_byte(hay[j]) {
        lemma_last_line_start_in_range(hay, j - 1);
    }
}

/// Whether the needle matches the haystack at offset `j`, by walking both
/// cursors as the matching relation prescribes.
fn match_at_idx(hay: &[u8], nee: &[u8], j: usize) -> (b: bool)
    requires
        j <= hay@.len(),
    ensures
        b == match_at(hay@, nee@, j as int),
{
    let mut h: usize = j;
    let mut n: usize = 0;
    while n < nee.len()
        invariant
            j <= h,
            n <= nee@.len(),
            match_at(hay@, nee@, j as int) == matches_from(hay@, nee@, h as int, n as int),
        decreases hay@.len() - h,
    {
        if h >= hay.len() {
            return false;
        }
        let b = hay[h];
        if b == 58 || b == 46 || b == 39 || b == 63 || b == 59 {
            h = h + 1;
        } else {
            let folded = if 65 <= b && b <= 90 {
                b + 32
            } else {
                b
            };
            if folded == nee[n] {
                h = h + 1;
                n = n + 1;
            } else {
                return false;
            }
        }
    }
    true
}

/// Scans `data` for the canonical key of `current_title`, returning the
/// line-start offset of every match in scan order.  Hits on one physical
/// line repeat that line's offset; deduplication is the caller's business.
pub fn search_indices(data: &String, current_title: &String) -> (indices: Vec<usize>)
    ensures
        indices@.map_values(|u: usize| u as int) == scan_spec(
            encode_utf8(data@),
            encode_utf8(canonical_key(current_title@)),
        ),
        forall|k: int|
            0 <= k < indices@.len() ==> #[trigger] indices@[k] as int <= encode_utf8(data@).len(),
{
    let title = title_ready(current_title);
    let hay = data.as_str().as_bytes();
    let nee = title.as_str().as_bytes();
    let n = hay.len();
    let mut indices: Vec<usize> = Vec::new();
    let mut last_eol: usize = 0;
    let mut j: usize = 0;
    proof {
        assert(indices@.map_values(|u: usize| u as int) =~= scan_upto(hay@, nee@, 0));
    }
    while j < n
        invariant
            j <= n,
            n == hay@.len(),
            hay@ == encode_utf8(data@),
            nee@ == encode_utf8(canonical_key(current_title@)),
            last_eol as int == last_line_start(hay@, j as int - 1),
            indices@.map_values(|u: usize| u as int) == scan_upto(hay@, nee@, j as int),
        decreases n - j,
    {
        let b = hay[j];
        if b == 10 || b == 13 {
            last_eol = j + 1;
        }
        proof {
            assert(last_eol as int == last_line_start(hay@, j as int));
        }
        if match_at_idx(hay, nee, j) {
            indices.push(last_eol);
            proof {
                assert(indices@.map_values(|u: usize| u as int) =~= scan_upto(
                    hay@,
                    nee@,
                    j as int,
                ).push(last_line_start(hay@, j as int)));
                assert(scan_upto(hay@, nee@, j + 1) =~= scan_upto(hay@, nee@, j as int).push(
                    last_line_start(hay@, j as int),
                ));
            }
        }
        j = j + 1;
    }
    proof {
        lemma_scan_offsets_in_range(hay@, nee@, n as int);
        assert forall|k: int|
            0 <= k < indices@.len() implies #[trigger] indices@[k] as int <= encode_utf8(
            data@,
        ).len() by {
            assert(indices@.map_values(|u: usize| u as int)[k] == indices@[k] as int);
        }
    }
    indices
}

/// The position of the last line-terminator byte (`\n` or `\r`)
/// strictly before `i`, or `-1` when there is none.
pub open spec fn last_eol_before(bytes: Seq<u8>, i: int) -> int
    decreases i,
{
    if i <= 0 || i > bytes.len() {
        -1
    } else if is_eol_byte(bytes[i - 1]) {
        i - 1
    } else {
        last_eol_before(bytes, i - 1)
    }
}

/// The position of the first line-terminator byte (`\n` or `\r`) at or
/// after `i`, or the length of the text when there is none.
pub open spec fn first_eol_at(bytes: Seq<u8>, i: int) -> int
    decreases bytes.len() - i,
{
    if i < 0 || i >= bytes.len() {
        bytes.len() as int
    } else if is_eol_byte(bytes[i]) {
        i
    } else {
        first_eol_at(bytes, i + 1)
    }
}

/// The bytes of the physical line that the line resolver returns for
/// `index`: the line begins just past the last terminator before `index`
/// when `calc` is set (or at `0` with none before), and at `index + 1`
/// otherwise; it ends at the next terminator at or after `index`, or at
/// the end of the text.  Out-of-range offsets, an inverted range, and a
/// range that does not fall on character boundaries all yield the empty
/// line.
pub open spec fn line_of(bytes: Seq<u8>, index: int, calc: bool) -> Seq<u8> {
    if !(0 <= index && index <= bytes.len()) {
        Seq::empty()
    } else {
        let begin = if calc {
            last_eol_before(bytes, index) + 1
        } else {
            index + 1
        };
        let end = first_eol_at(bytes, index);
        if begin <= end && end <= bytes.len() && is_char_boundary(bytes, begin)
            && is_char_boundary(bytes, end) {
            bytes.subrange(begin, end)
        } else {
            Seq::empty()
        }
    }
}

/// The physical line of `data` enclosing `index`, per `line_of`.
pub fn get_line_by_index(data: &String, index: &usize, calculate_line_begins: bool) -> (r: String)
    ensures
        encode_utf8(r@) == line_of(encode_utf8(data@), *index as int, calculate_line_begins),
{
    let s = data.as_str();
    let bytes = s.as_bytes();
    let n = bytes.len();
    let idx = *index;
    proof {
        encode_utf8_valid_utf8(s@);
        assert(encode_utf8(Seq::<char>::empty()) =~= Seq::<u8>::empty());
    }
    if idx > n {
        return String::new();
    }
    let begin: usize = if calculate_line_begins {
        let mut p: usize = idx;
        while p > 0 && !(bytes[p - 1] == 10 || bytes[p - 1] == 13)
            invariant
                p <= idx,
                idx <= n,
                n == bytes@.len(),
                last_eol_before(bytes@, idx as int) == last_eol_before(bytes@, p as int),
            decreases p,
        {
            p = p - 1;
        }
        p
    } else {
        if idx == n {
            return String::new();
        }
        idx + 1
    };
    let mut q: usize = idx;
    while q < n && !(bytes[q] == 10 || bytes[q] == 13)
        invariant
            idx <= q <= n,
            n == bytes@.len(),
            first_eol_at(bytes@, idx as int) == first_eol_at(bytes@, q as int),
        decreases n - q,
    {
        q = q + 1;
    }
    let end = q;
    if begin > end {
        return String::new();
    }
    if !s.is_char_boundary(begin) || !s.is_char_boundary(end) {
        return String::new();
    }
    let tail = s.split_at(begin).1;
    proof {
        valid_utf8_split(s.spec_bytes(), begin as int);
        if end < n {
            is_char_boundary_iff_not_is_continuation_byte(s.spec_bytes(), end as int);
            if end > begin {
                is_char_boundary_iff_not_is_continuation_byte(
                    tail.spec_bytes(),
                    end - begin,
                );
            }
        } else {
            is_char_boundary_start_end_of_seq(tail.spec_bytes());
        }
    }
    let line = tail.split_at(end - begin).0;
    proof {
        assert(line.spec_bytes() =~= s.spec_bytes().subrange(begin as int, end as int));
    }
    line.to_owned()
}


/// A window of haystack bytes with the scanner's skip bytes deleted and
/// ASCII case folded: what the scanner actually compares against the
/// needle.
pub open spec fn scrubbed(hay: Seq<u8>) -> Seq<u8>
    decreases hay.len(),
{
    if hay.len() == 0 {
        Seq::empty()
    } else if is_skip_byte(hay.first()) {
        scrubbed(hay.drop_first())
    } else {
        seq![fold_byte(hay.first())] + scrubbed(hay.drop_first())
    }
}

/// A partial match from `(h, n)` on means the needle's remaining bytes
/// stand scrubbed in some window of the haystack starting at `h`.
proof fn lemma_matches_from_spells(hay: Seq<u8>, nee: Seq<u8>, h: int, n: int)
    requires
        0 <= h <= hay.len(),
        0 <= n <= nee.len(),
        matches_from(hay, nee, h, n),
    ensures
        exists|e: int|
            h <= e <= hay.len() && scrubbed(#[trigger] hay.subrange(h, e)) == nee.skip(n),
    decreases hay.len() - h,
{
    if n >= nee.len() {
        assert(hay.subrange(h, h) =~= Seq::<u8>::empty());
        assert(nee.skip(n) =~= Seq::<u8>::empty());
        assert(scrubbed(hay.subrange(h, h)) == nee.skip(n));
    } else if is_skip_byte(hay[h]) {
        lemma_matches_from_spells(hay, nee, h + 1, n);
        let e = choose|e: int|
            h + 1 <= e <= hay.len() && scrubbed(#[trigger] hay.subrange(h + 1, e)) == nee.skip(n);
        assert(hay.subrange(h, e).first() == hay[h]);
        assert(hay.subrange(h, e).drop_first() =~= hay.subrange(h + 1, e));
        assert(scrubbed(hay.subrange(h, e)) == nee.skip(n));
    } else {
        lemma_matches_from_spells(hay, nee, h + 1, n + 1);
        let e = choose|e: int|
            h + 1 <= e <= hay.len() && scrubbed(#[trigger] hay.subrange(h + 1, e)) == nee.skip(
                n + 1,
            );
        assert(hay.subrange(h, e).first() == hay[h]);
        assert(hay.subrange(h, e).drop_first() =~= hay.subrange(h + 1, e));
        assert(scrubbed(hay.subrange(h, e)) =~= seq![fold_byte(hay[h])] + nee.skip(n + 1));
        assert(seq![fold_byte(hay[h])] + nee.skip(n + 1) =~= nee.skip(n));
    }
}

/// A scanner match is never an accident of the skip set: the needle's
/// bytes stand in the haystack from the match offset on, exactly, once
/// skip bytes are deleted and ASCII case is folded.  A tab in the
/// needle can only be matched by a tab in the text, so a needle framed
/// `id + tab` cannot match inside an identifier that merely extends
/// `id` — the framing that keeps `tt1856101` from matching a row keyed
/// `tt18561016`.
pub proof fn lemma_match_spells_needle(hay: Seq<u8>, nee: Seq<u8>, j: int)
    requires
        0 <= j <= hay.len(),
        match_at(hay, nee, j),
    ensures
        exists|e: int|
            j <= e <= hay.len() && scrubbed(#[trigger] hay.subrange(j, e)) == nee,
{
    lemma_matches_from_spells(hay, nee, j, 0);
    let e = choose|e: int|
        j <= e <= hay.len() && scrubbed(#[trigger] hay.subrange(j, e)) == nee.skip(0);
    assert(nee.skip(0) =~= nee);
    assert(scrubbed(hay.subrange(j, e)) == nee);
}

} // verus!
