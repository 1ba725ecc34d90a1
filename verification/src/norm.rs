//! Canonical text folding: ASCII case folding, punctuation deletion, and
//! diacritic folding to base Latin letters.
//!
//! A canonical key is the text lowercased with the characters
//! `: . , ' ? ;` deleted outright.  For one corpus the key is additionally
//! run through a fixed diacritic table mapping each accented Latin letter
//! to its base letter.

use crate::shims::push_char;
use vstd::prelude::*;
use vstd::string::StringExecFns;

verus! {

/// Characters deleted outright when a canonical key is built.
pub open spec fn is_removed_char(c: char) -> bool {
    c == ':' || c == '.' || c == ',' || c == '\'' || c == '?' || c == ';'
}

/// ASCII case folding of one character: `A`..`Z` fold to `a`..`z`, all
/// other characters pass through unchanged.
pub open spec fn lower_char(c: char) -> char {
    if 'A' <= c && c <= 'Z' {
        ((c as u32) + 32) as char
    } else {
        c
    }
}

/// ASCII case folding of a whole character sequence.
pub open spec fn lower_all(s: Seq<char>) -> Seq<char>
    decreases s.len(),
{
    if s.len() == 0 {
        Seq::empty()
    } else {
        lower_all(s.drop_last()).push(lower_char(s.last()))
    }
}

/// The canonical key of a character sequence: every character is case
/// folded, and the removed punctuation characters are deleted (not
/// replaced by anything).
pub open spec fn canonical_key(s: Seq<char>) -> Seq<char>
    decreases s.len(),
{
    if s.len() == 0 {
        Seq::empty()
    } else {
        canonical_key(s.drop_last()) + (if is_removed_char(s.last()) {
            Seq::<char>::empty()
        } else {
            seq![lower_char(s.last())]
        })
    }
}

/// The fixed diacritic table: each accented Latin letter in the common
/// Western European range folds to its base letter, `ß` folds to `ss`,
/// and every unmapped character passes through unchanged.
pub open spec fn fold_char(c: char) -> Seq<char> {
    match c {
        'À' | 'Á' | 'Â' | 'Ã' | 'Ä' | 'Å' | 'Æ' => seq!['A'],
        'Þ' => seq!['B'],
        'Ç' | 'Č' => seq!['C'],
        'Ď' | 'Ð' => seq!['D'],
        'Ě' | 'È' | 'É' | 'Ê' | 'Ë' => seq!['E'],
        'Ƒ' => seq!['F'],
        'Ì' | 'Í' | 'Î' | 'Ï' => seq!['I'],
        'Ň' | 'Ñ' => seq!['N'],
        'Ò' | 'Ó' | 'Ô' | 'Õ' | 'Ö' | 'Ø' => seq!['O'],
        'Ř' => seq!['R'],
        'ß' => seq!['s', 's'],
        'Š' => seq!['S'],
        'Ť' => seq!['T'],
        'Ů' | 'Ù' | 'Ú' | 'Û' | 'Ü' => seq!['U'],
        'Ý' => seq!['Y'],
        'Ž' => seq!['Z'],
        'à' | 'á' | 'â' | 'ã' | 'ä' | 'å' | 'æ' => seq!['a'],
        'þ' => seq!['b'],
        'ç' | 'č' => seq!['c'],
        'ď' | 'ð' => seq!['d'],
        'ě' | 'è' | 'é' | 'ê' | 'ë' => seq!['e'],
        'ƒ' => seq!['f'],
        'ì' | 'í' | 'î' | 'ï' => seq!['i'],
        'ñ' | 'ň' => seq!['n'],
        'ò' | 'ó' | 'ô' | 'õ' | 'ö' | 'ø' => seq!['o'],
        'ř' => seq!['r'],
        'š' => seq!['s'],
        'ť' => seq!['t'],
        'ů' | 'ù' | 'ú' | 'û' | 'ü' => seq!['u'],
        'ý' | 'ÿ' => seq!['y'],
        'ž' => seq!['z'],
        _ => seq![c],
    }
}

/// Diacritic folding of a whole character sequence.
pub open spec fn fold_chars(s: Seq<char>) -> Seq<char>
    decreases s.len(),
{
    if s.len() == 0 {
        Seq::empty()
    } else {
        fold_chars(s.drop_last()) + fold_char(s.last())
    }
}

/// A single-character string.
fn char_string(c: char) -> (r: String)
    ensures
        r@ == seq![c],
{
    let mut s = String::new();
    push_char(&mut s, c);
    proof {
        assert(s@ =~= seq![c]);
    }
    s
}

/// What one character folds to under the diacritic table.
pub fn find_char_match(c: char) -> (r: String)
    ensures
        r@ == fold_char(c),
{
    match c {
        'À' | 'Á' | 'Â' | 'Ã' | 'Ä' | 'Å' | 'Æ' => char_string('A'),
        'Þ' => char_string('B'),
        'Ç' | 'Č' => char_string('C'),
        'Ď' | 'Ð' => char_string('D'),
        'Ě' | 'È' | 'É' | 'Ê' | 'Ë' => char_string('E'),
        'Ƒ' => char_string('F'),
        'Ì' | 'Í' | 'Î' | 'Ï' => char_string('I'),
        'Ň' | 'Ñ' => char_string('N'),
        'Ò' | 'Ó' | 'Ô' | 'Õ' | 'Ö' | 'Ø' => char_string('O'),
        'Ř' => char_string('R'),
        'ß' => {
            let mut s = String::new();
            push_char(&mut s, 's');
            push_char(&mut s, 's');
            proof {
                assert(s@ =~= seq!['s', 's']);
            }
            s
        },
        'Š' => char_string('S'),
        'Ť' => char_string('T'),
        'Ů' | 'Ù' | 'Ú' | 'Û' | 'Ü' => char_string('U'),
        'Ý' => char_string('Y'),
        'Ž' => char_string('Z'),
        'à' | 'á' | 'â' | 'ã' | 'ä' | 'å' | 'æ' => char_string('a'),
        'þ' => char_string('b'),
        'ç' | 'č' => char_string('c'),
        'ď' | 'ð' => char_string('d'),
        'ě' | 'è' | 'é' | 'ê' | 'ë' => char_string('e'),
        'ƒ' => char_string('f'),
        'ì' | 'í' | 'î' | 'ï' => char_string('i'),
        'ñ' | 'ň' => char_string('n'),
        'ò' | 'ó' | 'ô' | 'õ' | 'ö' | 'ø' => char_string('o'),
        'ř' => char_string('r'),
        'š' => char_string('s'),
        'ť' => char_string('t'),
        'ů' | 'ù' | 'ú' | 'û' | 'ü' => char_string('u'),
        'ý' | 'ÿ' => char_string('y'),
        'ž' => char_string('z'),
        _ => char_string(c),
    }
}

/// Folds every diacritic character of `string` to its base Latin letter
/// via the fixed table; unmapped characters pass through unchanged.
pub fn remove_diacritics(string: &str) -> (r: String)
    ensures
        r@ == fold_chars(string@),
{
    let n = string.unicode_len();
    let mut out = String::new();
    let mut i: usize = 0;
    while i < n
        invariant
            i <= n,
            n == string@.len(),
            out@ == fold_chars(string@.take(i as int)),
        decreases n - i,
    {
        let c = string.get_char(i);
        let piece = find_char_match(c);
        out.append(piece.as_str());
        proof {
            assert(string@.take(i + 1).drop_last() =~= string@.take(i as int));
            assert(string@.take(i + 1).last() == string@[i as int]);
        }
        i = i + 1;
    }
    proof {
        assert(string@.take(n as int) =~= string@);
    }
    out
}

/// ASCII case folding of one character, executable form.
fn to_lower(c: char) -> (r: char)
    ensures
        r == lower_char(c),
{
    if 'A' <= c && c <= 'Z' {
        (((c as u32) as u8) + 32) as char
    } else {
        c
    }
}

/// The canonical key of a title: lowercased, with the characters
/// `: . , ' ? ;` deleted outright.
pub fn title_ready(current_title: &String) -> (r: String)
    ensures
        r@ == canonical_key(current_title@),
{
    let s = current_title.as_str();
    let n = s.unicode_len();
    let mut out = String::new();
    let mut i: usize = 0;
    while i < n
        invariant
            i <= n,
            n == s@.len(),
            s@ == current_title@,
            out@ == canonical_key(s@.take(i as int)),
        decreases n - i,
    {
        let c = s.get_char(i);
        if !(c == ':' || c == '.' || c == ',' || c == '\'' || c == '?' || c == ';') {
            let lc = to_lower(c);
            push_char(&mut out, lc);
        }
        proof {
            assert(s@.take(i + 1).drop_last() =~= s@.take(i as int));
            assert(s@.take(i + 1).last() == s@[i as int]);
        }
        i = i + 1;
    }
    proof {
        assert(s@.take(n as int) =~= s@);
    }
    out
}

/// ASCII case folding of a whole string, executable form.
pub(crate) fn lower_string(s: &String) -> (r: String)
    ensures
        r@ == lower_all(s@),
{
    let st = s.as_str();
    let n = st.unicode_len();
    let mut out = String::new();
    let mut i: usize = 0;
    while i < n
        invariant
            i <= n,
            n == st@.len(),
            st@ == s@,
            out@ == lower_all(st@.take(i as int)),
        decreases n - i,
    {
        let c = st.get_char(i);
        let lc = to_lower(c);
        push_char(&mut out, lc);
        proof {
            assert(st@.take(i + 1).drop_last() =~= st@.take(i as int));
            assert(st@.take(i + 1).last() == st@[i as int]);
        }
        i = i + 1;
    }
    proof {
        assert(st@.take(n as int) =~= st@);
    }
    out
}


/// A character left unchanged by case folding, diacritic folding and
/// punctuation deletion alike.
pub open spec fn stable_char(c: char) -> bool {
    &&& !is_removed_char(c)
    &&& lower_char(c) == c
    &&& fold_char(c) == seq![c]
}

/// Every character of a canonical key survives the key unchanged: it is
/// neither deleted nor further case folded.
pub proof fn lemma_canonical_key_chars(s: Seq<char>)
    ensures
        forall|i: int|
            0 <= i < canonical_key(s).len() ==> !is_removed_char(#[trigger] canonical_key(s)[i])
                && lower_char(canonical_key(s)[i]) == canonical_key(s)[i] && !('A'
                <= canonical_key(s)[i] && canonical_key(s)[i] <= 'Z'),
    decreases s.len(),
{
    if s.len() > 0 {
        lemma_canonical_key_chars(s.drop_last());
        let k = canonical_key(s);
        let kb = canonical_key(s.drop_last());
        assert forall|i: int|
            0 <= i < k.len() implies !is_removed_char(#[trigger] k[i]) && lower_char(k[i]) == k[i]
            && !('A' <= k[i] && k[i] <= 'Z') by {
            if i < kb.len() {
                assert(k[i] == kb[i]);
            } else {
                assert(!is_removed_char(s.last()));
                assert(k[i] == lower_char(s.last()));
            }
        }
    }
}

/// A sequence whose characters are all kept and all fixed by case
/// folding is its own canonical key.
pub proof fn lemma_canonical_key_fixed(u: Seq<char>)
    requires
        forall|i: int|
            0 <= i < u.len() ==> !is_removed_char(#[trigger] u[i]) && lower_char(u[i]) == u[i],
    ensures
        canonical_key(u) == u,
    decreases u.len(),
{
    if u.len() > 0 {
        lemma_canonical_key_fixed(u.drop_last());
        assert(u.drop_last().push(u.last()) =~= u);
        assert(canonical_key(u) =~= u);
    }
}

/// The canonical key is idempotent: taking it twice gives the same key
/// as taking it once.
pub proof fn lemma_canonical_key_idempotent(s: Seq<char>)
    ensures
        canonical_key(canonical_key(s)) == canonical_key(s),
{
    lemma_canonical_key_chars(s);
    lemma_canonical_key_fixed(canonical_key(s));
}

/// Every character the diacritic table produces is itself unmapped by
/// the table.
proof fn lemma_fold_char_output_unmapped(c: char)
    ensures
        forall|i: int|
            0 <= i < fold_char(c).len() ==> fold_char(#[trigger] fold_char(c)[i]) == seq![
                fold_char(c)[i],
            ],
{
}

/// Case folding a table-unmapped character yields a table-unmapped
/// character.
proof fn lemma_lower_unmapped(c: char)
    requires
        fold_char(c) == seq![c],
    ensures
        fold_char(lower_char(c)) == seq![lower_char(c)],
{
}

/// Every character of a diacritic fold's output is table-unmapped.
proof fn lemma_fold_chars_output_unmapped(u: Seq<char>)
    ensures
        forall|i: int|
            0 <= i < fold_chars(u).len() ==> fold_char(#[trigger] fold_chars(u)[i]) == seq![
                fold_chars(u)[i],
            ],
    decreases u.len(),
{
    if u.len() > 0 {
        lemma_fold_chars_output_unmapped(u.drop_last());
        lemma_fold_char_output_unmapped(u.last());
        let f = fold_chars(u);
        let fb = fold_chars(u.drop_last());
        assert forall|i: int|
            0 <= i < f.len() implies fold_char(#[trigger] f[i]) == seq![f[i]] by {
            if i < fb.len() {
                assert(f[i] == fb[i]);
            } else {
                assert(f[i] == fold_char(u.last())[i - fb.len()]);
            }
        }
    }
}

/// The canonical key of a table-unmapped text is table-unmapped.
proof fn lemma_canonical_key_unmapped(u: Seq<char>)
    requires
        forall|i: int| 0 <= i < u.len() ==> fold_char(#[trigger] u[i]) == seq![u[i]],
    ensures
        forall|i: int|
            0 <= i < canonical_key(u).len() ==> fold_char(#[trigger] canonical_key(u)[i]) == seq![
                canonical_key(u)[i],
            ],
    decreases u.len(),
{
    if u.len() > 0 {
        assert(forall|i: int| 0 <= i < u.drop_last().len() ==> fold_char(
            #[trigger] u.drop_last()[i],
        ) == seq![u.drop_last()[i]]);
        lemma_canonical_key_unmapped(u.drop_last());
        let k = canonical_key(u);
        let kb = canonical_key(u.drop_last());
        assert forall|i: int|
            0 <= i < k.len() implies fold_char(#[trigger] k[i]) == seq![k[i]] by {
            if i < kb.len() {
                assert(k[i] == kb[i]);
            } else {
                assert(k[i] == lower_char(u.last()));
                assert(fold_char(u.last()) == seq![u.last()]);
                lemma_lower_unmapped(u.last());
            }
        }
    }
}

/// A sequence of stable characters is fixed by the canonical key and by
/// diacritic folding alike.
proof fn lemma_stable_fixed(v: Seq<char>)
    requires
        forall|i: int| 0 <= i < v.len() ==> stable_char(#[trigger] v[i]),
    ensures
        canonical_key(v) == v,
        fold_chars(v) == v,
    decreases v.len(),
{
    if v.len() > 0 {
        assert(forall|i: int| 0 <= i < v.drop_last().len() ==> stable_char(
            #[trigger] v.drop_last()[i],
        ));
        lemma_stable_fixed(v.drop_last());
        assert(canonical_key(v) =~= v);
        assert(fold_chars(v) =~= v);
    }
}

/// The diacritic-folding canonical key — the table applied first, case
/// folding and punctuation deletion after — is idempotent on every
/// input.
pub proof fn lemma_folded_key_idempotent(s: Seq<char>)
    ensures
        canonical_key(fold_chars(canonical_key(fold_chars(s)))) == canonical_key(fold_chars(s)),
{
    let u = fold_chars(s);
    let t = canonical_key(u);
    lemma_fold_chars_output_unmapped(s);
    lemma_canonical_key_unmapped(u);
    lemma_canonical_key_chars(u);
    assert forall|i: int| 0 <= i < t.len() implies stable_char(#[trigger] t[i]) by {
    }
    lemma_stable_fixed(t);
}

} // verus!
