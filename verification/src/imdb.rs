//! The title catalog, alternate-titles corpus and ratings corpus: their
//! records, per-schema line decoders, and the scan-and-accept searches
//! that resolve a query against them.

#![allow(non_snake_case)]

use crate::fields::decode_fields;
use crate::fields::decode_fields_spec;
use crate::norm::canonical_key;
use crate::norm::fold_chars;
use crate::norm::lower_all;
use crate::norm::remove_diacritics;
use crate::norm::lower_string;
use crate::norm::title_ready;
use crate::scan::get_line_by_index;
use crate::scan::line_of;
use crate::scan::scan_spec;
use crate::scan::search_indices;
use crate::shims::push_char;
use crate::shims::str_eq;
use vstd::prelude::*;
use vstd::string::StringExecFns;
use vstd::utf8::decode_utf8;
use vstd::utf8::encode_utf8;
use vstd::utf8::encode_utf8_decode_utf8;

verus! {

/// One row of the alternate-titles corpus.
pub struct TitleAkasRecord {
    pub titleId: String,
    pub ordering: String,
    pub title: String,
    pub region: String,
    pub language: String,
    pub types: String,
    pub attributes: String,
    pub isOriginalTitle: String,
}

/// The mathematical model of a `TitleAkasRecord`.
pub ghost struct AkaView {
    pub titleId: Seq<char>,
    pub ordering: Seq<char>,
    pub title: Seq<char>,
    pub region: Seq<char>,
    pub language: Seq<char>,
    pub types: Seq<char>,
    pub attributes: Seq<char>,
    pub isOriginalTitle: Seq<char>,
}

impl DeepView for TitleAkasRecord {
    type V = AkaView;

    open spec fn deep_view(&self) -> AkaView {
        AkaView {
            titleId: self.titleId@,
            ordering: self.ordering@,
            title: self.title@,
            region: self.region@,
            language: self.language@,
            types: self.types@,
            attributes: self.attributes@,
            isOriginalTitle: self.isOriginalTitle@,
        }
    }
}

/// One row of the title catalog.
pub struct TitleBasicsRecord {
    pub tconst: String,
    pub titleType: String,
    pub primaryTitle: String,
    pub originalTitle: String,
    pub isAdult: String,
    pub startYear: String,
    pub endYear: String,
    pub runtimeMinutes: String,
    pub genres: String,
}

/// The mathematical model of a `TitleBasicsRecord`.
pub ghost struct BasicView {
    pub tconst: Seq<char>,
    pub titleType: Seq<char>,
    pub primaryTitle: Seq<char>,
    pub originalTitle: Seq<char>,
    pub isAdult: Seq<char>,
    pub startYear: Seq<char>,
    pub endYear: Seq<char>,
    pub runtimeMinutes: Seq<char>,
    pub genres: Seq<char>,
}

impl DeepView for TitleBasicsRecord {
    type V = BasicView;

    open spec fn deep_view(&self) -> BasicView {
        BasicView {
            tconst: self.tconst@,
            titleType: self.titleType@,
            primaryTitle: self.primaryTitle@,
            originalTitle: self.originalTitle@,
            isAdult: self.isAdult@,
            startYear: self.startYear@,
            endYear: self.endYear@,
            runtimeMinutes: self.runtimeMinutes@,
            genres: self.genres@,
        }
    }
}

impl Default for TitleBasicsRecord {
    /// An all-empty catalog row.
    fn default() -> (r: TitleBasicsRecord)
        ensures
            r.tconst@ == Seq::<char>::empty(),
            r.titleType@ == Seq::<char>::empty(),
            r.primaryTitle@ == Seq::<char>::empty(),
            r.originalTitle@ == Seq::<char>::empty(),
            r.isAdult@ == Seq::<char>::empty(),
            r.startYear@ == Seq::<char>::empty(),
            r.endYear@ == Seq::<char>::empty(),
            r.runtimeMinutes@ == Seq::<char>::empty(),
            r.genres@ == Seq::<char>::empty(),
    {
        TitleBasicsRecord {
            tconst: String::new(),
            titleType: String::new(),
            primaryTitle: String::new(),
            originalTitle: String::new(),
            isAdult: String::new(),
            startYear: String::new(),
            endYear: String::new(),
            runtimeMinutes: String::new(),
            genres: String::new(),
        }
    }
}

/// One row of the ratings corpus.
pub struct ImdbRatings {
    pub tconst: String,
    pub averageRating: String,
    pub numVotes: String,
}

/// The mathematical model of an `ImdbRatings` row.
pub ghost struct RatingView {
    pub tconst: Seq<char>,
    pub averageRating: Seq<char>,
    pub numVotes: Seq<char>,
}

impl DeepView for ImdbRatings {
    type V = RatingView;

    open spec fn deep_view(&self) -> RatingView {
        RatingView {
            tconst: self.tconst@,
            averageRating: self.averageRating@,
            numVotes: self.numVotes@,
        }
    }
}

impl Default for ImdbRatings {
    /// An all-empty ratings row.
    fn default() -> (r: ImdbRatings)
        ensures
            r.tconst@ == Seq::<char>::empty(),
            r.averageRating@ == Seq::<char>::empty(),
            r.numVotes@ == Seq::<char>::empty(),
    {
        ImdbRatings { tconst: String::new(), averageRating: String::new(), numVotes: String::new() }
    }
}

/// One resolved catalog entity, with an optional attached rating.
pub struct Imdb {
    pub tconst: String,
    pub titleType: String,
    pub primaryTitle: String,
    pub originalTitle: String,
    pub year: String,
    pub runtimeMinutes: String,
    pub genres: String,
    pub ratings: Option<String>,
}

/// The mathematical model of an `Imdb` entity.
pub ghost struct ImdbView {
    pub tconst: Seq<char>,
    pub titleType: Seq<char>,
    pub primaryTitle: Seq<char>,
    pub originalTitle: Seq<char>,
    pub year: Seq<char>,
    pub runtimeMinutes: Seq<char>,
    pub genres: Seq<char>,
    pub ratings: Option<Seq<char>>,
}

impl DeepView for Imdb {
    type V = ImdbView;

    open spec fn deep_view(&self) -> ImdbView {
        ImdbView {
            tconst: self.tconst@,
            titleType: self.titleType@,
            primaryTitle: self.primaryTitle@,
            originalTitle: self.originalTitle@,
            year: self.year@,
            runtimeMinutes: self.runtimeMinutes@,
            genres: self.genres@,
            ratings: match self.ratings {
                Some(s) => Some(s@),
                None => None,
            },
        }
    }
}

impl Default for Imdb {
    /// An all-empty entity with no rating.
    fn default() -> (r: Imdb)
        ensures
            r.deep_view() == (ImdbView {
                tconst: Seq::<char>::empty(),
                titleType: Seq::<char>::empty(),
                primaryTitle: Seq::<char>::empty(),
                originalTitle: Seq::<char>::empty(),
                year: Seq::<char>::empty(),
                runtimeMinutes: Seq::<char>::empty(),
                genres: Seq::<char>::empty(),
                ratings: None::<Seq<char>>,
            }),
    {
        Imdb {
            tconst: String::new(),
            titleType: String::new(),
            primaryTitle: String::new(),
            originalTitle: String::new(),
            year: String::new(),
            runtimeMinutes: String::new(),
            genres: String::new(),
            ratings: None,
        }
    }
}

/// The alternate-titles row decoded from one line, or `None` for an
/// under-width line.
pub open spec fn aka_of_line(line: Seq<char>) -> Option<AkaView> {
    match decode_fields_spec(line, 8) {
        None => None,
        Some(f) => Some(
            AkaView {
                titleId: f[0],
                ordering: f[1],
                title: f[2],
                region: f[3],
                language: f[4],
                types: f[5],
                attributes: f[6],
                isOriginalTitle: f[7],
            },
        ),
    }
}

/// The catalog row decoded from one line, or `None` for an under-width
/// line.
pub open spec fn basic_of_line(line: Seq<char>) -> Option<BasicView> {
    match decode_fields_spec(line, 9) {
        None => None,
        Some(f) => Some(
            BasicView {
                tconst: f[0],
                titleType: f[1],
                primaryTitle: f[2],
                originalTitle: f[3],
                isAdult: f[4],
                startYear: f[5],
                endYear: f[6],
                runtimeMinutes: f[7],
                genres: f[8],
            },
        ),
    }
}

/// The ratings row decoded from one line, or `None` for an under-width
/// line.
pub open spec fn rating_of_line(line: Seq<char>) -> Option<RatingView> {
    match decode_fields_spec(line, 3) {
        None => None,
        Some(f) => Some(RatingView { tconst: f[0], averageRating: f[1], numVotes: f[2] }),
    }
}

/// Decodes one alternate-titles line: eight columns, right to left, the
/// remainder absorbed into the first.
pub fn get_aka(line: &String) -> (r: Option<TitleAkasRecord>)
    ensures
        match r {
            Some(rec) => aka_of_line(line@) == Some(rec.deep_view()),
            None => aka_of_line(line@) is None,
        },
{
    match decode_fields(line, 8) {
        None => None,
        Some(f) => {
            proof {
                assert(f@.len() == f.deep_view().len());
                assert(f.deep_view().len() == 8);
            }
            Some(
            TitleAkasRecord {
                titleId: f[0].clone(),
                ordering: f[1].clone(),
                title: f[2].clone(),
                region: f[3].clone(),
                language: f[4].clone(),
                types: f[5].clone(),
                attributes: f[6].clone(),
                isOriginalTitle: f[7].clone(),
                },
            )
        },
    }
}

/// Decodes one catalog line: nine columns, right to left, the remainder
/// absorbed into the first.
pub fn get_basic(line: &String) -> (r: Option<TitleBasicsRecord>)
    ensures
        match r {
            Some(rec) => basic_of_line(line@) == Some(rec.deep_view()),
            None => basic_of_line(line@) is None,
        },
{
    match decode_fields(line, 9) {
        None => None,
        Some(f) => {
            proof {
                assert(f@.len() == f.deep_view().len());
                assert(f.deep_view().len() == 9);
            }
            Some(
            TitleBasicsRecord {
                tconst: f[0].clone(),
                titleType: f[1].clone(),
                primaryTitle: f[2].clone(),
                originalTitle: f[3].clone(),
                isAdult: f[4].clone(),
                startYear: f[5].clone(),
                endYear: f[6].clone(),
                runtimeMinutes: f[7].clone(),
                genres: f[8].clone(),
                },
            )
        },
    }
}

/// Decodes one ratings line: three columns, right to left, the remainder
/// absorbed into the first.
pub fn get_rating(line: &String) -> (r: Option<ImdbRatings>)
    ensures
        match r {
            Some(rec) => rating_of_line(line@) == Some(rec.deep_view()),
            None => rating_of_line(line@) is None,
        },
{
    match decode_fields(line, 3) {
        None => None,
        Some(f) => {
            proof {
                assert(f@.len() == f.deep_view().len());
                assert(f.deep_view().len() == 3);
            }
            Some(
            ImdbRatings {
                tconst: f[0].clone(),
                averageRating: f[1].clone(),
                numVotes: f[2].clone(),
                },
            )
        },
    }
}


/// The allow-listed catalog kinds a query may resolve to.
pub open spec fn allowed_kind(t: Seq<char>) -> bool {
    ||| t == "movie"@
    ||| t == "short"@
    ||| t == "tvSeries"@
    ||| t == "tvMiniSeries"@
    ||| t == "tvMovie"@
}

/// Whether `t` is an allow-listed catalog kind.
pub fn is_allowed_kind(t: &String) -> (b: bool)
    ensures
        b == allowed_kind(t@),
{
    str_eq(t.as_str(), "movie") || str_eq(t.as_str(), "short") || str_eq(t.as_str(), "tvSeries")
        || str_eq(t.as_str(), "tvMiniSeries") || str_eq(t.as_str(), "tvMovie")
}

/// Whether some entity in `s` already carries the identifier `id`.
pub open spec fn has_tconst(s: Seq<ImdbView>, id: Seq<char>) -> bool {
    exists|k: int| 0 <= k < s.len() && s[k].tconst == id
}

/// Whether some entity in `imdbs` already carries the identifier `id`.
pub fn contains_tconst(imdbs: &Vec<Imdb>, id: &String) -> (b: bool)
    ensures
        b == has_tconst(imdbs.deep_view(), id@),
{
    let mut i: usize = 0;
    while i < imdbs.len()
        invariant
            i <= imdbs@.len(),
            forall|k: int| 0 <= k < i ==> #[trigger] imdbs.deep_view()[k].tconst != id@,
        decreases imdbs@.len() - i,
    {
        if imdbs[i].tconst.eq(id) {
            proof {
                assert(imdbs.deep_view()[i as int].tconst == id@);
            }
            return true;
        }
        proof {
            assert(imdbs.deep_view()[i as int].tconst == imdbs@[i as int].tconst@);
        }
        i = i + 1;
    }
    false
}

/// The characters of the physical line that encloses scanner offset
/// `idx` of a text with bytes `data`.
pub open spec fn line_chars(data: Seq<u8>, idx: int) -> Seq<char> {
    decode_utf8(line_of(data, idx, true))
}

/// Whether a decoded catalog row is accepted for a query: its kind is
/// allow-listed, its identifier (case folded) or one of its two titles
/// (as canonical keys) equals the query key, and its start year equals
/// the query year by exact string comparison.
pub open spec fn basic_accepts(b: BasicView, key: Seq<char>, year: Seq<char>) -> bool {
    &&& allowed_kind(b.titleType)
    &&& (lower_all(b.tconst) == key || canonical_key(b.primaryTitle) == key || canonical_key(
        b.originalTitle,
    ) == key)
    &&& b.startYear == year
}

/// The entity built from an accepted catalog row; no rating is attached
/// at this stage.
pub open spec fn imdb_of_basic(b: BasicView) -> ImdbView {
    ImdbView {
        tconst: b.tconst,
        titleType: b.titleType,
        primaryTitle: b.primaryTitle,
        originalTitle: b.originalTitle,
        year: b.startYear,
        runtimeMinutes: b.runtimeMinutes,
        genres: b.genres,
        ratings: None,
    }
}

/// One scanner hit folded into the accumulated entity set: the line is
/// decoded, held to the acceptance test, and appended unless an entity
/// with its identifier is already present.
pub open spec fn basics_step(
    acc: Seq<ImdbView>,
    data: Seq<u8>,
    idx: int,
    key: Seq<char>,
    year: Seq<char>,
) -> Seq<ImdbView> {
    match basic_of_line(line_chars(data, idx)) {
        None => acc,
        Some(b) => {
            if basic_accepts(b, key, year) && !has_tconst(acc, b.tconst) {
                acc.push(imdb_of_basic(b))
            } else {
                acc
            }
        },
    }
}

/// The first `k` scanner hits folded into the entity set, in scan order.
pub open spec fn basics_fold(
    init: Seq<ImdbView>,
    data: Seq<u8>,
    hits: Seq<int>,
    k: int,
    key: Seq<char>,
    year: Seq<char>,
) -> Seq<ImdbView>
    decreases k,
{
    if k <= 0 {
        init
    } else {
        basics_step(basics_fold(init, data, hits, k - 1, key, year), data, hits[k - 1], key, year)
    }
}

/// The needle text the catalog search scans for: the canonical key of
/// the query title, framed by a trailing tab and optionally a leading
/// tab, as the scanner canonicalizes it.
pub open spec fn basics_needle(title: Seq<char>, tab: bool) -> Seq<char> {
    canonical_key(
        (if tab {
            seq!['\t']
        } else {
            Seq::<char>::empty()
        }) + canonical_key(title) + seq!['\t'],
    )
}

/// The full catalog search: every scanner hit for the framed needle is
/// decoded, filtered by the acceptance test, and deduplicated by
/// identifier, extending `init` in scan order.
pub open spec fn search_basics_spec(
    data: Seq<u8>,
    title: Seq<char>,
    year: Seq<char>,
    tab: bool,
    init: Seq<ImdbView>,
) -> Seq<ImdbView> {
    let hits = scan_spec(data, encode_utf8(basics_needle(title, tab)));
    basics_fold(init, data, hits, hits.len() as int, canonical_key(title), year)
}

/// Scans the title catalog for `current_title` framed by tab delimiters
/// and folds every accepted row into `imdbs`, deduplicating by
/// identifier; rows that fail to decode are skipped silently.
pub fn search_basics(
    data: &String,
    imdbs: &mut Vec<Imdb>,
    current_title: &String,
    current_year: &String,
    tab_at_the_beginning: bool,
)
    ensures
        final(imdbs).deep_view() == search_basics_spec(
            encode_utf8(data@),
            current_title@,
            current_year@,
            tab_at_the_beginning,
            old(imdbs).deep_view(),
        ),
{
    let ghost data_bytes = encode_utf8(data@);
    let ghost init = imdbs.deep_view();
    let key = title_ready(current_title);
    let mut framed = String::new();
    if tab_at_the_beginning {
        push_char(&mut framed, '\t');
    }
    framed.append(key.as_str());
    push_char(&mut framed, '\t');
    proof {
        assert(framed@ =~= (if tab_at_the_beginning {
            seq!['\t']
        } else {
            Seq::<char>::empty()
        }) + canonical_key(current_title@) + seq!['\t']);
    }
    let indices = search_indices(data, &framed);
    let ghost hits = scan_spec(data_bytes, encode_utf8(basics_needle(current_title@, tab_at_the_beginning)));
    proof {
        assert(indices@.map_values(|u: usize| u as int) == hits);
    }
    let mut k: usize = 0;
    while k < indices.len()
        invariant
            k <= indices@.len(),
            indices@.map_values(|u: usize| u as int) == hits,
            imdbs.deep_view() == basics_fold(
                init,
                data_bytes,
                hits,
                k as int,
                canonical_key(current_title@),
                current_year@,
            ),
            key@ == canonical_key(current_title@),
            data_bytes == encode_utf8(data@),
        decreases indices@.len() - k,
    {
        let idx = indices[k];
        proof {
            assert(hits[k as int] == idx as int);
        }
        let line = get_line_by_index(data, &idx, true);
        proof {
            encode_utf8_decode_utf8(line@);
            assert(line@ == line_chars(data_bytes, idx as int));
        }
        let ghost acc = imdbs.deep_view();
        match get_basic(&line) {
            None => {
                proof {
                    assert(basics_step(
                        acc,
                        data_bytes,
                        idx as int,
                        key@,
                        current_year@,
                    ) == acc);
                }
            },
            Some(rec) => {
                let ghost b = rec.deep_view();
                let ok_kind = is_allowed_kind(&rec.titleType);
                let low_id = lower_string(&rec.tconst);
                let primary_key = title_ready(&rec.primaryTitle);
                let original_key = title_ready(&rec.originalTitle);
                let name_match = low_id.eq(&key) || primary_key.eq(&key) || original_key.eq(&key);
                if ok_kind && name_match && rec.startYear.eq(current_year) {
                    if !contains_tconst(imdbs, &rec.tconst) {
                        let entity = Imdb {
                            tconst: rec.tconst,
                            titleType: rec.titleType,
                            primaryTitle: rec.primaryTitle,
                            originalTitle: rec.originalTitle,
                            year: rec.startYear,
                            runtimeMinutes: rec.runtimeMinutes,
                            genres: rec.genres,
                            ratings: None,
                        };
                        proof {
                            assert(entity.deep_view() == imdb_of_basic(b));
                        }
                        imdbs.push(entity);
                        proof {
                            assert(imdbs.deep_view() =~= acc.push(imdb_of_basic(b)));
                        }
                    }
                }
            },
        }
        proof {
            assert(imdbs.deep_view() == basics_step(acc, data_bytes, idx as int, key@, current_year@));
        }
        k = k + 1;
    }
    proof {
        assert(k as int == hits.len());
    }
}


/// The comparison key of the alternate-titles search: diacritics folded
/// first, then the canonical key of the result, so that an uppercase
/// accented letter folds to its base letter and is then lowercased.
pub open spec fn akas_key(title: Seq<char>) -> Seq<char> {
    canonical_key(fold_chars(title))
}

/// Whether a decoded alternate-titles row is accepted: its identifier or
/// its title (as canonical keys) equals the folded query key, and its
/// region is the fixed region filter.
pub open spec fn aka_accepts(a: AkaView, key: Seq<char>) -> bool {
    &&& (canonical_key(a.titleId) == key || canonical_key(a.title) == key)
    &&& a.region == "ES"@
}

/// The bare identity stub an accepted alternate-titles row yields: the
/// identifier alone, with no descriptive fields.
pub open spec fn stub_of_aka(a: AkaView) -> ImdbView {
    ImdbView {
        tconst: a.titleId,
        titleType: Seq::empty(),
        primaryTitle: Seq::empty(),
        originalTitle: Seq::empty(),
        year: Seq::empty(),
        runtimeMinutes: Seq::empty(),
        genres: Seq::empty(),
        ratings: None,
    }
}

/// One alternate-titles scanner hit folded into the stub set.
pub open spec fn akas_step(acc: Seq<ImdbView>, data: Seq<u8>, idx: int, key: Seq<char>) -> Seq<
    ImdbView,
> {
    match aka_of_line(line_chars(data, idx)) {
        None => acc,
        Some(a) => {
            if aka_accepts(a, key) && !has_tconst(acc, a.titleId) {
                acc.push(stub_of_aka(a))
            } else {
                acc
            }
        },
    }
}

/// The first `k` alternate-titles hits folded into the stub set.
pub open spec fn akas_fold(
    init: Seq<ImdbView>,
    data: Seq<u8>,
    hits: Seq<int>,
    k: int,
    key: Seq<char>,
) -> Seq<ImdbView>
    decreases k,
{
    if k <= 0 {
        init
    } else {
        akas_step(akas_fold(init, data, hits, k - 1, key), data, hits[k - 1], key)
    }
}

/// The full alternate-titles search: the folded key is scanned as an
/// unframed substring, and every accepted row yields an identity stub,
/// deduplicated by identifier.
pub open spec fn search_akas_spec(data: Seq<u8>, title: Seq<char>, init: Seq<ImdbView>) -> Seq<
    ImdbView,
> {
    let hits = scan_spec(data, encode_utf8(canonical_key(akas_key(title))));
    akas_fold(init, data, hits, hits.len() as int, akas_key(title))
}

/// Scans the alternate-titles corpus for the folded key of
/// `current_title` and folds every accepted row into `imdbs` as an
/// identity stub, deduplicating by identifier.
pub fn search_akas(data: &String, imdbs: &mut Vec<Imdb>, current_title: &String)
    ensures
        final(imdbs).deep_view() == search_akas_spec(
            encode_utf8(data@),
            current_title@,
            old(imdbs).deep_view(),
        ),
{
    let ghost data_bytes = encode_utf8(data@);
    let ghost init = imdbs.deep_view();
    let folded = remove_diacritics(current_title.as_str());
    let title = title_ready(&folded);
    let indices = search_indices(data, &title);
    let ghost hits = scan_spec(data_bytes, encode_utf8(canonical_key(akas_key(current_title@))));
    proof {
        assert(indices@.map_values(|u: usize| u as int) == hits);
    }
    let mut k: usize = 0;
    while k < indices.len()
        invariant
            k <= indices@.len(),
            indices@.map_values(|u: usize| u as int) == hits,
            imdbs.deep_view() == akas_fold(init, data_bytes, hits, k as int, akas_key(
                current_title@,
            )),
            title@ == akas_key(current_title@),
            data_bytes == encode_utf8(data@),
        decreases indices@.len() - k,
    {
        let idx = indices[k];
        proof {
            assert(hits[k as int] == idx as int);
        }
        let line = get_line_by_index(data, &idx, true);
        proof {
            encode_utf8_decode_utf8(line@);
            assert(line@ == line_chars(data_bytes, idx as int));
        }
        let ghost acc = imdbs.deep_view();
        match get_aka(&line) {
            None => {
                proof {
                    assert(akas_step(acc, data_bytes, idx as int, title@) == acc);
                }
            },
            Some(rec) => {
                let ghost a = rec.deep_view();
                let id_key = title_ready(&rec.titleId);
                let title_key = title_ready(&rec.title);
                let name_match = id_key.eq(&title) || title_key.eq(&title);
                if name_match && str_eq(rec.region.as_str(), "ES") {
                    if !contains_tconst(imdbs, &rec.titleId) {
                        let stub = Imdb {
                            tconst: rec.titleId,
                            titleType: String::new(),
                            primaryTitle: String::new(),
                            originalTitle: String::new(),
                            year: String::new(),
                            runtimeMinutes: String::new(),
                            genres: String::new(),
                            ratings: None,
                        };
                        proof {
                            assert(stub.deep_view() == stub_of_aka(a));
                        }
                        imdbs.push(stub);
                        proof {
                            assert(imdbs.deep_view() =~= acc.push(stub_of_aka(a)));
                        }
                    }
                }
            },
        }
        proof {
            assert(imdbs.deep_view() == akas_step(acc, data_bytes, idx as int, title@));
        }
        k = k + 1;
    }
    proof {
        assert(k as int == hits.len());
    }
}

/// The ratings row the ratings search settles on: the first scanner hit
/// whose line decodes; `None` when no hit decodes.
pub open spec fn ratings_scan(data: Seq<u8>, hits: Seq<int>, k: int) -> Option<RatingView>
    decreases hits.len() - k,
{
    if k < 0 || k >= hits.len() {
        None
    } else {
        match rating_of_line(line_chars(data, hits[k])) {
            Some(r) => Some(r),
            None => ratings_scan(data, hits, k + 1),
        }
    }
}

/// The full ratings search: the identifier with a trailing tab is
/// scanned (the tab framing prevents prefix collisions between
/// identifiers), and the first decodable hit is the result.
pub open spec fn search_ratings_spec(data: Seq<u8>, id: Seq<char>) -> Option<RatingView> {
    let hits = scan_spec(data, encode_utf8(canonical_key(id + seq!['\t'])));
    ratings_scan(data, hits, 0)
}

/// Scans the ratings corpus for `imdb_id` framed by a trailing tab and
/// copies the first decodable row into `ratings`; with no hit `ratings`
/// is left as it was.
pub fn search_ratings(data: &String, ratings: &mut ImdbRatings, imdb_id: &String)
    ensures
        final(ratings).deep_view() == match search_ratings_spec(encode_utf8(data@), imdb_id@) {
            Some(r) => r,
            None => old(ratings).deep_view(),
        },
{
    let ghost data_bytes = encode_utf8(data@);
    let ghost init = ratings.deep_view();
    let mut id = imdb_id.clone();
    push_char(&mut id, '\t');
    proof {
        assert(id@ =~= imdb_id@ + seq!['\t']);
    }
    let indices = search_indices(data, &id);
    let ghost hits = scan_spec(data_bytes, encode_utf8(canonical_key(imdb_id@ + seq!['\t'])));
    proof {
        assert(indices@.map_values(|u: usize| u as int) == hits);
    }
    let mut k: usize = 0;
    while k < indices.len()
        invariant
            k <= indices@.len(),
            indices@.map_values(|u: usize| u as int) == hits,
            ratings.deep_view() == init,
            ratings_scan(data_bytes, hits, 0) == ratings_scan(data_bytes, hits, k as int),
            data_bytes == encode_utf8(data@),
            hits == scan_spec(data_bytes, encode_utf8(canonical_key(imdb_id@ + seq!['\t']))),
        decreases indices@.len() - k,
    {
        let idx = indices[k];
        proof {
            assert(hits[k as int] == idx as int);
        }
        let line = get_line_by_index(data, &idx, true);
        proof {
            encode_utf8_decode_utf8(line@);
            assert(line@ == line_chars(data_bytes, idx as int));
        }
        match get_rating(&line) {
            Some(rec) => {
                let ghost r = rec.deep_view();
                ratings.tconst = rec.tconst;
                ratings.averageRating = rec.averageRating;
                ratings.numVotes = rec.numVotes;
                proof {
                    assert(ratings.deep_view() == r);
                    assert(hits.len() == indices@.len());
                    assert(ratings_scan(data_bytes, hits, k as int) == Some(r));
                    assert(search_ratings_spec(encode_utf8(data@), imdb_id@) == Some(r));
                }
                return;
            },
            None => {
            },
        }
        k = k + 1;
    }
}

/// Resolves a query triple against the title catalog: the primary title
/// is searched first; the secondary title is searched only when the
/// primary search returned no entity and the secondary title is
/// non-empty.
pub open spec fn get_basics_spec(
    data: Seq<u8>,
    title: Seq<char>,
    title_optional: Seq<char>,
    year: Seq<char>,
) -> Seq<ImdbView> {
    let first = search_basics_spec(data, title, year, true, Seq::empty());
    if first.len() == 0 && title_optional.len() > 0 {
        search_basics_spec(data, title_optional, year, true, Seq::empty())
    } else {
        first
    }
}

/// Resolves a `(title, secondary title, year)` query against the title
/// catalog, with the secondary-title fallback firing only on an empty
/// primary result.
pub fn get_basics(data: &String, titles: (&String, &String, &str)) -> (imdbs: Vec<Imdb>)
    ensures
        imdbs.deep_view() == get_basics_spec(
            encode_utf8(data@),
            titles.0@,
            titles.1@,
            titles.2@,
        ),
{
    let (title, title_optional, year) = titles;
    let year_string = String::from_str(year);
    let mut imdbs: Vec<Imdb> = Vec::new();
    proof {
        assert(imdbs.deep_view() =~= Seq::<ImdbView>::empty());
    }
    search_basics(data, &mut imdbs, title, &year_string, true);
    if imdbs.len() == 0 && title_optional.as_str().unicode_len() > 0 {
        proof {
            assert(imdbs.deep_view() =~= Seq::<ImdbView>::empty());
        }
        search_basics(data, &mut imdbs, title_optional, &year_string, true);
    }
    imdbs
}

/// Resolves a query against the alternate-titles corpus: identity stubs
/// for the primary title, or for the secondary title when the primary
/// search yielded none and the secondary title is non-empty.
pub open spec fn get_akas_spec(data: Seq<u8>, title: Seq<char>, title_optional: Seq<char>) -> Seq<
    ImdbView,
> {
    let first = search_akas_spec(data, title, Seq::empty());
    if first.len() == 0 && title_optional.len() > 0 {
        search_akas_spec(data, title_optional, Seq::empty())
    } else {
        first
    }
}

/// Resolves a `(title, secondary title)` query against the
/// alternate-titles corpus, with the same fallback rule as the catalog
/// search.
pub fn get_akas(data_akas: &String, titles: (&String, &String)) -> (imdbs_akas: Vec<Imdb>)
    ensures
        imdbs_akas.deep_view() == get_akas_spec(encode_utf8(data_akas@), titles.0@, titles.1@),
{
    let (title, title_optional) = titles;
    let mut imdbs_akas: Vec<Imdb> = Vec::new();
    proof {
        assert(imdbs_akas.deep_view() =~= Seq::<ImdbView>::empty());
    }
    search_akas(data_akas, &mut imdbs_akas, title);
    if imdbs_akas.len() == 0 && title_optional.as_str().unicode_len() > 0 {
        proof {
            assert(imdbs_akas.deep_view() =~= Seq::<ImdbView>::empty());
        }
        search_akas(data_akas, &mut imdbs_akas, title_optional);
    }
    imdbs_akas
}

/// The empty ratings row returned when an identifier has no row in the
/// ratings corpus.
pub open spec fn empty_rating() -> RatingView {
    RatingView {
        tconst: Seq::empty(),
        averageRating: Seq::empty(),
        numVotes: Seq::empty(),
    }
}

/// Looks `imdb_id` up in the ratings corpus, tab-framed; an identifier
/// with no decodable row yields the all-empty row.
pub fn get_ratings(data: &String, imdb_id: &String) -> (ratings: ImdbRatings)
    ensures
        ratings.deep_view() == match search_ratings_spec(encode_utf8(data@), imdb_id@) {
            Some(r) => r,
            None => empty_rating(),
        },
{
    let mut ratings = ImdbRatings {
        tconst: String::new(),
        averageRating: String::new(),
        numVotes: String::new(),
    };
    search_ratings(data, &mut ratings, imdb_id);
    ratings
}

/// New entities merged into an accumulated set one by one, skipping
/// identifiers already present.
pub open spec fn merge_entities(acc: Seq<ImdbView>, found: Seq<ImdbView>, k: int) -> Seq<ImdbView>
    decreases k,
{
    if k <= 0 {
        acc
    } else {
        let prev = merge_entities(acc, found, k - 1);
        let e = found[k - 1];
        if !has_tconst(prev, e.tconst) {
            prev.push(
                ImdbView {
                    tconst: e.tconst,
                    titleType: e.titleType,
                    primaryTitle: e.primaryTitle,
                    originalTitle: e.originalTitle,
                    year: e.year,
                    runtimeMinutes: e.runtimeMinutes,
                    genres: e.genres,
                    ratings: None,
                },
            )
        } else {
            prev
        }
    }
}

/// Stub resolution folded over the stub list: each stub's identifier is
/// searched in the catalog (unframed at the start of the needle, year
/// still enforced) and every entity found is merged in, skipping
/// identifiers already present.
pub open spec fn update_with_akas_spec(
    data: Seq<u8>,
    akas: Seq<ImdbView>,
    year: Seq<char>,
    init: Seq<ImdbView>,
    j: int,
) -> Seq<ImdbView>
    decreases j,
{
    if j <= 0 {
        init
    } else {
        let prev = update_with_akas_spec(data, akas, year, init, j - 1);
        let found = search_basics_spec(data, akas[j - 1].tconst, year, false, Seq::empty());
        merge_entities(prev, found, found.len() as int)
    }
}

/// Resolves every identity stub in `imdbs_akas` against the title
/// catalog (still enforcing the year) and merges the entities found into
/// `imdbs`, skipping identifiers already present.
pub fn update_imdbs_with_akas(
    imdbs: &mut Vec<Imdb>,
    imdbs_akas: &Vec<Imdb>,
    year: &str,
    data: &String,
)
    ensures
        final(imdbs).deep_view() == update_with_akas_spec(
            encode_utf8(data@),
            imdbs_akas.deep_view(),
            year@,
            old(imdbs).deep_view(),
            imdbs_akas.deep_view().len() as int,
        ),
{
    let ghost data_bytes = encode_utf8(data@);
    let ghost init = imdbs.deep_view();
    let ghost akas = imdbs_akas.deep_view();
    let year_string = String::from_str(year);
    let mut j: usize = 0;
    while j < imdbs_akas.len()
        invariant
            j <= imdbs_akas@.len(),
            akas == imdbs_akas.deep_view(),
            akas.len() == imdbs_akas@.len(),
            imdbs.deep_view() == update_with_akas_spec(data_bytes, akas, year@, init, j as int),
            year_string@ == year@,
            data_bytes == encode_utf8(data@),
        decreases imdbs_akas@.len() - j,
    {
        let mut basic_imdbs: Vec<Imdb> = Vec::new();
        proof {
            assert(basic_imdbs.deep_view() =~= Seq::<ImdbView>::empty());
            assert(akas[j as int] == imdbs_akas@[j as int].deep_view());
        }
        search_basics(data, &mut basic_imdbs, &imdbs_akas[j].tconst, &year_string, false);
        let ghost found = basic_imdbs.deep_view();
        let ghost before = imdbs.deep_view();
        let mut b: usize = 0;
        while b < basic_imdbs.len()
            invariant
                b <= basic_imdbs@.len(),
                found == basic_imdbs.deep_view(),
                found.len() == basic_imdbs@.len(),
                imdbs.deep_view() == merge_entities(before, found, b as int),
            decreases basic_imdbs@.len() - b,
        {
            let ghost acc = imdbs.deep_view();
            proof {
                assert(found[b as int] == basic_imdbs@[b as int].deep_view());
            }
            if !contains_tconst(imdbs, &basic_imdbs[b].tconst) {
                let entity = Imdb {
                    tconst: basic_imdbs[b].tconst.clone(),
                    titleType: basic_imdbs[b].titleType.clone(),
                    primaryTitle: basic_imdbs[b].primaryTitle.clone(),
                    originalTitle: basic_imdbs[b].originalTitle.clone(),
                    year: basic_imdbs[b].year.clone(),
                    runtimeMinutes: basic_imdbs[b].runtimeMinutes.clone(),
                    genres: basic_imdbs[b].genres.clone(),
                    ratings: None,
                };
                let ghost e = found[b as int];
                proof {
                    assert(entity.deep_view() == (ImdbView {
                        tconst: e.tconst,
                        titleType: e.titleType,
                        primaryTitle: e.primaryTitle,
                        originalTitle: e.originalTitle,
                        year: e.year,
                        runtimeMinutes: e.runtimeMinutes,
                        genres: e.genres,
                        ratings: None,
                    }));
                }
                imdbs.push(entity);
                proof {
                    assert(imdbs.deep_view() =~= acc.push(entity.deep_view()));
                }
            }
            b = b + 1;
        }
        proof {
            assert(imdbs.deep_view() == merge_entities(before, found, found.len() as int));
            assert(found == search_basics_spec(
                data_bytes,
                akas[j as int].tconst,
                year@,
                false,
                Seq::<ImdbView>::empty(),
            ));
            assert(update_with_akas_spec(data_bytes, akas, year@, init, j + 1)
                == merge_entities(before, found, found.len() as int));
        }
        j = j + 1;
    }
}


/// No two entities of `s` share an identifier.
pub open spec fn unique_ids(s: Seq<ImdbView>) -> bool {
    forall|i: int, j: int|
        0 <= i < j < s.len() ==> (#[trigger] s[i]).tconst != (#[trigger] s[j]).tconst
}

/// An entity that passed the catalog acceptance test for a query: its
/// kind is allow-listed, its identifier or one of its titles matches the
/// query key, and its year equals the query year exactly.
pub open spec fn entity_accepted(e: ImdbView, key: Seq<char>, year: Seq<char>) -> bool {
    &&& allowed_kind(e.titleType)
    &&& (lower_all(e.tconst) == key || canonical_key(e.primaryTitle) == key || canonical_key(
        e.originalTitle,
    ) == key)
    &&& e.year == year
}

/// The catalog fold keeps its initial entities in place, only appends,
/// appends only entities that passed the acceptance test, and never
/// duplicates an identifier it already holds.
pub proof fn lemma_basics_fold_accepted(
    init: Seq<ImdbView>,
    data: Seq<u8>,
    hits: Seq<int>,
    k: int,
    key: Seq<char>,
    year: Seq<char>,
)
    ensures
        basics_fold(init, data, hits, k, key, year).len() >= init.len(),
        forall|i: int|
            0 <= i < init.len() ==> #[trigger] basics_fold(init, data, hits, k, key, year)[i]
                == init[i],
        forall|i: int|
            init.len() <= i < basics_fold(init, data, hits, k, key, year).len()
                ==> entity_accepted(
                #[trigger] basics_fold(init, data, hits, k, key, year)[i],
                key,
                year,
            ),
    decreases k,
{
    if k > 0 {
        lemma_basics_fold_accepted(init, data, hits, k - 1, key, year);
        let prev = basics_fold(init, data, hits, k - 1, key, year);
        let cur = basics_fold(init, data, hits, k, key, year);
        assert forall|i: int|
            init.len() <= i < cur.len() implies entity_accepted(#[trigger] cur[i], key, year) by {
            if i < prev.len() {
                assert(cur[i] == prev[i]);
            } else {
                match basic_of_line(line_chars(data, hits[k - 1])) {
                    Some(b) => {
                        assert(cur[i] == imdb_of_basic(b));
                    },
                    None => {
                    },
                }
            }
        }
    }
}

/// The catalog fold preserves identifier uniqueness: it only appends
/// identifiers not yet present.
pub proof fn lemma_basics_fold_unique(
    init: Seq<ImdbView>,
    data: Seq<u8>,
    hits: Seq<int>,
    k: int,
    key: Seq<char>,
    year: Seq<char>,
)
    requires
        unique_ids(init),
    ensures
        unique_ids(basics_fold(init, data, hits, k, key, year)),
    decreases k,
{
    if k > 0 {
        lemma_basics_fold_unique(init, data, hits, k - 1, key, year);
        let prev = basics_fold(init, data, hits, k - 1, key, year);
        let cur = basics_fold(init, data, hits, k, key, year);
        assert forall|i: int, j: int|
            0 <= i < j < cur.len() implies (#[trigger] cur[i]).tconst != (
            #[trigger] cur[j]).tconst by {
            if j < prev.len() {
                assert(cur[i] == prev[i] && cur[j] == prev[j]);
            } else if cur.len() > prev.len() {
                assert(cur[i] == prev[i]);
                assert(!has_tconst(prev, cur[j].tconst));
            }
        }
    }
}

/// Every entity of a catalog query result passed the acceptance test
/// for its query: the scanner may over-approximate, but the resolver
/// filters, and in particular a year mismatch leaves an entity out.
pub proof fn lemma_get_basics_accepted(
    data: Seq<u8>,
    title: Seq<char>,
    title_optional: Seq<char>,
    year: Seq<char>,
)
    ensures
        forall|i: int|
            0 <= i < get_basics_spec(data, title, title_optional, year).len()
                ==> entity_accepted(
                #[trigger] get_basics_spec(data, title, title_optional, year)[i],
                canonical_key(title),
                year,
            ) || entity_accepted(
                get_basics_spec(data, title, title_optional, year)[i],
                canonical_key(title_optional),
                year,
            ),
        forall|i: int|
            0 <= i < get_basics_spec(data, title, title_optional, year).len()
                ==> (#[trigger] get_basics_spec(data, title, title_optional, year)[i]).year
                == year,
{
    let h1 = scan_spec(data, encode_utf8(basics_needle(title, true)));
    lemma_basics_fold_accepted(Seq::empty(), data, h1, h1.len() as int, canonical_key(title), year);
    let h2 = scan_spec(data, encode_utf8(basics_needle(title_optional, true)));
    lemma_basics_fold_accepted(
        Seq::empty(),
        data,
        h2,
        h2.len() as int,
        canonical_key(title_optional),
        year,
    );
}

/// A catalog query result never resolves two entities with the same
/// identifier.
pub proof fn lemma_get_basics_unique(
    data: Seq<u8>,
    title: Seq<char>,
    title_optional: Seq<char>,
    year: Seq<char>,
)
    ensures
        unique_ids(get_basics_spec(data, title, title_optional, year)),
{
    let h1 = scan_spec(data, encode_utf8(basics_needle(title, true)));
    lemma_basics_fold_unique(Seq::empty(), data, h1, h1.len() as int, canonical_key(title), year);
    let h2 = scan_spec(data, encode_utf8(basics_needle(title_optional, true)));
    lemma_basics_fold_unique(
        Seq::empty(),
        data,
        h2,
        h2.len() as int,
        canonical_key(title_optional),
        year,
    );
}

/// Merging found entities preserves identifier uniqueness: an entity is
/// appended only when its identifier is absent.
pub proof fn lemma_merge_unique(acc: Seq<ImdbView>, found: Seq<ImdbView>, k: int)
    requires
        unique_ids(acc),
    ensures
        unique_ids(merge_entities(acc, found, k)),
        merge_entities(acc, found, k).len() >= acc.len(),
        forall|i: int|
            0 <= i < acc.len() ==> #[trigger] merge_entities(acc, found, k)[i] == acc[i],
    decreases k,
{
    if k > 0 {
        lemma_merge_unique(acc, found, k - 1);
        let prev = merge_entities(acc, found, k - 1);
        let cur = merge_entities(acc, found, k);
        assert forall|i: int, j: int|
            0 <= i < j < cur.len() implies (#[trigger] cur[i]).tconst != (
            #[trigger] cur[j]).tconst by {
            if j < prev.len() {
                assert(cur[i] == prev[i] && cur[j] == prev[j]);
            } else if cur.len() > prev.len() {
                assert(cur[i] == prev[i]);
                assert(!has_tconst(prev, cur[j].tconst));
            }
        }
    }
}

/// Stub resolution preserves identifier uniqueness.
pub proof fn lemma_update_with_akas_unique(
    data: Seq<u8>,
    akas: Seq<ImdbView>,
    year: Seq<char>,
    init: Seq<ImdbView>,
    j: int,
)
    requires
        unique_ids(init),
    ensures
        unique_ids(update_with_akas_spec(data, akas, year, init, j)),
    decreases j,
{
    if j > 0 {
        lemma_update_with_akas_unique(data, akas, year, init, j - 1);
        let prev = update_with_akas_spec(data, akas, year, init, j - 1);
        let found = search_basics_spec(data, akas[j - 1].tconst, year, false, Seq::empty());
        lemma_merge_unique(prev, found, found.len() as int);
    }
}


/// When none of the first `k` scanner hits decodes to a row passing the
/// acceptance test, the fold adds nothing.
pub proof fn lemma_basics_fold_no_accept(
    init: Seq<ImdbView>,
    data: Seq<u8>,
    hits: Seq<int>,
    k: int,
    key: Seq<char>,
    year: Seq<char>,
)
    requires
        forall|j: int|
            0 <= j < k ==> (match basic_of_line(line_chars(data, #[trigger] hits[j])) {
                Some(b) => !basic_accepts(b, key, year),
                None => true,
            }),
    ensures
        basics_fold(init, data, hits, k, key, year) == init,
    decreases k,
{
    if k > 0 {
        lemma_basics_fold_no_accept(init, data, hits, k - 1, key, year);
    }
}

/// The year-mismatch exclusion in its literal form: when no scanner hit
/// for either framed needle decodes to a row that combines an allowed
/// kind, a matching identifier or title, and a start year string-equal
/// to the query year, the catalog query resolves to no entity at all —
/// in particular, a year differing in even one digit from every
/// otherwise-matching row leaves the result empty.
pub proof fn lemma_get_basics_empty_when_no_row_accepted(
    data: Seq<u8>,
    title: Seq<char>,
    title_optional: Seq<char>,
    year: Seq<char>,
)
    requires
        forall|j: int|
            0 <= j < scan_spec(data, encode_utf8(basics_needle(title, true))).len() ==> (
            match basic_of_line(
                line_chars(
                    data,
                    #[trigger] scan_spec(data, encode_utf8(basics_needle(title, true)))[j],
                ),
            ) {
                Some(b) => !basic_accepts(b, canonical_key(title), year),
                None => true,
            }),
        forall|j: int|
            0 <= j < scan_spec(data, encode_utf8(basics_needle(title_optional, true))).len()
                ==> (match basic_of_line(
                line_chars(
                    data,
                    #[trigger] scan_spec(
                        data,
                        encode_utf8(basics_needle(title_optional, true)),
                    )[j],
                ),
            ) {
                Some(b) => !basic_accepts(b, canonical_key(title_optional), year),
                None => true,
            }),
    ensures
        get_basics_spec(data, title, title_optional, year) == Seq::<ImdbView>::empty(),
{
    let h1 = scan_spec(data, encode_utf8(basics_needle(title, true)));
    lemma_basics_fold_no_accept(
        Seq::empty(),
        data,
        h1,
        h1.len() as int,
        canonical_key(title),
        year,
    );
    let h2 = scan_spec(data, encode_utf8(basics_needle(title_optional, true)));
    lemma_basics_fold_no_accept(
        Seq::empty(),
        data,
        h2,
        h2.len() as int,
        canonical_key(title_optional),
        year,
    );
}

} // verus!
