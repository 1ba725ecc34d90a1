//! The two movie-metadata extracts: their records, the lenient
//! comma-delimited line decoding, the embedded collection-descriptor
//! parse, and the scan-and-accept searches that join metadata to
//! resolved entities.

#![allow(non_snake_case)]

use crate::imdb::Imdb;
use crate::imdb::ImdbView;
use crate::imdb::line_chars;
use crate::norm::canonical_key;
use crate::norm::lower_all;
use crate::norm::lower_string;
use crate::norm::title_ready;
use crate::scan::get_line_by_index;
use crate::scan::scan_spec;
use crate::scan::search_indices;
use crate::shims::push_char;
use crate::shims::str_eq;
use vstd::prelude::*;
use vstd::string::StrSliceExecFns;
use vstd::string::StringExecFns;
use vstd::utf8::encode_utf8;
use vstd::utf8::encode_utf8_decode_utf8;

verus! {

/// One row of metadata extract A, in its column order.
pub struct TitleTmdbsRecord {
    pub adult: String,
    pub belongs_to_collection: String,
    pub budget: String,
    pub genres: String,
    pub homepage: String,
    pub id: String,
    pub imdb_id: String,
    pub original_language: String,
    pub original_title: String,
    pub overview: Option<String>,
    pub popularity: String,
    pub poster_path: String,
    pub production_companies: String,
    pub production_countries: String,
    pub release_date: String,
    pub revenue: String,
    pub runtime: String,
    pub spoken_languages: String,
    pub status: String,
    pub tagline: String,
    pub title: String,
    pub video: String,
    pub vote_average: String,
    pub vote_count: String,
}

/// The mathematical model of a `TitleTmdbsRecord`.
pub ghost struct TitleTmdbsView {
    pub adult: Seq<char>,
    pub belongs_to_collection: Seq<char>,
    pub budget: Seq<char>,
    pub genres: Seq<char>,
    pub homepage: Seq<char>,
    pub id: Seq<char>,
    pub imdb_id: Seq<char>,
    pub original_language: Seq<char>,
    pub original_title: Seq<char>,
    pub overview: Option<Seq<char>>,
    pub popularity: Seq<char>,
    pub poster_path: Seq<char>,
    pub production_companies: Seq<char>,
    pub production_countries: Seq<char>,
    pub release_date: Seq<char>,
    pub revenue: Seq<char>,
    pub runtime: Seq<char>,
    pub spoken_languages: Seq<char>,
    pub status: Seq<char>,
    pub tagline: Seq<char>,
    pub title: Seq<char>,
    pub video: Seq<char>,
    pub vote_average: Seq<char>,
    pub vote_count: Seq<char>,
}

impl DeepView for TitleTmdbsRecord {
    type V = TitleTmdbsView;

    open spec fn deep_view(&self) -> TitleTmdbsView {
        TitleTmdbsView {
            adult: self.adult@,
            belongs_to_collection: self.belongs_to_collection@,
            budget: self.budget@,
            genres: self.genres@,
            homepage: self.homepage@,
            id: self.id@,
            imdb_id: self.imdb_id@,
            original_language: self.original_language@,
            original_title: self.original_title@,
            overview: match self.overview {
                Some(ref s) => Some(s@),
                None => None,
            },
            popularity: self.popularity@,
            poster_path: self.poster_path@,
            production_companies: self.production_companies@,
            production_countries: self.production_countries@,
            release_date: self.release_date@,
            revenue: self.revenue@,
            runtime: self.runtime@,
            spoken_languages: self.spoken_languages@,
            status: self.status@,
            tagline: self.tagline@,
            title: self.title@,
            video: self.video@,
            vote_average: self.vote_average@,
            vote_count: self.vote_count@,
        }
    }
}

/// The all-empty extract-A row.
pub open spec fn default_tmdbs_view() -> TitleTmdbsView {
    TitleTmdbsView {
        adult: Seq::empty(),
        belongs_to_collection: Seq::empty(),
        budget: Seq::empty(),
        genres: Seq::empty(),
        homepage: Seq::empty(),
        id: Seq::empty(),
        imdb_id: Seq::empty(),
        original_language: Seq::empty(),
        original_title: Seq::empty(),
        overview: None,
        popularity: Seq::empty(),
        poster_path: Seq::empty(),
        production_companies: Seq::empty(),
        production_countries: Seq::empty(),
        release_date: Seq::empty(),
        revenue: Seq::empty(),
        runtime: Seq::empty(),
        spoken_languages: Seq::empty(),
        status: Seq::empty(),
        tagline: Seq::empty(),
        title: Seq::empty(),
        video: Seq::empty(),
        vote_average: Seq::empty(),
        vote_count: Seq::empty(),
    }
}

impl Default for TitleTmdbsRecord {
    /// The all-empty extract-A row.
    fn default() -> (r: TitleTmdbsRecord)
        ensures
            r.deep_view() == default_tmdbs_view(),
    {
        TitleTmdbsRecord {
            adult: String::new(),
            belongs_to_collection: String::new(),
            budget: String::new(),
            genres: String::new(),
            homepage: String::new(),
            id: String::new(),
            imdb_id: String::new(),
            original_language: String::new(),
            original_title: String::new(),
            overview: None,
            popularity: String::new(),
            poster_path: String::new(),
            production_companies: String::new(),
            production_countries: String::new(),
            release_date: String::new(),
            revenue: String::new(),
            runtime: String::new(),
            spoken_languages: String::new(),
            status: String::new(),
            tagline: String::new(),
            title: String::new(),
            video: String::new(),
            vote_average: String::new(),
            vote_count: String::new(),
        }
    }
}

/// One row of metadata extract B, in its column order; the extract has
/// no identifier column beyond its own numeric id, so `imdb_id` is
/// always absent.
pub struct TitleTmdbsBigRecord {
    pub id: String,
    pub imdb_id: Option<String>,
    pub title: String,
    pub genres: String,
    pub original_language: String,
    pub overview: Option<String>,
    pub popularity: String,
    pub production_companies: String,
    pub release_date: String,
    pub budget: String,
    pub revenue: String,
    pub runtime: String,
    pub status: String,
    pub tagline: String,
    pub vote_average: String,
    pub vote_count: String,
    pub credits: String,
    pub keywords: String,
    pub poster_path: String,
    pub backdrop_path: String,
    pub recommendations: String,
}

/// The mathematical model of a `TitleTmdbsBigRecord`.
pub ghost struct TitleTmdbsBigView {
    pub id: Seq<char>,
    pub imdb_id: Option<Seq<char>>,
    pub title: Seq<char>,
    pub genres: Seq<char>,
    pub original_language: Seq<char>,
    pub overview: Option<Seq<char>>,
    pub popularity: Seq<char>,
    pub production_companies: Seq<char>,
    pub release_date: Seq<char>,
    pub budget: Seq<char>,
    pub revenue: Seq<char>,
    pub runtime: Seq<char>,
    pub status: Seq<char>,
    pub tagline: Seq<char>,
    pub vote_average: Seq<char>,
    pub vote_count: Seq<char>,
    pub credits: Seq<char>,
    pub keywords: Seq<char>,
    pub poster_path: Seq<char>,
    pub backdrop_path: Seq<char>,
    pub recommendations: Seq<char>,
}

impl DeepView for TitleTmdbsBigRecord {
    type V = TitleTmdbsBigView;

    open spec fn deep_view(&self) -> TitleTmdbsBigView {
        TitleTmdbsBigView {
            id: self.id@,
            imdb_id: match self.imdb_id {
                Some(ref s) => Some(s@),
                None => None,
            },
            title: self.title@,
            genres: self.genres@,
            original_language: self.original_language@,
            overview: match self.overview {
                Some(ref s) => Some(s@),
                None => None,
            },
            popularity: self.popularity@,
            production_companies: self.production_companies@,
            release_date: self.release_date@,
            budget: self.budget@,
            revenue: self.revenue@,
            runtime: self.runtime@,
            status: self.status@,
            tagline: self.tagline@,
            vote_average: self.vote_average@,
            vote_count: self.vote_count@,
            credits: self.credits@,
            keywords: self.keywords@,
            poster_path: self.poster_path@,
            backdrop_path: self.backdrop_path@,
            recommendations: self.recommendations@,
        }
    }
}

/// The all-empty extract-B row.
pub open spec fn default_tmdbs_big_view() -> TitleTmdbsBigView {
    TitleTmdbsBigView {
        id: Seq::empty(),
        imdb_id: None,
        title: Seq::empty(),
        genres: Seq::empty(),
        original_language: Seq::empty(),
        overview: None,
        popularity: Seq::empty(),
        production_companies: Seq::empty(),
        release_date: Seq::empty(),
        budget: Seq::empty(),
        revenue: Seq::empty(),
        runtime: Seq::empty(),
        status: Seq::empty(),
        tagline: Seq::empty(),
        vote_average: Seq::empty(),
        vote_count: Seq::empty(),
        credits: Seq::empty(),
        keywords: Seq::empty(),
        poster_path: Seq::empty(),
        backdrop_path: Seq::empty(),
        recommendations: Seq::empty(),
    }
}

impl Default for TitleTmdbsBigRecord {
    /// The all-empty extract-B row.
    fn default() -> (r: TitleTmdbsBigRecord)
        ensures
            r.deep_view() == default_tmdbs_big_view(),
    {
        TitleTmdbsBigRecord {
            id: String::new(),
            imdb_id: None,
            title: String::new(),
            genres: String::new(),
            original_language: String::new(),
            overview: None,
            popularity: String::new(),
            production_companies: String::new(),
            release_date: String::new(),
            budget: String::new(),
            revenue: String::new(),
            runtime: String::new(),
            status: String::new(),
            tagline: String::new(),
            vote_average: String::new(),
            vote_count: String::new(),
            credits: String::new(),
            keywords: String::new(),
            poster_path: String::new(),
            backdrop_path: String::new(),
            recommendations: String::new(),
        }
    }
}

/// A metadata row in the unified shape the joiner works with.
pub struct TmdbRecord {
    pub id: String,
    pub title: String,
    pub genres: String,
    pub original_language: String,
    pub overview: Option<String>,
    pub popularity: String,
    pub production_companies: String,
    pub release_date: String,
    pub budget: String,
    pub revenue: String,
    pub runtime: String,
    pub status: String,
    pub tagline: String,
    pub vote_average: String,
    pub vote_count: String,
    pub credits: String,
    pub keywords: String,
    pub poster_path: String,
    pub backdrop_path: String,
    pub recommendations: String,
    pub imdb_id: String,
}

impl Default for TmdbRecord {
    /// The all-empty unified metadata row.
    fn default() -> (r: TmdbRecord)
        ensures
            r.id@ == Seq::<char>::empty(),
            r.imdb_id@ == Seq::<char>::empty(),
            r.title@ == Seq::<char>::empty(),
            r.overview is None,
    {
        TmdbRecord {
            id: String::new(),
            title: String::new(),
            genres: String::new(),
            original_language: String::new(),
            overview: None,
            popularity: String::new(),
            production_companies: String::new(),
            release_date: String::new(),
            budget: String::new(),
            revenue: String::new(),
            runtime: String::new(),
            status: String::new(),
            tagline: String::new(),
            vote_average: String::new(),
            vote_count: String::new(),
            credits: String::new(),
            keywords: String::new(),
            poster_path: String::new(),
            backdrop_path: String::new(),
            recommendations: String::new(),
            imdb_id: String::new(),
        }
    }
}

/// One joined metadata result: identifiers, overview, and the two image
/// paths backfilled from the collection descriptor or from extract B.
pub struct Tmdb {
    pub id: String,
    pub imdb_id: String,
    pub overview: Option<String>,
    pub poster_path: String,
    pub backdrop_path: String,
}

/// The mathematical model of a `Tmdb` result.
pub ghost struct TmdbView {
    pub id: Seq<char>,
    pub imdb_id: Seq<char>,
    pub overview: Option<Seq<char>>,
    pub poster_path: Seq<char>,
    pub backdrop_path: Seq<char>,
}

impl DeepView for Tmdb {
    type V = TmdbView;

    open spec fn deep_view(&self) -> TmdbView {
        TmdbView {
            id: self.id@,
            imdb_id: self.imdb_id@,
            overview: match self.overview {
                Some(ref s) => Some(s@),
                None => None,
            },
            poster_path: self.poster_path@,
            backdrop_path: self.backdrop_path@,
        }
    }
}

impl Default for Tmdb {
    /// The all-empty metadata result.
    fn default() -> (r: Tmdb)
        ensures
            r.deep_view() == (TmdbView {
                id: Seq::<char>::empty(),
                imdb_id: Seq::<char>::empty(),
                overview: None::<Seq<char>>,
                poster_path: Seq::<char>::empty(),
                backdrop_path: Seq::<char>::empty(),
            }),
    {
        Tmdb {
            id: String::new(),
            imdb_id: String::new(),
            overview: None,
            poster_path: String::new(),
            backdrop_path: String::new(),
        }
    }
}

/// The embedded collection descriptor of an extract-A row, once its
/// quote style has been rewritten and it has parsed.
pub struct BelongsToCollection {
    pub id: usize,
    pub name: String,
    pub poster_path: String,
    pub backdrop_path: String,
    pub overview: Option<String>,
}

/// The mathematical model of a parsed collection descriptor.
pub ghost struct CollectionView {
    pub id: int,
    pub name: Seq<char>,
    pub poster_path: Seq<char>,
    pub backdrop_path: Seq<char>,
    pub overview: Option<Seq<char>>,
}

impl DeepView for BelongsToCollection {
    type V = CollectionView;

    open spec fn deep_view(&self) -> CollectionView {
        CollectionView {
            id: self.id as int,
            name: self.name@,
            poster_path: self.poster_path@,
            backdrop_path: self.backdrop_path@,
            overview: match self.overview {
                Some(ref s) => Some(s@),
                None => None,
            },
        }
    }
}

/// The rows that the lenient comma-delimited reader produces for the
/// given input bytes: comma delimiter, backslash escape byte, no
/// double-quote escaping, flexible field counts, `#` comment lines
/// skipped, unreadable rows dropped.  The result depends on the input
/// bytes alone.
pub uninterp spec fn csv_lenient_rows(input: Seq<u8>) -> Seq<Seq<Seq<char>>>;

/// Relies on `csv::ReaderBuilder` and `csv::Reader::records` with the
/// fixed lenient configuration named by `csv_lenient_rows`: rows that
/// fail to read are dropped, every other row becomes its list of fields.
#[verifier::external_body]
fn csv_rows_lenient(input: &[u8]) -> (rows: Vec<Vec<String>>)
    ensures
        rows.deep_view() == csv_lenient_rows(input@),
{
    let rdr = csv::ReaderBuilder::new()
        .has_headers(false)
        .delimiter(b',')
        .double_quote(false)
        .escape(Some(b'\\'))
        .flexible(true)
        .comment(Some(b'#'))
        .from_reader(input);
    let mut reader = rdr;
    reader.records().filter_map(|r| r.ok()).map(
        |r| r.iter().map(|f| f.to_string()).collect(),
    ).collect()
}

/// The last row wide enough for a schema of `width` columns, or `None`.
pub open spec fn pick_wide_row(rows: Seq<Seq<Seq<char>>>, width: int) -> Option<Seq<Seq<char>>>
    decreases rows.len(),
{
    if rows.len() == 0 {
        None
    } else if rows.last().len() >= width {
        Some(rows.last())
    } else {
        pick_wide_row(rows.drop_last(), width)
    }
}

/// The extract-A row read from one wide-enough field list: columns map
/// by position, and an empty overview column is an absent overview.
pub open spec fn tmdbs_view_of_row(f: Seq<Seq<char>>) -> TitleTmdbsView {
    TitleTmdbsView {
        adult: f[0],
        belongs_to_collection: f[1],
        budget: f[2],
        genres: f[3],
        homepage: f[4],
        id: f[5],
        imdb_id: f[6],
        original_language: f[7],
        original_title: f[8],
        overview: if f[9].len() == 0 {
            None
        } else {
            Some(f[9])
        },
        popularity: f[10],
        poster_path: f[11],
        production_companies: f[12],
        production_countries: f[13],
        release_date: f[14],
        revenue: f[15],
        runtime: f[16],
        spoken_languages: f[17],
        status: f[18],
        tagline: f[19],
        title: f[20],
        video: f[21],
        vote_average: f[22],
        vote_count: f[23],
    }
}

/// The extract-A record decoded from a lenient parse: the last row with
/// at least the schema's 24 columns wins; with none, the all-empty row.
pub open spec fn tmdbs_record_of_rows(rows: Seq<Seq<Seq<char>>>) -> TitleTmdbsView {
    match pick_wide_row(rows, 24) {
        None => default_tmdbs_view(),
        Some(f) => tmdbs_view_of_row(f),
    }
}

/// The extract-B row read from one wide-enough field list: columns map
/// by position, an empty overview column is an absent overview, and the
/// schema has no imdb identifier column.
pub open spec fn tmdbs_big_view_of_row(f: Seq<Seq<char>>) -> TitleTmdbsBigView {
    TitleTmdbsBigView {
        id: f[0],
        imdb_id: None,
        title: f[1],
        genres: f[2],
        original_language: f[3],
        overview: if f[4].len() == 0 {
            None
        } else {
            Some(f[4])
        },
        popularity: f[5],
        production_companies: f[6],
        release_date: f[7],
        budget: f[8],
        revenue: f[9],
        runtime: f[10],
        status: f[11],
        tagline: f[12],
        vote_average: f[13],
        vote_count: f[14],
        credits: f[15],
        keywords: f[16],
        poster_path: f[17],
        backdrop_path: f[18],
        recommendations: f[19],
    }
}

/// The extract-B record decoded from a lenient parse: the last row with
/// at least the schema's 20 columns wins; with none, the all-empty row.
pub open spec fn tmdbs_big_record_of_rows(rows: Seq<Seq<Seq<char>>>) -> TitleTmdbsBigView {
    match pick_wide_row(rows, 20) {
        None => default_tmdbs_big_view(),
        Some(f) => tmdbs_big_view_of_row(f),
    }
}


/// The index of the last row with at least `width` fields, or `None`.
fn find_wide_row(rows: &Vec<Vec<String>>, width: usize) -> (r: Option<usize>)
    ensures
        match r {
            Some(i) => {
                &&& i < rows@.len()
                &&& rows.deep_view()[i as int].len() >= width
                &&& pick_wide_row(rows.deep_view(), width as int) == Some(
                    rows.deep_view()[i as int],
                )
            },
            None => pick_wide_row(rows.deep_view(), width as int) is None,
        },
{
    let ghost rv = rows.deep_view();
    let mut i: usize = rows.len();
    proof {
        assert(rv.len() == rows@.len());
        assert(rv.take(i as int) =~= rv);
    }
    while i > 0
        invariant
            i <= rows@.len(),
            rv == rows.deep_view(),
            rv.len() == rows@.len(),
            pick_wide_row(rv, width as int) == pick_wide_row(rv.take(i as int), width as int),
        decreases i,
    {
        proof {
            assert(rv.take(i as int).last() == rv[i - 1]);
            assert(rv.take(i as int).drop_last() =~= rv.take(i - 1));
            assert(rv[i - 1] == rows@[i - 1].deep_view());
            assert(rv[i - 1].len() == rows@[i - 1]@.len());
        }
        if rows[i - 1].len() >= width {
            return Some(i - 1);
        }
        i = i - 1;
    }
    proof {
        assert(rv.take(0) =~= Seq::<Seq<Seq<char>>>::empty());
    }
    None
}

/// The extract-A record carried by a list of lenient-parse rows: the
/// last row wide enough for the schema wins; with none, the all-empty
/// row.
pub fn tmdb_record_from_rows(rows: &Vec<Vec<String>>) -> (r: TitleTmdbsRecord)
    ensures
        r.deep_view() == tmdbs_record_of_rows(rows.deep_view()),
{
    match find_wide_row(rows, 24) {
        None => TitleTmdbsRecord::default(),
        Some(i) => {
            let f = &rows[i];
            proof {
                let row = rows@[i as int];
                assert(rows.deep_view()[i as int] == row.deep_view());
                assert forall|j: int| 0 <= j < row@.len() implies #[trigger] row.deep_view()[j]
                    == row@[j]@ by {
                }
                assert(f@.len() >= 24);
            }
            let overview: Option<String> = if f[9].as_str().unicode_len() == 0 {
                None
            } else {
                Some(f[9].clone())
            };
            TitleTmdbsRecord {
                adult: f[0].clone(),
                belongs_to_collection: f[1].clone(),
                budget: f[2].clone(),
                genres: f[3].clone(),
                homepage: f[4].clone(),
                id: f[5].clone(),
                imdb_id: f[6].clone(),
                original_language: f[7].clone(),
                original_title: f[8].clone(),
                overview,
                popularity: f[10].clone(),
                poster_path: f[11].clone(),
                production_companies: f[12].clone(),
                production_countries: f[13].clone(),
                release_date: f[14].clone(),
                revenue: f[15].clone(),
                runtime: f[16].clone(),
                spoken_languages: f[17].clone(),
                status: f[18].clone(),
                tagline: f[19].clone(),
                title: f[20].clone(),
                video: f[21].clone(),
                vote_average: f[22].clone(),
                vote_count: f[23].clone(),
            }
        },
    }
}

/// The extract-B record carried by a list of lenient-parse rows: the
/// last row wide enough for the schema wins; with none, the all-empty
/// row.
pub fn tmdb_big_record_from_rows(rows: &Vec<Vec<String>>) -> (r: TitleTmdbsBigRecord)
    ensures
        r.deep_view() == tmdbs_big_record_of_rows(rows.deep_view()),
{
    match find_wide_row(rows, 20) {
        None => TitleTmdbsBigRecord::default(),
        Some(i) => {
            let f = &rows[i];
            proof {
                let row = rows@[i as int];
                assert(rows.deep_view()[i as int] == row.deep_view());
                assert forall|j: int| 0 <= j < row@.len() implies #[trigger] row.deep_view()[j]
                    == row@[j]@ by {
                }
                assert(f@.len() >= 20);
            }
            let overview: Option<String> = if f[4].as_str().unicode_len() == 0 {
                None
            } else {
                Some(f[4].clone())
            };
            TitleTmdbsBigRecord {
                id: f[0].clone(),
                imdb_id: None,
                title: f[1].clone(),
                genres: f[2].clone(),
                original_language: f[3].clone(),
                overview,
                popularity: f[5].clone(),
                production_companies: f[6].clone(),
                release_date: f[7].clone(),
                budget: f[8].clone(),
                revenue: f[9].clone(),
                runtime: f[10].clone(),
                status: f[11].clone(),
                tagline: f[12].clone(),
                vote_average: f[13].clone(),
                vote_count: f[14].clone(),
                credits: f[15].clone(),
                keywords: f[16].clone(),
                poster_path: f[17].clone(),
                backdrop_path: f[18].clone(),
                recommendations: f[19].clone(),
            }
        },
    }
}

/// Decodes one extract-A line through the lenient comma-delimited
/// reader; a line that yields no wide-enough row decodes to the
/// all-empty record.
pub fn get_tmdb(line: &String) -> (r: TitleTmdbsRecord)
    ensures
        r.deep_view() == tmdbs_record_of_rows(csv_lenient_rows(encode_utf8(line@))),
{
    let rows = csv_rows_lenient(line.as_str().as_bytes());
    tmdb_record_from_rows(&rows)
}

/// Decodes one extract-B line through the lenient comma-delimited
/// reader; a line that yields no wide-enough row decodes to the
/// all-empty record.
pub fn get_tmdb_big(line: &String) -> (r: TitleTmdbsBigRecord)
    ensures
        r.deep_view() == tmdbs_big_record_of_rows(csv_lenient_rows(encode_utf8(line@))),
{
    let rows = csv_rows_lenient(line.as_str().as_bytes());
    tmdb_big_record_from_rows(&rows)
}


/// What the collection-descriptor parse yields for a given rewritten
/// descriptor text: the parsed fields when the text is a JSON object
/// carrying an unsigned `id`, string `name`, `poster_path` and
/// `backdrop_path`, and at most a string-or-null `overview`; `None`
/// otherwise.  The result depends on the text alone.
pub uninterp spec fn collection_of(s: Seq<char>) -> Option<CollectionView>;

/// A single quote rewritten to a double quote/// A single quote rewritten to a double quote; other characters pass
/// through.
pub open spec fn unquote_char(c: char) -> char {
    if c == '\'' {
        '"'
    } else {
        c
    }
}

/// The descriptor text with every single quote rewritten to a double
/// quote.
pub open spec fn rewrite_quotes_spec(s: Seq<char>) -> Seq<char>
    decreases s.len(),
{
    if s.len() == 0 {
        Seq::empty()
    } else {
        rewrite_quotes_spec(s.drop_last()).push(unquote_char(s.last()))
    }
}

/// Rewrites the descriptor's single-quote style to standard
/// double-quoted JSON.
pub fn rewrite_quotes(s: &String) -> (r: String)
    ensures
        r@ == rewrite_quotes_spec(s@),
{
    let st = s.as_str();
    let n = st.unicode_len();
    let mut out = String::new();
    let mut i: usize = 0;
    while i < n
        invariant
            i <= n,
            n == st@.len(),
            st@ == s@,
            out@ == rewrite_quotes_spec(st@.take(i as int)),
        decreases n - i,
    {
        let c = st.get_char(i);
        if c == '\'' {
            push_char(&mut out, '"');
        } else {
            push_char(&mut out, c);
        }
        proof {
            assert(st@.take(i + 1).drop_last() =~= st@.take(i as int));
            assert(st@.take(i + 1).last() == st@[i as int]);
        }
        i = i + 1;
    }
    proof {
        assert(st@.take(n as int) =~= st@);
    }
    out
}

/// Relies on `serde_json::from_str` and the `Value` accessors `get`,
/// `as_u64`, `as_str` and `is_null`: parses a rewritten collection
/// descriptor, which must be a JSON object carrying an unsigned `id`,
/// string `name`, `poster_path` and `backdrop_path`, and at most a
/// string-or-null `overview`; anything else fails.  The result depends
/// on the text alone and carries the name `collection_of`.
#[verifier::external_body]
pub(crate) fn parse_belongs_to_collection(s: &str) -> (r: Option<BelongsToCollection>)
    ensures
        match r {
            Some(c) => collection_of(s@) == Some(c.deep_view()),
            None => collection_of(s@) is None,
        },
{
    let v: serde_json::Value = serde_json::from_str(s).ok()?;
    let id = usize::try_from(v.get("id")?.as_u64()?).ok()?;
    let name = v.get("name")?.as_str()?.to_string();
    let poster_path = v.get("poster_path")?.as_str()?.to_string();
    let backdrop_path = v.get("backdrop_path")?.as_str()?.to_string();
    let overview = match v.get("overview") {
        None => None,
        Some(o) if o.is_null() => None,
        Some(o) => Some(o.as_str()?.to_string()),
    };
    Some(BelongsToCollection { id, name, poster_path, backdrop_path, overview })
}

/// Whether the first four characters of a release date equal the query/// Whether the first four characters of a release date equal the query
/// year, by exact string comparison.
pub open spec fn year_prefix(release_date: Seq<char>, year: Seq<char>) -> bool {
    release_date.len() >= 4 && release_date.take(4) == year
}

/// Whether the release date's leading four characters equal `year`.
fn release_year_matches(release_date: &String, year: &String) -> (b: bool)
    ensures
        b == year_prefix(release_date@, year@),
{
    let st = release_date.as_str();
    if st.unicode_len() < 4 {
        return false;
    }
    let prefix = st.substring_char(0, 4).to_owned();
    prefix.eq(year)
}

/// Whether some metadata result in `s` already carries the extract id
/// `id`.
pub open spec fn has_tmdb_id(s: Seq<TmdbView>, id: Seq<char>) -> bool {
    exists|k: int| 0 <= k < s.len() && s[k].id == id
}

/// Whether some metadata result in `tmdbs` already carries the extract
/// id `id`.
pub fn contains_tmdb_id(tmdbs: &Vec<Tmdb>, id: &String) -> (b: bool)
    ensures
        b == has_tmdb_id(tmdbs.deep_view(), id@),
{
    let mut i: usize = 0;
    while i < tmdbs.len()
        invariant
            i <= tmdbs@.len(),
            forall|k: int| 0 <= k < i ==> #[trigger] tmdbs.deep_view()[k].id != id@,
        decreases tmdbs@.len() - i,
    {
        if tmdbs[i].id.eq(id) {
            proof {
                assert(tmdbs.deep_view()[i as int].id == id@);
            }
            return true;
        }
        proof {
            assert(tmdbs.deep_view()[i as int].id == tmdbs@[i as int].id@);
        }
        i = i + 1;
    }
    false
}

/// The needle text a metadata search scans for: the canonical key of
/// the query text with a trailing comma and optionally a leading comma
/// appended — but the scanner canonicalizes its needle, and the comma is
/// a removed character, so the frame vanishes and the scan is in fact
/// unframed; the framing of the metadata searches is realized only by
/// the acceptance test's exact field comparisons.
pub open spec fn tmdb_needle(title: Seq<char>, tab: bool) -> Seq<char> {
    canonical_key(
        (if tab {
            seq![',']
        } else {
            Seq::<char>::empty()
        }) + canonical_key(title) + seq![','],
    )
}

/// The extract-B record decoded at one scanner hit.
pub open spec fn big_rec_at(data: Seq<u8>, idx: int) -> TitleTmdbsBigView {
    tmdbs_big_record_of_rows(csv_lenient_rows(encode_utf8(line_chars(data, idx))))
}

/// Whether an extract-B row is accepted: its id (case folded) or its
/// title (as a canonical key) equals the query key, and its release
/// year equals the query year.
pub open spec fn big_accepts(t: TitleTmdbsBigView, key: Seq<char>, year: Seq<char>) -> bool {
    &&& (lower_all(t.id) == key || canonical_key(t.title) == key)
    &&& year_prefix(t.release_date, year)
}

/// The metadata result built from an accepted extract-B row: the image
/// paths come from the row itself, and the extract has no imdb
/// identifier.
pub open spec fn tmdb_of_big(t: TitleTmdbsBigView) -> TmdbView {
    TmdbView {
        id: t.id,
        imdb_id: Seq::empty(),
        overview: t.overview,
        poster_path: t.poster_path,
        backdrop_path: t.backdrop_path,
    }
}

/// One extract-B scanner hit folded into the accumulated result set.
pub open spec fn big_step(acc: Seq<TmdbView>, data: Seq<u8>, idx: int, key: Seq<char>, year: Seq<char>) -> Seq<TmdbView> {
    let t = big_rec_at(data, idx);
    if big_accepts(t, key, year) && !has_tmdb_id(acc, t.id) {
        acc.push(tmdb_of_big(t))
    } else {
        acc
    }
}

/// The first `k` extract-B hits folded into the result set.
pub open spec fn big_fold(
    init: Seq<TmdbView>,
    data: Seq<u8>,
    hits: Seq<int>,
    k: int,
    key: Seq<char>,
    year: Seq<char>,
) -> Seq<TmdbView>
    decreases k,
{
    if k <= 0 {
        init
    } else {
        big_step(big_fold(init, data, hits, k - 1, key, year), data, hits[k - 1], key, year)
    }
}

/// The full extract-B search: every scanner hit for the comma-framed
/// needle is decoded, filtered, and deduplicated by extract id,
/// extending `init` in scan order.
pub open spec fn search_tmdbs_big_spec(
    data: Seq<u8>,
    title: Seq<char>,
    year: Seq<char>,
    tab: bool,
    init: Seq<TmdbView>,
) -> Seq<TmdbView> {
    let hits = scan_spec(data, encode_utf8(tmdb_needle(title, tab)));
    big_fold(init, data, hits, hits.len() as int, canonical_key(title), year)
}

/// Scans extract B for `current_title` and folds every accepted row
/// into `tmdbs`, deduplicating by extract id; image paths come from the
/// row's own columns.
pub fn search_tmdbs_big(
    data_tmdbs: &String,
    tmdbs: &mut Vec<Tmdb>,
    current_title: &String,
    current_year: &String,
    tab_at_the_beginning: bool,
) -> (r: Result<(), String>)
    ensures
        r is Ok,
        final(tmdbs).deep_view() == search_tmdbs_big_spec(
            encode_utf8(data_tmdbs@),
            current_title@,
            current_year@,
            tab_at_the_beginning,
            old(tmdbs).deep_view(),
        ),
        unique_tmdb_ids(old(tmdbs).deep_view()) ==> unique_tmdb_ids(final(tmdbs).deep_view()),
{
    let ghost data_bytes = encode_utf8(data_tmdbs@);
    let ghost init = tmdbs.deep_view();
    let key = title_ready(current_title);
    let mut framed = String::new();
    if tab_at_the_beginning {
        push_char(&mut framed, ',');
    }
    framed.append(key.as_str());
    push_char(&mut framed, ',');
    proof {
        assert(framed@ =~= (if tab_at_the_beginning {
            seq![',']
        } else {
            Seq::<char>::empty()
        }) + canonical_key(current_title@) + seq![',']);
    }
    let indices = search_indices(data_tmdbs, &framed);
    let ghost hits = scan_spec(
        data_bytes,
        encode_utf8(tmdb_needle(current_title@, tab_at_the_beginning)),
    );
    proof {
        assert(indices@.map_values(|u: usize| u as int) == hits);
    }
    let mut k: usize = 0;
    while k < indices.len()
        invariant
            k <= indices@.len(),
            indices@.map_values(|u: usize| u as int) == hits,
            tmdbs.deep_view() == big_fold(
                init,
                data_bytes,
                hits,
                k as int,
                canonical_key(current_title@),
                current_year@,
            ),
            key@ == canonical_key(current_title@),
            data_bytes == encode_utf8(data_tmdbs@),
        decreases indices@.len() - k,
    {
        let idx = indices[k];
        proof {
            assert(hits[k as int] == idx as int);
        }
        let line = get_line_by_index(data_tmdbs, &idx, true);
        proof {
            encode_utf8_decode_utf8(line@);
            assert(line@ == line_chars(data_bytes, idx as int));
        }
        let ghost acc = tmdbs.deep_view();
        let rec = get_tmdb_big(&line);
        let ghost t = rec.deep_view();
        proof {
            assert(t == big_rec_at(data_bytes, idx as int));
        }
        let low_id = lower_string(&rec.id);
        let title_key = title_ready(&rec.title);
        let name_match = low_id.eq(&key) || title_key.eq(&key);
        if name_match && release_year_matches(&rec.release_date, current_year) {
            if !contains_tmdb_id(tmdbs, &rec.id) {
                let entity = Tmdb {
                    id: rec.id,
                    imdb_id: String::new(),
                    overview: rec.overview,
                    poster_path: rec.poster_path,
                    backdrop_path: rec.backdrop_path,
                };
                proof {
                    assert(entity.deep_view() == tmdb_of_big(t));
                }
                tmdbs.push(entity);
                proof {
                    assert(tmdbs.deep_view() =~= acc.push(tmdb_of_big(t)));
                }
            }
        }
        proof {
            assert(tmdbs.deep_view() == big_step(
                acc,
                data_bytes,
                idx as int,
                key@,
                current_year@,
            ));
        }
        k = k + 1;
    }
    proof {
        assert(k as int == hits.len());
        if unique_tmdb_ids(init) {
            lemma_big_fold_unique(
                init,
                data_bytes,
                hits,
                hits.len() as int,
                canonical_key(current_title@),
                current_year@,
            );
        }
    }
    Ok(())
}


/// The extract-A record decoded at one scanner hit.
pub open spec fn a_rec_at(data: Seq<u8>, idx: int) -> TitleTmdbsView {
    tmdbs_record_of_rows(csv_lenient_rows(encode_utf8(line_chars(data, idx))))
}

/// Whether an extract-A row is accepted: a row whose imdb identifier
/// (case folded) equals the query key is accepted outright, bypassing
/// the year check; otherwise the title must match as a canonical key
/// and the release year must equal the query year.
pub open spec fn a_accepts(t: TitleTmdbsView, key: Seq<char>, year: Seq<char>) -> bool {
    let is_id = lower_all(t.imdb_id) == key;
    &&& (is_id || canonical_key(t.title) == key)
    &&& (is_id || year_prefix(t.release_date, year))
}

/// What an accepted extract-A row contributes: its identifiers, its
/// overview, and the raw text of its embedded collection descriptor,
/// whose parse alone decides the image paths.
pub ghost struct TmdbPick {
    pub id: Seq<char>,
    pub imdb_id: Seq<char>,
    pub overview: Option<Seq<char>>,
    pub collection: Seq<char>,
}

/// The contribution of one extract-A row.
pub open spec fn pick_of(t: TitleTmdbsView) -> TmdbPick {
    TmdbPick {
        id: t.id,
        imdb_id: t.imdb_id,
        overview: t.overview,
        collection: t.belongs_to_collection,
    }
}

/// Whether some pick in `acc` already carries the extract id `id`.
pub open spec fn has_pick_id(acc: Seq<TmdbPick>, id: Seq<char>) -> bool {
    exists|k: int| 0 <= k < acc.len() && acc[k].id == id
}

/// Whether `id` occurs in a list of identifiers.
pub open spec fn in_ids(ids: Seq<Seq<char>>, id: Seq<char>) -> bool {
    exists|k: int| 0 <= k < ids.len() && ids[k] == id
}

/// The extract ids of a metadata result list, in order.
pub open spec fn ids_of(s: Seq<TmdbView>) -> Seq<Seq<char>> {
    Seq::new(s.len(), |i: int| s[i].id)
}

/// One extract-A scanner hit folded into the accumulated pick list,
/// deduplicating against both the picks so far and the ids already
/// present before the search.
pub open spec fn picks_step(
    acc: Seq<TmdbPick>,
    init_ids: Seq<Seq<char>>,
    data: Seq<u8>,
    idx: int,
    key: Seq<char>,
    year: Seq<char>,
) -> Seq<TmdbPick> {
    let t = a_rec_at(data, idx);
    if a_accepts(t, key, year) && !in_ids(init_ids, t.id) && !has_pick_id(acc, t.id) {
        acc.push(pick_of(t))
    } else {
        acc
    }
}

/// The first `k` extract-A hits folded into the pick list.
pub open spec fn picks_fold(
    init_ids: Seq<Seq<char>>,
    data: Seq<u8>,
    hits: Seq<int>,
    k: int,
    key: Seq<char>,
    year: Seq<char>,
) -> Seq<TmdbPick>
    decreases k,
{
    if k <= 0 {
        Seq::empty()
    } else {
        picks_step(
            picks_fold(init_ids, data, hits, k - 1, key, year),
            init_ids,
            data,
            hits[k - 1],
            key,
            year,
        )
    }
}

/// The full extract-A search as a pick list: every scanner hit for the
/// comma-framed needle, decoded, filtered, and deduplicated by extract
/// id.
pub open spec fn search_tmdbs_picks(
    data: Seq<u8>,
    title: Seq<char>,
    year: Seq<char>,
    tab: bool,
    init_ids: Seq<Seq<char>>,
) -> Seq<TmdbPick> {
    let hits = scan_spec(data, encode_utf8(tmdb_needle(title, tab)));
    picks_fold(init_ids, data, hits, hits.len() as int, canonical_key(title), year)
}

/// Whether one metadata result realises one pick: the identifiers and
/// overview are the pick's; with an empty collection descriptor the
/// image paths stay empty; with a non-empty one, the quote-rewritten
/// descriptor's parse decides them — its paths on success, empty on
/// failure.
pub open spec fn pick_matches(e: TmdbView, p: TmdbPick) -> bool {
    &&& e.id == p.id
    &&& e.imdb_id == p.imdb_id
    &&& e.overview == p.overview
    &&& (p.collection.len() == 0 ==> e.poster_path == Seq::<char>::empty() && e.backdrop_path
        == Seq::<char>::empty())
    &&& (p.collection.len() > 0 ==> (match collection_of(rewrite_quotes_spec(p.collection)) {
        Some(c) => e.poster_path == c.poster_path && e.backdrop_path == c.backdrop_path,
        None => e.poster_path == Seq::<char>::empty() && e.backdrop_path
            == Seq::<char>::empty(),
    }))
}

/// Whether `new` extends `old` by exactly one realisation of each pick,
/// in order.
pub open spec fn picks_extend(old: Seq<TmdbView>, new: Seq<TmdbView>, picks: Seq<TmdbPick>) -> bool {
    &&& new.len() == old.len() + picks.len()
    &&& (forall|i: int| 0 <= i < old.len() ==> new[i] == old[i])
    &&& (forall|i: int|
        0 <= i < picks.len() ==> pick_matches(new[old.len() + i], #[trigger] picks[i]))
}

/// In a result list that extends `init` by realised picks, an id is
/// present exactly when it was present initially or some pick carries
/// it.
proof fn lemma_live_has_id(
    live: Seq<TmdbView>,
    init: Seq<TmdbView>,
    acc: Seq<TmdbPick>,
    id: Seq<char>,
)
    requires
        picks_extend(init, live, acc),
    ensures
        has_tmdb_id(live, id) == (in_ids(ids_of(init), id) || has_pick_id(acc, id)),
{
    if has_tmdb_id(live, id) {
        let k = choose|k: int| 0 <= k < live.len() && live[k].id == id;
        if k < init.len() {
            assert(ids_of(init)[k] == id);
            assert(in_ids(ids_of(init), id));
        } else {
            assert(pick_matches(live[init.len() + (k - init.len())], acc[k - init.len()]));
            assert(acc[k - init.len()].id == id);
            assert(has_pick_id(acc, id));
        }
    }
    if in_ids(ids_of(init), id) {
        let k = choose|k: int| 0 <= k < ids_of(init).len() && ids_of(init)[k] == id;
        assert(live[k].id == id);
        assert(has_tmdb_id(live, id));
    }
    if has_pick_id(acc, id) {
        let k = choose|k: int| 0 <= k < acc.len() && acc[k].id == id;
        assert(pick_matches(live[init.len() + k], acc[k]));
        assert(has_tmdb_id(live, id));
    }
}

/// Scans extract A for `current_title` and folds every accepted row
/// into `tmdbs`, deduplicating by extract id.  A non-empty embedded
/// collection descriptor is quote-rewritten and parsed; on success its
/// image paths fill the result, on failure (and with an empty
/// descriptor) the paths stay empty.
pub fn search_tmdbs(
    data_tmdbs: &String,
    tmdbs: &mut Vec<Tmdb>,
    current_title: &String,
    current_year: &String,
    tab_at_the_beginning: bool,
) -> (r: Result<(), String>)
    ensures
        r is Ok,
        picks_extend(
            old(tmdbs).deep_view(),
            final(tmdbs).deep_view(),
            search_tmdbs_picks(
                encode_utf8(data_tmdbs@),
                current_title@,
                current_year@,
                tab_at_the_beginning,
                ids_of(old(tmdbs).deep_view()),
            ),
        ),
        unique_tmdb_ids(old(tmdbs).deep_view()) ==> unique_tmdb_ids(final(tmdbs).deep_view()),
{
    let ghost data_bytes = encode_utf8(data_tmdbs@);
    let ghost init = tmdbs.deep_view();
    let ghost init_ids = ids_of(init);
    let key = title_ready(current_title);
    let mut framed = String::new();
    if tab_at_the_beginning {
        push_char(&mut framed, ',');
    }
    framed.append(key.as_str());
    push_char(&mut framed, ',');
    proof {
        assert(framed@ =~= (if tab_at_the_beginning {
            seq![',']
        } else {
            Seq::<char>::empty()
        }) + canonical_key(current_title@) + seq![',']);
    }
    let indices = search_indices(data_tmdbs, &framed);
    let ghost hits = scan_spec(
        data_bytes,
        encode_utf8(tmdb_needle(current_title@, tab_at_the_beginning)),
    );
    proof {
        assert(indices@.map_values(|u: usize| u as int) == hits);
        assert(picks_extend(init, init, picks_fold(
            init_ids,
            data_bytes,
            hits,
            0,
            canonical_key(current_title@),
            current_year@,
        )));
    }
    let mut k: usize = 0;
    while k < indices.len()
        invariant
            k <= indices@.len(),
            indices@.map_values(|u: usize| u as int) == hits,
            picks_extend(init, tmdbs.deep_view(), picks_fold(
                init_ids,
                data_bytes,
                hits,
                k as int,
                canonical_key(current_title@),
                current_year@,
            )),
            key@ == canonical_key(current_title@),
            data_bytes == encode_utf8(data_tmdbs@),
            init_ids == ids_of(init),
        decreases indices@.len() - k,
    {
        let idx = indices[k];
        let ghost picks_acc = picks_fold(
            init_ids,
            data_bytes,
            hits,
            k as int,
            canonical_key(current_title@),
            current_year@,
        );
        proof {
            assert(hits[k as int] == idx as int);
        }
        let line = get_line_by_index(data_tmdbs, &idx, true);
        proof {
            encode_utf8_decode_utf8(line@);
            assert(line@ == line_chars(data_bytes, idx as int));
        }
        let ghost live = tmdbs.deep_view();
        let rec = get_tmdb(&line);
        let ghost t = rec.deep_view();
        proof {
            assert(t == a_rec_at(data_bytes, idx as int));
            lemma_live_has_id(live, init, picks_acc, t.id);
        }
        let is_imdb_id = lower_string(&rec.imdb_id).eq(&key);
        let title_key = title_ready(&rec.title);
        let name_match = is_imdb_id || title_key.eq(&key);
        let year_match = is_imdb_id || release_year_matches(&rec.release_date, current_year);
        if name_match && year_match {
            if !contains_tmdb_id(tmdbs, &rec.id) {
                let mut entity = Tmdb {
                    id: rec.id,
                    imdb_id: rec.imdb_id,
                    overview: rec.overview,
                    poster_path: String::new(),
                    backdrop_path: String::new(),
                };
                if rec.belongs_to_collection.as_str().unicode_len() > 0 {
                    let rewritten = rewrite_quotes(&rec.belongs_to_collection);
                    match parse_belongs_to_collection(rewritten.as_str()) {
                        Some(c) => {
                            let ghost cv = c.deep_view();
                            proof {
                                assert(collection_of(rewrite_quotes_spec(
                                    t.belongs_to_collection,
                                )) == Some(cv));
                            }
                            entity.poster_path = c.poster_path;
                            entity.backdrop_path = c.backdrop_path;
                            proof {
                                assert(entity.poster_path@ == cv.poster_path);
                                assert(entity.backdrop_path@ == cv.backdrop_path);
                            }
                        },
                        None => {
                            proof {
                                assert(collection_of(rewrite_quotes_spec(
                                    t.belongs_to_collection,
                                )) is None);
                            }
                        },
                    }
                }
                let ghost p = pick_of(t);
                proof {
                    assert(pick_matches(entity.deep_view(), p));
                }
                tmdbs.push(entity);
                proof {
                    let live2 = tmdbs.deep_view();
                    let picks2 = picks_acc.push(p);
                    assert(live2 =~= live.push(entity.deep_view()));
                    assert(picks_fold(
                        init_ids,
                        data_bytes,
                        hits,
                        k + 1,
                        canonical_key(current_title@),
                        current_year@,
                    ) == picks2);
                    assert forall|i: int| 0 <= i < init.len() implies live2[i] == init[i] by {
                        assert(live2[i] == live[i]);
                    }
                    assert forall|i: int|
                        0 <= i < picks2.len() implies pick_matches(
                        live2[init.len() + i],
                        #[trigger] picks2[i],
                    ) by {
                        if i < picks_acc.len() {
                            assert(live2[init.len() + i] == live[init.len() + i]);
                            assert(picks2[i] == picks_acc[i]);
                        } else {
                            assert(live2[init.len() + i] == entity.deep_view());
                            assert(picks2[i] == p);
                        }
                    }
                }
            } else {
                proof {
                    assert(picks_step(
                        picks_acc,
                        init_ids,
                        data_bytes,
                        idx as int,
                        key@,
                        current_year@,
                    ) == picks_acc);
                }
            }
        } else {
            proof {
                assert(picks_step(
                    picks_acc,
                    init_ids,
                    data_bytes,
                    idx as int,
                    key@,
                    current_year@,
                ) == picks_acc);
            }
        }
        k = k + 1;
    }
    proof {
        assert(k as int == hits.len());
        let picks = search_tmdbs_picks(
            data_bytes,
            current_title@,
            current_year@,
            tab_at_the_beginning,
            init_ids,
        );
        lemma_picks_fold_unique(
            init_ids,
            data_bytes,
            hits,
            hits.len() as int,
            canonical_key(current_title@),
            current_year@,
        );
        if unique_tmdb_ids(init) {
            lemma_extend_unique(init, tmdbs.deep_view(), picks);
        }
    }
    Ok(())
}


/// The pick list of the whole extract-A stage of a query: a direct
/// title search (with secondary-title fallback) when no entity
/// resolved, a search by the entity's identifier when exactly one did,
/// and nothing at all when more than one did (ambiguous identity, a
/// documented limitation).
pub open spec fn by_imdb_picks(
    data: Seq<u8>,
    imdbs: Seq<ImdbView>,
    title: Seq<char>,
    title_optional: Seq<char>,
    year: Seq<char>,
) -> Seq<TmdbPick> {
    if imdbs.len() == 0 {
        let first = search_tmdbs_picks(data, title, year, true, Seq::empty());
        if first.len() == 0 && title_optional.len() > 0 {
            search_tmdbs_picks(data, title_optional, year, true, Seq::empty())
        } else {
            first
        }
    } else if imdbs.len() == 1 {
        search_tmdbs_picks(data, imdbs[0].tconst, year, true, Seq::empty())
    } else {
        Seq::empty()
    }
}

/// Runs the extract-A stage for a query: by title (with fallback) when
/// no entity resolved, by the entity's identifier when exactly one did,
/// and not at all when several did.  With more than one resolved entity
/// the result is empty: the extract-A search is never invoked.
pub fn search_tmdbs_by_imdb(
    data_tmdbs: &String,
    imdbs: &Vec<Imdb>,
    titles: (&String, &String, &str),
) -> (tmdbs: Vec<Tmdb>)
    ensures
        picks_extend(
            Seq::empty(),
            tmdbs.deep_view(),
            by_imdb_picks(
                encode_utf8(data_tmdbs@),
                imdbs.deep_view(),
                titles.0@,
                titles.1@,
                titles.2@,
            ),
        ),
        imdbs.deep_view().len() > 1 ==> tmdbs.deep_view() == Seq::<TmdbView>::empty(),
        unique_tmdb_ids(tmdbs.deep_view()),
{
    let (title, title_optional, year) = titles;
    let ghost data_bytes = encode_utf8(data_tmdbs@);
    let year_string = String::from_str(year);
    let mut tmdbs: Vec<Tmdb> = Vec::new();
    proof {
        assert(tmdbs.deep_view() =~= Seq::<TmdbView>::empty());
        assert(ids_of(Seq::<TmdbView>::empty()) =~= Seq::<Seq<char>>::empty());
        assert(imdbs.deep_view().len() == imdbs@.len());
    }
    if imdbs.len() == 0 {
        let _ = search_tmdbs(data_tmdbs, &mut tmdbs, title, &year_string, true);
        if tmdbs.len() == 0 && title_optional.as_str().unicode_len() > 0 {
            proof {
                assert(tmdbs.deep_view() =~= Seq::<TmdbView>::empty());
                assert(ids_of(tmdbs.deep_view()) =~= Seq::<Seq<char>>::empty());
            }
            let _ = search_tmdbs(data_tmdbs, &mut tmdbs, title_optional, &year_string, true);
        } else {
            proof {
                assert(tmdbs.deep_view().len() == tmdbs@.len());
            }
        }
    } else if imdbs.len() == 1 {
        proof {
            assert(imdbs.deep_view()[0] == imdbs@[0].deep_view());
        }
        let _ = search_tmdbs(data_tmdbs, &mut tmdbs, &imdbs[0].tconst, &year_string, true);
    } else {
        proof {
            assert(picks_extend(
                Seq::<TmdbView>::empty(),
                tmdbs.deep_view(),
                Seq::<TmdbPick>::empty(),
            ));
        }
    }
    tmdbs
}

/// The extract-B rows gathered for the first `k` resolved extract ids,
/// each searched id-first without leading framing, accumulated with
/// cross-search deduplication.
pub open spec fn big_join_fold(data: Seq<u8>, ids: Seq<Seq<char>>, year: Seq<char>, k: int) -> Seq<
    TmdbView,
>
    decreases k,
{
    if k <= 0 {
        Seq::empty()
    } else {
        search_tmdbs_big_spec(data, ids[k - 1], year, false, big_join_fold(data, ids, year, k - 1))
    }
}

/// The extract-B rows of a direct title search, used when no extract-A
/// row was found: the primary title, with the secondary title searched
/// only when the primary search found nothing and the secondary title
/// is non-empty (the same fallback rule as the catalog search).
pub open spec fn direct_big(
    data: Seq<u8>,
    title: Seq<char>,
    title_optional: Seq<char>,
    year: Seq<char>,
) -> Seq<TmdbView> {
    let first = search_tmdbs_big_spec(data, title, year, true, Seq::empty());
    if first.len() == 0 && title_optional.len() > 0 {
        search_tmdbs_big_spec(data, title_optional, year, true, Seq::empty())
    } else {
        first
    }
}

/// The first position in `s` carrying the extract id `id`, from `i` on,
/// or `-1`.
pub open spec fn first_id_from(s: Seq<TmdbView>, id: Seq<char>, i: int) -> int
    decreases s.len() - i,
{
    if i < 0 || i >= s.len() {
        -1
    } else if s[i].id == id {
        i
    } else {
        first_id_from(s, id, i + 1)
    }
}

/// A metadata result with its image paths replaced by those of an
/// extract-B row.
pub open spec fn with_images(e: TmdbView, b: TmdbView) -> TmdbView {
    TmdbView {
        id: e.id,
        imdb_id: e.imdb_id,
        overview: e.overview,
        poster_path: b.poster_path,
        backdrop_path: b.backdrop_path,
    }
}

/// An extract-B row marked as consumed: its id is rewritten to `0` so
/// the final concatenation skips it.
pub open spec fn consumed(b: TmdbView) -> TmdbView {
    TmdbView {
        id: seq!['0'],
        imdb_id: b.imdb_id,
        overview: b.overview,
        poster_path: b.poster_path,
        backdrop_path: b.backdrop_path,
    }
}

/// The image-path backfill after the first `k` extract-B rows: each row
/// fills the first result sharing its id and is marked consumed; rows
/// matching nothing are left alone.  The pair is (results, rows).
pub open spec fn backfill(tmdbs: Seq<TmdbView>, bigs: Seq<TmdbView>, k: int) -> (
    Seq<TmdbView>,
    Seq<TmdbView>,
)
    decreases k,
{
    if k <= 0 {
        (tmdbs, bigs)
    } else {
        let prev = backfill(tmdbs, bigs, k - 1);
        let b = prev.1[k - 1];
        let j = first_id_from(prev.0, b.id, 0);
        if j >= 0 {
            (prev.0.update(j, with_images(prev.0[j], b)), prev.1.update(k - 1, consumed(b)))
        } else {
            prev
        }
    }
}

/// The final concatenation: the extract-B rows are appended in reverse
/// order, skipping every row marked consumed.
pub open spec fn rev_append(acc: Seq<TmdbView>, bigs: Seq<TmdbView>, k: int) -> Seq<TmdbView>
    decreases k,
{
    if k <= 0 {
        acc
    } else {
        let acc2 = if bigs[k - 1].id != seq!['0'] {
            acc.push(bigs[k - 1])
        } else {
            acc
        };
        rev_append(acc2, bigs, k - 1)
    }
}

/// The whole extract-B stage applied to the realised extract-A results
/// `base`: id-joined rows when `base` is non-empty (their image paths
/// backfilled into `base`, matched rows consumed), a direct title
/// search otherwise, and the reversed concatenation of the unconsumed
/// remainder.
pub open spec fn assemble_tmdbs(
    data_big: Seq<u8>,
    base: Seq<TmdbView>,
    title: Seq<char>,
    title_optional: Seq<char>,
    year: Seq<char>,
) -> Seq<TmdbView> {
    let bigs = if base.len() > 0 {
        big_join_fold(data_big, ids_of(base), year, base.len() as int)
    } else {
        direct_big(data_big, title, title_optional, year)
    };
    let joined = backfill(base, bigs, bigs.len() as int);
    rev_append(joined.0, joined.1, joined.1.len() as int)
}


/// Backfilling into an empty result list changes nothing: no row finds
/// a match.
proof fn lemma_backfill_empty(bigs: Seq<TmdbView>, k: int)
    ensures
        backfill(Seq::<TmdbView>::empty(), bigs, k) == (Seq::<TmdbView>::empty(), bigs),
    decreases k,
{
    if k > 0 {
        lemma_backfill_empty(bigs, k - 1);
        assert(bigs.update(k - 1, consumed(bigs[k - 1])) =~= bigs.update(
            k - 1,
            consumed(bigs[k - 1]),
        ));
    }
}

/// The first position in `tmdbs` carrying the extract id `id`.
fn find_first_id(tmdbs: &Vec<Tmdb>, id: &String) -> (r: Option<usize>)
    ensures
        match r {
            Some(j) => j < tmdbs@.len() && first_id_from(tmdbs.deep_view(), id@, 0) == j as int,
            None => first_id_from(tmdbs.deep_view(), id@, 0) == -1,
        },
{
    let ghost tv = tmdbs.deep_view();
    let mut i: usize = 0;
    while i < tmdbs.len()
        invariant
            i <= tmdbs@.len(),
            tv == tmdbs.deep_view(),
            tv.len() == tmdbs@.len(),
            first_id_from(tv, id@, 0) == first_id_from(tv, id@, i as int),
        decreases tmdbs@.len() - i,
    {
        proof {
            assert(tv[i as int] == tmdbs@[i as int].deep_view());
        }
        if tmdbs[i].id.eq(id) {
            return Some(i);
        }
        i = i + 1;
    }
    None
}

/// Joins the two metadata extracts for a query: the extract-A stage
/// first; then, per resolved row, an id-keyed extract-B search whose
/// image paths backfill the row (the extract-B row is consumed), or a
/// direct extract-B title search when extract A found nothing; the
/// unconsumed extract-B rows are appended in reverse order.
pub fn get_tmdbs(
    data_tmdbs: &String,
    data_tmdbs_big: &String,
    imdbs: &Vec<Imdb>,
    titles: (&String, &String, &String),
) -> (tmdbs: Vec<Tmdb>)
    ensures
        exists|base: Seq<TmdbView>|
            {
                &&& #[trigger] picks_extend(
                    Seq::<TmdbView>::empty(),
                    base,
                    by_imdb_picks(
                        encode_utf8(data_tmdbs@),
                        imdbs.deep_view(),
                        titles.0@,
                        titles.1@,
                        titles.2@,
                    ),
                )
                &&& tmdbs.deep_view() == assemble_tmdbs(
                    encode_utf8(data_tmdbs_big@),
                    base,
                    titles.0@,
                    titles.1@,
                    titles.2@,
                )
            },
{
    let (title, title_optional, year) = titles;
    let ghost data_big = encode_utf8(data_tmdbs_big@);
    let mut tmdbs = search_tmdbs_by_imdb(
        data_tmdbs,
        imdbs,
        (title, title_optional, year.as_str()),
    );
    let ghost base = tmdbs.deep_view();
    let mut tmdbs_big: Vec<Tmdb> = Vec::new();
    proof {
        assert(tmdbs_big.deep_view() =~= Seq::<TmdbView>::empty());
    }
    if tmdbs.len() > 0 {
        let mut i: usize = 0;
        while i < tmdbs.len()
            invariant
                i <= tmdbs@.len(),
                base == tmdbs.deep_view(),
                base.len() == tmdbs@.len(),
                tmdbs_big.deep_view() == big_join_fold(data_big, ids_of(base), year@, i as int),
                data_big == encode_utf8(data_tmdbs_big@),
            decreases tmdbs@.len() - i,
        {
            proof {
                assert(ids_of(base)[i as int] == base[i as int].id);
                assert(base[i as int] == tmdbs@[i as int].deep_view());
            }
            let _ = search_tmdbs_big(data_tmdbs_big, &mut tmdbs_big, &tmdbs[i].id, year, false);
            i = i + 1;
        }
        // backfill image paths from the id-joined rows, consuming them
        let ghost bigs0 = tmdbs_big.deep_view();
        let mut bi: usize = 0;
        while bi < tmdbs_big.len()
            invariant
                bi <= tmdbs_big@.len(),
                tmdbs_big@.len() == bigs0.len(),
                (tmdbs.deep_view(), tmdbs_big.deep_view()) == backfill(base, bigs0, bi as int),
            decreases tmdbs_big@.len() - bi,
        {
            let ghost pre_t = tmdbs.deep_view();
            let ghost pre_b = tmdbs_big.deep_view();
            proof {
                assert(pre_b[bi as int] == tmdbs_big@[bi as int].deep_view());
            }
            match find_first_id(&tmdbs, &tmdbs_big[bi].id) {
                Some(j) => {
                    let updated = Tmdb {
                        id: tmdbs[j].id.clone(),
                        imdb_id: tmdbs[j].imdb_id.clone(),
                        overview: match tmdbs[j].overview {
                            Some(ref s) => Some(s.clone()),
                            None => None,
                        },
                        poster_path: tmdbs_big[bi].poster_path.clone(),
                        backdrop_path: tmdbs_big[bi].backdrop_path.clone(),
                    };
                    proof {
                        assert(tmdbs.deep_view()[j as int] == tmdbs@[j as int].deep_view());
                        assert(updated.deep_view() == with_images(
                            pre_t[j as int],
                            pre_b[bi as int],
                        ));
                    }
                    tmdbs[j] = updated;
                    let marked = Tmdb {
                        id: String::from_str("0"),
                        imdb_id: tmdbs_big[bi].imdb_id.clone(),
                        overview: match tmdbs_big[bi].overview {
                            Some(ref s) => Some(s.clone()),
                            None => None,
                        },
                        poster_path: tmdbs_big[bi].poster_path.clone(),
                        backdrop_path: tmdbs_big[bi].backdrop_path.clone(),
                    };
                    proof {
                        reveal_strlit("0");
                        assert("0"@ =~= seq!['0']);
                        assert(marked.deep_view() == consumed(pre_b[bi as int]));
                    }
                    tmdbs_big[bi] = marked;
                    proof {
                        assert(tmdbs.deep_view() =~= pre_t.update(
                            j as int,
                            with_images(pre_t[j as int], pre_b[bi as int]),
                        ));
                        assert(tmdbs_big.deep_view() =~= pre_b.update(
                            bi as int,
                            consumed(pre_b[bi as int]),
                        ));
                    }
                },
                None => {
                },
            }
            bi = bi + 1;
        }
        proof {
            assert(base.len() > 0);
            assert(bigs0 == big_join_fold(data_big, ids_of(base), year@, base.len() as int));
            assert((tmdbs.deep_view(), tmdbs_big.deep_view()) == backfill(
                base,
                bigs0,
                bigs0.len() as int,
            ));
        }
    } else {
        let _ = search_tmdbs_big(data_tmdbs_big, &mut tmdbs_big, title, year, true);
        if tmdbs_big.len() == 0 && title_optional.as_str().unicode_len() > 0 {
            proof {
                assert(tmdbs_big.deep_view() =~= Seq::<TmdbView>::empty());
            }
            let _ = search_tmdbs_big(data_tmdbs_big, &mut tmdbs_big, title_optional, year, true);
        } else {
            proof {
                assert(tmdbs_big.deep_view().len() == tmdbs_big@.len());
            }
        }
        proof {
            assert(tmdbs_big.deep_view() == direct_big(data_big, title@, title_optional@, year@));
            assert(base.len() == tmdbs@.len());
            assert(base =~= Seq::<TmdbView>::empty());
            lemma_backfill_empty(tmdbs_big.deep_view(), tmdbs_big.deep_view().len() as int);
        }
    }
    // append the unconsumed extract-B rows, in reverse order
    let ghost joined = backfill(
        base,
        (if base.len() > 0 {
            big_join_fold(data_big, ids_of(base), year@, base.len() as int)
        } else {
            direct_big(data_big, title@, title_optional@, year@)
        }),
        (if base.len() > 0 {
            big_join_fold(data_big, ids_of(base), year@, base.len() as int)
        } else {
            direct_big(data_big, title@, title_optional@, year@)
        }).len() as int,
    );
    proof {
        assert((tmdbs.deep_view(), tmdbs_big.deep_view()) == joined);
        assert(joined.1.take(joined.1.len() as int) =~= joined.1);
        assert(tmdbs_big.deep_view().len() == tmdbs_big@.len());
    }
    while tmdbs_big.len() > 0
        invariant
            tmdbs_big.deep_view().len() == tmdbs_big@.len(),
            tmdbs_big@.len() <= joined.1.len(),
            rev_append(joined.0, joined.1, joined.1.len() as int) == rev_append(
                tmdbs.deep_view(),
                joined.1,
                tmdbs_big@.len() as int,
            ),
            tmdbs_big.deep_view() == joined.1.take(tmdbs_big@.len() as int),
        decreases tmdbs_big@.len(),
    {
        let ghost pre_len = tmdbs_big@.len() as int;
        let ghost pre_vec = tmdbs_big@;
        let ghost pre_deep = tmdbs_big.deep_view();
        let ghost acc = tmdbs.deep_view();
        let t = match tmdbs_big.pop() {
            Some(t) => t,
            None => {
                proof {
                    assert(false);
                }
                Tmdb::default()
            },
        };
        proof {
            assert(t == pre_vec[pre_len - 1]);
            assert(pre_deep[pre_len - 1] == pre_vec[pre_len - 1].deep_view());
            assert(t.deep_view() == joined.1[pre_len - 1]);
            assert(tmdbs_big.deep_view() =~= joined.1.take(pre_len - 1));
        }
        if !str_eq(t.id.as_str(), "0") {
            proof {
                reveal_strlit("0");
                assert("0"@ =~= seq!['0']);
                assert(t.id@ != seq!['0']);
            }
            let ghost tv = t.deep_view();
            tmdbs.push(t);
            proof {
                assert(tmdbs.deep_view() =~= acc.push(tv));
            }
        } else {
            proof {
                reveal_strlit("0");
                assert("0"@ =~= seq!['0']);
            }
        }
    }
    proof {
        assert(rev_append(joined.0, joined.1, joined.1.len() as int) == tmdbs.deep_view());
        assert(picks_extend(
            Seq::<TmdbView>::empty(),
            base,
            by_imdb_picks(
                encode_utf8(data_tmdbs@),
                imdbs.deep_view(),
                title@,
                title_optional@,
                year@,
            ),
        ));
        assert(tmdbs.deep_view() == assemble_tmdbs(data_big, base, title@, title_optional@, year@));
    }
    tmdbs
}


/// No two metadata results in `s` share an extract id.
pub open spec fn unique_tmdb_ids(s: Seq<TmdbView>) -> bool {
    forall|i: int, j: int| 0 <= i < j < s.len() ==> (#[trigger] s[i]).id != (#[trigger] s[j]).id
}

/// No two picks in `s` share an extract id.
pub open spec fn unique_pick_ids(s: Seq<TmdbPick>) -> bool {
    forall|i: int, j: int| 0 <= i < j < s.len() ==> (#[trigger] s[i]).id != (#[trigger] s[j]).id
}

/// The extract-B fold preserves per-id uniqueness: a row is appended
/// only when its id is absent.
pub proof fn lemma_big_fold_unique(
    init: Seq<TmdbView>,
    data: Seq<u8>,
    hits: Seq<int>,
    k: int,
    key: Seq<char>,
    year: Seq<char>,
)
    requires
        unique_tmdb_ids(init),
    ensures
        unique_tmdb_ids(big_fold(init, data, hits, k, key, year)),
    decreases k,
{
    if k > 0 {
        lemma_big_fold_unique(init, data, hits, k - 1, key, year);
        let prev = big_fold(init, data, hits, k - 1, key, year);
        let cur = big_fold(init, data, hits, k, key, year);
        assert forall|i: int, j: int|
            0 <= i < j < cur.len() implies (#[trigger] cur[i]).id != (#[trigger] cur[j]).id by {
            if j < prev.len() {
                assert(cur[i] == prev[i] && cur[j] == prev[j]);
            } else if cur.len() > prev.len() {
                assert(cur[i] == prev[i]);
                assert(!has_tmdb_id(prev, cur[j].id));
            }
        }
    }
}

/// The extract-A fold never picks the same extract id twice, nor an id
/// already present before the search.
pub proof fn lemma_picks_fold_unique(
    init_ids: Seq<Seq<char>>,
    data: Seq<u8>,
    hits: Seq<int>,
    k: int,
    key: Seq<char>,
    year: Seq<char>,
)
    ensures
        unique_pick_ids(picks_fold(init_ids, data, hits, k, key, year)),
        forall|i: int|
            0 <= i < picks_fold(init_ids, data, hits, k, key, year).len() ==> !in_ids(
                init_ids,
                (#[trigger] picks_fold(init_ids, data, hits, k, key, year)[i]).id,
            ),
    decreases k,
{
    if k > 0 {
        lemma_picks_fold_unique(init_ids, data, hits, k - 1, key, year);
        let prev = picks_fold(init_ids, data, hits, k - 1, key, year);
        let cur = picks_fold(init_ids, data, hits, k, key, year);
        assert forall|i: int, j: int|
            0 <= i < j < cur.len() implies (#[trigger] cur[i]).id != (#[trigger] cur[j]).id by {
            if j < prev.len() {
                assert(cur[i] == prev[i] && cur[j] == prev[j]);
            } else if cur.len() > prev.len() {
                assert(cur[i] == prev[i]);
                assert(!has_pick_id(prev, cur[j].id));
            }
        }
        assert forall|i: int|
            0 <= i < cur.len() implies !in_ids(init_ids, (#[trigger] cur[i]).id) by {
            if i < prev.len() {
                assert(cur[i] == prev[i]);
            }
        }
    }
}


/// A result list that extends a unique-id list by realised picks with
/// fresh, pairwise-distinct ids has unique ids throughout.
pub proof fn lemma_extend_unique(init: Seq<TmdbView>, live: Seq<TmdbView>, picks: Seq<TmdbPick>)
    requires
        picks_extend(init, live, picks),
        unique_tmdb_ids(init),
        unique_pick_ids(picks),
        forall|i: int| 0 <= i < picks.len() ==> !in_ids(ids_of(init), (#[trigger] picks[i]).id),
    ensures
        unique_tmdb_ids(live),
{
    assert forall|i: int, j: int|
        0 <= i < j < live.len() implies (#[trigger] live[i]).id != (#[trigger] live[j]).id by {
        if j < init.len() {
            assert(live[i] == init[i] && live[j] == init[j]);
        } else if i < init.len() {
            let pj = j - init.len();
            assert(pick_matches(live[init.len() + pj], picks[pj]));
            assert(!in_ids(ids_of(init), picks[pj].id));
            assert(ids_of(init)[i] == init[i].id);
        } else {
            let pi = i - init.len();
            let pj = j - init.len();
            assert(pick_matches(live[init.len() + pi], picks[pi]));
            assert(pick_matches(live[init.len() + pj], picks[pj]));
        }
    }
}

} // verus!
