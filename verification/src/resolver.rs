//! The per-query resolver: catalog search with secondary-title
//! fallback, the alternate-titles bridge with stub resolution, rating
//! attachment, and the metadata join, in that order.

use crate::imdb::Imdb;
use crate::imdb::ImdbView;
use crate::imdb::RatingView;
use crate::imdb::empty_rating;
use crate::imdb::get_akas;
use crate::imdb::get_akas_spec;
use crate::imdb::get_basics;
use crate::imdb::get_basics_spec;
use crate::imdb::get_ratings;
use crate::imdb::lemma_get_basics_unique;
use crate::imdb::lemma_merge_unique;
use crate::imdb::lemma_update_with_akas_unique;
use crate::imdb::search_ratings_spec;
use crate::imdb::unique_ids;
use crate::imdb::update_imdbs_with_akas;
use crate::imdb::update_with_akas_spec;
use crate::tmdb::Tmdb;
use crate::tmdb::TmdbView;
use crate::tmdb::assemble_tmdbs;
use crate::tmdb::by_imdb_picks;
use crate::tmdb::get_tmdbs;
use crate::tmdb::picks_extend;
use vstd::prelude::*;
use vstd::utf8::encode_utf8;

verus! {

/// The rating text attached to an entity: the average rating of the
/// first decodable ratings row for its identifier, or the empty text
/// when the corpus has none.
pub open spec fn rating_for(data_ratings: Seq<u8>, id: Seq<char>) -> Seq<char> {
    match search_ratings_spec(data_ratings, id) {
        Some(r) => r.averageRating,
        None => empty_rating().averageRating,
    }
}

/// An entity with its rating attached.
pub open spec fn with_rating(e: ImdbView, data_ratings: Seq<u8>) -> ImdbView {
    ImdbView {
        tconst: e.tconst,
        titleType: e.titleType,
        primaryTitle: e.primaryTitle,
        originalTitle: e.originalTitle,
        year: e.year,
        runtimeMinutes: e.runtimeMinutes,
        genres: e.genres,
        ratings: Some(rating_for(data_ratings, e.tconst)),
    }
}

/// The first `k` entities with their ratings attached, the rest
/// untouched.
pub open spec fn attach_ratings(entities: Seq<ImdbView>, data_ratings: Seq<u8>, k: int) -> Seq<
    ImdbView,
>
    decreases k,
{
    if k <= 0 {
        entities
    } else {
        let prev = attach_ratings(entities, data_ratings, k - 1);
        prev.update(k - 1, with_rating(prev[k - 1], data_ratings))
    }
}

/// Attaching ratings keeps the length and every identifier in place.
pub proof fn lemma_attach_ratings_ids(entities: Seq<ImdbView>, data_ratings: Seq<u8>, k: int)
    requires
        k <= entities.len(),
    ensures
        attach_ratings(entities, data_ratings, k).len() == entities.len(),
        forall|i: int|
            0 <= i < entities.len() ==> (#[trigger] attach_ratings(entities, data_ratings, k)[i]).tconst
                == entities[i].tconst,
    decreases k,
{
    if k > 0 {
        lemma_attach_ratings_ids(entities, data_ratings, k - 1);
    }
}

/// The entity set a query resolves to: the catalog search with its
/// secondary-title fallback; then, only when that found nothing, the
/// alternate-titles stubs, resolved back through the catalog; then a
/// rating attached to every entity.
pub open spec fn resolve_entities_spec(
    data: Seq<u8>,
    data_akas: Seq<u8>,
    data_ratings: Seq<u8>,
    title: Seq<char>,
    title_optional: Seq<char>,
    year: Seq<char>,
) -> Seq<ImdbView> {
    let base = get_basics_spec(data, title, title_optional, year);
    let stubs = if base.len() == 0 {
        get_akas_spec(data_akas, title, title_optional)
    } else {
        Seq::empty()
    };
    let merged = update_with_akas_spec(data, stubs, year, base, stubs.len() as int);
    attach_ratings(merged, data_ratings, merged.len() as int)
}

/// Resolves one `(title, secondary title, year)` query against all five
/// sources: entities from the catalog (falling back to the
/// alternate-titles bridge), each with its rating, and the joined
/// metadata rows.  The resolved entity set never holds two entities
/// with the same identifier.
pub fn resolve_query(
    data: &String,
    data_akas: &String,
    data_ratings: &String,
    data_tmdbs: &String,
    data_tmdbs_big: &String,
    title: &String,
    title_optional: &String,
    year: &String,
) -> (r: (Vec<Imdb>, Vec<Tmdb>))
    ensures
        r.0.deep_view() == resolve_entities_spec(
            encode_utf8(data@),
            encode_utf8(data_akas@),
            encode_utf8(data_ratings@),
            title@,
            title_optional@,
            year@,
        ),
        unique_ids(r.0.deep_view()),
        exists|base: Seq<TmdbView>|
            {
                &&& #[trigger] picks_extend(
                    Seq::<TmdbView>::empty(),
                    base,
                    by_imdb_picks(
                        encode_utf8(data_tmdbs@),
                        r.0.deep_view(),
                        title@,
                        title_optional@,
                        year@,
                    ),
                )
                &&& r.1.deep_view() == assemble_tmdbs(
                    encode_utf8(data_tmdbs_big@),
                    base,
                    title@,
                    title_optional@,
                    year@,
                )
            },
{
    let ghost data_bytes = encode_utf8(data@);
    let ghost akas_bytes = encode_utf8(data_akas@);
    let ghost ratings_bytes = encode_utf8(data_ratings@);
    let mut imdbs = get_basics(data, (title, title_optional, year.as_str()));
    let imdbs_akas: Vec<Imdb> = if imdbs.len() == 0 {
        get_akas(data_akas, (title, title_optional))
    } else {
        Vec::new()
    };
    proof {
        if imdbs@.len() != 0 {
            assert(imdbs.deep_view().len() != 0);
        }
        assert(imdbs_akas.deep_view() =~= (if get_basics_spec(
            data_bytes,
            title@,
            title_optional@,
            year@,
        ).len() == 0 {
            get_akas_spec(akas_bytes, title@, title_optional@)
        } else {
            Seq::<ImdbView>::empty()
        }));
    }
    update_imdbs_with_akas(&mut imdbs, &imdbs_akas, year.as_str(), data);
    let ghost merged = imdbs.deep_view();
    proof {
        lemma_get_basics_unique(data_bytes, title@, title_optional@, year@);
        lemma_update_with_akas_unique(
            data_bytes,
            imdbs_akas.deep_view(),
            year@,
            get_basics_spec(data_bytes, title@, title_optional@, year@),
            imdbs_akas.deep_view().len() as int,
        );
        assert(unique_ids(merged));
    }
    let mut i: usize = 0;
    while i < imdbs.len()
        invariant
            i <= imdbs@.len(),
            imdbs.deep_view() == attach_ratings(merged, ratings_bytes, i as int),
            imdbs.deep_view().len() == imdbs@.len(),
            merged.len() == imdbs@.len(),
            ratings_bytes == encode_utf8(data_ratings@),
        decreases imdbs@.len() - i,
    {
        let ghost pre = imdbs.deep_view();
        let rating = get_ratings(data_ratings, &imdbs[i].tconst);
        proof {
            assert(pre[i as int] == imdbs@[i as int].deep_view());
        }
        let updated = Imdb {
            tconst: imdbs[i].tconst.clone(),
            titleType: imdbs[i].titleType.clone(),
            primaryTitle: imdbs[i].primaryTitle.clone(),
            originalTitle: imdbs[i].originalTitle.clone(),
            year: imdbs[i].year.clone(),
            runtimeMinutes: imdbs[i].runtimeMinutes.clone(),
            genres: imdbs[i].genres.clone(),
            ratings: Some(rating.averageRating),
        };
        proof {
            assert(updated.deep_view() == with_rating(pre[i as int], ratings_bytes));
        }
        imdbs[i] = updated;
        proof {
            assert(imdbs.deep_view() =~= pre.update(
                i as int,
                with_rating(pre[i as int], ratings_bytes),
            ));
        }
        i = i + 1;
    }
    proof {
        assert(imdbs.deep_view() == resolve_entities_spec(
            data_bytes,
            akas_bytes,
            ratings_bytes,
            title@,
            title_optional@,
            year@,
        ));
        lemma_attach_ratings_ids(merged, ratings_bytes, merged.len() as int);
        let resolved = attach_ratings(merged, ratings_bytes, merged.len() as int);
        assert forall|a: int, b: int|
            0 <= a < b < resolved.len() implies (#[trigger] resolved[a]).tconst != (
            #[trigger] resolved[b]).tconst by {
            assert(resolved[a].tconst == merged[a].tconst);
            assert(resolved[b].tconst == merged[b].tconst);
        }
    }
    let tmdbs = get_tmdbs(data_tmdbs, data_tmdbs_big, &imdbs, (title, title_optional, year));
    proof {
        let base = choose|b: Seq<TmdbView>|
            {
                &&& #[trigger] picks_extend(
                    Seq::<TmdbView>::empty(),
                    b,
                    by_imdb_picks(
                        encode_utf8(data_tmdbs@),
                        imdbs.deep_view(),
                        title@,
                        title_optional@,
                        year@,
                    ),
                )
                &&& tmdbs.deep_view() == assemble_tmdbs(
                    encode_utf8(data_tmdbs_big@),
                    b,
                    title@,
                    title_optional@,
                    year@,
                )
            };
        assert(picks_extend(
            Seq::<TmdbView>::empty(),
            base,
            by_imdb_picks(
                encode_utf8(data_tmdbs@),
                imdbs.deep_view(),
                title@,
                title_optional@,
                year@,
            ),
        ));
        assert(tmdbs.deep_view() == assemble_tmdbs(
            encode_utf8(data_tmdbs_big@),
            base,
            title@,
            title_optional@,
            year@,
        ));
    }
    (imdbs, tmdbs)
}

} // verus!
