use moviematch::fields::decode_fields;
use moviematch::imdb::get_basics;
use moviematch::imdb::get_rating;
use moviematch::imdb::get_ratings;
use moviematch::imdb::Imdb;
use moviematch::names::get_node_name;
use moviematch::names::get_title;
use moviematch::norm::remove_diacritics;
use moviematch::norm::title_ready;
use moviematch::resolver::resolve_query;
use moviematch::scan::search_indices;
use moviematch::imdb::get_akas;
use moviematch::tmdb::get_tmdbs;
use moviematch::tmdb::search_tmdbs;
use moviematch::tmdb::search_tmdbs_by_imdb;
use moviematch::tmdb::tmdb_record_from_rows;
use moviematch::tmdb::Tmdb;

fn basics_data() -> String {
    String::from(
        "tconst\ttitleType\tprimaryTitle\toriginalTitle\tisAdult\tstartYear\tendYear\truntimeMinutes\tgenres\n\
         tt0083658\tmovie\tBlade Runner\tBlade Runner\t0\t1982\t\\N\t117\tDrama,Sci-Fi\n\
         tt0000001\tmovie\tTwin Title\tTwin Title\t0\t1999\t\\N\t90\tDrama\n\
         tt0000002\tmovie\tTwin Title\tTwin Title\t0\t1999\t\\N\t91\tDrama\n\
         tt0000003\tmovie\tAlpha\tAlpha\t0\t1990\t\\N\t90\tDrama\n\
         tt0000004\tmovie\tBeta\tBeta\t0\t1990\t\\N\t90\tDrama\n\
         tt0000005\tmovie\tDup Movie\tDup Movie\t0\t2000\t\\N\t90\tDrama\n\
         tt0000005\tmovie\tDup Movie\tDup Movie\t0\t2000\t\\N\t90\tDrama\n",
    )
}

fn akas_data() -> String {
    String::from(
        "titleId\tordering\ttitle\tregion\tlanguage\ttypes\tattributes\tisOriginalTitle\n\
         tt0083658\t2\tPersiguiendo replicantes\tES\tes\timdbDisplay\t\\N\t0\n",
    )
}

fn ratings_data() -> String {
    String::from(
        "tconst\taverageRating\tnumVotes\n\
         tt1856101\t8.0\t578708\n\
         tt0083658\t8.1\t773387\n\
         tt18561016\t5.7\t19\n",
    )
}

fn tmdbs_data() -> String {
    let header = "adult,belongs_to_collection,budget,genres,homepage,id,imdb_id,\
                  original_language,original_title,overview,popularity,poster_path,\
                  production_companies,production_countries,release_date,revenue,runtime,\
                  spoken_languages,status,tagline,title,video,vote_average,vote_count\n";
    let row = "False,\"{'id': 96871, 'name': 'Father of the Bride Collection', 'poster_path': '/nts4iOmNnq7GNicycMJ9pSAn204.jpg', 'backdrop_path': '/7qwE57OVZmMJChBpLEbJEmzUydk.jpg'}\",0,\"[{'id': 35, 'name': 'Comedy'}]\",,11862,tt0113041,en,Father of the Bride Part II,Just when George Banks has recovered from his daughter's wedding.,8.387519,/e64sOI48hQXyru7naBFyssKFxVd.jpg,\"[{'name': 'Sandollar Productions', 'id': 5842}]\",\"[{'iso_3166_1': 'US', 'name': 'United States of America'}]\",1995-02-10,76578911,106.0,\"[{'iso_639_1': 'en', 'name': 'English'}]\",Released,Just When His World Is Back To Normal... He's In For The Surprise Of His Life!,Father of the Bride Part II,False,5.7,173\n";
    let mut data = String::from(header);
    data.push_str(row);
    data
}

fn tmdbs_big_data() -> String {
    let header = "id,title,genres,original_language,overview,popularity,production_companies,\
                  release_date,budget,revenue,runtime,status,tagline,vote_average,vote_count,\
                  credits,keywords,poster_path,backdrop_path,recommendations\n";
    let row = "505642,Black Panther: Wakanda Forever,Action-Adventure-Science Fiction,en,Queen Ramonda Shuri M'Baku Okoye and the Dora Milaje fight on.,7658.731,Marvel Studios,2022-11-09,250000000.0,835000000.0,162.0,Released,Forever.,7.497,2531.0,Letitia Wright-Lupita Nyong'o-Danai Gurira,loss of loved one-hero-sequel,/sv1xJUazXeYqALzczSZ3O6nkH75.jpg,/xDMIl84Qo5Tsu62c9DGWhmPI67A.jpg,436270-829280-76600\n";
    let mut data = String::from(header);
    data.push_str(row);
    data
}

#[test]
fn canonicalize_is_idempotent_on_samples() {
    for sample in ["Se7en: The.Movie, 'Extended'?", "Amelie", "  WHAT; is this  "] {
        let once = title_ready(&sample.to_string());
        let twice = title_ready(&once);
        assert_eq!(once, twice);
    }
}

#[test]
fn canonicalize_folds_diacritics_and_case() {
    let folded = remove_diacritics(&title_ready(&"Am\u{e9}lie".to_string()));
    assert_eq!("amelie", folded);
}

#[test]
fn canonicalize_deletes_punctuation() {
    assert_eq!("se7en", title_ready(&"Se7en:".to_string()));
}

#[test]
fn scanner_skips_punctuation_and_case() {
    let data = "A Se.7en: line\nanother line\n".to_string();
    let hits = search_indices(&data, &"SE7EN".to_string());
    assert_eq!(hits.len(), 1);
    assert_eq!(hits[0], 0);
}

#[test]
fn framing_prevents_prefix_collisions() {
    let data = ratings_data();
    let short_id = get_ratings(&data, &"tt1856101".to_string());
    let long_id = get_ratings(&data, &"tt18561016".to_string());
    assert_eq!(short_id.averageRating, "8.0");
    assert_eq!(long_id.averageRating, "5.7");
}

#[test]
fn resolved_entities_have_unique_ids() {
    let data = basics_data();
    let imdbs = get_basics(&data, (&"Twin Title".to_string(), &String::new(), "1999"));
    assert_eq!(imdbs.len(), 2);
    assert_ne!(imdbs[0].tconst, imdbs[1].tconst);
}

#[test]
fn secondary_fallback_only_fires_on_empty_primary() {
    let data = basics_data();
    let imdbs = get_basics(&data, (&"Alpha".to_string(), &"Beta".to_string(), "1990"));
    assert_eq!(imdbs.len(), 1);
    assert_eq!("tt0000003", imdbs[0].tconst);

    let fallback = get_basics(&data, (&"missing".to_string(), &"Beta".to_string(), "1990"));
    assert_eq!(fallback.len(), 1);
    assert_eq!("tt0000004", fallback[0].tconst);
}

#[test]
fn ambiguity_skips_extract_a_join() {
    let data = tmdbs_data();
    let mut imdbs = Vec::<Imdb>::new();
    for id in ["tt0000001", "tt0000002"] {
        imdbs.push(Imdb {
            tconst: id.to_string(),
            titleType: String::new(),
            primaryTitle: String::new(),
            originalTitle: String::new(),
            year: String::new(),
            runtimeMinutes: String::new(),
            genres: String::new(),
            ratings: None,
        });
    }
    let title = "Father of the Bride Part II".to_string();
    let tmdbs = search_tmdbs_by_imdb(&data, &imdbs, (&title, &String::new(), "1995"));
    assert_eq!(tmdbs.len(), 0);
}

#[test]
fn end_to_end_direct_catalog_hit() {
    let (entities, _tmdbs) = resolve_query(
        &basics_data(),
        &akas_data(),
        &ratings_data(),
        &tmdbs_data(),
        &tmdbs_big_data(),
        &"Blade Runner".to_string(),
        &String::new(),
        &"1982".to_string(),
    );
    assert_eq!(entities.len(), 1);
    assert_eq!("tt0083658", entities[0].tconst);
    assert_eq!(Some("8.1".to_string()), entities[0].ratings);

    let (none, _) = resolve_query(
        &basics_data(),
        &akas_data(),
        &ratings_data(),
        &tmdbs_data(),
        &tmdbs_big_data(),
        &"Blade Runner".to_string(),
        &String::new(),
        &"1882".to_string(),
    );
    assert_eq!(none.len(), 0);
}

#[test]
fn end_to_end_alternate_title_bridge() {
    let (entities, _tmdbs) = resolve_query(
        &basics_data(),
        &akas_data(),
        &ratings_data(),
        &tmdbs_data(),
        &tmdbs_big_data(),
        &"Persiguiendo replicantes".to_string(),
        &String::new(),
        &"1982".to_string(),
    );
    assert_eq!(entities.len(), 1);
    assert_eq!("tt0083658", entities[0].tconst);
    assert_eq!("Blade Runner", entities[0].primaryTitle);
    assert_eq!(Some("8.1".to_string()), entities[0].ratings);
}

#[test]
fn collection_descriptor_fills_image_paths() {
    let data = tmdbs_data();
    let mut tmdbs = Vec::<Tmdb>::new();
    let title = "Father of the Bride Part II".to_string();
    search_tmdbs(&data, &mut tmdbs, &title, &"1995".to_string(), true).unwrap();
    assert_eq!(tmdbs.len(), 1);
    assert_eq!("/nts4iOmNnq7GNicycMJ9pSAn204.jpg", tmdbs[0].poster_path);
    assert_eq!("/7qwE57OVZmMJChBpLEbJEmzUydk.jpg", tmdbs[0].backdrop_path);
}

#[test]
fn decoder_absorbs_leading_segments_into_first_field() {
    let rating = get_rating(&"one,two,three,four".to_string()).unwrap();
    assert_eq!("one,two", rating.tconst);
    assert_eq!("three", rating.averageRating);
    assert_eq!("four", rating.numVotes);
}

#[test]
fn decoder_rejects_under_width_rows() {
    assert!(get_rating(&"lonely".to_string()).is_none());
    assert!(decode_fields(&"a,b".to_string(), 3).is_none());
}

#[test]
fn decoder_prefers_tab_over_comma() {
    let rating = get_rating(&"a,b\tc\td,e\tf".to_string()).unwrap();
    assert_eq!("a,b\tc", rating.tconst);
    assert_eq!("d,e", rating.averageRating);
    assert_eq!("f", rating.numVotes);
}

#[test]
fn tmdb_row_maps_columns_by_position() {
    let mut row = Vec::<String>::new();
    for i in 0..24 {
        row.push(format!("col{}", i));
    }
    let rec = tmdb_record_from_rows(&vec![row]);
    assert_eq!("col5", rec.id);
    assert_eq!("col6", rec.imdb_id);
    assert_eq!("col20", rec.title);
    assert_eq!("col14", rec.release_date);
    assert_eq!(Some("col9".to_string()), rec.overview);
}

#[test]
fn tmdb_narrow_rows_yield_the_empty_record() {
    let rec = tmdb_record_from_rows(&vec![vec!["a".to_string(), "b".to_string()]]);
    assert_eq!("", rec.id);
    assert_eq!("", rec.title);
    assert!(rec.overview.is_none());
}

#[test]
fn title_cleanup_rewrites_dots_and_trims() {
    assert_eq!("The Matrix", get_title("The.Matrix."));
    assert_eq!("Blade Runner", get_title("  Blade.Runner  "));
}

#[test]
fn node_name_takes_last_path_component() {
    assert_eq!("movie (1999).mkv", get_node_name(&"shelf/movie (1999).mkv".to_string()));
    assert_eq!("plain", get_node_name(&"plain".to_string()));
    assert_eq!("deep", get_node_name(&"a\\b\\deep".to_string()));
}

#[test]
fn scanner_with_empty_needle_hits_every_offset() {
    let data = "ab\ncd".to_string();
    let hits = search_indices(&data, &String::new());
    assert_eq!(hits, vec![0, 0, 3, 3, 3]);
}

#[test]
fn duplicate_rows_with_one_id_resolve_once() {
    let data = basics_data();
    let imdbs = get_basics(&data, (&"Dup Movie".to_string(), &String::new(), "2000"));
    assert_eq!(imdbs.len(), 1);
    assert_eq!("tt0000005", imdbs[0].tconst);
}

#[test]
fn extract_b_fallback_only_fires_on_empty_primary() {
    let header = "id,title,genres,original_language,overview,popularity,production_companies,\
                  release_date,budget,revenue,runtime,status,tagline,vote_average,vote_count,\
                  credits,keywords,poster_path,backdrop_path,recommendations\n";
    let mut big = String::from(header);
    big.push_str("111,Gamma,Drama,en,A story about a letter.,1.0,Studio,2010-01-01,0,0,100.0,Released,Tag.,5.0,10,Actor One,keyword,/g.jpg,/gb.jpg,1-2-3\n");
    big.push_str("222,Delta,Drama,en,Another story.,1.0,Studio,2010-02-02,0,0,90.0,Released,Tag.,5.0,10,Actor Two,keyword,/d.jpg,/db.jpg,4-5-6\n");
    let imdbs = Vec::<Imdb>::new();

    let both_match = get_tmdbs(
        &tmdbs_data(),
        &big,
        &imdbs,
        (&"Gamma".to_string(), &"Delta".to_string(), &"2010".to_string()),
    );
    assert_eq!(both_match.len(), 1);
    assert_eq!("111", both_match[0].id);
    assert_eq!("/g.jpg", both_match[0].poster_path);

    let fallback = get_tmdbs(
        &tmdbs_data(),
        &big,
        &imdbs,
        (&"missing".to_string(), &"Delta".to_string(), &"2010".to_string()),
    );
    assert_eq!(fallback.len(), 1);
    assert_eq!("222", fallback[0].id);
}

#[test]
fn folded_canonicalize_handles_uppercase_accents() {
    let akas = String::from(
        "titleId\tordering\ttitle\tregion\tlanguage\ttypes\tattributes\tisOriginalTitle\n\
         tt0098635\t1\tAmelie\tES\tes\timdbDisplay\t\\N\t0\n",
    );
    let stubs = get_akas(&akas, (&"AM\u{c9}LIE".to_string(), &String::new()));
    assert_eq!(stubs.len(), 1);
    assert_eq!("tt0098635", stubs[0].tconst);
}

#[test]
fn folded_canonicalize_is_idempotent_on_uppercase_accents() {
    let once = title_ready(&remove_diacritics("AM\u{c9}LIE"));
    let twice = title_ready(&remove_diacritics(once.as_str()));
    assert_eq!("amelie", once);
    assert_eq!(once, twice);
}

#[test]
fn descriptor_parse_failure_leaves_paths_empty() {
    let header = "adult,belongs_to_collection,budget,genres,homepage,id,imdb_id,\
                  original_language,original_title,overview,popularity,poster_path,\
                  production_companies,production_countries,release_date,revenue,runtime,\
                  spoken_languages,status,tagline,title,video,vote_average,vote_count\n";
    let mut data = String::from(header);
    data.push_str("False,{'id': 'notanumber'},0,Drama,,333,tt0000333,en,Epsilon Movie,A plot.,1.0,/e.jpg,Studio,US,1980-05-05,0,95.0,en,Released,Tag.,Epsilon Movie,False,5.0,10\n");
    let mut tmdbs = Vec::<Tmdb>::new();
    search_tmdbs(&data, &mut tmdbs, &"Epsilon Movie".to_string(), &"1980".to_string(), true)
        .unwrap();
    assert_eq!(tmdbs.len(), 1);
    assert_eq!("tt0000333", tmdbs[0].imdb_id);
    assert_eq!("", tmdbs[0].poster_path);
    assert_eq!("", tmdbs[0].backdrop_path);
}
