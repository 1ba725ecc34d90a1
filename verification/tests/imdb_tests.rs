use moviematch::imdb::Imdb;
use moviematch::imdb::get_akas;
use moviematch::imdb::get_basics;
use moviematch::imdb::get_ratings;
use moviematch::imdb::update_imdbs_with_akas;

fn basics_data() -> String {
    String::from(
        "tconst\ttitleType\tprimaryTitle\toriginalTitle\tisAdult\tstartYear\tendYear\truntimeMinutes\tgenres\n\
         tt0083658\tmovie\tBlade Runner\tBlade Runner\t0\t1982\t\\N\t117\tDrama,Sci-Fi\n\
         tt0338013\tmovie\tEternal Sunshine of the Spotless Mind\tEternal Sunshine of the Spotless Mind\t0\t2004\t\\N\t108\tDrama,Romance,Sci-Fi\n",
    )
}

fn akas_data() -> String {
    String::from(
        "titleId\tordering\ttitle\tregion\tlanguage\ttypes\tattributes\tisOriginalTitle\n\
         tt0083658\t1\tBlade Runner\tES\tes\timdbDisplay\t\\N\t0\n\
         tt0338013\t4\tOlvidate de mi\tES\tes\timdbDisplay\t\\N\t0\n",
    )
}

fn ratings_data() -> String {
    String::from(
        "tconst\taverageRating\tnumVotes\n\
         tt1856101\t8.0\t578708\n\
         tt0083658\t8.1\t773387\n\
         tt18561016\t5.7\t19\n",
    )
}

#[test]
fn search_basics_found() {
    let data = basics_data();
    let title = "Blade Runner";
    let title_optional = "not found";
    let year = "1982";

    let imdbs = get_basics(&data, (&title.to_string(), &title_optional.to_string(), year));

    assert_eq!(imdbs.len(), 1);
    assert_eq!("tt0083658", imdbs[0].tconst);
}

#[test]
fn search_basics_optional_found() {
    let data = basics_data();
    let title = "not found";
    let title_optional = "Blade Runner";
    let year = "1982";

    let imdbs = get_basics(&data, (&title.to_string(), &title_optional.to_string(), year));

    assert_eq!(imdbs.len(), 1);
    assert_eq!("tt0083658", imdbs[0].tconst);
}

#[test]
fn search_basics_not_found_wrong_year() {
    let data = basics_data();
    let title = "Blade Runner";
    let title_optional = "not found";
    let year = "1882";

    let imdbs = get_basics(&data, (&title.to_string(), &title_optional.to_string(), year));

    assert_eq!(imdbs.len(), 0);
}

#[test]
fn search_basics_not_found() {
    let data = basics_data();
    let title = "not found";
    let title_optional = "not found";
    let year = "2025";

    let imdbs = get_basics(&data, (&title.to_string(), &title_optional.to_string(), year));

    assert_eq!(imdbs.len(), 0);
}

#[test]
fn get_akas_found() {
    let data = akas_data();

    let imdbs = get_akas(&data, (&"Blade Runner".to_string(), &"not found".to_string()));

    assert_eq!(imdbs.len(), 1);
    assert_eq!("tt0083658", imdbs[0].tconst);
}

#[test]
fn get_akas_optional_found() {
    let data = akas_data();

    let imdbs = get_akas(&data, (&"not found".to_string(), &"Blade Runner".to_string()));

    assert_eq!(imdbs.len(), 1);
    assert_eq!("tt0083658", imdbs[0].tconst);
}

#[test]
fn get_akas_not_found() {
    let data = akas_data();

    let imdbs = get_akas(&data, (&"not found".to_string(), &"not found".to_string()));

    assert_eq!(imdbs.len(), 0);
}

#[test]
fn get_ratings_found() {
    let data = ratings_data();

    let rating = get_ratings(&data, &"tt1856101".to_string());

    assert_eq!(rating.tconst, "tt1856101");
    assert_eq!(rating.averageRating, "8.0");
    assert_eq!(rating.numVotes, "578708");
}

#[test]
fn get_ratings_found_similar_to_other_tconst() {
    let data = ratings_data();

    let rating = get_ratings(&data, &"tt18561016".to_string());

    assert_eq!(rating.tconst, "tt18561016");
    assert_eq!(rating.averageRating, "5.7");
    assert_eq!(rating.numVotes, "19");
}

#[test]
fn get_ratings_not_found() {
    let data = ratings_data();

    let rating = get_ratings(&data, &"not found".to_string());

    assert_eq!(rating.tconst, "");
    assert_eq!(rating.averageRating, "");
    assert_eq!(rating.numVotes, "");
}

#[test]
fn update_imdbs_with_akas_found_and_added() {
    let data = basics_data();
    let mut imdbs = Vec::<Imdb>::new();
    let mut imdbs_akas = Vec::<Imdb>::new();
    imdbs_akas.push(Imdb {
        tconst: "tt0083658".to_string(),
        titleType: String::new(),
        primaryTitle: String::new(),
        originalTitle: String::new(),
        year: String::new(),
        runtimeMinutes: String::new(),
        genres: String::new(),
        ratings: None,
    });
    let year = "1982";

    update_imdbs_with_akas(&mut imdbs, &imdbs_akas, &year, &data);

    assert_eq!(imdbs.len(), 1);
    assert_eq!("tt0083658", imdbs[0].tconst);
}

#[test]
fn update_imdbs_with_akas_not_found() {
    let data = basics_data();
    let mut imdbs = Vec::<Imdb>::new();
    let mut imdbs_akas = Vec::<Imdb>::new();
    imdbs_akas.push(Imdb {
        tconst: "tt18561016".to_string(),
        titleType: String::new(),
        primaryTitle: String::new(),
        originalTitle: String::new(),
        year: String::new(),
        runtimeMinutes: String::new(),
        genres: String::new(),
        ratings: None,
    });
    let year = "1922";

    update_imdbs_with_akas(&mut imdbs, &imdbs_akas, &year, &data);

    assert_eq!(imdbs.len(), 0);
}

#[test]
fn update_imdbs_with_akas_empty() {
    let data = basics_data();
    let mut imdbs = Vec::<Imdb>::new();
    let imdbs_akas = Vec::<Imdb>::new();
    let year = "1982";

    update_imdbs_with_akas(&mut imdbs, &imdbs_akas, &year, &data);

    assert_eq!(imdbs.len(), 0);
}
