use moviematch::imdb::Imdb;
use moviematch::tmdb::Tmdb;
use moviematch::tmdb::get_tmdbs;
use moviematch::tmdb::search_tmdbs;
use moviematch::tmdb::search_tmdbs_big;
use moviematch::tmdb::search_tmdbs_by_imdb;

fn tmdbs_data() -> String {
    let header = "adult,belongs_to_collection,budget,genres,homepage,id,imdb_id,\
                  original_language,original_title,overview,popularity,poster_path,\
                  production_companies,production_countries,release_date,revenue,runtime,\
                  spoken_languages,status,tagline,title,video,vote_average,vote_count\n";
    let row = "False,\"{'id': 96871, 'name': 'Father of the Bride Collection', 'poster_path': '/nts4iOmNnq7GNicycMJ9pSAn204.jpg', 'backdrop_path': '/7qwE57OVZmMJChBpLEbJEmzUydk.jpg'}\",0,\"[{'id': 35, 'name': 'Comedy'}]\",,11862,tt0113041,en,Father of the Bride Part II,Just when George Banks has recovered from his daughter's wedding.,8.387519,/e64sOI48hQXyru7naBFyssKFxVd.jpg,\"[{'name': 'Sandollar Productions', 'id': 5842}]\",\"[{'iso_3166_1': 'US', 'name': 'United States of America'}]\",1995-02-10,76578911,106.0,\"[{'iso_639_1': 'en', 'name': 'English'}]\",Released,Just When His World Is Back To Normal... He's In For The Surprise Of His Life!,Father of the Bride Part II,False,5.7,173\n";
    let mut data = String::from(header);
    data.push_str(row);
    data
}

fn tmdbs_big_data() -> String {
    let header = "id,title,genres,original_language,overview,popularity,production_companies,\
                  release_date,budget,revenue,runtime,status,tagline,vote_average,vote_count,\
                  credits,keywords,poster_path,backdrop_path,recommendations\n";
    let row = "505642,Black Panther: Wakanda Forever,Action-Adventure-Science Fiction,en,Queen Ramonda Shuri M'Baku Okoye and the Dora Milaje fight on.,7658.731,Marvel Studios,2022-11-09,250000000.0,835000000.0,162.0,Released,Forever.,7.497,2531.0,Letitia Wright-Lupita Nyong'o-Danai Gurira,loss of loved one-hero-sequel,/sv1xJUazXeYqALzczSZ3O6nkH75.jpg,/xDMIl84Qo5Tsu62c9DGWhmPI67A.jpg,436270-829280-76600\n";
    let mut data = String::from(header);
    data.push_str(row);
    data
}

#[test]
fn search_tmdbs_found() {
    let data = tmdbs_data();
    let mut tmdbs = Vec::<Tmdb>::new();
    let title = "Father of the Bride Part II";
    let year = "1995";

    search_tmdbs(&data, &mut tmdbs, &title.to_string(), &year.to_string(), true).unwrap();

    assert_eq!(tmdbs.len(), 1);
    assert_eq!("tt0113041", tmdbs[0].imdb_id);
}

#[test]
fn search_tmdbs_not_found_wrong_year() {
    let data = tmdbs_data();
    let mut tmdbs = Vec::<Tmdb>::new();
    let title = "Father of the Bride Part II";
    let year = "1895";

    search_tmdbs(&data, &mut tmdbs, &title.to_string(), &year.to_string(), true).unwrap();

    assert_eq!(tmdbs.len(), 0);
}

#[test]
fn search_tmdbs_not_found() {
    let data = tmdbs_data();
    let mut tmdbs = Vec::<Tmdb>::new();
    let title = "not found";
    let year = "2025";

    search_tmdbs(&data, &mut tmdbs, &title.to_string(), &year.to_string(), true).unwrap();

    assert_eq!(tmdbs.len(), 0);
}

#[test]
fn search_tmdbs_big_found() {
    let data = tmdbs_big_data();
    let mut tmdbs = Vec::<Tmdb>::new();
    let title = "Black Panther: Wakanda Forever";
    let year = "2022";

    search_tmdbs_big(&data, &mut tmdbs, &title.to_string(), &year.to_string(), true).unwrap();

    assert_eq!(tmdbs.len(), 1);
    assert_eq!("505642", tmdbs[0].id);
}

#[test]
fn search_tmdbs_big_not_found_wrong_year() {
    let data = tmdbs_big_data();
    let mut tmdbs = Vec::<Tmdb>::new();
    let title = "Black Panther: Wakanda Forever";
    let year = "1022";

    search_tmdbs_big(&data, &mut tmdbs, &title.to_string(), &year.to_string(), true).unwrap();

    assert_eq!(tmdbs.len(), 0);
}

#[test]
fn search_tmdbs_big_not_found() {
    let data = tmdbs_big_data();
    let mut tmdbs = Vec::<Tmdb>::new();
    let title = "not found";
    let year = "2025";

    search_tmdbs_big(&data, &mut tmdbs, &title.to_string(), &year.to_string(), true).unwrap();

    assert_eq!(tmdbs.len(), 0);
}

#[test]
fn search_tmdbs_by_imdb_imdb_list_empty_found() {
    let data = tmdbs_data();
    let imdbs = Vec::<Imdb>::new();
    let title = "Father of the Bride Part II".to_string();
    let title_optional = String::new();
    let year = "1995".to_string();

    let tmdbs = search_tmdbs_by_imdb(&data, &imdbs, (&title, &title_optional, &year));

    assert_eq!(tmdbs.len(), 1);
    assert_eq!("tt0113041", tmdbs[0].imdb_id);
}

#[test]
fn search_tmdbs_by_imdb_imdb_list_empty_using_title_optional_found() {
    let data = tmdbs_data();
    let imdbs = Vec::<Imdb>::new();
    let title = "no-found".to_string();
    let title_optional = "Father of the Bride Part II".to_string();
    let year = "1995".to_string();

    let tmdbs = search_tmdbs_by_imdb(&data, &imdbs, (&title, &title_optional, &year));

    assert_eq!(tmdbs.len(), 1);
    assert_eq!("tt0113041", tmdbs[0].imdb_id);
}

#[test]
fn search_tmdbs_by_imdb_one_item_in_imdb_list_found() {
    let data = tmdbs_data();
    let mut imdbs = Vec::<Imdb>::new();
    imdbs.push(Imdb {
        tconst: "tt0113041".to_string(),
        titleType: String::new(),
        primaryTitle: String::new(),
        originalTitle: String::new(),
        year: String::new(),
        runtimeMinutes: String::new(),
        genres: String::new(),
        ratings: None,
    });
    let title = String::new();
    let title_optional = String::new();
    let year = String::new();

    let tmdbs = search_tmdbs_by_imdb(&data, &imdbs, (&title, &title_optional, &year));

    assert_eq!(tmdbs.len(), 1);
    assert_eq!("tt0113041", tmdbs[0].imdb_id);
}

#[test]
fn get_tmdbs_found() {
    let data_tmdbs = tmdbs_data();
    let data_tmdbs_big = tmdbs_big_data();
    let imdbs = Vec::<Imdb>::new();
    let title = "Father of the Bride Part II".to_string();
    let title_optional = String::new();
    let year = "1995".to_string();

    let tmdbs = get_tmdbs(&data_tmdbs, &data_tmdbs_big, &imdbs, (&title, &title_optional, &year));

    assert_eq!(tmdbs.len(), 1);
    assert_eq!("tt0113041", tmdbs[0].imdb_id);
}
