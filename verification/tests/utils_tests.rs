use moviematch::norm::remove_diacritics;
use moviematch::norm::title_ready;
use moviematch::scan::get_line_by_index;
use moviematch::scan::search_indices;

fn ratings_data() -> String {
    String::from(
        "tconst\taverageRating\tnumVotes\n\
         tt1856101\t8.0\t578708\n\
         tt0083658\t8.1\t773387\n\
         tt18561016\t5.7\t19\n\
         tt0111161\t9.3\t291052\n\
         tt0109830\t8.8\t29876\n\
         tt4116284\t7.3\t177\n\
         tt0068646\t9.2\t206829\n\
         tt0325980\t8.1\t1130622\n\
         tt0137523\t8.8\t242312\n\
         tt0038777\t6.9\t177\n",
    )
}

#[test]
fn get_line_by_index_test_beginning_of_file() {
    let data = ratings_data();
    let index = 0;

    let result = get_line_by_index(&data, &index, false);

    assert_eq!("const\taverageRating\tnumVotes", result);
}

#[test]
fn get_line_by_index_test_middle() {
    let data = ratings_data();
    let index = 60;

    let result = get_line_by_index(&data, &index, true);

    assert_eq!("tt0083658\t8.1\t773387", result);
}

#[test]
fn search_indices_one_found() {
    let data = ratings_data();
    let text_to_find = "tt0325980".to_string();

    let list_indexes = search_indices(&data, &text_to_find);
    let result = get_line_by_index(&data, &list_indexes[0], true);

    assert_eq!(1, list_indexes.len());
    assert_eq!(170, list_indexes[0]);
    assert_eq!("tt0325980\t8.1\t1130622", result);
}

#[test]
fn search_indices_two_found() {
    let data = ratings_data();
    let text_to_find = "177".to_string();

    let list_indexes = search_indices(&data, &text_to_find);
    let result1 = get_line_by_index(&data, &list_indexes[0], true);
    let result2 = get_line_by_index(&data, &list_indexes[1], true);

    assert_eq!(2, list_indexes.len());
    assert_eq!(131, list_indexes[0]);
    assert_eq!(213, list_indexes[1]);
    assert_eq!("tt4116284\t7.3\t177", result1);
    assert_eq!("tt0038777\t6.9\t177", result2);
}

#[test]
fn search_indices_not_found() {
    let data = ratings_data();
    let text_to_find = "not-found".to_string();

    let list_indexes = search_indices(&data, &text_to_find);

    assert_eq!(0, list_indexes.len());
}

#[test]
fn title_ready_without_special_chars() {
    assert_eq!("name without special chars", title_ready(&"name without special chars".to_string()));
}

#[test]
fn title_ready_with_special_chars() {
    assert_eq!("name with special chars", title_ready(&"'.name, with; special: chars?'".to_string()));
}

#[test]
fn remove_diacritics_some_accents() {
    assert_eq!("aeiou", remove_diacritics(&"\u{e1}\u{e9}\u{ed}\u{f3}\u{fa}".to_string()));
}
