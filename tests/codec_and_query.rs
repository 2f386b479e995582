use archive_core::query::{
    compile_decoded_query, parse_type_query_argument, sql_arg_list_contains,
    sql_arg_string_contains, url_to_sql_query, SqlQuery,
};
use archive_core::sql_array::{format_as_sql_array, read_from_sql_array};

fn strings(values: &[&str]) -> Vec<String> {
    values.iter().map(|v| v.to_string()).collect()
}

#[test]
fn round_trip_keeps_values_and_order() {
    let cases = [
        strings(&["a"]),
        strings(&["b", "a", "b"]),
        strings(&["", "x"]),
        strings(&["", ""]),
        strings(&["Iruña", "Great soundtrack", ""]),
    ];
    for values in cases.iter() {
        let stored = format_as_sql_array(values);
        assert_eq!(&read_from_sql_array(&stored), values);
    }
}

#[test]
fn empty_list_is_empty_text_and_back() {
    let none: [String; 0] = [];
    assert_eq!(format_as_sql_array(&none), "");
    assert!(read_from_sql_array("").is_empty());
}

#[test]
fn doubled_delimiter_reads_as_no_values() {
    assert!(read_from_sql_array("||").is_empty());
    assert_eq!(format_as_sql_array(&strings(&[""])), "||");
}

#[test]
fn empty_values_between_delimiters_are_kept() {
    assert_eq!(read_from_sql_array("|a||b|"), strings(&["a", "", "b"]));
}

#[test]
fn patterns_wrap_the_value() {
    assert_eq!(sql_arg_string_contains("wiki"), "%wiki%");
    assert_eq!(sql_arg_list_contains("Rust"), "%|Rust|%");
}

#[test]
fn type_names_map_to_indices() {
    assert_eq!(parse_type_query_argument("article"), Some(0));
    assert_eq!(parse_type_query_argument("audio"), Some(4));
    assert_eq!(parse_type_query_argument("Book"), None);
}

#[test]
fn type_book_compiles_to_literal_index() {
    let q = url_to_sql_query("type=book").unwrap();
    assert_eq!(q.where_query, "entry_type = 2");
    assert!(q.params.is_empty());
}

#[test]
fn link_compiles_to_bound_substring_pattern() {
    let q = url_to_sql_query("link=wikipedia").unwrap();
    assert_eq!(q.where_query, "link LIKE ?");
    assert_eq!(q.params, ["%wikipedia%"]);
}

#[test]
fn tags_compile_to_one_clause_per_value() {
    let q = url_to_sql_query("tags=A|B").unwrap();
    assert_eq!(q.where_query, "tags LIKE ? AND tags LIKE ?");
    assert_eq!(q.params, ["%|A|%", "%|B|%"]);
}

#[test]
fn unknown_key_fails_compilation() {
    assert!(url_to_sql_query("bogus=1").is_none());
    assert!(url_to_sql_query("link=a&bogus=1").is_none());
}

#[test]
fn offset_alone_leaves_predicate_empty() {
    let q = url_to_sql_query("offset=10").unwrap();
    assert_eq!(q.where_query, "");
    assert!(q.params.is_empty());
    assert_eq!(q.offset, 10);
    assert_eq!(q.seed, None);
}

#[test]
fn offset_before_clause_leaves_no_dangling_and() {
    let q = url_to_sql_query("offset=10&type=article&seed=3").unwrap();
    assert_eq!(q.where_query, "entry_type = 0");
    assert_eq!(q.offset, 10);
    assert_eq!(q.seed, Some(3));
}

#[test]
fn authors_key_is_accepted_like_author() {
    let q = url_to_sql_query("authors=Pauline%20Kael").unwrap();
    assert_eq!(q.where_query, "author LIKE ?");
    assert_eq!(q.params, ["%|Pauline Kael|%"]);
}

#[test]
fn saved_dates_bound_the_saved_column() {
    let q = url_to_sql_query("saved_between_from=2020-1-2&saved_between_until=2021-12-31").unwrap();
    assert_eq!(q.where_query, "date_saved >= DATE(?) AND date_saved <= DATE(?)");
    assert_eq!(q.params, ["2020-01-02", "2021-12-31"]);
}

#[test]
fn malformed_values_fail_compilation() {
    assert!(url_to_sql_query("published_between_from=1967-13-3").is_none());
    assert!(url_to_sql_query("published_between_from=yesterday").is_none());
    assert!(url_to_sql_query("offset=-1").is_none());
    assert!(url_to_sql_query("offset=ten").is_none());
    assert!(url_to_sql_query("seed=18446744073709551616").is_none());
}

#[test]
fn undecodable_query_fails_compilation() {
    assert!(url_to_sql_query("link=%FF").is_none());
}

#[test]
fn category_and_exceptional_clauses() {
    let q = url_to_sql_query("category=Film&exceptional=yes").unwrap();
    assert_eq!(q.where_query, "category = ? AND exceptional = FALSE");
    assert_eq!(q.params, ["Film"]);
}

#[test]
fn arguments_without_one_equals_sign_are_passed_over() {
    let q = url_to_sql_query("title=a=b&link=x").unwrap();
    assert_eq!(q.where_query, "link LIKE ?");
    let q = url_to_sql_query("").unwrap();
    assert_eq!(q.where_query, "");
}

#[test]
fn decoded_text_is_compiled_as_it_stands() {
    let q = compile_decoded_query("title=100%").unwrap();
    assert_eq!(q.where_query, "title LIKE ?");
    assert_eq!(q.params, ["%100%%"]);
}

#[test]
fn query_from_parts_has_no_offset_or_seed() {
    let q = SqlQuery::with_query_str("entry_id = ?", vec![String::from("4")]);
    assert_eq!(q.where_query, "entry_id = ?");
    assert_eq!(q.params, ["4"]);
    assert_eq!(q.offset, 0);
    assert_eq!(q.seed, None);
}
