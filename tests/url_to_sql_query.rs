use archive_core::query::url_to_sql_query;

// url_to_sql_query

#[test]
fn test_url_to_sql_query_link_checks_for_containment() {
    let url_params = "link=wikipedia";
    match url_to_sql_query(url_params) {
        Some(query) => {
            assert_eq!(query.where_query, "link LIKE ?");
            assert_eq!(query.params, ["%wikipedia%"]);
            assert_eq!(query.offset, 0);
            assert_eq!(query.seed, None);
        }
        None => unreachable!(),
    }
}

#[test]
fn test_url_to_sql_query_title_checks_for_containment() {
    let url_params = "title=Hello";
    match url_to_sql_query(url_params) {
        Some(query) => {
            assert_eq!(query.where_query, "title LIKE ?");
            assert_eq!(query.params, ["%Hello%"]);
            assert_eq!(query.offset, 0);
        }
        None => unreachable!(),
    }
}

#[test]
fn test_url_to_sql_query_author_checks_for_equality() {
    let url_params = "author=Pauline%20Kael";
    match url_to_sql_query(url_params) {
        Some(query) => {
            assert_eq!(query.where_query, "author LIKE ?");
            assert_eq!(query.params, ["%|Pauline Kael|%"]);
            assert_eq!(query.offset, 0);
        }
        None => unreachable!(),
    }
}

#[test]
fn test_url_to_sql_query_description_checks_for_containment() {
    let url_params = "description=compiler";
    match url_to_sql_query(url_params) {
        Some(query) => {
            assert_eq!(query.where_query, "description LIKE ?");
            assert_eq!(query.params, ["%compiler%"]);
            assert_eq!(query.offset, 0);
        }
        None => unreachable!(),
    }
}

#[test]
fn test_url_to_sql_query_category_checks_for_equality() {
    let url_params = "category=Programming";
    match url_to_sql_query(url_params) {
        Some(query) => {
            assert_eq!(query.where_query, "category = ?");
            assert_eq!(query.params, ["Programming"]);
            assert_eq!(query.offset, 0);
        }
        None => unreachable!(),
    }
}

#[test]
fn test_url_to_sql_query_themes_checks_for_containment_of_each() {
    let url_params = "themes=Rust%7CTesting";
    match url_to_sql_query(url_params) {
        Some(query) => {
            assert_eq!(query.where_query, "themes LIKE ? AND themes LIKE ?");
            assert_eq!(query.params, ["%|Rust|%", "%|Testing|%"]);
            assert_eq!(query.offset, 0);
        }
        None => unreachable!(),
    }
}

#[test]
fn test_url_to_sql_query_works_checks_for_containment_of_each() {
    let url_params = "works_mentioned=Hamlet%7CMacBeth%7CKing%20Lear";
    match url_to_sql_query(url_params) {
        Some(query) => {
            assert_eq!(
                query.where_query,
                "works_mentioned LIKE ? AND works_mentioned LIKE ? AND works_mentioned LIKE ?"
            );
            assert_eq!(query.params, ["%|Hamlet|%", "%|MacBeth|%", "%|King Lear|%"]);
            assert_eq!(query.offset, 0);
        }
        None => unreachable!(),
    }
}

#[test]
fn test_url_to_sql_query_tags_checks_for_containment_of_each() {
    let url_params = "tags=Soulslike%7CGreat%20soundtrack%7CFemale%20protagonist";
    match url_to_sql_query(url_params) {
        Some(query) => {
            assert_eq!(
                query.where_query,
                "tags LIKE ? AND tags LIKE ? AND tags LIKE ?"
            );
            assert_eq!(
                query.params,
                [
                    "%|Soulslike|%",
                    "%|Great soundtrack|%",
                    "%|Female protagonist|%"
                ]
            );
            assert_eq!(query.offset, 0);
        }
        None => unreachable!(),
    }
}

#[test]
fn test_url_to_sql_query_date_is_formated_as_yyyy_mm_dd() {
    let url_params = "published_between_from=1967-5-3";
    match url_to_sql_query(url_params) {
        Some(query) => {
            assert_eq!(query.where_query, "date_published >= DATE(?)");
            assert_eq!(query.params, ["1967-05-03"]);
            assert_eq!(query.offset, 0);
        }
        None => unreachable!(),
    }
}

#[test]
fn test_url_to_sql_query_published_between_until_checks_for_less_equal() {
    let url_params = "published_between_until=1967-11-24";
    match url_to_sql_query(url_params) {
        Some(query) => {
            assert_eq!(query.where_query, "date_published <= DATE(?)");
            assert_eq!(query.params, ["1967-11-24"]);
            assert_eq!(query.offset, 0);
        }
        None => unreachable!(),
    }
}

#[test]
fn test_url_to_sql_query_bool_true_is_formated_as_uppercase_true() {
    let url_params = "exceptional=true";
    match url_to_sql_query(url_params) {
        Some(query) => {
            assert_eq!(query.where_query, "exceptional = TRUE");
            assert!(query.params.is_empty());
            assert_eq!(query.offset, 0);
        }
        None => unreachable!(),
    }
}

#[test]
fn test_url_to_sql_query_bool_false_is_formated_as_uppercase_false() {
    let url_params = "exceptional=false";
    match url_to_sql_query(url_params) {
        Some(query) => {
            assert_eq!(query.where_query, "exceptional = FALSE");
            assert!(query.params.is_empty());
            assert_eq!(query.offset, 0);
        }
        None => unreachable!(),
    }
}

#[test]
fn test_url_to_sql_query_two_or_more_predicates_are_anded() {
    let url_params = "link=wikipedia&author=Pauline%20Kael&tags=Soulslike%7CGreat%20soundtrack%7CFemale%20protagonist";
    match url_to_sql_query(url_params) {
        Some(query) => {
            assert_eq!(
                query.where_query,
                "link LIKE ? AND author LIKE ? AND tags LIKE ? AND tags LIKE ? AND tags LIKE ?"
            );
            assert_eq!(
                query.params,
                [
                    "%wikipedia%",
                    "%|Pauline Kael|%",
                    "%|Soulslike|%",
                    "%|Great soundtrack|%",
                    "%|Female protagonist|%"
                ]
            );
            assert_eq!(query.offset, 0);
        }
        None => unreachable!(),
    }
}

#[test]
fn test_url_to_sql_query_quotes_are_escaped() {
    let url_params = "link=%22wikipedia%22";
    match url_to_sql_query(url_params) {
        Some(query) => {
            assert_eq!(query.where_query, "link LIKE ?");
            assert_eq!(query.params, [r#"%"wikipedia"%"#]);
            assert_eq!(query.offset, 0);
        }
        None => unreachable!(),
    }
}

#[test]
fn test_url_to_sql_query_type_is_converted_to_an_index() {
    {
        let url_params = "type=article";
        match url_to_sql_query(url_params) {
            Some(query) => {
                assert_eq!(query.where_query, "entry_type = 0");
                assert!(query.params.is_empty());
                assert_eq!(query.offset, 0);
            }
            None => unreachable!(),
        }
    }
    {
        let url_params = "type=paper";
        match url_to_sql_query(url_params) {
            Some(query) => {
                assert_eq!(query.where_query, "entry_type = 1");
                assert!(query.params.is_empty());
                assert_eq!(query.offset, 0);
            }
            None => unreachable!(),
        }
    }
    {
        let url_params = "type=book";
        match url_to_sql_query(url_params) {
            Some(query) => {
                assert_eq!(query.where_query, "entry_type = 2");
                assert!(query.params.is_empty());
                assert_eq!(query.offset, 0);
            }
            None => unreachable!(),
        }
    }
    {
        let url_params = "type=video";
        match url_to_sql_query(url_params) {
            Some(query) => {
                assert_eq!(query.where_query, "entry_type = 3");
                assert!(query.params.is_empty());
                assert_eq!(query.offset, 0);
            }
            None => unreachable!(),
        }
    }
    {
        let url_params = "type=audio";
        match url_to_sql_query(url_params) {
            Some(query) => {
                assert_eq!(query.where_query, "entry_type = 4");
                assert!(query.params.is_empty());
                assert_eq!(query.offset, 0);
            }
            None => unreachable!(),
        }
    }
}

#[test]
fn test_url_to_sql_query_offset() {
    let url_params = "offset=10";
    match url_to_sql_query(url_params) {
        Some(query) => {
            assert_eq!(query.where_query, "");
            assert!(query.params.is_empty());
            assert_eq!(query.offset, 10);
        }
        None => unreachable!(),
    }
}

#[test]
fn test_url_to_sql_query_offset_and_other_parameter() {
    let url_params = "type=article&offset=10";
    match url_to_sql_query(url_params) {
        Some(query) => {
            assert_eq!(query.where_query, "entry_type = 0");
            assert!(query.params.is_empty());
            assert_eq!(query.offset, 10);
        }
        None => unreachable!(),
    }
}

#[test]
fn test_url_to_sql_query_bad_type() {
    let url_params = "type=snafucated";
    assert!(url_to_sql_query(url_params).is_none());
}

#[test]
fn test_url_to_sql_query_seed() {
    let url_params = "seed=10";
    match url_to_sql_query(url_params) {
        Some(query) => {
            assert_eq!(query.where_query, "");
            assert!(query.params.is_empty());
            assert_eq!(query.offset, 0);
            assert_eq!(query.seed, Some(10));
        }
        None => unreachable!(),
    }
}

#[test]
fn test_url_to_sql_query_seed_and_other_parameter() {
    let url_params = "type=article&seed=10";
    match url_to_sql_query(url_params) {
        Some(query) => {
            assert_eq!(query.where_query, "entry_type = 0");
            assert!(query.params.is_empty());
            assert_eq!(query.offset, 0);
            assert_eq!(query.seed, Some(10));
        }
        None => unreachable!(),
    }
}
