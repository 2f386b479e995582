use archive_core::date::{
    format_as_sql_date, month_from_index, month_to_index, read_sql_date, today, Date, Month,
};
use archive_core::entry_type::{from_index_and_metadata, index, metadata, EntryType};
use archive_core::number::{decimal_text, parse_i32, parse_i64, parse_u64, parse_usize};
use archive_core::paths::{
    get_entry_id_from_path, is_entry_backup_path, is_entry_image_path, is_entry_subpath,
};
use archive_core::query::SqlQuery;
use archive_core::retrieval::{
    choose_seed, filtered_count_sql, filtered_select_sql, is_discovery, page_ordinals,
    read_entry_from_database_row, resolve_seed, select_filtered_page, select_page_from_order,
    select_random_texts, shuffled_indices, StoredRow,
};

fn row(id: i64) -> StoredRow {
    StoredRow {
        id,
        link: format!("https://example.org/{}", id),
        title: format!("Title {}", id),
        description: String::from("d"),
        authors: String::from("|Ann|Bob|"),
        category: String::from("Film"),
        themes: String::from(""),
        works_mentioned: String::from("||"),
        tags: String::from("|x|"),
        date_published: String::from("1967-5-3"),
        date_saved: String::from("2024-01-31"),
        exceptional: id % 2 == 0,
        entry_type: 2,
        entry_type_metadata: 300,
        has_image: id == 1,
        has_backup: false,
    }
}

fn rows(n: i64) -> Vec<StoredRow> {
    (0..n).map(row).collect()
}

#[test]
fn dates_are_written_zero_padded() {
    let d = Date { year: 1967, month: Month::May, day: 3 };
    assert_eq!(format_as_sql_date(d), "1967-05-03");
    let d = Date { year: 5, month: Month::December, day: 31 };
    assert_eq!(format_as_sql_date(d), "0005-12-31");
    let d = Date { year: -5, month: Month::January, day: 1 };
    assert_eq!(format_as_sql_date(d), "-005-01-01");
}

#[test]
fn dates_are_read_with_ranges_checked() {
    assert_eq!(
        read_sql_date("1967-11-24"),
        Some(Date { year: 1967, month: Month::November, day: 24 })
    );
    assert_eq!(read_sql_date("1967-0-24"), None);
    assert_eq!(read_sql_date("1967-1-32"), None);
    assert_eq!(read_sql_date("1967-1"), None);
    assert_eq!(read_sql_date("1967-1-2-3"), None);
}

#[test]
fn months_and_their_numbers() {
    assert_eq!(month_from_index(1), Month::January);
    assert_eq!(month_from_index(0), Month::December);
    assert_eq!(month_from_index(13), Month::December);
    assert_eq!(month_to_index(Month::September), 9);
    assert_eq!(Month::default(), Month::January);
}

#[test]
fn today_is_a_calendar_date() {
    let d = today();
    assert!((1..=31).contains(&d.day));
    assert!((1..=12).contains(&month_to_index(d.month)));
    assert!(d.year >= 2000);
}

#[test]
fn entry_types_round_trip_through_index_and_metadata() {
    let t = EntryType::Video { length_in_seconds: 90 };
    assert_eq!(index(t), 3);
    assert_eq!(metadata(t), 90);
    assert_eq!(from_index_and_metadata(3, 90), t);
    assert_eq!(from_index_and_metadata(1, 12), EntryType::Paper { pages: 12 });
    assert_eq!(EntryType::default(), EntryType::Article { pages: 0 });
}

#[test]
fn integers_are_read_as_std_reads_them() {
    assert_eq!(parse_i64("+5"), Some(5));
    assert_eq!(parse_i64("-9223372036854775808"), Some(i64::MIN));
    assert_eq!(parse_i64("9223372036854775808"), None);
    assert_eq!(parse_i64("-"), None);
    assert_eq!(parse_i64("2.25"), None);
    assert_eq!(parse_u64("-0"), None);
    assert_eq!(parse_usize("007"), Some(7));
    assert_eq!(parse_i32("2147483648"), None);
    assert_eq!(decimal_text(1234567890), "1234567890");
    assert_eq!(decimal_text(0), "0");
}

#[test]
fn entry_subpaths_are_recognised() {
    assert!(is_entry_image_path("/api/texts/3/image"));
    assert!(is_entry_backup_path("/api/texts/3/backup"));
    assert!(!is_entry_image_path("/api/texts/3/backup"));
    assert!(!is_entry_image_path("/api/texts/x/image"));
    assert!(!is_entry_subpath("/api/texts/3/image/more", "image"));
    assert_eq!(get_entry_id_from_path("/api/texts/42/image"), 42);
    assert_eq!(get_entry_id_from_path("/api/texts/-7"), -7);
}

#[test]
fn stored_row_reads_into_entry() {
    let e = read_entry_from_database_row(&row(1)).unwrap();
    assert_eq!(e.id, 1);
    assert_eq!(e.authors, ["Ann", "Bob"]);
    assert!(e.themes.is_empty());
    assert!(e.works_mentioned.is_empty());
    assert_eq!(e.tags, ["x"]);
    assert_eq!(e.date_published, Date { year: 1967, month: Month::May, day: 3 });
    assert_eq!(e.entry_type, EntryType::Book { pages: 300 });
    assert_eq!(e.image.as_deref(), Some("/api/texts/1/image"));
    assert_eq!(e.backup, None);
}

#[test]
fn unreadable_rows_give_no_entry() {
    let mut r = row(1);
    r.date_saved = String::from("soon");
    assert!(read_entry_from_database_row(&r).is_none());
    let mut r = row(1);
    r.entry_type = 5;
    assert!(read_entry_from_database_row(&r).is_none());
}

#[test]
fn seeds_come_from_the_request_or_a_draw() {
    assert_eq!(resolve_seed(Some(9), -3), 9);
    assert_eq!(resolve_seed(None, -3), 3);
    assert_eq!(resolve_seed(None, i32::MIN), 2147483648);
    assert_eq!(choose_seed(Some(77)), 77);
    assert!(choose_seed(None) <= 2147483648);
}

#[test]
fn shuffled_indices_are_a_permutation_that_moves() {
    let order = shuffled_indices(50, 42);
    let mut sorted = order.clone();
    sorted.sort();
    assert_eq!(sorted, (0..50).collect::<Vec<usize>>());
    assert_ne!(order, (0..50).collect::<Vec<usize>>());
    assert_eq!(order, shuffled_indices(50, 42));
}

#[test]
fn page_ordinals_take_a_window() {
    let order: Vec<usize> = (0..25).rev().collect();
    assert_eq!(page_ordinals(&order, 20), vec![4, 3, 2, 1, 0]);
    assert_eq!(page_ordinals(&order, 0).len(), 10);
    assert!(page_ordinals(&order, 25).is_empty());
}

#[test]
fn page_from_order_keeps_scan_order() {
    let all = rows(5);
    let order = vec![4, 0, 2, 1, 3];
    let page = select_page_from_order(&all, &order, 0, 1).unwrap();
    let ids: Vec<i64> = page.entries.iter().map(|e| e.id).collect();
    assert_eq!(ids, vec![0, 1, 2, 3, 4]);
    assert_eq!(page.next_offset, 5);
    assert_eq!(page.total_size, 5);
}

#[test]
fn discovery_pages_repeat_for_the_same_seed() {
    let all = rows(25);
    let a = select_random_texts(&all, 10, 99).unwrap();
    let b = select_random_texts(&all, 10, 99).unwrap();
    let ids_a: Vec<i64> = a.entries.iter().map(|e| e.id).collect();
    let ids_b: Vec<i64> = b.entries.iter().map(|e| e.id).collect();
    assert_eq!(ids_a, ids_b);
    assert_eq!(a.seed, 99);
    assert_eq!(a.current_offset, 10);
    assert_eq!(a.next_offset, 20);
}

#[test]
fn discovery_pages_cover_the_collection_once() {
    let all = rows(25);
    let mut seen: Vec<i64> = Vec::new();
    let mut offset = 0;
    while offset < 25 {
        let page = select_random_texts(&all, offset, 5).unwrap();
        assert_eq!(page.total_size, 25);
        seen.extend(page.entries.iter().map(|e| e.id));
        offset = page.next_offset;
    }
    seen.sort();
    assert_eq!(seen, (0..25).collect::<Vec<i64>>());
}

#[test]
fn discovery_past_the_end_is_empty() {
    let all = rows(3);
    let page = select_random_texts(&all, 3, 1).unwrap();
    assert!(page.entries.is_empty());
    assert_eq!(page.next_offset, 3);
    let page = select_random_texts(&all, 40, 1).unwrap();
    assert!(page.entries.is_empty());
    assert_eq!(page.next_offset, 40);
}

#[test]
fn filtered_total_is_the_match_count_at_any_offset() {
    let matching = rows(13);
    let first = select_filtered_page(&matching[0..10].to_vec(), 13, 0, 4).unwrap();
    let second = select_filtered_page(&matching[10..13].to_vec(), 13, 10, 4).unwrap();
    let past = select_filtered_page(&Vec::new(), 13, 20, 4).unwrap();
    assert_eq!(first.total_size, 13);
    assert_eq!(second.total_size, 13);
    assert_eq!(past.total_size, 13);
    assert_eq!(first.next_offset, 10);
    assert_eq!(second.next_offset, 13);
    assert_eq!(past.next_offset, 20);
    assert_eq!(second.entries[0].id, 10);
}

#[test]
fn filtered_page_fails_on_an_unreadable_row() {
    let mut page_rows = rows(2);
    page_rows[1].date_published = String::from("1967-02");
    assert!(select_filtered_page(&page_rows, 2, 0, 0).is_none());
}

#[test]
fn statements_carry_predicate_and_offset() {
    let mut q = SqlQuery::with_query_str("link LIKE ?", vec![String::from("%a%")]);
    q.offset = 20;
    assert_eq!(
        filtered_select_sql(&q),
        "SELECT *, count(*) OVER() AS full_count FROM entries WHERE link LIKE ? LIMIT 10 OFFSET 20"
    );
    assert_eq!(filtered_count_sql(&q), "SELECT count(*) FROM entries WHERE link LIKE ?");
    assert!(!is_discovery(&q));
    assert!(is_discovery(&SqlQuery::default()));
}
