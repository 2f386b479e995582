use archive_core::paths::is_single_entry_path;

// is_single_entry_path

#[test]
fn is_single_entry_path_correct_paths() {
    assert!(is_single_entry_path("/api/texts/1"));
    assert!(is_single_entry_path("/api/texts/215"));
    assert!(is_single_entry_path("/api/texts/1845348"));
}

#[test]
fn is_single_entry_path_not_starting_with_correct_prefix() {
    assert!(!is_single_entry_path("/texts/1"));
    assert!(!is_single_entry_path("/api/text/215"));
    assert!(!is_single_entry_path("/foo/bar/baz/1845348"));
}

#[test]
fn is_single_entry_path_not_a_number() {
    assert!(!is_single_entry_path("/api/texts/hello"));
    assert!(!is_single_entry_path("/api/texts/five"));
    assert!(!is_single_entry_path("/api/texts/2.25"));
}

#[test]
fn is_single_entry_path_more_subpaths() {
    assert!(!is_single_entry_path("/api/texts/1/more_stuff"));
    assert!(!is_single_entry_path("/api/texts/215/image"));
    assert!(!is_single_entry_path("/api/texts/1845348/backup"));
}
