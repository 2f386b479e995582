//! Recognising the API paths that name one entry or one of its blobs.
use vstd::prelude::*;
use crate::number::{parse_i64, parsed_i64};
use crate::text::{split_spec, split_text, text_eq};

verus! {

/// The text after the entries prefix `/api/texts/`, if the path starts with it.
pub open spec fn after_entries_prefix(path: Seq<char>) -> Option<Seq<char>> {
    let prefix = "/api/texts/"@;
    if path.len() >= prefix.len() && path.take(prefix.len() as int) == prefix {
        Some(path.skip(prefix.len() as int))
    } else {
        None
    }
}

/// The path names one entry: the prefix, then an `i64` and nothing more.
pub open spec fn single_entry_path(path: Seq<char>) -> bool {
    match after_entries_prefix(path) {
        Some(rest) => parsed_i64(rest) is Some,
        None => false,
    }
}

/// The path names the part `subpath` of one entry: the prefix, an `i64`, a
/// `/` and `subpath`.
pub open spec fn entry_subpath(path: Seq<char>, subpath: Seq<char>) -> bool {
    match after_entries_prefix(path) {
        Some(rest) => {
            let parts = split_spec(rest, '/');
            parts.len() == 2 && parsed_i64(parts[0]) is Some && parts[1] == subpath
        },
        None => false,
    }
}

fn strip_entries_prefix(path: &str) -> (r: Option<&str>)
    ensures
        match r {
            Some(rest) => after_entries_prefix(path@) == Some(rest@),
            None => after_entries_prefix(path@) is None,
        },
{
    let prefix = "/api/texts/";
    let plen = prefix.unicode_len();
    let n = path.unicode_len();
    if n < plen {
        return None;
    }
    if !text_eq(path.substring_char(0, plen), prefix) {
        return None;
    }
    Some(path.substring_char(plen, n))
}

pub fn is_single_entry_path(path: &str) -> (r: bool)
    ensures
        r == single_entry_path(path@),
{
    match strip_entries_prefix(path) {
        Some(p) => parse_i64(p).is_some(),
        None => false,
    }
}

pub fn is_entry_subpath(path: &str, subpath: &str) -> (r: bool)
    ensures
        r == entry_subpath(path@, subpath@),
{
    match strip_entries_prefix(path) {
        Some(p) => {
            let parts = split_text(p, '/');
            if parts.len() != 2 {
                return false;
            }
            assert(parts[0]@ == split_spec(p@, '/')[0]);
            assert(parts[1]@ == split_spec(p@, '/')[1]);
            parse_i64(parts[0].as_str()).is_some() && text_eq(parts[1].as_str(), subpath)
        },
        None => false,
    }
}

pub fn is_entry_image_path(path: &str) -> (r: bool)
    ensures
        r == entry_subpath(path@, "image"@),
{
    is_entry_subpath(path, "image")
}

pub fn is_entry_backup_path(path: &str) -> (r: bool)
    ensures
        r == entry_subpath(path@, "backup"@),
{
    is_entry_subpath(path, "backup")
}

/// The id that a path under the entries prefix starts with.
pub fn get_entry_id_from_path(path: &str) -> (r: i64)
    requires
        after_entries_prefix(path@) matches Some(rest) && parsed_i64(split_spec(rest, '/')[0]) is Some,
    ensures
        after_entries_prefix(path@) matches Some(rest) && parsed_i64(split_spec(rest, '/')[0]) == Some(
            r as int,
        ),
{
    let p = match strip_entries_prefix(path) {
        Some(p) => p,
        None => return 0,
    };
    let parts = split_text(p, '/');
    proof {
        crate::text::lemma_split_nonempty(p@, '/');
    }
    assert(parts[0]@ == split_spec(p@, '/')[0]);
    match parse_i64(parts[0].as_str()) {
        Some(id) => id,
        None => 0,
    }
}

} // verus!
