//! The records that cross the library's edge: entries as callers see them and
//! the forms that create or link to them.
use vstd::prelude::*;
use crate::date::Date;
use crate::entry_type::EntryType;

verus! {

/// What a caller gives to create an entry; the saved date and the id are the
/// store's to assign.
#[derive(Debug, Clone)]
pub struct NewEntryForm {
    pub link: String,
    pub title: String,
    pub description: String,
    pub authors: Vec<String>,
    pub category: String,
    pub themes: Vec<String>,
    pub works_mentioned: Vec<String>,
    pub tags: Vec<String>,
    pub date_published: Date,
    pub exceptional: bool,
    pub entry_type: EntryType,
}

/// One archived item with its metadata; `image` and `backup` hold the paths at
/// which the stored blobs are served, where there are any.
#[derive(Debug, Clone, Default)]
pub struct Entry {
    pub id: i64,
    pub link: String,
    pub title: String,
    pub description: String,
    pub authors: Vec<String>,
    pub category: String,
    pub themes: Vec<String>,
    pub works_mentioned: Vec<String>,
    pub tags: Vec<String>,
    pub date_published: Date,
    pub date_saved: Date,
    pub exceptional: bool,
    pub entry_type: EntryType,
    pub image: Option<String>,
    pub backup: Option<String>,
}

/// A link from which to fetch an entry's image.
#[derive(Debug, Clone)]
pub struct ImageLinkForm {
    pub image_url: String,
}

/// A link from which to fetch an entry's backup copy.
#[derive(Debug, Clone)]
pub struct BackupLinkForm {
    pub backup_url: String,
}

/// A value of a vocabulary table (authors, themes, works, tags) with the
/// category of the entry that brought it in.
#[derive(Debug, Clone)]
pub struct StringWithCategory {
    pub value: String,
    pub category: String,
}

} // verus!
