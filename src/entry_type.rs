//! The kind of an entry, with the one number that each kind carries.
use vstd::prelude::*;

verus! {

#[derive(Debug, Clone, Copy, PartialEq, Eq, Structural)]
pub enum EntryType {
    Article { pages: i32 },
    Paper { pages: i32 },
    Book { pages: i32 },
    Video { length_in_seconds: i32 },
    Audio { length_in_seconds: i32 },
}

impl Default for EntryType {
    fn default() -> (r: EntryType)
        ensures
            r == (EntryType::Article { pages: 0 }),
    {
        EntryType::Article { pages: 0 }
    }
}

/// The number under which the store keeps a kind.
pub open spec fn type_index(t: EntryType) -> int {
    match t {
        EntryType::Article { .. } => 0,
        EntryType::Paper { .. } => 1,
        EntryType::Book { .. } => 2,
        EntryType::Video { .. } => 3,
        EntryType::Audio { .. } => 4,
    }
}

/// The page count or the length that a kind carries.
pub open spec fn type_metadata(t: EntryType) -> i32 {
    match t {
        EntryType::Article { pages } => pages,
        EntryType::Paper { pages } => pages,
        EntryType::Book { pages } => pages,
        EntryType::Video { length_in_seconds } => length_in_seconds,
        EntryType::Audio { length_in_seconds } => length_in_seconds,
    }
}

pub fn index(t: EntryType) -> (r: i32)
    ensures
        r == type_index(t),
{
    match t {
        EntryType::Article { pages: _ } => 0,
        EntryType::Paper { pages: _ } => 1,
        EntryType::Book { pages: _ } => 2,
        EntryType::Video { length_in_seconds: _ } => 3,
        EntryType::Audio { length_in_seconds: _ } => 4,
    }
}

pub fn metadata(t: EntryType) -> (r: i32)
    ensures
        r == type_metadata(t),
{
    match t {
        EntryType::Article { pages } => pages,
        EntryType::Paper { pages } => pages,
        EntryType::Book { pages } => pages,
        EntryType::Video { length_in_seconds } => length_in_seconds,
        EntryType::Audio { length_in_seconds } => length_in_seconds,
    }
}

/// The kind stored under `index`, carrying `metadata`.
pub fn from_index_and_metadata(index: i32, metadata: i32) -> (r: EntryType)
    requires
        0 <= index <= 4,
    ensures
        type_index(r) == index,
        type_metadata(r) == metadata,
{
    match index {
        0 => EntryType::Article { pages: metadata },
        1 => EntryType::Paper { pages: metadata },
        2 => EntryType::Book { pages: metadata },
        3 => EntryType::Video { length_in_seconds: metadata },
        _ => EntryType::Audio { length_in_seconds: metadata },
    }
}

/// Storing a kind and reading it back gives the same kind.
pub proof fn lemma_index_metadata_round_trip(t: EntryType)
    ensures
        forall|r: EntryType|
            type_index(r) == type_index(t) && type_metadata(r) == type_metadata(t) ==> r == t,
{
}

} // verus!
