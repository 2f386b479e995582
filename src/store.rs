//! What is written to the entries table: the column values of an entry, the
//! framing of a backup blob, and the content types accepted for images.
use vstd::prelude::*;
use crate::date::{format_as_sql_date, sql_date_text, Date};
use crate::entry_type::{index, metadata, type_index, type_metadata};
use crate::forms::NewEntryForm;
use crate::sql_array::{encode_spec, format_as_sql_array};
use crate::text::text_eq;

verus! {

/// The values of the entries table's columns for one entry, lists in their
/// stored form and dates as `YYYY-MM-DD`.
#[derive(Debug, Clone)]
pub struct EntryColumns {
    pub link: String,
    pub title: String,
    pub description: String,
    pub authors: String,
    pub category: String,
    pub themes: String,
    pub works_mentioned: String,
    pub tags: String,
    pub date_published: String,
    pub date_saved: String,
    pub exceptional: bool,
    pub entry_type: i32,
    pub entry_type_metadata: i32,
}

/// The columns written for a new or updated entry, saved on `date_saved`.
pub fn entry_columns(form: &NewEntryForm, date_saved: Date) -> (r: EntryColumns)
    ensures
        r.link@ == form.link@,
        r.title@ == form.title@,
        r.description@ == form.description@,
        r.category@ == form.category@,
        r.authors@ == encode_spec(form.authors.deep_view()),
        r.themes@ == encode_spec(form.themes.deep_view()),
        r.works_mentioned@ == encode_spec(form.works_mentioned.deep_view()),
        r.tags@ == encode_spec(form.tags.deep_view()),
        r.date_published@ == sql_date_text(form.date_published),
        r.date_saved@ == sql_date_text(date_saved),
        r.exceptional == form.exceptional,
        r.entry_type == type_index(form.entry_type),
        r.entry_type_metadata == type_metadata(form.entry_type),
{
    EntryColumns {
        link: String::from_str(form.link.as_str()),
        title: String::from_str(form.title.as_str()),
        description: String::from_str(form.description.as_str()),
        authors: format_as_sql_array(form.authors.as_slice()),
        category: String::from_str(form.category.as_str()),
        themes: format_as_sql_array(form.themes.as_slice()),
        works_mentioned: format_as_sql_array(form.works_mentioned.as_slice()),
        tags: format_as_sql_array(form.tags.as_slice()),
        date_published: format_as_sql_date(form.date_published),
        date_saved: format_as_sql_date(date_saved),
        exceptional: form.exceptional,
        entry_type: index(form.entry_type),
        entry_type_metadata: metadata(form.entry_type),
    }
}

/// A stored backup: one byte with the length of the content type, the content
/// type, then the data.
pub open spec fn backup_frame(content_type: Seq<u8>, data: Seq<u8>) -> Seq<u8> {
    seq![content_type.len() as u8] + content_type + data
}

/// The content type and data of a stored backup, when its first byte gives a
/// length that the rest can hold.
pub open spec fn backup_parts(blob: Seq<u8>) -> Option<(Seq<u8>, Seq<u8>)> {
    if blob.len() == 0 || blob.len() < 1 + blob[0] {
        None
    } else {
        Some((blob.subrange(1, 1 + blob[0]), blob.subrange(1 + blob[0], blob.len() as int)))
    }
}

/// Reading a framed backup gives back its content type and data.
pub proof fn lemma_backup_frame_round_trip(content_type: Seq<u8>, data: Seq<u8>)
    requires
        content_type.len() <= 255,
    ensures
        backup_parts(backup_frame(content_type, data)) == Some((content_type, data)),
{
    let b = backup_frame(content_type, data);
    assert(b[0] as int == content_type.len());
    assert(b.subrange(1, 1 + b[0]) =~= content_type);
    assert(b.subrange(1 + b[0], b.len() as int) =~= data);
}

fn push_all(out: &mut Vec<u8>, bytes: &[u8], from: usize, to: usize)
    requires
        from <= to <= bytes@.len(),
    ensures
        final(out)@ == old(out)@ + bytes@.subrange(from as int, to as int),
{
    let mut i: usize = from;
    while i < to
        invariant
            from <= i <= to,
            to <= bytes@.len(),
            out@ == old(out)@ + bytes@.subrange(from as int, i as int),
        decreases to - i,
    {
        out.push(bytes[i]);
        assert(out@ =~= old(out)@ + bytes@.subrange(from as int, i + 1));
        i += 1;
    }
}

/// The blob that stores a backup of `data` with its content type; `None` when
/// the content type is longer than its one length byte can say.
pub fn frame_backup(content_type: &[u8], data: &[u8]) -> (r: Option<Vec<u8>>)
    ensures
        r is Some <==> content_type@.len() <= 255,
        r matches Some(b) ==> b@ == backup_frame(content_type@, data@),
{
    if content_type.len() > 255 {
        return None;
    }
    let mut blob: Vec<u8> = Vec::new();
    blob.push(content_type.len() as u8);
    push_all(&mut blob, content_type, 0, content_type.len());
    push_all(&mut blob, data, 0, data.len());
    assert(content_type@.subrange(0, content_type@.len() as int) =~= content_type@);
    assert(data@.subrange(0, data@.len() as int) =~= data@);
    assert(blob@ =~= backup_frame(content_type@, data@));
    Some(blob)
}

/// The content type and data held by a stored backup.
pub fn read_backup_frame(blob: &[u8]) -> (r: Option<(Vec<u8>, Vec<u8>)>)
    ensures
        match backup_parts(blob@) {
            Some((t, d)) => r matches Some((rt, rd)) && rt@ == t && rd@ == d,
            None => r is None,
        },
{
    if blob.len() == 0 {
        return None;
    }
    let type_len = blob[0] as usize;
    if blob.len() - 1 < type_len {
        return None;
    }
    let mut content_type: Vec<u8> = Vec::new();
    push_all(&mut content_type, blob, 1, 1 + type_len);
    let mut data: Vec<u8> = Vec::new();
    push_all(&mut data, blob, 1 + type_len, blob.len());
    assert(content_type@ =~= blob@.subrange(1, 1 + blob@[0]));
    assert(data@ =~= blob@.subrange(1 + blob@[0], blob@.len() as int));
    Some((content_type, data))
}

/// The image formats that are accepted as an entry's image.
pub open spec fn image_content_type(content_type: Seq<char>) -> bool {
    content_type == "image/png"@ || content_type == "image/jpeg"@ || content_type == "image/gif"@
        || content_type == "image/bmp"@
}

/// Whether `content_type` names an image format accepted for an entry.
pub fn is_image_content_type(content_type: &str) -> (r: bool)
    ensures
        r == image_content_type(content_type@),
{
    text_eq(content_type, "image/png") || text_eq(content_type, "image/jpeg") || text_eq(
        content_type,
        "image/gif",
    ) || text_eq(content_type, "image/bmp")
}

/// Where an uploaded image is found for a request's content type: `Some(true)`
/// for an image in the body, `Some(false)` for a JSON body with a link to it,
/// `None` for a content type that is refused.
pub fn image_in_body(content_type: &str) -> (r: Option<bool>)
    ensures
        r == (if image_content_type(content_type@) {
            Some(true)
        } else if content_type@ == "application/json"@ {
            Some(false)
        } else {
            None
        }),
{
    if is_image_content_type(content_type) {
        Some(true)
    } else if text_eq(content_type, "application/json") {
        Some(false)
    } else {
        None
    }
}

} // verus!
