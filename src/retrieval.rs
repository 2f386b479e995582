//! Serving pages of entries: reading stored rows into entries, filtered pages
//! in storage order, and discovery pages that walk the whole collection in an
//! order shuffled from a seed.
use vstd::prelude::*;
use rand::seq::SliceRandom;
use rand::SeedableRng;
use crate::date::{read_sql_date, sql_date_of};
use crate::entry_type::{from_index_and_metadata, type_index, type_metadata, lemma_index_metadata_round_trip};
use crate::forms::Entry;
use crate::number::{padded_decimal, push_padded, decimal_digits, push_decimal};
use crate::query::SqlQuery;
use crate::text::text_view;
use crate::sql_array::{decode_spec, read_from_sql_array};

verus! {

/// The most entries that one page holds.
pub const PAGE_SIZE: usize = 10;

/// One row of the entries table as the store hands it over: text and numbers
/// as stored, lists in their stored form, and whether the image and backup
/// blobs are present.
#[derive(Debug, Clone)]
pub struct StoredRow {
    pub id: i64,
    pub link: String,
    pub title: String,
    pub description: String,
    pub authors: String,
    pub category: String,
    pub themes: String,
    pub works_mentioned: String,
    pub tags: String,
    pub date_published: String,
    pub date_saved: String,
    pub exceptional: bool,
    pub entry_type: i32,
    pub entry_type_metadata: i32,
    pub has_image: bool,
    pub has_backup: bool,
}

/// One page of results with where it starts, where the next one starts, how
/// many entries the whole result holds and the seed of the discovery order.
#[derive(Debug, Clone)]
pub struct GetTextsResponse {
    pub entries: Vec<Entry>,
    pub current_offset: usize,
    pub next_offset: usize,
    pub total_size: usize,
    pub seed: u64,
}

/// A row whose dates read as dates and whose kind is one of the five.
pub open spec fn row_readable(row: StoredRow) -> bool {
    &&& sql_date_of(row.date_published@) is Some
    &&& sql_date_of(row.date_saved@) is Some
    &&& 0 <= row.entry_type <= 4
}

/// The path at which a blob of entry `id` is served.
pub open spec fn blob_path(id: i64, kind: Seq<char>) -> Seq<char> {
    "/api/texts/"@ + padded_decimal(id as int, 0) + seq!['/'] + kind
}

pub open spec fn blob_of(present: bool, id: i64, kind: Seq<char>) -> Option<Seq<char>> {
    if present {
        Some(blob_path(id, kind))
    } else {
        None
    }
}

/// `e` is the entry that `row` stores.
pub open spec fn entry_of_row(e: Entry, row: StoredRow) -> bool {
    &&& e.id == row.id
    &&& e.link@ == row.link@
    &&& e.title@ == row.title@
    &&& e.description@ == row.description@
    &&& e.category@ == row.category@
    &&& e.authors.deep_view() == decode_spec(row.authors@)
    &&& e.themes.deep_view() == decode_spec(row.themes@)
    &&& e.works_mentioned.deep_view() == decode_spec(row.works_mentioned@)
    &&& e.tags.deep_view() == decode_spec(row.tags@)
    &&& sql_date_of(row.date_published@) == Some(e.date_published)
    &&& sql_date_of(row.date_saved@) == Some(e.date_saved)
    &&& e.exceptional == row.exceptional
    &&& type_index(e.entry_type) == row.entry_type
    &&& type_metadata(e.entry_type) == row.entry_type_metadata
    &&& text_view(e.image) == blob_of(row.has_image, row.id, "image"@)
    &&& text_view(e.backup) == blob_of(row.has_backup, row.id, "backup"@)
}

fn blob_link(present: bool, id: i64, kind: &str) -> (r: Option<String>)
    ensures
        text_view(r) == blob_of(present, id, kind@),
{
    if !present {
        return None;
    }
    let mut path = String::from_str("/api/texts/");
    push_padded(&mut path, id, 0);
    proof {
        reveal_strlit("/");
    }
    path.append("/");
    path.append(kind);
    assert(path@ =~= blob_path(id, kind@));
    Some(path)
}

/// The entry that a stored row holds, or `None` where a date or the kind
/// cannot be read.
pub fn read_entry_from_database_row(row: &StoredRow) -> (r: Option<Entry>)
    ensures
        r is Some <==> row_readable(*row),
        r matches Some(e) ==> entry_of_row(e, *row),
{
    let date_published = match read_sql_date(row.date_published.as_str()) {
        Some(d) => d,
        None => return None,
    };
    let date_saved = match read_sql_date(row.date_saved.as_str()) {
        Some(d) => d,
        None => return None,
    };
    if row.entry_type < 0 || row.entry_type > 4 {
        return None;
    }
    Some(Entry {
        id: row.id,
        link: String::from_str(row.link.as_str()),
        title: String::from_str(row.title.as_str()),
        description: String::from_str(row.description.as_str()),
        authors: read_from_sql_array(row.authors.as_str()),
        category: String::from_str(row.category.as_str()),
        themes: read_from_sql_array(row.themes.as_str()),
        works_mentioned: read_from_sql_array(row.works_mentioned.as_str()),
        tags: read_from_sql_array(row.tags.as_str()),
        date_published,
        date_saved,
        exceptional: row.exceptional,
        entry_type: from_index_and_metadata(row.entry_type, row.entry_type_metadata),
        image: blob_link(row.has_image, row.id, "image"),
        backup: blob_link(row.has_backup, row.id, "backup"),
    })
}

/// The ordinals that a discovery page at `offset` takes from the shuffled
/// order: at most a page of them, none past the end.
pub open spec fn page_window(order: Seq<usize>, offset: usize) -> Seq<usize> {
    if offset >= order.len() {
        Seq::<usize>::empty()
    } else if order.len() - offset > PAGE_SIZE {
        order.subrange(offset as int, offset + PAGE_SIZE)
    } else {
        order.subrange(offset as int, order.len() as int)
    }
}

/// The scan ordinals below `n` that `wanted` holds, in scan order.
pub open spec fn picked_ordinals(n: nat, wanted: Seq<usize>) -> Seq<usize>
    decreases n,
{
    if n == 0 {
        Seq::<usize>::empty()
    } else {
        let prev = picked_ordinals((n - 1) as nat, wanted);
        if wanted.contains((n - 1) as usize) {
            prev.push((n - 1) as usize)
        } else {
            prev
        }
    }
}

/// `entries` are the entries of the rows at `ordinals`, in that order.
pub open spec fn entries_of_rows(entries: Seq<Entry>, rows: Seq<StoredRow>, ordinals: Seq<usize>) -> bool {
    &&& entries.len() == ordinals.len()
    &&& forall|j: int| 0 <= j < ordinals.len() ==> entry_of_row(#[trigger] entries[j], rows[ordinals[j] as int])
}

/// Some row at one of `ordinals` cannot be read.
pub open spec fn some_unreadable(rows: Seq<StoredRow>, ordinals: Seq<usize>) -> bool {
    exists|j: int| 0 <= j < ordinals.len() && !row_readable(#[trigger] rows[ordinals[j] as int])
}

/// `r` is the page at `offset` of the rows taken in the shuffled `order`:
/// its entries are the rows whose ordinal the window of the order holds, in
/// scan order; no page where one of those rows cannot be read.
pub open spec fn discovery_page_of(
    r: Option<GetTextsResponse>,
    rows: Seq<StoredRow>,
    order: Seq<usize>,
    offset: usize,
    seed: u64,
) -> bool {
    let picked = picked_ordinals(rows.len(), page_window(order, offset));
    match r {
        Some(p) => {
            &&& entries_of_rows(p.entries@, rows, picked)
            &&& p.current_offset == offset
            &&& p.next_offset == offset + p.entries@.len()
            &&& p.total_size == rows.len()
            &&& p.seed == seed
        },
        None => some_unreadable(rows, picked),
    }
}

/// `order` holds each of `0..n` once.
pub open spec fn is_permutation(order: Seq<usize>, n: nat) -> bool {
    order.to_multiset() == Seq::new(n, |i: int| i as usize).to_multiset()
}

pub proof fn lemma_picked_prefix(m: nat, n: nat, wanted: Seq<usize>)
    requires
        m <= n,
    ensures
        picked_ordinals(m, wanted).len() <= picked_ordinals(n, wanted).len(),
        picked_ordinals(n, wanted).take(picked_ordinals(m, wanted).len() as int)
            == picked_ordinals(m, wanted),
    decreases n,
{
    if m < n {
        lemma_picked_prefix(m, (n - 1) as nat, wanted);
        let a = picked_ordinals(m, wanted);
        let b = picked_ordinals((n - 1) as nat, wanted);
        if wanted.contains((n - 1) as usize) {
            assert(b.push((n - 1) as usize).take(a.len() as int) =~= b.take(a.len() as int));
        }
    } else {
        assert(picked_ordinals(n, wanted).take(picked_ordinals(n, wanted).len() as int)
            =~= picked_ordinals(n, wanted));
    }
}

pub proof fn lemma_picked_facts(n: nat, wanted: Seq<usize>)
    requires
        n <= usize::MAX + 1,
    ensures
        forall|j: int| 0 <= j < picked_ordinals(n, wanted).len() ==> {
            &&& (#[trigger] picked_ordinals(n, wanted)[j]) < n
            &&& wanted.contains(picked_ordinals(n, wanted)[j])
        },
        forall|i: int, j: int|
            0 <= i < j < picked_ordinals(n, wanted).len() ==> picked_ordinals(n, wanted)[i]
                < picked_ordinals(n, wanted)[j],
    decreases n,
{
    if n > 0 {
        lemma_picked_facts((n - 1) as nat, wanted);
        let prev = picked_ordinals((n - 1) as nat, wanted);
        let k = (n - 1) as usize;
        assert(k == n - 1);
        if wanted.contains(k) {
            let cur = prev.push(k);
            assert(picked_ordinals(n, wanted) == cur);
            assert forall|j: int| 0 <= j < cur.len() implies cur[j] < n && wanted.contains(cur[j]) by {
                if j < prev.len() {
                    assert(cur[j] == prev[j]);
                }
            }
            assert forall|i: int, j: int| 0 <= i < j < cur.len() implies cur[i] < cur[j] by {
                assert(cur[i] == prev[i]);
                if j < prev.len() {
                    assert(cur[j] == prev[j]);
                }
            }
        }
    }
}

pub proof fn lemma_picked_count(n: nat, wanted: Seq<usize>)
    requires
        n <= usize::MAX + 1,
    ensures
        picked_ordinals(n, wanted).len() <= wanted.len(),
{
    let p = picked_ordinals(n, wanted);
    lemma_picked_facts(n, wanted);
    assert(p.no_duplicates()) by {
        assert forall|i: int, j: int| 0 <= i < p.len() && 0 <= j < p.len() && i != j implies p[i]
            != p[j] by {
            if i < j {
                assert(p[i] < p[j]);
            } else {
                assert(p[j] < p[i]);
            }
        }
    }
    p.unique_seq_to_set();
    wanted.lemma_cardinality_of_set();
    assert(p.to_set().subset_of(wanted.to_set())) by {
        assert forall|x: usize| p.to_set().contains(x) implies wanted.to_set().contains(x) by {
            let j = choose|j: int| 0 <= j < p.len() && p[j] == x;
            assert(wanted.contains(p[j]));
        }
    }
    vstd::set_lib::lemma_len_subset(p.to_set(), wanted.to_set());
}

/// Whether `wanted` holds `k`.
fn holds_ordinal(wanted: &Vec<usize>, k: usize) -> (r: bool)
    ensures
        r == wanted@.contains(k),
{
    let mut i: usize = 0;
    while i < wanted.len()
        invariant
            i <= wanted.len(),
            forall|j: int| 0 <= j < i ==> wanted@[j] != k,
        decreases wanted.len() - i,
    {
        if wanted[i] == k {
            return true;
        }
        i += 1;
    }
    false
}

/// The ordinals that the discovery page at `offset` takes from `order`.
pub fn page_ordinals(order: &Vec<usize>, offset: usize) -> (r: Vec<usize>)
    ensures
        r@ == page_window(order@, offset),
{
    let mut r: Vec<usize> = Vec::new();
    if offset >= order.len() {
        return r;
    }
    let end = if order.len() - offset > PAGE_SIZE { offset + PAGE_SIZE } else { order.len() };
    let mut i: usize = offset;
    while i < end
        invariant
            offset <= i <= end,
            end <= order.len(),
            r@ == order@.subrange(offset as int, i as int),
        decreases end - i,
    {
        r.push(order[i]);
        assert(r@ =~= order@.subrange(offset as int, i + 1));
        i += 1;
    }
    r
}

/// The page at `offset` of the rows taken in the shuffled `order`.
pub fn select_page_from_order(rows: &Vec<StoredRow>, order: &Vec<usize>, offset: usize, seed: u64) -> (r: Option<GetTextsResponse>)
    ensures
        discovery_page_of(r, rows@, order@, offset, seed),
{
    let wanted = page_ordinals(order, offset);
    let ghost w = wanted@;
    let mut entries: Vec<Entry> = Vec::new();
    let mut k: usize = 0;
    while k < rows.len()
        invariant
            w == wanted@,
            w == page_window(order@, offset),
            k <= rows.len(),
            entries_of_rows(entries@, rows@, picked_ordinals(k as nat, w)),
        decreases rows.len() - k,
    {
        if holds_ordinal(&wanted, k) {
            match read_entry_from_database_row(&rows[k]) {
                Some(e) => {
                    entries.push(e);
                    assert(picked_ordinals(k as nat + 1, w) == picked_ordinals(k as nat, w).push(k));
                },
                None => {
                    proof {
                        let now = picked_ordinals(k as nat + 1, w);
                        lemma_picked_prefix(k as nat + 1, rows@.len(), w);
                        let all = picked_ordinals(rows@.len(), w);
                        assert(now.last() == k);
                        assert(all[now.len() - 1] == now[now.len() - 1]);
                        assert(!row_readable(rows@[all[now.len() - 1] as int]));
                    }
                    return None;
                },
            }
        }
        k += 1;
    }
    let order_len = order.len();
    proof {
        lemma_picked_count(rows@.len(), w);
        assert(w.len() == 0 || offset + w.len() <= order@.len());
        assert(k == rows@.len());
        assert(entries@.len() == picked_ordinals(rows@.len(), w).len());
        assert(order@.len() == order_len);
    }
    let count = entries.len();
    Some(GetTextsResponse {
        entries,
        current_offset: offset,
        next_offset: offset + count,
        total_size: rows.len(),
        seed,
    })
}

/// A permutation of `0..n` holds each ordinal below `n` once and nothing else.
pub proof fn lemma_permutation_facts(order: Seq<usize>, n: nat)
    requires
        is_permutation(order, n),
        n <= usize::MAX + 1,
    ensures
        order.len() == n,
        order.no_duplicates(),
        forall|k: int| 0 <= k < order.len() ==> (#[trigger] order[k]) < n,
{
    let ids = Seq::new(n, |i: int| i as usize);
    assert(ids.no_duplicates());
    ids.lemma_multiset_has_no_duplicates();
    order.to_multiset_ensures();
    ids.to_multiset_ensures();
    order.lemma_multiset_has_no_duplicates_conv();
    assert forall|k: int| 0 <= k < order.len() implies (#[trigger] order[k]) < n by {
        assert(order.contains(order[k]));
        assert(order.to_multiset().count(order[k]) > 0);
        assert(ids.to_multiset().count(order[k]) > 0);
        assert(ids.contains(order[k]));
        let j = choose|j: int| 0 <= j < ids.len() && ids[j] == order[k];
        assert(ids[j] == j as usize);
    }
}

pub proof fn lemma_picked_holds(n: nat, wanted: Seq<usize>, k: nat)
    requires
        k < n <= usize::MAX + 1,
        wanted.contains(k as usize),
    ensures
        picked_ordinals(n, wanted).contains(k as usize),
    decreases n,
{
    if k < n - 1 {
        lemma_picked_holds((n - 1) as nat, wanted, k);
        let prev = picked_ordinals((n - 1) as nat, wanted);
        let j = choose|j: int| 0 <= j < prev.len() && prev[j] == k as usize;
        if wanted.contains((n - 1) as usize) {
            assert(prev.push((n - 1) as usize)[j] == k as usize);
        }
    } else {
        let prev = picked_ordinals((n - 1) as nat, wanted);
        assert(prev.push((n - 1) as usize)[prev.len() as int] == k as usize);
    }
}

/// When the wanted ordinals are distinct and all below `n`, each is picked.
pub proof fn lemma_picked_all(n: nat, wanted: Seq<usize>)
    requires
        n <= usize::MAX + 1,
        wanted.no_duplicates(),
        forall|k: int| 0 <= k < wanted.len() ==> (#[trigger] wanted[k]) < n,
    ensures
        picked_ordinals(n, wanted).len() == wanted.len(),
{
    let p = picked_ordinals(n, wanted);
    lemma_picked_facts(n, wanted);
    assert(p.no_duplicates()) by {
        assert forall|i: int, j: int| 0 <= i < p.len() && 0 <= j < p.len() && i != j implies p[i]
            != p[j] by {
            if i < j {
                assert(p[i] < p[j]);
            } else {
                assert(p[j] < p[i]);
            }
        }
    }
    assert forall|x: usize| p.to_set().contains(x) <==> wanted.to_set().contains(x) by {
        if p.to_set().contains(x) {
            let j = choose|j: int| 0 <= j < p.len() && p[j] == x;
            assert(wanted.contains(p[j]));
        }
        if wanted.to_set().contains(x) {
            let j = choose|j: int| 0 <= j < wanted.len() && wanted[j] == x;
            assert(wanted[j] < n);
            lemma_picked_holds(n, wanted, x as nat);
        }
    }
    assert(p.to_set() =~= wanted.to_set());
    p.unique_seq_to_set();
    wanted.unique_seq_to_set();
}

/// Discovery browsing does not repeat rows: in a shuffled order, the pages at
/// two offsets at least a page apart take no ordinal in common.
pub proof fn lemma_discovery_pages_disjoint(n: nat, order: Seq<usize>, o1: usize, o2: usize)
    requires
        n <= usize::MAX,
        is_permutation(order, n),
        o1 + PAGE_SIZE <= o2,
    ensures
        forall|i: int, j: int|
            0 <= i < picked_ordinals(n, page_window(order, o1)).len() && 0 <= j
                < picked_ordinals(n, page_window(order, o2)).len() ==> #[trigger] picked_ordinals(
                n,
                page_window(order, o1),
            )[i] != #[trigger] picked_ordinals(n, page_window(order, o2))[j],
{
    lemma_permutation_facts(order, n);
    let w1 = page_window(order, o1);
    let w2 = page_window(order, o2);
    lemma_picked_facts(n, w1);
    lemma_picked_facts(n, w2);
    assert forall|i: int, j: int|
        0 <= i < picked_ordinals(n, w1).len() && 0 <= j < picked_ordinals(n, w2).len() implies #[trigger] picked_ordinals(
        n,
        w1,
    )[i] != #[trigger] picked_ordinals(n, w2)[j] by {
        let x = picked_ordinals(n, w1)[i];
        let y = picked_ordinals(n, w2)[j];
        assert(w1.contains(x));
        assert(w2.contains(y));
        let a = choose|a: int| 0 <= a < w1.len() && w1[a] == x;
        let b = choose|b: int| 0 <= b < w2.len() && w2[b] == y;
        assert(w1[a] == order[o1 + a]);
        assert(w2[b] == order[o2 + b]);
        assert(o1 + a < o2 + b);
    }
}

/// Relies on rand's `SliceRandom::shuffle` with a `SmallRng` seeded by
/// `seed_from_u64`: the items are swapped among themselves, none added or lost.
#[verifier::external_body]
fn shuffle_with_seed(order: &mut Vec<usize>, seed: u64)
    ensures
        final(order)@.len() == old(order)@.len(),
        final(order)@.to_multiset() == old(order)@.to_multiset(),
{
    order.shuffle(&mut rand::rngs::SmallRng::seed_from_u64(seed));
}

/// Relies on rand's `random::<i32>`: any `i32` at all.
#[verifier::external_body]
fn random_i32() -> (r: i32) {
    rand::random::<i32>()
}

/// The ordinals `0..total` in the order that `seed` shuffles them into.
pub fn shuffled_indices(total: usize, seed: u64) -> (r: Vec<usize>)
    ensures
        r@.len() == total,
        is_permutation(r@, total as nat),
{
    let mut order: Vec<usize> = Vec::new();
    let mut i: usize = 0;
    while i < total
        invariant
            i <= total,
            order@ == Seq::new(i as nat, |j: int| j as usize),
        decreases total - i,
    {
        order.push(i);
        assert(order@ =~= Seq::new(i as nat + 1, |j: int| j as usize));
        i += 1;
    }
    shuffle_with_seed(&mut order, seed);
    order
}

/// The seed of a request: the one asked for, else the absolute value of a
/// random draw.
pub fn resolve_seed(requested: Option<u64>, draw: i32) -> (r: u64)
    ensures
        r == match requested {
            Some(s) => s as int,
            None => if draw >= 0 {
                draw as int
            } else {
                -(draw as int)
            },
        },
{
    match requested {
        Some(s) => s,
        None => if draw >= 0 {
            draw as u64
        } else {
            (-(draw as i64)) as u64
        },
    }
}

/// The seed of a request: the one asked for, else a fresh one.
pub fn choose_seed(requested: Option<u64>) -> (r: u64)
    ensures
        requested matches Some(s) ==> r == s,
        requested is None ==> r <= 2147483648,
{
    match requested {
        Some(s) => s,
        None => resolve_seed(None, random_i32()),
    }
}

pub proof fn lemma_nothing_picked(n: nat)
    ensures
        picked_ordinals(n, Seq::<usize>::empty()) == Seq::<usize>::empty(),
    decreases n,
{
    if n > 0 {
        lemma_nothing_picked((n - 1) as nat);
    }
}

/// A discovery page over `rows`: the rows are taken in an order shuffled from
/// `seed`, and the page holds those whose place in that order falls in
/// `offset..offset + PAGE_SIZE`, in scan order. Past the end the page is empty.
pub fn select_random_texts(rows: &Vec<StoredRow>, offset: usize, seed: u64) -> (r: Option<GetTextsResponse>)
    ensures
        exists|order: Seq<usize>|
            is_permutation(order, rows@.len()) && order.len() == rows@.len()
                && #[trigger] discovery_page_of(r, rows@, order, offset, seed),
        offset >= rows@.len() ==> (r matches Some(p) && p.entries@.len() == 0 && p.next_offset
            == offset),
        offset < rows@.len() ==> (r matches Some(p) ==> p.next_offset == if rows@.len() - offset
            > PAGE_SIZE {
            offset + PAGE_SIZE
        } else {
            rows@.len() as int
        }),
{
    let order = shuffled_indices(rows.len(), seed);
    let r = select_page_from_order(rows, &order, offset, seed);
    proof {
        if offset >= rows@.len() {
            assert(page_window(order@, offset) == Seq::<usize>::empty());
            lemma_nothing_picked(rows@.len());
        } else {
            lemma_permutation_facts(order@, rows@.len());
            let w = page_window(order@, offset);
            assert(w.no_duplicates()) by {
                assert forall|i: int, j: int| 0 <= i < w.len() && 0 <= j < w.len() && i != j implies w[i]
                    != w[j] by {
                    assert(w[i] == order@[offset + i]);
                    assert(w[j] == order@[offset + j]);
                }
            }
            assert forall|k: int| 0 <= k < w.len() implies (#[trigger] w[k]) < rows@.len() by {
                assert(w[k] == order@[offset + k]);
            }
            lemma_picked_all(rows@.len(), w);
        }
    }
    r
}

/// `r` is the filtered page whose rows the store returned for the window at
/// `offset`, with `full_count` matching rows in all.
pub open spec fn filtered_page_of(
    r: Option<GetTextsResponse>,
    rows: Seq<StoredRow>,
    full_count: usize,
    offset: usize,
    seed: u64,
) -> bool {
    let all = Seq::new(rows.len(), |i: int| i as usize);
    match r {
        Some(p) => {
            &&& entries_of_rows(p.entries@, rows, all)
            &&& p.current_offset == offset
            &&& p.next_offset == offset + rows.len()
            &&& p.total_size == full_count
            &&& p.seed == seed
        },
        None => some_unreadable(rows, all),
    }
}

/// A filtered page from the rows the store returned for the window at
/// `offset`, in the order returned, and the count of all matching rows.
pub fn select_filtered_page(rows: &Vec<StoredRow>, full_count: usize, offset: usize, seed: u64) -> (r: Option<GetTextsResponse>)
    requires
        offset + rows@.len() <= usize::MAX,
    ensures
        filtered_page_of(r, rows@, full_count, offset, seed),
{
    let ghost all = Seq::new(rows@.len(), |i: int| i as usize);
    let mut entries: Vec<Entry> = Vec::new();
    let mut k: usize = 0;
    while k < rows.len()
        invariant
            k <= rows.len(),
            all == Seq::new(rows@.len(), |i: int| i as usize),
            entries_of_rows(entries@, rows@, all.take(k as int)),
        decreases rows.len() - k,
    {
        match read_entry_from_database_row(&rows[k]) {
            Some(e) => {
                entries.push(e);
                assert(all.take(k + 1) =~= all.take(k as int).push(k));
            },
            None => {
                assert(all[k as int] == k);
                return None;
            },
        }
        k += 1;
    }
    assert(all.take(k as int) =~= all);
    let count = rows.len();
    Some(GetTextsResponse {
        entries,
        current_offset: offset,
        next_offset: offset + count,
        total_size: full_count,
        seed,
    })
}

/// Whether a compiled query leaves every row in: then the collection is
/// browsed in discovery order rather than filtered.
pub fn is_discovery(query: &SqlQuery) -> (r: bool)
    ensures
        r == (query.where_query@.len() == 0),
{
    query.where_query.as_str().unicode_len() == 0
}

/// The statement that reads one filtered page, with the count of all matching
/// rows beside each row.
pub fn filtered_select_sql(query: &SqlQuery) -> (r: String)
    ensures
        r@ == "SELECT *, count(*) OVER() AS full_count FROM entries WHERE "@ + query.where_query@
            + " LIMIT 10 OFFSET "@ + decimal_digits(query.offset as nat),
{
    let mut r = String::from_str("SELECT *, count(*) OVER() AS full_count FROM entries WHERE ");
    r.append(query.where_query.as_str());
    r.append(" LIMIT 10 OFFSET ");
    push_decimal(&mut r, query.offset as u64);
    r
}

/// The statement that counts the rows matching a filter.
pub fn filtered_count_sql(query: &SqlQuery) -> (r: String)
    ensures
        r@ == "SELECT count(*) FROM entries WHERE "@ + query.where_query@,
{
    let mut r = String::from_str("SELECT count(*) FROM entries WHERE ");
    r.append(query.where_query.as_str());
    r
}

/// Two entries hold the same values.
pub open spec fn same_entry(a: Entry, b: Entry) -> bool {
    &&& a.id == b.id
    &&& a.link@ == b.link@
    &&& a.title@ == b.title@
    &&& a.description@ == b.description@
    &&& a.category@ == b.category@
    &&& a.authors.deep_view() == b.authors.deep_view()
    &&& a.themes.deep_view() == b.themes.deep_view()
    &&& a.works_mentioned.deep_view() == b.works_mentioned.deep_view()
    &&& a.tags.deep_view() == b.tags.deep_view()
    &&& a.date_published == b.date_published
    &&& a.date_saved == b.date_saved
    &&& a.exceptional == b.exceptional
    &&& a.entry_type == b.entry_type
    &&& text_view(a.image) == text_view(b.image)
    &&& text_view(a.backup) == text_view(b.backup)
}

/// Discovery pages are reproducible: over unchanged rows, two requests with
/// the same seed, and so the same shuffled order, at the same offset give
/// pages with the same entries (or both fail).
pub proof fn lemma_discovery_page_reproducible(
    rows: Seq<StoredRow>,
    order: Seq<usize>,
    offset: usize,
    seed: u64,
    r1: Option<GetTextsResponse>,
    r2: Option<GetTextsResponse>,
)
    requires
        discovery_page_of(r1, rows, order, offset, seed),
        discovery_page_of(r2, rows, order, offset, seed),
    ensures
        r1 is Some <==> r2 is Some,
        r1 is Some && r2 is Some ==> {
            let e1 = r1->0.entries@;
            let e2 = r2->0.entries@;
            &&& e1.len() == e2.len()
            &&& forall|j: int| 0 <= j < e1.len() ==> same_entry(#[trigger] e1[j], e2[j])
            &&& r1->0.next_offset == r2->0.next_offset
            &&& r1->0.total_size == r2->0.total_size
        },
{
    let picked = picked_ordinals(rows.len(), page_window(order, offset));
    if r1 is Some && r2 is None {
        let j = choose|j: int| 0 <= j < picked.len() && !row_readable(#[trigger] rows[picked[j] as int]);
        assert(entry_of_row(r1->0.entries@[j], rows[picked[j] as int]));
    }
    if r1 is None && r2 is Some {
        let j = choose|j: int| 0 <= j < picked.len() && !row_readable(#[trigger] rows[picked[j] as int]);
        assert(entry_of_row(r2->0.entries@[j], rows[picked[j] as int]));
    }
    if r1 is Some && r2 is Some {
        let e1 = r1->0.entries@;
        let e2 = r2->0.entries@;
        assert forall|j: int| 0 <= j < e1.len() implies same_entry(#[trigger] e1[j], e2[j]) by {
            assert(entry_of_row(e1[j], rows[picked[j] as int]));
            assert(entry_of_row(e2[j], rows[picked[j] as int]));
            lemma_index_metadata_round_trip(e1[j].entry_type);
        }
    }
}

/// The rows the store returns for the filtered window at `offset`, out of the
/// rows that satisfy the predicate, in storage order.
pub open spec fn window_of(matching: Seq<StoredRow>, offset: usize) -> Seq<StoredRow> {
    if offset >= matching.len() {
        Seq::<StoredRow>::empty()
    } else if matching.len() - offset > PAGE_SIZE {
        matching.subrange(offset as int, offset + PAGE_SIZE)
    } else {
        matching.subrange(offset as int, matching.len() as int)
    }
}

/// A filtered page's total is the number of rows that satisfy the predicate,
/// whatever the offset: the count beside the window's rows (or from the count
/// statement when the window is empty) is that number, and the page reports it.
pub proof fn lemma_filtered_total_ignores_offset(
    matching: Seq<StoredRow>,
    o1: usize,
    o2: usize,
    seed: u64,
    r1: Option<GetTextsResponse>,
    r2: Option<GetTextsResponse>,
)
    requires
        matching.len() <= usize::MAX,
        filtered_page_of(r1, window_of(matching, o1), matching.len() as usize, o1, seed),
        filtered_page_of(r2, window_of(matching, o2), matching.len() as usize, o2, seed),
    ensures
        r1 matches Some(p1) ==> p1.total_size == matching.len(),
        r2 matches Some(p2) ==> p2.total_size == matching.len(),
        r1 is Some && r2 is Some ==> r1->0.total_size == r2->0.total_size,
{
}

} // verus!
