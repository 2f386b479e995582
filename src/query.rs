//! Compiles a URL filter string (`key=value&key=value...`) into a predicate
//! over the entries table: clause text with `?` placeholders, the parameters
//! bound to them in order, and the offset and seed of the page asked for.
use vstd::prelude::*;
use crate::text::{join_spec, lacks, split_spec, split_text, join_text, text_eq, text_view};
use crate::number::{decimal_digits, decimal_text, parse_u64, parse_usize, parsed_u64, parsed_usize};
use crate::date::{format_as_sql_date, read_sql_date, sql_date_of, sql_date_text};

verus! {

/// A compiled filter: the predicate text, the parameters for its `?`
/// placeholders in order, the offset of the page and the seed, if one was given.
#[derive(Clone, Default)]
pub struct SqlQuery {
    pub where_query: String,
    pub params: Vec<String>,
    pub offset: usize,
    pub seed: Option<u64>,
}

pub struct SqlQueryView {
    pub where_query: Seq<char>,
    pub params: Seq<Seq<char>>,
    pub offset: usize,
    pub seed: Option<u64>,
}

impl View for SqlQuery {
    type V = SqlQueryView;

    open spec fn view(&self) -> SqlQueryView {
        SqlQueryView {
            where_query: self.where_query@,
            params: self.params.deep_view(),
            offset: self.offset,
            seed: self.seed,
        }
    }
}

impl SqlQuery {
    /// A query with the given predicate and parameters, at offset zero and
    /// with no seed.
    pub fn with_query_str(where_query: &str, params: Vec<String>) -> (r: SqlQuery)
        ensures
            r@ == (SqlQueryView {
                where_query: where_query@,
                params: params.deep_view(),
                offset: 0,
                seed: None,
            }),
    {
        SqlQuery { where_query: String::from_str(where_query), params, offset: 0, seed: None }
    }
}

/// What the compiler has gathered after some of the arguments: the clauses
/// still to be joined, their parameters, the offset and the seed.
pub struct QueryState {
    pub clauses: Seq<Seq<char>>,
    pub params: Seq<Seq<char>>,
    pub offset: usize,
    pub seed: Option<u64>,
}

pub open spec fn initial_state() -> QueryState {
    QueryState {
        clauses: Seq::<Seq<char>>::empty(),
        params: Seq::<Seq<char>>::empty(),
        offset: 0,
        seed: None,
    }
}

/// The pattern that matches a text holding `value` anywhere.
pub open spec fn substring_pattern(value: Seq<char>) -> Seq<char> {
    seq!['%'] + value + seq!['%']
}

/// The pattern that matches a stored list holding `value` as a whole element.
pub open spec fn list_pattern(value: Seq<char>) -> Seq<char> {
    seq!['%', '|'] + value + seq!['|', '%']
}

/// The index of an entry type named in a filter.
pub open spec fn type_index_of(name: Seq<char>) -> Option<i32> {
    if name == "article"@ {
        Some(0)
    } else if name == "paper"@ {
        Some(1)
    } else if name == "book"@ {
        Some(2)
    } else if name == "video"@ {
        Some(3)
    } else if name == "audio"@ {
        Some(4)
    } else {
        None
    }
}

pub open spec fn add_clause(st: QueryState, clause: Seq<char>, params: Seq<Seq<char>>) -> QueryState {
    QueryState { clauses: st.clauses.push(clause), params: st.params + params, ..st }
}

/// One clause for each value, each bound to the value's list pattern.
pub open spec fn add_each(st: QueryState, clause: Seq<char>, values: Seq<Seq<char>>) -> QueryState {
    QueryState {
        clauses: st.clauses + Seq::new(values.len(), |_i: int| clause),
        params: st.params + Seq::new(values.len(), |i: int| list_pattern(values[i])),
        ..st
    }
}

/// Keys compared against a text column.
pub open spec fn apply_text_key(st: QueryState, key: Seq<char>, value: Seq<char>) -> Option<QueryState> {
    if key == "link"@ {
        Some(add_clause(st, "link LIKE ?"@, seq![substring_pattern(value)]))
    } else if key == "title"@ {
        Some(add_clause(st, "title LIKE ?"@, seq![substring_pattern(value)]))
    } else if key == "description"@ {
        Some(add_clause(st, "description LIKE ?"@, seq![substring_pattern(value)]))
    } else if key == "category"@ {
        Some(add_clause(st, "category = ?"@, seq![value]))
    } else if key == "author"@ || key == "authors"@ {
        Some(add_clause(st, "author LIKE ?"@, seq![list_pattern(value)]))
    } else {
        None
    }
}

/// Keys whose value is a `|`-separated list, each element to be held.
pub open spec fn apply_list_key(st: QueryState, key: Seq<char>, value: Seq<char>) -> Option<QueryState> {
    if key == "works_mentioned"@ {
        Some(add_each(st, "works_mentioned LIKE ?"@, split_spec(value, '|')))
    } else if key == "themes"@ {
        Some(add_each(st, "themes LIKE ?"@, split_spec(value, '|')))
    } else if key == "tags"@ {
        Some(add_each(st, "tags LIKE ?"@, split_spec(value, '|')))
    } else {
        None
    }
}

pub open spec fn date_clause(st: QueryState, clause: Seq<char>, value: Seq<char>) -> Option<QueryState> {
    match sql_date_of(value) {
        Some(d) => Some(add_clause(st, clause, seq![sql_date_text(d)])),
        None => None,
    }
}

/// Keys that bound a date column.
pub open spec fn apply_date_key(st: QueryState, key: Seq<char>, value: Seq<char>) -> Option<QueryState> {
    if key == "published_between_from"@ {
        date_clause(st, "date_published >= DATE(?)"@, value)
    } else if key == "published_between_until"@ {
        date_clause(st, "date_published <= DATE(?)"@, value)
    } else if key == "saved_between_from"@ {
        date_clause(st, "date_saved >= DATE(?)"@, value)
    } else if key == "saved_between_until"@ {
        date_clause(st, "date_saved <= DATE(?)"@, value)
    } else {
        None
    }
}

pub open spec fn is_text_key(key: Seq<char>) -> bool {
    key == "link"@ || key == "title"@ || key == "description"@ || key == "category"@ || key
        == "author"@ || key == "authors"@
}

pub open spec fn is_list_key(key: Seq<char>) -> bool {
    key == "works_mentioned"@ || key == "themes"@ || key == "tags"@
}

pub open spec fn is_date_key(key: Seq<char>) -> bool {
    key == "published_between_from"@ || key == "published_between_until"@ || key
        == "saved_between_from"@ || key == "saved_between_until"@
}

/// The effect of one `key=value` argument; `None` rejects the whole filter.
pub open spec fn apply_key(st: QueryState, key: Seq<char>, value: Seq<char>) -> Option<QueryState> {
    if is_text_key(key) {
        apply_text_key(st, key, value)
    } else if is_list_key(key) {
        apply_list_key(st, key, value)
    } else if is_date_key(key) {
        apply_date_key(st, key, value)
    } else if key == "type"@ {
        match type_index_of(value) {
            Some(i) => Some(add_clause(st, "entry_type = "@ + decimal_digits(i as nat), seq![])),
            None => None,
        }
    } else if key == "exceptional"@ {
        Some(
            add_clause(
                st,
                if value == "true"@ {
                    "exceptional = TRUE"@
                } else {
                    "exceptional = FALSE"@
                },
                seq![],
            ),
        )
    } else if key == "offset"@ {
        match parsed_usize(value) {
            Some(n) => Some(QueryState { offset: n as usize, ..st }),
            None => None,
        }
    } else if key == "seed"@ {
        match parsed_u64(value) {
            Some(n) => Some(QueryState { seed: Some(n as u64), ..st }),
            None => None,
        }
    } else {
        None
    }
}

/// The effect of one `&`-separated argument: one that is not a single
/// `key=value` pair is passed over.
pub open spec fn apply_argument(st: QueryState, argument: Seq<char>) -> Option<QueryState> {
    let kv = split_spec(argument, '=');
    if kv.len() != 2 {
        Some(st)
    } else {
        apply_key(st, kv[0], kv[1])
    }
}

/// The state after the given arguments, in order; `None` once one is rejected.
pub open spec fn apply_arguments(arguments: Seq<Seq<char>>) -> Option<QueryState>
    decreases arguments.len(),
{
    if arguments.len() == 0 {
        Some(initial_state())
    } else {
        match apply_arguments(arguments.drop_last()) {
            Some(st) => apply_argument(st, arguments.last()),
            None => None,
        }
    }
}

/// The compiled form of an already percent-decoded filter string: the
/// clauses joined with ` AND `.
pub open spec fn compiled(text: Seq<char>) -> Option<SqlQueryView> {
    match apply_arguments(split_spec(text, '&')) {
        Some(st) => Some(
            SqlQueryView {
                where_query: join_spec(st.clauses, " AND "@),
                params: st.params,
                offset: st.offset,
                seed: st.seed,
            },
        ),
        None => None,
    }
}

/// The text that a URL query string stands for once its `%XX` escapes are
/// decoded and read as UTF-8; `None` where that is not UTF-8.
pub uninterp spec fn percent_decoded(s: Seq<char>) -> Option<Seq<char>>;

/// The compiled form of a raw URL query string.
pub open spec fn compiled_url(text: Seq<char>) -> Option<SqlQueryView> {
    match percent_decoded(text) {
        Some(t) => compiled(t),
        None => None,
    }
}

pub open spec fn query_matches(r: Option<SqlQuery>, v: Option<SqlQueryView>) -> bool {
    match (r, v) {
        (Some(q), Some(w)) => q@ == w,
        (None, None) => true,
        _ => false,
    }
}

pub proof fn lemma_rejection_stays(arguments: Seq<Seq<char>>, i: int)
    requires
        0 <= i <= arguments.len(),
        apply_arguments(arguments.take(i)) is None,
    ensures
        apply_arguments(arguments) is None,
    decreases arguments.len(),
{
    if i < arguments.len() {
        assert(arguments.drop_last().take(i) =~= arguments.take(i));
        lemma_rejection_stays(arguments.drop_last(), i);
    } else {
        assert(arguments.take(i) =~= arguments);
    }
}

/// Relies on percent_encoding's `percent_decode_str` and `decode_utf8`: the
/// decoded text, or `None` where the decoded bytes are not UTF-8; a text with
/// no `%` comes back as it is.
#[verifier::external_body]
fn percent_decode_text(s: &str) -> (r: Option<String>)
    ensures
        text_view(r) == percent_decoded(s@),
        lacks(s@, '%') ==> text_view(r) == Some(s@),
{
    match percent_encoding::percent_decode_str(s).decode_utf8() {
        Ok(text) => Some(text.into_owned()),
        Err(_) => None,
    }
}

/// The pattern matching any text that holds `string`.
pub fn sql_arg_string_contains(string: &str) -> (r: String)
    ensures
        r@ == substring_pattern(string@),
{
    proof {
        reveal_strlit("%");
    }
    let mut r = String::from_str("%");
    r.append(string);
    r.append("%");
    assert(r@ =~= substring_pattern(string@));
    r
}

/// The pattern matching any stored list that holds `string` as an element.
pub fn sql_arg_list_contains(string: &str) -> (r: String)
    ensures
        r@ == list_pattern(string@),
{
    proof {
        reveal_strlit("%|");
        reveal_strlit("|%");
    }
    let mut r = String::from_str("%|");
    r.append(string);
    r.append("|%");
    assert(r@ =~= list_pattern(string@));
    r
}

/// The index of the entry type named `argument`.
pub fn parse_type_query_argument(argument: &str) -> (r: Option<i32>)
    ensures
        r == type_index_of(argument@),
{
    if text_eq(argument, "article") {
        Some(0)
    } else if text_eq(argument, "paper") {
        Some(1)
    } else if text_eq(argument, "book") {
        Some(2)
    } else if text_eq(argument, "video") {
        Some(3)
    } else if text_eq(argument, "audio") {
        Some(4)
    } else {
        None
    }
}

/// The compiler's working state, as executable values.
struct Compiling {
    clauses: Vec<String>,
    params: Vec<String>,
    offset: usize,
    seed: Option<u64>,
}

impl View for Compiling {
    type V = QueryState;

    closed spec fn view(&self) -> QueryState {
        QueryState {
            clauses: self.clauses.deep_view(),
            params: self.params.deep_view(),
            offset: self.offset,
            seed: self.seed,
        }
    }
}

fn add_bound_clause(acc: &mut Compiling, clause: &str, param: String)
    ensures
        final(acc)@ == add_clause(old(acc)@, clause@, seq![param@]),
{
    acc.clauses.push(String::from_str(clause));
    acc.params.push(param);
    assert(final(acc)@.clauses =~= old(acc)@.clauses.push(clause@));
    assert(final(acc)@.params =~= old(acc)@.params + seq![param@]);
}

fn add_literal_clause(acc: &mut Compiling, clause: String)
    ensures
        final(acc)@ == add_clause(old(acc)@, clause@, seq![]),
{
    let ghost c = clause@;
    acc.clauses.push(clause);
    assert(final(acc)@.clauses =~= old(acc)@.clauses.push(c));
    assert(final(acc)@.params =~= old(acc)@.params + Seq::<Seq<char>>::empty());
}

fn add_each_value(acc: &mut Compiling, clause: &str, value: &str)
    ensures
        final(acc)@ == add_each(old(acc)@, clause@, split_spec(value@, '|')),
{
    let subs = split_text(value, '|');
    let ghost st = acc@;
    let ghost vals = subs.deep_view();
    let mut j: usize = 0;
    assert(st.clauses =~= st.clauses + Seq::new(0, |_i: int| clause@));
    assert(st.params =~= st.params + Seq::new(0, |i: int| list_pattern(vals.take(0)[i])));
    while j < subs.len()
        invariant
            vals == subs.deep_view(),
            vals == split_spec(value@, '|'),
            j <= subs.len(),
            acc@ == add_each(st, clause@, vals.take(j as int)),
        decreases subs.len() - j,
    {
        let pattern = sql_arg_list_contains(subs[j].as_str());
        add_bound_clause(acc, clause, pattern);
        proof {
            let prev = add_each(st, clause@, vals.take(j as int));
            let next = add_each(st, clause@, vals.take(j as int + 1));
            assert(next.clauses =~= prev.clauses.push(clause@));
            assert(vals.take(j as int + 1)[j as int] == subs[j as int]@);
            assert(next.params =~= prev.params + seq![list_pattern(subs[j as int]@)]);
        }
        j += 1;
    }
    assert(vals.take(subs.len() as int) =~= vals);
}

fn apply_text_key_exec(acc: &mut Compiling, key: &str, value: &str)
    requires
        is_text_key(key@),
    ensures
        apply_text_key(old(acc)@, key@, value@) == Some(final(acc)@),
{
    if text_eq(key, "link") {
        add_bound_clause(acc, "link LIKE ?", sql_arg_string_contains(value));
    } else if text_eq(key, "title") {
        add_bound_clause(acc, "title LIKE ?", sql_arg_string_contains(value));
    } else if text_eq(key, "description") {
        add_bound_clause(acc, "description LIKE ?", sql_arg_string_contains(value));
    } else if text_eq(key, "category") {
        add_bound_clause(acc, "category = ?", String::from_str(value));
    } else {
        add_bound_clause(acc, "author LIKE ?", sql_arg_list_contains(value));
    }
}

fn apply_list_key_exec(acc: &mut Compiling, key: &str, value: &str)
    requires
        is_list_key(key@),
    ensures
        apply_list_key(old(acc)@, key@, value@) == Some(final(acc)@),
{
    if text_eq(key, "works_mentioned") {
        add_each_value(acc, "works_mentioned LIKE ?", value);
    } else if text_eq(key, "themes") {
        add_each_value(acc, "themes LIKE ?", value);
    } else {
        add_each_value(acc, "tags LIKE ?", value);
    }
}

fn apply_date_key_exec(acc: &mut Compiling, key: &str, value: &str) -> (ok: bool)
    requires
        is_date_key(key@),
    ensures
        ok ==> apply_date_key(old(acc)@, key@, value@) == Some(final(acc)@),
        !ok ==> apply_date_key(old(acc)@, key@, value@) is None,
{
    let date = match read_sql_date(value) {
        Some(d) => d,
        None => return false,
    };
    let param = format_as_sql_date(date);
    if text_eq(key, "published_between_from") {
        add_bound_clause(acc, "date_published >= DATE(?)", param);
    } else if text_eq(key, "published_between_until") {
        add_bound_clause(acc, "date_published <= DATE(?)", param);
    } else if text_eq(key, "saved_between_from") {
        add_bound_clause(acc, "date_saved >= DATE(?)", param);
    } else {
        add_bound_clause(acc, "date_saved <= DATE(?)", param);
    }
    true
}

fn apply_key_exec(acc: &mut Compiling, key: &str, value: &str) -> (ok: bool)
    ensures
        ok ==> apply_key(old(acc)@, key@, value@) == Some(final(acc)@),
        !ok ==> apply_key(old(acc)@, key@, value@) is None,
{
    if text_eq(key, "link") || text_eq(key, "title") || text_eq(key, "description")
        || text_eq(key, "category") || text_eq(key, "author") || text_eq(key, "authors") {
        apply_text_key_exec(acc, key, value);
        true
    } else if text_eq(key, "works_mentioned") || text_eq(key, "themes") || text_eq(key, "tags") {
        apply_list_key_exec(acc, key, value);
        true
    } else if text_eq(key, "published_between_from") || text_eq(key, "published_between_until")
        || text_eq(key, "saved_between_from") || text_eq(key, "saved_between_until") {
        apply_date_key_exec(acc, key, value)
    } else if text_eq(key, "type") {
        match parse_type_query_argument(value) {
            Some(i) => {
                let mut clause = String::from_str("entry_type = ");
                let digits = decimal_text(i as u64);
                clause.append(digits.as_str());
                add_literal_clause(acc, clause);
                true
            },
            None => false,
        }
    } else if text_eq(key, "exceptional") {
        let clause = if text_eq(value, "true") {
            String::from_str("exceptional = TRUE")
        } else {
            String::from_str("exceptional = FALSE")
        };
        add_literal_clause(acc, clause);
        true
    } else if text_eq(key, "offset") {
        match parse_usize(value) {
            Some(n) => {
                acc.offset = n;
                true
            },
            None => false,
        }
    } else if text_eq(key, "seed") {
        match parse_u64(value) {
            Some(n) => {
                acc.seed = Some(n);
                true
            },
            None => false,
        }
    } else {
        false
    }
}

fn apply_argument_exec(acc: &mut Compiling, argument: &str) -> (ok: bool)
    ensures
        ok ==> apply_argument(old(acc)@, argument@) == Some(final(acc)@),
        !ok ==> apply_argument(old(acc)@, argument@) is None,
{
    let kv = split_text(argument, '=');
    if kv.len() != 2 {
        return true;
    }
    assert(kv[0]@ == split_spec(argument@, '=')[0]);
    assert(kv[1]@ == split_spec(argument@, '=')[1]);
    apply_key_exec(acc, kv[0].as_str(), kv[1].as_str())
}

/// Compiles a filter string whose escapes are already decoded.
pub fn compile_decoded_query(text: &str) -> (r: Option<SqlQuery>)
    ensures
        query_matches(r, compiled(text@)),
{
    let arguments = split_text(text, '&');
    let ghost args = arguments.deep_view();
    let mut acc = Compiling {
        clauses: Vec::new(),
        params: Vec::new(),
        offset: 0,
        seed: None,
    };
    assert(args.take(0) =~= Seq::<Seq<char>>::empty());
    assert(acc@.clauses =~= Seq::<Seq<char>>::empty());
    assert(acc@.params =~= Seq::<Seq<char>>::empty());
    let mut i: usize = 0;
    while i < arguments.len()
        invariant
            args == arguments.deep_view(),
            args == split_spec(text@, '&'),
            i <= arguments.len(),
            apply_arguments(args.take(i as int)) == Some(acc@),
        decreases arguments.len() - i,
    {
        proof {
            assert(args.take(i as int + 1).drop_last() =~= args.take(i as int));
            assert(args.take(i as int + 1).last() == arguments[i as int]@);
        }
        let ok = apply_argument_exec(&mut acc, arguments[i].as_str());
        if !ok {
            proof {
                lemma_rejection_stays(args, i as int + 1);
            }
            return None;
        }
        i += 1;
    }
    assert(args.take(arguments.len() as int) =~= args);
    let where_query = join_text(&acc.clauses, " AND ");
    Some(SqlQuery { where_query, params: acc.params, offset: acc.offset, seed: acc.seed })
}

/// Compiles a raw URL query string: its escapes are decoded first, and a
/// text that does not decode to UTF-8 is rejected.
pub fn url_to_sql_query(query_text: &str) -> (r: Option<SqlQuery>)
    ensures
        query_matches(r, compiled_url(query_text@)),
{
    match percent_decode_text(query_text) {
        Some(decoded) => compile_decoded_query(decoded.as_str()),
        None => None,
    }
}

} // verus!
