//! Character-level helpers on strings: splitting on a delimiter, joining with a
//! separator, and comparing texts, each stated over `Seq<char>`.
use vstd::prelude::*;

verus! {

/// The pieces of `s` between occurrences of `d`, as `str::split` gives them:
/// always at least one piece, empty pieces kept.
pub open spec fn split_spec(s: Seq<char>, d: char) -> Seq<Seq<char>>
    decreases s.len(),
{
    if s.len() == 0 {
        seq![Seq::<char>::empty()]
    } else {
        let init = split_spec(s.drop_last(), d);
        if s.last() == d {
            init.push(Seq::<char>::empty())
        } else {
            init.update(init.len() - 1, init.last().push(s.last()))
        }
    }
}

/// The parts written one after the other with `sep` between each two.
pub open spec fn join_spec(parts: Seq<Seq<char>>, sep: Seq<char>) -> Seq<char>
    decreases parts.len(),
{
    if parts.len() == 0 {
        Seq::<char>::empty()
    } else if parts.len() == 1 {
        parts[0]
    } else {
        join_spec(parts.drop_last(), sep) + sep + parts.last()
    }
}

/// The text an optional string holds, if any.
pub open spec fn text_view(r: Option<String>) -> Option<Seq<char>> {
    match r {
        Some(t) => Some(t@),
        None => None,
    }
}

/// `c` does not occur in `s`.
pub open spec fn lacks(s: Seq<char>, c: char) -> bool {
    forall|i: int| 0 <= i < s.len() ==> s[i] != c
}

pub proof fn lemma_split_nonempty(s: Seq<char>, d: char)
    ensures
        split_spec(s, d).len() >= 1,
    decreases s.len(),
{
    if s.len() > 0 {
        lemma_split_nonempty(s.drop_last(), d);
    }
}

/// Appending text free of the delimiter extends the last piece.
pub proof fn lemma_split_append_plain(s: Seq<char>, t: Seq<char>, d: char)
    requires
        lacks(t, d),
    ensures
        split_spec(s + t, d) == split_spec(s, d).update(
            split_spec(s, d).len() - 1,
            split_spec(s, d).last() + t,
        ),
    decreases t.len(),
{
    lemma_split_nonempty(s, d);
    if t.len() == 0 {
        assert(s + t =~= s);
        assert(split_spec(s, d).last() + t =~= split_spec(s, d).last());
        assert(split_spec(s, d).update(split_spec(s, d).len() - 1, split_spec(s, d).last())
            =~= split_spec(s, d));
    } else {
        let t0 = t.drop_last();
        lemma_split_append_plain(s, t0, d);
        assert((s + t).drop_last() =~= s + t0);
        assert((s + t).last() == t.last());
        assert(split_spec(s, d).last() + t =~= (split_spec(s, d).last() + t0).push(t.last()));
        lemma_split_nonempty(s + t0, d);
        assert(split_spec(s + t, d) =~= split_spec(s, d).update(
            split_spec(s, d).len() - 1,
            split_spec(s, d).last() + t,
        ));
    }
}

/// Splitting a text joined with a one-character delimiter that no part holds
/// gives the parts back.
pub proof fn lemma_split_join(parts: Seq<Seq<char>>, d: char)
    requires
        parts.len() >= 1,
        forall|i: int| 0 <= i < parts.len() ==> lacks(#[trigger] parts[i], d),
    ensures
        split_spec(join_spec(parts, seq![d]), d) == parts,
    decreases parts.len(),
{
    if parts.len() == 1 {
        lemma_split_append_plain(Seq::<char>::empty(), parts[0], d);
        assert(Seq::<char>::empty() + parts[0] =~= parts[0]);
        assert(Seq::<char>::empty() + parts[0] =~= parts[0]);
        assert(split_spec(parts[0], d) =~= parts);
    } else {
        let init = parts.drop_last();
        assert forall|i: int| 0 <= i < init.len() implies lacks(#[trigger] init[i], d) by {
            assert(init[i] == parts[i]);
        }
        lemma_split_join(init, d);
        let j = join_spec(init, seq![d]);
        let jd = j + seq![d];
        assert(jd.drop_last() =~= j);
        assert(split_spec(jd, d) == split_spec(j, d).push(Seq::<char>::empty()));
        assert(parts.last() == parts[parts.len() - 1]);
        lemma_split_append_plain(jd, parts.last(), d);
        assert(Seq::<char>::empty() + parts.last() =~= parts.last());
        assert(join_spec(parts, seq![d]) == jd + parts.last());
        assert(split_spec(join_spec(parts, seq![d]), d) =~= parts);
    }
}

/// A join of two or more parts holds at least one separator.
pub proof fn lemma_join_len(parts: Seq<Seq<char>>, sep: Seq<char>)
    ensures
        parts.len() >= 2 ==> join_spec(parts, sep).len() >= sep.len(),
    decreases parts.len(),
{
    if parts.len() >= 2 {
        lemma_join_len(parts.drop_last(), sep);
    }
}

/// The characters of `s`, one per element.
pub fn chars_of(s: &str) -> (r: Vec<char>)
    ensures
        r@ == s@,
{
    let mut r: Vec<char> = Vec::new();
    for c in it: s.chars()
        invariant
            it.seq() == s@,
            r@ == s@.take(it.index() as int),
    {
        r.push(c);
    }
    assert(r@ =~= s@);
    r
}

/// Whether two texts hold the same characters.
pub fn text_eq(a: &str, b: &str) -> (r: bool)
    ensures
        r == (a@ == b@),
{
    let ca = chars_of(a);
    let cb = chars_of(b);
    if ca.len() != cb.len() {
        return false;
    }
    let mut i: usize = 0;
    while i < ca.len()
        invariant
            ca@ == a@,
            cb@ == b@,
            ca.len() == cb.len(),
            i <= ca.len(),
            forall|k: int| 0 <= k < i ==> ca@[k] == cb@[k],
        decreases ca.len() - i,
    {
        if ca[i] != cb[i] {
            return false;
        }
        i += 1;
    }
    assert(a@ =~= b@);
    true
}

/// The text of `s` split on every occurrence of `d`, as owned strings.
pub fn split_text(s: &str, d: char) -> (r: Vec<String>)
    ensures
        r.deep_view() == split_spec(s@, d),
{
    let cs = chars_of(s);
    let n = cs.len();
    let mut pieces: Vec<String> = Vec::new();
    let mut start: usize = 0;
    let mut i: usize = 0;
    proof {
        assert(pieces.deep_view().len() == 0);
        assert(s@.subrange(0, 0) =~= Seq::<char>::empty());
        assert(pieces.deep_view() + seq![s@.subrange(0, 0)] =~= seq![Seq::<char>::empty()]);
        assert(s@.take(0) =~= Seq::<char>::empty());
    }
    while i < n
        invariant
            cs@ == s@,
            n == cs.len(),
            start <= i <= n,
            pieces.deep_view() + seq![s@.subrange(start as int, i as int)] == split_spec(
                s@.take(i as int),
                d,
            ),
        decreases n - i,
    {
        let ghost before = pieces.deep_view();
        proof {
            lemma_split_nonempty(s@.take(i as int), d);
            assert(s@.take(i as int + 1).drop_last() =~= s@.take(i as int));
            assert(s@.take(i as int + 1).last() == s@[i as int]);
        }
        if cs[i] == d {
            let piece = String::from_str(s.substring_char(start, i));
            pieces.push(piece);
            start = i + 1;
            proof {
                assert(pieces.deep_view() =~= before.push(piece@));
                assert(s@.subrange(start as int, i as int + 1) =~= Seq::<char>::empty());
                assert(pieces.deep_view() + seq![s@.subrange(start as int, i as int + 1)]
                    =~= split_spec(s@.take(i as int + 1), d));
            }
        } else {
            proof {
                assert(s@.subrange(start as int, i as int + 1) =~= s@.subrange(
                    start as int,
                    i as int,
                ).push(s@[i as int]));
                assert(pieces.deep_view() + seq![s@.subrange(start as int, i as int + 1)]
                    =~= split_spec(s@.take(i as int + 1), d));
            }
        }
        i += 1;
    }
    let ghost before = pieces.deep_view();
    let last = String::from_str(s.substring_char(start, n));
    pieces.push(last);
    proof {
        assert(s@.take(n as int) =~= s@);
        assert(pieces.deep_view() =~= before.push(last@));
    }
    pieces
}

/// The parts joined into one text with `sep` between each two.
pub fn join_text(parts: &Vec<String>, sep: &str) -> (r: String)
    ensures
        r@ == join_spec(parts.deep_view(), sep@),
{
    let mut r = String::new();
    let mut i: usize = 0;
    while i < parts.len()
        invariant
            i <= parts.len(),
            r@ == join_spec(parts.deep_view().take(i as int), sep@),
        decreases parts.len() - i,
    {
        proof {
            let t = parts.deep_view().take(i as int + 1);
            assert(t.drop_last() =~= parts.deep_view().take(i as int));
            assert(t.last() == parts[i as int]@);
        }
        if i > 0 {
            r.append(sep);
        }
        r.append(parts[i].as_str());
        proof {
            if i == 0 {
                assert(r@ =~= parts[0]@);
            }
        }
        i += 1;
    }
    assert(parts.deep_view().take(parts.len() as int) =~= parts.deep_view());
    r
}

} // verus!
