//! The storage form of a multi-valued field: a list of strings kept in one text
//! column, each value followed by the delimiter `|` and the whole led by one.
use vstd::prelude::*;
use crate::text::{join_spec, split_spec, lacks, split_text, text_eq, lemma_split_join, lemma_join_len};

verus! {

/// The delimiter between the values of a stored list.
pub open spec fn delimiter() -> char {
    '|'
}

/// The stored text of a list: empty for no values, else `|a|b|...|`.
pub open spec fn encode_spec(values: Seq<Seq<char>>) -> Seq<char> {
    if values.len() == 0 {
        Seq::<char>::empty()
    } else {
        seq![delimiter()] + join_spec(values, seq![delimiter()]) + seq![delimiter()]
    }
}

/// The text between the first and the last character, when there are two.
pub open spec fn strip_ends(s: Seq<char>) -> Seq<char> {
    if s.len() >= 2 {
        s.subrange(1, s.len() - 1)
    } else {
        Seq::<char>::empty()
    }
}

/// The list that a stored text holds: none for the empty text and for `||`,
/// else the pieces between delimiters once the outer two are taken off.
pub open spec fn decode_spec(stored: Seq<char>) -> Seq<Seq<char>> {
    if stored.len() == 0 || stored == seq![delimiter(), delimiter()] {
        Seq::<Seq<char>>::empty()
    } else {
        split_spec(strip_ends(stored), delimiter())
    }
}

/// Decoding the stored form of a list gives the list back, when no value holds
/// the delimiter and the list is not the one empty value (whose stored form
/// `||` reads as no values).
pub proof fn lemma_decode_encode(values: Seq<Seq<char>>)
    requires
        forall|i: int| 0 <= i < values.len() ==> lacks(#[trigger] values[i], delimiter()),
        values != seq![Seq::<char>::empty()],
    ensures
        decode_spec(encode_spec(values)) == values,
{
    if values.len() > 0 {
        let j = join_spec(values, seq![delimiter()]);
        let e = encode_spec(values);
        assert(strip_ends(e) =~= j);
        if e == seq![delimiter(), delimiter()] {
            assert(j.len() == 0);
            lemma_join_len(values, seq![delimiter()]);
            assert(values.len() == 1);
            assert(j == values[0]);
            assert(values[0] =~= Seq::<char>::empty());
            assert(values =~= seq![Seq::<char>::empty()]);
        }
        lemma_split_join(values, delimiter());
    }
}

/// Encoding no values gives the empty text, and the empty text holds no values.
pub proof fn lemma_empty_list_is_empty_text()
    ensures
        encode_spec(Seq::<Seq<char>>::empty()) == Seq::<char>::empty(),
        decode_spec(Seq::<char>::empty()) == Seq::<Seq<char>>::empty(),
{
}

/// The stored text of a list of values.
pub fn format_as_sql_array(strings: &[String]) -> (r: String)
    ensures
        r@ == encode_spec(strings.deep_view()),
{
    let ghost vals = strings.deep_view();
    if strings.len() == 0 {
        return String::new();
    }
    proof {
        reveal_strlit("|");
        assert("|"@ =~= seq![delimiter()]);
    }
    let mut r = String::from_str("|");
    let mut i: usize = 0;
    while i < strings.len()
        invariant
            vals == strings.deep_view(),
            i <= strings.len(),
            i == 0 ==> r@ == seq![delimiter()],
            i > 0 ==> r@ == seq![delimiter()] + join_spec(vals.take(i as int), seq![delimiter()])
                + seq![delimiter()],
        decreases strings.len() - i,
    {
        let ghost prev = r@;
        proof {
            reveal_strlit("|");
            assert("|"@ =~= seq![delimiter()]);
        }
        r.append(strings[i].as_str());
        r.append("|");
        proof {
            let t = vals.take(i as int + 1);
            assert(t.drop_last() =~= vals.take(i as int));
            assert(t.last() == strings[i as int]@);
            if i == 0 {
                assert(r@ =~= seq![delimiter()] + join_spec(t, seq![delimiter()]) + seq![delimiter()]);
            } else {
                assert(r@ =~= seq![delimiter()] + join_spec(t, seq![delimiter()]) + seq![delimiter()]);
            }
        }
        i += 1;
    }
    assert(vals.take(strings.len() as int) =~= vals);
    r
}

/// The list of values held by a stored text.
pub fn read_from_sql_array(string: &str) -> (r: Vec<String>)
    ensures
        r.deep_view() == decode_spec(string@),
{
    proof {
        reveal_strlit("||");
        assert("||"@ =~= seq![delimiter(), delimiter()]);
    }
    let n = string.unicode_len();
    if n == 0 || text_eq(string, "||") {
        let r: Vec<String> = Vec::new();
        assert(r.deep_view() =~= Seq::<Seq<char>>::empty());
        return r;
    }
    assert(string@ != seq![delimiter(), delimiter()]);
    let inner = if n >= 2 {
        string.substring_char(1, n - 1)
    } else {
        string.substring_char(0, 0)
    };
    assert(inner@ =~= strip_ends(string@));
    split_text(inner, '|')
}

} // verus!
