//! Reading the `<meta ...>` headers of an HTML page: each tag's name (or
//! property) and its content.
use vstd::prelude::*;
use crate::text::chars_of;

verus! {

/// `pat` occurs in `s` at `i`.
pub open spec fn matches_at(s: Seq<char>, i: int, pat: Seq<char>) -> bool {
    0 <= i && i + pat.len() <= s.len() && s.subrange(i, i + pat.len()) == pat
}

/// The first place at or after `i` where `pat` occurs in `s`.
pub open spec fn find_from(s: Seq<char>, pat: Seq<char>, i: int) -> Option<int>
    decreases s.len() + 1 - i,
{
    if i < 0 || i + pat.len() > s.len() {
        None
    } else if matches_at(s, i, pat) {
        Some(i)
    } else {
        find_from(s, pat, i + 1)
    }
}

pub proof fn lemma_find_from_bounds(s: Seq<char>, pat: Seq<char>, i: int)
    ensures
        find_from(s, pat, i) matches Some(j) ==> i <= j && matches_at(s, j, pat),
    decreases s.len() + 1 - i,
{
    if !(i < 0 || i + pat.len() > s.len()) && !matches_at(s, i, pat) {
        lemma_find_from_bounds(s, pat, i + 1);
    }
}

/// The pieces of `s` from `start` on between the occurrences of `pat`, as
/// `str::split` with a string pattern gives them.
pub open spec fn pieces_from(s: Seq<char>, pat: Seq<char>, start: int) -> Seq<Seq<char>>
    decreases s.len() + 1 - start,
{
    if start < 0 || start > s.len() || pat.len() == 0 {
        seq![s.subrange(start, s.len() as int)]
    } else {
        match find_from(s, pat, start) {
            None => seq![s.subrange(start, s.len() as int)],
            Some(i) => {
                proof {
                    lemma_find_from_bounds(s, pat, start);
                }
                seq![s.subrange(start, i)] + pieces_from(s, pat, i + pat.len())
            },
        }
    }
}

/// The text between the first `="` and the next `"`.
pub open spec fn between_quotes(s: Seq<char>) -> Option<Seq<char>> {
    match find_from(s, "=\""@, 0) {
        Some(i) => match find_from(s, "\""@, i + "=\""@.len()) {
            Some(j) => Some(s.subrange(i + "=\""@.len(), j)),
            None => None,
        },
        None => None,
    }
}

/// The name (or else the property) and the content written in a meta tag.
pub open spec fn name_and_content(s: Seq<char>) -> Option<(Seq<char>, Seq<char>)> {
    let name_index = match find_from(s, "name=\""@, 0) {
        Some(i) => Some(i),
        None => find_from(s, "property=\""@, 0),
    };
    match (name_index, find_from(s, "content=\""@, 0)) {
        (Some(n), Some(c)) => match (
            between_quotes(s.subrange(n, s.len() as int)),
            between_quotes(s.subrange(c, s.len() as int)),
        ) {
            (Some(a), Some(b)) => Some((a, b)),
            _ => None,
        },
        _ => None,
    }
}

/// The headers read from the given tag texts, passing over those without both
/// a name and a content.
pub open spec fn headers_of(pieces: Seq<Seq<char>>) -> Seq<(Seq<char>, Seq<char>)>
    decreases pieces.len(),
{
    if pieces.len() == 0 {
        Seq::empty()
    } else {
        let prev = headers_of(pieces.drop_last());
        match name_and_content(pieces.last()) {
            Some(h) => prev.push(h),
            None => prev,
        }
    }
}

/// The meta headers of a page: the text after each `<meta ` up to the next
/// one is read as a tag.
pub open spec fn meta_headers(html: Seq<char>) -> Seq<(Seq<char>, Seq<char>)> {
    headers_of(pieces_from(html, "<meta "@, 0).drop_first())
}

pub open spec fn pair_view(p: (&str, &str)) -> (Seq<char>, Seq<char>) {
    (p.0@, p.1@)
}

/// The first place at or after `from` where `pat` occurs in `cs`.
fn find_in(cs: &Vec<char>, pat: &Vec<char>, from: usize) -> (r: Option<usize>)
    ensures
        r matches Some(k) ==> find_from(cs@, pat@, from as int) == Some(k as int),
        r is None ==> find_from(cs@, pat@, from as int) is None,
{
    let mut i: usize = from;
    while i <= cs.len() && cs.len() - i >= pat.len()
        invariant
            from <= i,
            find_from(cs@, pat@, from as int) == find_from(cs@, pat@, i as int),
        decreases cs.len() + 1 - i,
    {
        let mut k: usize = 0;
        let mut same = true;
        while same && k < pat.len()
            invariant
                k <= pat.len(),
                i + pat.len() <= cs.len(),
                same ==> forall|j: int| 0 <= j < k ==> cs@[i + j] == pat@[j],
                !same ==> !matches_at(cs@, i as int, pat@),
            decreases (pat.len() - k) * 2 + if same { 1int } else { 0int },
        {
            if cs[i + k] != pat[k] {
                assert(cs@.subrange(i as int, i + pat.len())[k as int] != pat@[k as int]);
                same = false;
            } else {
                k += 1;
            }
        }
        if same {
            assert(cs@.subrange(i as int, i + pat.len()) =~= pat@);
            return Some(i);
        }
        if i == cs.len() {
            assert(find_from(cs@, pat@, i as int + 1) is None);
            assert(find_from(cs@, pat@, i as int) == find_from(cs@, pat@, i as int + 1));
            return None;
        }
        i += 1;
    }
    None
}

/// The text between the first `="` of `source` and the next `"`.
pub fn get_value_between_quotes<'a>(source: &'a str) -> (r: Option<&'a str>)
    ensures
        match between_quotes(source@) {
            Some(v) => r matches Some(t) && t@ == v,
            None => r is None,
        },
{
    let cs = chars_of(source);
    let n = cs.len();
    let open = chars_of("=\"");
    let close = chars_of("\"");
    match find_in(&cs, &open, 0) {
        Some(i) => {
            proof {
                lemma_find_from_bounds(cs@, open@, 0);
                assert(i + open@.len() <= n);
            }
            match find_in(&cs, &close, i + open.len()) {
                Some(j) => {
                    proof {
                        lemma_find_from_bounds(cs@, close@, i + open@.len());
                        assert(i + open@.len() <= j && j + close@.len() <= cs@.len());
                    }
                    Some(source.substring_char(i + open.len(), j))
                },
                None => None,
            }
        },
        None => None,
    }
}

/// The name (or property) and content of one meta tag's text.
pub fn get_name_and_value_of_meta_string<'a>(source: &'a str) -> (r: Option<(&'a str, &'a str)>)
    ensures
        match name_and_content(source@) {
            Some(h) => r matches Some(p) && pair_view(p) == h,
            None => r is None,
        },
{
    let cs = chars_of(source);
    let n = cs.len();
    let name_index = match find_in(&cs, &chars_of("name=\""), 0) {
        Some(i) => i,
        None => match find_in(&cs, &chars_of("property=\""), 0) {
            Some(i) => i,
            None => return None,
        },
    };
    let content_index = match find_in(&cs, &chars_of("content=\""), 0) {
        Some(i) => i,
        None => return None,
    };
    proof {
        lemma_find_from_bounds(cs@, "name=\""@, 0);
        lemma_find_from_bounds(cs@, "property=\""@, 0);
        lemma_find_from_bounds(cs@, "content=\""@, 0);
    }
    let name = match get_value_between_quotes(source.substring_char(name_index, n)) {
        Some(v) => v,
        None => return None,
    };
    let content = match get_value_between_quotes(source.substring_char(content_index, n)) {
        Some(v) => v,
        None => return None,
    };
    Some((name, content))
}

/// The name and content of each `<meta ` tag of a page, in page order.
pub fn html_meta_headers<'a>(html_source: &'a str) -> (r: Vec<(&'a str, &'a str)>)
    ensures
        r@.map_values(|p: (&'a str, &'a str)| pair_view(p)) == meta_headers(html_source@),
{
    let cs = chars_of(html_source);
    let pat = chars_of("<meta ");
    let n = cs.len();
    let mut headers: Vec<(&'a str, &'a str)> = Vec::new();
    proof {
        reveal_strlit("<meta ");
    }
    let first = match find_in(&cs, &pat, 0) {
        Some(i) => i,
        None => {
            assert(pieces_from(cs@, pat@, 0).drop_first() =~= Seq::<Seq<char>>::empty());
            assert(headers@.map_values(|p: (&'a str, &'a str)| pair_view(p)) =~= Seq::empty());
            return headers;
        },
    };
    proof {
        lemma_find_from_bounds(cs@, pat@, 0);
    }
    let mut start: usize = first + pat.len();
    let ghost mut done: Seq<Seq<char>> = Seq::empty();
    assert(pieces_from(cs@, pat@, 0).drop_first() =~= done + pieces_from(cs@, pat@, start as int));
    assert(headers@.map_values(|p: (&'a str, &'a str)| pair_view(p)) =~= headers_of(done));
    while start <= n
        invariant
            pat@ == "<meta "@,
            pat@.len() == 6,
            cs@ == html_source@,
            n == cs.len(),
            start <= n,
            pieces_from(cs@, pat@, 0).drop_first() == done + pieces_from(cs@, pat@, start as int),
            headers@.map_values(|p: (&'a str, &'a str)| pair_view(p)) == headers_of(done),
        decreases n + 1 - start,
    {
        let next = find_in(&cs, &pat, start);
        proof {
            lemma_find_from_bounds(cs@, pat@, start as int);
        }
        proof {
            if next is None {
                assert(pieces_from(cs@, pat@, start as int) == seq![cs@.subrange(start as int, n as int)]);
            }
        }
        let end = match next {
            Some(i) => i,
            None => n,
        };
        let piece = html_source.substring_char(start, end);
        let ghost before = headers@;
        match get_name_and_value_of_meta_string(piece) {
            Some(h) => {
                headers.push(h);
                assert(headers@ =~= before.push(h));
            },
            None => {},
        }
        proof {
            let rest = pieces_from(cs@, pat@, start as int);
            assert(rest[0] == piece@);
            let d2 = done.push(piece@);
            assert(d2.drop_last() =~= done);
            assert(headers@.map_values(|p: (&'a str, &'a str)| pair_view(p)) =~= headers_of(d2));
            done = d2;
        }
        match next {
            Some(i) => {
                proof {
                    let rest = pieces_from(cs@, pat@, start as int);
                    assert(rest.drop_first() =~= pieces_from(cs@, pat@, i + pat@.len()));
                    assert(i + pat@.len() <= n);
                }
                start = i + pat.len();
            },
            None => {
                proof {
                    assert(pieces_from(cs@, pat@, 0).drop_first() =~= done);
                }
                return headers;
            },
        }
    }
    headers
}

} // verus!
