//! Matching of a search query against a window's application id and title.
//!
//! A query is split into words at white space. A text matches a query when it
//! holds every word of the query somewhere, upper and lower case taken as the
//! same. The empty query matches every text.
use vstd::prelude::*;

verus! {

/// The lower-case form of a character: the letters `A` to `Z` become `a` to
/// `z`, every other character stays.
pub open spec fn lower(c: char) -> char {
    if 'A' <= c && c <= 'Z' {
        ((c as u8 + 32) as u8) as char
    } else {
        c
    }
}

/// The text with every character in lower case.
pub open spec fn lowercase(s: Seq<char>) -> Seq<char> {
    Seq::new(s.len(), |i: int| lower(s[i]))
}

/// The characters that separate the words of a query: space, tab, line feed,
/// form feed and carriage return.
pub open spec fn is_space(c: char) -> bool {
    c == ' ' || c == '\t' || c == '\n' || c == '\x0C' || c == '\r'
}

/// The characters from `a` up to `b` are a word of the query: a longest run
/// without white space.
pub open spec fn is_word(q: Seq<char>, a: int, b: int) -> bool {
    &&& 0 <= a < b <= q.len()
    &&& forall|k: int| a <= k < b ==> !is_space(#[trigger] q[k])
    &&& (a == 0 || is_space(q[a - 1]))
    &&& (b == q.len() || is_space(q[b]))
}

/// The text `hay` holds `needle` from the place `at` on.
pub open spec fn occurs_at(hay: Seq<char>, needle: Seq<char>, at: int) -> bool {
    0 <= at && at + needle.len() <= hay.len() && hay.subrange(at, at + needle.len()) == needle
}

/// The text `hay` holds `needle` somewhere.
pub open spec fn contains(hay: Seq<char>, needle: Seq<char>) -> bool {
    exists|at: int| occurs_at(hay, needle, at)
}

/// The text holds every word of the query. Both are taken as they stand.
pub open spec fn holds_words(text: Seq<char>, query: Seq<char>) -> bool {
    forall|a: int, b: int| #[trigger] is_word(query, a, b) ==> contains(text, query.subrange(a, b))
}

/// A window with this application id and this title answers the query: the
/// query is empty, or the application id holds every word of it, or the title
/// does, upper and lower case taken as the same.
pub open spec fn is_match(query: Seq<char>, app_id: Seq<char>, title: Seq<char>) -> bool {
    query.len() == 0 || holds_words(lowercase(app_id), lowercase(query)) || holds_words(
        lowercase(title),
        lowercase(query),
    )
}

/// The lower-case form of a character.
pub fn lower_char(c: char) -> (r: char)
    ensures
        r == lower(c),
{
    if c >= 'A' && c <= 'Z' {
        ((c as u8) + 32) as char
    } else {
        c
    }
}

/// Whether a character separates the words of a query.
pub fn space_char(c: char) -> (r: bool)
    ensures
        r == is_space(c),
{
    c == ' ' || c == '\t' || c == '\n' || c == '\x0C' || c == '\r'
}

/// The characters of a text in lower case.
pub fn lowercase_chars(s: &str) -> (v: Vec<char>)
    ensures
        v@ == lowercase(s@),
{
    let mut v: Vec<char> = Vec::new();
    for c in it: s.chars()
        invariant
            v@ == lowercase(it.history()),
    {
        v.push(lower_char(c));
        assert(v@ =~= lowercase(it.history().push(c)));
    }
    v
}

/// Whether `hay` holds the characters of `q` from `a` up to `b`, from the
/// place `at` on.
fn occurs(hay: &Vec<char>, q: &Vec<char>, a: usize, b: usize, at: usize) -> (r: bool)
    requires
        a <= b <= q@.len(),
        at + (b - a) <= hay@.len(),
    ensures
        r == occurs_at(hay@, q@.subrange(a as int, b as int), at as int),
{
    let ghost needle = q@.subrange(a as int, b as int);
    let m: usize = b - a;
    let len: usize = hay.len();
    let mut k: usize = 0;
    while k < m
        invariant
            a <= b <= q@.len(),
            m == b - a,
            len == hay@.len(),
            at + m <= len,
            0 <= k <= m,
            needle == q@.subrange(a as int, b as int),
            forall|j: int| 0 <= j < k ==> hay@[at + j] == needle[j],
        decreases m - k,
    {
        if hay[at + k] != q[a + k] {
            assert(hay@.subrange(at as int, at + needle.len())[k as int] != needle[k as int]);
            return false;
        }
        k = k + 1;
    }
    assert(hay@.subrange(at as int, at + needle.len()) =~= needle);
    true
}

/// Whether `hay` holds the characters of `q` from `a` up to `b` somewhere.
fn contains_range(hay: &Vec<char>, q: &Vec<char>, a: usize, b: usize) -> (r: bool)
    requires
        a <= b <= q@.len(),
    ensures
        r == contains(hay@, q@.subrange(a as int, b as int)),
{
    let ghost needle = q@.subrange(a as int, b as int);
    let m: usize = b - a;
    if m > hay.len() {
        assert forall|at: int| !occurs_at(hay@, needle, at) by {}
        return false;
    }
    let last: usize = hay.len() - m;
    let mut at: usize = 0;
    loop
        invariant
            a <= b <= q@.len(),
            m == b - a,
            m <= hay@.len(),
            last == hay@.len() - m,
            0 <= at <= last,
            needle == q@.subrange(a as int, b as int),
            forall|j: int| 0 <= j < at ==> !occurs_at(hay@, needle, j),
        decreases last - at,
    {
        if occurs(hay, q, a, b, at) {
            return true;
        }
        if at == last {
            assert forall|j: int| !occurs_at(hay@, needle, j) by {}
            return false;
        }
        at = at + 1;
    }
}

/// Whether the text holds every word of the query, both taken as they stand.
pub fn holds_all_words(text: &Vec<char>, query: &Vec<char>) -> (r: bool)
    ensures
        r == holds_words(text@, query@),
{
    let n: usize = query.len();
    let mut i: usize = 0;
    while i < n
        invariant
            n == query@.len(),
            0 <= i <= n,
            i == 0 || i == n || is_space(query@[i - 1]) || is_space(query@[i as int]),
            forall|a: int, b: int|
                #[trigger] is_word(query@, a, b) && b <= i ==> contains(
                    text@,
                    query@.subrange(a, b),
                ),
        decreases n - i,
    {
        if space_char(query[i]) {
            proof {
                assert forall|a: int, b: int| #[trigger]
                    is_word(query@, a, b) && b <= i + 1 implies contains(
                    text@,
                    query@.subrange(a, b),
                ) by {
                    if b == i + 1 {
                        assert(!is_space(query@[i as int]));
                    }
                }
            }
            i = i + 1;
        } else {
            proof {
                if i > 0 && !is_space(query@[i - 1]) {
                    assert(false);
                }
            }
            let start: usize = i;
            let mut j: usize = i + 1;
            while j < n && !space_char(query[j])
                invariant
                    n == query@.len(),
                    start < j <= n,
                    forall|k: int| start <= k < j ==> !is_space(#[trigger] query@[k]),
                decreases n - j,
            {
                j = j + 1;
            }
            assert(is_word(query@, start as int, j as int));
            if !contains_range(text, query, start, j) {
                return false;
            }
            proof {
                assert forall|a: int, b: int| #[trigger]
                    is_word(query@, a, b) && b <= j implies contains(
                    text@,
                    query@.subrange(a, b),
                ) by {
                    if b > start {
                        // The word ends inside the run that was just checked,
                        // so it is that run.
                        assert(!is_space(query@[b - 1]));
                        if b < j {
                            assert(!is_space(query@[b as int]));
                        }
                        if a > start {
                            assert(!is_space(query@[a - 1]));
                        } else if a < start {
                            assert(!is_space(query@[start - 1]));
                        }
                    }
                }
            }
            i = j;
        }
    }
    true
}

/// Whether a window with this application id and this title answers the
/// query.
pub fn matches_query(query: &str, app_id: &str, title: &str) -> (r: bool)
    ensures
        r == is_match(query@, app_id@, title@),
{
    let q: Vec<char> = lowercase_chars(query);
    if q.len() == 0 {
        return true;
    }
    let id: Vec<char> = lowercase_chars(app_id);
    if holds_all_words(&id, &q) {
        return true;
    }
    let name: Vec<char> = lowercase_chars(title);
    holds_all_words(&name, &q)
}

} // verus!
