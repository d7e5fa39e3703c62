//! Small string utilities: case folding, case-insensitive matching, and
//! decimal rendering of integers.

use vstd::prelude::*;
use vstd::string::*;

verus! {

/// The sequence of characters that `str::to_lowercase` yields for `s`.
/// The folding is a fixed function of the characters alone, so it is only
/// named here; nothing else is assumed about it.
pub uninterp spec fn lower_of(s: Seq<char>) -> Seq<char>;

/// The first character that `char::to_lowercase` yields for `c`.
pub uninterp spec fn char_lower_of(c: char) -> char;

/// Relies on `str::to_lowercase`: the result is a function of the characters
/// of `s` alone.
#[verifier::external_body]
pub(crate) fn lowercase(s: &str) -> (r: String)
    ensures
        r@ == lower_of(s@),
{
    s.to_lowercase()
}

/// Relies on `char::to_lowercase`: the iterator always yields at least one
/// character, and its first element is a function of `c` alone.
#[verifier::external_body]
pub(crate) fn char_lowercase(c: char) -> (r: char)
    ensures
        r == char_lower_of(c),
{
    c.to_lowercase().next().unwrap()
}

/// Relies on `String::push`: appends exactly one character.
#[verifier::external_body]
pub(crate) fn push_char(s: &mut String, c: char)
    ensures
        final(s)@ == old(s)@.push(c),
{
    s.push(c);
}

/// Two character sequences are the same component when their case foldings
/// agree.
pub open spec fn ci_eq(a: Seq<char>, b: Seq<char>) -> bool {
    lower_of(a) == lower_of(b)
}

/// `pat` occurs in `hay` starting at position `i`.
pub open spec fn seq_contains_at(hay: Seq<char>, pat: Seq<char>, i: int) -> bool {
    &&& 0 <= i
    &&& i + pat.len() <= hay.len()
    &&& forall|j: int| 0 <= j < pat.len() ==> hay[i + j] == pat[j]
}

/// `pat` occurs somewhere in `hay` (an empty `pat` occurs everywhere).
pub open spec fn seq_has_sub(hay: Seq<char>, pat: Seq<char>) -> bool {
    exists|i: int| seq_contains_at(hay, pat, i)
}

/// The case folding of `haystack` occurs within the case folding of `needle`.
pub open spec fn spec_string_match(needle: Seq<char>, haystack: Seq<char>) -> bool {
    seq_has_sub(lower_of(needle), lower_of(haystack))
}

/// The characters of `s`, as a vector.
pub(crate) fn chars_of(s: &str) -> (r: Vec<char>)
    ensures
        r@ == s@,
{
    let n = s.unicode_len();
    let mut r: Vec<char> = Vec::new();
    let mut i: usize = 0;
    while i < n
        invariant
            n == s@.len(),
            i <= n,
            r@ == s@.take(i as int),
        decreases n - i,
    {
        let c = s.get_char(i);
        r.push(c);
        proof {
            assert(s@.take(i + 1 as int) =~= s@.take(i as int).push(s@[i as int]));
        }
        i = i + 1;
    }
    proof {
        assert(s@.take(n as int) =~= s@);
    }
    r
}

/// Whether `pat` occurs in `hay` as a contiguous run of characters.
fn contains_substring(hay: &String, pat: &String) -> (r: bool)
    ensures
        r == seq_has_sub(hay@, pat@),
{
    let h = chars_of(hay.as_str());
    let p = chars_of(pat.as_str());
    if p.len() > h.len() {
        assert(forall|i: int| !seq_contains_at(hay@, pat@, i));
        return false;
    }
    let hlen = h.len();
    let plen = p.len();
    let bound = hlen - plen;
    let mut i: usize = 0;
    while i <= bound
        invariant
            h@ == hay@,
            p@ == pat@,
            hlen == h@.len(),
            plen == p@.len(),
            bound == h@.len() - p@.len(),
            p@.len() <= h@.len(),
            forall|k: int| 0 <= k < i ==> !seq_contains_at(hay@, pat@, k),
        decreases bound + 1 - i,
    {
        let mut j: usize = 0;
        let mut matched = true;
        while j < plen
            invariant
                h@ == hay@,
                p@ == pat@,
                hlen == h@.len(),
                plen == p@.len(),
                i + plen <= hlen,
                j <= plen,
                matched == (forall|l: int| 0 <= l < j ==> hay@[i + l] == pat@[l]),
            decreases plen - j,
        {
            let idx = i + j;
            if h[idx] != p[j] {
                matched = false;
            }
            j = j + 1;
        }
        if matched {
            assert(seq_contains_at(hay@, pat@, i as int));
            return true;
        }
        i = i + 1;
    }
    assert forall|k: int| !seq_contains_at(hay@, pat@, k) by {
        if k > bound {
            assert(k + pat@.len() > hay@.len());
        }
    }
    false
}

/// Case-insensitive containment test: does the case folding of `haystack`
/// occur within the case folding of `needle`?
pub fn string_match(needle: String, haystack: String) -> (r: bool)
    ensures
        r == spec_string_match(needle@, haystack@),
{
    let nl = lowercase(needle.as_str());
    let hl = lowercase(haystack.as_str());
    contains_substring(&nl, &hl)
}

/// `string_match` on string slices.
pub fn string_match_str(needle: &str, haystack: &str) -> (r: bool)
    ensures
        r == spec_string_match(needle@, haystack@),
{
    string_match(String::from_str(needle), String::from_str(haystack))
}

/// Case-insensitive comparison of two single characters.
pub fn char_match(needle: char, haystack: char) -> (r: bool)
    ensures
        r == (char_lower_of(haystack) == char_lower_of(needle)),
{
    let nl = char_lowercase(needle);
    let hl = char_lowercase(haystack);
    hl == nl
}

/// A path written in UNC form starts with two backslashes.
pub open spec fn spec_path_is_unc(path: Seq<char>) -> bool {
    path.len() >= 2 && path[0] == '\\' && path[1] == '\\'
}

/// Whether `path` is a UNC path.
pub fn path_is_unc(path: &String) -> (r: bool)
    ensures
        r == spec_path_is_unc(path@),
{
    let s = path.as_str();
    if s.unicode_len() < 2 {
        return false;
    }
    let c0 = s.get_char(0);
    let c1 = s.get_char(1);
    c0 == '\\' && c1 == '\\'
}

/// `item` is allowed by `items`: an empty list allows everything, otherwise
/// `item` must be listed exactly.
pub open spec fn spec_match_list_or_all(item: Seq<char>, items: Seq<Seq<char>>) -> bool {
    items.len() == 0 || exists|i: int| 0 <= i < items.len() && items[i] == item
}

/// Whether `item` is allowed by the list `items` (empty list means "all").
pub fn match_list_or_all(item: &String, items: Vec<String>) -> (r: bool)
    ensures
        r == spec_match_list_or_all(item@, items@.map_values(|s: String| s@)),
{
    let ghost view_items = items@.map_values(|s: String| s@);
    if items.len() == 0 {
        return true;
    }
    let mut i: usize = 0;
    while i < items.len()
        invariant
            view_items == items@.map_values(|s: String| s@),
            i <= items@.len(),
            forall|k: int| 0 <= k < i ==> view_items[k] != item@,
        decreases items@.len() - i,
    {
        let x: &String = &items[i];
        if x.eq(item) {
            assert(view_items[i as int] == item@);
            return true;
        }
        i = i + 1;
    }
    false
}

/// Whether a record passes the extension allow-list; directories always do.
pub fn match_finfo_parser_extension(
    finfo_parser: &crate::paths::FileInfoParser,
    extensions: Vec<String>,
) -> (r: bool)
    ensures
        r == crate::paths::spec_match_extension(
            finfo_parser@,
            extensions@.map_values(|s: String| s@),
        ),
{
    finfo_parser.match_extension(extensions)
}


/// The decimal digit character for `d`.
pub open spec fn spec_digit(d: int) -> char {
    if d == 0 {
        '0'
    } else if d == 1 {
        '1'
    } else if d == 2 {
        '2'
    } else if d == 3 {
        '3'
    } else if d == 4 {
        '4'
    } else if d == 5 {
        '5'
    } else if d == 6 {
        '6'
    } else if d == 7 {
        '7'
    } else if d == 8 {
        '8'
    } else {
        '9'
    }
}

/// The decimal rendering of `n`, most significant digit first.
pub open spec fn spec_decimal(n: nat) -> Seq<char>
    decreases n,
{
    if n < 10 {
        seq![spec_digit(n as int)]
    } else {
        spec_decimal(n / 10).push(spec_digit((n % 10) as int))
    }
}

/// The digit character for `d`, which must be below ten.
fn digit_char(d: u64) -> (r: char)
    requires
        d < 10,
    ensures
        r == spec_digit(d as int),
{
    if d == 0 {
        '0'
    } else if d == 1 {
        '1'
    } else if d == 2 {
        '2'
    } else if d == 3 {
        '3'
    } else if d == 4 {
        '4'
    } else if d == 5 {
        '5'
    } else if d == 6 {
        '6'
    } else if d == 7 {
        '7'
    } else if d == 8 {
        '8'
    } else {
        '9'
    }
}

/// Renders `n` in decimal.
pub fn u64_to_decimal(n: u64) -> (r: String)
    ensures
        r@ == spec_decimal(n as nat),
    decreases n,
{
    if n < 10 {
        let mut s = String::new();
        push_char(&mut s, digit_char(n));
        proof {
            assert(s@ =~= seq![spec_digit(n as int)]);
        }
        s
    } else {
        let mut s = u64_to_decimal(n / 10);
        push_char(&mut s, digit_char(n % 10));
        s
    }
}

/// Every element of a filtered sequence occurs in the original.
pub proof fn lemma_filter_elements<A>(s: Seq<A>, p: spec_fn(A) -> bool)
    ensures
        forall|i: int| 0 <= i < s.filter(p).len() ==> s.contains(#[trigger] s.filter(p)[i]),
    decreases s.len(),
{
    reveal_with_fuel(Seq::filter, 2);
    if s.len() > 0 {
        lemma_filter_elements(s.drop_last(), p);
        assert forall|i: int| 0 <= i < s.filter(p).len() implies s.contains(s.filter(p)[i]) by {
            if i < s.drop_last().filter(p).len() {
                assert(s.filter(p)[i] == s.drop_last().filter(p)[i]);
                assert(s.drop_last().contains(s.drop_last().filter(p)[i]));
                let j = choose|j: int|
                    0 <= j < s.drop_last().len() && s.drop_last()[j] == s.drop_last().filter(p)[i];
                assert(s[j] == s.drop_last().filter(p)[i]);
            } else {
                assert(s.filter(p)[i] == s.last());
                assert(s[s.len() - 1] == s.last());
            }
        }
    }
}

/// A filter that holds of every element keeps the sequence unchanged.
pub proof fn lemma_filter_all<A>(s: Seq<A>, p: spec_fn(A) -> bool)
    requires
        forall|i: int| 0 <= i < s.len() ==> p(#[trigger] s[i]),
    ensures
        s.filter(p) == s,
    decreases s.len(),
{
    reveal_with_fuel(Seq::filter, 2);
    if s.len() == 0 {
        assert(s.filter(p) =~= s);
    } else {
        lemma_filter_all(s.drop_last(), p);
        assert(p(s.last()));
        assert(s.filter(p) =~= s.drop_last().push(s.last()));
        assert(s.drop_last().push(s.last()) =~= s);
    }
}

/// A filter that holds of no element leaves nothing.
pub proof fn lemma_filter_none<A>(s: Seq<A>, p: spec_fn(A) -> bool)
    requires
        forall|i: int| 0 <= i < s.len() ==> !p(#[trigger] s[i]),
    ensures
        s.filter(p) == Seq::<A>::empty(),
    decreases s.len(),
{
    reveal_with_fuel(Seq::filter, 2);
    if s.len() == 0 {
        assert(s.filter(p) =~= Seq::<A>::empty());
    } else {
        lemma_filter_none(s.drop_last(), p);
        assert(!p(s.last()));
        assert(s.filter(p) =~= Seq::<A>::empty());
    }
}

/// Filtering distributes over concatenation.
pub proof fn lemma_filter_concat<A>(a: Seq<A>, b: Seq<A>, p: spec_fn(A) -> bool)
    ensures
        (a + b).filter(p) == a.filter(p) + b.filter(p),
    decreases b.len(),
{
    reveal_with_fuel(Seq::filter, 2);
    if b.len() == 0 {
        assert(a + b =~= a);
        assert(a + b == a);
        assert(b.filter(p) =~= Seq::<A>::empty());
        assert(a.filter(p) + b.filter(p) =~= a.filter(p));
    } else {
        lemma_filter_concat(a, b.drop_last(), p);
        assert((a + b).drop_last() =~= a + b.drop_last());
        assert((a + b).drop_last() == a + b.drop_last());
        assert((a + b).last() == b.last());
        if p(b.last()) {
            assert(b.filter(p) =~= b.drop_last().filter(p).push(b.last()));
            assert((a + b).filter(p) =~= (a + b.drop_last()).filter(p).push(b.last()));
            assert(a.filter(p) + b.filter(p) =~= (a.filter(p) + b.drop_last().filter(p)).push(
                b.last(),
            ));
        } else {
            assert(b.filter(p) =~= b.drop_last().filter(p));
            assert((a + b).filter(p) =~= (a + b.drop_last()).filter(p));
        }
        assert((a + b).filter(p) =~= a.filter(p) + b.filter(p));
    }
}


} // verus!
