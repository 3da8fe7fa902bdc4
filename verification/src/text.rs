//! Text operations on character sequences: cutting at a separator, trimming
//! white space, ASCII lower-casing and prefix tests.

use vstd::prelude::*;

verus! {

/// Whether `c` has the Unicode property White_Space.
pub open spec fn whitespace(c: char) -> bool {
    ||| ('\u{9}' <= c && c <= '\u{d}')
    ||| c == ' '
    ||| c == '\u{85}'
    ||| c == '\u{a0}'
    ||| c == '\u{1680}'
    ||| ('\u{2000}' <= c && c <= '\u{200a}')
    ||| c == '\u{2028}'
    ||| c == '\u{2029}'
    ||| c == '\u{202f}'
    ||| c == '\u{205f}'
    ||| c == '\u{3000}'
}

/// Whether `c` is white space.
pub fn is_whitespace(c: char) -> (b: bool)
    ensures
        b == whitespace(c),
{
    ('\u{9}' <= c && c <= '\u{d}') || c == ' ' || c == '\u{85}' || c == '\u{a0}' || c == '\u{1680}'
        || ('\u{2000}' <= c && c <= '\u{200a}') || c == '\u{2028}' || c == '\u{2029}' || c
        == '\u{202f}' || c == '\u{205f}' || c == '\u{3000}'
}

/// Calls `String::push`, which appends one character to the string.
#[verifier::external_body]
pub(crate) fn push_char(s: &mut String, c: char)
    ensures
        final(s)@ == old(s)@.push(c),
{
    s.push(c)
}

/// `i` is where `c` first stands in `s`, or the length of `s` if it never does.
pub open spec fn is_first_index(s: Seq<char>, c: char, i: int) -> bool {
    &&& 0 <= i <= s.len()
    &&& forall|j: int| 0 <= j < i ==> s[j] != c
    &&& i < s.len() ==> s[i] == c
}

/// Where `c` first stands in `s`, or the length of `s` if it never does.
pub open spec fn first_index(s: Seq<char>, c: char) -> int {
    choose|i: int| is_first_index(s, c, i)
}

/// The part of `s` in front of the first `c`; all of `s` without a `c`.
pub open spec fn before(s: Seq<char>, c: char) -> Seq<char> {
    s.subrange(0, first_index(s, c))
}

/// `c` stands somewhere in `s`.
pub open spec fn has(s: Seq<char>, c: char) -> bool {
    0 <= first_index(s, c) < s.len()
}

/// The part of `s` behind the first `c`; empty without a `c`.
pub open spec fn after(s: Seq<char>, c: char) -> Seq<char> {
    if has(s, c) {
        s.subrange(first_index(s, c) + 1, s.len() as int)
    } else {
        Seq::empty()
    }
}

/// `i` leading characters of `s` are white space and the next one is not.
pub open spec fn is_lead(s: Seq<char>, i: int) -> bool {
    &&& 0 <= i <= s.len()
    &&& forall|j: int| 0 <= j < i ==> whitespace(s[j])
    &&& i < s.len() ==> !whitespace(s[i])
}

/// Number of leading white-space characters of `s`.
pub open spec fn lead(s: Seq<char>) -> int {
    choose|i: int| is_lead(s, i)
}

/// Everything of `s` from `i` on is white space and the character before is not.
pub open spec fn is_body(s: Seq<char>, i: int) -> bool {
    &&& 0 <= i <= s.len()
    &&& forall|j: int| i <= j < s.len() ==> whitespace(s[j])
    &&& i > 0 ==> !whitespace(s[i - 1])
}

/// Length of `s` without its trailing white space.
pub open spec fn body(s: Seq<char>) -> int {
    choose|i: int| is_body(s, i)
}

/// `s` without leading and trailing white space.
pub open spec fn trim(s: Seq<char>) -> Seq<char> {
    let t = s.subrange(lead(s), s.len() as int);
    t.subrange(0, body(t))
}

/// The lower-case form of an ASCII capital; any other character unchanged.
pub open spec fn lower_char(c: char) -> char {
    if 'A' <= c && c <= 'Z' {
        ((c as u8) + 32) as char
    } else {
        c
    }
}

/// `s` with every ASCII capital in lower case.
pub open spec fn lower(s: Seq<char>) -> Seq<char> {
    Seq::new(s.len(), |i: int| lower_char(s[i]))
}

/// `p` is a prefix of `s`.
pub open spec fn is_prefix(p: Seq<char>, s: Seq<char>) -> bool {
    p.len() <= s.len() && s.subrange(0, p.len() as int) == p
}

/// The text of a string that may be absent.
pub open spec fn option_text(o: Option<String>) -> Option<Seq<char>> {
    match o {
        Some(s) => Some(s@),
        None => None,
    }
}

/// The text of a string slice that may be absent.
pub open spec fn option_str_text(o: Option<&str>) -> Option<Seq<char>> {
    match o {
        Some(s) => Some(s@),
        None => None,
    }
}

/// The first index of a character is determined by its defining property.
pub proof fn lemma_first_index(s: Seq<char>, c: char, i: int)
    requires
        is_first_index(s, c, i),
    ensures
        first_index(s, c) == i,
{
    let k = first_index(s, c);
    assert(is_first_index(s, c, k));
    if k < i {
        assert(s[k] != c);
    } else if i < k {
        assert(s[i] != c);
    }
}

/// The count of leading white space is determined by its defining property.
pub proof fn lemma_lead(s: Seq<char>, i: int)
    requires
        is_lead(s, i),
    ensures
        lead(s) == i,
{
    let k = lead(s);
    assert(is_lead(s, k));
    if k < i {
        assert(whitespace(s[k]));
    } else if i < k {
        assert(whitespace(s[i]));
    }
}

/// The length without trailing white space is determined by its defining property.
pub proof fn lemma_body(s: Seq<char>, i: int)
    requires
        is_body(s, i),
    ensures
        body(s) == i,
{
    let k = body(s);
    assert(is_body(s, k));
    if k < i {
        assert(whitespace(s[i - 1]));
    } else if i < k {
        assert(whitespace(s[k - 1]));
    }
}

/// Whether two texts hold the same characters.
pub fn same_text(a: &str, b: &str) -> (r: bool)
    ensures
        r == (a@ == b@),
{
    let x = a.to_owned();
    let y = b.to_owned();
    x == y
}

/// Where `c` first stands in `s`, in characters; the length of `s` without one.
pub fn find_char(s: &str, c: char) -> (i: usize)
    ensures
        i == first_index(s@, c),
        is_first_index(s@, c, i as int),
{
    let n = s.unicode_len();
    let mut i: usize = 0;
    while i < n
        invariant
            n == s@.len(),
            i <= n,
            forall|j: int| 0 <= j < i ==> s@[j] != c,
        decreases n - i,
    {
        if s.get_char(i) == c {
            proof {
                lemma_first_index(s@, c, i as int);
            }
            return i;
        }
        i += 1;
    }
    proof {
        lemma_first_index(s@, c, i as int);
    }
    i
}

/// The part of `s` in front of the first `c`.
pub fn split_before(s: &str, c: char) -> (r: &str)
    ensures
        r@ == before(s@, c),
{
    let i = find_char(s, c);
    s.substring_char(0, i)
}

/// The part of `s` behind the first `c`, if there is a `c`.
pub fn split_after(s: &str, c: char) -> (r: Option<&str>)
    ensures
        r is Some <==> has(s@, c),
        r matches Some(t) ==> t@ == after(s@, c) && t@.len() < s@.len(),
{
    let n = s.unicode_len();
    let i = find_char(s, c);
    if i < n {
        Some(s.substring_char(i + 1, n))
    } else {
        None
    }
}

/// `s` without leading and trailing white space.
pub fn trimmed(s: &str) -> (r: &str)
    ensures
        r@ == trim(s@),
{
    let n = s.unicode_len();
    let mut a: usize = 0;
    while a < n && is_whitespace(s.get_char(a))
        invariant
            n == s@.len(),
            a <= n,
            forall|j: int| 0 <= j < a ==> whitespace(s@[j]),
        decreases n - a,
    {
        a += 1;
    }
    let mut e: usize = n;
    while e > a && is_whitespace(s.get_char(e - 1))
        invariant
            n == s@.len(),
            a <= e <= n,
            forall|j: int| e <= j < n ==> whitespace(s@[j]),
        decreases e,
    {
        e -= 1;
    }
    proof {
        lemma_lead(s@, a as int);
        let t = s@.subrange(a as int, n as int);
        assert(is_body(t, e - a)) by {
            assert forall|j: int| e - a <= j < t.len() implies whitespace(t[j]) by {
                assert(t[j] == s@[j + a]);
            }
            if e > a {
                assert(t[e - a - 1] == s@[e - 1]);
            }
        }
        lemma_body(t, e - a);
        assert(t.subrange(0, e - a) =~= s@.subrange(a as int, e as int));
    }
    s.substring_char(a, e)
}

/// The lower-case form of an ASCII capital; any other character unchanged.
pub fn lowercase_char(c: char) -> (r: char)
    ensures
        r == lower_char(c),
{
    if 'A' <= c && c <= 'Z' {
        let b: u8 = c as u8;
        (b + 32) as char
    } else {
        c
    }
}

/// `s` with every ASCII capital in lower case.
pub fn lowercase(s: &str) -> (r: String)
    ensures
        r@ == lower(s@),
{
    let n = s.unicode_len();
    let mut out = String::new();
    let mut i: usize = 0;
    while i < n
        invariant
            n == s@.len(),
            i <= n,
            out@ == lower(s@).subrange(0, i as int),
        decreases n - i,
    {
        let c = lowercase_char(s.get_char(i));
        push_char(&mut out, c);
        assert(out@ =~= lower(s@).subrange(0, i + 1));
        i += 1;
    }
    assert(out@ =~= lower(s@));
    out
}

/// Whether `s` begins with `p`.
pub fn starts_with(s: &str, p: &str) -> (r: bool)
    ensures
        r == is_prefix(p@, s@),
{
    let n = s.unicode_len();
    let m = p.unicode_len();
    if m > n {
        false
    } else {
        same_text(s.substring_char(0, m), p)
    }
}

} // verus!
