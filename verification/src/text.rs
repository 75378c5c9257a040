//! Small operations on texts that the commands need.

use vstd::prelude::*;
use crate::state::texts_view;

verus! {

/// Whether `s` begins with `prefix`.
pub open spec fn has_prefix(s: Seq<char>, prefix: Seq<char>) -> bool {
    prefix.len() <= s.len() && s.subrange(0, prefix.len() as int) == prefix
}

/// Whether `s` begins with `prefix`.
pub fn starts_with(s: &str, prefix: &str) -> (r: bool)
    ensures
        r == has_prefix(s@, prefix@),
{
    let n = prefix.unicode_len();
    let m = s.unicode_len();
    if n > m {
        return false;
    }
    let mut i: usize = 0;
    while i < n
        invariant
            n == prefix@.len(),
            m == s@.len(),
            n <= m,
            i <= n,
            forall|j: int| 0 <= j < i ==> s@[j] == prefix@[j],
        decreases n - i,
    {
        if s.get_char(i) != prefix.get_char(i) {
            assert(s@.subrange(0, n as int)[i as int] != prefix@[i as int]);
            return false;
        }
        i = i + 1;
    }
    assert(s@.subrange(0, n as int) =~= prefix@);
    true
}

/// Whether `list` holds a text equal to `s`.
pub fn contains_text(list: &Vec<String>, s: &String) -> (r: bool)
    ensures
        r == texts_view(list@).contains(s@),
{
    let mut i: usize = 0;
    while i < list.len()
        invariant
            i <= list@.len(),
            forall|j: int| 0 <= j < i ==> list@[j]@ != s@,
        decreases list@.len() - i,
    {
        if list[i] == *s {
            assert(texts_view(list@)[i as int] == s@);
            return true;
        }
        i = i + 1;
    }
    assert forall|j: int| 0 <= j < texts_view(list@).len() implies texts_view(list@)[j] != s@ by {
        assert(list@[j]@ != s@);
    }
    false
}

/// The texts joined with `sep` between each two.
pub open spec fn join_texts(parts: Seq<Seq<char>>, sep: Seq<char>) -> Seq<char>
    decreases parts.len(),
{
    if parts.len() == 0 {
        Seq::empty()
    } else if parts.len() == 1 {
        parts[0]
    } else {
        join_texts(parts.drop_last(), sep) + sep + parts.last()
    }
}

/// `s` begins with `prefix` exactly when `s` is `prefix` followed by some rest.
pub proof fn prefix_means_followed_by_rest(s: Seq<char>, prefix: Seq<char>)
    ensures
        has_prefix(s, prefix) <==> exists|rest: Seq<char>| s == prefix + rest,
{
    if has_prefix(s, prefix) {
        let rest = s.subrange(prefix.len() as int, s.len() as int);
        assert(s =~= prefix + rest);
    }
    if exists|rest: Seq<char>| s == prefix + rest {
        let rest = choose|rest: Seq<char>| s == prefix + rest;
        assert(s.subrange(0, prefix.len() as int) =~= prefix);
    }
}

/// Joining puts the separator between each two texts and nowhere else:
/// nothing joins to the empty text, one text joins to itself, and one more
/// text adds the separator and that text at the end.
pub proof fn join_puts_separator_between(parts: Seq<Seq<char>>, sep: Seq<char>, x: Seq<char>)
    ensures
        join_texts(Seq::empty(), sep) == Seq::<char>::empty(),
        join_texts(seq![x], sep) == x,
        parts.len() > 0 ==> join_texts(parts.push(x), sep) == join_texts(parts, sep) + sep + x,
{
    assert(seq![x].len() == 1);
    if parts.len() > 0 {
        assert(parts.push(x).drop_last() =~= parts);
    }
}

/// What `str::to_lowercase` returns for a text: its Unicode lowercase mapping.
pub uninterp spec fn lowercase_of(s: Seq<char>) -> Seq<char>;

/// The lowercase form of `s`, by `str::to_lowercase`. The contract claims
/// that the result is `lowercase_of` of the text and that, for ASCII
/// letters, lowercasing maps `A`..`Z` to `a`..`z` and leaves every other
/// ASCII character as it is.
#[verifier::external_body]
pub(crate) fn to_lowercase(s: &str) -> (r: String)
    ensures
        r@ == lowercase_of(s@),
        (forall|i: int| 0 <= i < s@.len() ==> (s@[i] as u32) < 128) ==> r@ == s@.map_values(
            |c: char| if 'A' <= c <= 'Z' { ((c as u32) + 32) as char } else { c },
        ),
{
    s.to_lowercase()
}

} // verus!
