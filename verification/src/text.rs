//! Occurrences of one text inside another.

use vstd::prelude::*;

verus! {

/// `needle` occurs in `hay` starting at position `k`.
pub open spec fn occurs_at(hay: Seq<char>, needle: Seq<char>, k: int) -> bool {
    &&& 0 <= k
    &&& k + needle.len() <= hay.len()
    &&& hay.subrange(k, k + needle.len()) == needle
}

/// `needle` occurs somewhere in `hay`.
pub open spec fn contains_text(hay: Seq<char>, needle: Seq<char>) -> bool {
    exists|k: int| occurs_at(hay, needle, k)
}

/// `hay` ends with `needle`.
pub open spec fn ends_with(hay: Seq<char>, needle: Seq<char>) -> bool {
    occurs_at(hay, needle, hay.len() - needle.len())
}

/// A text occurs in itself at its start.
pub proof fn lemma_occurs_self(s: Seq<char>)
    ensures
        occurs_at(s, s, 0),
{
    assert(s.subrange(0, s.len() as int) =~= s);
}

/// An occurrence stays where it is when text is appended.
pub proof fn lemma_occurs_in_prefix(a: Seq<char>, b: Seq<char>, needle: Seq<char>, k: int)
    requires
        occurs_at(a, needle, k),
    ensures
        occurs_at(a + b, needle, k),
{
    assert((a + b).subrange(k, k + needle.len()) =~= a.subrange(k, k + needle.len()));
}

/// An occurrence moves by the length of what is put before it.
pub proof fn lemma_occurs_in_suffix(a: Seq<char>, b: Seq<char>, needle: Seq<char>, k: int)
    requires
        occurs_at(b, needle, k),
    ensures
        occurs_at(a + b, needle, a.len() + k),
{
    assert((a + b).subrange(a.len() + k, a.len() + k + needle.len()) =~= b.subrange(
        k,
        k + needle.len(),
    ));
}

/// A text that occurs in a text that occurs in `hay` occurs in `hay`.
pub proof fn lemma_occurs_trans(hay: Seq<char>, mid: Seq<char>, needle: Seq<char>, i: int, j: int)
    requires
        occurs_at(hay, mid, i),
        occurs_at(mid, needle, j),
    ensures
        occurs_at(hay, needle, i + j),
{
    assert(hay.subrange(i + j, i + j + needle.len()) =~= mid.subrange(j, j + needle.len()));
}

/// The middle part of a three-part text occurs after the first part.
pub proof fn lemma_occurs_between(a: Seq<char>, b: Seq<char>, c: Seq<char>)
    ensures
        occurs_at(a + b + c, b, a.len() as int),
{
    lemma_occurs_self(b);
    lemma_occurs_in_suffix(a, b, b, 0);
    lemma_occurs_in_prefix(a + b, c, b, a.len() as int);
}

/// `s` holds the character `c`.
pub open spec fn has_char(s: Seq<char>, c: char) -> bool {
    exists|i: int| 0 <= i < s.len() && #[trigger] s[i] == c
}

/// A character is in a concatenation exactly when it is in one of its parts.
pub broadcast proof fn lemma_has_char_concat(a: Seq<char>, b: Seq<char>, c: char)
    ensures
        #[trigger] has_char(a + b, c) <==> has_char(a, c) || has_char(b, c),
{
    let s = a + b;
    if has_char(s, c) {
        let i = choose|i: int| 0 <= i < s.len() && #[trigger] s[i] == c;
        if i < a.len() {
            assert(a[i] == c);
        } else {
            assert(b[i - a.len()] == c);
        }
    }
    if has_char(a, c) {
        let i = choose|i: int| 0 <= i < a.len() && #[trigger] a[i] == c;
        assert(s[i] == c);
    }
    if has_char(b, c) {
        let i = choose|i: int| 0 <= i < b.len() && #[trigger] b[i] == c;
        assert(s[a.len() + i] == c);
    }
}

/// `t` holds a highlight item `%#G#` from position `k` to the `#` at `j`
/// that closes it: the group `G` is `t[k + 2 .. j]`.
pub open spec fn is_group_item(t: Seq<char>, k: int, j: int) -> bool {
    &&& 0 <= k
    &&& k + 2 <= j < t.len()
    &&& t[k] == '%'
    &&& t[k + 1] == '#'
    &&& t[j] == '#'
    &&& forall|m: int| k + 2 <= m < j ==> t[m] != '#'
}

/// `s` ends inside a highlight item: a `%#` with no `#` after it.
pub open spec fn has_open_item(s: Seq<char>) -> bool {
    exists|k: int|
        0 <= k && k + 2 <= s.len() && #[trigger] s[k] == '%' && s[k + 1] == '#' && forall|m: int|
            k + 2 <= m < s.len() ==> s[m] != '#'
}

/// `s` ends with `%`.
pub open spec fn ends_with_percent(s: Seq<char>) -> bool {
    s.len() > 0 && s.last() == '%'
}

/// No `%` of `s` is followed, inside `s`, by a `#`.
pub open spec fn no_item_start(s: Seq<char>) -> bool {
    forall|i: int| 0 <= i && i + 1 < s.len() && #[trigger] s[i] == '%' ==> s[i + 1] != '#'
}

/// Every highlight item of `s` names a group that `good` accepts, and `s`
/// ends outside any item and not on a `%`.
#[verifier::opaque]
pub open spec fn items_closed(s: Seq<char>, good: spec_fn(Seq<char>) -> bool) -> bool {
    &&& forall|k: int, j: int| #[trigger] is_group_item(s, k, j) ==> good(s.subrange(k + 2, j))
    &&& !has_open_item(s)
    &&& !ends_with_percent(s)
}

/// The empty text has no items.
pub proof fn lemma_items_closed_empty(good: spec_fn(Seq<char>) -> bool)
    ensures
        items_closed(Seq::empty(), good),
{
    reveal(items_closed);
}

/// Appending text that starts no item keeps every item closed.
pub proof fn lemma_items_closed_payload(s: Seq<char>, p: Seq<char>, good: spec_fn(Seq<char>) -> bool)
    requires
        items_closed(s, good),
        no_item_start(p),
        !ends_with_percent(p),
    ensures
        items_closed(s + p, good),
{
    reveal(items_closed);
    let t = s + p;
    let a = s.len() as int;
    assert forall|k: int, j: int| #[trigger] is_group_item(t, k, j) implies good(
        t.subrange(k + 2, j),
    ) by {
        if k >= a {
            assert(p[k - a] == '%' && p[k - a + 1] == '#');
        } else if k == a - 1 {
            assert(s.last() == t[k]);
        } else {
            if j >= a {
                assert(s[k] == t[k] && s[k + 1] == t[k + 1]);
                assert forall|m: int| k + 2 <= m < s.len() implies s[m] != '#' by {
                    assert(s[m] == t[m]);
                }
                assert(has_open_item(s));
            } else {
                assert forall|m: int| k + 2 <= m < j implies s[m] != '#' by {
                    assert(s[m] == t[m]);
                }
                assert(is_group_item(s, k, j));
                assert(t.subrange(k + 2, j) =~= s.subrange(k + 2, j));
            }
        }
    }
    if has_open_item(t) {
        let k = choose|k: int|
            0 <= k && k + 2 <= t.len() && #[trigger] t[k] == '%' && t[k + 1] == '#' && forall|
                m: int,
            |
                k + 2 <= m < t.len() ==> t[m] != '#';
        if k >= a {
            assert(p[k - a] == '%' && p[k - a + 1] == '#');
        } else if k == a - 1 {
            assert(s.last() == t[k]);
        } else {
            assert(s[k] == t[k] && s[k + 1] == t[k + 1]);
            assert forall|m: int| k + 2 <= m < s.len() implies s[m] != '#' by {
                assert(s[m] == t[m]);
            }
            assert(has_open_item(s));
        }
    }
    if p.len() > 0 {
        assert(t.last() == p.last());
    } else {
        assert(t =~= s);
    }
}

/// Appending a whole item `%#G#` whose group is accepted keeps every item
/// closed.
pub proof fn lemma_items_closed_item(s: Seq<char>, g: Seq<char>, good: spec_fn(Seq<char>) -> bool)
    requires
        items_closed(s, good),
        good(g),
        !has_char(g, '#'),
        !has_char(g, '%'),
    ensures
        items_closed(s + seq!['%', '#'] + g + seq!['#'], good),
{
    reveal(items_closed);
    let t = s + seq!['%', '#'] + g + seq!['#'];
    let a = s.len() as int;
    let e = a + 2 + g.len();
    assert(t.len() == e + 1);
    assert(t[a] == '%' && t[a + 1] == '#' && t[e] == '#');
    assert forall|i: int| 0 <= i < g.len() implies t[a + 2 + i] == g[i] && g[i] != '#' && g[i]
        != '%' by {
        if g[i] == '#' {
            assert(has_char(g, '#'));
        }
        if g[i] == '%' {
            assert(has_char(g, '%'));
        }
    }
    assert forall|i: int| 0 <= i < a implies t[i] == s[i] by {}
    assert forall|k: int, j: int| #[trigger] is_group_item(t, k, j) implies good(
        t.subrange(k + 2, j),
    ) by {
        if j < a {
            assert forall|m: int| k + 2 <= m < j implies s[m] != '#' by {
                assert(s[m] == t[m]);
            }
            assert(is_group_item(s, k, j));
            assert(t.subrange(k + 2, j) =~= s.subrange(k + 2, j));
        } else if j == a + 1 {
            if k == a - 1 {
                assert(t[k + 1] == '%');
            } else {
                assert(s[k] == t[k] && s[k + 1] == t[k + 1]);
                assert forall|m: int| k + 2 <= m < s.len() implies s[m] != '#' by {
                    assert(s[m] == t[m]);
                }
                assert(has_open_item(s));
            }
        } else if a + 2 <= j < e {
            assert(t[j] == g[j - a - 2]);
        } else {
            assert(j == e);
            if k < a {
                assert(t[a + 1] == '#');
            } else if k == a {
                assert(t.subrange(k + 2, j) =~= g);
            } else if k == a + 1 {
            } else {
                assert(t[k] == g[k - a - 2]);
            }
        }
    }
    if has_open_item(t) {
        let k = choose|k: int|
            0 <= k && k + 2 <= t.len() && #[trigger] t[k] == '%' && t[k + 1] == '#' && forall|
                m: int,
            |
                k + 2 <= m < t.len() ==> t[m] != '#';
        if k + 2 <= e {
            assert(t[e] == '#');
        } else if g.len() > 0 {
            assert(t[k] == g[g.len() - 1]);
        } else {
            assert(t[k] == '#');
        }
    }
}

/// The characters that close a word of the tab line: space, `%`, `#`, `@`.
pub open spec fn is_break_char(c: char) -> bool {
    c == ' ' || c == '%' || c == '#' || c == '@'
}

/// `n` holds no break character.
pub open spec fn free_of_breaks(n: Seq<char>) -> bool {
    forall|i: int| 0 <= i < n.len() ==> !is_break_char(#[trigger] n[i])
}

/// Where `a` meets `b` stands a break character (or one of them is empty).
pub open spec fn break_between(a: Seq<char>, b: Seq<char>) -> bool {
    a.len() == 0 || b.len() == 0 || is_break_char(a.last()) || is_break_char(b[0])
}

/// A text free of breaks that occurs in neither of two parts meeting at a
/// break does not occur in their concatenation.
pub proof fn lemma_avoid_concat(a: Seq<char>, b: Seq<char>, n: Seq<char>)
    requires
        n.len() > 0,
        free_of_breaks(n),
        !contains_text(a, n),
        !contains_text(b, n),
        break_between(a, b),
    ensures
        !contains_text(a + b, n),
{
    let t = a + b;
    if contains_text(t, n) {
        let k = choose|k: int| occurs_at(t, n, k);
        let la = a.len() as int;
        if k + n.len() <= la {
            assert(a.subrange(k, k + n.len()) =~= t.subrange(k, k + n.len()));
            assert(occurs_at(a, n, k));
        } else if k >= la {
            assert(b.subrange(k - la, k - la + n.len()) =~= t.subrange(k, k + n.len()));
            assert(occurs_at(b, n, k - la));
        } else {
            assert(t.subrange(k, k + n.len())[la - 1 - k] == t[la - 1]);
            assert(t.subrange(k, k + n.len())[la - k] == t[la]);
            assert(n[la - 1 - k] == a.last());
            assert(n[la - k] == b[0]);
        }
    }
}

/// A text that lacks the first character of `n` does not contain `n`.
pub proof fn lemma_avoid_without_first(h: Seq<char>, n: Seq<char>)
    requires
        n.len() > 0,
        !has_char(h, n[0]),
    ensures
        !contains_text(h, n),
{
    if contains_text(h, n) {
        let k = choose|k: int| occurs_at(h, n, k);
        assert(h.subrange(k, k + n.len())[0] == h[k]);
    }
}

} // verus!
