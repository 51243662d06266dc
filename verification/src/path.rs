//! Unix path handling: the final component of a path.
//!
//! Paths follow Unix syntax on every platform: `/` is the only separator
//! and there are no drive or UNC prefixes.

use vstd::prelude::*;

verus! {

/// The number of characters after the last `/` of `s` (all of `s` when it
/// holds no `/`).
pub open spec fn segment_len(s: Seq<char>) -> nat
    decreases s.len(),
{
    if s.len() == 0 || s.last() == '/' {
        0
    } else {
        1 + segment_len(s.drop_last())
    }
}

pub proof fn lemma_segment_len_bounded(s: Seq<char>)
    ensures
        segment_len(s) <= s.len(),
        s.len() > 0 && s.last() != '/' ==> segment_len(s) >= 1,
    decreases s.len(),
{
    if s.len() > 0 && s.last() != '/' {
        lemma_segment_len_bounded(s.drop_last());
    }
}

/// The final component of a Unix path, the way `std::path::Path::file_name`
/// sees it: separators at the end and `.` components are skipped, a final
/// `..` has no name, and a path made only of separators and `.` has none.
pub open spec fn file_name_of(s: Seq<char>) -> Option<Seq<char>>
    decreases s.len(),
{
    if s.len() == 0 {
        None
    } else if s.last() == '/' {
        file_name_of(s.drop_last())
    } else {
        let k = segment_len(s);
        let seg = s.subrange(s.len() - k, s.len() as int);
        if seg == seq!['.'] {
            proof {
                lemma_segment_len_bounded(s);
            }
            file_name_of(s.subrange(0, s.len() - k))
        } else if seg == seq!['.', '.'] {
            None
        } else {
            Some(seg)
        }
    }
}

/// `segment_len` is the length of the run of non-separators at the end.
proof fn lemma_segment_len_run(s: Seq<char>, k: int)
    requires
        0 <= k <= s.len(),
        forall|i: int| s.len() - k <= i < s.len() ==> s[i] != '/',
        k == s.len() || s[s.len() - k - 1] == '/',
    ensures
        segment_len(s) == k,
    decreases k,
{
    if k > 0 {
        let t = s.drop_last();
        assert forall|i: int| t.len() - (k - 1) <= i < t.len() implies t[i] != '/' by {
            assert(t[i] == s[i]);
        }
        lemma_segment_len_run(t, k - 1);
    }
}

/// Returns the final component of `path`, as `Path::file_name` does on Unix.
pub fn file_name(path: &str) -> (r: Option<&str>)
    ensures
        match r {
            Some(name) => file_name_of(path@) == Some(name@),
            None => file_name_of(path@) is None,
        },
{
    let n = path.unicode_len();
    let mut end: usize = n;
    assert(path@.subrange(0, n as int) =~= path@);
    loop
        invariant
            n == path@.len(),
            end <= n,
            file_name_of(path@.subrange(0, end as int)) == file_name_of(path@),
        decreases end,
    {
        let ghost s = path@.subrange(0, end as int);
        if end == 0 {
            return None;
        }
        let c = path.get_char(end - 1);
        if c == '/' {
            assert(s.drop_last() =~= path@.subrange(0, end - 1));
            end = end - 1;
        } else {
            let mut start: usize = end - 1;
            while start > 0 && path.get_char(start - 1) != '/'
                invariant
                    n == path@.len(),
                    start < end <= n,
                    forall|i: int| start <= i < end ==> path@[i] != '/',
                decreases start,
            {
                start = start - 1;
            }
            proof {
                assert forall|i: int| s.len() - (end - start) <= i < s.len() implies s[i] != '/' by {
                    assert(s[i] == path@[i]);
                }
                if start > 0 {
                    assert(s[s.len() - (end - start) - 1] == path@[start - 1]);
                }
                lemma_segment_len_run(s, (end - start) as int);
                assert(s.subrange(s.len() - (end - start), s.len() as int) =~= path@.subrange(
                    start as int,
                    end as int,
                ));
            }
            let seg_len: usize = end - start;
            if seg_len == 1 && c == '.' {
                assert(path@.subrange(start as int, end as int) =~= seq!['.']);
                assert(s.subrange(0, s.len() - 1) =~= path@.subrange(0, start as int));
                end = start;
            } else if seg_len == 2 && c == '.' && path.get_char(start) == '.' {
                assert(path@.subrange(start as int, end as int) =~= seq!['.', '.']);
                return None;
            } else {
                let name = path.substring_char(start, end);
                proof {
                    if seg_len == 1 {
                        assert(path@.subrange(start as int, end as int)[0] == c);
                    }
                    if seg_len == 2 && c == '.' {
                        assert(path@.subrange(start as int, end as int)[0] == path@[start as int]);
                    }
                }
                return Some(name);
            }
        }
    }
}

/// A name that is its own final component: not empty, free of `/`, and
/// neither `.` nor `..`.
pub open spec fn is_plain_name(n: Seq<char>) -> bool {
    &&& n.len() > 0
    &&& forall|i: int| 0 <= i < n.len() ==> n[i] != '/'
    &&& n != seq!['.']
    &&& n != seq!['.', '.']
}

proof fn lemma_segment_has_no_separator(s: Seq<char>)
    ensures
        forall|i: int| s.len() - segment_len(s) <= i < s.len() ==> s[i] != '/',
    decreases s.len(),
{
    if s.len() > 0 && s.last() != '/' {
        let t = s.drop_last();
        lemma_segment_len_bounded(s);
        lemma_segment_has_no_separator(t);
        assert forall|i: int| s.len() - segment_len(s) <= i < s.len() implies s[i] != '/' by {
            if i < s.len() - 1 {
                assert(s[i] == t[i]);
            }
        }
    }
}

/// Whatever name a path has is a plain name.
pub proof fn lemma_file_name_is_plain(s: Seq<char>)
    ensures
        file_name_of(s) matches Some(n) ==> is_plain_name(n),
    decreases s.len(),
{
    if s.len() == 0 {
    } else if s.last() == '/' {
        lemma_file_name_is_plain(s.drop_last());
    } else {
        let k = segment_len(s);
        lemma_segment_len_bounded(s);
        lemma_segment_has_no_separator(s);
        let seg = s.subrange(s.len() - k, s.len() as int);
        if seg == seq!['.'] {
            lemma_file_name_is_plain(s.subrange(0, s.len() - k));
        } else if seg != seq!['.', '.'] {
            assert forall|i: int| 0 <= i < seg.len() implies seg[i] != '/' by {
                assert(seg[i] == s[s.len() - k + i]);
            }
        }
    }
}

/// A path that ends in a plain name, after a separator or alone, has that
/// name as its final component.
pub proof fn lemma_file_name_of_last_component(dir: Seq<char>, n: Seq<char>)
    requires
        is_plain_name(n),
        dir.len() == 0 || dir.last() == '/',
    ensures
        file_name_of(dir + n) == Some(n),
{
    let s = dir + n;
    assert forall|i: int| s.len() - n.len() <= i < s.len() implies s[i] != '/' by {
        assert(s[i] == n[i - dir.len()]);
    }
    if dir.len() > 0 {
        assert(s[s.len() - n.len() - 1] == dir.last());
    }
    lemma_segment_len_run(s, n.len() as int);
    assert(s.last() == n.last());
    assert(s.subrange(s.len() - n.len(), s.len() as int) =~= n);
}

} // verus!
