//! Plain substring and path-component tests over character sequences.

use vstd::prelude::*;

verus! {

/// The needle occurs in the haystack at position `i`.
pub open spec fn contains_at(h: Seq<char>, n: Seq<char>, i: int) -> bool {
    &&& 0 <= i
    &&& i + n.len() <= h.len()
    &&& h.subrange(i, i + n.len() as int) == n
}

/// The needle occurs somewhere in the haystack.
pub open spec fn str_contains(h: Seq<char>, n: Seq<char>) -> bool {
    exists|i: int| #[trigger] contains_at(h, n, i)
}

/// The haystack ends with the suffix.
pub open spec fn str_ends_with(h: Seq<char>, s: Seq<char>) -> bool {
    s.len() <= h.len() && h.subrange(h.len() - s.len(), h.len() as int) == s
}

/// The haystack starts with the prefix.
pub open spec fn str_starts_with(h: Seq<char>, p: Seq<char>) -> bool {
    p.len() <= h.len() && h.subrange(0, p.len() as int) == p
}

/// `name` stands as a whole `/`-separated component of the path.
pub open spec fn component_at(h: Seq<char>, name: Seq<char>, i: int) -> bool {
    &&& contains_at(h, name, i)
    &&& (i == 0 || h[i - 1] == '/')
    &&& (i + name.len() == h.len() || h[i + name.len() as int] == '/')
}

pub open spec fn has_component(h: Seq<char>, name: Seq<char>) -> bool {
    exists|i: int| #[trigger] component_at(h, name, i)
}

/// Do the needle's characters match the haystack at offset `i`?
fn matches_at(h: &str, hn: usize, n: &str, nn: usize, i: usize) -> (r: bool)
    requires
        hn == h@.len(),
        nn == n@.len(),
        i + nn <= hn,
    ensures
        r == (h@.subrange(i as int, i + n@.len() as int) == n@),
{
    let mut j: usize = 0;
    while j < nn
        invariant
            0 <= j <= nn,
            hn == h@.len(),
            nn == n@.len(),
            i + nn <= hn,
            forall|k: int| 0 <= k < j ==> h@[i + k] == n@[k],
        decreases nn - j,
    {
        let hc = h.get_char(i + j);
        let nc = n.get_char(j);
        if hc != nc {
            proof {
                assert(h@.subrange(i as int, i + n@.len() as int)[j as int] != n@[j as int]);
            }
            return false;
        }
        j = j + 1;
    }
    proof {
        assert(h@.subrange(i as int, i + n@.len() as int) =~= n@);
    }
    true
}

/// Substring search, exactly `str_contains`.
pub fn contains_sub(h: &str, n: &str) -> (r: bool)
    ensures
        r == str_contains(h@, n@),
{
    let hn = h.unicode_len();
    let nn = n.unicode_len();
    if nn > hn {
        proof {
            assert forall|i: int| !contains_at(h@, n@, i) by {}
        }
        return false;
    }
    if nn == 0 {
        proof {
            assert(h@.subrange(0, 0) =~= n@);
            assert(contains_at(h@, n@, 0));
        }
        return true;
    }
    let mut i: usize = 0;
    while i <= hn - nn
        invariant
            0 <= i <= hn - nn + 1,
            1 <= nn <= hn,
            hn == h@.len(),
            nn == n@.len(),
            forall|k: int| 0 <= k < i ==> !contains_at(h@, n@, k),
        decreases hn - i,
    {
        if matches_at(h, hn, n, nn, i) {
            proof {
                assert(contains_at(h@, n@, i as int));
            }
            return true;
        }
        i = i + 1;
    }
    proof {
        assert forall|k: int| !contains_at(h@, n@, k) by {
            if 0 <= k <= hn - nn {
            }
        }
    }
    false
}

/// Suffix test, exactly `str_ends_with`.
pub fn ends_with_sub(h: &str, s: &str) -> (r: bool)
    ensures
        r == str_ends_with(h@, s@),
{
    let hn = h.unicode_len();
    let sn = s.unicode_len();
    if sn > hn {
        return false;
    }
    matches_at(h, hn, s, sn, hn - sn)
}

/// Prefix test, exactly `str_starts_with`.
pub fn starts_with_sub(h: &str, p: &str) -> (r: bool)
    ensures
        r == str_starts_with(h@, p@),
{
    let hn = h.unicode_len();
    let pn = p.unicode_len();
    if pn > hn {
        return false;
    }
    matches_at(h, hn, p, pn, 0)
}

/// Whole-component search, exactly `has_component`.
pub fn has_component_sub(h: &str, name: &str) -> (r: bool)
    requires
        name@.len() >= 1,
    ensures
        r == has_component(h@, name@),
{
    let hn = h.unicode_len();
    let nn = name.unicode_len();
    if nn > hn {
        proof {
            assert forall|i: int| !component_at(h@, name@, i) by {}
        }
        return false;
    }
    let mut i: usize = 0;
    while i <= hn - nn
        invariant
            0 <= i <= hn - nn + 1,
            1 <= nn <= hn,
            hn == h@.len(),
            nn == name@.len(),
            forall|k: int| 0 <= k < i ==> !component_at(h@, name@, k),
        decreases hn - i,
    {
        if matches_at(h, hn, name, nn, i) {
            let left_ok = i == 0 || h.get_char(i - 1) == '/';
            let right_ok = i + nn == hn || h.get_char(i + nn) == '/';
            if left_ok && right_ok {
                proof {
                    assert(component_at(h@, name@, i as int));
                }
                return true;
            }
        }
        proof {
            assert(!component_at(h@, name@, i as int));
        }
        i = i + 1;
    }
    proof {
        assert forall|k: int| !component_at(h@, name@, k) by {
            if 0 <= k <= hn - nn {
            }
        }
    }
    false
}

} // verus!
