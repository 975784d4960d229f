//! Byte-sequence helpers: equality and first-occurrence search.

use vstd::prelude::*;

verus! {

/// True when `n` occurs in `h` starting at byte offset `i`.
pub open spec fn match_at(h: Seq<u8>, n: Seq<u8>, i: int) -> bool {
    0 <= i && i + n.len() <= h.len() && h.subrange(i, i + n.len()) == n
}

/// The offset of the first occurrence of `n` in `h` at or after `from`,
/// or `None` when there is none.  An empty needle matches immediately.
pub open spec fn spec_find(h: Seq<u8>, n: Seq<u8>, from: int) -> Option<int>
    decreases h.len() - from,
{
    if from < 0 || from + n.len() > h.len() {
        None
    } else if n.len() == 0 || h.subrange(from, from + n.len()) == n {
        Some(from)
    } else {
        spec_find(h, n, from + 1)
    }
}

/// What `spec_find` returns is the first match: a found offset matches and
/// nothing before it does; `None` means nothing matches at all.
pub proof fn lemma_spec_find_first(h: Seq<u8>, n: Seq<u8>, from: int)
    requires
        0 <= from <= h.len(),
    ensures
        match spec_find(h, n, from) {
            Some(i) => from <= i && match_at(h, n, i) && forall|j: int|
                from <= j < i ==> !match_at(h, n, j),
            None => forall|j: int| from <= j ==> !match_at(h, n, j),
        },
    decreases h.len() - from,
{
    if from + n.len() > h.len() {
        assert forall|j: int| from <= j implies !match_at(h, n, j) by {}
    } else if n.len() == 0 {
        assert(h.subrange(from, from + n.len()) =~= n);
        assert(match_at(h, n, from));
    } else if h.subrange(from, from + n.len()) == n {
        assert(match_at(h, n, from));
    } else {
        lemma_spec_find_first(h, n, from + 1);
        assert(!match_at(h, n, from));
    }
}

/// Append every byte of `s` to `v`.
pub fn push_bytes(v: &mut Vec<u8>, s: &[u8])
    ensures
        final(v)@ == old(v)@ + s@,
{
    proof {
        assert(old(v)@ + s@.subrange(0, 0) =~= old(v)@);
    }
    let mut i: usize = 0;
    while i < s.len()
        invariant
            i <= s@.len(),
            v@ == old(v)@ + s@.subrange(0, i as int),
        decreases s@.len() - i,
    {
        v.push(s[i]);
        proof {
            assert(old(v)@ + s@.subrange(0, i + 1) =~= (old(v)@ + s@.subrange(0, i as int)).push(
                s@[i as int],
            ));
        }
        i = i + 1;
    }
    proof {
        assert(s@.subrange(0, s@.len() as int) =~= s@);
    }
}

/// Byte-wise equality of two slices.
pub fn bytes_eq(a: &[u8], b: &[u8]) -> (r: bool)
    ensures
        r == (a@ == b@),
{
    if a.len() != b.len() {
        return false;
    }
    let mut i: usize = 0;
    while i < a.len()
        invariant
            i <= a@.len(),
            a@.len() == b@.len(),
            forall|j: int| 0 <= j < i ==> a@[j] == b@[j],
        decreases a@.len() - i,
    {
        if a[i] != b[i] {
            return false;
        }
        i = i + 1;
    }
    proof {
        assert(a@ =~= b@);
    }
    true
}

/// First occurrence of `n` in `h` at or after `from`, scanning forward.
pub fn find_from(h: &[u8], n: &[u8], from: usize) -> (r: Option<usize>)
    requires
        from <= h@.len(),
    ensures
        match r {
            Some(i) => Some(i as int) == spec_find(h@, n@, from as int),
            None => spec_find(h@, n@, from as int) is None,
        },
{
    let mut i: usize = from;
    loop
        invariant
            from <= i <= h@.len(),
            spec_find(h@, n@, from as int) == spec_find(h@, n@, i as int),
        decreases h@.len() - i,
    {
        if n.len() > h.len() - i {
            assert(spec_find(h@, n@, i as int) is None);
            return None;
        }
        if n.len() == 0 {
            return Some(i);
        }
        let hl: usize = h.len();
        let mut k: usize = 0;
        let mut matched: bool = true;
        while k < n.len()
            invariant
                k <= n@.len(),
                hl == h@.len(),
                i + n@.len() <= h@.len(),
                matched ==> forall|j: int| 0 <= j < k ==> h@[i + j] == n@[j],
                !matched ==> h@.subrange(i as int, i + n@.len()) != n@,
            decreases n@.len() - k,
        {
            if h[i + k] != n[k] {
                proof {
                    assert(h@.subrange(i as int, i + n@.len())[k as int] == h@[i + k]);
                }
                matched = false;
                k = n.len();
            } else {
                k = k + 1;
            }
        }
        if matched {
            proof {
                assert(h@.subrange(i as int, i + n@.len()) =~= n@);
            }
            return Some(i);
        }
        proof {
            assert(spec_find(h@, n@, i as int) == spec_find(h@, n@, i + 1));
        }
        i = i + 1;
    }
}

} // verus!
