//! Small byte-string helpers, each with its mathematical meaning.
use vstd::prelude::*;

verus! {

/// `w` ends with `suf`.
pub open spec fn ends_with(w: Seq<u8>, suf: Seq<u8>) -> bool {
    suf.len() <= w.len() && w.subrange(w.len() - suf.len(), w.len() as int) == suf
}

/// `w` starts with `pre`.
pub open spec fn starts_with(w: Seq<u8>, pre: Seq<u8>) -> bool {
    pre.len() <= w.len() && w.subrange(0, pre.len() as int) == pre
}

/// `needle` occurs in `hay` at position `i`.
pub open spec fn occurs_at<T>(hay: Seq<T>, needle: Seq<T>, i: int) -> bool {
    0 <= i && i + needle.len() <= hay.len() && hay.subrange(i, i + needle.len()) == needle
}

/// `needle` occurs somewhere in `hay`.
pub open spec fn contains_seq<T>(hay: Seq<T>, needle: Seq<T>) -> bool {
    exists|i: int| occurs_at(hay, needle, i)
}

/// `w` without its last `k` bytes.
pub open spec fn stem(w: Seq<u8>, k: int) -> Seq<u8> {
    w.subrange(0, w.len() - k)
}

/// Whether `w` ends with `suf`.
pub fn bytes_end_with(w: &[u8], suf: &[u8]) -> (res: bool)
    ensures
        res == ends_with(w@, suf@),
{
    if suf.len() > w.len() {
        return false;
    }
    let off = w.len() - suf.len();
    let mut i: usize = 0;
    while i < suf.len()
        invariant
            off == w@.len() - suf@.len(),
            off + suf@.len() == w.len(),
            i <= suf@.len(),
            forall|j: int| 0 <= j < i ==> w@[off + j] == suf@[j],
        decreases suf@.len() - i,
    {
        if w[off + i] != suf[i] {
            assert(w@.subrange(off as int, w@.len() as int)[i as int] != suf@[i as int]);
            return false;
        }
        i = i + 1;
    }
    assert(w@.subrange(off as int, w@.len() as int) =~= suf@);
    true
}

/// Whether `w` starts with `pre`.
pub fn bytes_start_with(w: &[u8], pre: &[u8]) -> (res: bool)
    ensures
        res == starts_with(w@, pre@),
{
    if pre.len() > w.len() {
        return false;
    }
    let mut i: usize = 0;
    while i < pre.len()
        invariant
            pre@.len() <= w@.len(),
            i <= pre@.len(),
            forall|j: int| 0 <= j < i ==> w@[j] == pre@[j],
        decreases pre@.len() - i,
    {
        if w[i] != pre[i] {
            assert(w@.subrange(0, pre@.len() as int)[i as int] != pre@[i as int]);
            return false;
        }
        i = i + 1;
    }
    assert(w@.subrange(0, pre@.len() as int) =~= pre@);
    true
}

/// Whether the two byte strings are equal.
pub fn bytes_equal(a: &[u8], b: &[u8]) -> (res: bool)
    ensures
        res == (a@ == b@),
{
    if a.len() != b.len() {
        return false;
    }
    let mut i: usize = 0;
    while i < a.len()
        invariant
            a@.len() == b@.len(),
            i <= a@.len(),
            forall|j: int| 0 <= j < i ==> a@[j] == b@[j],
        decreases a@.len() - i,
    {
        if a[i] != b[i] {
            return false;
        }
        i = i + 1;
    }
    assert(a@ =~= b@);
    true
}

/// The first `n` bytes of `w`, followed by `tail`.
pub fn prefix_then(w: &[u8], n: usize, tail: &[u8]) -> (res: Vec<u8>)
    requires
        n <= w@.len(),
    ensures
        res@ == w@.subrange(0, n as int) + tail@,
{
    let mut res: Vec<u8> = Vec::new();
    let mut i: usize = 0;
    while i < n
        invariant
            n <= w@.len(),
            i <= n,
            res@ == w@.subrange(0, i as int),
        decreases n - i,
    {
        res.push(w[i]);
        i = i + 1;
        assert(res@ =~= w@.subrange(0, i as int));
    }
    let mut k: usize = 0;
    while k < tail.len()
        invariant
            k <= tail@.len(),
            res@ == w@.subrange(0, n as int) + tail@.subrange(0, k as int),
        decreases tail@.len() - k,
    {
        res.push(tail[k]);
        k = k + 1;
        assert(res@ =~= w@.subrange(0, n as int) + tail@.subrange(0, k as int));
    }
    assert(tail@.subrange(0, tail@.len() as int) =~= tail@);
    res
}

/// Whether `needle` occurs in `hay` (the empty needle occurs in every string).
pub fn bytes_contain(hay: &[u8], needle: &[u8]) -> (res: bool)
    ensures
        res == contains_seq(hay@, needle@),
{
    if needle.len() > hay.len() {
        assert forall|i: int| !occurs_at(hay@, needle@, i) by {}
        return false;
    }
    let last = hay.len() - needle.len();
    let mut i: usize = 0;
    loop
        invariant
            last == hay@.len() - needle@.len(),
            last + needle@.len() == hay.len(),
            i <= last,
            forall|j: int| 0 <= j < i ==> !occurs_at(hay@, needle@, j),
        ensures
            forall|j: int| 0 <= j <= last ==> !occurs_at(hay@, needle@, j),
        decreases last - i,
    {
        let mut k: usize = 0;
        let mut same = true;
        while k < needle.len()
            invariant
                last == hay@.len() - needle@.len(),
                last + needle@.len() == hay.len(),
                i <= last,
                k <= needle@.len(),
                same ==> forall|j: int| 0 <= j < k ==> hay@[i + j] == needle@[j],
                !same ==> !occurs_at(hay@, needle@, i as int),
            decreases needle@.len() - k,
        {
            if hay[i + k] != needle[k] {
                assert(hay@.subrange(i as int, i + needle@.len())[k as int] != needle@[k as int]);
                same = false;
            }
            k = k + 1;
        }
        if same {
            assert(hay@.subrange(i as int, i + needle@.len()) =~= needle@);
            assert(occurs_at(hay@, needle@, i as int));
            return true;
        }
        if i == last {
            break;
        }
        i = i + 1;
    }
    assert forall|j: int| !occurs_at(hay@, needle@, j) by {
        if 0 <= j <= last {
        }
    }
    false
}

} // verus!
