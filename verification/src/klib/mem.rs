//! Common memory operations.

use vstd::prelude::*;

verus! {

/// Copies the first `n` bytes of `src` to the start of `dest`.
pub fn memcpy(dest: &mut Vec<u8>, src: &[u8], n: usize)
    requires
        n <= old(dest)@.len(),
        n <= src@.len(),
    ensures
        final(dest)@ == src@.subrange(0, n as int) + old(dest)@.subrange(
            n as int,
            old(dest)@.len() as int,
        ),
{
    let mut i: usize = 0;
    while i < n
        invariant
            i <= n,
            n <= src@.len(),
            dest@.len() == old(dest)@.len(),
            n <= dest@.len(),
            forall|k: int| 0 <= k < i ==> dest@[k] == src@[k],
            forall|k: int| i <= k < dest@.len() ==> dest@[k] == old(dest)@[k],
        decreases n - i,
    {
        dest[i] = src[i];
        i = i + 1;
    }
    assert(dest@ =~= src@.subrange(0, n as int) + old(dest)@.subrange(
        n as int,
        old(dest)@.len() as int,
    ));
}

/// `s` with the `n` bytes from `src` on copied to `dest` on.
pub open spec fn moved(s: Seq<u8>, dest: int, src: int, n: int) -> Seq<u8> {
    Seq::new(s.len(), |k: int| if dest <= k < dest + n { s[k - dest + src] } else { s[k] })
}

/// Copies the `n` bytes of `buf` from `src` on to `dest` on; the two ranges
/// may overlap.
pub fn memmove(buf: &mut Vec<u8>, dest: usize, src: usize, n: usize)
    requires
        dest + n <= old(buf)@.len(),
        src + n <= old(buf)@.len(),
    ensures
        final(buf)@ == moved(old(buf)@, dest as int, src as int, n as int),
{
    let len = buf.len();
    if dest <= src {
        let mut i: usize = 0;
        while i < n
            invariant
                i <= n,
                dest <= src,
                buf@.len() == len,
                buf@.len() == old(buf)@.len(),
                dest + n <= buf@.len(),
                src + n <= buf@.len(),
                forall|k: int| dest <= k < dest + i ==> buf@[k] == old(buf)@[k - dest + src],
                forall|k: int|
                    0 <= k < buf@.len() && !(dest <= k < dest + i) ==> buf@[k] == old(buf)@[k],
            decreases n - i,
        {
            buf[dest + i] = buf[src + i];
            i = i + 1;
        }
    } else {
        let mut i: usize = n;
        while i > 0
            invariant
                i <= n,
                dest > src,
                buf@.len() == len,
                buf@.len() == old(buf)@.len(),
                dest + n <= buf@.len(),
                src + n <= buf@.len(),
                forall|k: int| dest + i <= k < dest + n ==> buf@[k] == old(buf)@[k - dest + src],
                forall|k: int|
                    0 <= k < buf@.len() && !(dest + i <= k < dest + n) ==> buf@[k] == old(buf)@[k],
            decreases i,
        {
            i = i - 1;
            buf[dest + i] = buf[src + i];
        }
    }
    assert(buf@ =~= moved(old(buf)@, dest as int, src as int, n as int));
}

/// Sets the first `n` bytes of `dest` to `val`.
pub fn memset(dest: &mut Vec<u8>, val: u8, n: usize)
    requires
        n <= old(dest)@.len(),
    ensures
        final(dest)@ == Seq::new(n as nat, |k: int| val) + old(dest)@.subrange(
            n as int,
            old(dest)@.len() as int,
        ),
{
    let mut i: usize = 0;
    while i < n
        invariant
            i <= n,
            dest@.len() == old(dest)@.len(),
            n <= dest@.len(),
            forall|k: int| 0 <= k < i ==> dest@[k] == val,
            forall|k: int| i <= k < dest@.len() ==> dest@[k] == old(dest)@[k],
        decreases n - i,
    {
        dest[i] = val;
        i = i + 1;
    }
    assert(dest@ =~= Seq::new(n as nat, |k: int| val) + old(dest)@.subrange(
        n as int,
        old(dest)@.len() as int,
    ));
}

/// By how much byte `a` is above byte `b`.
pub fn difference(a: u8, b: u8) -> (d: i32)
    ensures
        d == a - b,
{
    a as i32 - b as i32
}

/// Index of the first of the first `n` bytes in which `a` and `b` differ,
/// or `n` if they do not.
pub open spec fn first_difference(a: Seq<u8>, b: Seq<u8>, n: int) -> int
    decreases n,
{
    if n <= 0 {
        0
    } else {
        let i = first_difference(a, b, n - 1);
        if i < n - 1 || a[n - 1] != b[n - 1] {
            i
        } else {
            n
        }
    }
}

/// The first `i` bytes are the same, and if `i` is below `n` the next
/// differ.
pub proof fn lemma_first_difference(a: Seq<u8>, b: Seq<u8>, n: int)
    requires
        0 <= n,
    ensures
        0 <= first_difference(a, b, n) <= n,
        forall|k: int| 0 <= k < first_difference(a, b, n) ==> a[k] == b[k],
        first_difference(a, b, n) < n ==> a[first_difference(a, b, n)] != b[first_difference(
            a,
            b,
            n,
        )],
    decreases n,
{
    if n > 0 {
        lemma_first_difference(a, b, n - 1);
    }
}

/// Index of the first of the first `n` bytes in which `a` and `b` differ,
/// or `n` if they do not.
pub open spec fn first_of(a: Seq<u8>, b: Seq<u8>, n: usize) -> int {
    first_difference(a, b, n as int)
}

/// A difference that was found stays the first.
proof fn lemma_stays(a: Seq<u8>, b: Seq<u8>, i: int, n: int)
    requires
        0 <= i < n,
        first_difference(a, b, i) == i,
        a[i] != b[i],
    ensures
        first_difference(a, b, n) == i,
    decreases n - i,
{
    if n > i + 1 {
        lemma_stays(a, b, i, n - 1);
    }
}

/// A difference at `i` that is the first among the first `i` bytes is the
/// first among the first `n`.
proof fn lemma_found(a: Seq<u8>, b: Seq<u8>, i: usize, n: usize)
    requires
        i < n,
        first_of(a, b, i) == i,
        a[i as int] != b[i as int],
    ensures
        first_of(a, b, n) == i,
{
    lemma_stays(a, b, i as int, n as int);
}

/// Where the first `i` bytes are the same and the next are too, the first
/// `i + 1` are.
proof fn lemma_next(a: Seq<u8>, b: Seq<u8>, i: usize)
    requires
        i < usize::MAX,
        first_of(a, b, i) == i,
        a[i as int] == b[i as int],
    ensures
        first_of(a, b, (i + 1) as usize) == i + 1,
{
}

/// Compares the first `n` bytes of `s1` and `s2`: 0 if they are the same,
/// else by how much the first byte of `s1` that differs is above that of
/// `s2`.
pub fn memcmp(s1: &[u8], s2: &[u8], n: usize) -> (r: i32)
    requires
        n <= s1@.len(),
        n <= s2@.len(),
    ensures
        ({
            let i = first_of(s1@, s2@, n);
            if i == n {
                r == 0
            } else {
                r == s1@[i] - s2@[i]
            }
        }),
{
    let mut i: usize = 0;
    while i < n
        invariant
            i <= n,
            n <= s1@.len(),
            n <= s2@.len(),
            first_of(s1@, s2@, i) == i,
        decreases n - i,
    {
        if s1[i] != s2[i] {
            proof {
                lemma_found(s1@, s2@, i, n);
            }
            return difference(s1[i], s2[i]);
        }
        proof {
            lemma_next(s1@, s2@, i);
        }
        i = i + 1;
    }
    0
}

/// Number of bytes of `s` in front of its first zero byte, or the length of
/// `s` if it holds none.
pub fn strlen(s: &[u8]) -> (len: usize)
    ensures
        len <= s@.len(),
        forall|k: int| 0 <= k < len ==> s@[k] != 0,
        len < s@.len() ==> s@[len as int] == 0,
{
    let mut len: usize = 0;
    while len < s.len() && s[len] != 0
        invariant
            len <= s@.len(),
            forall|k: int| 0 <= k < len ==> s@[k] != 0,
        decreases s@.len() - len,
    {
        len = len + 1;
    }
    len
}

} // verus!
