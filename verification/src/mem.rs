//! The byte-block routines a freestanding kernel supplies itself: copy,
//! overlapping move, fill and compare.
use vstd::prelude::*;

verus! {

/// Copy the first `n` bytes of `src` to the start of `dest`.
pub fn memcpy(dest: &mut Vec<u8>, src: &[u8], n: usize)
    requires
        n <= old(dest)@.len(),
        n <= src@.len(),
    ensures
        final(dest)@ == src@.subrange(0, n as int) + old(dest)@.subrange(n as int, old(dest)@.len() as int),
{
    let mut i: usize = 0;
    while i < n
        invariant
            i <= n,
            n <= src@.len(),
            dest@.len() == old(dest)@.len(),
            n <= dest@.len(),
            forall|k: int| 0 <= k < i ==> #[trigger] dest@[k] == src@[k],
            forall|k: int| i <= k < dest@.len() ==> #[trigger] dest@[k] == old(dest)@[k],
        decreases n - i,
    {
        dest.set(i, src[i]);
        i += 1;
    }
    assert(dest@ =~= src@.subrange(0, n as int) + old(dest)@.subrange(n as int, old(dest)@.len() as int));
}

/// `buf` after moving `n` bytes from offset `src` to offset `dest`, as if
/// through a separate buffer (the two ranges may overlap).
pub open spec fn moved(buf: Seq<u8>, dest: int, src: int, n: int) -> Seq<u8> {
    Seq::new(buf.len(), |k: int| if dest <= k < dest + n { buf[src + (k - dest)] } else { buf[k] })
}

/// Move `n` bytes within `buf` from offset `src` to offset `dest`: forwards
/// when the destination lies below the source, backwards otherwise, so that
/// overlapping ranges come out right.
pub fn memmove(buf: &mut Vec<u8>, dest: usize, src: usize, n: usize)
    requires
        dest + n <= old(buf)@.len(),
        src + n <= old(buf)@.len(),
    ensures
        final(buf)@ == moved(old(buf)@, dest as int, src as int, n as int),
{
    let ghost orig = buf@;
    assert(orig.len() == buf.len());
    if dest < src {
        let mut i: usize = 0;
        while i < n
            invariant
                dest < src,
                i <= n,
                orig.len() <= usize::MAX,
                dest + n <= orig.len(),
                src + n <= orig.len(),
                buf@.len() == orig.len(),
                forall|k: int| dest <= k < dest + i ==> #[trigger] buf@[k] == orig[src + (k - dest)],
                forall|k: int| 0 <= k < buf@.len() && !(dest <= k < dest + i) ==> #[trigger] buf@[k] == orig[k],
            decreases n - i,
        {
            let b = buf[src + i];
            buf.set(dest + i, b);
            i += 1;
        }
    } else {
        let mut i: usize = n;
        while i > 0
            invariant
                dest >= src,
                i <= n,
                orig.len() <= usize::MAX,
                dest + n <= orig.len(),
                src + n <= orig.len(),
                buf@.len() == orig.len(),
                forall|k: int| dest + i <= k < dest + n ==> #[trigger] buf@[k] == orig[src + (k - dest)],
                forall|k: int| 0 <= k < buf@.len() && !(dest + i <= k < dest + n) ==> #[trigger] buf@[k] == orig[k],
            decreases i,
        {
            i -= 1;
            let b = buf[src + i];
            buf.set(dest + i, b);
        }
    }
    assert(buf@ =~= moved(orig, dest as int, src as int, n as int));
}

/// Fill the first `n` bytes of `dest` with the low byte of `c`.
pub fn memset(dest: &mut Vec<u8>, c: i32, n: usize)
    requires
        n <= old(dest)@.len(),
    ensures
        final(dest)@.len() == old(dest)@.len(),
        forall|k: int| 0 <= k < n ==> #[trigger] final(dest)@[k] == c as u8,
        forall|k: int| n <= k < old(dest)@.len() ==> #[trigger] final(dest)@[k] == old(dest)@[k],
{
    let val = c as u8;
    let mut i: usize = 0;
    while i < n
        invariant
            i <= n,
            val == c as u8,
            dest@.len() == old(dest)@.len(),
            n <= dest@.len(),
            forall|k: int| 0 <= k < i ==> #[trigger] dest@[k] == val,
            forall|k: int| i <= k < dest@.len() ==> #[trigger] dest@[k] == old(dest)@[k],
        decreases n - i,
    {
        dest.set(i, val);
        i += 1;
    }
}

/// `a - b` as a signed number.
fn byte_difference(a: u8, b: u8) -> (r: i32)
    ensures
        r == a - b,
{
    a as i32 - b as i32
}

/// Compare the first `n` bytes: 0 when equal, otherwise the difference of
/// the first pair of bytes that differ.
pub fn memcmp(s1: &[u8], s2: &[u8], n: usize) -> (r: i32)
    requires
        n <= s1@.len(),
        n <= s2@.len(),
    ensures
        (forall|k: int| 0 <= k < n ==> s1@[k] == s2@[k]) ==> r == 0,
        !(forall|k: int| 0 <= k < n ==> s1@[k] == s2@[k]) ==> exists|j: int| 0 <= j < n
            && s1@[j] != s2@[j]
            && (forall|k: int| 0 <= k < j ==> s1@[k] == s2@[k])
            && r == s1@[j] - s2@[j],
{
    let mut i: usize = 0;
    while i < n
        invariant
            i <= n,
            n <= s1@.len(),
            n <= s2@.len(),
            forall|k: int| 0 <= k < i ==> s1@[k] == s2@[k],
        decreases n - i,
    {
        let a = s1[i];
        let b = s2[i];
        if a != b {
            return byte_difference(a, b);
        }
        i += 1;
    }
    0
}

} // verus!
