//! The padding codec: appends the `0x80` end-of-data marker and zero-fill to
//! round a payload up to a whole number of blobs' worth of usable bytes, and
//! strips it again.

use vstd::prelude::*;
use crate::PackingError;

verus! {

/// `data` followed by the `0x80` marker and zero-fill up to `total` bytes.
pub open spec fn pad_spec(data: Seq<u8>, total: int) -> Seq<u8> {
    data + seq![0x80u8] + Seq::new((total - data.len() - 1) as nat, |i: int| 0u8)
}

/// Scans `s` from the end: zero bytes are skipped, the first non-zero byte
/// must be the `0x80` marker, and the bytes before it are the payload. Any
/// other non-zero byte, or a sequence with no marker at all, has no payload.
pub open spec fn unpad_spec(s: Seq<u8>) -> Option<Seq<u8>>
    decreases s.len(),
{
    if s.len() == 0 {
        None
    } else if s.last() == 0x00u8 {
        unpad_spec(s.drop_last())
    } else if s.last() == 0x80u8 {
        Some(s.drop_last())
    } else {
        None
    }
}

/// Pads `data` with the `0x80` marker and zero-fill up to `total` bytes.
/// The caller must leave room for the marker byte.
pub fn pad_to(data: &[u8], total: usize) -> (r: Vec<u8>)
    requires
        data@.len() < total,
    ensures
        r@ == pad_spec(data@, total as int),
{
    let mut padded = crate::bits::zeros_vec(total);
    let mut k: usize = 0;
    while k < data.len()
        invariant
            k <= data@.len(),
            data@.len() < total,
            padded@.len() == total,
            forall|i: int| 0 <= i < k ==> padded@[i] == data@[i],
            forall|i: int| k <= i < total ==> padded@[i] == 0u8,
        decreases data@.len() - k,
    {
        padded[k] = data[k];
        k = k + 1;
    }
    padded[data.len()] = 0x80u8;
    proof {
        assert(padded@ =~= pad_spec(data@, total as int));
    }
    padded
}

/// Removes the padding: scans from the last byte backward, skipping zero
/// bytes; the first non-zero byte must be the `0x80` marker and everything
/// before it is returned. Fails exactly when [`unpad_spec`] has no payload.
pub fn unpad(data: &[u8]) -> (r: Result<Vec<u8>, PackingError>)
    ensures
        match unpad_spec(data@) {
            Some(p) => r matches Ok(d) && d@ == p,
            None => r == Err::<Vec<u8>, PackingError>(PackingError::UnpadError),
        },
{
    let mut i: usize = data.len();
    proof {
        assert(data@.subrange(0, i as int) =~= data@);
    }
    while i > 0
        invariant
            i <= data@.len(),
            unpad_spec(data@) == unpad_spec(data@.subrange(0, i as int)),
        decreases i,
    {
        i = i - 1;
        let b: u8 = data[i];
        proof {
            let s = data@.subrange(0, i as int + 1);
            assert(s.last() == data@[i as int]);
            assert(s.drop_last() =~= data@.subrange(0, i as int));
        }
        if b == 0x80u8 {
            let prefix = vstd::slice::slice_subrange(data, 0, i);
            return Ok(vstd::slice::slice_to_vec(prefix));
        } else if b != 0u8 {
            return Err(PackingError::UnpadError);
        }
    }
    proof {
        assert(data@.subrange(0, 0) =~= Seq::<u8>::empty());
    }
    Err(PackingError::UnpadError)
}

/// The zero-fill sequence of length `k`.
pub open spec fn zeros(k: int) -> Seq<u8> {
    Seq::new(k as nat, |i: int| 0u8)
}

/// Trailing zero bytes do not change what unpadding returns.
proof fn lemma_unpad_extend_zeros(s: Seq<u8>, k: int)
    requires
        k >= 0,
    ensures
        unpad_spec(s + zeros(k)) == unpad_spec(s),
    decreases k,
{
    if k == 0 {
        assert(s + zeros(0) =~= s);
    } else {
        let t = s + zeros(k);
        assert(t.last() == 0x00u8);
        assert(t.drop_last() =~= s + zeros(k - 1));
        lemma_unpad_extend_zeros(s, k - 1);
    }
}

/// Unpadding inverts padding: for any payload with room left for the marker,
/// the padded buffer unpads to exactly that payload.
pub proof fn lemma_unpad_pad(data: Seq<u8>, total: int)
    requires
        data.len() < total,
    ensures
        unpad_spec(pad_spec(data, total)) == Some(data),
{
    let marked = data + seq![0x80u8];
    assert(pad_spec(data, total) =~= marked + zeros(total - data.len() - 1));
    lemma_unpad_extend_zeros(marked, total - data.len() - 1);
    assert(marked.last() == 0x80u8);
    assert(marked.drop_last() =~= data);
}

/// Corruption of the zero-fill is detected: overwriting any byte strictly
/// after the marker with a value that is neither zero nor another `0x80`
/// marker makes unpadding fail.
pub proof fn lemma_corruption_detected(data: Seq<u8>, total: int, q: int, v: u8)
    requires
        data.len() < q < total,
        v != 0x00u8,
        v != 0x80u8,
    ensures
        unpad_spec(pad_spec(data, total).update(q, v)) is None,
{
    let corrupted = pad_spec(data, total).update(q, v);
    let head = corrupted.subrange(0, q + 1);
    assert(corrupted =~= head + zeros(total - q - 1));
    lemma_unpad_extend_zeros(head, total - q - 1);
    assert(head.last() == v);
}

} // verus!
