//! The bit-aligned ("tight") packer: 254 of the 256 bits of every field
//! element carry payload, the two low-order bits of each element stay zero.
//!
//! The payload chunk of one blob is treated as a contiguous bitstream,
//! most-significant-bit first, partitioned into groups of 254 bits; group `f`
//! becomes the high-order 254 bits of field element `f`. The groups never
//! align with byte boundaries (254 is not a multiple of 8), so all copying
//! is done through the bit cursor of [`crate::bits`].

use vstd::prelude::*;
use vstd::arithmetic::div_mod::lemma_fundamental_div_mod_converse;
use crate::bits::{
    bit_at, bytes_of_bits, lemma_bytes_of_bits_bit_at, lemma_bytes_eq_from_bits,
    lemma_zero_bytes_zero_bits, read_bit, set_bit, zeros_vec,
};
use crate::pad::{pad_spec, unpad_spec, pad_to, unpad, lemma_unpad_pad};

pub use crate::PackingError;

verus! {

/// The maximum number of blobs per transaction.
pub const MAX_BLOBS_PER_TX: usize = 2;

/// The number of field elements per blob.
pub const FIELD_ELEMENTS_PER_BLOB: usize = 4096;

/// The number of payload bits that fit into one field element; the two
/// low-order bits must stay zero so that the element is below the field
/// modulus.
pub const USEFUL_BITS_PER_FIELD_ELEMENT: usize = 254;

/// The number of payload bytes that fit into one blob; `254 * 4096` is
/// divisible by 8, so the division is exact.
pub const USEFUL_BYTES_PER_TIGHT_BLOB: usize = USEFUL_BITS_PER_FIELD_ELEMENT
    * FIELD_ELEMENTS_PER_BLOB / 8;

/// The most payload bytes one transaction can carry; one byte is reserved
/// for the padding marker.
pub const MAX_TIGHT_USEFUL_BYTES_PER_TX: usize = USEFUL_BYTES_PER_TIGHT_BLOB * MAX_BLOBS_PER_TX
    - 1;

/// Bytes per field element on the wire.
pub const BYTES_PER_FIELD_ELEMENT: usize = 32;

/// The wire size of a blob in bytes.
pub const BLOB_SIZE: usize = BYTES_PER_FIELD_ELEMENT * FIELD_ELEMENTS_PER_BLOB;

/// The number of payload bits in one blob's chunk.
pub const USEFUL_BITS_PER_BLOB: usize = USEFUL_BITS_PER_FIELD_ELEMENT * FIELD_ELEMENTS_PER_BLOB;

/// Where payload bit `k` of a chunk lands inside the blob bitstream: bit
/// `k % 254` of field element `k / 254`, each element being 256 bits wide.
pub open spec fn fe_bit_index(k: int) -> int {
    256 * (k / 254) + k % 254
}

/// Which payload bit of the chunk a blob bit position `p` carries (only
/// meaningful when `p % 256 < 254`).
pub open spec fn chunk_bit_index(p: int) -> int {
    254 * (p / 256) + p % 256
}

/// Bit `p` of the blob that encodes `chunk`: the two low-order bits of every
/// field element are zero, the other 254 carry the chunk's bitstream.
pub open spec fn blob_bit(chunk: Seq<u8>, p: int) -> bool {
    p % 256 < 254 && bit_at(chunk, chunk_bit_index(p))
}

/// The blob that encodes one blob's worth of payload bytes.
pub open spec fn encode_blob_spec(chunk: Seq<u8>) -> Seq<u8> {
    bytes_of_bits(|p: int| blob_bit(chunk, p), BLOB_SIZE as int)
}

/// The payload bytes carried by a blob: the 254-bit payload groups of all
/// field elements, concatenated in element order.
pub open spec fn decode_blob_spec(blob: Seq<u8>) -> Seq<u8> {
    bytes_of_bits(|k: int| bit_at(blob, fe_bit_index(k)), USEFUL_BYTES_PER_TIGHT_BLOB as int)
}

/// The number of blobs a payload of `len` bytes needs: the least count whose
/// usable capacity holds the payload plus the mandatory marker byte.
pub open spec fn n_blobs_spec(len: int) -> int {
    len / (USEFUL_BYTES_PER_TIGHT_BLOB as int) + 1
}

/// The blob sequence that packing a payload produces: the payload is padded
/// to `n` blobs' worth of usable bytes, and each usable-bytes-sized chunk is
/// encoded as one blob.
pub open spec fn pack_spec(data: Seq<u8>) -> Seq<Seq<u8>> {
    let u = USEFUL_BYTES_PER_TIGHT_BLOB as int;
    let n = n_blobs_spec(data.len() as int);
    let padded = pad_spec(data, n * u);
    Seq::new(n as nat, |i: int| encode_blob_spec(padded.subrange(i * u, (i + 1) * u)))
}

/// The payload chunks of all blobs, concatenated in order.
pub open spec fn decode_all_spec(blobs: Seq<Seq<u8>>) -> Seq<u8>
    decreases blobs.len(),
{
    if blobs.len() == 0 {
        Seq::empty()
    } else {
        decode_all_spec(blobs.drop_last()) + decode_blob_spec(blobs.last())
    }
}

/// What unpacking a blob sequence returns: the concatenated decoded payload
/// chunks with the padding stripped, or nothing if the padding is invalid.
pub open spec fn unpack_spec(blobs: Seq<Seq<u8>>) -> Option<Seq<u8>> {
    unpad_spec(decode_all_spec(blobs))
}

/// Pad `data` to the right size to fit in `n_blobs` blobs.
pub fn get_padded_tight(data: &[u8], n_blobs: usize) -> (r: Vec<u8>)
    requires
        n_blobs * USEFUL_BYTES_PER_TIGHT_BLOB <= usize::MAX,
        data@.len() < n_blobs * USEFUL_BYTES_PER_TIGHT_BLOB,
    ensures
        r@ == pad_spec(data@, (n_blobs * USEFUL_BYTES_PER_TIGHT_BLOB) as int),
{
    pad_to(data, n_blobs * USEFUL_BYTES_PER_TIGHT_BLOB)
}

/// A chunk bit index is carried at a payload position of the blob, and the
/// two index maps invert each other there.
proof fn lemma_fe_index_facts(k: int)
    requires
        0 <= k < USEFUL_BITS_PER_BLOB,
    ensures
        0 <= fe_bit_index(k) < BLOB_SIZE * 8,
        fe_bit_index(k) % 256 == k % 254,
        fe_bit_index(k) / 256 == k / 254,
        chunk_bit_index(fe_bit_index(k)) == k,
{
    vstd::arithmetic::div_mod::lemma_fundamental_div_mod(k, 254);
    lemma_fundamental_div_mod_converse(fe_bit_index(k), 256, k / 254, k % 254);
}

/// Tightly pack one blob's worth of payload bytes into field elements and
/// return the blob holding them.
pub fn get_packed_blob(data: &[u8]) -> (blob: Vec<u8>)
    requires
        data@.len() == USEFUL_BYTES_PER_TIGHT_BLOB,
    ensures
        blob@ == encode_blob_spec(data@),
{
    let mut blob = zeros_vec(BLOB_SIZE);
    proof {
        lemma_zero_bytes_zero_bits(blob@);
    }
    let mut k: usize = 0;
    while k < USEFUL_BITS_PER_BLOB
        invariant
            k <= USEFUL_BITS_PER_BLOB,
            data@.len() == USEFUL_BYTES_PER_TIGHT_BLOB,
            blob@.len() == BLOB_SIZE,
            forall|k2: int|
                0 <= k2 < k ==> bit_at(blob@, #[trigger] fe_bit_index(k2)) == bit_at(data@, k2),
            forall|p: int|
                0 <= p < BLOB_SIZE * 8 && (p % 256 >= 254 || chunk_bit_index(p) >= k) ==> !bit_at(
                    blob@,
                    p,
                ),
        decreases USEFUL_BITS_PER_BLOB - k,
    {
        let b = read_bit(data, k);
        let q: usize = (k / 254) * 256 + (k % 254);
        proof {
            lemma_fe_index_facts(k as int);
        }
        set_bit(&mut blob, q, b);
        proof {
            assert forall|k2: int|
                0 <= k2 < k + 1 implies bit_at(blob@, #[trigger] fe_bit_index(k2)) == bit_at(
                data@,
                k2,
            ) by {
                lemma_fe_index_facts(k2);
                if k2 < k {
                    assert(fe_bit_index(k2) != q);
                }
            }
            assert forall|p: int|
                0 <= p < BLOB_SIZE * 8 && (p % 256 >= 254 || chunk_bit_index(p) >= k + 1)
                    implies !bit_at(blob@, p) by {
                assert(p != q);
            }
        }
        k = k + 1;
    }
    proof {
        let enc = encode_blob_spec(data@);
        assert forall|j: int| 0 <= j < BLOB_SIZE * 8 implies bit_at(blob@, j) == bit_at(
            enc,
            j,
        ) by {
            lemma_bytes_of_bits_bit_at(
                |p: int| blob_bit(data@, p),
                BLOB_SIZE as int,
                j,
            );
            if j % 256 < 254 {
                let k2 = chunk_bit_index(j);
                vstd::arithmetic::div_mod::lemma_fundamental_div_mod(j, 256);
                lemma_fundamental_div_mod_converse(k2, 254, j / 256, j % 256);
                assert(fe_bit_index(k2) == j);
            }
        }
        lemma_bytes_eq_from_bits(blob@, enc);
    }
    blob
}

/// Recover the payload bytes carried by one blob.
pub fn decode_blob(blob: &[u8]) -> (data: Vec<u8>)
    requires
        blob@.len() == BLOB_SIZE,
    ensures
        data@ == decode_blob_spec(blob@),
{
    let mut out = zeros_vec(USEFUL_BYTES_PER_TIGHT_BLOB);
    proof {
        lemma_zero_bytes_zero_bits(out@);
    }
    let mut k: usize = 0;
    while k < USEFUL_BITS_PER_BLOB
        invariant
            k <= USEFUL_BITS_PER_BLOB,
            blob@.len() == BLOB_SIZE,
            out@.len() == USEFUL_BYTES_PER_TIGHT_BLOB,
            forall|k2: int|
                0 <= k2 < k ==> bit_at(out@, k2) == bit_at(blob@, #[trigger] fe_bit_index(k2)),
            forall|k2: int| k <= k2 < USEFUL_BITS_PER_BLOB ==> !bit_at(out@, k2),
        decreases USEFUL_BITS_PER_BLOB - k,
    {
        let q: usize = (k / 254) * 256 + (k % 254);
        proof {
            lemma_fe_index_facts(k as int);
        }
        let b = read_bit(blob, q);
        set_bit(&mut out, k, b);
        k = k + 1;
    }
    proof {
        let dec = decode_blob_spec(blob@);
        assert forall|j: int| 0 <= j < USEFUL_BITS_PER_BLOB implies bit_at(out@, j) == bit_at(
            dec,
            j,
        ) by {
            lemma_bytes_of_bits_bit_at(
                |k2: int| bit_at(blob@, fe_bit_index(k2)),
                USEFUL_BYTES_PER_TIGHT_BLOB as int,
                j,
            );
        }
        lemma_bytes_eq_from_bits(out@, dec);
    }
    out
}

/// Given data, pack it into as many blobs as needed and return them.
/// Fails exactly when the payload is empty or exceeds the capacity of one
/// transaction; otherwise the result is the blob sequence of [`pack_spec`].
pub fn get_blobs_from_data(data: &[u8]) -> (r: Result<Vec<Vec<u8>>, PackingError>)
    ensures
        data@.len() == 0 ==> r == Err::<Vec<Vec<u8>>, PackingError>(PackingError::DataLengthError),
        data@.len() > MAX_TIGHT_USEFUL_BYTES_PER_TX ==> r == Err::<Vec<Vec<u8>>, PackingError>(
            PackingError::DataLengthError,
        ),
        0 < data@.len() <= MAX_TIGHT_USEFUL_BYTES_PER_TX ==> (r matches Ok(blobs)
            && blobs.deep_view() == pack_spec(data@)),
{
    if data.len() == 0 {
        return Err(PackingError::DataLengthError);
    }
    if data.len() > MAX_TIGHT_USEFUL_BYTES_PER_TX {
        return Err(PackingError::DataLengthError);
    }
    let n_blobs: usize = data.len() / USEFUL_BYTES_PER_TIGHT_BLOB + 1;
    proof {
        assert(USEFUL_BYTES_PER_TIGHT_BLOB == 130048);
        vstd::arithmetic::div_mod::lemma_fundamental_div_mod(data@.len() as int, 130048);
    }
    let padded = get_padded_tight(data, n_blobs);
    let ghost u = USEFUL_BYTES_PER_TIGHT_BLOB as int;
    let mut blobs: Vec<Vec<u8>> = Vec::new();
    let mut i: usize = 0;
    while i < n_blobs
        invariant
            i <= n_blobs,
            n_blobs == n_blobs_spec(data@.len() as int),
            n_blobs <= MAX_BLOBS_PER_TX,
            u == USEFUL_BYTES_PER_TIGHT_BLOB as int,
            padded@ == pad_spec(data@, n_blobs * u),
            padded@.len() == n_blobs * u,
            blobs@.len() == i,
            forall|j: int| 0 <= j < i ==> (#[trigger] blobs@[j])@ == encode_blob_spec(
                padded@.subrange(j * u, (j + 1) * u),
            ),
        decreases n_blobs - i,
    {
        proof {
            assert(USEFUL_BYTES_PER_TIGHT_BLOB == 130048);
        }
        let chunk = vstd::slice::slice_subrange(
            padded.as_slice(),
            i * USEFUL_BYTES_PER_TIGHT_BLOB,
            (i + 1) * USEFUL_BYTES_PER_TIGHT_BLOB,
        );
        let blob = get_packed_blob(chunk);
        blobs.push(blob);
        i = i + 1;
    }
    proof {
        let dv = blobs.deep_view();
        assert forall|j: int| 0 <= j < dv.len() implies dv[j] == (#[trigger] blobs@[j])@ by {
            assert(dv[j] =~= blobs@[j]@);
        }
        assert(dv =~= pack_spec(data@));
    }
    Ok(blobs)
}

/// Recover the original payload from a blob sequence: decode every blob,
/// concatenate the payload chunks in order, and strip the padding. Fails
/// exactly when no valid padding marker is found.
pub fn unpack(blobs: &Vec<Vec<u8>>) -> (r: Result<Vec<u8>, PackingError>)
    requires
        forall|i: int| 0 <= i < blobs@.len() ==> (#[trigger] blobs@[i])@.len() == BLOB_SIZE,
    ensures
        match unpack_spec(blobs.deep_view()) {
            Some(p) => r matches Ok(d) && d@ == p,
            None => r == Err::<Vec<u8>, PackingError>(PackingError::UnpadError),
        },
{
    let ghost dv = blobs.deep_view();
    let mut acc: Vec<u8> = Vec::new();
    let mut i: usize = 0;
    proof {
        assert(dv.subrange(0, 0) =~= Seq::<Seq<u8>>::empty());
        assert forall|j: int| 0 <= j < dv.len() implies dv[j] == (#[trigger] blobs@[j])@ by {
            assert(dv[j] =~= blobs@[j]@);
        }
    }
    while i < blobs.len()
        invariant
            i <= blobs@.len(),
            dv == blobs.deep_view(),
            dv.len() == blobs@.len(),
            forall|j: int| 0 <= j < blobs@.len() ==> (#[trigger] blobs@[j])@.len() == BLOB_SIZE,
            forall|j: int| 0 <= j < blobs@.len() ==> dv[j] == (#[trigger] blobs@[j])@,
            acc@ == decode_all_spec(dv.subrange(0, i as int)),
        decreases blobs@.len() - i,
    {
        let mut decoded = decode_blob(blobs[i].as_slice());
        acc.append(&mut decoded);
        proof {
            assert(dv.subrange(0, i as int + 1).drop_last() =~= dv.subrange(0, i as int));
            assert(dv.subrange(0, i as int + 1).last() == dv[i as int]);
        }
        i = i + 1;
    }
    proof {
        assert(dv.subrange(0, dv.len() as int) =~= dv);
    }
    unpad(acc.as_slice())
}

/// Decoding a blob inverts encoding it.
proof fn lemma_decode_encode(chunk: Seq<u8>)
    requires
        chunk.len() == USEFUL_BYTES_PER_TIGHT_BLOB,
    ensures
        decode_blob_spec(encode_blob_spec(chunk)) == chunk,
{
    let enc = encode_blob_spec(chunk);
    let dec = decode_blob_spec(enc);
    assert(enc.len() == BLOB_SIZE);
    assert(dec.len() == USEFUL_BYTES_PER_TIGHT_BLOB);
    assert forall|k: int| 0 <= k < USEFUL_BITS_PER_BLOB implies bit_at(dec, k) == bit_at(
        chunk,
        k,
    ) by {
        lemma_bytes_of_bits_bit_at(
            |k2: int| bit_at(enc, fe_bit_index(k2)),
            USEFUL_BYTES_PER_TIGHT_BLOB as int,
            k,
        );
        lemma_fe_index_facts(k);
        lemma_bytes_of_bits_bit_at(
            |p: int| blob_bit(chunk, p),
            BLOB_SIZE as int,
            fe_bit_index(k),
        );
    }
    lemma_bytes_eq_from_bits(dec, chunk);
}

/// The concatenated decoded chunks of the first `m` encoded chunks of a
/// padded buffer are the first `m` chunks' worth of that buffer.
#[verifier::rlimit(50)]
proof fn lemma_decode_all_chunks(padded: Seq<u8>, n: int, m: int)
    requires
        0 <= m <= n,
        padded.len() == n * (USEFUL_BYTES_PER_TIGHT_BLOB as int),
    ensures
        decode_all_spec(
            Seq::new(
                n as nat,
                |i: int|
                    encode_blob_spec(
                        padded.subrange(
                            i * (USEFUL_BYTES_PER_TIGHT_BLOB as int),
                            (i + 1) * (USEFUL_BYTES_PER_TIGHT_BLOB as int),
                        ),
                    ),
            ).subrange(0, m),
        ) == padded.subrange(0, m * (USEFUL_BYTES_PER_TIGHT_BLOB as int)),
    decreases m,
{
    let u = USEFUL_BYTES_PER_TIGHT_BLOB as int;
    assert(u == 130048);
    let blobs = Seq::new(
        n as nat,
        |i: int| encode_blob_spec(padded.subrange(i * u, (i + 1) * u)),
    );
    if m == 0 {
        assert(blobs.subrange(0, 0) =~= Seq::<Seq<u8>>::empty());
        assert(padded.subrange(0, 0) =~= Seq::<u8>::empty());
    } else {
        lemma_decode_all_chunks(padded, n, m - 1);
        let prefix = blobs.subrange(0, m);
        assert(prefix.drop_last() =~= blobs.subrange(0, m - 1));
        assert(prefix.last() == blobs[m - 1]);
        assert((m - 1) * u + u == m * u) by (nonlinear_arith);
        assert(0 <= (m - 1) * u && m * u <= n * u) by (nonlinear_arith)
            requires
                1 <= m <= n,
                0 < u,
        ;
        let chunk = padded.subrange((m - 1) * u, m * u);
        lemma_decode_encode(chunk);
        assert(decode_all_spec(prefix) == padded.subrange(0, (m - 1) * u) + chunk);
        assert(padded.subrange(0, (m - 1) * u) + chunk =~= padded.subrange(0, m * u));
    }
}

/// The payload never fills the padded buffer completely: the blob count is
/// chosen so that the marker byte always has room.
proof fn lemma_padding_fits(len: int)
    requires
        0 <= len,
    ensures
        len < n_blobs_spec(len) * (USEFUL_BYTES_PER_TIGHT_BLOB as int),
{
    let u = USEFUL_BYTES_PER_TIGHT_BLOB as int;
    assert(u == 130048);
    vstd::arithmetic::div_mod::lemma_fundamental_div_mod(len, u);
}

/// The concatenation of all decoded payload chunks of a packed sequence is
/// exactly the padded payload.
proof fn lemma_decode_all_of_pack(data: Seq<u8>)
    requires
        0 < data.len() <= MAX_TIGHT_USEFUL_BYTES_PER_TX,
    ensures
        decode_all_spec(pack_spec(data)) == pad_spec(
            data,
            n_blobs_spec(data.len() as int) * (USEFUL_BYTES_PER_TIGHT_BLOB as int),
        ),
{
    let u = USEFUL_BYTES_PER_TIGHT_BLOB as int;
    let n = n_blobs_spec(data.len() as int);
    let padded = pad_spec(data, n * u);
    lemma_padding_fits(data.len() as int);
    lemma_decode_all_chunks(padded, n, n);
    let blobs = Seq::new(n as nat, |i: int| encode_blob_spec(padded.subrange(i * u, (i + 1) * u)));
    assert(blobs.subrange(0, n) =~= blobs);
    assert(padded.subrange(0, n * u) =~= padded);
}

/// Round trip: unpacking the blob sequence that packs any accepted payload
/// returns exactly that payload.
pub proof fn lemma_round_trip(data: Seq<u8>)
    requires
        0 < data.len() <= MAX_TIGHT_USEFUL_BYTES_PER_TX,
    ensures
        unpack_spec(pack_spec(data)) == Some(data),
{
    let u = USEFUL_BYTES_PER_TIGHT_BLOB as int;
    let n = n_blobs_spec(data.len() as int);
    lemma_decode_all_of_pack(data);
    lemma_padding_fits(data.len() as int);
    lemma_unpad_pad(data, n * u);
}

/// Corruption detection: overwriting any byte of the decoded stream that
/// lies in the padding's zero-fill, strictly after the marker, with a value
/// that is neither zero nor another `0x80` marker makes unpacking fail.
pub proof fn lemma_corruption_detected(data: Seq<u8>, q: int, v: u8)
    requires
        0 < data.len() <= MAX_TIGHT_USEFUL_BYTES_PER_TX,
        data.len() < q < n_blobs_spec(data.len() as int) * (USEFUL_BYTES_PER_TIGHT_BLOB as int),
        v != 0x00u8,
        v != 0x80u8,
    ensures
        unpad_spec(decode_all_spec(pack_spec(data)).update(q, v)) is None,
{
    let u = USEFUL_BYTES_PER_TIGHT_BLOB as int;
    let n = n_blobs_spec(data.len() as int);
    lemma_decode_all_of_pack(data);
    crate::pad::lemma_corruption_detected(data, n * u, q, v);
}

/// Boundary exactness: a payload of exactly the transaction capacity packs
/// into exactly the maximum number of blobs.
pub proof fn lemma_boundary_blob_count(data: Seq<u8>)
    requires
        data.len() == MAX_TIGHT_USEFUL_BYTES_PER_TX,
    ensures
        pack_spec(data).len() == MAX_BLOBS_PER_TX,
{
    let u = USEFUL_BYTES_PER_TIGHT_BLOB as int;
    lemma_fundamental_div_mod_converse(MAX_TIGHT_USEFUL_BYTES_PER_TX as int, u, 1, u - 1);
}

/// Reserved-bit invariant: the two low-order bits of every field element of
/// every packed blob are zero.
pub proof fn lemma_reserved_bits(data: Seq<u8>)
    requires
        0 < data.len() <= MAX_TIGHT_USEFUL_BYTES_PER_TX,
    ensures
        forall|i: int, p: int|
            0 <= i < pack_spec(data).len() && 0 <= p < BLOB_SIZE * 8 && p % 256 >= 254
                ==> !(#[trigger] bit_at(pack_spec(data)[i], p)),
{
    assert forall|i: int, p: int|
        0 <= i < pack_spec(data).len() && 0 <= p < BLOB_SIZE * 8 && p % 256 >= 254
            implies !(#[trigger] bit_at(pack_spec(data)[i], p)) by {
        let u = USEFUL_BYTES_PER_TIGHT_BLOB as int;
        let n = n_blobs_spec(data.len() as int);
        let padded = pad_spec(data, n * u);
        let chunk = padded.subrange(i * u, (i + 1) * u);
        assert(pack_spec(data)[i] == encode_blob_spec(chunk));
        lemma_bytes_of_bits_bit_at(|p2: int| blob_bit(chunk, p2), BLOB_SIZE as int, p);
    }
}

/// Blob sizing: every packed blob is exactly the wire size of a blob.
pub proof fn lemma_blob_sizes(data: Seq<u8>)
    requires
        0 < data.len() <= MAX_TIGHT_USEFUL_BYTES_PER_TX,
    ensures
        forall|i: int|
            0 <= i < pack_spec(data).len() ==> (#[trigger] pack_spec(data)[i]).len() == BLOB_SIZE,
{
    assert forall|i: int| 0 <= i < pack_spec(data).len() implies (#[trigger] pack_spec(
        data,
    )[i]).len() == BLOB_SIZE by {
        let u = USEFUL_BYTES_PER_TIGHT_BLOB as int;
        let n = n_blobs_spec(data.len() as int);
        let padded = pad_spec(data, n * u);
        assert(pack_spec(data)[i] == encode_blob_spec(padded.subrange(i * u, (i + 1) * u)));
    }
}

} // verus!
