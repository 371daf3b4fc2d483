//! The byte-aligned ("naive") packer: 31 of the 32 bytes of every field
//! element carry payload, the last byte of each element stays zero.

use vstd::prelude::*;
use vstd::arithmetic::div_mod::lemma_fundamental_div_mod_converse;
use crate::pad::{pad_spec, unpad_spec, pad_to, unpad, lemma_unpad_pad};

pub use crate::PackingError;

verus! {

/// The number of field elements per blob.
pub const FIELD_ELEMENTS_PER_BLOB: usize = 1016;

/// The maximum number of blobs per transaction.
pub const MAX_BLOBS_PER_TX: usize = 2;

/// Bytes per field element on the wire, including the reserved byte.
pub const BYTES_PER_FIELD_ELEMENT: usize = 32;

/// The number of payload bytes that fit into one field element; the last
/// byte must stay zero so that the element is below the field modulus.
pub const USEFUL_BYTES_PER_FIELD_ELEMENT: usize = 31;

/// The number of payload bytes that fit into one blob.
pub const USEFUL_BYTES_PER_BLOB: usize = USEFUL_BYTES_PER_FIELD_ELEMENT * FIELD_ELEMENTS_PER_BLOB;

/// The most payload bytes one transaction can carry; one byte is reserved
/// for the padding marker.
pub const MAX_USEFUL_BYTES_PER_TX: usize = USEFUL_BYTES_PER_BLOB * MAX_BLOBS_PER_TX - 1;

/// The wire size of a blob in bytes.
pub const BLOB_SIZE: usize = BYTES_PER_FIELD_ELEMENT * FIELD_ELEMENTS_PER_BLOB;

/// Byte `i` of the blob that encodes `chunk`: the last byte of every field
/// element is zero, the first 31 carry the payload in order.
pub open spec fn enc_byte_at(chunk: Seq<u8>, i: int) -> u8 {
    if i % 32 == 31 {
        0u8
    } else {
        chunk[31 * (i / 32) + i % 32]
    }
}

/// The blob that encodes one blob's worth of payload bytes.
pub open spec fn encode_blob_spec(chunk: Seq<u8>) -> Seq<u8> {
    Seq::new(BLOB_SIZE as nat, |i: int| enc_byte_at(chunk, i))
}

/// The payload bytes carried by a blob: the first 31 bytes of every field
/// element, in element order.
pub open spec fn decode_blob_spec(blob: Seq<u8>) -> Seq<u8> {
    Seq::new(USEFUL_BYTES_PER_BLOB as nat, |i: int| blob[32 * (i / 31) + i % 31])
}

/// The number of blobs a payload of `len` bytes needs: the least count whose
/// usable capacity holds the payload plus the mandatory marker byte.
pub open spec fn n_blobs_spec(len: int) -> int {
    len / (USEFUL_BYTES_PER_BLOB as int) + 1
}

/// The blob sequence that packing a payload produces: the payload is padded
/// to `n` blobs' worth of usable bytes, and each usable-bytes-sized chunk is
/// encoded as one blob.
pub open spec fn pack_spec(data: Seq<u8>) -> Seq<Seq<u8>> {
    let u = USEFUL_BYTES_PER_BLOB as int;
    let n = n_blobs_spec(data.len() as int);
    let padded = pad_spec(data, n * u);
    Seq::new(n as nat, |i: int| encode_blob_spec(padded.subrange(i * u, (i + 1) * u)))
}

/// The payload chunks of all blobs, concatenated in order.
pub open spec fn decode_all_spec(blobs: Seq<Seq<u8>>) -> Seq<u8>
    decreases blobs.len(),
{
    if blobs.len() == 0 {
        Seq::empty()
    } else {
        decode_all_spec(blobs.drop_last()) + decode_blob_spec(blobs.last())
    }
}

/// What unpacking a blob sequence returns: the concatenated decoded payload
/// chunks with the padding stripped, or nothing if the padding is invalid.
pub open spec fn unpack_spec(blobs: Seq<Seq<u8>>) -> Option<Seq<u8>> {
    unpad_spec(decode_all_spec(blobs))
}

/// Pad `data` to the right size to fit in `n_blobs` blobs.
pub fn get_padded(data: &[u8], n_blobs: usize) -> (r: Vec<u8>)
    requires
        n_blobs * USEFUL_BYTES_PER_BLOB <= usize::MAX,
        data@.len() < n_blobs * USEFUL_BYTES_PER_BLOB,
    ensures
        r@ == pad_spec(data@, (n_blobs * USEFUL_BYTES_PER_BLOB) as int),
{
    pad_to(data, n_blobs * USEFUL_BYTES_PER_BLOB)
}

/// Build and return a blob from one blob's worth of payload bytes.
pub fn get_blob(data: &[u8]) -> (blob: Vec<u8>)
    requires
        data@.len() == USEFUL_BYTES_PER_BLOB,
    ensures
        blob@ == encode_blob_spec(data@),
{
    let mut blob = crate::bits::zeros_vec(BLOB_SIZE);
    let mut f: usize = 0;
    while f < FIELD_ELEMENTS_PER_BLOB
        invariant
            f <= FIELD_ELEMENTS_PER_BLOB,
            data@.len() == USEFUL_BYTES_PER_BLOB,
            blob@.len() == BLOB_SIZE,
            forall|i: int| 0 <= i < 32 * f ==> blob@[i] == enc_byte_at(data@, i),
            forall|i: int| 32 * f <= i < BLOB_SIZE ==> blob@[i] == 0u8,
        decreases FIELD_ELEMENTS_PER_BLOB - f,
    {
        let mut b: usize = 0;
        while b < USEFUL_BYTES_PER_FIELD_ELEMENT
            invariant
                b <= USEFUL_BYTES_PER_FIELD_ELEMENT,
                f < FIELD_ELEMENTS_PER_BLOB,
                data@.len() == USEFUL_BYTES_PER_BLOB,
                blob@.len() == BLOB_SIZE,
                forall|i: int| 0 <= i < 32 * f + b ==> blob@[i] == enc_byte_at(data@, i),
                forall|i: int| 32 * f + b <= i < BLOB_SIZE ==> blob@[i] == 0u8,
            decreases USEFUL_BYTES_PER_FIELD_ELEMENT - b,
        {
            blob[f * 32 + b] = data[f * 31 + b];
            proof {
                lemma_fundamental_div_mod_converse(32 * f + b, 32, f as int, b as int);
                lemma_fundamental_div_mod_converse(31 * f + b, 31, f as int, b as int);
            }
            b = b + 1;
        }
        proof {
            lemma_fundamental_div_mod_converse(32 * f + 31, 32, f as int, 31);
        }
        f = f + 1;
    }
    proof {
        assert(blob@ =~= encode_blob_spec(data@));
    }
    blob
}

/// Recover the payload bytes carried by one blob.
pub fn decode_blob(blob: &[u8]) -> (data: Vec<u8>)
    requires
        blob@.len() == BLOB_SIZE,
    ensures
        data@ == decode_blob_spec(blob@),
{
    let mut out: Vec<u8> = Vec::new();
    let mut f: usize = 0;
    while f < FIELD_ELEMENTS_PER_BLOB
        invariant
            f <= FIELD_ELEMENTS_PER_BLOB,
            blob@.len() == BLOB_SIZE,
            out@.len() == 31 * f,
            forall|i: int| 0 <= i < 31 * f ==> out@[i] == blob@[32 * (i / 31) + i % 31],
        decreases FIELD_ELEMENTS_PER_BLOB - f,
    {
        let mut b: usize = 0;
        while b < USEFUL_BYTES_PER_FIELD_ELEMENT
            invariant
                b <= USEFUL_BYTES_PER_FIELD_ELEMENT,
                f < FIELD_ELEMENTS_PER_BLOB,
                blob@.len() == BLOB_SIZE,
                out@.len() == 31 * f + b,
                forall|i: int| 0 <= i < 31 * f + b ==> out@[i] == blob@[32 * (i / 31) + i % 31],
            decreases USEFUL_BYTES_PER_FIELD_ELEMENT - b,
        {
            out.push(blob[f * 32 + b]);
            proof {
                lemma_fundamental_div_mod_converse(31 * f + b, 31, f as int, b as int);
            }
            b = b + 1;
        }
        f = f + 1;
    }
    proof {
        assert(out@ =~= decode_blob_spec(blob@));
    }
    out
}

/// Given the data in an array, return the list of blobs that packs it.
/// Fails exactly when the payload is empty or exceeds the capacity of one
/// transaction; otherwise the result is the blob sequence of [`pack_spec`].
pub fn get_blobs_from_data(data: &[u8]) -> (r: Result<Vec<Vec<u8>>, PackingError>)
    ensures
        data@.len() == 0 ==> r == Err::<Vec<Vec<u8>>, PackingError>(PackingError::DataLengthError),
        data@.len() > MAX_USEFUL_BYTES_PER_TX ==> r == Err::<Vec<Vec<u8>>, PackingError>(
            PackingError::DataLengthError,
        ),
        0 < data@.len() <= MAX_USEFUL_BYTES_PER_TX ==> (r matches Ok(blobs) && blobs.deep_view()
            == pack_spec(data@)),
{
    if data.len() == 0 {
        return Err(PackingError::DataLengthError);
    }
    if data.len() > MAX_USEFUL_BYTES_PER_TX {
        return Err(PackingError::DataLengthError);
    }
    let n_blobs: usize = data.len() / USEFUL_BYTES_PER_BLOB + 1;
    let padded = get_padded(data, n_blobs);
    let ghost u = USEFUL_BYTES_PER_BLOB as int;
    let mut blobs: Vec<Vec<u8>> = Vec::new();
    let mut i: usize = 0;
    while i < n_blobs
        invariant
            i <= n_blobs,
            n_blobs == n_blobs_spec(data@.len() as int),
            n_blobs <= MAX_BLOBS_PER_TX,
            u == USEFUL_BYTES_PER_BLOB as int,
            padded@ == pad_spec(data@, n_blobs * u),
            padded@.len() == n_blobs * u,
            blobs@.len() == i,
            forall|j: int| 0 <= j < i ==> (#[trigger] blobs@[j])@ == encode_blob_spec(
                padded@.subrange(j * u, (j + 1) * u),
            ),
        decreases n_blobs - i,
    {
        let chunk = vstd::slice::slice_subrange(
            padded.as_slice(),
            i * USEFUL_BYTES_PER_BLOB,
            (i + 1) * USEFUL_BYTES_PER_BLOB,
        );
        let blob = get_blob(chunk);
        blobs.push(blob);
        i = i + 1;
    }
    proof {
        let dv = blobs.deep_view();
        assert forall|j: int| 0 <= j < dv.len() implies dv[j] == (#[trigger] blobs@[j])@ by {
            assert(dv[j] =~= blobs@[j]@);
        }
        assert(dv =~= pack_spec(data@));
    }
    Ok(blobs)
}

/// Recover the original payload from a blob sequence: decode every blob,
/// concatenate the payload chunks in order, and strip the padding. Fails
/// exactly when no valid padding marker is found.
pub fn unpack(blobs: &Vec<Vec<u8>>) -> (r: Result<Vec<u8>, PackingError>)
    requires
        forall|i: int| 0 <= i < blobs@.len() ==> (#[trigger] blobs@[i])@.len() == BLOB_SIZE,
    ensures
        match unpack_spec(blobs.deep_view()) {
            Some(p) => r matches Ok(d) && d@ == p,
            None => r == Err::<Vec<u8>, PackingError>(PackingError::UnpadError),
        },
{
    let ghost dv = blobs.deep_view();
    let mut acc: Vec<u8> = Vec::new();
    let mut i: usize = 0;
    proof {
        assert(dv.subrange(0, 0) =~= Seq::<Seq<u8>>::empty());
        assert forall|j: int| 0 <= j < dv.len() implies dv[j] == (#[trigger] blobs@[j])@ by {
            assert(dv[j] =~= blobs@[j]@);
        }
    }
    while i < blobs.len()
        invariant
            i <= blobs@.len(),
            dv == blobs.deep_view(),
            dv.len() == blobs@.len(),
            forall|j: int| 0 <= j < blobs@.len() ==> (#[trigger] blobs@[j])@.len() == BLOB_SIZE,
            forall|j: int| 0 <= j < blobs@.len() ==> dv[j] == (#[trigger] blobs@[j])@,
            acc@ == decode_all_spec(dv.subrange(0, i as int)),
        decreases blobs@.len() - i,
    {
        let mut decoded = decode_blob(blobs[i].as_slice());
        acc.append(&mut decoded);
        proof {
            assert(dv.subrange(0, i as int + 1).drop_last() =~= dv.subrange(0, i as int));
            assert(dv.subrange(0, i as int + 1).last() == dv[i as int]);
        }
        i = i + 1;
    }
    proof {
        assert(dv.subrange(0, dv.len() as int) =~= dv);
    }
    unpad(acc.as_slice())
}

/// Decoding a blob inverts encoding it.
proof fn lemma_decode_encode(chunk: Seq<u8>)
    requires
        chunk.len() == USEFUL_BYTES_PER_BLOB,
    ensures
        decode_blob_spec(encode_blob_spec(chunk)) == chunk,
{
    let enc = encode_blob_spec(chunk);
    let dec = decode_blob_spec(enc);
    assert forall|i: int| 0 <= i < chunk.len() implies dec[i] == chunk[i] by {
        let q = i / 31;
        let r = i % 31;
        vstd::arithmetic::div_mod::lemma_fundamental_div_mod(i, 31);
        let p = 32 * q + r;
        lemma_fundamental_div_mod_converse(p, 32, q, r);
        assert(dec[i] == enc[p]);
        assert(enc[p] == chunk[31 * q + r]);
    }
    assert(dec =~= chunk);
}

/// The concatenated decoded chunks of the first `m` encoded chunks of a
/// padded buffer are the first `m` chunks' worth of that buffer.
proof fn lemma_decode_all_chunks(padded: Seq<u8>, n: int, m: int)
    requires
        0 <= m <= n,
        padded.len() == n * (USEFUL_BYTES_PER_BLOB as int),
    ensures
        decode_all_spec(
            Seq::new(
                n as nat,
                |i: int|
                    encode_blob_spec(
                        padded.subrange(
                            i * (USEFUL_BYTES_PER_BLOB as int),
                            (i + 1) * (USEFUL_BYTES_PER_BLOB as int),
                        ),
                    ),
            ).subrange(0, m),
        ) == padded.subrange(0, m * (USEFUL_BYTES_PER_BLOB as int)),
    decreases m,
{
    let u = USEFUL_BYTES_PER_BLOB as int;
    let blobs = Seq::new(
        n as nat,
        |i: int| encode_blob_spec(padded.subrange(i * u, (i + 1) * u)),
    );
    if m == 0 {
        assert(blobs.subrange(0, 0) =~= Seq::<Seq<u8>>::empty());
        assert(padded.subrange(0, 0) =~= Seq::<u8>::empty());
    } else {
        lemma_decode_all_chunks(padded, n, m - 1);
        let prefix = blobs.subrange(0, m);
        assert(prefix.drop_last() =~= blobs.subrange(0, m - 1));
        assert(prefix.last() == blobs[m - 1]);
        assert((m - 1) * u + u == m * u) by (nonlinear_arith);
        assert(0 <= (m - 1) * u && m * u <= n * u) by (nonlinear_arith)
            requires
                1 <= m <= n,
                0 < u,
        ;
        let chunk = padded.subrange((m - 1) * u, m * u);
        lemma_decode_encode(chunk);
        assert(decode_all_spec(prefix) == padded.subrange(0, (m - 1) * u) + chunk);
        assert(padded.subrange(0, (m - 1) * u) + chunk =~= padded.subrange(0, m * u));
    }
}

/// The payload never fills the padded buffer completely: the blob count is
/// chosen so that the marker byte always has room.
proof fn lemma_padding_fits(len: int)
    requires
        0 <= len,
    ensures
        len < n_blobs_spec(len) * (USEFUL_BYTES_PER_BLOB as int),
{
    let u = USEFUL_BYTES_PER_BLOB as int;
    vstd::arithmetic::div_mod::lemma_fundamental_div_mod(len, u);
}

/// The concatenation of all decoded payload chunks of a packed sequence is
/// exactly the padded payload.
proof fn lemma_decode_all_of_pack(data: Seq<u8>)
    requires
        0 < data.len() <= MAX_USEFUL_BYTES_PER_TX,
    ensures
        decode_all_spec(pack_spec(data)) == pad_spec(
            data,
            n_blobs_spec(data.len() as int) * (USEFUL_BYTES_PER_BLOB as int),
        ),
{
    let u = USEFUL_BYTES_PER_BLOB as int;
    let n = n_blobs_spec(data.len() as int);
    let padded = pad_spec(data, n * u);
    lemma_padding_fits(data.len() as int);
    lemma_decode_all_chunks(padded, n, n);
    let blobs = Seq::new(n as nat, |i: int| encode_blob_spec(padded.subrange(i * u, (i + 1) * u)));
    assert(blobs.subrange(0, n) =~= blobs);
    assert(padded.subrange(0, n * u) =~= padded);
}

/// Round trip: unpacking the blob sequence that packs any accepted payload
/// returns exactly that payload.
pub proof fn lemma_round_trip(data: Seq<u8>)
    requires
        0 < data.len() <= MAX_USEFUL_BYTES_PER_TX,
    ensures
        unpack_spec(pack_spec(data)) == Some(data),
{
    let u = USEFUL_BYTES_PER_BLOB as int;
    let n = n_blobs_spec(data.len() as int);
    lemma_decode_all_of_pack(data);
    lemma_padding_fits(data.len() as int);
    lemma_unpad_pad(data, n * u);
}

/// Corruption detection: overwriting any byte of the decoded stream that
/// lies in the padding's zero-fill, strictly after the marker, with a value
/// that is neither zero nor another `0x80` marker makes unpacking fail.
pub proof fn lemma_corruption_detected(data: Seq<u8>, q: int, v: u8)
    requires
        0 < data.len() <= MAX_USEFUL_BYTES_PER_TX,
        data.len() < q < n_blobs_spec(data.len() as int) * (USEFUL_BYTES_PER_BLOB as int),
        v != 0x00u8,
        v != 0x80u8,
    ensures
        unpad_spec(decode_all_spec(pack_spec(data)).update(q, v)) is None,
{
    let u = USEFUL_BYTES_PER_BLOB as int;
    let n = n_blobs_spec(data.len() as int);
    lemma_decode_all_of_pack(data);
    crate::pad::lemma_corruption_detected(data, n * u, q, v);
}

/// Boundary exactness: a payload of exactly the transaction capacity packs
/// into exactly the maximum number of blobs.
pub proof fn lemma_boundary_blob_count(data: Seq<u8>)
    requires
        data.len() == MAX_USEFUL_BYTES_PER_TX,
    ensures
        pack_spec(data).len() == MAX_BLOBS_PER_TX,
{
    let u = USEFUL_BYTES_PER_BLOB as int;
    assert(USEFUL_BYTES_PER_BLOB == 31496);
    assert(MAX_USEFUL_BYTES_PER_TX == 62991);
    lemma_fundamental_div_mod_converse(MAX_USEFUL_BYTES_PER_TX as int, u, 1, u - 1);
}

/// Reserved-byte invariant: the last byte of every field element of every
/// packed blob is zero.
pub proof fn lemma_reserved_bytes(data: Seq<u8>)
    requires
        0 < data.len() <= MAX_USEFUL_BYTES_PER_TX,
    ensures
        forall|i: int, p: int|
            0 <= i < pack_spec(data).len() && 0 <= p < BLOB_SIZE && p % 32 == 31
                ==> #[trigger] pack_spec(data)[i][p] == 0u8,
{
    assert forall|i: int, p: int|
        0 <= i < pack_spec(data).len() && 0 <= p < BLOB_SIZE && p % 32 == 31
            implies #[trigger] pack_spec(data)[i][p] == 0u8 by {
        let u = USEFUL_BYTES_PER_BLOB as int;
        let n = n_blobs_spec(data.len() as int);
        let padded = pad_spec(data, n * u);
        assert(pack_spec(data)[i] == encode_blob_spec(padded.subrange(i * u, (i + 1) * u)));
    }
}

/// Blob sizing: every packed blob is exactly the wire size of a blob.
pub proof fn lemma_blob_sizes(data: Seq<u8>)
    requires
        0 < data.len() <= MAX_USEFUL_BYTES_PER_TX,
    ensures
        forall|i: int|
            0 <= i < pack_spec(data).len() ==> (#[trigger] pack_spec(data)[i]).len() == BLOB_SIZE,
{
    assert forall|i: int| 0 <= i < pack_spec(data).len() implies (#[trigger] pack_spec(
        data,
    )[i]).len() == BLOB_SIZE by {
        let u = USEFUL_BYTES_PER_BLOB as int;
        let n = n_blobs_spec(data.len() as int);
        let padded = pad_spec(data, n * u);
        assert(pack_spec(data)[i] == encode_blob_spec(padded.subrange(i * u, (i + 1) * u)));
    }
}

} // verus!
