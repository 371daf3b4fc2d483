use blob_packer::packer_tight::{
    get_blobs_from_data, unpack, BLOB_SIZE, FIELD_ELEMENTS_PER_BLOB, MAX_BLOBS_PER_TX,
    MAX_TIGHT_USEFUL_BYTES_PER_TX, USEFUL_BYTES_PER_TIGHT_BLOB,
};
use blob_packer::PackingError;

fn random_bytes(n: usize) -> Vec<u8> {
    (0..n).map(|_| rand::random::<u8>()).collect()
}

/// Remove ISO/IEC 9797-1 padding from data and return the new unpadded data
fn unpad(data: Vec<u8>) -> Result<Vec<u8>, PackingError> {
    for i in (0..data.len()).rev() {
        match data[i] {
            0x80 => return Ok(data[..i].to_vec()),
            0x00 => continue,
            _ => return Err(PackingError::UnpadError),
        }
    }
    Err(PackingError::UnpadError)
}

/// Turn field elements into actual data: drop the last two bits of every
/// 256-bit field element and repack the remaining bitstream as bytes.
fn clean_field_elements_tight(data: Vec<u8>) -> Vec<u8> {
    let total_bits = data.len() * 8;
    let mut out: Vec<u8> = Vec::new();
    let mut acc: u8 = 0;
    let mut nbits = 0;
    for idx in 0..total_bits {
        if idx % 256 < 254 {
            let bit = (data[idx / 8] >> (7 - (idx % 8))) & 1;
            acc = (acc << 1) | bit;
            nbits += 1;
            if nbits == 8 {
                out.push(acc);
                acc = 0;
                nbits = 0;
            }
        }
    }
    if nbits > 0 {
        out.push(acc << (8 - nbits));
    }
    out
}

/// An end-to-end test, that first packs data into blobs. It then unpacks those blobs into data, and checks that
/// the data was unpacked correctly.
#[test]
fn pack_then_unpack_then_verify() {
    let data: Vec<u8> =
        (0..USEFUL_BYTES_PER_TIGHT_BLOB - 5).map(|_| rand::random::<u8>()).collect();
    let blobs = get_blobs_from_data(&data).unwrap();

    let rcved_blob_data = blobs.concat();
    assert_eq!(rcved_blob_data.len(), blobs.len() * BLOB_SIZE);

    // Clean field elements and remove the padding
    let cleaned = clean_field_elements_tight(rcved_blob_data);
    let rcved_data = unpad(cleaned).unwrap();

    assert_eq!(rcved_data, data);
}

#[test]
fn tight_capacity_constants() {
    assert_eq!(USEFUL_BYTES_PER_TIGHT_BLOB, 254 * 4096 / 8);
    assert_eq!(USEFUL_BYTES_PER_TIGHT_BLOB, 130048);
    assert_eq!(MAX_TIGHT_USEFUL_BYTES_PER_TX, 130048 * 2 - 1);
    assert_eq!(BLOB_SIZE, 32 * FIELD_ELEMENTS_PER_BLOB);
    assert_eq!(MAX_BLOBS_PER_TX, 2);
}

#[test]
fn tight_rejects_empty_input() {
    let data: Vec<u8> = Vec::new();
    let r = get_blobs_from_data(&data);
    assert_eq!(r.unwrap_err(), PackingError::DataLengthError);
}

#[test]
fn tight_rejects_oversize_input() {
    let data = random_bytes(MAX_TIGHT_USEFUL_BYTES_PER_TX + 1);
    let r = get_blobs_from_data(&data);
    assert_eq!(r.unwrap_err(), PackingError::DataLengthError);
}

#[test]
fn tight_boundary_fills_max_blobs() {
    let data = random_bytes(MAX_TIGHT_USEFUL_BYTES_PER_TX);
    let blobs = get_blobs_from_data(&data).unwrap();
    assert_eq!(blobs.len(), MAX_BLOBS_PER_TX);
    let rcved = unpack(&blobs).unwrap();
    assert_eq!(rcved, data);
}

#[test]
fn tight_single_blob_roundtrip() {
    let data = random_bytes(USEFUL_BYTES_PER_TIGHT_BLOB - 5);
    let blobs = get_blobs_from_data(&data).unwrap();
    assert_eq!(blobs.len(), 1);
    let rcved = unpack(&blobs).unwrap();
    assert_eq!(rcved, data);
}

#[test]
fn tight_two_blob_roundtrip() {
    let data = random_bytes(USEFUL_BYTES_PER_TIGHT_BLOB + 5);
    let blobs = get_blobs_from_data(&data).unwrap();
    assert_eq!(blobs.len(), 2);
    let rcved = unpack(&blobs).unwrap();
    assert_eq!(rcved, data);
}

#[test]
fn tight_exact_blob_multiple_roundtrip() {
    // A payload that exactly fills one blob's usable bytes: the marker byte
    // needs a second blob.
    let data = random_bytes(USEFUL_BYTES_PER_TIGHT_BLOB);
    let blobs = get_blobs_from_data(&data).unwrap();
    assert_eq!(blobs.len(), 2);
    let rcved = unpack(&blobs).unwrap();
    assert_eq!(rcved, data);
}

#[test]
fn tight_one_byte_roundtrip() {
    let data = vec![0xabu8];
    let blobs = get_blobs_from_data(&data).unwrap();
    assert_eq!(blobs.len(), 1);
    let rcved = unpack(&blobs).unwrap();
    assert_eq!(rcved, data);
}

#[test]
fn tight_reserved_bits_are_zero() {
    let data = random_bytes(4321);
    let blobs = get_blobs_from_data(&data).unwrap();
    for blob in &blobs {
        for f in 0..FIELD_ELEMENTS_PER_BLOB {
            // The last byte of each 32-byte field element holds the two
            // reserved low-order bits.
            assert_eq!(blob[f * 32 + 31] & 0x03, 0);
        }
    }
}

#[test]
fn tight_blob_sizes_are_fixed() {
    let data = random_bytes(9);
    let blobs = get_blobs_from_data(&data).unwrap();
    for blob in &blobs {
        assert_eq!(blob.len(), BLOB_SIZE);
    }
}

#[test]
fn tight_corruption_is_detected() {
    let data = random_bytes(10);
    let mut blobs = get_blobs_from_data(&data).unwrap();
    // A byte whose bits all land in the payload region of the last field
    // element, deep inside the zero-fill.
    blobs[0][BLOB_SIZE - 2] = 0x55;
    let r = unpack(&blobs);
    assert_eq!(r.unwrap_err(), PackingError::UnpadError);
}

#[test]
fn tight_unpack_without_marker_fails() {
    let blobs = vec![vec![0u8; BLOB_SIZE]];
    let r = unpack(&blobs);
    assert_eq!(r.unwrap_err(), PackingError::UnpadError);
}

#[test]
fn tight_bitstream_layout_is_exact() {
    // One byte 0xff: the first 8 bits of field element 0 are ones, and the
    // padding marker 0x80 contributes bit 8; everything else in the element
    // is zero.
    let data = vec![0xffu8];
    let blobs = get_blobs_from_data(&data).unwrap();
    assert_eq!(blobs[0][0], 0xff);
    assert_eq!(blobs[0][1], 0x80);
    for i in 2..32 {
        assert_eq!(blobs[0][i], 0);
    }
}
