use blob_packer::packer::{
    get_blobs_from_data, unpack, BLOB_SIZE, FIELD_ELEMENTS_PER_BLOB, MAX_BLOBS_PER_TX,
    MAX_USEFUL_BYTES_PER_TX, USEFUL_BYTES_PER_BLOB,
};
use blob_packer::PackingError;

fn random_bytes(n: usize) -> Vec<u8> {
    (0..n).map(|_| rand::random::<u8>()).collect()
}

fn unpad(data: Vec<u8>) -> Result<Vec<u8>, PackingError> {
    for i in (0..data.len()).rev() {
        match data[i] {
            0x80 => return Ok(data[..i].to_vec()),
            0x00 => continue,
            _ => return Err(PackingError::UnpadError),
        }
    }
    Err(PackingError::UnpadError)
}

fn clean_field_elements(data: &mut Vec<u8>) {
    // Trim the last byte out of every field element (it's forced to zero)
    let mut index = 0;
    data.retain(|_| {
        index += 1;
        index % 32 != 0
    });
}

#[test]
fn pack() {
    let data: Vec<u8> = (0..USEFUL_BYTES_PER_BLOB + 5).map(|_| rand::random::<u8>()).collect();
    let blobs = get_blobs_from_data(&data).unwrap();

    let rcved_blob_data = blobs.concat();
    assert_eq!(rcved_blob_data.len(), blobs.len() * BLOB_SIZE);

    // Remove the padding
    let mut rcved_data = unpad(rcved_blob_data).unwrap();
    clean_field_elements(&mut rcved_data);

    assert_eq!(rcved_data, data)
}

#[test]
fn capacity_constants() {
    assert_eq!(USEFUL_BYTES_PER_BLOB, 31 * 1016);
    assert_eq!(USEFUL_BYTES_PER_BLOB, 31496);
    assert_eq!(MAX_USEFUL_BYTES_PER_TX, 31496 * 2 - 1);
    assert_eq!(BLOB_SIZE, 32 * FIELD_ELEMENTS_PER_BLOB);
    assert_eq!(MAX_BLOBS_PER_TX, 2);
}

#[test]
fn rejects_empty_input() {
    let data: Vec<u8> = Vec::new();
    let r = get_blobs_from_data(&data);
    assert_eq!(r.unwrap_err(), PackingError::DataLengthError);
}

#[test]
fn rejects_oversize_input() {
    let data = random_bytes(MAX_USEFUL_BYTES_PER_TX + 1);
    let r = get_blobs_from_data(&data);
    assert_eq!(r.unwrap_err(), PackingError::DataLengthError);
}

#[test]
fn boundary_fills_max_blobs() {
    let data = random_bytes(MAX_USEFUL_BYTES_PER_TX);
    let blobs = get_blobs_from_data(&data).unwrap();
    assert_eq!(blobs.len(), MAX_BLOBS_PER_TX);
    let rcved = unpack(&blobs).unwrap();
    assert_eq!(rcved, data);
}

#[test]
fn single_blob_roundtrip() {
    let data = random_bytes(31);
    let blobs = get_blobs_from_data(&data).unwrap();
    assert_eq!(blobs.len(), 1);
    let rcved = unpack(&blobs).unwrap();
    assert_eq!(rcved, data);
}

#[test]
fn two_blob_roundtrip() {
    let data = random_bytes(USEFUL_BYTES_PER_BLOB + 5);
    let blobs = get_blobs_from_data(&data).unwrap();
    assert_eq!(blobs.len(), 2);
    let rcved = unpack(&blobs).unwrap();
    assert_eq!(rcved, data);
}

#[test]
fn exact_blob_multiple_roundtrip() {
    // A payload that exactly fills one blob's usable bytes: the marker byte
    // needs a second blob.
    let data = random_bytes(USEFUL_BYTES_PER_BLOB);
    let blobs = get_blobs_from_data(&data).unwrap();
    assert_eq!(blobs.len(), 2);
    let rcved = unpack(&blobs).unwrap();
    assert_eq!(rcved, data);
}

#[test]
fn one_byte_roundtrip() {
    let data = vec![0xabu8];
    let blobs = get_blobs_from_data(&data).unwrap();
    assert_eq!(blobs.len(), 1);
    let rcved = unpack(&blobs).unwrap();
    assert_eq!(rcved, data);
}

#[test]
fn reserved_bytes_are_zero() {
    let data = random_bytes(1234);
    let blobs = get_blobs_from_data(&data).unwrap();
    for blob in &blobs {
        for f in 0..FIELD_ELEMENTS_PER_BLOB {
            assert_eq!(blob[f * 32 + 31], 0);
        }
    }
}

#[test]
fn blob_sizes_are_fixed() {
    let data = random_bytes(7);
    let blobs = get_blobs_from_data(&data).unwrap();
    for blob in &blobs {
        assert_eq!(blob.len(), BLOB_SIZE);
    }
}

#[test]
fn corruption_is_detected() {
    let data = random_bytes(10);
    let mut blobs = get_blobs_from_data(&data).unwrap();
    // A payload byte position deep inside the zero-fill of the only blob.
    blobs[0][BLOB_SIZE - 2] = 0x55;
    let r = unpack(&blobs);
    assert_eq!(r.unwrap_err(), PackingError::UnpadError);
}

#[test]
fn unpack_without_marker_fails() {
    let blobs = vec![vec![0u8; BLOB_SIZE]];
    let r = unpack(&blobs);
    assert_eq!(r.unwrap_err(), PackingError::UnpadError);
}
