use blob_packer::packer::{get_padded, USEFUL_BYTES_PER_BLOB};
use blob_packer::packer_tight::{get_padded_tight, USEFUL_BYTES_PER_TIGHT_BLOB};
use blob_packer::pad::unpad;
use blob_packer::PackingError;

#[test]
fn padded_layout() {
    let data = [1u8, 2, 3];
    let padded = get_padded(&data, 1);
    assert_eq!(padded.len(), USEFUL_BYTES_PER_BLOB);
    assert_eq!(&padded[..3], &data);
    assert_eq!(padded[3], 0x80);
    for i in 4..padded.len() {
        assert_eq!(padded[i], 0);
    }
}

#[test]
fn padded_tight_layout() {
    let data = [9u8, 8, 7, 6];
    let padded = get_padded_tight(&data, 2);
    assert_eq!(padded.len(), 2 * USEFUL_BYTES_PER_TIGHT_BLOB);
    assert_eq!(&padded[..4], &data);
    assert_eq!(padded[4], 0x80);
    for i in 5..padded.len() {
        assert_eq!(padded[i], 0);
    }
}

#[test]
fn unpad_strips_marker_and_fill() {
    let buf = [1u8, 2, 3, 0x80, 0, 0, 0];
    assert_eq!(unpad(&buf).unwrap(), vec![1u8, 2, 3]);
}

#[test]
fn unpad_marker_at_end() {
    let buf = [1u8, 2, 3, 0x80];
    assert_eq!(unpad(&buf).unwrap(), vec![1u8, 2, 3]);
}

#[test]
fn unpad_empty_payload() {
    let buf = [0x80u8, 0, 0];
    assert_eq!(unpad(&buf).unwrap(), Vec::<u8>::new());
}

#[test]
fn unpad_rejects_missing_marker() {
    let buf = [0u8, 0, 0];
    assert_eq!(unpad(&buf).unwrap_err(), PackingError::UnpadError);
}

#[test]
fn unpad_rejects_corrupt_fill() {
    let buf = [1u8, 2, 0x80, 0, 0x55, 0];
    assert_eq!(unpad(&buf).unwrap_err(), PackingError::UnpadError);
}

#[test]
fn unpad_rejects_empty_buffer() {
    let buf: [u8; 0] = [];
    assert_eq!(unpad(&buf).unwrap_err(), PackingError::UnpadError);
}
