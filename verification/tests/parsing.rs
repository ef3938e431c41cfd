use flate2::write::GzEncoder;
use flate2::Compression;
use neural_net::idx::{magic_number, MnistError};
use neural_net::mnist_parser::{one_hot, MnistData};
use neural_net::wasm_network;
use std::io::Write;

fn label_file() -> Vec<u8> {
    // magic 2049, 3 labels, payload 7 0 9
    vec![0, 0, 8, 1, 0, 0, 0, 3, 7, 0, 9]
}

fn image_file() -> Vec<u8> {
    // magic 2051, 2 images of 1 x 2 pixels
    vec![0, 0, 8, 3, 0, 0, 0, 2, 0, 0, 0, 1, 0, 0, 0, 2, 10, 20, 30, 40]
}

fn gzip(bytes: &[u8]) -> Vec<u8> {
    let mut e = GzEncoder::new(Vec::new(), Compression::default());
    e.write_all(bytes).unwrap();
    e.finish().unwrap()
}

#[test]
fn raw_label_file_is_parsed() {
    let d = wasm_network::MnistData::from_bytes(&label_file()).unwrap();
    assert_eq!(d.sizes, vec![3]);
    assert_eq!(d.data, vec![7, 0, 9]);
}

#[test]
fn raw_image_file_is_parsed() {
    let d = wasm_network::MnistData::from_bytes(&image_file()).unwrap();
    assert_eq!(d.sizes, vec![2, 1, 2]);
    assert_eq!(d.data, vec![10, 20, 30, 40]);
}

#[test]
fn sizes_are_big_endian_and_signed() {
    let bytes = vec![0, 0, 8, 1, 0x01, 0x02, 0x03, 0x04];
    let d = wasm_network::MnistData::from_bytes(&bytes).unwrap();
    assert_eq!(d.sizes, vec![0x01020304]);
    assert!(d.data.is_empty());
    let bytes = vec![0, 0, 8, 1, 0xff, 0xff, 0xff, 0xfe];
    let d = wasm_network::MnistData::from_bytes(&bytes).unwrap();
    assert_eq!(d.sizes, vec![-2]);
}

#[test]
fn short_input_is_unexpected_eof() {
    assert!(matches!(
        wasm_network::MnistData::from_bytes(&[0, 0, 8]).unwrap_err(),
        MnistError::UnexpectedEof
    ));
    assert!(matches!(
        wasm_network::MnistData::from_bytes(&[0, 0, 8, 3, 0, 0, 0, 2, 0]).unwrap_err(),
        MnistError::UnexpectedEof
    ));
    assert!(matches!(
        wasm_network::MnistData::from_bytes(&[0, 0, 8, 1, 0, 0]).unwrap_err(),
        MnistError::UnexpectedEof
    ));
}

#[test]
fn magic_number_reads_the_first_four_bytes() {
    assert_eq!(magic_number(&image_file()), Some(2051));
    assert_eq!(magic_number(&[0, 0, 8]), None);
    assert_eq!(magic_number(&[0xff, 0xff, 0xff, 0xff, 1]), Some(-1));
}

#[test]
fn gzip_file_is_decompressed_and_parsed() {
    let d = MnistData::from_bytes(&gzip(&image_file())).unwrap();
    assert_eq!(d.sizes, vec![2, 1, 2]);
    assert_eq!(d.data, vec![10, 20, 30, 40]);
}

#[test]
fn decompressed_content_is_parsed() {
    let d = MnistData::from_decompressed(&label_file()).unwrap();
    assert_eq!(d.sizes, vec![3]);
    assert_eq!(d.data, vec![7, 0, 9]);
}

#[test]
fn not_gzip_hands_back_the_decoder_error() {
    match MnistData::from_bytes(&label_file()).unwrap_err() {
        MnistError::Gzip(e) => assert_eq!(e.kind(), std::io::ErrorKind::InvalidInput),
        other => panic!("expected a gzip error, got {other:?}"),
    }
}

#[test]
fn truncated_gzip_is_an_unexpected_eof_from_the_decoder() {
    let full = gzip(&image_file());
    match MnistData::from_bytes(&full[..full.len() - 6]).unwrap_err() {
        MnistError::Gzip(e) => assert_eq!(e.kind(), std::io::ErrorKind::UnexpectedEof),
        other => panic!("expected a gzip error, got {other:?}"),
    }
}

#[test]
fn gzip_of_short_content_is_unexpected_eof() {
    assert!(matches!(
        MnistData::from_bytes(&gzip(&[0, 0])).unwrap_err(),
        MnistError::UnexpectedEof
    ));
}

#[test]
fn try_from_bytes_refuses_unknown_magic() {
    assert!(MnistData::try_from_bytes(&gzip(&[0, 0, 0, 1, 0, 0, 0, 0])).is_none());
    let ok = MnistData::try_from_bytes(&gzip(&label_file())).unwrap().unwrap();
    assert_eq!(ok.data, vec![7, 0, 9]);
    assert!(matches!(
        MnistData::try_from_bytes(&[1, 2, 3]).unwrap().unwrap_err(),
        MnistError::Gzip(_)
    ));
}

#[test]
fn one_hot_marks_each_label() {
    let m = one_hot(&[2, 0], 3, 0.0f32, 1.0f32);
    assert_eq!(m.shape(), (2, 3));
    assert_eq!(m.as_slice(), &[0.0, 0.0, 1.0, 1.0, 0.0, 0.0]);
}

#[test]
fn one_hot_of_no_labels_is_empty() {
    let m = one_hot(&[], 10, 0u8, 1u8);
    assert_eq!(m.shape(), (0, 10));
    assert!(m.as_slice().is_empty());
}
