use toy_rnn::mnist::{
    decode_mnist_bin, read_u32_le, MnistBinError, CLASS_COUNT, IMAGE_HEIGHT, IMAGE_WIDTH,
    PIXEL_COUNT,
};

fn header(version: u32, count: u32, width: u32, height: u32) -> Vec<u8> {
    let mut bytes = b"MNISTBIN".to_vec();
    for field in [version, count, width, height] {
        bytes.extend_from_slice(&field.to_le_bytes());
    }
    bytes
}

fn file_with(labels: &[u8], images: &[Vec<u8>]) -> Vec<u8> {
    let mut bytes = header(1, labels.len() as u32, 28, 28);
    bytes.extend_from_slice(labels);
    for image in images {
        bytes.extend_from_slice(image);
    }
    bytes
}

#[test]
fn constants_describe_28_by_28_images() {
    assert_eq!(IMAGE_WIDTH, 28);
    assert_eq!(IMAGE_HEIGHT, 28);
    assert_eq!(PIXEL_COUNT, IMAGE_WIDTH * IMAGE_HEIGHT);
    assert_eq!(CLASS_COUNT, 10);
}

#[test]
fn read_u32_le_reads_little_endian() {
    let bytes = [0xAA, 0x78, 0x56, 0x34, 0x12, 0xBB];
    assert_eq!(read_u32_le(&bytes, 1), 0x1234_5678);
    assert_eq!(read_u32_le(&[0xFF, 0xFF, 0xFF, 0xFF], 0), u32::MAX);
    assert_eq!(read_u32_le(&7u32.to_le_bytes(), 0), 7);
}

#[test]
fn decodes_labels_and_pixels() {
    let first: Vec<u8> = (0..PIXEL_COUNT).map(|i| (i % 256) as u8).collect();
    let second: Vec<u8> = (0..PIXEL_COUNT).map(|i| 255 - (i % 256) as u8).collect();
    let bytes = file_with(&[7, 2], &[first.clone(), second.clone()]);
    let dataset = decode_mnist_bin(&bytes).unwrap();
    assert_eq!(dataset.len(), 2);
    assert_eq!(dataset.get(0).label, 7);
    assert_eq!(dataset.get(1).label, 2);
    assert_eq!(dataset.get(0).pixels, first);
    assert_eq!(dataset.get(1).pixels, second);
}

#[test]
fn decodes_an_empty_file() {
    let bytes = file_with(&[], &[]);
    assert_eq!(decode_mnist_bin(&bytes).unwrap().len(), 0);
}

#[test]
fn rejects_a_short_header() {
    let bytes = header(1, 0, 28, 28);
    assert_eq!(
        decode_mnist_bin(&bytes[..23]).unwrap_err(),
        MnistBinError::IncompleteHeader
    );
    assert_eq!(decode_mnist_bin(&[]).unwrap_err(), MnistBinError::IncompleteHeader);
}

#[test]
fn rejects_bad_magic() {
    let mut bytes = file_with(&[], &[]);
    bytes[7] = b'X';
    assert_eq!(decode_mnist_bin(&bytes).unwrap_err(), MnistBinError::BadMagic);
}

#[test]
fn rejects_other_versions_and_sizes() {
    assert_eq!(
        decode_mnist_bin(&header(2, 0, 28, 28)).unwrap_err(),
        MnistBinError::UnsupportedVersion(2)
    );
    assert_eq!(
        decode_mnist_bin(&header(1, 0, 27, 28)).unwrap_err(),
        MnistBinError::UnexpectedWidth(27)
    );
    assert_eq!(
        decode_mnist_bin(&header(1, 0, 28, 29)).unwrap_err(),
        MnistBinError::UnexpectedHeight(29)
    );
    // the version is checked before the dimensions
    assert_eq!(
        decode_mnist_bin(&header(3, 0, 1, 1)).unwrap_err(),
        MnistBinError::UnsupportedVersion(3)
    );
}

#[test]
fn rejects_a_length_that_does_not_match_the_header() {
    let mut bytes = header(1, 1, 28, 28);
    bytes.push(5);
    assert_eq!(
        decode_mnist_bin(&bytes).unwrap_err(),
        MnistBinError::SizeMismatch { expected: 24 + 785, actual: 25 }
    );
    let mut long = file_with(&[], &[]);
    long.push(0);
    assert_eq!(
        decode_mnist_bin(&long).unwrap_err(),
        MnistBinError::SizeMismatch { expected: 24, actual: 25 }
    );
}
