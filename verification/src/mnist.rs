//! The binary MNIST format: a 24-byte header (the magic bytes `MNISTBIN`,
//! then the version, the image count, the width and the height, each a
//! little-endian `u32`), one label byte per image, then the pixels of every
//! image, one byte each, image after image, each image in row-major order.
use vstd::prelude::*;

verus! {

/// Width of an MNIST image, in pixels.
pub const IMAGE_WIDTH: usize = 28;

/// Height of an MNIST image, in pixels.
pub const IMAGE_HEIGHT: usize = 28;

/// Number of pixels of an MNIST image.
pub const PIXEL_COUNT: usize = 784;

/// Number of digit classes.
pub const CLASS_COUNT: usize = 10;

/// The only version of the binary layout that is understood.
pub const MNIST_BIN_VERSION: u32 = 1;

/// Length of the header: the magic bytes and four `u32` fields.
pub const HEADER_SIZE: usize = 24;

/// One image: its digit label and its pixels, one byte each (0 is black,
/// 255 is white), row-major.
#[derive(Debug, Clone)]
pub struct MnistNumber {
    pub label: u8,
    pub pixels: Vec<u8>,
}

/// A decoded set of images.
#[derive(Debug, Clone)]
pub struct MnistDataset {
    pub numbers: Vec<MnistNumber>,
}

/// Why a byte buffer is not an MNIST binary file.
#[derive(Debug, Clone, Copy, PartialEq, Eq, Structural)]
pub enum MnistBinError {
    /// Fewer bytes than a header holds.
    IncompleteHeader,
    /// The first eight bytes are not `MNISTBIN`.
    BadMagic,
    /// The version field, which is not the supported one.
    UnsupportedVersion(u32),
    /// The width field, which is not `IMAGE_WIDTH`.
    UnexpectedWidth(u32),
    /// The height field, which is not `IMAGE_HEIGHT`.
    UnexpectedHeight(u32),
    /// The length that the header announces, and the real length.
    SizeMismatch { expected: u64, actual: u64 },
}

/// The magic bytes `MNISTBIN`.
pub open spec fn magic_bytes() -> Seq<u8> {
    seq![0x4Du8, 0x4Eu8, 0x49u8, 0x53u8, 0x54u8, 0x42u8, 0x49u8, 0x4Eu8]
}

/// The little-endian `u32` stored at `offset`.
pub open spec fn le_u32_at(bytes: Seq<u8>, offset: int) -> int {
    bytes[offset] + 256 * bytes[offset + 1] + 65536 * bytes[offset + 2] + 16777216 * bytes[offset
        + 3]
}

/// The version field.
pub open spec fn header_version(bytes: Seq<u8>) -> int {
    le_u32_at(bytes, 8)
}

/// The image count field.
pub open spec fn header_count(bytes: Seq<u8>) -> int {
    le_u32_at(bytes, 12)
}

/// The width field.
pub open spec fn header_width(bytes: Seq<u8>) -> int {
    le_u32_at(bytes, 16)
}

/// The height field.
pub open spec fn header_height(bytes: Seq<u8>) -> int {
    le_u32_at(bytes, 20)
}

/// The length of a file whose header announces `count` images.
pub open spec fn expected_len(count: int) -> int {
    HEADER_SIZE + count * (1 + PIXEL_COUNT)
}

/// What is wrong with `bytes`, checked in this order; `None` when it is a
/// well-formed file.
pub open spec fn decode_error(bytes: Seq<u8>) -> Option<MnistBinError> {
    if bytes.len() < HEADER_SIZE {
        Some(MnistBinError::IncompleteHeader)
    } else if bytes.subrange(0, 8) != magic_bytes() {
        Some(MnistBinError::BadMagic)
    } else if header_version(bytes) != MNIST_BIN_VERSION {
        Some(MnistBinError::UnsupportedVersion(header_version(bytes) as u32))
    } else if header_width(bytes) != IMAGE_WIDTH {
        Some(MnistBinError::UnexpectedWidth(header_width(bytes) as u32))
    } else if header_height(bytes) != IMAGE_HEIGHT {
        Some(MnistBinError::UnexpectedHeight(header_height(bytes) as u32))
    } else if bytes.len() != expected_len(header_count(bytes)) {
        Some(
            MnistBinError::SizeMismatch {
                expected: expected_len(header_count(bytes)) as u64,
                actual: bytes.len() as u64,
            },
        )
    } else {
        None
    }
}

/// The label byte of image `i` of a well-formed file.
pub open spec fn label_of(bytes: Seq<u8>, i: int) -> u8 {
    bytes[HEADER_SIZE + i]
}

/// The pixel bytes of image `i` of a well-formed file.
pub open spec fn pixels_of(bytes: Seq<u8>, i: int) -> Seq<u8> {
    let start = HEADER_SIZE + header_count(bytes) + i * PIXEL_COUNT;
    bytes.subrange(start, start + PIXEL_COUNT)
}

/// `dataset` holds exactly the images that the well-formed file `bytes` holds.
pub open spec fn holds_images_of(dataset: MnistDataset, bytes: Seq<u8>) -> bool {
    &&& dataset.numbers@.len() == header_count(bytes)
    &&& forall|i: int|
        0 <= i < dataset.numbers@.len() ==> {
            &&& (#[trigger] dataset.numbers@[i]).label == label_of(bytes, i)
            &&& dataset.numbers@[i].pixels@ == pixels_of(bytes, i)
        }
}

/// An image has `IMAGE_WIDTH * IMAGE_HEIGHT` pixels.
pub proof fn lemma_pixel_count_is_width_times_height()
    ensures
        PIXEL_COUNT == IMAGE_WIDTH * IMAGE_HEIGHT,
{
}

/// In a well-formed file every announced image is complete: it lies inside
/// the file and has `PIXEL_COUNT` pixels, after all labels.
pub proof fn lemma_images_are_complete(bytes: Seq<u8>, i: int)
    requires
        decode_error(bytes) is None,
        0 <= i < header_count(bytes),
    ensures
        pixels_of(bytes, i).len() == PIXEL_COUNT,
        HEADER_SIZE + header_count(bytes) + (i + 1) * PIXEL_COUNT <= bytes.len(),
        HEADER_SIZE + i < HEADER_SIZE + header_count(bytes),
{
    assert((i + 1) * 784 <= header_count(bytes) * 784) by (nonlinear_arith)
        requires
            i < header_count(bytes),
    ;
}

/// What decoding accepts and how it reports a refusal: an accepted file has
/// the magic bytes, version 1, 28 by 28 images, and exactly one label byte
/// and `PIXEL_COUNT` pixel bytes per announced image after the header; each
/// error carries the field it found, or both lengths.
pub proof fn lemma_decode_verdicts(bytes: Seq<u8>)
    requires
        bytes.len() <= usize::MAX,
    ensures
        decode_error(bytes) is None ==> {
            &&& bytes.len() >= HEADER_SIZE
            &&& bytes.subrange(0, 8) == magic_bytes()
            &&& header_version(bytes) == 1
            &&& header_width(bytes) == 28
            &&& header_height(bytes) == 28
            &&& bytes.len() == HEADER_SIZE + header_count(bytes) + header_count(bytes) * PIXEL_COUNT
        },
        bytes.len() < HEADER_SIZE <==> decode_error(bytes) == Some(MnistBinError::IncompleteHeader),
        decode_error(bytes) matches Some(MnistBinError::UnsupportedVersion(v)) ==> v
            == header_version(bytes) && v != 1,
        decode_error(bytes) matches Some(MnistBinError::UnexpectedWidth(w)) ==> w == header_width(
            bytes,
        ) && w != 28,
        decode_error(bytes) matches Some(MnistBinError::UnexpectedHeight(h)) ==> h
            == header_height(bytes) && h != 28,
        decode_error(bytes) matches Some(MnistBinError::SizeMismatch { expected, actual }) ==> {
            &&& actual == bytes.len()
            &&& expected == HEADER_SIZE + header_count(bytes) * 785
            &&& expected != actual
        },
{
    if bytes.len() >= HEADER_SIZE {
        assert(0 <= header_version(bytes) < 0x1_0000_0000);
        assert(0 <= header_width(bytes) < 0x1_0000_0000);
        assert(0 <= header_height(bytes) < 0x1_0000_0000);
        assert(0 <= header_count(bytes) < 0x1_0000_0000);
        assert(header_count(bytes) * 785 < 0x1_0000_0000 * 785) by (nonlinear_arith)
            requires
                0 <= header_count(bytes) < 0x1_0000_0000,
        ;
        assert(header_count(bytes) * (1 + PIXEL_COUNT) == header_count(bytes) + header_count(
            bytes,
        ) * PIXEL_COUNT) by (nonlinear_arith);
    }
}

/// The four little-endian bytes of `x`.
pub open spec fn le_u32_bytes(x: nat) -> Seq<u8> {
    seq![
        (x % 256) as u8,
        (x / 256 % 256) as u8,
        (x / 256 / 256 % 256) as u8,
        (x / 256 / 256 / 256 % 256) as u8,
    ]
}

/// The file that holds `images`, labelled `labels`, in this layout.
pub open spec fn encode_mnist_bin(labels: Seq<u8>, images: Seq<Seq<u8>>) -> Seq<u8> {
    magic_bytes() + le_u32_bytes(MNIST_BIN_VERSION as nat) + le_u32_bytes(labels.len())
        + le_u32_bytes(IMAGE_WIDTH as nat) + le_u32_bytes(IMAGE_HEIGHT as nat) + labels
        + images.flatten()
}

/// Reading the little-endian bytes of a `u32` gives it back.
pub proof fn lemma_le_u32_roundtrip(x: nat)
    requires
        x < 0x1_0000_0000,
    ensures
        le_u32_at(le_u32_bytes(x), 0) == x,
{
    let q1 = x / 256;
    let q2 = q1 / 256;
    let q3 = q2 / 256;
    assert(x == x % 256 + 256 * q1);
    assert(q1 == q1 % 256 + 256 * q2);
    assert(q2 == q2 % 256 + 256 * q3);
    assert(q3 < 256);
}

/// Flattening images of `PIXEL_COUNT` pixels each puts pixel `k` of image `i`
/// at `i * PIXEL_COUNT + k`.
proof fn lemma_flatten_images(images: Seq<Seq<u8>>)
    requires
        forall|i: int| 0 <= i < images.len() ==> (#[trigger] images[i]).len() == PIXEL_COUNT,
    ensures
        images.flatten().len() == images.len() * PIXEL_COUNT,
        forall|i: int, k: int|
            0 <= i < images.len() && 0 <= k < PIXEL_COUNT ==> images.flatten()[i * PIXEL_COUNT
                + k] == #[trigger] images[i][k],
    decreases images.len(),
{
    if images.len() > 0 {
        let rest = images.drop_first();
        assert forall|i: int| 0 <= i < rest.len() implies (#[trigger] rest[i]).len()
            == PIXEL_COUNT by {
            assert(rest[i] == images[i + 1]);
        }
        lemma_flatten_images(rest);
        assert forall|i: int, k: int|
            0 <= i < images.len() && 0 <= k < PIXEL_COUNT implies images.flatten()[i
            * PIXEL_COUNT + k] == #[trigger] images[i][k] by {
            if i > 0 {
                assert(rest[i - 1] == images[i]);
                assert(rest.flatten()[(i - 1) * PIXEL_COUNT + k] == rest[i - 1][k]);
            }
        }
    }
}

/// Any images of `IMAGE_WIDTH` by `IMAGE_HEIGHT` pixels, labelled, written in
/// this layout, read back unchanged: the file is well-formed, announces as
/// many images as were written, and holds each label and each image in the
/// order written.
pub proof fn lemma_encode_then_decode(labels: Seq<u8>, images: Seq<Seq<u8>>)
    requires
        labels.len() == images.len(),
        labels.len() < 0x1_0000_0000,
        forall|i: int| 0 <= i < images.len() ==> (#[trigger] images[i]).len() == PIXEL_COUNT,
    ensures
        decode_error(encode_mnist_bin(labels, images)) is None,
        header_count(encode_mnist_bin(labels, images)) == labels.len(),
        forall|i: int|
            0 <= i < labels.len() ==> label_of(encode_mnist_bin(labels, images), i)
                == #[trigger] labels[i],
        forall|i: int|
            0 <= i < images.len() ==> pixels_of(encode_mnist_bin(labels, images), i)
                == #[trigger] images[i],
{
    let bytes = encode_mnist_bin(labels, images);
    let n = labels.len();
    lemma_flatten_images(images);
    lemma_le_u32_roundtrip(MNIST_BIN_VERSION as nat);
    lemma_le_u32_roundtrip(n);
    lemma_le_u32_roundtrip(IMAGE_WIDTH as nat);
    lemma_le_u32_roundtrip(IMAGE_HEIGHT as nat);
    assert(bytes.len() == HEADER_SIZE + n + n * PIXEL_COUNT);
    assert(bytes.subrange(0, 8) =~= magic_bytes());
    assert(bytes.subrange(8, 12) =~= le_u32_bytes(MNIST_BIN_VERSION as nat));
    assert(bytes.subrange(12, 16) =~= le_u32_bytes(n));
    assert(bytes.subrange(16, 20) =~= le_u32_bytes(IMAGE_WIDTH as nat));
    assert(bytes.subrange(20, 24) =~= le_u32_bytes(IMAGE_HEIGHT as nat));
    assert(header_version(bytes) == le_u32_at(bytes.subrange(8, 12), 0));
    assert(header_count(bytes) == le_u32_at(bytes.subrange(12, 16), 0));
    assert(header_width(bytes) == le_u32_at(bytes.subrange(16, 20), 0));
    assert(header_height(bytes) == le_u32_at(bytes.subrange(20, 24), 0));
    assert(expected_len(n as int) == HEADER_SIZE + n + n * PIXEL_COUNT) by (nonlinear_arith);
    assert forall|i: int| 0 <= i < n implies label_of(bytes, i) == #[trigger] labels[i] by {
        assert(bytes[HEADER_SIZE + i] == labels[i]);
    }
    assert forall|i: int| 0 <= i < n implies pixels_of(bytes, i) == #[trigger] images[i] by {
        assert forall|k: int| 0 <= k < PIXEL_COUNT implies #[trigger] pixels_of(bytes, i)[k]
            == images[i][k] by {
            assert(pixels_of(bytes, i)[k] == images.flatten()[i * PIXEL_COUNT + k]);
        }
        assert(pixels_of(bytes, i) =~= images[i]);
    }
}

impl MnistDataset {
    /// The number of images.
    pub fn len(&self) -> (n: usize)
        ensures
            n == self.numbers@.len(),
    {
        self.numbers.len()
    }

    /// The image at `index`.
    pub fn get(&self, index: usize) -> (number: &MnistNumber)
        requires
            index < self.numbers@.len(),
        ensures
            *number == self.numbers@[index as int],
    {
        &self.numbers[index]
    }
}

/// Reads the little-endian `u32` that starts at `offset`.
pub fn read_u32_le(bytes: &[u8], offset: usize) -> (value: u32)
    requires
        offset + 4 <= bytes@.len(),
    ensures
        value == le_u32_at(bytes@, offset as int),
{
    let b0 = bytes[offset] as u32;
    let b1 = bytes[offset + 1] as u32;
    let b2 = bytes[offset + 2] as u32;
    let b3 = bytes[offset + 3] as u32;
    b0 + 256 * b1 + 65536 * b2 + 16777216 * b3
}

/// Whether the first eight bytes are `MNISTBIN`.
fn has_magic(bytes: &[u8]) -> (ok: bool)
    requires
        bytes@.len() >= 8,
    ensures
        ok == (bytes@.subrange(0, 8) == magic_bytes()),
{
    let ok = bytes[0] == 0x4D && bytes[1] == 0x4E && bytes[2] == 0x49 && bytes[3] == 0x53
        && bytes[4] == 0x54 && bytes[5] == 0x42 && bytes[6] == 0x49 && bytes[7] == 0x4E;
    proof {
        if ok {
            assert(bytes@.subrange(0, 8) =~= magic_bytes());
        } else {
            if bytes@.subrange(0, 8) == magic_bytes() {
                assert(bytes@.subrange(0, 8)[0] == bytes@[0]);
                assert(bytes@.subrange(0, 8)[1] == bytes@[1]);
                assert(bytes@.subrange(0, 8)[2] == bytes@[2]);
                assert(bytes@.subrange(0, 8)[3] == bytes@[3]);
                assert(bytes@.subrange(0, 8)[4] == bytes@[4]);
                assert(bytes@.subrange(0, 8)[5] == bytes@[5]);
                assert(bytes@.subrange(0, 8)[6] == bytes@[6]);
                assert(bytes@.subrange(0, 8)[7] == bytes@[7]);
            }
        }
    }
    ok
}

/// Copies `bytes[start..end]` into a new vector.
fn copy_range(bytes: &[u8], start: usize, end: usize) -> (out: Vec<u8>)
    requires
        start <= end <= bytes@.len(),
    ensures
        out@ == bytes@.subrange(start as int, end as int),
{
    let mut out: Vec<u8> = Vec::new();
    let mut i: usize = start;
    while i < end
        invariant
            start <= i <= end <= bytes@.len(),
            out@ == bytes@.subrange(start as int, i as int),
        decreases end - i,
    {
        out.push(bytes[i]);
        i = i + 1;
        assert(out@ =~= bytes@.subrange(start as int, i as int));
    }
    out
}

/// Decodes an MNIST binary file held in memory.
pub fn decode_mnist_bin(bytes: &[u8]) -> (result: Result<MnistDataset, MnistBinError>)
    ensures
        match decode_error(bytes@) {
            Some(error) => result == Err::<MnistDataset, MnistBinError>(error),
            None => result matches Ok(dataset) && holds_images_of(dataset, bytes@),
        },
{
    if bytes.len() < HEADER_SIZE {
        return Err(MnistBinError::IncompleteHeader);
    }
    if !has_magic(bytes) {
        return Err(MnistBinError::BadMagic);
    }
    let version = read_u32_le(bytes, 8);
    let count = read_u32_le(bytes, 12);
    let width = read_u32_le(bytes, 16);
    let height = read_u32_le(bytes, 20);
    if version != MNIST_BIN_VERSION {
        return Err(MnistBinError::UnsupportedVersion(version));
    }
    if width as usize != IMAGE_WIDTH {
        return Err(MnistBinError::UnexpectedWidth(width));
    }
    if height as usize != IMAGE_HEIGHT {
        return Err(MnistBinError::UnexpectedHeight(height));
    }
    let expected: u64 = 24 + (count as u64) * 785;
    let actual: u64 = bytes.len() as u64;
    if expected != actual {
        return Err(MnistBinError::SizeMismatch { expected, actual });
    }
    let count: usize = count as usize;
    let labels_start: usize = HEADER_SIZE;
    let pixels_start: usize = labels_start + count;
    let mut numbers: Vec<MnistNumber> = Vec::new();
    let mut i: usize = 0;
    let total_len: usize = bytes.len();
    while i < count
        invariant
            bytes@.len() == expected_len(count as int),
            bytes@.len() == total_len,
            count == header_count(bytes@),
            labels_start == HEADER_SIZE,
            pixels_start == HEADER_SIZE + count,
            i <= count,
            numbers@.len() == i,
            forall|j: int|
                0 <= j < i ==> {
                    &&& (#[trigger] numbers@[j]).label == label_of(bytes@, j)
                    &&& numbers@[j].pixels@ == pixels_of(bytes@, j)
                },
        decreases count - i,
    {
        proof {
            assert((i + 1) * 784 <= count * 784) by (nonlinear_arith)
                requires
                    i < count,
            ;
            assert((i + 1) * 784 == i * 784 + 784) by (nonlinear_arith);
            assert(pixels_start + i * 784 + 784 <= total_len);
        }
        let start: usize = pixels_start + i * PIXEL_COUNT;
        let pixels = copy_range(bytes, start, start + PIXEL_COUNT);
        numbers.push(MnistNumber { label: bytes[labels_start + i], pixels });
        i = i + 1;
    }
    Ok(MnistDataset { numbers })
}

} // verus!
