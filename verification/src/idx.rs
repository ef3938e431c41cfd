//! The IDX file format used by the MNIST data set.
//!
//! A file starts with a big-endian 32-bit magic number: 2049 for a label file,
//! which is followed by one big-endian 32-bit size, and 2051 for an image file,
//! which is followed by three. Everything after the sizes is the payload.
use byteorder::{BigEndian, ByteOrder};
use vstd::prelude::*;

verus! {

/// Magic number of an IDX file of labels (one dimension).
pub const LABEL_MAGIC: i32 = 2049;

/// Magic number of an IDX file of images (three dimensions).
pub const IMAGE_MAGIC: i32 = 2051;

/// Why an IDX file could not be read.
#[derive(Debug)]
pub enum MnistError {
    /// The input ends before the header does.
    UnexpectedEof,
    /// The gzip decoder failed; this is its error, as it reported it.
    Gzip(std::io::Error),
}

/// The four bytes at `at`, read as a big-endian two's-complement integer.
pub open spec fn be_i32_at(bytes: Seq<u8>, at: int) -> int {
    let u = bytes[at] as int * 16777216 + bytes[at + 1] as int * 65536 + bytes[at + 2] as int * 256
        + bytes[at + 3] as int;
    if u >= 2147483648 {
        u - 4294967296
    } else {
        u
    }
}

/// The magic number of `bytes` is one of the two the format knows, or the
/// input is too short to hold one.
pub open spec fn known_magic_or_short(bytes: Seq<u8>) -> bool {
    bytes.len() >= 4 ==> (be_i32_at(bytes, 0) == LABEL_MAGIC as int || be_i32_at(bytes, 0)
        == IMAGE_MAGIC as int)
}

/// Number of sizes that follow the magic number.
pub open spec fn dimension_count(magic: int) -> nat {
    if magic == LABEL_MAGIC as int {
        1
    } else {
        3
    }
}

/// Length of the header: the magic number and the sizes.
pub open spec fn header_len(bytes: Seq<u8>) -> int {
    (4 + 4 * dimension_count(be_i32_at(bytes, 0))) as int
}

/// The input holds a complete header.
pub open spec fn header_complete(bytes: Seq<u8>) -> bool {
    bytes.len() >= 4 && bytes.len() >= header_len(bytes)
}

/// The sizes stored in the header.
pub open spec fn header_sizes(bytes: Seq<u8>) -> Seq<i32> {
    Seq::new(dimension_count(be_i32_at(bytes, 0)), |k: int| be_i32_at(bytes, 4 + 4 * k) as i32)
}

/// Reads the big-endian `i32` at position `at`, by `byteorder::BigEndian::read_i32`.
///
/// Claims of `BigEndian::read_i32(&buf[at..])` what its source shows:
/// `u32::from_be_bytes` of the first four bytes, reinterpreted as `i32`.
#[verifier::external_body]
fn read_be_i32(buf: &[u8], at: usize) -> (r: i32)
    requires
        at + 4 <= buf@.len(),
    ensures
        r as int == be_i32_at(buf@, at as int),
{
    BigEndian::read_i32(&buf[at..])
}

/// The value of a big-endian `i32` always fits an `i32`.
proof fn lemma_be_i32_range(bytes: Seq<u8>, at: int)
    requires
        0 <= at,
        at + 4 <= bytes.len(),
    ensures
        i32::MIN <= be_i32_at(bytes, at) <= i32::MAX,
{
}

/// The header as it lies in the bytes: a label file (first bytes `00 00 08 01`)
/// has one size and an image file (`00 00 08 03`) three; they follow the magic
/// number in file order, size `k` being the big-endian two's-complement
/// integer in bytes `4 + 4k .. 8 + 4k`; and the payload starts right after them.
pub proof fn lemma_header_layout(bytes: Seq<u8>)
    requires
        bytes.len() >= 4,
    ensures
        bytes[0] == 0 && bytes[1] == 0 && bytes[2] == 8 && bytes[3] == 1 ==> header_sizes(
            bytes,
        ).len() == 1,
        bytes[0] == 0 && bytes[1] == 0 && bytes[2] == 8 && bytes[3] == 3 ==> header_sizes(
            bytes,
        ).len() == 3,
        header_len(bytes) == 4 + 4 * header_sizes(bytes).len(),
        forall|k: int|
            0 <= k < header_sizes(bytes).len() && 8 + 4 * k <= bytes.len() ==> #[trigger] header_sizes(
                bytes,
            )[k] as int == if bytes[4 + 4 * k] >= 128 {
                (bytes[4 + 4 * k] as int - 256) * 16777216 + bytes[5 + 4 * k] as int * 65536
                    + bytes[6 + 4 * k] as int * 256 + bytes[7 + 4 * k] as int
            } else {
                bytes[4 + 4 * k] as int * 16777216 + bytes[5 + 4 * k] as int * 65536
                    + bytes[6 + 4 * k] as int * 256 + bytes[7 + 4 * k] as int
            },
{
    assert forall|k: int|
        0 <= k < header_sizes(bytes).len() && 8 + 4 * k <= bytes.len() implies #[trigger] header_sizes(
        bytes,
    )[k] as int == if bytes[4 + 4 * k] >= 128 {
        (bytes[4 + 4 * k] as int - 256) * 16777216 + bytes[5 + 4 * k] as int * 65536 + bytes[6 + 4
            * k] as int * 256 + bytes[7 + 4 * k] as int
    } else {
        bytes[4 + 4 * k] as int * 16777216 + bytes[5 + 4 * k] as int * 65536 + bytes[6 + 4
            * k] as int * 256 + bytes[7 + 4 * k] as int
    } by {
        lemma_be_i32_range(bytes, 4 + 4 * k);
    }
}

/// The magic number, when the input is long enough to hold one.
pub fn magic_number(bytes: &[u8]) -> (r: Option<i32>)
    ensures
        bytes@.len() < 4 ==> r is None,
        bytes@.len() >= 4 ==> r == Some(be_i32_at(bytes@, 0) as i32),
{
    if bytes.len() < 4 {
        None
    } else {
        Some(read_be_i32(bytes, 0))
    }
}

/// Splits an IDX file into its sizes and its payload.
///
/// Fails with `UnexpectedEof` when the input ends inside the header.
pub fn parse_idx(bytes: &[u8]) -> (r: Result<(Vec<i32>, Vec<u8>), MnistError>)
    requires
        known_magic_or_short(bytes@),
    ensures
        r is Ok <==> header_complete(bytes@),
        r matches Err(e) ==> e == MnistError::UnexpectedEof,
        r matches Ok((sizes, data)) ==> {
            &&& sizes@ == header_sizes(bytes@)
            &&& data@ == bytes@.skip(header_len(bytes@))
        },
{
    let len = bytes.len();
    if len < 4 {
        return Err(MnistError::UnexpectedEof);
    }
    let magic = read_be_i32(bytes, 0);
    let count: usize = if magic == LABEL_MAGIC {
        1
    } else {
        3
    };
    if len < 4 + 4 * count {
        return Err(MnistError::UnexpectedEof);
    }
    let mut sizes: Vec<i32> = Vec::new();
    let mut k: usize = 0;
    while k < count
        invariant
            len == bytes@.len(),
            count == dimension_count(be_i32_at(bytes@, 0)),
            4 + 4 * count <= len,
            k <= count,
            sizes@.len() == k,
            forall|q: int| 0 <= q < k ==> #[trigger] sizes@[q] == header_sizes(bytes@)[q],
        decreases count - k,
    {
        let v = read_be_i32(bytes, 4 + 4 * k);
        proof {
            lemma_be_i32_range(bytes@, 4 + 4 * k);
        }
        sizes.push(v);
        k = k + 1;
    }
    let start = 4 + 4 * count;
    let mut data: Vec<u8> = Vec::new();
    let mut p: usize = start;
    while p < len
        invariant
            len == bytes@.len(),
            start <= p <= len,
            data@ == bytes@.subrange(start as int, p as int),
        decreases len - p,
    {
        data.push(bytes[p]);
        p = p + 1;
        assert(data@ =~= bytes@.subrange(start as int, p as int));
    }
    assert(sizes@ =~= header_sizes(bytes@));
    assert(data@ =~= bytes@.skip(header_len(bytes@)));
    Ok((sizes, data))
}

} // verus!
