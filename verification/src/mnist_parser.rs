//! Reading gzip-compressed MNIST files, and turning labels into one-hot columns.
use crate::idx::{
    MnistError, header_complete, header_len, header_sizes, known_magic_or_short, parse_idx,
};
use crate::matrix::Matrix;
use flate2::read::GzDecoder;
use std::io::Read;
use vstd::prelude::*;

verus! {

#[verifier::external_type_specification]
#[verifier::external_body]
pub struct ExIoError(std::io::Error);

/// What `flate2`'s single-member gzip decoder yields for `data`:
/// `Some(content)` when decoding succeeds, `None` when it reports an error.
pub uninterp spec fn gzip_decoded(data: Seq<u8>) -> Option<Seq<u8>>;

/// Decompresses the first gzip member of `data` by
/// `flate2::read::GzDecoder::new(data).read_to_end(..)`.
///
/// Claims that the outcome depends on the bytes of `data` alone, which is named
/// `gzip_decoded`; nothing is said of the decompression itself.
#[verifier::external_body]
fn gunzip(data: &[u8]) -> (r: Result<Vec<u8>, std::io::Error>)
    ensures
        r is Ok <==> gzip_decoded(data@) is Some,
        r matches Ok(content) ==> gzip_decoded(data@) == Some(content@),
{
    let mut content = Vec::new();
    GzDecoder::new(data).read_to_end(&mut content).map(|_| content)
}

/// The decompressed file, when it can be decompressed, has a magic number the
/// format knows or is too short to hold one.
pub open spec fn gz_known_magic_or_short(f: Seq<u8>) -> bool {
    gzip_decoded(f) matches Some(content) ==> known_magic_or_short(content)
}

/// The sizes and payload of an MNIST file.
#[derive(Debug)]
pub struct MnistData {
    pub sizes: Vec<i32>,
    pub data: Vec<u8>,
}

impl MnistData {
    /// The result of reading the decompressed content `content`.
    pub open spec fn parsed_from(r: Result<MnistData, MnistError>, content: Seq<u8>) -> bool {
        &&& r is Ok <==> header_complete(content)
        &&& r matches Err(e) ==> e == MnistError::UnexpectedEof
        &&& r matches Ok(d) ==> {
            &&& d.sizes@ == header_sizes(content)
            &&& d.data@ == content.skip(header_len(content))
        }
    }

    /// Reads an MNIST file already decompressed.
    pub fn from_decompressed(content: &[u8]) -> (r: Result<MnistData, MnistError>)
        requires
            known_magic_or_short(content@),
        ensures
            Self::parsed_from(r, content@),
    {
        match parse_idx(content) {
            Ok((sizes, data)) => Ok(MnistData { sizes, data }),
            Err(e) => Err(e),
        }
    }

    /// Decompresses a gzip-compressed MNIST file and reads its sizes and payload.
    ///
    /// When the decoder fails, its error is handed back unchanged as `Gzip`.
    pub fn from_bytes(f: &[u8]) -> (r: Result<MnistData, MnistError>)
        requires
            gz_known_magic_or_short(f@),
        ensures
            gzip_decoded(f@) is None ==> r matches Err(MnistError::Gzip(_)),
            gzip_decoded(f@) matches Some(content) ==> Self::parsed_from(r, content),
    {
        match gunzip(f) {
            Err(e) => Err(MnistError::Gzip(e)),
            Ok(content) => Self::from_decompressed(content.as_slice()),
        }
    }

    /// `from_bytes` where the decompressed magic number is known; `None` where it
    /// is not (a file that `from_bytes` must not be given).
    pub fn try_from_bytes(f: &[u8]) -> (r: Option<Result<MnistData, MnistError>>)
        ensures
            r is None <==> !gz_known_magic_or_short(f@),
            r matches Some(res) ==> {
                &&& gzip_decoded(f@) is None ==> (res matches Err(MnistError::Gzip(_)))
                &&& gzip_decoded(f@) matches Some(content) ==> Self::parsed_from(res, content)
            },
    {
        match gunzip(f) {
            Err(e) => Some(Err(MnistError::Gzip(e))),
            Ok(content) => {
                let known = match crate::idx::magic_number(content.as_slice()) {
                    Some(m) => m == crate::idx::LABEL_MAGIC || m == crate::idx::IMAGE_MAGIC,
                    None => true,
                };
                if known {
                    Some(Self::from_decompressed(content.as_slice()))
                } else {
                    None
                }
            },
        }
    }
}

/// Labels as one-hot columns: row `i` of the result has `one` in column
/// `labels[i]` and `zero` everywhere else.
pub fn one_hot<T: Copy>(labels: &[u8], classes: usize, zero: T, one: T) -> (m: Matrix<T>)
    requires
        labels@.len() * classes <= usize::MAX,
        forall|i: int| 0 <= i < labels@.len() ==> #[trigger] labels@[i] < classes,
    ensures
        m.wf(),
        m.nrows() == labels@.len(),
        m.ncols() == classes,
        forall|i: int, j: int|
            0 <= i < labels@.len() && 0 <= j < classes ==> #[trigger] m.at(i, j) == if j
                == labels@[i] as int {
                one
            } else {
                zero
            },
{
    let n = labels.len();
    let mut out: Vec<T> = Vec::new();
    let mut i: usize = 0;
    while i < n
        invariant
            n == labels@.len(),
            n * classes <= usize::MAX,
            i <= n,
            out@.len() == i * classes,
            forall|a: int, b: int|
                0 <= a < i && 0 <= b < classes ==> #[trigger] crate::matrix::cell(
                    out@,
                    classes as nat,
                    a,
                    b,
                ) == if b == labels@[a] as int {
                    one
                } else {
                    zero
                },
        decreases n - i,
    {
        let label = labels[i] as usize;
        let mut j: usize = 0;
        while j < classes
            invariant
                n == labels@.len(),
                n * classes <= usize::MAX,
                i < n,
                label == labels@[i as int],
                j <= classes,
                out@.len() == i * classes + j,
                forall|a: int, b: int|
                    0 <= a < i && 0 <= b < classes ==> #[trigger] crate::matrix::cell(
                        out@,
                        classes as nat,
                        a,
                        b,
                    ) == if b == labels@[a] as int {
                        one
                    } else {
                        zero
                    },
                forall|b: int|
                    0 <= b < j ==> #[trigger] out@[i * classes + b] == if b == label as int {
                        one
                    } else {
                        zero
                    },
            decreases classes - j,
        {
            proof {
                crate::matrix::lemma_cell_index(i as int, j as int, n as int, classes as int);
            }
            let ghost before = out@;
            if j == label {
                out.push(one);
            } else {
                out.push(zero);
            }
            proof {
                assert forall|a: int, b: int| 0 <= a < i && 0 <= b < classes implies #[trigger] crate::matrix::cell(
                    out@,
                    classes as nat,
                    a,
                    b,
                ) == crate::matrix::cell(before, classes as nat, a, b) by {
                    assert(a * classes + b < i * classes) by (nonlinear_arith)
                        requires
                            0 <= a < i,
                            0 <= b < classes,
                    ;
                }
            }
            j = j + 1;
        }
        proof {
            assert forall|a: int, b: int| 0 <= a < i + 1 && 0 <= b < classes implies #[trigger] crate::matrix::cell(
                out@,
                classes as nat,
                a,
                b,
            ) == if b == labels@[a] as int {
                one
            } else {
                zero
            } by {
                if a == i {
                    assert(out@[i * classes + b] == if b == label as int {
                        one
                    } else {
                        zero
                    });
                }
            }
            assert((i + 1) * classes == i * classes + classes) by (nonlinear_arith);
        }
        i = i + 1;
    }
    let m = Matrix::from_vec(n, classes, out);
    assert forall|a: int, b: int| 0 <= a < labels@.len() && 0 <= b < classes implies #[trigger] m.at(
        a,
        b,
    ) == if b == labels@[a] as int {
        one
    } else {
        zero
    } by {
        assert(crate::matrix::cell(out@, classes as nat, a, b) == if b == labels@[a] as int {
            one
        } else {
            zero
        });
    }
    m
}

} // verus!
