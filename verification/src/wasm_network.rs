//! The data checks behind the browser-facing network: uncompressed MNIST files
//! and the agreement between a layer architecture and a data set.
use crate::idx::{MnistError, header_complete, header_len, header_sizes, known_magic_or_short, parse_idx};
use vstd::prelude::*;

verus! {

/// The sizes and payload of an uncompressed MNIST file.
#[derive(Debug)]
pub struct MnistData {
    pub sizes: Vec<i32>,
    pub data: Vec<u8>,
}

impl MnistData {
    /// Reads the sizes and payload of an uncompressed MNIST file.
    ///
    /// Fails with `UnexpectedEof` when the input ends inside the header.
    pub fn from_bytes(bytes: &[u8]) -> (r: Result<MnistData, MnistError>)
        requires
            known_magic_or_short(bytes@),
        ensures
            r is Ok <==> header_complete(bytes@),
            r matches Err(e) ==> e == MnistError::UnexpectedEof,
            r matches Ok(d) ==> {
                &&& d.sizes@ == header_sizes(bytes@)
                &&& d.data@ == bytes@.skip(header_len(bytes@))
            },
    {
        match parse_idx(bytes) {
            Ok((sizes, data)) => Ok(MnistData { sizes, data }),
            Err(e) => Err(e),
        }
    }
}

/// Which part of the data a shape check is about.
#[derive(Debug, Clone, Copy, PartialEq, Eq, Structural)]
pub enum DataSplit {
    Train,
    Test,
}

/// Why an architecture and a data set do not fit together.
#[derive(Debug, Clone, Copy, PartialEq, Eq, Structural)]
pub enum ShapeError {
    /// Fewer than two layer sizes (an input and an output) were given.
    TooFewLayers,
    /// The inputs and the targets hold different numbers of examples.
    ColumnMismatch,
    /// The first layer size differs from the number of input rows, given here.
    FirstLayer(DataSplit, usize),
    /// The last layer size differs from the number of target rows, given here.
    LastLayer(DataSplit, usize),
}

/// At least an input and an output layer.
pub fn check_architecture(arch: &[usize]) -> (r: Result<(), ShapeError>)
    ensures
        r is Ok <==> arch@.len() >= 2,
        r matches Err(e) ==> e == ShapeError::TooFewLayers,
{
    if arch.len() < 2 {
        Err(ShapeError::TooFewLayers)
    } else {
        Ok(())
    }
}

/// Checks inputs of shape `x` and targets of shape `y` (both `(rows, columns)`,
/// one example per column) against the layer sizes `arch`: the same number of
/// examples, as many input rows as the first layer has units and as many target
/// rows as the last layer has. The first failing check decides the error.
pub fn check_data_shapes(
    arch: &[usize],
    x: (usize, usize),
    y: (usize, usize),
    split: DataSplit,
) -> (r: Result<(), ShapeError>)
    requires
        arch@.len() >= 2,
    ensures
        r is Ok <==> (x.1 == y.1 && x.0 == arch@[0] && y.0 == arch@[arch@.len() - 1]),
        x.1 != y.1 ==> r == Err::<(), ShapeError>(ShapeError::ColumnMismatch),
        x.1 == y.1 && x.0 != arch@[0] ==> r == Err::<(), ShapeError>(
            ShapeError::FirstLayer(split, x.0),
        ),
        x.1 == y.1 && x.0 == arch@[0] && y.0 != arch@[arch@.len() - 1] ==> r == Err::<
            (),
            ShapeError,
        >(ShapeError::LastLayer(split, y.0)),
{
    if x.1 != y.1 {
        return Err(ShapeError::ColumnMismatch);
    }
    if x.0 != arch[0] {
        return Err(ShapeError::FirstLayer(split, x.0));
    }
    if y.0 != arch[arch.len() - 1] {
        return Err(ShapeError::LastLayer(split, y.0));
    }
    Ok(())
}

} // verus!
