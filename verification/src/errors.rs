use vstd::prelude::*;

verus! {

/// The error taxonomy of the library: wrong command arity or an unreadable
/// numeric argument; a dataset with no valid rows; a feature vector whose
/// length disagrees with the fixed input size; and a persisted-state failure.
#[derive(Clone, Copy, Debug, PartialEq, Eq, Structural)]
pub enum NetError {
    ArgumentError,
    DataError,
    ShapeError,
    IoError,
}

}
