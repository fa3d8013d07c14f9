use vstd::prelude::*;
use vstd::string::StringExecFns;

verus! {

/// Why a transform refused its input columns.
#[derive(Debug, Clone, PartialEq, Eq)]
pub enum ColumnError {
    /// Two columns are neither of one length nor is one of them of length 1.
    LengthMismatch { left: usize, right: usize },
    /// A column's element type is not the one the transform requires.
    TypeMismatch { expected: DType, found: DType },
    /// The element type is outside the set the transform supports.
    UnsupportedDtype { dtype: String },
}

/// Element type of a column as the host engine reports it.
#[derive(Debug, Clone, PartialEq, Eq)]
pub enum DType {
    Int32,
    Int64,
    Float32,
    Float64,
    /// Any other type, by its name.
    Other(String),
}

/// The message that refuses element type `name` for the max reducers.
pub fn unsupported_dtype_message(name: &str) -> (r: String)
    ensures
        r@ == "dtype "@ + name@ + " not supported, expected Int32, Int64, Float32 or Float64."@,
{
    let mut r = String::from_str("dtype ");
    r.append(name);
    r.append(" not supported, expected Int32, Int64, Float32 or Float64.");
    r
}

/// Length of the result of combining columns of lengths `n` and `m` position by position:
/// equal lengths combine as they are and a length-1 column stands for every position.
pub open spec fn broadcast_len(n: nat, m: nat) -> Option<nat> {
    if n == m {
        Some(n)
    } else if n == 1 {
        Some(m)
    } else if m == 1 {
        Some(n)
    } else {
        None
    }
}

/// The value that column `c` contributes at position `i` once broadcast.
pub open spec fn at<T>(c: Seq<T>, i: int) -> T {
    if c.len() == 1 {
        c[0]
    } else {
        c[i]
    }
}

/// Length of the broadcast of two columns, or the error that names both lengths.
pub fn broadcast_length(n: usize, m: usize) -> (r: Result<usize, ColumnError>)
    ensures
        match broadcast_len(n as nat, m as nat) {
            Some(l) => r == Ok::<usize, ColumnError>(l as usize),
            None => r == Err::<usize, ColumnError>(ColumnError::LengthMismatch { left: n, right: m }),
        },
{
    if n == m {
        Ok(n)
    } else if n == 1 {
        Ok(m)
    } else if m == 1 {
        Ok(n)
    } else {
        Err(ColumnError::LengthMismatch { left: n, right: m })
    }
}

/// The values of a text column as character sequences.
pub open spec fn texts(s: Seq<Option<String>>) -> Seq<Option<Seq<char>>> {
    s.map_values(|o: Option<String>| match o {
        Some(v) => Some(v@),
        None => None,
    })
}

/// Position in a column of length `len` that broadcast position `i` reads.
pub fn source_index(len: usize, i: usize) -> (r: usize)
    ensures
        r == (if len == 1 { 0 } else { i }),
{
    if len == 1 {
        0
    } else {
        i
    }
}

} // verus!
