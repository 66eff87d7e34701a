//! The shape rules of the UMICP numeric kernel. Every kernel operation first
//! validates its buffer lengths against the declared dimensions and fails
//! fast, before any element is touched; the checks here decide exactly when
//! an operation may proceed. The element arithmetic itself runs on
//! floating-point buffers and lives with the kernel's caller.

use vstd::prelude::*;

use crate::error::UmicpError;

verus! {

/// Matrix operations: dimension validation for every kernel operation.
#[derive(Debug)]
pub struct Matrix {}

impl Matrix {
    /// Create a new matrix operations instance.
    pub fn new() -> (r: Self)
        ensures
            r == (Matrix {  }),
    {
        Matrix {  }
    }

    /// Validate that three buffers all hold exactly `rows * cols` elements;
    /// matrix addition requires this of its two inputs and its output.
    pub fn validate_dimensions(
        &self,
        a_len: usize,
        b_len: usize,
        result_len: usize,
        rows: usize,
        cols: usize,
    ) -> (r: Result<(), UmicpError>)
        ensures
            r is Ok <==> a_len == (rows as nat) * (cols as nat) && b_len == (rows as nat) * (
            cols as nat) && result_len == (rows as nat) * (cols as nat),
            r matches Err(e) ==> e is Matrix,
    {
        match rows.checked_mul(cols) {
            Some(expected) => {
                if a_len == expected && b_len == expected && result_len == expected {
                    Ok(())
                } else {
                    Err(UmicpError::matrix("Invalid matrix dimensions"))
                }
            },
            None => Err(UmicpError::matrix("Invalid matrix dimensions")),
        }
    }

    /// Validate the lengths of an element-wise vector operation: the two
    /// inputs and the output must have one common length.
    pub fn check_elementwise(&self, a_len: usize, b_len: usize, result_len: usize) -> (r: Result<
        (),
        UmicpError,
    >)
        ensures
            r is Ok <==> a_len == b_len && a_len == result_len,
            r matches Err(e) ==> e is Matrix,
    {
        if a_len != b_len || a_len != result_len {
            Err(UmicpError::matrix("Vector length mismatch"))
        } else {
            Ok(())
        }
    }

    /// Validate the lengths of a two-vector operation (dot product, cosine
    /// similarity): the inputs must have one common length.
    pub fn check_pair(&self, a_len: usize, b_len: usize) -> (r: Result<(), UmicpError>)
        ensures
            r is Ok <==> a_len == b_len,
            r matches Err(e) ==> e is Matrix,
    {
        if a_len != b_len {
            Err(UmicpError::matrix("Vector length mismatch"))
        } else {
            Ok(())
        }
    }

    /// Validate the lengths of a vector scaling: input and output must have
    /// one common length.
    pub fn check_scale(&self, vector_len: usize, result_len: usize) -> (r: Result<(), UmicpError>)
        ensures
            r is Ok <==> vector_len == result_len,
            r matches Err(e) ==> e is Matrix,
    {
        if vector_len != result_len {
            Err(UmicpError::matrix("Vector length mismatch"))
        } else {
            Ok(())
        }
    }

    /// Validate the lengths of a matrix product of an `m x n` by an `n x p`
    /// matrix into an `m x p` output.
    pub fn check_multiply(
        &self,
        a_len: usize,
        b_len: usize,
        result_len: usize,
        m: usize,
        n: usize,
        p: usize,
    ) -> (r: Result<(), UmicpError>)
        ensures
            r is Ok <==> a_len == (m as nat) * (n as nat) && b_len == (n as nat) * (p as nat)
                && result_len == (m as nat) * (p as nat),
            r matches Err(e) ==> e is Matrix,
    {
        let a_ok = match m.checked_mul(n) {
            Some(v) => a_len == v,
            None => false,
        };
        let b_ok = match n.checked_mul(p) {
            Some(v) => b_len == v,
            None => false,
        };
        let r_ok = match m.checked_mul(p) {
            Some(v) => result_len == v,
            None => false,
        };
        if a_ok && b_ok && r_ok {
            Ok(())
        } else {
            Err(UmicpError::matrix("Invalid matrix dimensions"))
        }
    }

    /// Validate the lengths of a transpose of a `rows x cols` matrix into a
    /// `cols x rows` output.
    pub fn check_transpose(
        &self,
        input_len: usize,
        output_len: usize,
        rows: usize,
        cols: usize,
    ) -> (r: Result<(), UmicpError>)
        ensures
            r is Ok <==> input_len == (rows as nat) * (cols as nat) && output_len == (cols as nat)
                * (rows as nat),
            r matches Err(e) ==> e is Matrix,
    {
        let in_ok = match rows.checked_mul(cols) {
            Some(v) => input_len == v,
            None => false,
        };
        let out_ok = match cols.checked_mul(rows) {
            Some(v) => output_len == v,
            None => false,
        };
        if in_ok && out_ok {
            Ok(())
        } else {
            Err(UmicpError::matrix("Invalid transpose dimensions"))
        }
    }

    /// Validate the length of an in-place row normalization of a
    /// `rows x cols` matrix.
    pub fn check_normalize(&self, matrix_len: usize, rows: usize, cols: usize) -> (r: Result<
        (),
        UmicpError,
    >)
        ensures
            r is Ok <==> matrix_len == (rows as nat) * (cols as nat),
            r matches Err(e) ==> e is Matrix,
    {
        let ok = match rows.checked_mul(cols) {
            Some(v) => matrix_len == v,
            None => false,
        };
        if ok {
            Ok(())
        } else {
            Err(UmicpError::matrix("Invalid matrix dimensions"))
        }
    }

    /// Decide whether a determinant may be computed: the buffer must hold a
    /// `size x size` matrix, and only sizes one and two have a closed form —
    /// any larger size is a permanent unimplemented-operation error, never an
    /// approximation.
    pub fn check_determinant(&self, matrix_len: usize, size: usize) -> (r: Result<(), UmicpError>)
        ensures
            r is Ok <==> matrix_len == (size as nat) * (size as nat) && (size == 1 || size == 2),
            r matches Err(e) ==> e is Matrix,
            matrix_len == (size as nat) * (size as nat) && !(size == 1 || size == 2) ==> (
            r matches Err(e) && e.spec_message()
                == "Determinant calculation for matrices larger than 2x2 not yet implemented"@),
    {
        let len_ok = match size.checked_mul(size) {
            Some(v) => matrix_len == v,
            None => false,
        };
        if !len_ok {
            Err(UmicpError::matrix("Invalid matrix dimensions for determinant"))
        } else if size == 1 || size == 2 {
            Ok(())
        } else {
            Err(
                UmicpError::matrix(
                    "Determinant calculation for matrices larger than 2x2 not yet implemented",
                ),
            )
        }
    }

    /// Decide whether an inverse may be computed: both buffers must hold a
    /// `size x size` matrix and only the closed-form `2 x 2` case is
    /// implemented; any other size is a permanent unimplemented-operation
    /// error. (Whether the matrix is singular is decided by its entries, not
    /// by its shape.)
    pub fn check_inverse(&self, matrix_len: usize, result_len: usize, size: usize) -> (r: Result<
        (),
        UmicpError,
    >)
        ensures
            r is Ok <==> matrix_len == (size as nat) * (size as nat) && result_len == (size as nat)
                * (size as nat) && size == 2,
            r matches Err(e) ==> e is Matrix,
            matrix_len == (size as nat) * (size as nat) && result_len == (size as nat) * (
            size as nat) && size != 2 ==> (r matches Err(e) && e.spec_message()
                == "Matrix inverse for matrices larger than 2x2 not yet implemented"@),
    {
        let len_ok = match size.checked_mul(size) {
            Some(v) => matrix_len == v && result_len == v,
            None => false,
        };
        if !len_ok {
            Err(UmicpError::matrix("Invalid matrix dimensions for inverse"))
        } else if size == 2 {
            Ok(())
        } else {
            Err(UmicpError::matrix("Matrix inverse for matrices larger than 2x2 not yet implemented"))
        }
    }
}

impl Default for Matrix {
    /// The default instance, as `Matrix::new` makes it.
    fn default() -> (r: Self)
        ensures
            r == (Matrix {  }),
    {
        Matrix::new()
    }
}

} // verus!
