//! Argument checks for applying rotary position embeddings from precomputed tables.

use vstd::prelude::*;

verus! {

/// Why rotary embeddings cannot be applied.
#[derive(Debug, Clone, Copy, PartialEq, Eq, Structural)]
pub enum RopeError {
    /// The position lies outside the precomputed tables.
    PosOutOfBounds { pos: usize, max: usize },
    /// A query or key buffer is shorter than its heads need.
    BufferTooSmall { required: usize, actual: usize },
}

/// Where the table rows for `pos` start: positions at or past `max_seq_len`, or whose
/// `half_dim` entries would run past `table_len`, are out of bounds.
pub fn rope_table_offset(pos: usize, max_seq_len: usize, half_dim: usize, table_len: usize) -> (r: Result<usize, RopeError>)
    requires
        pos < max_seq_len ==> (pos + 1) * half_dim <= usize::MAX,
    ensures
        pos >= max_seq_len ==> r == Err::<usize, RopeError>(RopeError::PosOutOfBounds { pos, max: max_seq_len }),
        pos < max_seq_len && pos * half_dim + half_dim > table_len
            ==> r == Err::<usize, RopeError>(RopeError::PosOutOfBounds { pos, max: max_seq_len }),
        pos < max_seq_len && pos * half_dim + half_dim <= table_len ==> r == Ok::<usize, RopeError>((pos * half_dim) as usize),
{
    if pos >= max_seq_len {
        return Err(RopeError::PosOutOfBounds { pos, max: max_seq_len });
    }
    proof {
        assert((pos + 1) * half_dim == pos * half_dim + half_dim) by (nonlinear_arith);
        assert(pos * half_dim <= (pos + 1) * half_dim) by (nonlinear_arith);
    }
    let offset = pos * half_dim;
    if offset + half_dim > table_len {
        return Err(RopeError::PosOutOfBounds { pos, max: max_seq_len });
    }
    Ok(offset)
}

/// Whether a buffer of `len` values holds `n_heads` heads of `head_dim` values.
pub fn rope_buffer_check(len: usize, n_heads: usize, head_dim: usize) -> (r: Result<(), RopeError>)
    requires
        n_heads * head_dim <= usize::MAX,
    ensures
        len < n_heads * head_dim ==> r == Err::<(), RopeError>(RopeError::BufferTooSmall {
            required: (n_heads * head_dim) as usize,
            actual: len,
        }),
        len >= n_heads * head_dim ==> r is Ok,
{
    let required = n_heads * head_dim;
    if len < required {
        return Err(RopeError::BufferTooSmall { required, actual: len });
    }
    Ok(())
}

} // verus!
