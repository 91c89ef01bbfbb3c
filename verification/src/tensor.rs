//! Shape descriptors for contiguous multi-dimensional tensors.

use vstd::prelude::*;

verus! {

/// Errors raised by tensor shape queries.
#[derive(Debug, Clone, PartialEq, Eq)]
pub enum TensorError {
    /// The shape of a buffer differs from the expected one.
    ShapeMismatch { expected: Vec<usize>, actual: Vec<usize> },
    /// An axis index is at or beyond the rank.
    DimOutOfBounds { dim: usize, rank: usize },
    /// The element count of a shape differs from the buffer length (or overflows).
    ElementCountMismatch { expected: usize, actual: usize },
}

/// Shape descriptor for multi-dimensional tensors.
#[derive(Debug, Clone, PartialEq, Eq)]
pub struct TensorShape {
    dims: Vec<usize>,
}

/// Product of the first `k` dimensions.
pub open spec fn spec_prefix_product(dims: Seq<usize>, k: int) -> int
    decreases k,
{
    if k <= 0 {
        1
    } else {
        spec_prefix_product(dims, k - 1) * dims[k - 1]
    }
}

/// Every running product of the dimensions fits in a `usize`.
pub open spec fn spec_products_fit(dims: Seq<usize>) -> bool {
    forall|k: int| 0 <= k <= dims.len() ==> #[trigger] spec_prefix_product(dims, k) <= usize::MAX
}

/// Total element count of a shape: 0 for the empty shape, otherwise the product.
pub open spec fn spec_num_elements(dims: Seq<usize>) -> int {
    if dims.len() == 0 {
        0
    } else {
        spec_prefix_product(dims, dims.len() as int)
    }
}

impl View for TensorShape {
    type V = Seq<usize>;

    closed spec fn view(&self) -> Seq<usize> {
        self.dims@
    }
}

proof fn lemma_prefix_product_nonneg(dims: Seq<usize>, k: int)
    ensures
        spec_prefix_product(dims, k) >= 0,
    decreases k,
{
    if k > 0 {
        lemma_prefix_product_nonneg(dims, k - 1);
        assert(spec_prefix_product(dims, k - 1) * dims[k - 1] >= 0) by (nonlinear_arith)
            requires
                spec_prefix_product(dims, k - 1) >= 0,
                dims[k - 1] >= 0,
        ;
    }
}

impl TensorShape {
    /// Creates a shape from its dimensions.
    pub fn new(dims: Vec<usize>) -> (r: Self)
        ensures
            r@ == dims@,
    {
        Self { dims }
    }

    /// Number of axes.
    pub fn rank(&self) -> (r: usize)
        ensures
            r == self@.len(),
    {
        self.dims.len()
    }

    /// The dimensions.
    pub fn dims(&self) -> (r: &[usize])
        ensures
            r@ == self@,
    {
        self.dims.as_slice()
    }

    /// Size of axis `index`, or `DimOutOfBounds` when `index >= rank`.
    pub fn dim(&self, index: usize) -> (r: Result<usize, TensorError>)
        ensures
            index < self@.len() ==> r == Ok::<usize, TensorError>(self@[index as int]),
            index >= self@.len() ==> r == Err::<usize, TensorError>(
                TensorError::DimOutOfBounds { dim: index, rank: self@.len() as usize },
            ),
    {
        if index < self.dims.len() {
            Ok(self.dims[index])
        } else {
            Err(TensorError::DimOutOfBounds { dim: index, rank: self.dims.len() })
        }
    }

    /// Total number of elements, with checked overflow arithmetic.
    ///
    /// The empty shape has 0 elements. The product is accumulated left to right
    /// and the first running product that overflows yields `ElementCountMismatch`.
    pub fn try_num_elements(&self) -> (r: Result<usize, TensorError>)
        ensures
            spec_products_fit(self@) ==> r == Ok::<usize, TensorError>(
                spec_num_elements(self@) as usize,
            ),
            !spec_products_fit(self@) ==> r == Err::<usize, TensorError>(
                TensorError::ElementCountMismatch { expected: usize::MAX, actual: 0 },
            ),
    {
        if self.dims.len() == 0 {
            proof {
                assert forall|k: int| 0 <= k <= self@.len() implies #[trigger] spec_prefix_product(
                    self@,
                    k,
                ) <= usize::MAX by {
                    assert(k == 0);
                }
            }
            return Ok(0);
        }
        let mut acc: usize = 1;
        let mut i: usize = 0;
        while i < self.dims.len()
            invariant
                i <= self@.len(),
                self.dims@ == self@,
                acc as int == spec_prefix_product(self@, i as int),
                forall|k: int| 0 <= k <= i ==> #[trigger] spec_prefix_product(self@, k) <= usize::MAX,
            decreases self.dims.len() - i,
        {
            let d = self.dims[i];
            proof {
                lemma_prefix_product_nonneg(self@, i as int);
            }
            match acc.checked_mul(d) {
                Some(p) => {
                    acc = p;
                    i += 1;
                    proof {
                        assert forall|k: int| 0 <= k <= i implies #[trigger] spec_prefix_product(
                            self@,
                            k,
                        ) <= usize::MAX by {
                            if k < i {
                            }
                        }
                    }
                },
                None => {
                    assert(!spec_products_fit(self@)) by {
                        assert(spec_prefix_product(self@, i + 1) > usize::MAX);
                    }
                    return Err(TensorError::ElementCountMismatch { expected: usize::MAX, actual: 0 });
                },
            }
        }
        Ok(acc)
    }

    /// Total number of elements. The product must fit in a `usize`.
    pub fn num_elements(&self) -> (r: usize)
        requires
            spec_products_fit(self@),
        ensures
            r == spec_num_elements(self@),
    {
        proof {
            lemma_prefix_product_nonneg(self@, self@.len() as int);
            assert(spec_prefix_product(self@, self@.len() as int) <= usize::MAX);
        }
        match self.try_num_elements() {
            Ok(n) => n,
            Err(_) => 0,
        }
    }
}

} // verus!
