//! The dense n-dimensional array container: a flat row-major buffer together
//! with an element-type tag and a shape vector.

use vstd::prelude::*;

verus! {

/// Product of the entries of a shape vector: the number of elements a dense
/// array of that shape holds.
pub open spec fn shape_product(s: Seq<usize>) -> nat
    decreases s.len(),
{
    if s.len() == 0 {
        1
    } else {
        shape_product(s.drop_last()) * (s.last() as nat)
    }
}

/// Every prefix product of the shape stays within `usize`, so the running
/// product in `NDArray::new` cannot overflow.
pub open spec fn shape_products_fit(s: Seq<usize>) -> bool {
    forall|i: int| 0 <= i <= s.len() ==> shape_product(#[trigger] s.take(i)) <= usize::MAX
}

/// A dense n-dimensional array: `data` holds the elements flattened in
/// row-major order, `dtype` names the element type in the evaluation
/// engine's type language, `shape` gives the extent of each axis.
pub struct NDArray<T> {
    pub data: Vec<T>,
    pub dtype: &'static str,
    pub size: usize,
    pub ndim: usize,
    pub shape: Vec<usize>,
}

impl<T> NDArray<T> {
    pub fn new(data: Vec<T>, dtype: &'static str, shape: Vec<usize>) -> (r: Self)
        requires
            shape_products_fit(shape@),
        ensures
            r.data == data,
            r.dtype == dtype,
            r.shape == shape,
            r.ndim == shape.len(),
            r.size == shape_product(shape@),
    {
        let mut size: usize = 1;
        let mut i: usize = 0;
        while i < shape.len()
            invariant
                0 <= i <= shape.len(),
                shape_products_fit(shape@),
                size == shape_product(shape@.take(i as int)),
            decreases shape.len() - i,
        {
            proof {
                assert(shape@.take(i + 1).drop_last() =~= shape@.take(i as int));
                assert(shape@.take(i + 1).last() == shape@[i as int]);
            }
            size = size * shape[i];
            i = i + 1;
        }
        proof {
            assert(shape@.take(shape@.len() as int) =~= shape@);
        }
        Self { data, dtype, size, ndim: shape.len(), shape }
    }

    /// Replaces the shape vector; `size` and `ndim` keep describing the
    /// shape the array was constructed with.
    pub fn reshape(&mut self, shape: Vec<usize>)
        ensures
            final(self).shape == shape,
            final(self).data == old(self).data,
            final(self).dtype == old(self).dtype,
            final(self).size == old(self).size,
            final(self).ndim == old(self).ndim,
    {
        self.shape = shape;
    }
}

} // verus!
