//! Validated tensor descriptions used as input to the encoder.
use vstd::prelude::*;
use crate::dtype::{dtype_of_name, parse_dtype, Dtype};
use crate::error::SafetensorError;

verus! {

/// The number of elements of a tensor of the given shape.
pub open spec fn shape_product(s: Seq<usize>) -> nat
    decreases s.len(),
{
    if s.len() == 0 {
        1
    } else {
        shape_product(s.drop_last()) * (s.last() as nat)
    }
}

/// The number of bytes a tensor of the given dtype and shape occupies.
pub open spec fn byte_size(d: Dtype, s: Seq<usize>) -> nat {
    d.spec_width() * shape_product(s)
}

proof fn lemma_product_zero(s: Seq<usize>, i: int)
    requires
        0 <= i < s.len(),
        s[i] == 0,
    ensures
        shape_product(s) == 0,
    decreases s.len(),
{
    let a = shape_product(s.drop_last());
    let b = s.last() as nat;
    if i < s.len() - 1 {
        lemma_product_zero(s.drop_last(), i);
        assert(a * b == 0) by (nonlinear_arith) requires a == 0;
    } else {
        assert(a * b == 0) by (nonlinear_arith) requires b == 0;
    }
}

proof fn lemma_product_grows(s: Seq<usize>, n: int)
    requires
        0 <= n <= s.len(),
        forall|i: int| 0 <= i < s.len() ==> s[i] >= 1,
    ensures
        shape_product(s.subrange(0, n)) <= shape_product(s),
    decreases s.len() - n,
{
    if n < s.len() {
        lemma_product_grows(s, n + 1);
        let p = s.subrange(0, n + 1);
        assert(p.drop_last() =~= s.subrange(0, n));
        let a = shape_product(s.subrange(0, n));
        let b = s[n] as nat;
        assert(a <= a * b) by (nonlinear_arith) requires b >= 1;
    } else {
        assert(s.subrange(0, n) =~= s);
    }
}

/// Computes the number of elements of `shape`; fails `ShapeOverflow` when it
/// does not fit in a `usize`.
pub fn element_count(shape: &[usize]) -> (r: Result<usize, SafetensorError>)
    ensures
        match r {
            Ok(n) => n as nat == shape_product(shape@),
            Err(e) => e == SafetensorError::ShapeOverflow && shape_product(shape@) > usize::MAX,
        },
        r.is_err() <==> shape_product(shape@) > usize::MAX,
{
    let mut i: usize = 0;
    while i < shape.len()
        invariant
            i <= shape@.len(),
            forall|j: int| 0 <= j < i ==> shape@[j] >= 1,
        decreases shape@.len() - i,
    {
        if shape[i] == 0 {
            proof { lemma_product_zero(shape@, i as int); }
            return Ok(0);
        }
        i = i + 1;
    }
    let mut acc: usize = 1;
    let mut k: usize = 0;
    assert(shape@.subrange(0, 0).len() == 0);
    while k < shape.len()
        invariant
            k <= shape@.len(),
            forall|j: int| 0 <= j < shape@.len() ==> shape@[j] >= 1,
            acc as nat == shape_product(shape@.subrange(0, k as int)),
        decreases shape@.len() - k,
    {
        assert(shape@.subrange(0, k + 1).drop_last() =~= shape@.subrange(0, k as int));
        match acc.checked_mul(shape[k]) {
            Some(m) => {
                acc = m;
            },
            None => {
                proof { lemma_product_grows(shape@, k + 1); }
                return Err(SafetensorError::ShapeOverflow);
            },
        }
        k = k + 1;
    }
    assert(shape@.subrange(0, k as int) =~= shape@);
    Ok(acc)
}

/// A tensor's element type, shape and bytes, borrowed from the caller.
/// The bytes always match the dtype and the shape.
pub struct TensorView<'a> {
    dtype: Dtype,
    shape: Vec<usize>,
    data: &'a [u8],
}

impl<'a> TensorView<'a> {
    pub closed spec fn spec_dtype(&self) -> Dtype {
        self.dtype
    }

    pub closed spec fn spec_shape(&self) -> Seq<usize> {
        self.shape@
    }

    pub closed spec fn spec_data(&self) -> Seq<u8> {
        self.data@
    }

    #[verifier::type_invariant]
    spec fn inv(&self) -> bool {
        self.data@.len() == byte_size(self.dtype, self.shape@)
    }

    /// Validates and borrows a tensor: fails `ShapeOverflow` when the element
    /// count does not fit in a `usize`, else `ByteLengthMismatch` when `data`
    /// does not hold exactly `width * element_count` bytes.
    pub fn new(dtype: Dtype, shape: Vec<usize>, data: &'a [u8]) -> (r: Result<Self, SafetensorError>)
        ensures
            shape_product(shape@) > usize::MAX ==> r == Err::<Self, _>(SafetensorError::ShapeOverflow),
            shape_product(shape@) <= usize::MAX && data@.len() != byte_size(dtype, shape@)
                ==> r == Err::<Self, _>(SafetensorError::ByteLengthMismatch),
            r is Ok <==> data@.len() == byte_size(dtype, shape@),
            r matches Ok(v) ==> v.spec_dtype() == dtype && v.spec_shape() == shape@ && v.spec_data() == data@,
    {
        let dl = data.len();
        let n = match element_count(shape.as_slice()) {
            Ok(n) => n,
            Err(e) => {
                assert(data@.len() != byte_size(dtype, shape@)) by (nonlinear_arith)
                    requires
                        shape_product(shape@) > usize::MAX,
                        dtype.spec_width() >= 1,
                        data@.len() <= usize::MAX,
                        byte_size(dtype, shape@) == dtype.spec_width() * shape_product(shape@),
                ;
                return Err(e);
            },
        };
        let w = dtype.width();
        let ok = match n.checked_mul(w) {
            Some(b) => b == dl,
            None => {
                assert((n as nat) * (w as nat) > usize::MAX);
                false
            },
        };
        assert(byte_size(dtype, shape@) == (n as nat) * (w as nat)) by (nonlinear_arith)
            requires w as nat == dtype.spec_width(), n as nat == shape_product(shape@);
        if ok {
            Ok(TensorView { dtype, shape, data })
        } else {
            Err(SafetensorError::ByteLengthMismatch)
        }
    }

    /// Builds a view from a dtype name, a shape and bytes: fails
    /// `UnsupportedDtype` when the name is unknown, else as `new` fails.
    pub fn from_parts(dtype: &[u8], shape: Vec<usize>, data: &'a [u8]) -> (r: Result<Self, SafetensorError>)
        ensures
            dtype_of_name(dtype@) is None ==> r == Err::<Self, _>(SafetensorError::UnsupportedDtype),
            dtype_of_name(dtype@) matches Some(d) ==> {
                &&& shape_product(shape@) > usize::MAX ==> r == Err::<Self, _>(SafetensorError::ShapeOverflow)
                &&& shape_product(shape@) <= usize::MAX && data@.len() != byte_size(d, shape@)
                    ==> r == Err::<Self, _>(SafetensorError::ByteLengthMismatch)
                &&& r is Ok <==> data@.len() == byte_size(d, shape@)
                &&& r matches Ok(v) ==> v.spec_dtype() == d && v.spec_shape() == shape@ && v.spec_data() == data@
            },
    {
        match parse_dtype(dtype) {
            Ok(d) => TensorView::new(d, shape, data),
            Err(e) => Err(e),
        }
    }

    pub fn dtype(&self) -> (r: Dtype)
        ensures
            r == self.spec_dtype(),
    {
        self.dtype
    }

    pub fn shape(&self) -> (r: &[usize])
        ensures
            r@ == self.spec_shape(),
    {
        self.shape.as_slice()
    }

    pub fn data(&self) -> (r: &'a [u8])
        ensures
            r@ == self.spec_data(),
            r@.len() == byte_size(self.spec_dtype(), self.spec_shape()),
    {
        proof { use_type_invariant(self); }
        self.data
    }
}

} // verus!
