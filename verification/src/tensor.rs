//! Dense row-major tensors of 32-bit elements.
//!
//! An element is kept as the bit pattern of an IEEE-754 single-precision
//! number; the all-zero pattern is positive zero. The heavy lifting (filling,
//! stacking, slicing) is done by the `ndarray` crate.

use vstd::prelude::*;

verus! {

/// Number of elements of an array with the given axis lengths.
pub open spec fn dims_product(dims: Seq<usize>) -> nat
    decreases dims.len(),
{
    if dims.len() == 0 {
        1
    } else {
        (dims[0] as nat) * dims_product(dims.skip(1))
    }
}

/// Product of the axis lengths that are not zero.
pub open spec fn nonzero_product(dims: Seq<usize>) -> nat
    decreases dims.len(),
{
    if dims.len() == 0 {
        1
    } else if dims[0] == 0 {
        nonzero_product(dims.skip(1))
    } else {
        (dims[0] as nat) * nonzero_product(dims.skip(1))
    }
}

/// A shape can be represented when the product of its non-zero axis lengths
/// does not exceed `isize::MAX`.
pub open spec fn shape_fits(dims: Seq<usize>) -> bool {
    nonzero_product(dims) <= isize::MAX as nat
}

/// The mathematical value of a tensor: its axis lengths and its elements in
/// row-major order.
pub struct TensorView {
    pub dims: Seq<usize>,
    pub elems: Seq<u32>,
}

impl TensorView {
    /// Number of elements in one slice along the leading axis.
    pub open spec fn stride(self) -> nat {
        dims_product(self.dims.skip(1))
    }

    /// The elements of slice `i` along the leading axis.
    pub open spec fn row(self, i: int) -> Seq<u32> {
        self.elems.subrange(i * self.stride(), (i + 1) * self.stride())
    }

    /// Every element is the zero bit pattern.
    pub open spec fn all_zero(self) -> bool {
        forall|j: int| 0 <= j < self.elems.len() ==> self.elems[j] == 0u32
    }

    /// The shape is representable and there is exactly one element per index.
    pub open spec fn well_formed(self) -> bool {
        shape_fits(self.dims) && self.elems.len() == dims_product(self.dims)
    }
}

/// Why a shape and a buffer do not make a tensor.
#[derive(Debug, Clone, Copy, PartialEq, Eq)]
pub enum ShapeError {
    /// The product of the non-zero axis lengths exceeds `isize::MAX`.
    Overflow,
    /// The buffer does not hold exactly one element per index.
    LengthMismatch,
}

/// An owned tensor of any rank.
#[derive(Debug)]
pub struct Tensor {
    shape: Vec<usize>,
    data: Vec<u32>,
}

impl View for Tensor {
    type V = TensorView;

    closed spec fn view(&self) -> TensorView {
        TensorView { dims: self.shape@, elems: self.data@ }
    }
}

impl Tensor {
    /// Holds of every tensor: the shape is representable and there is one
    /// element per index.
    #[verifier::type_invariant]
    pub open spec fn inv(self) -> bool {
        self@.well_formed()
    }

    /// Makes a tensor from its axis lengths and its elements in row-major
    /// order.
    pub fn from_shape_vec(shape: Vec<usize>, data: Vec<u32>) -> (r: Result<Tensor, ShapeError>)
        ensures
            r is Ok <==> shape_fits(shape@) && dims_product(shape@) == data@.len(),
            r is Ok ==> r.unwrap()@.dims == shape@ && r.unwrap()@.elems == data@,
            r == Err::<Tensor, ShapeError>(ShapeError::Overflow) <==> !shape_fits(shape@),
    {
        match checked_size(&shape) {
            None => Err(ShapeError::Overflow),
            Some(n) => {
                if n == data.len() {
                    Ok(Tensor { shape, data })
                } else {
                    Err(ShapeError::LengthMismatch)
                }
            },
        }
    }

    /// A tensor of the given shape whose elements are all zero.
    pub fn zeros(shape: Vec<usize>) -> (r: Result<Tensor, ShapeError>)
        ensures
            r is Ok <==> shape_fits(shape@),
            r is Err ==> r == Err::<Tensor, ShapeError>(ShapeError::Overflow),
            r is Ok ==> {
                let t = r.unwrap()@;
                &&& t.dims == shape@
                &&& t.elems.len() == dims_product(shape@)
                &&& t.all_zero()
            },
    {
        match checked_size(&shape) {
            None => Err(ShapeError::Overflow),
            Some(_) => {
                let data = nd_zeros(&shape);
                Ok(Tensor { shape, data })
            },
        }
    }

    /// The axis lengths.
    pub fn shape(&self) -> (r: &Vec<usize>)
        ensures
            r@ == self@.dims,
    {
        &self.shape
    }

    /// The elements in row-major order.
    pub fn data(&self) -> (r: &Vec<u32>)
        ensures
            r@ == self@.elems,
    {
        &self.data
    }

    /// Gives up the tensor for its elements in row-major order.
    pub fn into_data(self) -> (r: Vec<u32>)
        ensures
            r@ == self@.elems,
    {
        self.data
    }

    /// The number of axes.
    pub fn ndim(&self) -> (r: usize)
        ensures
            r == self@.dims.len(),
    {
        self.shape.len()
    }

    /// The number of elements.
    pub fn len(&self) -> (r: usize)
        ensures
            r == self@.elems.len(),
            r == dims_product(self@.dims),
    {
        proof {
            use_type_invariant(self);
        }
        self.data.len()
    }

    /// The length of the leading axis, or `None` for a tensor without axes.
    pub fn leading(&self) -> (r: Option<usize>)
        ensures
            r == (if self@.dims.len() == 0 {
                None
            } else {
                Some(self@.dims[0])
            }),
    {
        if self.shape.len() == 0 {
            None
        } else {
            Some(self.shape[0])
        }
    }

    /// Slice `index` along the leading axis, as a tensor of one axis less, or
    /// `None` when there is no such slice.
    pub fn index_axis0(&self, index: usize) -> (r: Option<Tensor>)
        ensures
            r is Some <==> self@.dims.len() >= 1 && index < self@.dims[0],
            r is Some ==> r.unwrap()@.dims == self@.dims.skip(1) && r.unwrap()@.elems
                == self@.row(index as int),
    {
        proof {
            use_type_invariant(self);
        }
        if self.shape.len() >= 1 && index < self.shape[0] {
            Some(nd_index_axis0(self, index))
        } else {
            None
        }
    }

    /// Stacks tensors of one common shape along a new leading axis. `None`
    /// when the list is empty, when a shape differs from the first, or when
    /// the stacked shape is not representable.
    pub fn stack(parts: &Vec<Tensor>) -> (r: Option<Tensor>)
        ensures
            r is Some <==> can_stack(parts@),
            r is Some ==> {
                let t = r.unwrap()@;
                &&& t.dims == seq![parts.len() as usize] + parts[0]@.dims
                &&& forall|i: int| 0 <= i < parts.len() ==> #[trigger] t.row(i) == parts[i]@.elems
            },
    {
        if parts.len() == 0 {
            return None;
        }
        let mut i: usize = 0;
        while i < parts.len()
            invariant
                i <= parts.len(),
                parts.len() > 0,
                forall|k: int| 0 <= k < i ==> (#[trigger] parts[k])@.dims == parts[0]@.dims,
                forall|k: int| 0 <= k < i ==> (#[trigger] parts[k])@.well_formed(),
            decreases parts.len() - i,
        {
            let part = &parts[i];
            proof {
                use_type_invariant(part);
            }
            if !same_dims(&part.shape, &parts[0].shape) {
                return None;
            }
            i = i + 1;
        }
        nd_stack(parts)
    }
}

impl Clone for Tensor {
    fn clone(&self) -> (r: Tensor)
        ensures
            r@ == self@,
    {
        proof {
            use_type_invariant(self);
        }
        let shape = self.shape.clone();
        let data = self.data.clone();
        assert(shape@ =~= self.shape@);
        assert(data@ =~= self.data@);
        Tensor { shape, data }
    }
}

/// The tensors of a list can be stacked: there is at least one, they all have
/// the shape of the first, and the stacked shape is representable.
pub open spec fn can_stack(parts: Seq<Tensor>) -> bool {
    &&& parts.len() > 0
    &&& forall|i: int| 0 <= i < parts.len() ==> (#[trigger] parts[i])@.dims == parts[0]@.dims
    &&& shape_fits(seq![parts.len() as usize] + parts[0]@.dims)
}

/// Whether two shapes have the same axis lengths.
pub fn same_dims(a: &Vec<usize>, b: &Vec<usize>) -> (r: bool)
    ensures
        r == (a@ == b@),
{
    if a.len() != b.len() {
        return false;
    }
    let mut i: usize = 0;
    while i < a.len()
        invariant
            i <= a.len(),
            a.len() == b.len(),
            forall|k: int| 0 <= k < i ==> a@[k] == b@[k],
        decreases a.len() - i,
    {
        if a[i] != b[i] {
            return false;
        }
        i = i + 1;
    }
    assert(a@ =~= b@);
    true
}

/// The element count of `dims`, or `None` when the shape is not representable.
pub fn checked_size(dims: &Vec<usize>) -> (r: Option<usize>)
    ensures
        r is Some <==> shape_fits(dims@),
        r is Some ==> r.unwrap() as nat == dims_product(dims@),
{
    let limit: usize = isize::MAX as usize;
    let mut i: usize = dims.len();
    let mut nz: usize = 1;
    let mut zero: bool = false;
    let mut fits: bool = true;
    while i > 0
        invariant
            i <= dims.len(),
            limit == isize::MAX as usize,
            fits ==> nz as nat == nonzero_product(dims@.skip(i as int)) && nz <= limit,
            !fits ==> nonzero_product(dims@.skip(i as int)) > limit,
            dims_product(dims@.skip(i as int)) == (if zero {
                0
            } else {
                nonzero_product(dims@.skip(i as int))
            }),
        decreases i,
    {
        i = i - 1;
        let d: usize = dims[i];
        proof {
            let tail = dims@.skip(i as int);
            assert(tail.skip(1) =~= dims@.skip(i + 1));
            assert(tail[0] == d);
            let rest = nonzero_product(dims@.skip(i + 1));
            if d != 0 {
                assert(d * rest >= rest) by (nonlinear_arith)
                    requires
                        d >= 1,
                        rest >= 0,
                ;
            }
            let full = dims_product(dims@.skip(i + 1));
            assert(d == 0 ==> d * full == 0) by (nonlinear_arith);
            assert(full == 0 ==> d * full == 0) by (nonlinear_arith);
            assert(dims_product(tail) == d * full);
            assert(d == 0 ==> nonzero_product(tail) == rest);
            assert(d != 0 ==> nonzero_product(tail) == d * rest);
            if fits && d != 0 {
                assert(nz * d == d * rest) by (nonlinear_arith)
                    requires
                        nz == rest,
                ;
            }
        }
        if d == 0 {
            zero = true;
        } else if fits {
            match nz.checked_mul(d) {
                Some(p) => {
                    if p <= limit {
                        nz = p;
                    } else {
                        fits = false;
                    }
                },
                None => {
                    fits = false;
                },
            }
        }
    }
    proof {
        assert(dims@.skip(0) =~= dims@);
    }
    if fits {
        if zero {
            Some(0)
        } else {
            Some(nz)
        }
    } else {
        None
    }
}

/// Calls `ndarray::ArrayD::zeros` and hands back the buffer.
///
/// Claims: the buffer has one element per index of `shape`, each of them zero.
/// The constructor panics on a shape that is not representable, so such a
/// shape is excluded.
#[verifier::external_body]
fn nd_zeros(shape: &Vec<usize>) -> (r: Vec<u32>)
    requires
        shape_fits(shape@),
    ensures
        r@.len() == dims_product(shape@),
        forall|j: int| 0 <= j < r@.len() ==> r@[j] == 0u32,
{
    ndarray::ArrayD::<u32>::zeros(ndarray::IxDyn(shape)).into_raw_vec()
}

/// Calls `ndarray::stack` along a new leading axis.
///
/// Claims: for a non-empty list of tensors that all have the same shape, the
/// call succeeds exactly when the stacked shape is representable; the result
/// then has the number of tensors as its leading axis, followed by the common
/// shape, and slice `i` along the leading axis holds the elements of tensor
/// `i`.
#[verifier::external_body]
fn nd_stack(parts: &Vec<Tensor>) -> (r: Option<Tensor>)
    requires
        parts.len() > 0,
        forall|i: int| 0 <= i < parts.len() ==> (#[trigger] parts[i])@.well_formed(),
        forall|i: int| 0 <= i < parts.len() ==> (#[trigger] parts[i])@.dims == parts[0]@.dims,
    ensures
        r is Some <==> shape_fits(seq![parts.len() as usize] + parts[0]@.dims),
        r is Some ==> {
            let t = r.unwrap()@;
            &&& t.dims == seq![parts.len() as usize] + parts[0]@.dims
            &&& t.well_formed()
            &&& forall|i: int| 0 <= i < parts.len() ==> #[trigger] t.row(i) == parts[i]@.elems
        },
{
    let arrays: Vec<ndarray::ArrayD<u32>> = parts.iter().map(|t|
        ndarray::ArrayD::from_shape_vec(ndarray::IxDyn(&t.shape), t.data.clone()).unwrap()
    ).collect();
    let views: Vec<ndarray::ArrayViewD<u32>> = arrays.iter().map(|a| a.view()).collect();
    match ndarray::stack(ndarray::Axis(0), &views) {
        Ok(a) => Some(Tensor { shape: a.shape().to_vec(), data: a.iter().cloned().collect() }),
        Err(_) => None,
    }
}

/// Calls `ndarray::ArrayBase::index_axis` on the leading axis.
///
/// Claims: the result drops the leading axis and holds the elements of slice
/// `index`. The call panics on an index past the leading axis, and on a
/// tensor without axes, so both are excluded.
#[verifier::external_body]
fn nd_index_axis0(t: &Tensor, index: usize) -> (r: Tensor)
    requires
        t@.well_formed(),
        t@.dims.len() >= 1,
        index < t@.dims[0],
    ensures
        r@.dims == t@.dims.skip(1),
        r@.elems == t@.row(index as int),
{
    let a = ndarray::ArrayD::from_shape_vec(ndarray::IxDyn(&t.shape), t.data.clone()).unwrap();
    let s = a.index_axis(ndarray::Axis(0), index);
    Tensor { shape: s.shape().to_vec(), data: s.iter().cloned().collect() }
}

} // verus!
