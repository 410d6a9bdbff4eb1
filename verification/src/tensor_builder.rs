//! Step-by-step construction of a tensor: a shape, an initialization
//! policy, and a `requires_grad` flag, validated once at `build`.

use vstd::prelude::*;
use crate::shape::{checked_size, compute_strides, size_of_shape, strides_fit};
use crate::elems::fill_seq;
use crate::tensor::{Tensor, TensorErrors};

verus! {

/// How the buffer of a built tensor is initialized.
pub enum InitMethod {
    /// The caller's own buffer, which must match the shape's size.
    FromData(Vec<i64>),
    /// Every element 1.
    Ones,
    /// Every element 0.
    Zeros,
}

/// Collects a shape, an initialization policy and a `requires_grad`
/// flag, and builds a validated tensor from them.
pub struct TensorBuilder {
    pub shape: Vec<usize>,
    pub requires_grad: bool,
    pub init_method: InitMethod,
}

impl TensorBuilder {
    /// The builder's configuration can produce a tensor: the shape is
    /// not empty, its strides are representable, and the initialization
    /// fits it -- a supplied buffer has exactly the shape's size, and a
    /// fill can allocate that many elements.
    pub open spec fn can_build(&self) -> bool {
        &&& self.shape@.len() > 0
        &&& strides_fit(self.shape@)
        &&& match self.init_method {
            InitMethod::FromData(d) => d@.len() == size_of_shape(self.shape@),
            InitMethod::Ones => size_of_shape(self.shape@) <= usize::MAX,
            InitMethod::Zeros => size_of_shape(self.shape@) <= usize::MAX,
        }
    }

    /// The buffer the configured initialization produces.
    pub open spec fn built_data(&self) -> Seq<i64> {
        match self.init_method {
            InitMethod::FromData(d) => d@,
            InitMethod::Ones => fill_seq(size_of_shape(self.shape@), 1i64),
            InitMethod::Zeros => fill_seq(size_of_shape(self.shape@), 0i64),
        }
    }

    /// A builder with an empty shape, `requires_grad` off, and a
    /// zero fill.
    pub fn new() -> (r: TensorBuilder)
        ensures
            r.shape@ == Seq::<usize>::empty(),
            r.requires_grad == false,
            r.init_method is Zeros,
    {
        TensorBuilder { shape: Vec::new(), requires_grad: false, init_method: InitMethod::Zeros }
    }

    /// Replaces the shape; everything else is kept.
    pub fn shape(self, shape: &Vec<usize>) -> (r: TensorBuilder)
        ensures
            r.shape@ == shape@,
            r.requires_grad == self.requires_grad,
            r.init_method == self.init_method,
    {
        TensorBuilder {
            shape: crate::tensor::copy_dims(shape),
            requires_grad: self.requires_grad,
            init_method: self.init_method,
        }
    }

    /// Replaces the `requires_grad` flag; everything else is kept.
    pub fn requires_grad(self, flag: bool) -> (r: TensorBuilder)
        ensures
            r.shape@ == self.shape@,
            r.requires_grad == flag,
            r.init_method == self.init_method,
    {
        TensorBuilder { shape: self.shape, requires_grad: flag, init_method: self.init_method }
    }

    /// Replaces the initialization policy; everything else is kept.
    pub fn init(self, method: InitMethod) -> (r: TensorBuilder)
        ensures
            r.shape@ == self.shape@,
            r.requires_grad == self.requires_grad,
            r.init_method == method,
    {
        TensorBuilder { shape: self.shape, requires_grad: self.requires_grad, init_method: method }
    }

    /// Builds the tensor.  Succeeds exactly when the configuration
    /// `can_build`; every rejected configuration -- an empty shape, a
    /// buffer whose length disagrees with the shape's size, a size or
    /// stride beyond the machine's limits -- gives `InvalidShape`.  The
    /// built tensor carries the configured buffer and flag and no
    /// gradient buffer.
    pub fn build(self) -> (r: Result<Tensor, TensorErrors>)
        ensures
            !self.can_build() ==> r == Err::<Tensor, TensorErrors>(TensorErrors::InvalidShape),
            self.can_build() ==> (r matches Ok(t) && {
                &&& t.wf()
                &&& t.shape@ == self.shape@
                &&& t.data@ == self.built_data()
                &&& t.requires_grad == self.requires_grad
                &&& t.grad is None
            }),
    {
        let TensorBuilder { shape, requires_grad, init_method } = self;
        if shape.len() == 0 {
            return Err(TensorErrors::InvalidShape);
        }
        let sz: usize = match checked_size(&shape) {
            Some(v) => v,
            None => {
                proof {
                    if let InitMethod::FromData(d) = &init_method {
                        assert(d.len() == d@.len());
                    }
                }
                return Err(TensorErrors::InvalidShape);
            },
        };
        let st: Vec<usize> = match compute_strides(&shape) {
            Some(v) => v,
            None => {
                return Err(TensorErrors::InvalidShape);
            },
        };
        let data: Vec<i64> = match init_method {
            InitMethod::Zeros => {
                let d: Vec<i64> = vec![0i64; sz];
                proof {
                    assert(d@ =~= fill_seq(size_of_shape(shape@), 0i64));
                }
                d
            },
            InitMethod::Ones => {
                let d: Vec<i64> = vec![1i64; sz];
                proof {
                    assert(d@ =~= fill_seq(size_of_shape(shape@), 1i64));
                }
                d
            },
            InitMethod::FromData(d) => {
                if d.len() != sz {
                    return Err(TensorErrors::InvalidShape);
                }
                d
            },
        };
        Ok(Tensor { shape, strides: st, data, requires_grad, grad: None })
    }
}

} // verus!
