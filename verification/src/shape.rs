//! Tensor shapes.

use vstd::prelude::*;

verus! {

/// The number of rows and columns of a tensor.
///
/// Every shape has at least one row and one column, and its element count
/// fits in a `usize`; [`Shape::new`] asks for that and [`Shape::try_new`]
/// tests it.
#[derive(Clone, Copy, Debug, PartialEq, Eq, Structural, Hash)]
pub struct Shape {
    rows: usize,
    cols: usize,
}

/// Whether `rows` by `cols` is the size of a shape: neither is zero and the
/// element count fits in a `usize`.
pub open spec fn valid_dims(rows: int, cols: int) -> bool {
    0 < rows && 0 < cols && rows * cols <= usize::MAX
}

impl Shape {
    /// What holds of every shape.
    #[verifier::type_invariant]
    pub open spec fn wf(&self) -> bool {
        valid_dims(self.spec_rows() as int, self.spec_cols() as int)
    }

    /// The number of rows.
    pub closed spec fn spec_rows(&self) -> usize {
        self.rows
    }

    /// The number of columns.
    pub closed spec fn spec_cols(&self) -> usize {
        self.cols
    }

    /// The shape with the given dimensions.
    pub closed spec fn spec_new(rows: usize, cols: usize) -> Shape {
        Shape { rows, cols }
    }

    /// The element count, `rows * cols`.
    pub open spec fn spec_size(&self) -> int {
        self.spec_rows() * self.spec_cols()
    }

    /// The shape with rows and columns exchanged.
    pub open spec fn spec_transpose(&self) -> Shape {
        Shape::spec_new(self.spec_cols(), self.spec_rows())
    }

    /// The shape itself, or its transpose if `trans` is set.
    pub open spec fn spec_maybe_transpose(&self, trans: bool) -> Shape {
        if trans {
            self.spec_transpose()
        } else {
            *self
        }
    }

    /// Whether this is the shape of a single number.
    pub open spec fn is_scalar(&self) -> bool {
        self.spec_rows() == 1 && self.spec_cols() == 1
    }

    /// A shape is its rows and columns, nothing else.
    pub broadcast proof fn lemma_new_dims(rows: usize, cols: usize)
        ensures
            (#[trigger] Shape::spec_new(rows, cols)).spec_rows() == rows,
            Shape::spec_new(rows, cols).spec_cols() == cols,
    {
    }

    /// Two shapes with the same rows and columns are the same shape.
    pub proof fn lemma_same_dims(a: Shape, b: Shape)
        requires
            a.spec_rows() == b.spec_rows(),
            a.spec_cols() == b.spec_cols(),
        ensures
            a == b,
    {
    }

    /// Every shape is the one made from its own rows and columns.
    pub broadcast proof fn lemma_is_new(s: Shape)
        ensures
            #[trigger] Shape::spec_new(s.spec_rows(), s.spec_cols()) == s,
    {
    }

    /// The shape with the given dimensions.
    pub fn new(rows: usize, cols: usize) -> (s: Shape)
        requires
            valid_dims(rows as int, cols as int),
        ensures
            s == Shape::spec_new(rows, cols),
            s.wf(),
    {
        Shape { rows, cols }
    }

    /// The shape with the given dimensions, if there is one.
    pub fn try_new(rows: usize, cols: usize) -> (r: Option<Shape>)
        ensures
            valid_dims(rows as int, cols as int) ==> r == Some(Shape::spec_new(rows, cols)),
            !valid_dims(rows as int, cols as int) ==> r is None,
            r matches Some(s) ==> s.wf(),
    {
        if rows == 0 || cols == 0 {
            return None;
        }
        match rows.checked_mul(cols) {
            Some(_) => Some(Shape { rows, cols }),
            None => None,
        }
    }

    /// The number of rows.
    #[verifier::when_used_as_spec(spec_rows)]
    pub fn rows(&self) -> (r: usize)
        ensures
            r == self.spec_rows(),
            self.wf(),
    {
        proof {
            use_type_invariant(self);
        }
        self.rows
    }

    /// The number of columns.
    #[verifier::when_used_as_spec(spec_cols)]
    pub fn cols(&self) -> (c: usize)
        ensures
            c == self.spec_cols(),
            self.wf(),
    {
        proof {
            use_type_invariant(self);
        }
        self.cols
    }

    /// The element count, `rows * cols`.
    pub fn size(&self) -> (n: usize)
        ensures
            n == self.spec_size(),
            n > 0,
            self.wf(),
    {
        proof {
            use_type_invariant(self);
            assert(self.rows * self.cols > 0) by (nonlinear_arith)
                requires
                    self.rows > 0,
                    self.cols > 0,
            ;
        }
        self.rows * self.cols
    }

    /// The shape with rows and columns exchanged.
    pub fn transpose(&self) -> (t: Shape)
        ensures
            t == self.spec_transpose(),
            t.wf(),
    {
        proof {
            use_type_invariant(self);
            assert(self.cols * self.rows == self.rows * self.cols) by (nonlinear_arith);
        }
        Shape { rows: self.cols, cols: self.rows }
    }

    /// The shape itself, or its transpose if `trans` is set.
    pub fn maybe_transpose(&self, trans: bool) -> (t: Shape)
        ensures
            t == self.spec_maybe_transpose(trans),
            t.wf(),
    {
        proof {
            use_type_invariant(self);
        }
        if trans {
            self.transpose()
        } else {
            *self
        }
    }

    /// Whether both shapes have the same rows and columns.
    pub fn same_as(&self, other: &Shape) -> (b: bool)
        ensures
            b == (*self == *other),
    {
        self.rows == other.rows && self.cols == other.cols
    }
}

} // verus!
