//! The matrix: a borrowed run of bytes, read as rows of a fixed length.
//!
//! The view owns nothing. It borrows the bytes, which in practice are a
//! memory-mapped file, and every row that it hands out borrows them in turn,
//! for as long as they live. Its mathematical model is the sequence of its
//! rows, each a sequence of bytes.
use crate::cast::{cast_admits, try_cast_bytes, CastError};
use crate::layout::{
    count_rows, holds_rows, layout_fault, lemma_no_rows_iff_no_bytes, lemma_offset_in_row,
    lemma_row_within_bytes, lemma_valid_layout_holds_rows, locate_row, row_count, row_end,
    row_start, row_width, valid_layout, validate_layout, LayoutError,
};
use core::marker::PhantomData;
use vstd::arithmetic::div_mod::{lemma_div_by_multiple, lemma_mod_multiples_basic};
use vstd::layout::{align_of, size_of};
use vstd::prelude::*;
use vstd::slice::slice_subrange;

verus! {

/// A matrix of elements of type `T`, laid out row after row in borrowed bytes.
///
/// There is no header: the bytes are the elements, `dimensions` to a row, in
/// the representation that `T` has in memory. For numbers that is the byte
/// order of the machine, so a little-endian file reads as written on a
/// little-endian machine.
#[derive(Debug)]
pub struct MatLEView<'a, T> {
    bytes: &'a [u8],
    dimensions: usize,
    _marker: PhantomData<T>,
}

impl<'a, T> View for MatLEView<'a, T> {
    type V = Seq<Seq<u8>>;

    /// The rows in order, each as the bytes that it occupies.
    open spec fn view(&self) -> Seq<Seq<u8>> {
        Seq::new(self.rows(), |index: int| self.row(index))
    }
}

impl<'a, T> MatLEView<'a, T> {
    /// All the bytes under the view.
    pub closed spec fn bytes(&self) -> Seq<u8> {
        self.bytes@
    }

    /// The number of elements in a row.
    pub closed spec fn dims(&self) -> nat {
        self.dimensions as nat
    }

    /// The bytes are a whole number of rows, and a row is not empty. Every
    /// view that exists satisfies this.
    #[verifier::type_invariant]
    pub open spec fn wf(&self) -> bool {
        valid_layout(self.bytes().len(), self.dims(), size_of::<T>())
    }

    /// The number of rows.
    pub open spec fn rows(&self) -> nat {
        row_count(self.bytes().len(), self.dims(), size_of::<T>())
    }

    /// The bytes of row `index`.
    pub open spec fn row(&self, index: int) -> Seq<u8> {
        self.bytes().subrange(
            row_start(index as nat, self.dims(), size_of::<T>()) as int,
            row_end(index as nat, self.dims(), size_of::<T>()) as int,
        )
    }

    /// What asking for row `index` can give: nothing exactly where the matrix
    /// has no such row; otherwise a row of `dims()` elements, or, for an
    /// element type that needs more alignment than a byte, a refusal for
    /// alignment.
    pub open spec fn row_outcome(&self, index: nat, r: Option<Result<&[T], CastError>>) -> bool {
        match r {
            None => index >= self.rows(),
            Some(Ok(row)) => index < self.rows() && row@.len() == self.dims(),
            Some(Err(e)) => {
                &&& index < self.rows()
                &&& e == CastError::TargetAlignmentGreaterAndInputNotAligned
                &&& align_of::<T>() > 1
            },
        }
    }

    /// Every row is as wide as the layout says and lies where it says.
    pub proof fn lemma_rows_of_view(&self, index: int)
        requires
            self.wf(),
            0 <= index < self.rows(),
        ensures
            self@.len() == self.rows(),
            self@[index] == self.row(index),
            self@[index].len() == row_width(self.dims(), size_of::<T>()),
            row_end(index as nat, self.dims(), size_of::<T>()) <= self.bytes().len(),
    {
        lemma_row_within_bytes(self.bytes().len(), self.dims(), size_of::<T>(), index as nat);
    }

    /// The bytes are the rows and nothing else: no header, no footer, no
    /// partial row at the end.
    pub proof fn lemma_bytes_are_rows(&self)
        requires
            self.wf(),
        ensures
            self@.len() == self.rows(),
            holds_rows(self.bytes().len(), self.rows(), self.dims(), size_of::<T>()),
            self.dims() > 0,
            size_of::<T>() > 0,
            self.bytes().len() % (self.dims() * size_of::<T>()) == 0,
    {
        lemma_valid_layout_holds_rows(self.bytes().len(), self.dims(), size_of::<T>());
    }

    /// Every byte lies in one row, at the place that its offset gives: the
    /// quotient by the row width is the row, the remainder the place in it.
    pub proof fn lemma_byte_in_row(&self, offset: int)
        requires
            self.wf(),
            0 <= offset < self.bytes().len(),
        ensures
            0 <= offset / (row_width(self.dims(), size_of::<T>()) as int) < self.rows(),
            self@[offset / (row_width(self.dims(), size_of::<T>()) as int)][offset % (row_width(
                self.dims(),
                size_of::<T>(),
            ) as int)] == self.bytes()[offset],
    {
        let total = self.bytes().len();
        let w = row_width(self.dims(), size_of::<T>()) as int;
        lemma_valid_layout_holds_rows(total, self.dims(), size_of::<T>());
        lemma_offset_in_row(total, self.dims(), size_of::<T>(), offset as nat);
        lemma_row_within_bytes(total, self.dims(), size_of::<T>(), (offset / w) as nat);
    }

    /// Lays a view over `bytes`, with rows of `dimensions` elements.
    ///
    /// The bytes must be a whole number of such rows; [`Self::try_new`] tests
    /// that instead of asking for it.
    pub fn new(bytes: &'a [u8], dimensions: usize) -> (v: Self)
        requires
            valid_layout(bytes@.len(), dimensions as nat, size_of::<T>()),
        ensures
            v.wf(),
            v.bytes() == bytes@,
            v.dims() == dimensions,
    {
        MatLEView { bytes, dimensions, _marker: PhantomData }
    }

    /// Lays a view over `bytes` if they are a whole number of rows of
    /// `dimensions` elements, and says what is wrong if they are not.
    pub fn try_new(bytes: &'a [u8], dimensions: usize) -> (r: Result<Self, LayoutError>)
        ensures
            r is Ok <==> valid_layout(bytes@.len(), dimensions as nat, size_of::<T>()),
            r matches Ok(v) ==> v.wf() && v.bytes() == bytes@ && v.dims() == dimensions,
            r matches Ok(v) ==> v.rows() == row_count(
                bytes@.len(),
                dimensions as nat,
                size_of::<T>(),
            ),
            r matches Err(e) ==> layout_fault(bytes@.len(), dimensions as nat, size_of::<T>())
                == Some(e),
            dimensions > 0 && size_of::<T>() > 0 && bytes@.len() % (dimensions as nat * size_of::<
                T,
            >()) != 0 ==> (r matches Err(e) && e == LayoutError::PartialRow),
    {
        match validate_layout(bytes.len(), dimensions, core::mem::size_of::<T>()) {
            Ok(_) => Ok(Self::new(bytes, dimensions)),
            Err(e) => Err(e),
        }
    }

    /// The number of elements in a row.
    pub fn dimensions(&self) -> (d: usize)
        ensures
            d == self.dims(),
            d > 0,
    {
        proof {
            use_type_invariant(self);
        }
        self.dimensions
    }

    /// Whether the matrix has no row.
    pub fn is_empty(&self) -> (b: bool)
        ensures
            b <==> self.rows() == 0,
            b <==> self.bytes().len() == 0,
    {
        proof {
            use_type_invariant(self);
            lemma_no_rows_iff_no_bytes(self.bytes().len(), self.dims(), size_of::<T>());
        }
        self.len() == 0
    }

    /// The number of rows.
    pub fn len(&self) -> (n: usize)
        ensures
            n == self.rows(),
            n == self@.len(),
    {
        proof {
            use_type_invariant(self);
        }
        count_rows(self.bytes.len(), self.dimensions, core::mem::size_of::<T>())
    }

    /// The bytes of row `index`, or `None` where the matrix has no such row.
    pub fn row_bytes(&self, index: usize) -> (r: Option<&'a [u8]>)
        ensures
            r is Some <==> index < self.rows(),
            r matches Some(span) ==> span@ == self.row(index as int) && span@ == self@[index as int],
    {
        proof {
            use_type_invariant(self);
        }
        match locate_row(self.bytes.len(), self.dimensions, core::mem::size_of::<T>(), index) {
            Some((start, end)) => Some(slice_subrange(self.bytes, start, end)),
            None => None,
        }
    }
}

impl<'a, T: bytemuck::AnyBitPattern> MatLEView<'a, T> {
    /// Row `index` as a slice of elements. Any index may be asked for.
    ///
    /// `None` means that the matrix has no such row. Otherwise the bytes of
    /// the row, which are those that [`Self::row_bytes`] returns, were handed
    /// to the cast, and what it gave is returned: the row, or its refusal.
    pub fn get(&self, index: usize) -> (r: Option<Result<&'a [T], CastError>>)
        ensures
            r is None <==> index >= self.rows(),
            r matches Some(outcome) ==> cast_admits::<T>(self@[index as int], outcome),
            self.row_outcome(index as nat, r),
    {
        match self.row_bytes(index) {
            Some(span) => {
                proof {
                    use_type_invariant(self);
                    self.lemma_rows_of_view(index as int);
                    lemma_mod_multiples_basic(self.dims() as int, size_of::<T>() as int);
                    lemma_div_by_multiple(self.dims() as int, size_of::<T>() as int);
                }
                Some(try_cast_bytes::<T>(span))
            },
            None => None,
        }
    }

    /// A cursor over the rows, placed before the first one. Each call gives
    /// a cursor of its own.
    pub fn iter<'v>(&'v self) -> (it: RowIter<'v, 'a, T>)
        ensures
            it.wf(),
            it.matrix() == *self,
            it.position() == 0,
            it@ == self@,
    {
        proof {
            use_type_invariant(self);
        }
        let it = RowIter { matrix: self, next: 0 };
        assert(it@ =~= self@);
        it
    }

    /// All rows, in order. Walks a cursor from the first row and hands each
    /// outcome to [`push_outcome`]; stops at the first row that the cast
    /// refuses and returns that refusal.
    pub fn get_all(&self) -> (r: Result<Vec<&'a [T]>, CastError>)
        ensures
            r matches Ok(rows) ==> {
                &&& rows@.len() == self.rows()
                &&& forall|i: int|
                    0 <= i < rows@.len() ==> {
                        &&& cast_admits::<T>(self@[i], Ok(#[trigger] rows@[i]))
                        &&& rows@[i]@.len() == self.dims()
                    }
            },
            r matches Err(e) ==> {
                &&& e == CastError::TargetAlignmentGreaterAndInputNotAligned
                &&& align_of::<T>() > 1
                &&& self.rows() > 0
            },
    {
        let mut rows: Vec<&'a [T]> = Vec::new();
        let mut it = self.iter();
        loop
            invariant
                it.wf(),
                it.matrix() == *self,
                it.position() == rows@.len(),
                forall|i: int|
                    0 <= i < rows@.len() ==> {
                        &&& cast_admits::<T>(self@[i], Ok(#[trigger] rows@[i]))
                        &&& rows@[i]@.len() == self.dims()
                    },
            decreases self.rows() - it.position(),
        {
            match it.next() {
                Some(outcome) => {
                    match push_outcome(&mut rows, outcome) {
                        Some(refusal) => {
                            return Err(refusal);
                        },
                        None => {},
                    }
                },
                None => {
                    return Ok(rows);
                },
            }
        }
    }
}

/// Takes what the cast gave for the next row into the rows gathered so far.
///
/// A row goes to the end of `rows`, and gathering goes on. A refusal leaves
/// `rows` as they are and comes back, so that the caller stops there.
pub fn push_outcome<'a, T>(rows: &mut Vec<&'a [T]>, outcome: Result<&'a [T], CastError>) -> (stop:
    Option<CastError>)
    ensures
        outcome matches Ok(row) ==> stop is None && final(rows)@ == old(rows)@.push(row),
        outcome matches Err(e) ==> stop == Some(e) && final(rows)@ == old(rows)@,
{
    match outcome {
        Ok(row) => {
            rows.push(row);
            None
        },
        Err(e) => Some(e),
    }
}

/// A cursor over the rows of a matrix, first to last.
///
/// Its model is the sequence of rows still to come, each as its bytes.
#[derive(Debug)]
pub struct RowIter<'v, 'a, T> {
    matrix: &'v MatLEView<'a, T>,
    next: usize,
}

impl<'v, 'a, T> View for RowIter<'v, 'a, T> {
    type V = Seq<Seq<u8>>;

    open spec fn view(&self) -> Seq<Seq<u8>> {
        self.matrix()@.skip(self.position() as int)
    }
}

impl<'v, 'a, T> RowIter<'v, 'a, T> {
    /// The matrix that the cursor walks.
    pub closed spec fn matrix(&self) -> MatLEView<'a, T> {
        *self.matrix
    }

    /// The index of the row that comes next; the number of rows if none does.
    pub closed spec fn position(&self) -> nat {
        self.next as nat
    }

    /// The cursor stands on a valid matrix, at a row or just past the last.
    #[verifier::type_invariant]
    pub open spec fn wf(&self) -> bool {
        &&& self.matrix().wf()
        &&& self.position() <= self.matrix().rows()
    }

    /// The rows still to come are the rows of the matrix from `position()`
    /// on, in index order, and no others.
    pub proof fn lemma_pending_rows(&self, k: int)
        requires
            self.wf(),
            0 <= k < self.matrix().rows() - self.position(),
        ensures
            self@.len() == self.matrix().rows() - self.position(),
            self@[k] == self.matrix()@[self.position() + k],
            self@[k] == self.matrix().row(self.position() + k),
    {
    }

    /// Two cursors that stand before the first row of the same matrix have
    /// the same rows to come: all of them.
    pub proof fn lemma_fresh_cursors_agree(&self, other: &Self)
        requires
            self.wf(),
            other.wf(),
            self.matrix() == other.matrix(),
            self.position() == 0,
            other.position() == 0,
        ensures
            self@ == other@,
            self@ == self.matrix()@,
            self@.len() == self.matrix().rows(),
    {
        assert(self@ =~= self.matrix()@);
        assert(other@ =~= self.matrix()@);
    }
}

impl<'v, 'a, T> Clone for RowIter<'v, 'a, T> {
    /// A second cursor at the same place; the two move independently.
    fn clone(&self) -> (it: Self)
        ensures
            it == *self,
    {
        proof {
            use_type_invariant(self);
        }
        RowIter { matrix: self.matrix, next: self.next }
    }
}

impl<'v, 'a, T: bytemuck::AnyBitPattern> RowIter<'v, 'a, T> {
    /// The next row, as [`MatLEView::get`] gives it, or `None` after the last.
    ///
    /// The cursor moves on by one row whenever there was one, also where the
    /// cast refused it.
    pub fn next(&mut self) -> (r: Option<Result<&'a [T], CastError>>)
        ensures
            final(self).wf(),
            final(self).matrix() == old(self).matrix(),
            r is Some <==> old(self)@.len() > 0,
            r matches Some(outcome) ==> cast_admits::<T>(old(self)@.first(), outcome),
            old(self).matrix().row_outcome(old(self).position(), r),
            final(self).position() == old(self).position() + if r is Some {
                1nat
            } else {
                0nat
            },
            final(self)@ == if r is Some {
                old(self)@.drop_first()
            } else {
                old(self)@
            },
    {
        proof {
            use_type_invariant(&*self);
        }
        let r = self.matrix.get(self.next);
        if r.is_some() {
            proof {
                let total = self.matrix.bytes@.len();
                assert(total == self.matrix.bytes.len());
                lemma_row_within_bytes(
                    total,
                    self.matrix.dims(),
                    size_of::<T>(),
                    self.next as nat,
                );
            }
            self.next = self.next + 1;
        }
        proof {
            assert(final(self)@ =~= if r is Some {
                old(self)@.drop_first()
            } else {
                old(self)@
            });
        }
        r
    }
}

} // verus!
