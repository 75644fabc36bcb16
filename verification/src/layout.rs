//! The arithmetic of a row-major file without header or footer.
//!
//! A file of `total` bytes holds rows of `dimensions` elements, each element
//! `elem_size` bytes wide. Everything here is stated over natural numbers; the
//! executable functions compute the same values in `usize` without overflow,
//! whatever the arguments.
use vstd::arithmetic::div_mod::{
    lemma_basic_div, lemma_breakdown, lemma_div_by_multiple, lemma_div_denominator,
    lemma_div_pos_is_pos, lemma_fundamental_div_mod, lemma_mod_bound, lemma_mod_multiples_basic,
};
use vstd::arithmetic::mul::{
    lemma_mul_inequality, lemma_mul_is_commutative, lemma_mul_is_distributive_add_other_way,
    lemma_mul_strictly_positive,
};
use vstd::prelude::*;

verus! {

/// Why a byte length cannot be read as a matrix.
#[derive(Clone, Copy, Debug, PartialEq, Eq, Structural)]
pub enum LayoutError {
    /// A row would hold no element.
    ZeroDimensions,
    /// An element would occupy no byte.
    ZeroSizedElement,
    /// The bytes do not end on a row boundary.
    PartialRow,
}

/// The number of bytes that one row occupies.
pub open spec fn row_width(dimensions: nat, elem_size: nat) -> nat {
    dimensions * elem_size
}

/// The defect of a layout, if it has one. A row of no elements is reported
/// first, then an element of no bytes, then a trailing partial row.
pub open spec fn layout_fault(total: nat, dimensions: nat, elem_size: nat) -> Option<LayoutError> {
    if dimensions == 0 {
        Some(LayoutError::ZeroDimensions)
    } else if elem_size == 0 {
        Some(LayoutError::ZeroSizedElement)
    } else if total % row_width(dimensions, elem_size) != 0 {
        Some(LayoutError::PartialRow)
    } else {
        None
    }
}

/// `total` bytes are a whole number of non-empty rows.
pub open spec fn valid_layout(total: nat, dimensions: nat, elem_size: nat) -> bool {
    &&& dimensions > 0
    &&& elem_size > 0
    &&& total % row_width(dimensions, elem_size) == 0
}

/// The number of whole rows that fit in `total` bytes.
pub open spec fn row_count(total: nat, dimensions: nat, elem_size: nat) -> nat {
    total / row_width(dimensions, elem_size)
}

/// The offset of the first byte of row `index`.
pub open spec fn row_start(index: nat, dimensions: nat, elem_size: nat) -> nat {
    index * row_width(dimensions, elem_size)
}

/// The offset just past the last byte of row `index`.
pub open spec fn row_end(index: nat, dimensions: nat, elem_size: nat) -> nat {
    row_start(index, dimensions, elem_size) + row_width(dimensions, elem_size)
}

/// `total` bytes are exactly `rows` rows, with nothing left over.
pub open spec fn holds_rows(total: nat, rows: nat, dimensions: nat, elem_size: nat) -> bool {
    total == rows * row_width(dimensions, elem_size)
}

/// The byte range `[start, end)` of row `index`, where the file has such a row.
pub open spec fn row_span(total: nat, dimensions: nat, elem_size: nat, index: nat) -> Option<
    (nat, nat),
> {
    if dimensions > 0 && elem_size > 0 && index < row_count(total, dimensions, elem_size) {
        Some((row_start(index, dimensions, elem_size), row_end(index, dimensions, elem_size)))
    } else {
        None
    }
}

/// Dividing by the element size and then by the row length is dividing by the
/// row width: the two steps leave no remainder exactly when the single step
/// leaves none, and they give the same quotient.
pub proof fn lemma_two_step_division(total: nat, dimensions: nat, elem_size: nat)
    requires
        dimensions > 0,
        elem_size > 0,
    ensures
        row_width(dimensions, elem_size) > 0,
        (total / elem_size) / dimensions == row_count(total, dimensions, elem_size),
        (total % elem_size == 0 && (total / elem_size) % dimensions == 0) <==> total % row_width(
            dimensions,
            elem_size,
        ) == 0,
{
    let t = total as int;
    let d = dimensions as int;
    let e = elem_size as int;
    lemma_mul_is_commutative(d, e);
    lemma_mul_strictly_positive(e, d);
    lemma_div_denominator(t, e, d);
    lemma_breakdown(t, e, d);
    let high = (t / e) % d;
    let low = t % e;
    assert(0 <= high && 0 <= low);
    assert(t % (e * d) == e * high + low);
    if high > 0 {
        lemma_mul_inequality(1, high, e);
        assert(e * high >= e) by {
            lemma_mul_is_commutative(e, high);
        }
    } else {
        assert(e * high == 0) by (nonlinear_arith)
            requires
                high == 0,
        ;
    }
}

/// Every row that is counted lies within the bytes, one after the other.
pub proof fn lemma_row_within_bytes(total: nat, dimensions: nat, elem_size: nat, index: nat)
    requires
        dimensions > 0,
        elem_size > 0,
        index < row_count(total, dimensions, elem_size),
    ensures
        row_width(dimensions, elem_size) <= total,
        row_start(index, dimensions, elem_size) < row_end(index, dimensions, elem_size),
        row_end(index, dimensions, elem_size) <= total,
        row_end(index, dimensions, elem_size) == row_start(index + 1, dimensions, elem_size),
        index < row_end(index, dimensions, elem_size),
{
    let t = total as int;
    let w = row_width(dimensions, elem_size) as int;
    let i = index as int;
    let rows = t / w;
    lemma_mul_strictly_positive(dimensions as int, elem_size as int);
    lemma_fundamental_div_mod(t, w);
    assert(w * rows <= t);
    lemma_mul_is_distributive_add_other_way(w, i, 1);
    assert((i + 1) * w == i * w + w);
    lemma_mul_inequality(i + 1, rows, w);
    lemma_mul_is_commutative(w, rows);
    lemma_mul_inequality(1, rows, w);
    lemma_mul_inequality(1, w, i + 1);
    lemma_mul_is_commutative(w, i + 1);
}

/// A valid layout has no row exactly when it has no byte.
pub proof fn lemma_no_rows_iff_no_bytes(total: nat, dimensions: nat, elem_size: nat)
    requires
        valid_layout(total, dimensions, elem_size),
    ensures
        row_count(total, dimensions, elem_size) == 0 <==> total == 0,
{
    let w = row_width(dimensions, elem_size) as int;
    lemma_mul_strictly_positive(dimensions as int, elem_size as int);
    lemma_fundamental_div_mod(total as int, w);
    if total == 0 {
        lemma_basic_div(0, w);
    } else if row_count(total, dimensions, elem_size) == 0 {
        assert(w * (total as int / w) == 0) by (nonlinear_arith)
            requires
                total as int / w == 0,
        ;
    }
}

/// A valid layout is its rows and nothing else: as many bytes as they hold.
pub proof fn lemma_valid_layout_holds_rows(total: nat, dimensions: nat, elem_size: nat)
    requires
        valid_layout(total, dimensions, elem_size),
    ensures
        holds_rows(total, row_count(total, dimensions, elem_size), dimensions, elem_size),
{
    let w = row_width(dimensions, elem_size) as int;
    lemma_mul_strictly_positive(dimensions as int, elem_size as int);
    lemma_fundamental_div_mod(total as int, w);
    lemma_mul_is_commutative(w, total as int / w);
}

/// Every byte offset falls into one row, at the column that is its remainder.
pub proof fn lemma_offset_in_row(total: nat, dimensions: nat, elem_size: nat, offset: nat)
    requires
        dimensions > 0,
        elem_size > 0,
        offset < row_count(total, dimensions, elem_size) * row_width(dimensions, elem_size),
    ensures
        row_width(dimensions, elem_size) > 0,
        offset / row_width(dimensions, elem_size) < row_count(total, dimensions, elem_size),
        offset % row_width(dimensions, elem_size) < row_width(dimensions, elem_size),
        row_start(offset / row_width(dimensions, elem_size), dimensions, elem_size) + offset
            % row_width(dimensions, elem_size) == offset,
{
    let w = row_width(dimensions, elem_size) as int;
    let rows = row_count(total, dimensions, elem_size) as int;
    let o = offset as int;
    lemma_mul_strictly_positive(dimensions as int, elem_size as int);
    lemma_fundamental_div_mod(o, w);
    lemma_mod_bound(o, w);
    lemma_div_pos_is_pos(o, w);
    lemma_mul_is_commutative(w, o / w);
    if o / w >= rows {
        lemma_mul_inequality(rows, o / w, w);
    }
}

/// A file of exactly `rows` rows has a valid layout and that many rows,
/// for every number of rows, none included.
pub proof fn lemma_whole_rows_are_valid(total: nat, rows: nat, dimensions: nat, elem_size: nat)
    requires
        dimensions > 0,
        elem_size > 0,
        holds_rows(total, rows, dimensions, elem_size),
    ensures
        valid_layout(total, dimensions, elem_size),
        layout_fault(total, dimensions, elem_size) is None,
        row_count(total, dimensions, elem_size) == rows,
{
    let w = row_width(dimensions, elem_size) as int;
    lemma_mul_strictly_positive(dimensions as int, elem_size as int);
    lemma_mod_multiples_basic(rows as int, w);
    lemma_div_by_multiple(rows as int, w);
}

/// A byte length that leaves a remainder when divided by the row width is
/// not a valid layout, and the fault is the partial row.
pub proof fn lemma_remainder_is_partial_row(total: nat, dimensions: nat, elem_size: nat)
    requires
        dimensions > 0,
        elem_size > 0,
        total % (dimensions * elem_size) != 0,
    ensures
        !valid_layout(total, dimensions, elem_size),
        layout_fault(total, dimensions, elem_size) == Some(LayoutError::PartialRow),
{
}

/// A byte length that is no whole number of rows is not a valid layout,
/// whatever number of rows one tries.
pub proof fn lemma_partial_row_is_invalid(total: nat, dimensions: nat, elem_size: nat)
    requires
        forall|rows: nat| !#[trigger] holds_rows(total, rows, dimensions, elem_size),
    ensures
        !valid_layout(total, dimensions, elem_size),
        layout_fault(total, dimensions, elem_size) is Some,
        dimensions > 0 && elem_size > 0 ==> layout_fault(total, dimensions, elem_size) == Some(
            LayoutError::PartialRow,
        ),
{
    if valid_layout(total, dimensions, elem_size) {
        let w = row_width(dimensions, elem_size) as int;
        let rows = row_count(total, dimensions, elem_size);
        lemma_mul_strictly_positive(dimensions as int, elem_size as int);
        lemma_fundamental_div_mod(total as int, w);
        lemma_mul_is_commutative(w, rows as int);
        assert(holds_rows(total, rows, dimensions, elem_size));
    }
}

/// Validates a layout and counts its rows.
///
/// Returns the fault where there is one, and the number of rows otherwise.
pub fn validate_layout(total: usize, dimensions: usize, elem_size: usize) -> (r: Result<
    usize,
    LayoutError,
>)
    ensures
        r is Ok <==> valid_layout(total as nat, dimensions as nat, elem_size as nat),
        r matches Ok(rows) ==> rows == row_count(total as nat, dimensions as nat, elem_size as nat),
        r matches Err(e) ==> layout_fault(total as nat, dimensions as nat, elem_size as nat)
            == Some(e),
        dimensions > 0 && elem_size > 0 && total as nat % (dimensions as nat * elem_size as nat)
            != 0 ==> r == Err::<usize, LayoutError>(LayoutError::PartialRow),
{
    if dimensions == 0 {
        return Err(LayoutError::ZeroDimensions);
    }
    if elem_size == 0 {
        return Err(LayoutError::ZeroSizedElement);
    }
    proof {
        lemma_two_step_division(total as nat, dimensions as nat, elem_size as nat);
    }
    let elems: usize = total / elem_size;
    if total % elem_size != 0 || elems % dimensions != 0 {
        return Err(LayoutError::PartialRow);
    }
    Ok(elems / dimensions)
}

/// The number of whole rows in `total` bytes; zero where a row or an element
/// would be empty.
pub fn count_rows(total: usize, dimensions: usize, elem_size: usize) -> (rows: usize)
    ensures
        dimensions > 0 && elem_size > 0 ==> rows == row_count(
            total as nat,
            dimensions as nat,
            elem_size as nat,
        ),
        dimensions == 0 || elem_size == 0 ==> rows == 0,
{
    if dimensions == 0 || elem_size == 0 {
        return 0;
    }
    proof {
        lemma_two_step_division(total as nat, dimensions as nat, elem_size as nat);
    }
    (total / elem_size) / dimensions
}

/// Locates row `index`: its byte range, or `None` where the file has no such
/// row. Any index is accepted.
pub fn locate_row(total: usize, dimensions: usize, elem_size: usize, index: usize) -> (r: Option<
    (usize, usize),
>)
    ensures
        r is Some <==> row_span(total as nat, dimensions as nat, elem_size as nat, index as nat)
            is Some,
        r matches Some((start, end)) ==> {
            &&& row_span(total as nat, dimensions as nat, elem_size as nat, index as nat) == Some(
                (start as nat, end as nat),
            )
            &&& start < end <= total
        },
{
    let rows: usize = count_rows(total, dimensions, elem_size);
    if index >= rows {
        return None;
    }
    proof {
        lemma_row_within_bytes(total as nat, dimensions as nat, elem_size as nat, index as nat);
    }
    let width: usize = dimensions * elem_size;
    let start: usize = index * width;
    Some((start, start + width))
}

} // verus!
