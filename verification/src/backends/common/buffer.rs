//! Row-major `(rays, gates)` buffers.

use crate::errors::RadishError;
use vstd::prelude::*;

verus! {

/// A row-major array of cells; a cell without a value stands for NaN.
#[derive(Debug, Clone, PartialEq, Eq)]
pub struct CellArray<C> {
    pub rows: usize,
    pub cols: usize,
    pub cells: Vec<Option<C>>,
}

impl<C> CellArray<C> {
    /// There are as many cells as rows times columns.
    pub open spec fn wf(&self) -> bool {
        self.cells@.len() == self.rows * self.cols
    }

    /// The cell in row `r` and column `g`.
    pub open spec fn cell(&self, r: int, g: int) -> Option<C> {
        self.cells@[r * self.cols + g]
    }

    /// Row `r` begins with the first `ngates` of `values`, or with all of them
    /// if there are fewer, and holds nothing behind.
    pub open spec fn row_holds(&self, r: int, values: Seq<Option<C>>, ngates: int) -> bool {
        forall|g: int|
            0 <= g < self.cols ==> #[trigger] self.cell(r, g) == (if g < ngates && g
                < values.len() {
                values[g]
            } else {
                None
            })
    }
}

/// The row and the column of a cell.
pub(crate) proof fn lemma_cell_bounds(c: int, cols: int, rows: int)
    requires
        cols > 0,
        0 <= c < rows * cols,
    ensures
        0 <= c / cols < rows,
        0 <= c % cols < cols,
        c == (c / cols) * cols + c % cols,
{
    vstd::arithmetic::div_mod::lemma_fundamental_div_mod(c, cols);
    let q = c / cols;
    assert(q < rows) by (nonlinear_arith)
        requires
            c == cols * q + c % cols,
            c % cols >= 0,
            c < rows * cols,
            cols > 0,
    ;
    assert(q >= 0) by (nonlinear_arith)
        requires
            c == cols * q + c % cols,
            c % cols < cols,
            c >= 0,
            cols > 0,
    ;
    assert(cols * q == q * cols) by (nonlinear_arith);
}

proof fn lemma_row_bounds(r: int, rows: int, cols: int)
    requires
        0 <= r < rows,
        0 <= cols,
    ensures
        0 <= r * cols,
        r * cols + cols <= rows * cols,
{
    assert(r * cols + cols <= rows * cols) by (nonlinear_arith)
        requires
            r + 1 <= rows,
            cols >= 0,
    ;
    assert(0 <= r * cols) by (nonlinear_arith)
        requires
            r >= 0,
            cols >= 0,
    ;
}

/// The product of those of two numbers that are not zero.
pub open spec fn nonzero_product(rows: int, cols: int) -> int {
    (if rows == 0 {
        1
    } else {
        rows
    }) * (if cols == 0 {
        1
    } else {
        cols
    })
}

/// An array of this shape can be counted.
pub open spec fn shape_fits(rows: int, cols: int) -> bool {
    nonzero_product(rows, cols) <= isize::MAX
}

/// What is wrong with a shape for so many cells, if anything.
pub open spec fn shape_error(rows: int, cols: int, len: int) -> Option<Seq<char>> {
    if !shape_fits(rows, cols) {
        Some("ShapeError/Overflow: arithmetic overflow"@)
    } else if rows * cols > len {
        Some("ShapeError/OutOfBounds: out of bounds indexing"@)
    } else if rows * cols < len {
        Some("ShapeError/IncompatibleShape: incompatible shapes"@)
    } else {
        None
    }
}

/// `ndarray::Array2::from_shape_vec`, and `into_raw_vec_and_offset` to get the
/// cells back: they come back as they are if there are as many as the shape
/// asks for and the shape can be counted. Otherwise the text of the
/// `ShapeError` comes back.
#[verifier::external_body]
pub(crate) fn shape_cells<C>(rows: usize, cols: usize, cells: Vec<C>) -> (r: Result<Vec<C>, String>)
    ensures
        match r {
            Ok(out) => {
                &&& shape_error(rows as int, cols as int, cells@.len() as int) is None
                &&& out@ == cells@
            },
            Err(text) => shape_error(rows as int, cols as int, cells@.len() as int) == Some(text@),
        },
{
    match ndarray::Array2::from_shape_vec((rows, cols), cells) {
        Ok(array) => Ok(array.into_raw_vec_and_offset().0),
        Err(error) => Err(error.to_string()),
    }
}

/// `e` says that a shape cannot be counted.
pub open spec fn is_shape_overflow(e: RadishError) -> bool {
    e matches RadishError::Conversion(text) && text@ == "ShapeError/Overflow: arithmetic overflow"@
}

/// Lay down an array of `order.len()` rows and `max_gates` columns.
///
/// Row `r` is filled with what `row_values` gives for item `order[r]`, no more
/// than `ngates` of it; the remaining cells hold no value.
pub fn decode_into_array<R, C: Copy, F: Fn(&R) -> Vec<Option<C>>>(
    items: &[R],
    order: &[usize],
    ngates: usize,
    max_gates: usize,
    row_values: F,
) -> (result: Result<CellArray<C>, RadishError>)
    requires
        ngates <= max_gates,
        forall|i: int| 0 <= i < order@.len() ==> (#[trigger] order@[i]) < items@.len(),
        forall|i: int| 0 <= i < items@.len() ==> call_requires(row_values, (&#[trigger] items@[i],)),
    ensures
        match result {
            Ok(a) => {
                &&& shape_fits(order@.len() as int, max_gates as int)
                &&& a.wf()
                &&& a.rows == order@.len()
                &&& a.cols == max_gates
                &&& forall|r: int|
                    0 <= r < order@.len() ==> exists|values: Vec<Option<C>>|
                        call_ensures(row_values, (&items@[#[trigger] order@[r] as int],), values)
                            && a.row_holds(r, values@, ngates as int)
            },
            Err(e) => !shape_fits(order@.len() as int, max_gates as int) && is_shape_overflow(e),
        },
{
    let nrays: usize = order.len();
    if nrays.checked_mul(max_gates).is_none() {
        proof {
            assert(nrays != 0 && max_gates != 0) by (nonlinear_arith)
                requires
                    nrays * max_gates > usize::MAX,
            ;
            assert(nonzero_product(nrays as int, max_gates as int) == nrays * max_gates);
        }
        return Err(
            RadishError::Conversion("ShapeError/Overflow: arithmetic overflow".to_owned()),
        );
    }
    let mut cells: Vec<Option<C>> = Vec::new();
    let ghost mut filled: Seq<Vec<Option<C>>> = Seq::empty();
    let mut r: usize = 0;
    while r < nrays
        invariant
            r <= nrays == order@.len(),
            ngates <= max_gates,
            nrays * max_gates <= usize::MAX,
            forall|i: int| 0 <= i < order@.len() ==> (#[trigger] order@[i]) < items@.len(),
            forall|i: int|
                0 <= i < items@.len() ==> call_requires(row_values, (&#[trigger] items@[i],)),
            cells@.len() == r * max_gates,
            filled.len() == r,
            forall|k: int|
                0 <= k < r ==> call_ensures(
                    row_values,
                    (&items@[order@[k] as int],),
                    #[trigger] filled[k],
                ),
            forall|k: int, g: int|
                0 <= k < r && 0 <= g < max_gates ==> #[trigger] cells@[k * max_gates + g] == (if g
                    < ngates && g < filled[k]@.len() {
                    filled[k]@[g]
                } else {
                    None
                }),
        decreases nrays - r,
    {
        proof {
            lemma_row_bounds(r as int, nrays as int, max_gates as int);
        }
        let item: usize = order[r];
        assert(order@[r as int] < items@.len());
        let values = row_values(&items[item]);
        let ghost before = cells@;
        let mut g: usize = 0;
        while g < max_gates
            invariant
                g <= max_gates,
                r < nrays,
                r * max_gates + max_gates <= usize::MAX,
                before.len() == r * max_gates,
                cells@.len() == before.len() + g,
                forall|c: int| 0 <= c < before.len() ==> #[trigger] cells@[c] == before[c],
                forall|j: int|
                    0 <= j < g ==> #[trigger] cells@[r * max_gates + j] == (if j < ngates && j
                        < values@.len() {
                        values@[j]
                    } else {
                        None
                    }),
            decreases max_gates - g,
        {
            if g < ngates && g < values.len() {
                cells.push(values[g]);
            } else {
                cells.push(None);
            }
            g += 1;
        }
        proof {
            let n = filled.push(values);
            assert forall|k: int, g: int|
                0 <= k < r + 1 && 0 <= g < max_gates implies #[trigger] cells@[k * max_gates + g]
                == (if g < ngates && g < n[k]@.len() {
                n[k]@[g]
            } else {
                None
            }) by {
                if k < r {
                    lemma_row_bounds(k, r as int, max_gates as int);
                    assert(before[k * max_gates + g] == cells@[k * max_gates + g]);
                }
            }
            filled = n;
            assert((r + 1) * max_gates == r * max_gates + max_gates) by (nonlinear_arith);
        }
        r += 1;
    }
    let ghost laid = cells@;
    let cells = match shape_cells(nrays, max_gates, cells) {
        Ok(cells) => cells,
        Err(text) => {
            return Err(RadishError::Conversion(text));
        },
    };
    let a = CellArray { rows: nrays, cols: max_gates, cells };
    proof {
        assert forall|k: int| 0 <= k < order@.len() implies exists|values: Vec<Option<C>>|
            call_ensures(row_values, (&items@[#[trigger] order@[k] as int],), values)
                && a.row_holds(k, values@, ngates as int) by {
            let values = filled[k];
            assert(call_ensures(row_values, (&items@[order@[k] as int],), values));
            assert forall|g: int| 0 <= g < a.cols implies #[trigger] a.cell(k, g) == (if g
                < ngates && g < values@.len() {
                values@[g]
            } else {
                None
            }) by {
                assert(a.cells@[k * max_gates + g] == laid[k * max_gates + g]);
            }
            assert(a.row_holds(k, values@, ngates as int));
        }
    }
    Ok(a)
}

/// A shape fits if its cells can be counted; where one side is zero, the other
/// alone is counted.
pub proof fn shapes_fit_if_their_cells_can_be_counted(rows: int, cols: int)
    requires
        0 <= rows <= usize::MAX,
        0 <= cols <= usize::MAX,
    ensures
        rows > 0 && cols > 0 ==> (shape_fits(rows, cols) <==> rows * cols <= isize::MAX),
        cols == 0 && rows > 0 ==> (shape_fits(rows, cols) <==> rows <= isize::MAX),
        rows == 0 && cols > 0 ==> (shape_fits(rows, cols) <==> cols <= isize::MAX),
        rows == 0 && cols == 0 ==> shape_fits(rows, cols),
{
}

/// Cell `(r, g)` of a row-major array stands `g` behind the start of row `r`, and
/// rows are as long as there are columns.
pub proof fn rows_stand_one_behind_the_other<C>(a: CellArray<C>, r: int, g: int)
    requires
        a.wf(),
        0 <= r < a.rows,
        0 <= g < a.cols,
    ensures
        a.cells@.len() == a.rows * a.cols,
        0 <= r * a.cols + g < a.cells@.len(),
        a.cell(r, g) == a.cells@.skip(r * a.cols)[g],
        g + 1 < a.cols ==> a.cell(r, g + 1) == a.cells@[r * a.cols + g + 1],
{
    let (rows, cols) = (a.rows as int, a.cols as int);
    assert(0 <= r * cols && r * cols + g < rows * cols) by (nonlinear_arith)
        requires
            0 <= r < rows,
            0 <= g < cols,
    ;
}

} // verus!
