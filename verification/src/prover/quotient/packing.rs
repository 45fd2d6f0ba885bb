use vstd::prelude::*;

use crate::field::extension::ExtElem;
use crate::matrix::{matrix_get, matrix_width, spec_entry, spec_height, BaseMatrix};
use crate::prover::evaluator::{view_has_width, ViewPair};

verus! {

/// The extension field element that a matrix of flattened extension
/// field elements holds in row `r` at the columns `4c .. 4c + 3`.
pub open spec fn spec_ext_entry(m: BaseMatrix, r: int, c: int) -> ExtElem {
    ExtElem {
        c0: spec_entry(m, r, 4 * c),
        c1: spec_entry(m, r, 4 * c + 1),
        c2: spec_entry(m, r, 4 * c + 2),
        c3: spec_entry(m, r, 4 * c + 3),
    }
}

/// Whether every row index is below `bound`.
pub open spec fn rows_below(rows: Seq<usize>, bound: nat) -> bool {
    forall|j: int| 0 <= j < rows.len() ==> (#[trigger] rows[j]) < bound
}

/// The entries of `values` at the given positions, one lane per position.
pub fn gather(values: &Vec<u32>, rows: &Vec<usize>) -> (packed: Vec<u32>)
    requires
        rows_below(rows@, values@.len()),
    ensures
        packed@.len() == rows@.len(),
        forall|j: int| 0 <= j < rows@.len() ==> #[trigger] packed@[j] == values@[rows@[j] as int],
{
    let width = rows.len();
    let mut packed: Vec<u32> = Vec::with_capacity(width);
    let mut j: usize = 0;
    while j < width
        invariant
            width == rows@.len(),
            j <= width,
            rows_below(rows@, values@.len()),
            packed@.len() == j,
            forall|l: int| 0 <= l < j ==> #[trigger] packed@[l] == values@[rows@[l] as int],
        decreases width - j,
    {
        assert(rows@[j as int] < values@.len());
        packed.push(values[rows[j]]);
        j += 1;
    }
    packed
}

/// Whether `packed` holds, column by column, the entries of `m` at the
/// given rows, one lane per row.
pub open spec fn is_packing_of(packed: Seq<Vec<u32>>, m: BaseMatrix, rows: Seq<usize>) -> bool {
    &&& packed.len() == matrix_width(m)
    &&& forall|c: int| 0 <= c < packed.len() ==> (#[trigger] packed[c])@.len() == rows.len()
    &&& forall|c: int, j: int|
        0 <= c < packed.len() && 0 <= j < rows.len() ==> (#[trigger] packed[c]@[j]) == spec_entry(
            m,
            rows[j] as int,
            c,
        )
}

/// Whether `packed` holds, column by column, the extension field elements
/// of `m` at the given rows, one lane per row.
pub open spec fn is_ext_packing_of(packed: Seq<Vec<ExtElem>>, m: BaseMatrix, rows: Seq<usize>)
    -> bool {
    &&& packed.len() == matrix_width(m) / 4
    &&& forall|c: int| 0 <= c < packed.len() ==> (#[trigger] packed[c])@.len() == rows.len()
    &&& forall|c: int, j: int|
        0 <= c < packed.len() && 0 <= j < rows.len() ==> (#[trigger] packed[c]@[j])
            == spec_ext_entry(m, rows[j] as int, c)
}

/// Packs each column of a matrix at the given rows: lane `j` of column
/// `c` is the entry in row `rows[j]` and column `c`.
pub fn pack_columns(m: &BaseMatrix, rows: &Vec<usize>) -> (packed: Vec<Vec<u32>>)
    requires
        rows_below(rows@, spec_height(*m)),
    ensures
        is_packing_of(packed@, *m, rows@),
{
    let columns = m.width();
    let width = rows.len();
    let mut packed: Vec<Vec<u32>> = Vec::with_capacity(columns);
    let mut c: usize = 0;
    while c < columns
        invariant
            columns == matrix_width(*m),
            width == rows@.len(),
            c <= columns,
            rows_below(rows@, spec_height(*m)),
            packed@.len() == c,
            forall|d: int| 0 <= d < c ==> (#[trigger] packed@[d])@.len() == width,
            forall|d: int, j: int|
                0 <= d < c && 0 <= j < width ==> (#[trigger] packed@[d]@[j]) == spec_entry(
                    *m,
                    rows@[j] as int,
                    d,
                ),
        decreases columns - c,
    {
        let mut column: Vec<u32> = Vec::with_capacity(width);
        let mut j: usize = 0;
        while j < width
            invariant
                columns == matrix_width(*m),
                width == rows@.len(),
                c < columns,
                j <= width,
                rows_below(rows@, spec_height(*m)),
                column@.len() == j,
                forall|l: int|
                    0 <= l < j ==> #[trigger] column@[l] == spec_entry(
                        *m,
                        rows@[l] as int,
                        c as int,
                    ),
            decreases width - j,
        {
            assert(rows@[j as int] < spec_height(*m));
            column.push(matrix_get(m, rows[j], c));
            j += 1;
        }
        packed.push(column);
        c += 1;
    }
    packed
}

/// Packs each column of extension field elements of a matrix at the
/// given rows: lane `j` of column `c` is the element with the
/// coefficients in row `rows[j]` at the columns `4c .. 4c + 3`.
pub fn pack_ext_columns(m: &BaseMatrix, rows: &Vec<usize>) -> (packed: Vec<Vec<ExtElem>>)
    requires
        rows_below(rows@, spec_height(*m)),
    ensures
        is_ext_packing_of(packed@, *m, rows@),
{
    let base_columns = m.width();
    let columns = base_columns / 4;
    let width = rows.len();
    let mut packed: Vec<Vec<ExtElem>> = Vec::with_capacity(columns);
    let mut c: usize = 0;
    while c < columns
        invariant
            base_columns == matrix_width(*m),
            columns == matrix_width(*m) / 4,
            width == rows@.len(),
            c <= columns,
            rows_below(rows@, spec_height(*m)),
            packed@.len() == c,
            forall|d: int| 0 <= d < c ==> (#[trigger] packed@[d])@.len() == width,
            forall|d: int, j: int|
                0 <= d < c && 0 <= j < width ==> (#[trigger] packed@[d]@[j]) == spec_ext_entry(
                    *m,
                    rows@[j] as int,
                    d,
                ),
        decreases columns - c,
    {
        let mut column: Vec<ExtElem> = Vec::with_capacity(width);
        let mut j: usize = 0;
        assert(4 * c + 3 < base_columns);
        while j < width
            invariant
                base_columns == matrix_width(*m),
                4 * c + 3 < base_columns,
                columns == matrix_width(*m) / 4,
                width == rows@.len(),
                c < columns,
                j <= width,
                rows_below(rows@, spec_height(*m)),
                column@.len() == j,
                forall|l: int|
                    0 <= l < j ==> #[trigger] column@[l] == spec_ext_entry(
                        *m,
                        rows@[l] as int,
                        c as int,
                    ),
            decreases width - j,
        {
            assert(rows@[j as int] < spec_height(*m));
            let row = rows[j];
            let element = ExtElem {
                c0: matrix_get(m, row, 4 * c),
                c1: matrix_get(m, row, 4 * c + 1),
                c2: matrix_get(m, row, 4 * c + 2),
                c3: matrix_get(m, row, 4 * c + 3),
            };
            column.push(element);
            j += 1;
        }
        packed.push(column);
        c += 1;
    }
    packed
}

/// The view of a matrix at one batch of rows: its columns packed at the
/// local rows and, if `needs_next`, at the next rows.
pub fn pack_view(
    m: &BaseMatrix,
    rows_local: &Vec<usize>,
    rows_next: &Vec<usize>,
    needs_next: bool,
) -> (view: ViewPair<Vec<u32>>)
    requires
        rows_local@.len() == rows_next@.len(),
        rows_below(rows_local@, spec_height(*m)),
        rows_below(rows_next@, spec_height(*m)),
    ensures
        is_packing_of(view.local@, *m, rows_local@),
        view.next is Some == needs_next,
        needs_next ==> is_packing_of(view.next->0@, *m, rows_next@),
        view_has_width(view, rows_local@.len()),
{
    let local = pack_columns(m, rows_local);
    let next = if needs_next {
        Some(pack_columns(m, rows_next))
    } else {
        None
    };
    ViewPair::new(local, next)
}

/// The view of a matrix of flattened extension field elements at one
/// batch of rows.
pub fn pack_ext_view(
    m: &BaseMatrix,
    rows_local: &Vec<usize>,
    rows_next: &Vec<usize>,
    needs_next: bool,
) -> (view: ViewPair<Vec<ExtElem>>)
    requires
        rows_local@.len() == rows_next@.len(),
        rows_below(rows_local@, spec_height(*m)),
        rows_below(rows_next@, spec_height(*m)),
    ensures
        is_ext_packing_of(view.local@, *m, rows_local@),
        view.next is Some == needs_next,
        needs_next ==> is_ext_packing_of(view.next->0@, *m, rows_next@),
        view_has_width(view, rows_local@.len()),
{
    let local = pack_ext_columns(m, rows_local);
    let next = if needs_next {
        Some(pack_ext_columns(m, rows_next))
    } else {
        None
    };
    ViewPair::new(local, next)
}

} // verus!
