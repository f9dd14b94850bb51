//! The two-dimensional table that holds the hexes of a mesh.

use crate::cmd::MAX_DIMENSION;
use crate::mesh::Hex;
use vstd::prelude::*;

verus! {

/// `ndarray::ShapeError`, with which the crate refuses a vector that does
/// not fit a shape. Nothing is claimed of what is inside it.
#[verifier::external_type_specification]
#[verifier::external_body]
pub struct ExShapeError(ndarray::ShapeError);

/// A table of hexes with a fixed number of columns and rows, kept in an
/// `ndarray::Array2`.
#[verifier::external_body]
pub struct HexTable {
    cells: ndarray::Array2<Hex>,
}

/// The hexes of a table, column after column: the hex at column `x` and row
/// `y` stands at `x * rows + y`.
pub uninterp spec fn table_cells(t: HexTable) -> Seq<Hex>;

/// The numbers of columns and of rows that a table was made with.
pub uninterp spec fn table_shape(t: HexTable) -> (nat, nat);

/// Calls `ndarray::Array2::from_shape_vec` with the shape `(columns, rows)`.
/// Within the stated bounds the crate accepts the vector exactly when it
/// holds `columns * rows` hexes, and then keeps them in the order given,
/// which it reads as row-major over `(columns, rows)`.
#[verifier::external_body]
pub(crate) fn table_from_vec(columns: usize, rows: usize, cells: Vec<Hex>) -> (r: Result<
    HexTable,
    ndarray::ShapeError,
>)
    requires
        1 <= columns <= MAX_DIMENSION,
        1 <= rows <= MAX_DIMENSION,
    ensures
        r is Ok <==> cells@.len() == columns * rows,
        r is Ok ==> table_cells(r->Ok_0) == cells@ && table_shape(r->Ok_0) == (
            columns as nat,
            rows as nat,
        ),
{
    match ndarray::Array2::from_shape_vec((columns, rows), cells) {
        Ok(cells) => Ok(HexTable { cells }),
        Err(e) => Err(e),
    }
}

/// Calls the index operator of `ndarray::Array2` with `[x, y]`, which the
/// crate answers for indices inside the shape with the element at column
/// `x` and row `y`.
#[verifier::external_body]
pub(crate) fn table_get(t: &HexTable, x: usize, y: usize) -> (r: &Hex)
    requires
        x < table_shape(*t).0,
        y < table_shape(*t).1,
    ensures
        *r == table_cells(*t)[x * table_shape(*t).1 + y],
{
    &t.cells[[x, y]]
}

} // verus!
