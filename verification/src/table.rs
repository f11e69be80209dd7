//! The tabular data model and its mapping onto spreadsheet cells: an ordered
//! sequence of rows of string fields becomes one cell per field, addressed by
//! the zero-based (row, column) coordinates of the field, with no cell beyond
//! any row's own extent.

use vstd::prelude::*;

verus! {

/// Largest number of rows a worksheet of the target format can address.
pub const MAX_ROWS: u32 = 1048576;

/// Largest number of columns a worksheet of the target format can address.
pub const MAX_COLS: u16 = 16384;

/// Why a conversion step failed.
#[derive(Clone, Copy, PartialEq, Eq, Structural, Debug)]
pub enum ConvertError {
    /// The source text does not conform to the delimited-text dialect.
    MalformedInput,
    /// The row or column count exceeds the target format's addressable
    /// extents.
    CapacityExceeded,
}

/// An ordered sequence of rows, each an ordered sequence of string fields.
/// Row order and field order are significant; rows may have unequal field
/// counts.
pub struct TabularDocument {
    pub rows: Vec<Vec<String>>,
}

impl View for TabularDocument {
    type V = Seq<Seq<Seq<char>>>;

    open spec fn view(&self) -> Seq<Seq<Seq<char>>> {
        self.rows.deep_view()
    }
}

/// One worksheet cell: the string `value` at zero-based coordinates
/// (`row`, `col`).
pub struct Cell {
    pub row: u32,
    pub col: u16,
    pub value: String,
}

/// The mathematical content of a cell: its coordinates and character
/// sequence.
pub open spec fn cell_view(c: Cell) -> (int, int, Seq<char>) {
    (c.row as int, c.col as int, c.value@)
}

/// The contents of a sequence of cells, cell by cell.
pub open spec fn cells_view(cells: Seq<Cell>) -> Seq<(int, int, Seq<char>)> {
    cells.map_values(|c: Cell| cell_view(c))
}

/// The cells of row `r` with fields `fields`: one cell per field, at column
/// positions 0 up to the row's own field count.
pub open spec fn row_cells_of(r: int, fields: Seq<Seq<char>>) -> Seq<(int, int, Seq<char>)> {
    Seq::new(fields.len(), |j: int| (r, j, fields[j]))
}

/// The full cell plan of a document, row-major: every field of every row, at
/// the field's own (row, column) coordinates, and nothing else.
pub open spec fn plan_of(t: Seq<Seq<Seq<char>>>) -> Seq<(int, int, Seq<char>)>
    decreases t.len(),
{
    if t.len() == 0 {
        Seq::empty()
    } else {
        plan_of(t.drop_last()) + row_cells_of(t.len() - 1, t.last())
    }
}

/// Total number of fields over all rows of a document.
pub open spec fn total_fields(t: Seq<Seq<Seq<char>>>) -> int
    decreases t.len(),
{
    if t.len() == 0 {
        0
    } else {
        total_fields(t.drop_last()) + t.last().len()
    }
}

/// Cell mapping fidelity. The plan of a document holds one cell per field:
/// there are exactly as many cells as fields; the cell for row i, field j
/// exists and holds exactly that field's string; every cell lies within some
/// row's own extent and holds that row's field; and no two cells share
/// coordinates. In particular a row with n fields has exactly n populated
/// cells, whatever the other rows' widths.
pub proof fn lemma_cell_mapping(t: Seq<Seq<Seq<char>>>)
    ensures
        plan_of(t).len() == total_fields(t),
        forall|i: int, j: int|
            0 <= i < t.len() && 0 <= j < t[i].len() ==> #[trigger] plan_of(t).contains(
                (i, j, t[i][j]),
            ),
        forall|k: int|
            0 <= k < plan_of(t).len() ==> {
                &&& 0 <= (#[trigger] plan_of(t)[k]).0 < t.len()
                &&& 0 <= plan_of(t)[k].1 < t[plan_of(t)[k].0].len()
                &&& plan_of(t)[k].2 == t[plan_of(t)[k].0][plan_of(t)[k].1]
            },
        forall|k1: int, k2: int|
            0 <= k1 < plan_of(t).len() && 0 <= k2 < plan_of(t).len() && (#[trigger] plan_of(
                t,
            )[k1]).0 == (#[trigger] plan_of(t)[k2]).0 && plan_of(t)[k1].1 == plan_of(t)[k2].1
                ==> k1 == k2,
    decreases t.len(),
{
    if t.len() > 0 {
        let n = t.len() as int;
        let tp = t.drop_last();
        lemma_cell_mapping(tp);
        let p = plan_of(tp);
        let r = row_cells_of(n - 1, t.last());
        assert(plan_of(t) == p + r);
        assert(t.last() == t[n - 1]);
        assert forall|i: int, j: int| 0 <= i < n && 0 <= j < t[i].len() implies #[trigger] plan_of(
            t,
        ).contains((i, j, t[i][j])) by {
            if i < n - 1 {
                assert(tp[i] == t[i]);
                assert(p.contains((i, j, t[i][j])));
                let k = choose|k: int| 0 <= k < p.len() && p[k] == (i, j, t[i][j]);
                assert(plan_of(t)[k] == (i, j, t[i][j]));
            } else {
                assert(r[j] == (i, j, t[i][j]));
                assert(plan_of(t)[p.len() + j] == (i, j, t[i][j]));
            }
        }
        assert forall|k: int| 0 <= k < plan_of(t).len() implies {
            &&& 0 <= (#[trigger] plan_of(t)[k]).0 < t.len()
            &&& 0 <= plan_of(t)[k].1 < t[plan_of(t)[k].0].len()
            &&& plan_of(t)[k].2 == t[plan_of(t)[k].0][plan_of(t)[k].1]
        } by {
            if k < p.len() {
                assert(plan_of(t)[k] == p[k]);
                assert(tp[p[k].0] == t[p[k].0]);
            } else {
                assert(plan_of(t)[k] == r[k - p.len()]);
            }
        }
        assert forall|k1: int, k2: int|
            0 <= k1 < plan_of(t).len() && 0 <= k2 < plan_of(t).len() && (#[trigger] plan_of(
                t,
            )[k1]).0 == (#[trigger] plan_of(t)[k2]).0 && plan_of(t)[k1].1 == plan_of(t)[k2].1
            implies k1 == k2 by {
            if k1 < p.len() && k2 < p.len() {
                assert(plan_of(t)[k1] == p[k1]);
                assert(plan_of(t)[k2] == p[k2]);
            } else if k1 >= p.len() && k2 >= p.len() {
                assert(plan_of(t)[k1] == r[k1 - p.len()]);
                assert(plan_of(t)[k2] == r[k2 - p.len()]);
            } else if k1 < p.len() {
                assert(p[k1].0 < n - 1);
                assert(plan_of(t)[k2] == r[k2 - p.len()]);
                assert(plan_of(t)[k2].0 == n - 1);
            } else {
                assert(p[k2].0 < n - 1);
                assert(plan_of(t)[k1] == r[k1 - p.len()]);
                assert(plan_of(t)[k1].0 == n - 1);
            }
        }
    }
}

/// Whether a document fits the target format's addressable extents.
pub open spec fn fits_extents(t: Seq<Seq<Seq<char>>>) -> bool {
    &&& t.len() <= MAX_ROWS
    &&& forall|i: int| 0 <= i < t.len() ==> #[trigger] t[i].len() <= MAX_COLS
}

/// A single worksheet, held as its populated cells in row-major order.
/// Well-formed exactly when the cells are the plan of some document that
/// fits the addressable extents.
pub struct SpreadsheetDocument {
    pub cells: Vec<Cell>,
}

impl View for SpreadsheetDocument {
    type V = Seq<(int, int, Seq<char>)>;

    open spec fn view(&self) -> Seq<(int, int, Seq<char>)> {
        cells_view(self.cells@)
    }
}

/// Maps a tabular document onto a spreadsheet: the cell at coordinates
/// (r, c) holds exactly the string of row r, field c, for every field of
/// every row, and no other cell exists. Fails with `CapacityExceeded` exactly
/// when the document exceeds the addressable extents.
pub fn build_spreadsheet(doc: &TabularDocument) -> (r: Result<SpreadsheetDocument, ConvertError>)
    ensures
        r is Ok <==> fits_extents(doc@),
        r is Ok ==> r.unwrap()@ == plan_of(doc@),
        r is Err ==> r->Err_0 == ConvertError::CapacityExceeded,
{
    if doc.rows.len() > MAX_ROWS as usize {
        return Err(ConvertError::CapacityExceeded);
    }
    let mut cells: Vec<Cell> = Vec::new();
    let mut i: usize = 0;
    proof {
        assert(doc@.take(0) =~= Seq::<Seq<Seq<char>>>::empty());
        assert(cells_view(cells@) =~= plan_of(doc@.take(0)));
    }
    while i < doc.rows.len()
        invariant
            i <= doc.rows.len(),
            doc.rows.len() <= MAX_ROWS,
            doc@.len() == doc.rows.len(),
            forall|k: int| 0 <= k < i ==> #[trigger] doc@[k].len() <= MAX_COLS,
            cells_view(cells@) == plan_of(doc@.take(i as int)),
        decreases doc.rows.len() - i,
    {
        let row = &doc.rows[i];
        if row.len() > MAX_COLS as usize {
            proof {
                assert(doc@[i as int] =~= row.deep_view());
                assert(doc@[i as int].len() > MAX_COLS);
            }
            return Err(ConvertError::CapacityExceeded);
        }
        let mut j: usize = 0;
        proof {
            assert(row_cells_of(i as int, doc@[i as int]).take(0) =~= Seq::<(
                int,
                int,
                Seq<char>,
            )>::empty());
            assert(cells_view(cells@) + row_cells_of(i as int, doc@[i as int]).take(0)
                =~= cells_view(cells@));
        }
        while j < row.len()
            invariant
                j <= row.len(),
                i < doc.rows.len(),
                i < MAX_ROWS,
                row.len() <= MAX_COLS,
                doc@.len() == doc.rows.len(),
                row@ == doc.rows@[i as int]@,
                doc@[i as int] == row.deep_view(),
                cells_view(cells@) == plan_of(doc@.take(i as int)) + row_cells_of(
                    i as int,
                    doc@[i as int],
                ).take(j as int),
            decreases row.len() - j,
        {
            let value = row[j].clone();
            let cell = Cell { row: i as u32, col: j as u16, value };
            proof {
                assert(doc@[i as int].len() == row@.len());
                assert(cell_view(cell) == (i as int, j as int, doc@[i as int][j as int]));
            }
            let ghost prev = cells@;
            cells.push(cell);
            proof {
                let target = plan_of(doc@.take(i as int)) + row_cells_of(
                    i as int,
                    doc@[i as int],
                ).take(j as int + 1);
                assert(cells_view(prev).len() == prev.len());
                assert forall|k: int| 0 <= k < cells@.len() implies cells_view(cells@)[k]
                    == target[k] by {
                    if k < prev.len() {
                        assert(cells@[k] == prev[k]);
                        assert(cells_view(prev)[k] == cell_view(prev[k]));
                    } else {
                        assert(cells@[k] == cell);
                    }
                }
                assert(cells_view(cells@) =~= target);
            }
            j = j + 1;
        }
        proof {
            assert(row_cells_of(i as int, doc@[i as int]).take(row@.len() as int) =~= row_cells_of(
                i as int,
                doc@[i as int],
            ));
            assert(doc@.take(i as int + 1).drop_last() =~= doc@.take(i as int));
            assert(doc@.take(i as int + 1).last() == doc@[i as int]);
            assert(cells_view(cells@) =~= plan_of(doc@.take(i as int + 1)));
        }
        i = i + 1;
    }
    proof {
        assert(doc@.take(doc@.len() as int) =~= doc@);
    }
    Ok(SpreadsheetDocument { cells })
}

} // verus!
