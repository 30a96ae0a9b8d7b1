//! The table layout engine: the accumulator filled between table events, and
//! the bordered rendering of the completed table through an outside layout
//! crate.

use vstd::prelude::*;

use crate::events::MdAlign;
use crate::line::views_of;
use crate::normalize::trim_spec;
use crate::text::chars_to_string;

verus! {

/// The mathematical model of the table accumulator.
#[verifier::ext_equal]
pub ghost struct TableS {
    pub alignments: Seq<MdAlign>,
    pub rows: Seq<Seq<Seq<char>>>,
    pub current_row: Seq<Seq<char>>,
    pub current_cell: Seq<char>,
    pub header_rows: nat,
    pub in_head: bool,
    pub row_open: bool,
}

/// The nested views of a row list.
pub open spec fn rows_view(v: Seq<Vec<Vec<char>>>) -> Seq<Seq<Seq<char>>> {
    v.map_values(|r: Vec<Vec<char>>| views_of(r@))
}

pub proof fn lemma_rows_view_push(v: Seq<Vec<Vec<char>>>, x: Vec<Vec<char>>)
    ensures
        rows_view(v.push(x)) == rows_view(v).push(views_of(x@)),
{
    assert(rows_view(v.push(x)) =~= rows_view(v).push(views_of(x@)));
}

/// The live table accumulator: per-column alignment, completed rows, the
/// in-progress row and cell, and the header bookkeeping.
pub struct TableState {
    pub alignments: Vec<MdAlign>,
    pub rows: Vec<Vec<Vec<char>>>,
    pub current_row: Vec<Vec<char>>,
    pub current_cell: Vec<char>,
    pub header_rows: usize,
    pub in_head: bool,
    pub row_open: bool,
}

impl View for TableState {
    type V = TableS;

    open spec fn view(&self) -> TableS {
        TableS {
            alignments: self.alignments@,
            rows: rows_view(self.rows@),
            current_row: views_of(self.current_row@),
            current_cell: self.current_cell@,
            header_rows: self.header_rows as nat,
            in_head: self.in_head,
            row_open: self.row_open,
        }
    }
}

/// A fresh accumulator for the given alignments.
pub open spec fn table_new(alignments: Seq<MdAlign>) -> TableS {
    TableS {
        alignments,
        rows: Seq::empty(),
        current_row: Seq::empty(),
        current_cell: Seq::empty(),
        header_rows: 0,
        in_head: false,
        row_open: false,
    }
}

/// Opens a row: the in-progress row and cell start empty.
pub open spec fn table_start_row(t: TableS) -> TableS {
    TableS { current_row: Seq::empty(), current_cell: Seq::empty(), row_open: true, ..t }
}

/// Closes a row: a pending cell is committed, and a nonempty row joins the
/// completed rows, counting toward the header while the head is open.
pub open spec fn table_end_row(t: TableS) -> TableS {
    let t1 = if t.current_cell.len() > 0 {
        TableS {
            current_row: t.current_row.push(trim_spec(t.current_cell)),
            current_cell: Seq::empty(),
            ..t
        }
    } else {
        t
    };
    let t2 = if t1.current_row.len() > 0 {
        TableS {
            rows: t1.rows.push(t1.current_row),
            current_row: Seq::empty(),
            header_rows: if t1.in_head {
                if t1.header_rows < usize::MAX {
                    t1.header_rows + 1
                } else {
                    t1.header_rows
                }
            } else {
                t1.header_rows
            },
            ..t1
        }
    } else {
        t1
    };
    TableS { row_open: false, ..t2 }
}

/// Opens a cell.
pub open spec fn table_start_cell(t: TableS) -> TableS {
    TableS { current_cell: Seq::empty(), ..t }
}

/// Closes a cell: its trimmed text joins the in-progress row.
pub open spec fn table_end_cell(t: TableS) -> TableS {
    TableS {
        current_row: t.current_row.push(trim_spec(t.current_cell)),
        current_cell: Seq::empty(),
        ..t
    }
}

/// Appends text to the in-progress cell.
pub open spec fn table_push_text(t: TableS, text: Seq<char>) -> TableS {
    TableS { current_cell: t.current_cell + text, ..t }
}

/// Appends one space to the in-progress cell unless it already ends with one.
pub open spec fn table_push_space(t: TableS) -> TableS {
    if t.current_cell.len() > 0 && t.current_cell.last() == ' ' {
        t
    } else {
        TableS { current_cell: t.current_cell.push(' '), ..t }
    }
}

impl TableState {
    pub fn new(alignments: Vec<MdAlign>) -> (r: TableState)
        ensures
            r@ == table_new(alignments@),
    {
        let r = TableState {
            alignments,
            rows: Vec::new(),
            current_row: Vec::new(),
            current_cell: Vec::new(),
            header_rows: 0,
            in_head: false,
            row_open: false,
        };
        proof {
            assert(r@ =~= table_new(r.alignments@));
        }
        r
    }

    pub fn start_row(&mut self)
        ensures
            final(self)@ == table_start_row(old(self)@),
    {
        self.current_row = Vec::new();
        self.current_cell = Vec::new();
        self.row_open = true;
        proof {
            assert(self@ =~= table_start_row(old(self)@));
        }
    }

    pub fn end_row(&mut self)
        ensures
            final(self)@ == table_end_row(old(self)@),
    {
        let ghost t0 = self@;
        if self.current_cell.len() > 0 {
            let cell = crate::normalize::trim_chars(&self.current_cell);
            proof {
                crate::line::lemma_views_of_push(self.current_row@, cell);
            }
            self.current_row.push(cell);
            self.current_cell = Vec::new();
        }
        let ghost t1 = self@;
        proof {
            if t0.current_cell.len() > 0 {
                assert(t1 =~= (TableS {
                    current_row: t0.current_row.push(trim_spec(t0.current_cell)),
                    current_cell: Seq::empty(),
                    ..t0
                }));
            } else {
                assert(t1 =~= t0);
            }
        }
        if self.current_row.len() > 0 {
            let mut row: Vec<Vec<char>> = Vec::new();
            core::mem::swap(&mut row, &mut self.current_row);
            proof {
                lemma_rows_view_push(self.rows@, row);
            }
            self.rows.push(row);
            if self.in_head && self.header_rows < usize::MAX {
                self.header_rows = self.header_rows + 1;
            }
        }
        self.row_open = false;
        proof {
            assert(self@ =~= table_end_row(t0));
        }
    }

    pub fn start_cell(&mut self)
        ensures
            final(self)@ == table_start_cell(old(self)@),
    {
        self.current_cell = Vec::new();
        proof {
            assert(self@ =~= table_start_cell(old(self)@));
        }
    }

    pub fn end_cell(&mut self)
        ensures
            final(self)@ == table_end_cell(old(self)@),
    {
        let cell = crate::normalize::trim_chars(&self.current_cell);
        proof {
            crate::line::lemma_views_of_push(self.current_row@, cell);
        }
        self.current_row.push(cell);
        self.current_cell = Vec::new();
        proof {
            assert(self@ =~= table_end_cell(old(self)@));
        }
    }

    pub fn push_text(&mut self, text: &Vec<char>)
        ensures
            final(self)@ == table_push_text(old(self)@, text@),
    {
        crate::text::append_chars(&mut self.current_cell, text);
        proof {
            assert(self@ =~= table_push_text(old(self)@, text@));
        }
    }

    pub fn push_space(&mut self)
        ensures
            final(self)@ == table_push_space(old(self)@),
    {
        let n = self.current_cell.len();
        if n > 0 && self.current_cell[n - 1] == ' ' {
            proof {
                assert(self@.current_cell.last() == ' ');
                assert(self@ =~= table_push_space(old(self)@));
            }
        } else {
            self.current_cell.push(' ');
            proof {
                assert(self@ =~= table_push_space(old(self)@));
            }
        }
    }
}

/// The bordered text an outside layout engine renders for a table: a function
/// of the header, body rows, column alignments and width budget alone.
pub uninterp spec fn table_layout(
    header: Option<Seq<Seq<char>>>,
    rows: Seq<Seq<Seq<char>>>,
    aligns: Seq<MdAlign>,
    width: u16,
) -> Seq<char>;

/// The view of an optional header row.
pub open spec fn header_view(h: Option<Vec<String>>) -> Option<Seq<Seq<char>>> {
    match h {
        Some(v) => Some(views_of(v@)),
        None => None,
    }
}

/// The nested views of string rows.
pub open spec fn srows_view(v: Seq<Vec<String>>) -> Seq<Seq<Seq<char>>> {
    v.map_values(|r: Vec<String>| views_of(r@))
}

/// Relies on `comfy_table::Table`: lays the rows out as a bordered,
/// alignment-aware table under the given width, with dynamic column
/// arrangement; the rendered text depends on the arguments alone.
#[verifier::external_type_specification]
#[verifier::external_body]
pub struct ExCellAlignment(comfy_table::CellAlignment);

/// Converts one column alignment for the layout engine; an unspecified
/// alignment falls back to left.
#[verifier::external_body]
fn cell_alignment(a: &MdAlign) -> (r: comfy_table::CellAlignment) {
    match a {
        MdAlign::Right => comfy_table::CellAlignment::Right,
        MdAlign::Center => comfy_table::CellAlignment::Center,
        _ => comfy_table::CellAlignment::Left,
    }
}

#[verifier::external_body]
pub fn render_table_string(
    header: &Option<Vec<String>>,
    rows: &Vec<Vec<String>>,
    aligns: &Vec<MdAlign>,
    width: u16,
) -> (r: String)
    ensures
        r@ == table_layout(header_view(*header), srows_view(rows@), aligns@, width),
{
    let mut t = comfy_table::Table::new();
    t.load_preset("││──├─┼┤│─┼├┤┬┴┌┐└┘");
    t.set_content_arrangement(comfy_table::ContentArrangement::Dynamic);
    t.set_width(width);
    if let Some(h) = header { t.set_header(h.clone()); }
    for row in rows { t.add_row(row.clone()); }
    for (idx, a) in aligns.iter().enumerate() {
        t.column_mut(idx).map(|c| c.set_cell_alignment(cell_alignment(a)));
    }
    t.to_string()
}

/// Converts character rows to string rows, preserving their model.
pub fn rows_to_strings(rows: &Vec<Vec<Vec<char>>>) -> (r: Vec<Vec<String>>)
    ensures
        srows_view(r@) == rows_view(rows@),
{
    let mut r: Vec<Vec<String>> = Vec::new();
    let mut i: usize = 0;
    while i < rows.len()
        invariant
            i <= rows@.len(),
            srows_view(r@) == rows_view(rows@).take(i as int),
        decreases rows@.len() - i,
    {
        let mut row: Vec<String> = Vec::new();
        let mut j: usize = 0;
        while j < rows[i].len()
            invariant
                i < rows@.len(),
                j <= rows@[i as int]@.len(),
                views_of(row@) == views_of(rows@[i as int]@).take(j as int),
            decreases rows@[i as int]@.len() - j,
        {
            let cell = chars_to_string(&rows[i][j]);
            proof {
                crate::line::lemma_views_of_push(row@, cell);
                assert(views_of(row@).push(cell@) =~= views_of(rows@[i as int]@).take(
                    j + 1 as int));
            }
            row.push(cell);
            j += 1;
        }
        proof {
            assert(views_of(rows@[i as int]@).take(rows@[i as int]@.len() as int) =~= views_of(
                rows@[i as int]@));
            assert(srows_view(r@.push(row)) =~= srows_view(r@).push(views_of(row@)));
            assert(srows_view(r@).push(views_of(row@)) =~= rows_view(rows@).take(i + 1 as int));
        }
        r.push(row);
        i += 1;
    }
    proof {
        assert(rows_view(rows@).take(rows@.len() as int) =~= rows_view(rows@));
    }
    r
}

} // verus!
