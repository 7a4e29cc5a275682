use vstd::prelude::*;

use crate::composite::{char_count, lemma_char_count_nonneg, Composite, CompositeModel,
    CompositeStyle};
use crate::compound::{Alignment, Compound};
use crate::tbl::TableRow;

verus! {

/// The deepest header this dialect recognizes: more `#` characters make
/// the line an ordinary paragraph.
pub const MAX_HEADER_DEPTH: usize = 8;

/// How one table cell is to be displayed.
#[derive(Debug, PartialEq, Eq, Clone, Copy, Structural)]
pub struct CellFormat {
    pub alignment: Alignment,
}

/// The ghost value of a [`Line`].
pub enum LineModel {
    Normal(CompositeModel),
    TableRow(Seq<CompositeModel>),
    CodeFence,
}

impl LineModel {
    /// The total number of characters of the line.
    pub open spec fn char_count(self) -> int {
        match self {
            LineModel::Normal(composite) => char_count(composite.compounds),
            LineModel::TableRow(cells) => cells_char_count(cells),
            LineModel::CodeFence => 0,
        }
    }
}

/// The total character count of a sequence of cells.
pub open spec fn cells_char_count(cells: Seq<CompositeModel>) -> int
    decreases cells.len(),
{
    if cells.len() == 0 {
        0
    } else {
        char_count(cells[0].compounds) + cells_char_count(cells.drop_first())
    }
}

pub broadcast proof fn lemma_cells_char_count_nonneg(cells: Seq<CompositeModel>)
    ensures
        #[trigger] cells_char_count(cells) >= 0,
    decreases cells.len(),
{
    if cells.len() != 0 {
        lemma_char_count_nonneg(cells[0].compounds);
        lemma_cells_char_count_nonneg(cells.drop_first());
    }
}

/// a parsed line.
///
/// `CodeFence` never appears in a finished text: the document assembler
/// consumes it to toggle fenced-code mode.
#[derive(Debug, PartialEq, Eq)]
pub enum Line<'a> {
    Normal(Composite<'a>),
    TableRow(TableRow<'a>),
    CodeFence,
}

impl<'a> View for Line<'a> {
    type V = LineModel;

    open spec fn view(&self) -> LineModel {
        match self {
            Line::Normal(composite) => LineModel::Normal(composite@),
            Line::TableRow(row) => LineModel::TableRow(row@),
            Line::CodeFence => LineModel::CodeFence,
        }
    }
}

impl<'a> Clone for Line<'a> {
    /// The copy has the same value as the original.
    fn clone(&self) -> (r: Self)
        ensures
            r@ == self@,
    {
        match self {
            Line::Normal(composite) => Line::Normal(composite.clone()),
            Line::TableRow(row) => Line::TableRow(row.clone()),
            Line::CodeFence => Line::CodeFence,
        }
    }
}

impl<'a> Line<'a> {
    /// parse one line of markdown (fence markers are not recognized here:
    /// the document assembler handles them)
    pub fn from(md: &'a str) -> (r: Line<'a>)
        ensures
            r@ == crate::line_parser::line_model(md@, crate::line_parser::start_state()).0,
    {
        let mut parser = crate::line_parser::LineParser::from(md);
        parser.line()
    }

    /// the number of characters of the line, all cells of a row included
    pub fn char_length(&self) -> (r: usize)
        requires
            self@.char_count() <= usize::MAX,
        ensures
            r == self@.char_count(),
    {
        match self {
            Line::Normal(composite) => composite.char_length(),
            Line::TableRow(row) => {
                let ghost cells = row@;
                let mut sum: usize = 0;
                let mut i: usize = 0;
                proof {
                    assert(cells.skip(0) =~= cells);
                }
                while i < row.cells.len()
                    invariant
                        cells_char_count(cells) <= usize::MAX,
                        cells == row@,
                        0 <= i <= row.cells.len(),
                        sum + cells_char_count(cells.skip(i as int)) == cells_char_count(cells),
                    decreases row.cells.len() - i,
                {
                    proof {
                        assert(cells.skip(i as int).drop_first() =~= cells.skip(i + 1));
                        lemma_cells_char_count_nonneg(cells.skip(i + 1));
                        lemma_char_count_nonneg(cells[i as int].compounds);
                    }
                    sum = sum + row.cells[i].char_length();
                    i += 1;
                }
                proof {
                    assert(cells.skip(i as int) =~= Seq::<CompositeModel>::empty());
                }
                sum
            },
            Line::CodeFence => 0,
        }
    }

    pub fn new_paragraph(compounds: Vec<Compound<'a>>) -> (r: Line<'a>)
        ensures
            r@ == LineModel::Normal(CompositeModel {
                style: CompositeStyle::Paragraph,
                compounds: compounds@.map_values(|c: Compound<'a>| c@),
            }),
    {
        Line::Normal(Composite { style: CompositeStyle::Paragraph, compounds })
    }

    pub fn new_code(compound: Compound<'a>) -> (r: Line<'a>)
        ensures
            r@ == LineModel::Normal(CompositeModel {
                style: CompositeStyle::Code,
                compounds: seq![compound@],
            }),
    {
        let mut compounds: Vec<Compound<'a>> = Vec::new();
        compounds.push(compound);
        proof {
            assert(compounds@.map_values(|c: Compound<'a>| c@) =~= seq![compound@]);
        }
        Line::Normal(Composite { style: CompositeStyle::Code, compounds })
    }

    pub fn new_list_item(compounds: Vec<Compound<'a>>) -> (r: Line<'a>)
        ensures
            r@ == LineModel::Normal(CompositeModel {
                style: CompositeStyle::ListItem,
                compounds: compounds@.map_values(|c: Compound<'a>| c@),
            }),
    {
        Line::Normal(Composite { style: CompositeStyle::ListItem, compounds })
    }

    pub fn new_header(level: u8, compounds: Vec<Compound<'a>>) -> (r: Line<'a>)
        ensures
            r@ == LineModel::Normal(CompositeModel {
                style: CompositeStyle::Header(level),
                compounds: compounds@.map_values(|c: Compound<'a>| c@),
            }),
    {
        Line::Normal(Composite { style: CompositeStyle::Header(level), compounds })
    }

    pub fn new_table_row(composites: Vec<Composite<'a>>) -> (r: Line<'a>)
        ensures
            r@ == LineModel::TableRow(composites@.map_values(|c: Composite<'a>| c@)),
    {
        Line::TableRow(TableRow { cells: composites })
    }

    pub fn is_table_row(&self) -> (r: bool)
        ensures
            r == (self@ is TableRow),
    {
        match self {
            Line::TableRow(_) => true,
            _ => false,
        }
    }

    /// whether the line is a code line: a normal line whose composite has
    /// the `Code` structural style
    pub fn is_code(&self) -> (r: bool)
        ensures
            r == (self@ matches LineModel::Normal(c) && c.style == CompositeStyle::Code),
    {
        match self {
            Line::Normal(composite) => composite.is_code(),
            _ => false,
        }
    }
}

} // verus!
