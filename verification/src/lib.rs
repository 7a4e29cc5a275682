//! A small line-oriented markdown parser with a template engine.
//!
//! Raw text is parsed into a [`Text`]: a sequence of [`Line`]s, each line
//! holding styled spans ([`Compound`]) grouped into [`Composite`]s, or the
//! cells of a table row. A [`TextTemplate`] is a parsed text whose `${name}`
//! placeholders and repeatable sub-regions were extracted, and which can be
//! expanded many times with different bindings.

pub mod clean;
mod composite;
mod compound;
mod line;
mod line_parser;
mod options;
mod owning_template_expander;
mod tbl;
mod text;
mod text_parser;
mod text_template;

pub use composite::{Composite, CompositeStyle};
pub use compound::{Alignment, Compound};
pub use line::{CellFormat, Line, MAX_HEADER_DEPTH};
pub use line_parser::{header_level, LineParser, ScanState};
pub use options::Options;
pub use owning_template_expander::{OwningSubTemplateExpander, OwningTemplateExpander};
pub use tbl::TableRow;
pub use text::Text;
pub use text_parser::{parse, parse_lines};
pub use text_template::{SubTemplateExpander, TextTemplate, TextTemplateExpander};

use vstd::prelude::*;

verus! {

/// parse a markdown text
pub fn parse_text<'s>(md: &'s str, options: Options) -> (r: Text<'s>)
    ensures
        r@ == text_parser::parse_model(md@, options),
{
    text_parser::parse(md, options)
}

/// parse a line, which is meant to be part of a markdown text.
/// This function shouldn't usually be used: if you don't want
/// a text you probably need `parse_inline`
pub fn parse_line<'s>(md: &'s str) -> (r: Line<'s>)
    ensures
        r@ == line_parser::line_model(md@, line_parser::start_state()).0,
{
    Line::from(md)
}

/// parse a monoline markdown snippet which isn't from a text.
/// Doesn't produce some types of line: TableRow, Code, ListItem,
/// as they only make sense in a multi-line text
pub fn parse_inline<'s>(md: &'s str) -> (r: Composite<'s>)
    ensures
        r@ == line_parser::inline_model(md@),
{
    Composite::from_inline(md)
}

} // verus!
