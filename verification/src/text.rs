use vstd::prelude::*;

use crate::line::{Line, LineModel};
use crate::options::Options;
use crate::text_parser;

verus! {

/// The ghost values of a sequence of lines.
pub open spec fn line_views<'a>(s: Seq<Line<'a>>) -> Seq<LineModel> {
    s.map_values(|l: Line<'a>| l@)
}

/// a text, that is just a collection of lines
#[derive(Debug, PartialEq, Eq)]
pub struct Text<'a> {
    pub lines: Vec<Line<'a>>,
}

impl<'a> View for Text<'a> {
    type V = Seq<LineModel>;

    open spec fn view(&self) -> Seq<LineModel> {
        line_views(self.lines@)
    }
}

impl<'a> Clone for Text<'a> {
    /// The copy has the same value as the original.
    fn clone(&self) -> (r: Self)
        ensures
            r@ == self@,
    {
        let mut lines: Vec<Line<'a>> = Vec::new();
        let mut i: usize = 0;
        while i < self.lines.len()
            invariant
                0 <= i <= self.lines.len(),
                lines@.len() == i,
                forall|j: int| 0 <= j < i ==> #[trigger] lines@[j]@ == self.lines@[j]@,
            decreases self.lines.len() - i,
        {
            let l = self.lines[i].clone();
            proof {
                assert(l@ == self.lines@[i as int]@);
            }
            lines.push(l);
            i += 1;
        }
        let r = Text { lines };
        proof {
            assert(r@ =~= self@);
        }
        r
    }
}

impl<'a> Default for Text<'a> {
    fn default() -> (r: Self)
        ensures
            r@ == Seq::<LineModel>::empty(),
    {
        let r = Text { lines: Vec::new() };
        proof {
            assert(r@ =~= Seq::<LineModel>::empty());
        }
        r
    }
}

impl<'s> Text<'s> {
    /// Build a text from a multi-line string interpreted as markdown,
    /// with the default options.
    ///
    /// To build a text with parsing options, prefer [`crate::parse_text`]
    pub fn from(md: &'s str) -> (r: Text<'s>)
        ensures
            r@ == text_parser::parse_model(md@, Options::all_disabled()),
    {
        text_parser::parse(md, Options::default())
    }

    /// Parse a text from already split markdown lines, with the default
    /// options.
    pub fn from_md_lines(md_lines: Vec<&'s str>) -> (r: Text<'s>)
        ensures
            r@ == text_parser::parse_lines_model(
                crate::clean::str_views(md_lines@),
                Options::all_disabled(),
            ),
    {
        text_parser::parse_lines(md_lines, Options::default())
    }
}

} // verus!
