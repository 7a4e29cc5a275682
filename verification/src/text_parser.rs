use vstd::prelude::*;

use crate::clean;
use crate::clean::{split_lines_model, str_views};
use crate::line::{Line, LineModel};
use crate::line_parser::{code_line_model, is_fence, line_model, start_state, LineParser,
    ScanState};
use crate::options::Options;
use crate::text::{line_views, Text};

verus! {

/// The style state carried into the next line: each style left
/// unterminated at the end of a line survives only when its continuation
/// option is enabled.
pub open spec fn continued_state(st: ScanState, options: Options) -> ScanState {
    ScanState {
        bold: options.continue_bold && st.bold,
        italic: options.continue_italic && st.italic,
        code: options.continue_inline_code && st.code,
        strikeout: options.continue_strikeout && st.strikeout,
    }
}

/// The document assembler: every fence-marker line toggles fenced-code
/// mode and is left out of the text; while the mode is active every line
/// is verbatim code and continuation is reset; otherwise each line is
/// classified and parsed, seeded with the continued style state of the
/// line before.
pub open spec fn assemble(
    lines: Seq<Seq<char>>,
    i: int,
    between_fences: bool,
    st: ScanState,
    options: Options,
    acc: Seq<LineModel>,
) -> Seq<LineModel>
    decreases lines.len() - i,
{
    if i >= lines.len() {
        acc
    } else {
        let src = lines[i];
        if between_fences {
            if is_fence(src) {
                assemble(lines, i + 1, false, start_state(), options, acc)
            } else {
                assemble(
                    lines,
                    i + 1,
                    true,
                    start_state(),
                    options,
                    acc.push(code_line_model(src, 0)),
                )
            }
        } else if is_fence(src) {
            assemble(lines, i + 1, true, st, options, acc)
        } else {
            let lm = line_model(src, st);
            assemble(
                lines,
                i + 1,
                false,
                continued_state(lm.1, options),
                options,
                acc.push(lm.0),
            )
        }
    }
}

/// What assembling a sequence of raw lines produces.
pub open spec fn parse_lines_model(lines: Seq<Seq<char>>, options: Options) -> Seq<LineModel> {
    assemble(lines, 0, false, start_state(), options, Seq::empty())
}

/// What parsing a whole text produces: its lines (normalized first when
/// `clean_indentations` is on) assembled into a document.
pub open spec fn parse_model(md: Seq<char>, options: Options) -> Seq<LineModel> {
    if options.clean_indentations {
        parse_lines_model(clean::clean_model(md), options)
    } else {
        parse_lines_model(split_lines_model(md), options)
    }
}

/// Parse a markdown string into a text
pub fn parse<'s>(md: &'s str, options: Options) -> (r: Text<'s>)
    ensures
        r@ == parse_model(md@, options),
{
    if options.clean_indentations {
        parse_lines(clean::lines(md), options)
    } else {
        parse_lines(clean::split_lines(md), options)
    }
}

/// Parse raw lines into a text
pub fn parse_lines<'s>(md_lines: Vec<&'s str>, options: Options) -> (r: Text<'s>)
    ensures
        r@ == parse_lines_model(str_views(md_lines@), options),
{
    let ghost lsv = str_views(md_lines@);
    let mut lines: Vec<Line<'s>> = Vec::new();
    let mut between_fences = false;
    let mut cont = ScanState::initial();
    let mut i: usize = 0;
    proof {
        assert(line_views(lines@) =~= Seq::<LineModel>::empty());
    }
    while i < md_lines.len()
        invariant
            0 <= i <= md_lines.len(),
            lsv == str_views(md_lines@),
            continued_state(cont, options) == cont,
            parse_lines_model(lsv, options) == assemble(
                lsv,
                i as int,
                between_fences,
                cont,
                options,
                line_views(lines@),
            ),
        decreases md_lines.len() - i,
    {
        let md_line = md_lines[i];
        proof {
            assert(md_line@ == lsv[i as int]);
        }
        let ghost lines_before = line_views(lines@);
        if between_fences {
            cont = ScanState::initial();
            let line_parser = LineParser::from(md_line);
            let line = line_parser.as_code();
            match line {
                Line::CodeFence => {
                    between_fences = false;
                },
                _ => {
                    lines.push(line);
                    proof {
                        assert(line_views(lines@) =~= lines_before.push(
                            code_line_model(md_line@, 0),
                        ));
                    }
                },
            }
        } else {
            let ghost st0 = cont;
            let mut line_parser = LineParser::from_state(md_line, cont);
            let line = line_parser.parse_line();
            let st = line_parser.state();
            cont = ScanState {
                bold: options.continue_bold && st.bold,
                italic: options.continue_italic && st.italic,
                code: options.continue_inline_code && st.code,
                strikeout: options.continue_strikeout && st.strikeout,
            };
            match line {
                Line::CodeFence => {
                    between_fences = true;
                },
                _ => {
                    lines.push(line);
                    proof {
                        assert(line_views(lines@) =~= lines_before.push(
                            line_model(md_line@, st0).0,
                        ));
                    }
                },
            }
        }
        i += 1;
    }
    Text { lines }
}

} // verus!
