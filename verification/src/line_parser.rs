use vstd::prelude::*;
use vstd::string::StrSliceExecFns;

use crate::composite::{trim_left_compounds, trim_right_compounds, Composite, CompositeModel,
    CompositeStyle};
use crate::compound::{compound_views, Compound, CompoundModel};
use crate::line::{Line, LineModel, MAX_HEADER_DEPTH};
use crate::tbl::TableRow;

verus! {

/// The four inline style flags of the scanner, which are also the state
/// carried from one line to the next when continuation is enabled.
#[derive(Debug, PartialEq, Eq, Clone, Copy, Structural)]
pub struct ScanState {
    pub bold: bool,
    pub italic: bool,
    pub code: bool,
    pub strikeout: bool,
}

/// The state every scan starts from when no continuation is active.
pub open spec fn start_state() -> ScanState {
    ScanState { bold: false, italic: false, code: false, strikeout: false }
}

impl ScanState {
    pub fn initial() -> (r: ScanState)
        ensures
            r == start_state(),
    {
        ScanState { bold: false, italic: false, code: false, strikeout: false }
    }
}

/// What one scan of (part of) a line produces: the compounds, the style
/// state at the point where the scan stopped, and that point itself, which
/// is the position of the stopping `|` when one was hit, and otherwise at
/// or one before the end of the line.
pub struct ScanResult {
    pub compounds: Seq<CompoundModel>,
    pub state: ScanState,
    pub end_idx: int,
    pub stopped_on_pipe: bool,
}

/// Closing the compound open since `cs`: emit `[cs, end)` with the current
/// flags unless it is empty.
pub open spec fn close_model(
    src: Seq<char>,
    cs: int,
    end: int,
    st: ScanState,
    acc: Seq<CompoundModel>,
) -> Seq<CompoundModel> {
    if end > cs {
        acc.push(
            CompoundModel {
                content: src.subrange(cs, end),
                bold: st.bold,
                italic: st.italic,
                code: st.code,
                strikeout: st.strikeout,
            },
        )
    } else {
        acc
    }
}

/// The inline style state machine, scanning `src` from position `i`, the
/// compound under construction open since `cs`.
///
/// Within inline code only a backtick matters; a first `*` is held back
/// (`after_star`) until the next character tells whether the pair toggles
/// bold or the single star toggles italic; a backtick opens code; with
/// `stop_on_pipe`, an unheld `|` ends the scan (a table cell). A toggle
/// closes the open compound at the delimiter and opens a new one after it.
/// A lone `*` at the very end of the line is dropped.
pub open spec fn scan(
    src: Seq<char>,
    i: int,
    cs: int,
    st: ScanState,
    after_star: bool,
    stop_on_pipe: bool,
    acc: Seq<CompoundModel>,
) -> ScanResult
    decreases src.len() - i,
{
    if i >= src.len() {
        let e = if after_star {
            src.len() - 1
        } else {
            src.len() as int
        };
        ScanResult {
            compounds: close_model(src, cs, e, st, acc),
            state: st,
            end_idx: e,
            stopped_on_pipe: false,
        }
    } else {
        let c = src[i];
        if st.code {
            if c == '`' {
                scan(
                    src,
                    i + 1,
                    i + 1,
                    ScanState { code: false, ..st },
                    false,
                    stop_on_pipe,
                    close_model(src, cs, i, st, acc),
                )
            } else {
                scan(src, i + 1, cs, st, false, stop_on_pipe, acc)
            }
        } else if after_star {
            if c == '*' {
                scan(
                    src,
                    i + 1,
                    i + 1,
                    ScanState { bold: !st.bold, ..st },
                    false,
                    stop_on_pipe,
                    close_model(src, cs, i - 1, st, acc),
                )
            } else if stop_on_pipe && c == '|' {
                ScanResult {
                    compounds: close_model(src, cs, i - 1, st, acc),
                    state: st,
                    end_idx: i,
                    stopped_on_pipe: true,
                }
            } else {
                scan(
                    src,
                    i + 1,
                    i,
                    ScanState { italic: !st.italic, ..st },
                    false,
                    stop_on_pipe,
                    close_model(src, cs, i - 1, st, acc),
                )
            }
        } else {
            if c == '*' {
                scan(src, i + 1, cs, st, true, stop_on_pipe, acc)
            } else if stop_on_pipe && c == '|' {
                ScanResult {
                    compounds: close_model(src, cs, i, st, acc),
                    state: st,
                    end_idx: i,
                    stopped_on_pipe: true,
                }
            } else if c == '`' {
                scan(
                    src,
                    i + 1,
                    i + 1,
                    ScanState { code: true, ..st },
                    false,
                    stop_on_pipe,
                    close_model(src, cs, i, st, acc),
                )
            } else {
                scan(src, i + 1, cs, st, false, stop_on_pipe, acc)
            }
        }
    }
}

/// Where a scan stops: never before `i` (one earlier when a star is
/// already held), never past the end of the line.
pub proof fn lemma_scan_end_bounds(
    src: Seq<char>,
    i: int,
    cs: int,
    st: ScanState,
    after_star: bool,
    stop_on_pipe: bool,
    acc: Seq<CompoundModel>,
)
    requires
        0 <= i <= src.len(),
    ensures
        scan(src, i, cs, st, after_star, stop_on_pipe, acc).end_idx >= if after_star {
            i - 1
        } else {
            i
        },
        scan(src, i, cs, st, after_star, stop_on_pipe, acc).end_idx <= src.len(),
    decreases src.len() - i,
{
    if i < src.len() {
        let c = src[i];
        if st.code {
            if c == '`' {
                lemma_scan_end_bounds(
                    src,
                    i + 1,
                    i + 1,
                    ScanState { code: false, ..st },
                    false,
                    stop_on_pipe,
                    close_model(src, cs, i, st, acc),
                );
            } else {
                lemma_scan_end_bounds(src, i + 1, cs, st, false, stop_on_pipe, acc);
            }
        } else if after_star {
            if c == '*' {
                lemma_scan_end_bounds(
                    src,
                    i + 1,
                    i + 1,
                    ScanState { bold: !st.bold, ..st },
                    false,
                    stop_on_pipe,
                    close_model(src, cs, i - 1, st, acc),
                );
            } else if stop_on_pipe && c == '|' {
            } else {
                lemma_scan_end_bounds(
                    src,
                    i + 1,
                    i,
                    ScanState { italic: !st.italic, ..st },
                    false,
                    stop_on_pipe,
                    close_model(src, cs, i - 1, st, acc),
                );
            }
        } else {
            if c == '*' {
                lemma_scan_end_bounds(src, i + 1, cs, st, true, stop_on_pipe, acc);
            } else if stop_on_pipe && c == '|' {
            } else if c == '`' {
                lemma_scan_end_bounds(
                    src,
                    i + 1,
                    i + 1,
                    ScanState { code: true, ..st },
                    false,
                    stop_on_pipe,
                    close_model(src, cs, i, st, acc),
                );
            } else {
                lemma_scan_end_bounds(src, i + 1, cs, st, false, stop_on_pipe, acc);
            }
        }
    }
}

/// Closes the compound open since `cs` at `end`, pushing it when not
/// empty.
fn close_exec<'s>(
    src: &'s str,
    cs: usize,
    end: usize,
    st: ScanState,
    compounds: &mut Vec<Compound<'s>>,
)
    requires
        cs <= end <= src@.len(),
    ensures
        compound_views(final(compounds)@) == close_model(
            src@,
            cs as int,
            end as int,
            st,
            compound_views(old(compounds)@),
        ),
{
    if end > cs {
        let c = Compound::new(src, cs, end, st.bold, st.italic, st.code, st.strikeout);
        compounds.push(c);
        proof {
            assert(compound_views(compounds@) =~= close_model(
                src@,
                cs as int,
                end as int,
                st,
                compound_views(old(compounds)@),
            ));
        }
    }
}

/// The executable twin of [`scan`].
fn scan_exec<'s>(
    src: &'s str,
    i: usize,
    cs: usize,
    st: ScanState,
    after_star: bool,
    stop_on_pipe: bool,
    compounds: Vec<Compound<'s>>,
) -> (r: (Vec<Compound<'s>>, ScanState, usize))
    requires
        i <= src@.len(),
        cs <= i,
        after_star ==> i >= 1 && cs <= i - 1,
    ensures
        ({
            let sc = scan(
                src@,
                i as int,
                cs as int,
                st,
                after_star,
                stop_on_pipe,
                compound_views(compounds@),
            );
            &&& compound_views(r.0@) == sc.compounds
            &&& r.1 == sc.state
            &&& r.2 == sc.end_idx
        }),
    decreases src@.len() - i,
{
    let mut compounds = compounds;
    let n = src.unicode_len();
    if i >= n {
        let e = if after_star {
            n - 1
        } else {
            n
        };
        close_exec(src, cs, e, st, &mut compounds);
        (compounds, st, e)
    } else {
        let c = src.get_char(i);
        if st.code {
            if c == '`' {
                close_exec(src, cs, i, st, &mut compounds);
                scan_exec(
                    src,
                    i + 1,
                    i + 1,
                    ScanState { code: false, ..st },
                    false,
                    stop_on_pipe,
                    compounds,
                )
            } else {
                scan_exec(src, i + 1, cs, st, false, stop_on_pipe, compounds)
            }
        } else if after_star {
            if c == '*' {
                close_exec(src, cs, i - 1, st, &mut compounds);
                scan_exec(
                    src,
                    i + 1,
                    i + 1,
                    ScanState { bold: !st.bold, ..st },
                    false,
                    stop_on_pipe,
                    compounds,
                )
            } else if stop_on_pipe && c == '|' {
                close_exec(src, cs, i - 1, st, &mut compounds);
                (compounds, st, i)
            } else {
                close_exec(src, cs, i - 1, st, &mut compounds);
                scan_exec(
                    src,
                    i + 1,
                    i,
                    ScanState { italic: !st.italic, ..st },
                    false,
                    stop_on_pipe,
                    compounds,
                )
            }
        } else {
            if c == '*' {
                scan_exec(src, i + 1, cs, st, true, stop_on_pipe, compounds)
            } else if stop_on_pipe && c == '|' {
                close_exec(src, cs, i, st, &mut compounds);
                (compounds, st, i)
            } else if c == '`' {
                close_exec(src, cs, i, st, &mut compounds);
                scan_exec(
                    src,
                    i + 1,
                    i + 1,
                    ScanState { code: true, ..st },
                    false,
                    stop_on_pipe,
                    compounds,
                )
            } else {
                scan_exec(src, i + 1, cs, st, false, stop_on_pipe, compounds)
            }
        }
    }
}

/// The index of the first space of `src` between `i` and `bound`, when
/// only `#` characters stand before it; 0 when anything else comes first
/// or no space is found.
pub open spec fn hashes_then_space(src: Seq<char>, i: int, bound: int) -> int
    decreases bound - i,
{
    if i >= bound {
        0
    } else if src[i] == ' ' {
        i
    } else if src[i] == '#' {
        hashes_then_space(src, i + 1, bound)
    } else {
        0
    }
}

/// The header depth of a line: the number of leading `#` characters when
/// they are 1 to 8 and followed by a space and at least one more
/// character; otherwise 0.
pub open spec fn header_level_of(src: Seq<char>) -> int {
    if src.len() > 2 {
        let bound = if src.len() - 1 <= MAX_HEADER_DEPTH + 1 {
            src.len() - 1
        } else {
            MAX_HEADER_DEPTH + 1
        };
        hashes_then_space(src, 0, bound)
    } else {
        0
    }
}

pub proof fn lemma_hashes_then_space_bounds(src: Seq<char>, i: int, bound: int)
    requires
        0 <= i,
    ensures
        hashes_then_space(src, i, bound) == 0 || (i <= hashes_then_space(src, i, bound) < bound
            && src[hashes_then_space(src, i, bound)] == ' '),
    decreases bound - i,
{
    if i < bound && src[i] != ' ' && src[i] == '#' {
        lemma_hashes_then_space_bounds(src, i + 1, bound);
    }
}

/// count the number of `#` at the start of the line. Return 0 if they're
/// not followed by a space and one more character, or if they're too many
pub fn header_level(src: &str) -> (r: usize)
    ensures
        r == header_level_of(src@),
        0 <= r <= MAX_HEADER_DEPTH,
        r > 0 ==> r < src@.len() && src@[r as int] == ' ',
{
    proof {
        lemma_hashes_then_space_bounds(
            src@,
            0,
            if src@.len() - 1 <= MAX_HEADER_DEPTH + 1 {
                src@.len() - 1
            } else {
                MAX_HEADER_DEPTH as int + 1
            },
        );
    }
    let n = src.unicode_len();
    if n <= 2 {
        return 0;
    }
    let bound = if n - 1 <= MAX_HEADER_DEPTH + 1 {
        n - 1
    } else {
        MAX_HEADER_DEPTH + 1
    };
    let mut i: usize = 0;
    while i < bound
        invariant
            0 <= i <= bound,
            bound < src@.len(),
            src@.len() > 2,
            bound as int == (if src@.len() - 1 <= MAX_HEADER_DEPTH + 1 {
                src@.len() - 1
            } else {
                MAX_HEADER_DEPTH as int + 1
            }),
            hashes_then_space(src@, 0, bound as int) == hashes_then_space(
                src@,
                i as int,
                bound as int,
            ),
            forall|j: int| 0 <= j < i ==> src@[j] == '#',
        decreases bound - i,
    {
        let c = src.get_char(i);
        if c == ' ' {
            proof {
                assert(hashes_then_space(src@, i as int, bound as int) == i);
            }
            return i;
        } else if c != '#' {
            proof {
                assert(hashes_then_space(src@, i as int, bound as int) == 0);
            }
            return 0;
        }
        proof {
            assert(hashes_then_space(src@, i as int, bound as int) == hashes_then_space(
                src@,
                i + 1,
                bound as int,
            ));
        }
        i += 1;
    }
    proof {
        assert(hashes_then_space(src@, bound as int, bound as int) == 0);
    }
    0
}

/// The structural style a table cell starting at `p` gets: a cell whose
/// text starts with `* ` is a list item.
pub open spec fn cell_style(src: Seq<char>, p: int) -> CompositeStyle {
    if p + 2 <= src.len() && src[p] == '*' && src[p + 1] == ' ' {
        CompositeStyle::ListItem
    } else {
        CompositeStyle::Paragraph
    }
}

/// What splitting a table-row line into cells produces: the cells in
/// order, and the style state of the last scan.
pub struct CellsResult {
    pub cells: Seq<CompositeModel>,
    pub state: ScanState,
}

/// Splitting a table-row line on `|`, from position `idx` (a delimiter
/// position). Each cell is scanned from all-false state and trimmed. A
/// `|` that ends the line is a terminating delimiter: it produces no
/// further cell — unless no cell was produced yet, so that a row always
/// keeps at least one cell.
pub open spec fn scan_cells(
    src: Seq<char>,
    idx: int,
    acc: Seq<CompositeModel>,
    st: ScanState,
) -> CellsResult
    decreases src.len() - idx,
    when 0 <= idx
    via scan_cells_dec
{
    if idx >= src.len() {
        CellsResult { cells: acc, state: st }
    } else {
        let start = idx + 1;
        if start >= src.len() && acc.len() > 0 {
            CellsResult { cells: acc, state: start_state() }
        } else {
            let r = scan(src, start, start, start_state(), false, true, Seq::empty());
            let cell = CompositeModel {
                style: cell_style(src, start),
                compounds: trim_right_compounds(trim_left_compounds(r.compounds)),
            };
            scan_cells(src, r.end_idx, acc.push(cell), r.state)
        }
    }
}

#[via_fn]
proof fn scan_cells_dec(src: Seq<char>, idx: int, acc: Seq<CompositeModel>, st: ScanState) {
    if 0 <= idx < src.len() {
        lemma_scan_end_bounds(src, idx + 1, idx + 1, start_state(), false, true, Seq::empty());
    }
}

/// Whether the line is a fence marker: it starts with three identical
/// fence characters.
pub open spec fn is_fence(src: Seq<char>) -> bool {
    src.len() >= 3 && (src[0] == '`' || src[0] == '~') && src[1] == src[0] && src[2] == src[0]
}

/// The ghost value of a [`LineParser`]: the line it scans, how far it has
/// consumed it, and its current style state.
pub struct LineParserModel {
    pub src: Seq<char>,
    pub idx: int,
    pub state: ScanState,
}

/// How a line is classified and parsed, given the initial style state:
/// a leading `|` makes a table row; four spaces or a tab a verbatim code
/// line; `* ` a list item; 1 to 8 `#` plus a space a header; anything
/// else a paragraph. Returns the parsed line and the terminal style state.
pub open spec fn line_model(src: Seq<char>, st: ScanState) -> (LineModel, ScanState) {
    if src.len() >= 1 && src[0] == '|' {
        let r = scan_cells(src, 0, Seq::empty(), st);
        (LineModel::TableRow(r.cells), r.state)
    } else if src.len() >= 4 && src[0] == ' ' && src[1] == ' ' && src[2] == ' ' && src[3] == ' ' {
        (code_line_model(src, 4), st)
    } else if src.len() >= 1 && src[0] == '\t' {
        (code_line_model(src, 1), st)
    } else if src.len() >= 2 && src[0] == '*' && src[1] == ' ' {
        let r = scan(src, 2, 2, st, false, false, Seq::empty());
        (
            LineModel::Normal(
                CompositeModel { style: CompositeStyle::ListItem, compounds: r.compounds },
            ),
            r.state,
        )
    } else if header_level_of(src) > 0 {
        let level = header_level_of(src);
        let r = scan(src, level + 1, level + 1, st, false, false, Seq::empty());
        (
            LineModel::Normal(
                CompositeModel {
                    style: CompositeStyle::Header(level as u8),
                    compounds: r.compounds,
                },
            ),
            r.state,
        )
    } else {
        let r = scan(src, 0, 0, st, false, false, Seq::empty());
        (
            LineModel::Normal(
                CompositeModel { style: CompositeStyle::Paragraph, compounds: r.compounds },
            ),
            r.state,
        )
    }
}

/// A verbatim code line: everything from `from` on, as one compound with
/// only the `code` flag set.
pub open spec fn code_line_model(src: Seq<char>, from: int) -> LineModel {
    LineModel::Normal(
        CompositeModel {
            style: CompositeStyle::Code,
            compounds: seq![
                CompoundModel {
                    content: src.skip(from),
                    bold: false,
                    italic: false,
                    code: true,
                    strikeout: false,
                },
            ],
        },
    )
}

/// A scan over characters that trigger nothing consumes them into the
/// open compound, whatever came before it.
proof fn lemma_scan_plain(src: Seq<char>, i: int, cs: int, st: ScanState, acc: Seq<CompoundModel>)
    requires
        0 <= cs <= i <= src.len(),
        !st.code,
        forall|j: int| i <= j < src.len() ==> src[j] != '*' && src[j] != '`',
    ensures
        scan(src, i, cs, st, false, false, acc) == (ScanResult {
            compounds: close_model(src, cs, src.len() as int, st, acc),
            state: st,
            end_idx: src.len() as int,
            stopped_on_pipe: false,
        }),
    decreases src.len() - i,
{
    if i < src.len() {
        lemma_scan_plain(src, i + 1, cs, st, acc);
    }
}

/// For all snippets without markdown metacharacters, inline parsing
/// yields exactly one compound spanning the whole snippet, with every
/// style flag false.
pub proof fn lemma_plain_inline(s: Seq<char>)
    requires
        s.len() > 0,
        forall|j: int| 0 <= j < s.len() ==> s[j] != '*' && s[j] != '`',
    ensures
        inline_model(s) == (CompositeModel {
            style: CompositeStyle::Paragraph,
            compounds: seq![CompoundModel::unstyled(s)],
        }),
{
    lemma_scan_plain(s, 0, 0, start_state(), Seq::empty());
    assert(s.subrange(0, s.len() as int) =~= s);
    assert(inline_model(s).compounds =~= seq![CompoundModel::unstyled(s)]);
}

/// What parsing a monoline markdown snippet produces: one paragraph
/// composite holding the scanned compounds.
pub open spec fn inline_model(src: Seq<char>) -> CompositeModel {
    CompositeModel {
        style: CompositeStyle::Paragraph,
        compounds: scan(src, 0, 0, start_state(), false, false, Seq::empty()).compounds,
    }
}

/// The structure parsing a line or part of a line.
/// A LineParser initialized from a markdown string exposes 2 main methods:
/// * `line` parses a line which is supposed to be part of a markdown text.
///   This method shouldn't really be used externally: a text can be parsed
///   in a whole with [`crate::parse_text`]
/// * `inline` parses a snippet which isn't supposed to be part of a
///   markdown text. Some types of lines aren't produced this way as they
///   don't make sense out of a text: ListItem, TableRow, Code.
///
/// Normally not used directly but through `Line::from(md)`
pub struct LineParser<'s> {
    src: &'s str,
    idx: usize,
    bold: bool,
    italic: bool,
    code: bool,
    strikeout: bool,
}

impl<'s> View for LineParser<'s> {
    type V = LineParserModel;

    closed spec fn view(&self) -> LineParserModel {
        LineParserModel {
            src: self.src@,
            idx: self.idx as int,
            state: ScanState {
                bold: self.bold,
                italic: self.italic,
                code: self.code,
                strikeout: self.strikeout,
            },
        }
    }
}

impl<'s> LineParser<'s> {
    pub fn from(src: &'s str) -> (r: LineParser<'s>)
        ensures
            r@ == (LineParserModel { src: src@, idx: 0, state: start_state() }),
    {
        LineParser { src, idx: 0, bold: false, italic: false, code: false, strikeout: false }
    }

    /// a parser whose scan starts in the given style state: how a line is
    /// parsed when continuation carries unterminated styles over from the
    /// line before
    pub fn from_state(src: &'s str, state: ScanState) -> (r: LineParser<'s>)
        ensures
            r@ == (LineParserModel { src: src@, idx: 0, state }),
    {
        LineParser {
            src,
            idx: 0,
            bold: state.bold,
            italic: state.italic,
            code: state.code,
            strikeout: state.strikeout,
        }
    }

    /// the style state the parser is in, which after `line` or `inline` is
    /// the terminal state that continuation seeds into the next line
    pub fn state(&self) -> (r: ScanState)
        ensures
            r == self@.state,
    {
        ScanState {
            bold: self.bold,
            italic: self.italic,
            code: self.code,
            strikeout: self.strikeout,
        }
    }

    fn set_state(&mut self, st: ScanState)
        ensures
            final(self)@ == (LineParserModel { state: st, ..old(self)@ }),
    {
        self.bold = st.bold;
        self.italic = st.italic;
        self.code = st.code;
        self.strikeout = st.strikeout;
    }

    /// everything from `idx` on, as one verbatim code compound
    fn code_compound_from_idx(&self, idx: usize) -> (r: Compound<'s>)
        requires
            idx <= self@.src.len(),
        ensures
            r@ == (CompoundModel {
                content: self@.src.skip(idx as int),
                bold: false,
                italic: false,
                code: true,
                strikeout: false,
            }),
    {
        let n = self.src.unicode_len();
        let r = Compound::new(self.src, idx, n, false, false, true, false);
        proof {
            assert(r@.content =~= self@.src.skip(idx as int));
        }
        r
    }

    /// run the inline state machine from the current position and state,
    /// consuming the line (or, with `stop_on_pipe`, one table cell)
    fn parse_compounds(&mut self, stop_on_pipe: bool) -> (r: Vec<Compound<'s>>)
        requires
            old(self)@.idx <= old(self)@.src.len(),
        ensures
            ({
                let sc = scan(
                    old(self)@.src,
                    old(self)@.idx,
                    old(self)@.idx,
                    old(self)@.state,
                    false,
                    stop_on_pipe,
                    Seq::empty(),
                );
                &&& compound_views(r@) == sc.compounds
                &&& final(self)@ == (LineParserModel {
                    idx: sc.end_idx as int,
                    state: sc.state,
                    ..old(self)@
                })
            }),
    {
        proof {
            assert(compound_views(Seq::<Compound<'s>>::empty()) =~= Seq::<
                CompoundModel,
            >::empty());
        }
        let (compounds, st, end_idx) = scan_exec(
            self.src,
            self.idx,
            self.idx,
            self.state(),
            false,
            stop_on_pipe,
            Vec::new(),
        );
        proof {
            lemma_scan_end_bounds(
                self@.src,
                self@.idx,
                self@.idx,
                self@.state,
                false,
                stop_on_pipe,
                Seq::empty(),
            );
        }
        self.idx = end_idx;
        self.set_state(st);
        compounds
    }

    /// split a table-row line into its cells; a `|` that ends the line is
    /// a terminating delimiter and produces no further cell, but a row
    /// always keeps at least one cell
    fn parse_cells(&mut self) -> (r: Vec<Composite<'s>>)
        requires
            old(self)@.idx == 0,
        ensures
            ({
                let cr = scan_cells(old(self)@.src, 0, Seq::empty(), old(self)@.state);
                &&& crate::composite::composite_views(r@) == cr.cells
                &&& final(self)@.state == cr.state
                &&& final(self)@.src == old(self)@.src
            }),
    {
        let ghost src = self@.src;
        let ghost st0 = self@.state;
        let mut cells: Vec<Composite<'s>> = Vec::new();
        let n = self.src.unicode_len();
        proof {
            assert(crate::composite::composite_views(cells@) =~= Seq::<CompositeModel>::empty());
        }
        while self.idx < n && (self.idx + 1 < n || cells.len() == 0)
            invariant
                self@.src == src,
                n == src.len(),
                0 <= self@.idx <= n,
                scan_cells(src, 0, Seq::empty(), st0) == scan_cells(
                    src,
                    self@.idx,
                    crate::composite::composite_views(cells@),
                    self@.state,
                ),
            decreases n - self@.idx,
        {
            let ghost cells_before = crate::composite::composite_views(cells@);
            let ghost idx0 = self@.idx;
            self.idx += 1;
            let style = if self.starts_with_list_prefix(self.idx) {
                CompositeStyle::ListItem
            } else {
                CompositeStyle::Paragraph
            };
            self.set_state(ScanState::initial());
            let compounds = self.parse_compounds(true);
            let mut composite = Composite { style, compounds };
            composite.trim_spaces();
            proof {
                lemma_scan_end_bounds(src, idx0 + 1, idx0 + 1, start_state(), false, true,
                    Seq::empty());
            }
            cells.push(composite);
            proof {
                assert(crate::composite::composite_views(cells@) =~= cells_before.push(
                    composite@,
                ));
            }
        }
        if self.idx < n {
            // the loop stopped on the terminating delimiter
            self.set_state(ScanState::initial());
        }
        cells
    }

    /// whether `* ` stands at position `p` of the line
    fn starts_with_list_prefix(&self, p: usize) -> (r: bool)
        requires
            p <= self@.src.len(),
        ensures
            r == (cell_style(self@.src, p as int) == CompositeStyle::ListItem),
    {
        let n = self.src.unicode_len();
        p < n && n - p >= 2 && self.src.get_char(p) == '*' && self.src.get_char(p + 1) == ' '
    }

    /// parse a monoline markdown snippet which isn't part of a text
    pub fn inline(&mut self) -> (r: Composite<'s>)
        requires
            old(self)@.idx == 0,
        ensures
            ({
                let sc = scan(
                    old(self)@.src,
                    0,
                    0,
                    old(self)@.state,
                    false,
                    false,
                    Seq::empty(),
                );
                &&& r@ == (CompositeModel {
                    style: CompositeStyle::Paragraph,
                    compounds: sc.compounds,
                })
                &&& final(self)@.state == sc.state
            }),
    {
        let compounds = self.parse_compounds(false);
        Composite { style: CompositeStyle::Paragraph, compounds }
    }

    /// parse a line which is meant to be part of a markdown text, without
    /// looking for fence markers (the document assembler does that)
    pub fn line(&mut self) -> (r: Line<'s>)
        requires
            old(self)@.idx == 0,
        ensures
            ({
                let (line, st) = line_model(old(self)@.src, old(self)@.state);
                r@ == line && final(self)@.state == st
            }),
    {
        let n = self.src.unicode_len();
        if n >= 1 && self.src.get_char(0) == '|' {
            let cells = self.parse_cells();
            return Line::TableRow(TableRow { cells });
        }
        if n >= 4 && self.src.get_char(0) == ' ' && self.src.get_char(1) == ' '
            && self.src.get_char(2) == ' ' && self.src.get_char(3) == ' ' {
            return Line::new_code(self.code_compound_from_idx(4));
        }
        if n >= 1 && self.src.get_char(0) == '\t' {
            return Line::new_code(self.code_compound_from_idx(1));
        }
        if self.starts_with_list_prefix(0) {
            self.idx = 2;
            return Line::new_list_item(self.parse_compounds(false));
        }
        let level = header_level(self.src);
        if level > 0 {
            self.idx = level + 1;
            return Line::new_header(level as u8, self.parse_compounds(false));
        }
        Line::new_paragraph(self.parse_compounds(false))
    }

    /// how a line is read while fenced-code mode is active: a fence marker
    /// line toggles the mode, anything else is verbatim code
    pub fn as_code(&self) -> (r: Line<'s>)
        ensures
            r@ == (if is_fence(self@.src) {
                LineModel::CodeFence
            } else {
                code_line_model(self@.src, 0)
            }),
    {
        if self.starts_with_fence() {
            Line::CodeFence
        } else {
            let r = Line::new_code(self.code_compound_from_idx(0));
            proof {
                assert(self@.src.skip(0) =~= self@.src);
            }
            r
        }
    }

    /// parse a line of a markdown text, a fence marker line giving
    /// `Line::CodeFence`
    pub fn parse_line(&mut self) -> (r: Line<'s>)
        requires
            old(self)@.idx == 0,
        ensures
            is_fence(old(self)@.src) ==> r@ == LineModel::CodeFence && final(self)@.state == old(
                self,
            )@.state,
            !is_fence(old(self)@.src) ==> ({
                let (line, st) = line_model(old(self)@.src, old(self)@.state);
                r@ == line && final(self)@.state == st
            }),
    {
        if self.starts_with_fence() {
            Line::CodeFence
        } else {
            self.line()
        }
    }

    fn starts_with_fence(&self) -> (r: bool)
        ensures
            r == is_fence(self@.src),
    {
        let n = self.src.unicode_len();
        if n < 3 {
            return false;
        }
        let c = self.src.get_char(0);
        (c == '`' || c == '~') && self.src.get_char(1) == c && self.src.get_char(2) == c
    }
}

/// The style state the scanner is in right after a compound.
pub open spec fn state_of(c: CompoundModel) -> ScanState {
    ScanState { bold: c.bold, italic: c.italic, code: c.code, strikeout: c.strikeout }
}

/// The delimiters that take the scanner from state `p` to the styling of
/// `c`: close inline code if it is open, toggle bold and italic as
/// needed, open code if `c` is code.
pub open spec fn delims(p: ScanState, c: CompoundModel) -> Seq<char> {
    (if p.code {
        seq!['`']
    } else {
        Seq::empty()
    }) + (if c.bold != p.bold {
        seq!['*', '*']
    } else {
        Seq::empty()
    }) + (if c.italic != p.italic {
        seq!['*']
    } else {
        Seq::empty()
    }) + (if c.code {
        seq!['`']
    } else {
        Seq::empty()
    })
}

/// The markdown text that re-renders the compounds from `k` on, the
/// scanner imagined in state `p`.
pub open spec fn render_from(cs: Seq<CompoundModel>, k: int, p: ScanState) -> Seq<char>
    decreases cs.len() - k,
{
    if k >= cs.len() {
        Seq::empty()
    } else {
        delims(p, cs[k]) + cs[k].content + render_from(cs, k + 1, state_of(cs[k]))
    }
}

/// The markdown text that re-renders a parsed sequence of compounds.
pub open spec fn render_compounds(cs: Seq<CompoundModel>) -> Seq<char> {
    render_from(cs, 0, start_state())
}

/// Whether compound `c` can follow scanner state `p` in a re-renderable
/// sequence: nonempty, not struck out (this dialect writes no strikeout
/// delimiter), no backtick in its content, no star either unless it is
/// code, and, when it is code, the italic flag unchanged (a backtick
/// straight after a single star stays literal).
pub open spec fn renderable_step(p: ScanState, c: CompoundModel) -> bool {
    &&& c.content.len() > 0
    &&& !c.strikeout
    &&& (forall|j: int| 0 <= j < c.content.len() ==> c.content[j] != '`')
    &&& (!c.code ==> forall|j: int| 0 <= j < c.content.len() ==> c.content[j] != '*')
    &&& (c.code ==> c.italic == p.italic)
}

/// Whether the compounds from `k` on can be re-rendered from state `p`:
/// each step is renderable, and no two consecutive compounds carry
/// identical styling unless they are code spans (which an empty pair of
/// backticks separates).
pub open spec fn renderable_from(cs: Seq<CompoundModel>, k: int, p: ScanState, first: bool) -> bool
    decreases cs.len() - k,
{
    k >= cs.len() || {
        &&& renderable_step(p, cs[k])
        &&& (first || state_of(cs[k]) != p || cs[k].code)
        &&& renderable_from(cs, k + 1, state_of(cs[k]), false)
    }
}

/// Whether a sequence of compounds can be re-rendered to markdown that
/// parses back to it.
pub open spec fn renderable(cs: Seq<CompoundModel>) -> bool {
    renderable_from(cs, 0, start_state(), true)
}

/// Characters that trigger nothing move the scanner forward and change
/// nothing else.
proof fn lemma_scan_inert(
    src: Seq<char>,
    i: int,
    j: int,
    cs0: int,
    st: ScanState,
    acc: Seq<CompoundModel>,
)
    requires
        0 <= i <= j <= src.len(),
        forall|t: int| i <= t < j ==> src[t] != '`' && (st.code || src[t] != '*'),
    ensures
        scan(src, i, cs0, st, false, false, acc) == scan(src, j, cs0, st, false, false, acc),
    decreases j - i,
{
    if i < j {
        lemma_scan_inert(src, i + 1, j, cs0, st, acc);
    }
}

/// The heart of the round trip: at the boundary before compound `k` (the
/// scanner at `b` in state `p`, its open compound reaching back to
/// `cstart`), scanning the rendered delimiters, the content, and the
/// rendered rest emits exactly the compound closed at `b` followed by the
/// compounds from `k` on.
#[verifier::rlimit(100)]
proof fn lemma_scan_boundary(
    src: Seq<char>,
    b: int,
    cstart: int,
    p: ScanState,
    cs: Seq<CompoundModel>,
    k: int,
    acc: Seq<CompoundModel>,
)
    requires
        0 <= cstart <= b <= src.len(),
        0 <= k < cs.len(),
        src.skip(b) == delims(p, cs[k]) + cs[k].content + render_from(
            cs,
            k + 1,
            state_of(cs[k]),
        ),
        renderable_step(p, cs[k]),
        state_of(cs[k]) == p && !cs[k].code ==> b == cstart,
        renderable_from(cs, k + 1, state_of(cs[k]), false),
        !p.strikeout,
    ensures
        scan(src, b, cstart, p, false, false, acc).compounds == close_model(
            src,
            cstart,
            b,
            p,
            acc,
        ) + cs.skip(k),
    decreases cs.len() - k,
{
    let c = cs[k];
    let st2 = state_of(c);
    let d = delims(p, c);
    let rest = render_from(cs, k + 1, st2);
    let pc = p.code;
    let bc = c.bold != p.bold;
    let ic = c.italic != p.italic;
    let cc = c.code;
    let o1: int = if pc { 1int } else { 0int };
    let o2: int = o1 + if bc { 2int } else { 0int };
    let o3: int = o2 + if ic { 1int } else { 0int };
    let dlen: int = o3 + if cc { 1int } else { 0int };
    assert(d.len() == dlen);
    assert(src.skip(b) == d + c.content + rest);
    assert(src.skip(b).len() == src.len() - b);
    assert(b + dlen + c.content.len() + rest.len() == src.len());
    // the characters of the boundary and of the content, read off the
    // rendered text
    assert forall|t: int| 0 <= t < d.len() implies src[b + t] == d[t] by {
        assert((d + c.content + rest)[t] == d[t]);
        assert(src.skip(b)[t] == src[b + t]);
    }
    assert forall|m: int| 0 <= m < c.content.len() implies src[b + dlen + m] == c.content[m] by {
        assert((d + c.content + rest)[dlen + m] == c.content[m]);
        assert(src.skip(b)[dlen + m] == src[b + dlen + m]);
    }
    if pc {
        assert(d[0] == '`');
    }
    if bc {
        assert(d[o1] == '*');
        assert(d[o1 + 1] == '*');
    }
    if ic {
        assert(d[o2] == '*');
    }
    if cc {
        assert(d[o3] == '`');
    }
    // consume the closing backtick, if inline code was open
    let q1 = b + o1;
    let cs1 = if pc { q1 } else { cstart };
    let p1 = ScanState { code: false, ..p };
    let acc1 = close_model(src, cstart, b, p, acc);
    if pc {
        assert(scan(src, b, cstart, p, false, false, acc) == scan(
            src,
            q1,
            q1,
            p1,
            false,
            false,
            acc1,
        ));
    } else {
        assert(p1 == p);
    }
    // consume the bold pair, if bold toggles
    let q2 = b + o2;
    let cs2 = if bc { q2 } else { cs1 };
    let p2 = ScanState { bold: c.bold, ..p1 };
    let acc2 = if bc { close_model(src, cs1, q1, p1, if pc { acc1 } else { acc }) } else {
        if pc { acc1 } else { acc }
    };
    if bc {
        assert(scan(src, q1, cs1, p1, false, false, if pc { acc1 } else { acc }) == scan(
            src,
            q1 + 1,
            cs1,
            p1,
            true,
            false,
            if pc { acc1 } else { acc },
        ));
        assert(scan(src, q1 + 1, cs1, p1, true, false, if pc { acc1 } else { acc }) == scan(
            src,
            q2,
            q2,
            p2,
            false,
            false,
            acc2,
        ));
    }
    // consume the single star, if italic toggles (the next character is
    // then the first content character, taken literally)
    let q3 = b + o3;
    let cs3 = if ic { q3 } else { cs2 };
    let p3 = ScanState { italic: c.italic, ..p2 };
    let acc3 = if ic { close_model(src, cs2, q2, p2, acc2) } else { acc2 };
    if ic {
        assert(!cc);
        assert(src[q2 + 1] == c.content[0]);
        assert(c.content[0] != '*');
        assert(scan(src, q2, cs2, p2, false, false, acc2) == scan(
            src,
            q2 + 1,
            cs2,
            p2,
            true,
            false,
            acc2,
        ));
        assert(scan(src, q2 + 1, cs2, p2, true, false, acc2) == scan(
            src,
            q2 + 2,
            q3,
            p3,
            false,
            false,
            acc3,
        ));
    }
    // consume the opening backtick, if the compound is code
    let q4 = b + dlen;
    let cs4 = if cc { q4 } else { cs3 };
    let p4 = ScanState { code: cc, ..p3 };
    let acc4 = if cc { close_model(src, cs3, q3, p3, acc3) } else { acc3 };
    if cc {
        assert(scan(src, q3, cs3, p3, false, false, acc3) == scan(
            src,
            q4,
            q4,
            p4,
            false,
            false,
            acc4,
        ));
    }
    // all the closes together closed exactly the compound open at the
    // boundary, and the state now carries the styling of compound k
    assert(p4 == st2);
    assert(acc4 == close_model(src, cstart, b, p, acc));
    let content_start = if ic { q3 } else { q4 };
    let resume = if ic { q4 + 1 } else { q4 };
    assert(cs4 == content_start);
    let bnext = q4 + c.content.len();
    assert forall|t: int| resume <= t < bnext implies src[t] != '`' && (st2.code || src[t]
        != '*') by {
        assert(src[t] == c.content[t - q4]);
    }
    assert(scan(src, b, cstart, p, false, false, acc) == scan(
        src,
        resume,
        content_start,
        st2,
        false,
        false,
        acc4,
    ));
    lemma_scan_inert(src, resume, bnext, content_start, st2, acc4);
    let pushed = close_model(src, content_start, bnext, st2, acc4);
    if k + 1 == cs.len() {
        assert(rest =~= Seq::<char>::empty());
        assert(bnext == src.len());
        assert(scan(src, bnext, content_start, st2, false, false, acc4) == (ScanResult {
            compounds: pushed,
            state: st2,
            end_idx: src.len() as int,
            stopped_on_pipe: false,
        }));
        assert(src.subrange(content_start, bnext) =~= c.content);
        assert(pushed =~= close_model(src, cstart, b, p, acc) + cs.skip(k));
    } else {
        assert forall|m: int| 0 <= m < rest.len() implies src.skip(bnext)[m] == rest[m] by {
            assert(src.skip(bnext)[m] == src[bnext + m]);
            assert(src.skip(b)[dlen + c.content.len() + m] == src[bnext + m]);
            assert((d + c.content + rest)[dlen + c.content.len() + m] == rest[m]);
        }
        assert(src.skip(bnext) =~= rest);
        assert(src.skip(bnext) == delims(st2, cs[k + 1]) + cs[k + 1].content + render_from(
            cs,
            k + 2,
            state_of(cs[k + 1]),
        ));
        lemma_scan_boundary(src, bnext, content_start, st2, cs, k + 1, acc4);
        assert(src.subrange(content_start, bnext) =~= c.content);
        assert(close_model(src, content_start, bnext, st2, acc4) =~= close_model(
            src,
            cstart,
            b,
            p,
            acc,
        ).push(c));
        assert(close_model(src, cstart, b, p, acc).push(c) + cs.skip(k + 1) =~= close_model(
            src,
            cstart,
            b,
            p,
            acc,
        ) + cs.skip(k));
    }
}

/// Round-trip idempotence at the inline level: re-rendering a parsed
/// sequence of compounds to markdown and parsing that again yields the
/// same compounds, content and flags alike, for every sequence that
/// parsing can produce out of supported constructs (nonempty spans, no
/// strikeout, no unconsumed delimiter characters, no two adjacent
/// non-code spans with identical styling, no code span entered through a
/// lone italic toggle).
pub proof fn lemma_render_round_trip(cs: Seq<CompoundModel>)
    requires
        renderable(cs),
    ensures
        inline_model(render_compounds(cs)) == (CompositeModel {
            style: CompositeStyle::Paragraph,
            compounds: cs,
        }),
{
    let src = render_compounds(cs);
    if cs.len() == 0 {
        assert(src =~= Seq::<char>::empty());
        assert(inline_model(src).compounds =~= cs);
    } else {
        assert(src.skip(0) =~= src);
        lemma_scan_boundary(src, 0, 0, start_state(), cs, 0, Seq::empty());
        assert(close_model(src, 0, 0, start_state(), Seq::empty()) + cs.skip(0) =~= cs);
        assert(inline_model(src).compounds == cs);
    }
}

/// Round-trip idempotence: re-rendering a parsed snippet to
/// markdown-equivalent raw text and re-parsing it yields a compound
/// sequence equal, content and flags alike, to the first parse — for
/// every input whose parse is re-renderable (see [`renderable`]; inputs
/// like `a****b` or ``a``b``, whose parses hold adjacent identically
/// styled non-code spans, fall outside).
pub proof fn lemma_parse_render_parse(s: Seq<char>)
    requires
        renderable(inline_model(s).compounds),
    ensures
        inline_model(render_compounds(inline_model(s).compounds)) == inline_model(s),
{
    lemma_render_round_trip(inline_model(s).compounds);
}

} // verus!
