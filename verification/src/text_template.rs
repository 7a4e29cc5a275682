use vstd::prelude::*;
use vstd::string::StrSliceExecFns;

use crate::clean::{split_lines, split_lines_model};
use crate::composite::{Composite, CompositeModel, CompositeStyle};
use crate::compound::{compound_views, Compound, CompoundModel};
use crate::line::{Line, LineModel};
use crate::line_parser::{line_model, start_state, LineParser};
use crate::tbl::TableRow;
use crate::text::{line_views, Text};

verus! {

/// Whether `c` may appear in a placeholder name.
pub open spec fn is_name_char(c: char) -> bool {
    ('a' <= c && c <= 'z') || c == '_' || c == '-'
}

/// whether `c` may appear in a placeholder name: a lowercase ASCII letter,
/// `_` or `-`
pub fn is_valid_name_char(c: char) -> (r: bool)
    ensures
        r == is_name_char(c),
{
    ('a' <= c && c <= 'z') || c == '_' || c == '-'
}

/// Whether `s` is a well-formed placeholder name: nonempty, name
/// characters only.
pub open spec fn valid_name(s: Seq<char>) -> bool {
    s.len() > 0 && forall|j: int| 0 <= j < s.len() ==> is_name_char(s[j])
}

/// The ghost value of a placeholder location: the name, and where its
/// slot compound stands in the compiled text. `composite_idx` is 0 for
/// normal lines and the cell index for table rows.
pub struct CompoundArgModel {
    pub name: Seq<char>,
    pub line_idx: int,
    pub composite_idx: int,
    pub compound_idx: int,
}

/// The ghost value of a repeatable region: a contiguous slice of the
/// compiled text's lines.
pub struct SubTemplateModel {
    pub name: Seq<char>,
    pub start_line_idx: int,
    pub line_count: int,
}

/// The ghost value of a [`TextTemplate`].
pub struct TextTemplateModel {
    pub text: Seq<LineModel>,
    pub compound_args: Seq<CompoundArgModel>,
    pub sub_templates: Seq<SubTemplateModel>,
}

/// What a line of template source means for region extraction.
pub enum TokenModel {
    NoToken,
    Start(Seq<char>),
    End,
}

/// A line that is exactly `${name}` opens a region; a line that is
/// exactly `}` closes one; anything else is ordinary text.
pub open spec fn token_of(line: Seq<char>) -> TokenModel {
    if line.len() >= 4 && line[0] == '$' && line[1] == '{' && line[line.len() - 1] == '}'
        && valid_name(line.subrange(2, line.len() - 1)) {
        TokenModel::Start(line.subrange(2, line.len() - 1))
    } else if line.len() == 1 && line[0] == '}' {
        TokenModel::End
    } else {
        TokenModel::NoToken
    }
}

/// The position of the first character at or after `j` that cannot be part
/// of a placeholder name, or the length of `s`.
pub open spec fn name_scan(s: Seq<char>, j: int) -> int
    decreases s.len() - j,
{
    if j >= s.len() {
        s.len() as int
    } else if is_name_char(s[j]) {
        name_scan(s, j + 1)
    } else {
        j
    }
}

pub proof fn lemma_name_scan_bounds(s: Seq<char>, j: int)
    requires
        0 <= j <= s.len(),
    ensures
        j <= name_scan(s, j) <= s.len(),
        forall|k: int| j <= k < name_scan(s, j) ==> is_name_char(s[k]),
        name_scan(s, j) < s.len() ==> !is_name_char(s[name_scan(s, j)]),
    decreases s.len() - j,
{
    if j < s.len() && is_name_char(s[j]) {
        lemma_name_scan_bounds(s, j + 1);
    }
}

/// The rewritten compounds of one composite, and the placeholders found so
/// far.
pub struct FindState {
    pub pieces: Seq<CompoundModel>,
    pub args: Seq<CompoundArgModel>,
}

/// Rescanning one compound for `${name}` placeholders, from position
/// `pos`, the piece under construction open since `start`: each match
/// splits the compound into the leading text (kept when nonempty), a
/// zero-width slot recorded as a placeholder, and the trailing text,
/// which is scanned further. An empty name or an invalid character before
/// the closing brace disqualifies the match and the text stays literal.
pub open spec fn find_in_compound(
    cm: CompoundModel,
    li: int,
    ci: int,
    pos: int,
    start: int,
    st: FindState,
) -> FindState
    decreases cm.content.len() - pos,
    when 0 <= pos
    via find_in_compound_dec
{
    let s = cm.content;
    if pos >= s.len() {
        let tailpiece = CompoundModel { content: s.subrange(start, s.len() as int), ..cm };
        if tailpiece.content.len() > 0 {
            FindState { pieces: st.pieces.push(tailpiece), args: st.args }
        } else {
            st
        }
    } else if s[pos] == '$' {
        if pos + 1 >= s.len() {
            find_in_compound(cm, li, ci, s.len() as int, start, st)
        } else if s[pos + 1] == '{' {
            let q = name_scan(s, pos + 2);
            if q >= s.len() {
                find_in_compound(cm, li, ci, s.len() as int, start, st)
            } else if s[q] == '}' && q > pos + 2 {
                let pieces1 = if start < pos {
                    st.pieces.push(CompoundModel { content: s.subrange(start, pos), ..cm })
                } else {
                    st.pieces
                };
                let arg = CompoundArgModel {
                    name: s.subrange(pos + 2, q),
                    line_idx: li,
                    composite_idx: ci,
                    compound_idx: pieces1.len() as int,
                };
                let pieces2 = pieces1.push(CompoundModel { content: Seq::empty(), ..cm });
                find_in_compound(
                    cm,
                    li,
                    ci,
                    q + 1,
                    q + 1,
                    FindState { pieces: pieces2, args: st.args.push(arg) },
                )
            } else {
                find_in_compound(cm, li, ci, q + 1, start, st)
            }
        } else {
            find_in_compound(cm, li, ci, pos + 2, start, st)
        }
    } else {
        find_in_compound(cm, li, ci, pos + 1, start, st)
    }
}

#[via_fn]
proof fn find_in_compound_dec(
    cm: CompoundModel,
    li: int,
    ci: int,
    pos: int,
    start: int,
    st: FindState,
) {
    let s = cm.content;
    if 0 <= pos < s.len() && s[pos] == '$' && pos + 1 < s.len() && s[pos + 1] == '{' {
        lemma_name_scan_bounds(s, pos + 2);
    }
}

/// Rescanning every compound of a composite, from the `k`th on.
pub open spec fn find_in_compounds(
    compounds: Seq<CompoundModel>,
    li: int,
    ci: int,
    k: int,
    st: FindState,
) -> FindState
    decreases compounds.len() - k,
{
    if k >= compounds.len() {
        st
    } else {
        find_in_compounds(
            compounds,
            li,
            ci,
            k + 1,
            find_in_compound(compounds[k], li, ci, 0, 0, st),
        )
    }
}

/// What rescanning a whole composite for placeholders produces, the
/// placeholders appended to `args`.
pub open spec fn find_args_model(
    compounds: Seq<CompoundModel>,
    li: int,
    ci: int,
    args: Seq<CompoundArgModel>,
) -> FindState {
    find_in_compounds(compounds, li, ci, 0, FindState { pieces: Seq::empty(), args })
}

/// The cells of a table row, each rescanned for placeholders.
pub open spec fn compile_cells(
    cells: Seq<CompositeModel>,
    li: int,
    ci: int,
    args: Seq<CompoundArgModel>,
) -> (Seq<CompositeModel>, Seq<CompoundArgModel>)
    decreases cells.len() - ci,
{
    if ci >= cells.len() {
        (Seq::empty(), args)
    } else {
        let fs = find_args_model(cells[ci].compounds, li, ci, args);
        let rest = compile_cells(cells, li, ci + 1, fs.args);
        (
            seq![CompositeModel { style: cells[ci].style, compounds: fs.pieces }] + rest.0,
            rest.1,
        )
    }
}

/// One parsed line of template source, rescanned for placeholders.
pub open spec fn compile_line(lm: LineModel, li: int, args: Seq<CompoundArgModel>) -> (
    LineModel,
    Seq<CompoundArgModel>,
) {
    match lm {
        LineModel::Normal(c) => {
            let fs = find_args_model(c.compounds, li, 0, args);
            (LineModel::Normal(CompositeModel { style: c.style, compounds: fs.pieces }), fs.args)
        },
        LineModel::TableRow(cells) => {
            let r = compile_cells(cells, li, 0, args);
            (LineModel::TableRow(r.0), r.1)
        },
        LineModel::CodeFence => (lm, args),
    }
}

/// The state of the template compiler: the text built so far, the
/// placeholders and closed regions found, and the at-most-one region
/// currently open.
pub struct CompileState {
    pub text: Seq<LineModel>,
    pub args: Seq<CompoundArgModel>,
    pub subs: Seq<SubTemplateModel>,
    pub open_sub: Option<SubTemplateModel>,
}

/// An ordinary template line: parsed as markdown (no continuation, no
/// fences), then rescanned for placeholders, then appended to the text.
pub open spec fn compile_ordinary(line: Seq<char>, st: CompileState) -> CompileState {
    let lm = line_model(line, start_state()).0;
    let r = compile_line(lm, st.text.len() as int, st.args);
    CompileState { text: st.text.push(r.0), args: r.1, ..st }
}

/// The template compiler over raw lines: a `${name}` line opens a region
/// when none is open, a `}` line closes the open one, and neither is
/// emitted; every other line is ordinary. A region-opening or -closing
/// line that cannot act as one (a second opening, a stray `}`) is ordinary
/// text; a region left open at the end is dropped.
pub open spec fn compile_lines(lines: Seq<Seq<char>>, i: int, st: CompileState) -> CompileState
    decreases lines.len() - i,
{
    if i >= lines.len() {
        st
    } else {
        let st2 = match token_of(lines[i]) {
            TokenModel::Start(name) => {
                if st.open_sub is None {
                    CompileState {
                        open_sub: Some(
                            SubTemplateModel {
                                name,
                                start_line_idx: st.text.len() as int,
                                line_count: 0,
                            },
                        ),
                        ..st
                    }
                } else {
                    compile_ordinary(lines[i], st)
                }
            },
            TokenModel::End => {
                match st.open_sub {
                    Some(open) => CompileState {
                        subs: st.subs.push(
                            SubTemplateModel {
                                line_count: st.text.len() - open.start_line_idx,
                                ..open
                            },
                        ),
                        open_sub: None,
                        ..st
                    },
                    None => compile_ordinary(lines[i], st),
                }
            },
            TokenModel::NoToken => compile_ordinary(lines[i], st),
        };
        compile_lines(lines, i + 1, st2)
    }
}

/// What compiling template source produces.
pub open spec fn template_model(md: Seq<char>) -> TextTemplateModel {
    let st = compile_lines(
        split_lines_model(md),
        0,
        CompileState {
            text: Seq::empty(),
            args: Seq::empty(),
            subs: Seq::empty(),
            open_sub: None,
        },
    );
    TextTemplateModel { text: st.text, compound_args: st.args, sub_templates: st.subs }
}

/// A placeholder location in a compiled template.
#[derive(Debug, Clone, Copy)]
struct CompoundArg<'s> {
    name: &'s str,
    line_idx: usize,
    composite_idx: usize,
    compound_idx: usize,
}

impl<'s> View for CompoundArg<'s> {
    type V = CompoundArgModel;

    closed spec fn view(&self) -> CompoundArgModel {
        CompoundArgModel {
            name: self.name@,
            line_idx: self.line_idx as int,
            composite_idx: self.composite_idx as int,
            compound_idx: self.compound_idx as int,
        }
    }
}

/// The ghost values of a sequence of placeholder locations.
spec fn arg_views<'s>(s: Seq<CompoundArg<'s>>) -> Seq<CompoundArgModel> {
    s.map_values(|a: CompoundArg<'s>| a@)
}

/// A repeatable region of a compiled template.
#[derive(Debug, Clone, Copy)]
struct SubTemplate<'s> {
    start_line_idx: usize,
    line_count: usize,
    name: &'s str,
}

impl<'s> View for SubTemplate<'s> {
    type V = SubTemplateModel;

    closed spec fn view(&self) -> SubTemplateModel {
        SubTemplateModel {
            name: self.name@,
            start_line_idx: self.start_line_idx as int,
            line_count: self.line_count as int,
        }
    }
}

/// The ghost values of a sequence of regions.
spec fn sub_views<'s>(s: Seq<SubTemplate<'s>>) -> Seq<SubTemplateModel> {
    s.map_values(|t: SubTemplate<'s>| t@)
}

/// What a line of template source means for region extraction.
enum SubTemplateToken<'s> {
    NoToken,
    Start(&'s str),
    End,
}

/// reads whether the line opens a repeatable region (`${name}` alone on
/// the line), closes one (`}` alone on the line), or is ordinary text
fn read_sub_template_token<'s>(md_line: &'s str) -> (r: SubTemplateToken<'s>)
    ensures
        ({
            let t = token_of(md_line@);
            match r {
                SubTemplateToken::NoToken => t is NoToken,
                SubTemplateToken::Start(name) => t == TokenModel::Start(name@),
                SubTemplateToken::End => t is End,
            }
        }),
{
    let n = md_line.unicode_len();
    if n == 1 && md_line.get_char(0) == '}' {
        return SubTemplateToken::End;
    }
    if n >= 4 && md_line.get_char(0) == '$' && md_line.get_char(1) == '{' && md_line.get_char(
        n - 1,
    ) == '}' {
        let mut j: usize = 2;
        while j < n - 1
            invariant
                2 <= j <= n - 1,
                4 <= n == md_line@.len(),
                forall|k: int| 2 <= k < j ==> is_name_char(md_line@[k]),
            decreases n - j,
        {
            if !is_valid_name_char(md_line.get_char(j)) {
                proof {
                    assert(!is_name_char(md_line@.subrange(2, md_line@.len() - 1)[j - 2]));
                }
                return SubTemplateToken::NoToken;
            }
            j += 1;
        }
        let name = md_line.substring_char(2, n - 1);
        proof {
            assert(name@ =~= md_line@.subrange(2, md_line@.len() - 1));
            assert(forall|k: int| 0 <= k < name@.len() ==> is_name_char(#[trigger] name@[k]));
        }
        return SubTemplateToken::Start(name);
    }
    SubTemplateToken::NoToken
}

/// The position of the first character at or after `j` of `s` that cannot
/// be part of a placeholder name.
fn name_scan_exec(s: &str, j: usize) -> (r: usize)
    requires
        j <= s@.len(),
    ensures
        r == name_scan(s@, j as int),
        j <= r <= s@.len(),
{
    let n = s.unicode_len();
    let mut i = j;
    while i < n
        invariant
            j <= i <= n,
            n == s@.len(),
            name_scan(s@, j as int) == name_scan(s@, i as int),
        decreases n - i,
    {
        if !is_valid_name_char(s.get_char(i)) {
            return i;
        }
        i += 1;
    }
    i
}

/// The executable twin of [`find_in_compound`]: splits one compound at its
/// placeholders, pushing the pieces and the placeholder records.
fn scan_compound_args<'s>(
    cm: Compound<'s>,
    li: usize,
    ci: usize,
    pos: usize,
    start: usize,
    pieces: &mut Vec<Compound<'s>>,
    args: &mut Vec<CompoundArg<'s>>,
)
    requires
        start <= pos <= cm@.content.len(),
    ensures
        ({
            let fs = find_in_compound(
                cm@,
                li as int,
                ci as int,
                pos as int,
                start as int,
                FindState {
                    pieces: compound_views(old(pieces)@),
                    args: arg_views(old(args)@),
                },
            );
            &&& compound_views(final(pieces)@) == fs.pieces
            &&& arg_views(final(args)@) == fs.args
        }),
    decreases cm@.content.len() - pos,
{
    let n = cm.char_length();
    let s = cm.as_str();
    if pos >= n {
        let tailpiece = cm.sub(start, n);
        if !tailpiece.is_empty() {
            pieces.push(tailpiece);
            proof {
                assert(compound_views(pieces@) =~= compound_views(old(pieces)@).push(tailpiece@));
            }
        }
    } else if s.get_char(pos) == '$' {
        if pos + 1 >= n {
            scan_compound_args(cm, li, ci, n, start, pieces, args);
        } else if s.get_char(pos + 1) == '{' {
            let q = name_scan_exec(s, pos + 2);
            if q >= n {
                scan_compound_args(cm, li, ci, n, start, pieces, args);
            } else if s.get_char(q) == '}' && q > pos + 2 {
                if start < pos {
                    let leading = cm.sub(start, pos);
                    pieces.push(leading);
                    proof {
                        assert(compound_views(pieces@) =~= compound_views(old(pieces)@).push(
                            leading@,
                        ));
                    }
                }
                let ghost pieces1 = compound_views(pieces@);
                let name_part = cm.sub(pos + 2, q);
                let arg = CompoundArg {
                    name: name_part.as_str(),
                    line_idx: li,
                    composite_idx: ci,
                    compound_idx: pieces.len(),
                };
                args.push(arg);
                let slot = cm.sub(pos, pos);
                pieces.push(slot);
                proof {
                    assert(slot@.content =~= Seq::<char>::empty());
                    assert(compound_views(pieces@) =~= pieces1.push(
                        CompoundModel { content: Seq::empty(), ..cm@ },
                    ));
                    assert(arg_views(args@) =~= arg_views(old(args)@).push(arg@));
                }
                scan_compound_args(cm, li, ci, q + 1, q + 1, pieces, args);
            } else {
                scan_compound_args(cm, li, ci, q + 1, start, pieces, args);
            }
        } else {
            scan_compound_args(cm, li, ci, pos + 2, start, pieces, args);
        }
    } else {
        scan_compound_args(cm, li, ci, pos + 1, start, pieces, args);
    }
}

/// find the `${name}` placeholders in the composite, splitting its
/// compounds around the zero-width slots, and record them in `args`
fn find_args<'s>(
    composite: &mut Composite<'s>,
    args: &mut Vec<CompoundArg<'s>>,
    line_idx: usize,
    composite_idx: usize,
)
    ensures
        ({
            let fs = find_args_model(
                old(composite)@.compounds,
                line_idx as int,
                composite_idx as int,
                arg_views(old(args)@),
            );
            &&& final(composite)@.compounds == fs.pieces
            &&& final(composite)@.style == old(composite)@.style
            &&& arg_views(final(args)@) == fs.args
        }),
{
    let ghost compounds0 = composite@.compounds;
    let ghost args0 = arg_views(args@);
    let mut pieces: Vec<Compound<'s>> = Vec::new();
    let mut k: usize = 0;
    proof {
        assert(compound_views(pieces@) =~= Seq::<CompoundModel>::empty());
    }
    while k < composite.compounds.len()
        invariant
            0 <= k <= composite.compounds.len(),
            composite@.compounds == compounds0,
            find_in_compounds(
                compounds0,
                line_idx as int,
                composite_idx as int,
                k as int,
                FindState { pieces: compound_views(pieces@), args: arg_views(args@) },
            ) == find_in_compounds(
                compounds0,
                line_idx as int,
                composite_idx as int,
                0,
                FindState { pieces: Seq::empty(), args: args0 },
            ),
        decreases composite.compounds.len() - k,
    {
        let c = composite.compounds[k];
        proof {
            assert(c@ == compounds0[k as int]);
        }
        scan_compound_args(c, line_idx, composite_idx, 0, 0, &mut pieces, args);
        k += 1;
    }
    composite.compounds = pieces;
}

/// One recorded binding: a placeholder name and its replacement value.
pub struct ReplModel {
    pub name: Seq<char>,
    pub value: Seq<char>,
}

/// The bindings of one declared instance of a repeatable region.
pub struct SubExpModel {
    pub name: Seq<char>,
    pub raws: Seq<ReplModel>,
    pub mds: Seq<ReplModel>,
}

/// The ghost value of a [`TextTemplateExpander`]: the template, the
/// working copy of its text, and the recorded bindings.
pub struct ExpanderModel {
    pub template: TextTemplateModel,
    pub text: Seq<LineModel>,
    pub sub_exps: Seq<SubExpModel>,
    pub md_repls: Seq<ReplModel>,
    pub line_repls: Seq<ReplModel>,
    pub line_md_repls: Seq<ReplModel>,
}

/// The value of the first binding in the list carrying `name`, if any.
pub open spec fn first_match(repls: Seq<ReplModel>, j: int, name: Seq<char>) -> Option<Seq<char>>
    decreases repls.len() - j,
{
    if j >= repls.len() {
        None
    } else if repls[j].name == name {
        Some(repls[j].value)
    } else {
        first_match(repls, j + 1, name)
    }
}

/// The composite with the content of its `idx`th compound overwritten
/// (styling kept); a composite without such a compound is unchanged.
pub open spec fn set_compound(c: CompositeModel, idx: int, value: Seq<char>) -> CompositeModel {
    if 0 <= idx < c.compounds.len() {
        CompositeModel {
            style: c.style,
            compounds: c.compounds.update(
                idx,
                CompoundModel { content: value, ..c.compounds[idx] },
            ),
        }
    } else {
        c
    }
}

/// The composite with its `idx`th compound replaced by the given pieces;
/// with no pieces, or without such a compound, it is unchanged.
pub open spec fn replace_in_composite(
    c: CompositeModel,
    idx: int,
    pieces: Seq<CompoundModel>,
) -> CompositeModel {
    if pieces.len() == 0 {
        c
    } else if 0 <= idx < c.compounds.len() {
        CompositeModel {
            style: c.style,
            compounds: c.compounds.take(idx) + pieces + c.compounds.skip(idx + 1),
        }
    } else {
        c
    }
}

/// The line with the content of the slot at `a`'s coordinates overwritten.
pub open spec fn line_with_set(host: LineModel, a: CompoundArgModel, value: Seq<char>) -> LineModel {
    match host {
        LineModel::Normal(c) => LineModel::Normal(set_compound(c, a.compound_idx, value)),
        LineModel::TableRow(cells) => {
            if 0 <= a.composite_idx < cells.len() {
                LineModel::TableRow(
                    cells.update(
                        a.composite_idx,
                        set_compound(cells[a.composite_idx], a.compound_idx, value),
                    ),
                )
            } else {
                host
            }
        },
        LineModel::CodeFence => host,
    }
}

/// The line with the slot at `a`'s coordinates replaced by the pieces.
pub open spec fn line_with_md(
    host: LineModel,
    a: CompoundArgModel,
    pieces: Seq<CompoundModel>,
) -> LineModel {
    match host {
        LineModel::Normal(c) => LineModel::Normal(replace_in_composite(c, a.compound_idx, pieces)),
        LineModel::TableRow(cells) => {
            if 0 <= a.composite_idx < cells.len() {
                LineModel::TableRow(
                    cells.update(
                        a.composite_idx,
                        replace_in_composite(cells[a.composite_idx], a.compound_idx, pieces),
                    ),
                )
            } else {
                host
            }
        },
        LineModel::CodeFence => host,
    }
}

/// The text with the slot at `a` overwritten by `value`, when `a` falls
/// into the window starting at `line_offset`.
pub open spec fn set_one(
    text: Seq<LineModel>,
    line_offset: int,
    a: CompoundArgModel,
    value: Seq<char>,
) -> Seq<LineModel> {
    let idx = a.line_idx - line_offset;
    if a.line_idx < line_offset || idx >= text.len() {
        text
    } else {
        text.update(idx, line_with_set(text[idx], a, value))
    }
}

/// The text with the slot at `a` replaced by the pieces, when `a` falls
/// into the window starting at `line_offset`.
pub open spec fn set_md_one(
    text: Seq<LineModel>,
    line_offset: int,
    a: CompoundArgModel,
    pieces: Seq<CompoundModel>,
) -> Seq<LineModel> {
    let idx = a.line_idx - line_offset;
    if a.line_idx < line_offset || idx >= text.len() {
        text
    } else {
        text.update(idx, line_with_md(text[idx], a, pieces))
    }
}

/// Overwriting, in order, every slot named `name` (from the `k`th
/// placeholder on) with `value`.
pub open spec fn set_in_text_model(
    args: Seq<CompoundArgModel>,
    k: int,
    text: Seq<LineModel>,
    line_offset: int,
    name: Seq<char>,
    value: Seq<char>,
) -> Seq<LineModel>
    decreases args.len() - k,
{
    if k >= args.len() {
        text
    } else {
        let a = args[k];
        let text2 = if a.name == name {
            set_one(text, line_offset, a, value)
        } else {
            text
        };
        set_in_text_model(args, k + 1, text2, line_offset, name, value)
    }
}

/// Applying markdown bindings to the slots in the window, walking the
/// placeholders backward (so that replacing one slot by several compounds
/// never invalidates the coordinates of the slots still to be done); for
/// each slot the first binding with its name wins.
pub open spec fn set_all_md_model(
    args: Seq<CompoundArgModel>,
    k: int,
    text: Seq<LineModel>,
    line_offset: int,
    repls: Seq<ReplModel>,
) -> Seq<LineModel>
    decreases k,
{
    if k <= 0 {
        text
    } else {
        let a = args[k - 1];
        let text2 = match first_match(repls, 0, a.name) {
            Some(value) => set_md_one(
                text,
                line_offset,
                a,
                crate::line_parser::inline_model(value).compounds,
            ),
            None => text,
        };
        set_all_md_model(args, k - 1, text2, line_offset, repls)
    }
}

/// The index of the first region whose line range contains `line_idx`.
pub open spec fn sub_of_line(
    subs: Seq<SubTemplateModel>,
    j: int,
    line_idx: int,
) -> Option<int>
    decreases subs.len() - j,
{
    if j >= subs.len() {
        None
    } else if subs[j].start_line_idx <= line_idx < subs[j].start_line_idx + subs[j].line_count {
        Some(j)
    } else {
        sub_of_line(subs, j + 1, line_idx)
    }
}

/// What the first expansion pass leaves: markdown bindings whose slot
/// lies outside every region are applied to the working text; the others
/// are deferred to the region pass, each filed under its region.
pub struct DirectPass {
    pub text: Seq<LineModel>,
    pub defered: Seq<Seq<ReplModel>>,
}

/// The first expansion pass, walking the placeholders backward.
pub open spec fn phase_direct(
    tpl: TextTemplateModel,
    k: int,
    text: Seq<LineModel>,
    defered: Seq<Seq<ReplModel>>,
    repls: Seq<ReplModel>,
) -> DirectPass
    decreases k,
{
    if k <= 0 {
        DirectPass { text, defered }
    } else {
        let a = tpl.compound_args[k - 1];
        match first_match(repls, 0, a.name) {
            Some(value) => {
                match sub_of_line(tpl.sub_templates, 0, a.line_idx) {
                    Some(s) => {
                        let defered2 = if 0 <= s < defered.len() {
                            defered.update(s, defered[s].push(ReplModel { name: a.name, value }))
                        } else {
                            defered
                        };
                        phase_direct(tpl, k - 1, text, defered2, repls)
                    },
                    None => phase_direct(
                        tpl,
                        k - 1,
                        set_md_one(text, 0, a, crate::line_parser::inline_model(value).compounds),
                        defered,
                        repls,
                    ),
                }
            },
            None => phase_direct(tpl, k - 1, text, defered, repls),
        }
    }
}

/// How many declared instances carry the region's name.
pub open spec fn count_matches(sub_exps: Seq<SubExpModel>, j: int, name: Seq<char>) -> int
    decreases sub_exps.len() - j,
{
    if j >= sub_exps.len() {
        0
    } else {
        (if sub_exps[j].name == name {
            1int
        } else {
            0int
        }) + count_matches(sub_exps, j + 1, name)
    }
}

/// One region instance: the region's lines with the instance's raw
/// bindings applied, then its markdown bindings together with the ones
/// deferred from the enclosing expander.
pub open spec fn instance_text(
    tpl: TextTemplateModel,
    region: Seq<LineModel>,
    start: int,
    raws: Seq<ReplModel>,
    j: int,
    mds: Seq<ReplModel>,
) -> Seq<LineModel>
    decreases raws.len() - j,
{
    if j >= raws.len() {
        set_all_md_model(tpl.compound_args, tpl.compound_args.len() as int, region, start, mds)
    } else {
        let t2 = set_in_text_model(
            tpl.compound_args,
            0,
            region,
            start,
            raws[j].name,
            raws[j].value,
        );
        instance_text(tpl, t2, start, raws, j + 1, mds)
    }
}

/// Splicing every instance of one region back into the text, walking the
/// declared instances backward and inserting each at the region's start,
/// so that they end up in declaration order.
pub open spec fn insert_instances(
    tpl: TextTemplateModel,
    s: SubTemplateModel,
    region: Seq<LineModel>,
    text: Seq<LineModel>,
    sub_exps: Seq<SubExpModel>,
    j: int,
    defered: Seq<ReplModel>,
) -> Seq<LineModel>
    decreases j,
{
    if j <= 0 {
        text
    } else {
        let se = sub_exps[j - 1];
        if se.name == s.name {
            let t2 = instance_text(
                tpl,
                region,
                s.start_line_idx,
                se.raws,
                0,
                se.mds + defered,
            );
            let text2 = if 0 <= s.start_line_idx <= text.len() {
                text.take(s.start_line_idx) + t2 + text.skip(s.start_line_idx)
            } else {
                text
            };
            insert_instances(tpl, s, region, text2, sub_exps, j - 1, defered)
        } else {
            insert_instances(tpl, s, region, text, sub_exps, j - 1, defered)
        }
    }
}

/// The region pass: regions are processed from the last toward the first
/// (so that the stored indices of the ones still to be done stay valid),
/// each drained from the working text and replaced by its instances. The
/// pass also records, per region, how many lines left and entered the
/// text, for the line pass.
pub open spec fn phase_regions(
    tpl: TextTemplateModel,
    k: int,
    text: Seq<LineModel>,
    defered: Seq<Seq<ReplModel>>,
    sub_exps: Seq<SubExpModel>,
    shifts: Seq<(int, int, int)>,
) -> (Seq<LineModel>, Seq<(int, int, int)>)
    decreases k,
{
    if k <= 0 {
        (text, shifts)
    } else {
        let s = tpl.sub_templates[k - 1];
        let start = s.start_line_idx;
        let end = start + s.line_count;
        if 0 <= start && start <= end && end <= text.len() {
            let region = text.subrange(start, end);
            let rest = text.take(start) + text.skip(end);
            let d = if 0 <= k - 1 < defered.len() {
                defered[k - 1]
            } else {
                Seq::empty()
            };
            let text2 = insert_instances(tpl, s, region, rest, sub_exps, sub_exps.len() as int, d);
            let inserted = count_matches(sub_exps, 0, s.name) * s.line_count;
            phase_regions(
                tpl,
                k - 1,
                text2,
                defered,
                sub_exps,
                shifts.push((start, s.line_count, inserted)),
            )
        } else {
            phase_regions(tpl, k - 1, text, defered, sub_exps, shifts)
        }
    }
}

/// By how many lines the region pass moved the template line `line_idx`
/// (for lines outside every region).
pub open spec fn shift_sum(shifts: Seq<(int, int, int)>, j: int, line_idx: int) -> int
    decreases shifts.len() - j,
{
    if j >= shifts.len() {
        0
    } else {
        (if shifts[j].0 + shifts[j].1 <= line_idx {
            shifts[j].2 - shifts[j].1
        } else {
            0int
        }) + shift_sum(shifts, j + 1, line_idx)
    }
}

/// The copies a line binding makes of the slot's host line: one per line
/// of the value, the slot overwritten with that line.
pub open spec fn lines_substituted_raw(
    host: LineModel,
    a: CompoundArgModel,
    values: Seq<Seq<char>>,
) -> Seq<LineModel> {
    values.map_values(|w: Seq<char>| line_with_set(host, a, w))
}

/// As [`lines_substituted_raw`], each value line interpreted as markdown.
pub open spec fn lines_substituted_md(
    host: LineModel,
    a: CompoundArgModel,
    values: Seq<Seq<char>>,
) -> Seq<LineModel> {
    values.map_values(
        |w: Seq<char>| line_with_md(host, a, crate::line_parser::inline_model(w).compounds),
    )
}

/// The host line of the slot `a`, replaced by the given copies.
pub open spec fn splice_lines(
    text: Seq<LineModel>,
    idx: int,
    copies: Seq<LineModel>,
) -> Seq<LineModel> {
    if 0 <= idx < text.len() {
        text.take(idx) + copies + text.skip(idx + 1)
    } else {
        text
    }
}

/// The line pass: line bindings replace the whole host line of a slot
/// (outside every region) by one copy per line of the value. Placeholders
/// are walked backward; raw line bindings are looked up before markdown
/// ones.
pub open spec fn phase_lines(
    tpl: TextTemplateModel,
    k: int,
    text: Seq<LineModel>,
    shifts: Seq<(int, int, int)>,
    line_repls: Seq<ReplModel>,
    line_md_repls: Seq<ReplModel>,
) -> Seq<LineModel>
    decreases k,
{
    if k <= 0 {
        text
    } else {
        let a = tpl.compound_args[k - 1];
        let text2 = if sub_of_line(tpl.sub_templates, 0, a.line_idx) is None {
            let idx = a.line_idx + shift_sum(shifts, 0, a.line_idx);
            if 0 <= idx < text.len() {
                match first_match(line_repls, 0, a.name) {
                    Some(v) => splice_lines(
                        text,
                        idx,
                        lines_substituted_raw(text[idx], a, split_lines_model(v)),
                    ),
                    None => match first_match(line_md_repls, 0, a.name) {
                        Some(v) => splice_lines(
                            text,
                            idx,
                            lines_substituted_md(text[idx], a, split_lines_model(v)),
                        ),
                        None => text,
                    },
                }
            } else {
                text
            }
        } else {
            text
        };
        phase_lines(tpl, k - 1, text2, shifts, line_repls, line_md_repls)
    }
}

/// What expanding produces: the direct pass applies the markdown bindings
/// (deferring the ones aimed into regions), the region pass splices the
/// region instances, and the line pass applies the line bindings. The
/// raw `set` bindings were already applied to the working text when they
/// were recorded.
pub open spec fn expand_model(m: ExpanderModel) -> Seq<LineModel> {
    let pd = phase_direct(
        m.template,
        m.template.compound_args.len() as int,
        m.text,
        Seq::new(m.template.sub_templates.len(), |i: int| Seq::<ReplModel>::empty()),
        m.md_repls,
    );
    let pr = phase_regions(
        m.template,
        m.template.sub_templates.len() as int,
        pd.text,
        pd.defered,
        m.sub_exps,
        Seq::empty(),
    );
    phase_lines(
        m.template,
        m.template.compound_args.len() as int,
        pr.0,
        pr.1,
        m.line_repls,
        m.line_md_repls,
    )
}

/// Template expansion is deterministic: a fixed template and a fixed
/// binding sequence always produce the same text. Since every expander
/// also works on its own private copy of the template's text (see
/// [`TextTemplate::expander`]), two expansions of one template with
/// different bindings yield two independent, non-interfering results.
pub proof fn lemma_expand_deterministic(a: ExpanderModel, b: ExpanderModel)
    requires
        a == b,
    ensures
        expand_model(a) == expand_model(b),
{
}

/// A markdown binding splices in exactly the inline parse of its value,
/// in place of the slot: expansion never rescans substituted content for
/// `${name}` placeholders (those exist only where the compiler recorded
/// them), so a value may hold `$`, `{`, stars, backquotes or pipes
/// without triggering any templating.
pub proof fn lemma_md_substitutes_inline_parse(
    text: Seq<LineModel>,
    line_offset: int,
    a: CompoundArgModel,
    value: Seq<char>,
    c: CompositeModel,
)
    requires
        0 <= a.line_idx - line_offset < text.len(),
        text[a.line_idx - line_offset] == LineModel::Normal(c),
        0 <= a.compound_idx < c.compounds.len(),
        crate::line_parser::inline_model(value).compounds.len() > 0,
    ensures
        set_md_one(text, line_offset, a, crate::line_parser::inline_model(value).compounds)
            == text.update(
            a.line_idx - line_offset,
            LineModel::Normal(
                CompositeModel {
                    style: c.style,
                    compounds: c.compounds.take(a.compound_idx)
                        + crate::line_parser::inline_model(value).compounds + c.compounds.skip(
                        a.compound_idx + 1,
                    ),
                },
            ),
        ),
{
}

/// Whether two markdown binding lists differ only in how their values are
/// written, not in what they mean: same names, and values whose inline
/// parses are equal.
pub open spec fn repls_alike(a: Seq<ReplModel>, b: Seq<ReplModel>) -> bool {
    &&& a.len() == b.len()
    &&& forall|j: int| 0 <= j < a.len() ==> (#[trigger] a[j]).name == b[j].name
    &&& forall|j: int|
        0 <= j < a.len() ==> crate::line_parser::inline_model(
            (#[trigger] a[j]).value,
        ).compounds == crate::line_parser::inline_model(b[j].value).compounds
}

/// Whether two per-region deferred lists are pointwise alike.
pub open spec fn defered_alike(a: Seq<Seq<ReplModel>>, b: Seq<Seq<ReplModel>>) -> bool {
    a.len() == b.len() && forall|j: int| 0 <= j < a.len() ==> repls_alike(#[trigger] a[j], b[j])
}

/// Whether two instance binding sets are alike: same names, identical raw
/// bindings, markdown bindings alike.
pub open spec fn sub_exps_alike(a: Seq<SubExpModel>, b: Seq<SubExpModel>) -> bool {
    &&& a.len() == b.len()
    &&& forall|j: int| 0 <= j < a.len() ==> (#[trigger] a[j]).name == b[j].name
    &&& forall|j: int| 0 <= j < a.len() ==> (#[trigger] a[j]).raws == b[j].raws
    &&& forall|j: int| 0 <= j < a.len() ==> repls_alike((#[trigger] a[j]).mds, b[j].mds)
}

proof fn lemma_first_match_alike(a: Seq<ReplModel>, b: Seq<ReplModel>, j: int, name: Seq<char>)
    requires
        repls_alike(a, b),
        0 <= j,
    ensures
        first_match(a, j, name) is None <==> first_match(b, j, name) is None,
        first_match(a, j, name) is Some ==> crate::line_parser::inline_model(
            first_match(a, j, name)->0,
        ).compounds == crate::line_parser::inline_model(first_match(b, j, name)->0).compounds,
    decreases a.len() - j,
{
    if j < a.len() && a[j].name != name {
        lemma_first_match_alike(a, b, j + 1, name);
    }
}

proof fn lemma_set_all_md_alike(
    args: Seq<CompoundArgModel>,
    k: int,
    text: Seq<LineModel>,
    line_offset: int,
    ra: Seq<ReplModel>,
    rb: Seq<ReplModel>,
)
    requires
        repls_alike(ra, rb),
    ensures
        set_all_md_model(args, k, text, line_offset, ra) == set_all_md_model(
            args,
            k,
            text,
            line_offset,
            rb,
        ),
    decreases k,
{
    if k > 0 {
        let a = args[k - 1];
        lemma_first_match_alike(ra, rb, 0, a.name);
        let text2 = match first_match(ra, 0, a.name) {
            Some(value) => set_md_one(
                text,
                line_offset,
                a,
                crate::line_parser::inline_model(value).compounds,
            ),
            None => text,
        };
        assert(text2 == (match first_match(rb, 0, a.name) {
            Some(value) => set_md_one(
                text,
                line_offset,
                a,
                crate::line_parser::inline_model(value).compounds,
            ),
            None => text,
        }));
        lemma_set_all_md_alike(args, k - 1, text2, line_offset, ra, rb);
    }
}

proof fn lemma_phase_direct_alike(
    tpl: TextTemplateModel,
    k: int,
    text: Seq<LineModel>,
    da: Seq<Seq<ReplModel>>,
    db: Seq<Seq<ReplModel>>,
    ra: Seq<ReplModel>,
    rb: Seq<ReplModel>,
)
    requires
        repls_alike(ra, rb),
        defered_alike(da, db),
    ensures
        phase_direct(tpl, k, text, da, ra).text == phase_direct(tpl, k, text, db, rb).text,
        defered_alike(phase_direct(tpl, k, text, da, ra).defered, phase_direct(
            tpl,
            k,
            text,
            db,
            rb,
        ).defered),
    decreases k,
{
    if k > 0 {
        let a = tpl.compound_args[k - 1];
        lemma_first_match_alike(ra, rb, 0, a.name);
        match first_match(ra, 0, a.name) {
            Some(v1) => {
                let v2 = match first_match(rb, 0, a.name) {
                    Some(v) => v,
                    None => v1,
                };
                match sub_of_line(tpl.sub_templates, 0, a.line_idx) {
                    Some(s) => {
                        if 0 <= s < da.len() {
                            let da2 = da.update(s, da[s].push(ReplModel { name: a.name, value: v1 }));
                            let db2 = db.update(s, db[s].push(ReplModel { name: a.name, value: v2 }));
                            assert(repls_alike(da[s], db[s]));
                            assert forall|t: int| 0 <= t < da2[s].len() implies (#[trigger] da2[s][t]).name
                                == db2[s][t].name && crate::line_parser::inline_model(
                                da2[s][t].value,
                            ).compounds == crate::line_parser::inline_model(
                                db2[s][t].value,
                            ).compounds by {
                                if t < da[s].len() {
                                    assert(da2[s][t] == da[s][t]);
                                    assert(db2[s][t] == db[s][t]);
                                }
                            }
                            assert(repls_alike(da2[s], db2[s]));
                            assert(defered_alike(da2, db2));
                            lemma_phase_direct_alike(tpl, k - 1, text, da2, db2, ra, rb);
                        } else {
                            lemma_phase_direct_alike(tpl, k - 1, text, da, db, ra, rb);
                        }
                    },
                    None => {
                        let text2 = set_md_one(
                            text,
                            0,
                            a,
                            crate::line_parser::inline_model(v1).compounds,
                        );
                        assert(text2 == set_md_one(
                            text,
                            0,
                            a,
                            crate::line_parser::inline_model(v2).compounds,
                        ));
                        lemma_phase_direct_alike(tpl, k - 1, text2, da, db, ra, rb);
                    },
                }
            },
            None => {
                lemma_phase_direct_alike(tpl, k - 1, text, da, db, ra, rb);
            },
        }
    }
}

proof fn lemma_instance_text_alike(
    tpl: TextTemplateModel,
    region: Seq<LineModel>,
    start: int,
    raws: Seq<ReplModel>,
    j: int,
    ma: Seq<ReplModel>,
    mb: Seq<ReplModel>,
)
    requires
        repls_alike(ma, mb),
    ensures
        instance_text(tpl, region, start, raws, j, ma) == instance_text(
            tpl,
            region,
            start,
            raws,
            j,
            mb,
        ),
    decreases raws.len() - j,
{
    if j >= raws.len() {
        lemma_set_all_md_alike(
            tpl.compound_args,
            tpl.compound_args.len() as int,
            region,
            start,
            ma,
            mb,
        );
    } else {
        let t2 = set_in_text_model(tpl.compound_args, 0, region, start, raws[j].name, raws[j].value);
        lemma_instance_text_alike(tpl, t2, start, raws, j + 1, ma, mb);
    }
}

proof fn lemma_repls_alike_concat(
    a1: Seq<ReplModel>,
    b1: Seq<ReplModel>,
    a2: Seq<ReplModel>,
    b2: Seq<ReplModel>,
)
    requires
        repls_alike(a1, a2),
        repls_alike(b1, b2),
    ensures
        repls_alike(a1 + b1, a2 + b2),
{
    assert forall|j: int| 0 <= j < (a1 + b1).len() implies (a1 + b1)[j].name == (a2 + b2)[j].name
        && #[trigger] crate::line_parser::inline_model((a1 + b1)[j].value).compounds
        == crate::line_parser::inline_model((a2 + b2)[j].value).compounds by {
        if j < a1.len() {
            assert((a1 + b1)[j] == a1[j]);
            assert((a2 + b2)[j] == a2[j]);
        } else {
            assert((a1 + b1)[j] == b1[j - a1.len()]);
            assert((a2 + b2)[j] == b2[j - a1.len()]);
        }
    }
}

proof fn lemma_insert_instances_alike(
    tpl: TextTemplateModel,
    s: SubTemplateModel,
    region: Seq<LineModel>,
    text: Seq<LineModel>,
    sa: Seq<SubExpModel>,
    sb: Seq<SubExpModel>,
    j: int,
    da: Seq<ReplModel>,
    db: Seq<ReplModel>,
)
    requires
        sub_exps_alike(sa, sb),
        repls_alike(da, db),
        j <= sa.len(),
    ensures
        insert_instances(tpl, s, region, text, sa, j, da) == insert_instances(
            tpl,
            s,
            region,
            text,
            sb,
            j,
            db,
        ),
    decreases j,
{
    if j > 0 {
        let sea = sa[j - 1];
        let seb = sb[j - 1];
        if sea.name == s.name {
            lemma_repls_alike_concat(sea.mds, da, seb.mds, db);
            lemma_instance_text_alike(
                tpl,
                region,
                s.start_line_idx,
                sea.raws,
                0,
                sea.mds + da,
                seb.mds + db,
            );
            let t2 = instance_text(tpl, region, s.start_line_idx, sea.raws, 0, sea.mds + da);
            let text2 = if 0 <= s.start_line_idx <= text.len() {
                text.take(s.start_line_idx) + t2 + text.skip(s.start_line_idx)
            } else {
                text
            };
            lemma_insert_instances_alike(tpl, s, region, text2, sa, sb, j - 1, da, db);
        } else {
            lemma_insert_instances_alike(tpl, s, region, text, sa, sb, j - 1, da, db);
        }
    }
}

proof fn lemma_count_matches_alike(
    sa: Seq<SubExpModel>,
    sb: Seq<SubExpModel>,
    j: int,
    name: Seq<char>,
)
    requires
        sub_exps_alike(sa, sb),
        0 <= j,
    ensures
        count_matches(sa, j, name) == count_matches(sb, j, name),
    decreases sa.len() - j,
{
    if j < sa.len() {
        lemma_count_matches_alike(sa, sb, j + 1, name);
    }
}

proof fn lemma_phase_regions_alike(
    tpl: TextTemplateModel,
    k: int,
    text: Seq<LineModel>,
    da: Seq<Seq<ReplModel>>,
    db: Seq<Seq<ReplModel>>,
    sa: Seq<SubExpModel>,
    sb: Seq<SubExpModel>,
    shifts: Seq<(int, int, int)>,
)
    requires
        sub_exps_alike(sa, sb),
        defered_alike(da, db),
    ensures
        phase_regions(tpl, k, text, da, sa, shifts) == phase_regions(tpl, k, text, db, sb, shifts),
    decreases k,
{
    if k > 0 {
        let s = tpl.sub_templates[k - 1];
        let start = s.start_line_idx;
        let end = start + s.line_count;
        if 0 <= start && start <= end && end <= text.len() {
            let region = text.subrange(start, end);
            let rest = text.take(start) + text.skip(end);
            let d1 = if 0 <= k - 1 < da.len() {
                da[k - 1]
            } else {
                Seq::<ReplModel>::empty()
            };
            let d2 = if 0 <= k - 1 < db.len() {
                db[k - 1]
            } else {
                Seq::<ReplModel>::empty()
            };
            assert(repls_alike(d1, d2));
            lemma_insert_instances_alike(
                tpl,
                s,
                region,
                rest,
                sa,
                sb,
                sa.len() as int,
                d1,
                d2,
            );
            lemma_count_matches_alike(sa, sb, 0, s.name);
            let text2 = insert_instances(tpl, s, region, rest, sa, sa.len() as int, d1);
            lemma_phase_regions_alike(
                tpl,
                k - 1,
                text2,
                da,
                db,
                sa,
                sb,
                shifts.push((start, s.line_count, count_matches(sa, 0, s.name) * s.line_count)),
            );
        } else {
            lemma_phase_regions_alike(tpl, k - 1, text, da, db, sa, sb, shifts);
        }
    }
}

/// Placeholder scanning happens only at template compile time, never on
/// substituted content: the expansion depends on a markdown binding's
/// value only through its inline parse. Two expansions whose markdown
/// bindings carry values with equal inline parses — whatever `${name}`
/// patterns, stars, backquotes or pipes those values hold — and which
/// agree on everything else produce the same text, so nothing inside a
/// substituted value can ever act as a placeholder.
pub proof fn lemma_substituted_content_never_rescanned(m1: ExpanderModel, m2: ExpanderModel)
    requires
        m1.template == m2.template,
        m1.text == m2.text,
        m1.line_repls == m2.line_repls,
        m1.line_md_repls == m2.line_md_repls,
        repls_alike(m1.md_repls, m2.md_repls),
        sub_exps_alike(m1.sub_exps, m2.sub_exps),
    ensures
        expand_model(m1) == expand_model(m2),
{
    let tpl = m1.template;
    let n_args = tpl.compound_args.len() as int;
    let empty_def = Seq::new(tpl.sub_templates.len(), |i: int| Seq::<ReplModel>::empty());
    assert(defered_alike(empty_def, empty_def));
    lemma_phase_direct_alike(tpl, n_args, m1.text, empty_def, empty_def, m1.md_repls, m2.md_repls);
    let p1 = phase_direct(tpl, n_args, m1.text, empty_def, m1.md_repls);
    let p2 = phase_direct(tpl, n_args, m2.text, empty_def, m2.md_repls);
    lemma_phase_regions_alike(
        tpl,
        tpl.sub_templates.len() as int,
        p1.text,
        p1.defered,
        p2.defered,
        m1.sub_exps,
        m2.sub_exps,
        Seq::empty(),
    );
}

/// The instances of one region, in declaration order: one copy of the
/// region's lines per declared instance carrying the region's name, each
/// with that instance's own bindings applied.
pub open spec fn concat_instances(
    tpl: TextTemplateModel,
    s: SubTemplateModel,
    region: Seq<LineModel>,
    sub_exps: Seq<SubExpModel>,
    j: int,
    defered: Seq<ReplModel>,
) -> Seq<LineModel>
    decreases j,
{
    if j <= 0 {
        Seq::empty()
    } else {
        let se = sub_exps[j - 1];
        concat_instances(tpl, s, region, sub_exps, j - 1, defered) + (if se.name == s.name {
            instance_text(tpl, region, s.start_line_idx, se.raws, 0, se.mds + defered)
        } else {
            Seq::empty()
        })
    }
}

/// Splicing the declared instances of a region produces, at the region's
/// place in the text, exactly one instantiated copy of its line range per
/// declared instance with its name, in declaration order: N declarations
/// give N copies, and instances never interfere with each other or with
/// the rest of the text.
pub proof fn lemma_region_instances(
    tpl: TextTemplateModel,
    s: SubTemplateModel,
    region: Seq<LineModel>,
    text: Seq<LineModel>,
    sub_exps: Seq<SubExpModel>,
    j: int,
    defered: Seq<ReplModel>,
)
    requires
        0 <= s.start_line_idx <= text.len(),
        0 <= j <= sub_exps.len(),
        region.len() == s.line_count,
    ensures
        insert_instances(tpl, s, region, text, sub_exps, j, defered) == text.take(
            s.start_line_idx,
        ) + concat_instances(tpl, s, region, sub_exps, j, defered) + text.skip(s.start_line_idx),
        concat_instances(tpl, s, region, sub_exps, j, defered).len() == (count_matches(
            sub_exps,
            0,
            s.name,
        ) - count_matches(sub_exps, j, s.name)) * s.line_count,
    decreases j,
{
    let start = s.start_line_idx;
    if j <= 0 {
        assert(text.take(start) + Seq::<LineModel>::empty() + text.skip(start) =~= text);
    } else {
        let se = sub_exps[j - 1];
        let cm0 = count_matches(sub_exps, 0, s.name);
        let cmj = count_matches(sub_exps, j, s.name);
        let cmj1 = count_matches(sub_exps, j - 1, s.name);
        if se.name == s.name {
            let inst = instance_text(tpl, region, start, se.raws, 0, se.mds + defered);
            lemma_instance_text_len(tpl, region, start, se.raws, 0, se.mds + defered);
            let text2 = text.take(start) + inst + text.skip(start);
            lemma_region_instances(tpl, s, region, text2, sub_exps, j - 1, defered);
            assert(text2.take(start) =~= text.take(start));
            assert(text2.skip(start) =~= inst + text.skip(start));
            assert(text2.take(start) + concat_instances(tpl, s, region, sub_exps, j - 1, defered)
                + text2.skip(start) =~= text.take(start) + concat_instances(
                tpl,
                s,
                region,
                sub_exps,
                j,
                defered,
            ) + text.skip(start));
            assert(cmj1 == 1 + cmj);
            assert((cm0 - cmj1) * s.line_count + s.line_count == (cm0 - cmj) * s.line_count)
                by (nonlinear_arith)
                requires
                    cmj1 == 1 + cmj,
            ;
        } else {
            lemma_region_instances(tpl, s, region, text, sub_exps, j - 1, defered);
            assert(concat_instances(tpl, s, region, sub_exps, j, defered)
                =~= concat_instances(tpl, s, region, sub_exps, j - 1, defered));
        }
    }
}

/// With no markdown bindings, the direct pass changes nothing.
proof fn lemma_phase_direct_empty(
    tpl: TextTemplateModel,
    k: int,
    text: Seq<LineModel>,
    defered: Seq<Seq<ReplModel>>,
)
    ensures
        phase_direct(tpl, k, text, defered, Seq::<ReplModel>::empty()) == (DirectPass {
            text,
            defered,
        }),
    decreases k,
{
    if k > 0 {
        lemma_phase_direct_empty(tpl, k - 1, text, defered);
    }
}

/// With no line bindings, the line pass changes nothing.
proof fn lemma_phase_lines_empty(
    tpl: TextTemplateModel,
    k: int,
    text: Seq<LineModel>,
    shifts: Seq<(int, int, int)>,
)
    ensures
        phase_lines(tpl, k, text, shifts, Seq::<ReplModel>::empty(), Seq::<ReplModel>::empty())
            == text,
    decreases k,
{
    if k > 0 {
        lemma_phase_lines_empty(tpl, k - 1, text, shifts);
    }
}

/// The region property at the level of a whole expansion: with no
/// markdown and no line bindings, expanding a template with one
/// repeatable region replaces its line range by one instantiated copy of
/// it per declared instance carrying its name, in declaration order, each
/// copy holding only that instance's bindings, and leaves the rest of the
/// working text untouched. Declaring N instances thus changes the length
/// by (N - 1) times the region's line count; N = 0 removes the range.
pub proof fn lemma_expand_region_instances(m: ExpanderModel)
    requires
        m.md_repls == Seq::<ReplModel>::empty(),
        m.line_repls == Seq::<ReplModel>::empty(),
        m.line_md_repls == Seq::<ReplModel>::empty(),
        m.template.sub_templates.len() == 1,
        0 <= m.template.sub_templates[0].start_line_idx,
        0 <= m.template.sub_templates[0].line_count,
        m.template.sub_templates[0].start_line_idx + m.template.sub_templates[0].line_count
            <= m.text.len(),
    ensures
        ({
            let s = m.template.sub_templates[0];
            let region = m.text.subrange(s.start_line_idx, s.start_line_idx + s.line_count);
            &&& expand_model(m) == m.text.take(s.start_line_idx) + concat_instances(
                m.template,
                s,
                region,
                m.sub_exps,
                m.sub_exps.len() as int,
                Seq::<ReplModel>::empty(),
            ) + m.text.skip(s.start_line_idx + s.line_count)
            &&& expand_model(m).len() == m.text.len() + (count_matches(m.sub_exps, 0, s.name) - 1)
                * s.line_count
        }),
{
    let tpl = m.template;
    let s = tpl.sub_templates[0];
    let start = s.start_line_idx;
    let end = start + s.line_count;
    let n_args = tpl.compound_args.len() as int;
    let empty_def = Seq::new(tpl.sub_templates.len(), |i: int| Seq::<ReplModel>::empty());
    lemma_phase_direct_empty(tpl, n_args, m.text, empty_def);
    let region = m.text.subrange(start, end);
    let rest = m.text.take(start) + m.text.skip(end);
    assert(empty_def[0] =~= Seq::<ReplModel>::empty());
    lemma_region_instances(
        tpl,
        s,
        region,
        rest,
        m.sub_exps,
        m.sub_exps.len() as int,
        Seq::<ReplModel>::empty(),
    );
    let spliced = concat_instances(
        tpl,
        s,
        region,
        m.sub_exps,
        m.sub_exps.len() as int,
        Seq::<ReplModel>::empty(),
    );
    assert(rest.take(start) =~= m.text.take(start));
    assert(rest.skip(start) =~= m.text.skip(end));
    let text2 = rest.take(start) + spliced + rest.skip(start);
    let ins = insert_instances(
        tpl,
        s,
        region,
        rest,
        m.sub_exps,
        m.sub_exps.len() as int,
        Seq::<ReplModel>::empty(),
    );
    assert(ins == text2);
    let inserted = count_matches(m.sub_exps, 0, s.name) * s.line_count;
    let sh = Seq::<(int, int, int)>::empty().push((start, s.line_count, inserted));
    assert(phase_regions(tpl, 0, ins, empty_def, m.sub_exps, sh) == (ins, sh));
    let pr = phase_regions(tpl, 1, m.text, empty_def, m.sub_exps, Seq::empty());
    assert(pr == (ins, sh));
    lemma_phase_lines_empty(tpl, n_args, pr.0, pr.1);
    let cm = count_matches(m.sub_exps, 0, s.name);
    assert(count_matches(m.sub_exps, m.sub_exps.len() as int, s.name) == 0);
    assert(spliced.len() == cm * s.line_count);
    assert(expand_model(m).len() == start + cm * s.line_count + (m.text.len() - end));
    assert(m.text.len() + (cm - 1) * s.line_count == start + cm * s.line_count + (m.text.len()
        - end)) by (nonlinear_arith)
        requires
            end == start + s.line_count,
    ;
}

/// The ghost value of the compiler's open-region slot.
spec fn open_view<'s>(o: Option<SubTemplate<'s>>) -> Option<SubTemplateModel> {
    match o {
        Some(s) => Some(s@),
        None => None,
    }
}

/// A markdown text with placeholders like `${some-name}` and repeatable
/// sub-regions, compiled for repeated expansion.
///
/// The template is immutable after compilation: one template may be
/// expanded any number of times independently.
#[derive(Debug)]
pub struct TextTemplate<'s> {
    text: Text<'s>,
    compound_args: Vec<CompoundArg<'s>>,
    sub_templates: Vec<SubTemplate<'s>>,
}

impl<'s> View for TextTemplate<'s> {
    type V = TextTemplateModel;

    closed spec fn view(&self) -> TextTemplateModel {
        TextTemplateModel {
            text: self.text@,
            compound_args: arg_views(self.compound_args@),
            sub_templates: sub_views(self.sub_templates@),
        }
    }
}

impl<'s> TextTemplate<'s> {
    /// build a template from a markdown text with `${name}` placeholders
    /// and repeatable sub-regions
    pub fn from(md: &'s str) -> (r: TextTemplate<'s>)
        ensures
            r@ == template_model(md@),
    {
        let md_lines = split_lines(md);
        let ghost lsv = crate::clean::str_views(md_lines@);
        let ghost init = CompileState {
            text: Seq::empty(),
            args: Seq::empty(),
            subs: Seq::empty(),
            open_sub: None,
        };
        let mut text: Vec<Line<'s>> = Vec::new();
        let mut args: Vec<CompoundArg<'s>> = Vec::new();
        let mut subs: Vec<SubTemplate<'s>> = Vec::new();
        let mut open: Option<SubTemplate<'s>> = None;
        let mut i: usize = 0;
        proof {
            assert(line_views(text@) =~= Seq::<LineModel>::empty());
            assert(arg_views(args@) =~= Seq::<CompoundArgModel>::empty());
            assert(sub_views(subs@) =~= Seq::<SubTemplateModel>::empty());
        }
        while i < md_lines.len()
            invariant
                0 <= i <= md_lines.len(),
                lsv == crate::clean::str_views(md_lines@),
                open matches Some(o) ==> o@.start_line_idx <= line_views(text@).len(),
                compile_lines(lsv, 0, init) == compile_lines(
                    lsv,
                    i as int,
                    CompileState {
                        text: line_views(text@),
                        args: arg_views(args@),
                        subs: sub_views(subs@),
                        open_sub: open_view(open),
                    },
                ),
            decreases md_lines.len() - i,
        {
            let md_line = md_lines[i];
            proof {
                assert(md_line@ == lsv[i as int]);
            }
            let ghost st_pre = CompileState {
                text: line_views(text@),
                args: arg_views(args@),
                subs: sub_views(subs@),
                open_sub: open_view(open),
            };
            let token = read_sub_template_token(md_line);
            let mut ordinary = false;
            match token {
                SubTemplateToken::Start(name) => {
                    if open.is_none() {
                        open = Some(
                            SubTemplate { start_line_idx: text.len(), line_count: 0, name },
                        );
                    } else {
                        ordinary = true;
                    }
                },
                SubTemplateToken::End => {
                    match open {
                        Some(o) => {
                            let ghost subs_pre = sub_views(subs@);
                            let closed = SubTemplate {
                                start_line_idx: o.start_line_idx,
                                line_count: text.len() - o.start_line_idx,
                                name: o.name,
                            };
                            subs.push(closed);
                            open = None;
                            proof {
                                assert(sub_views(subs@) =~= subs_pre.push(closed@));
                            }
                        },
                        None => {
                            ordinary = true;
                        },
                    }
                },
                SubTemplateToken::NoToken => {
                    ordinary = true;
                },
            }
            if ordinary {
                let ghost li = line_views(text@).len() as int;
                let ghost texts_pre = line_views(text@);
                let mut line_parser = LineParser::from(md_line);
                let line = line_parser.line();
                match line {
                    Line::Normal(c) => {
                        let mut c = c;
                        find_args(&mut c, &mut args, text.len(), 0);
                        text.push(Line::Normal(c));
                        proof {
                            assert(line_views(text@) =~= texts_pre.push(
                                compile_line(line_model(md_line@, start_state()).0, li, st_pre.args).0,
                            ));
                        }
                    },
                    Line::TableRow(row) => {
                        let mut row = row;
                        let ghost cells0 = row@;
                        let ghost args_a = arg_views(args@);
                        let li_e = text.len();
                        let mut ci: usize = 0;
                        proof {
                            assert(crate::composite::composite_views(row.cells@) == row@);
                            assert(row@.take(0) =~= Seq::<CompositeModel>::empty());
                            assert(compile_cells(cells0, li, 0, args_a).0 =~= row@.take(0)
                                + compile_cells(cells0, li, 0, args_a).0);
                        }
                        while ci < row.cells.len()
                            invariant
                                0 <= ci <= row.cells@.len(),
                                li_e as int == li,
                                row@.len() == cells0.len(),
                                forall|j: int|
                                    ci <= j < cells0.len() ==> #[trigger] row@[j] == cells0[j],
                                compile_cells(cells0, li, 0, args_a).0 == row@.take(ci as int)
                                    + compile_cells(cells0, li, ci as int, arg_views(args@)).0,
                                compile_cells(cells0, li, 0, args_a).1 == compile_cells(
                                    cells0,
                                    li,
                                    ci as int,
                                    arg_views(args@),
                                ).1,
                            decreases row.cells@.len() - ci,
                        {
                            let ghost args_pre = arg_views(args@);
                            let ghost row_pre = row@;
                            let mut cell = row.cells[ci].clone();
                            proof {
                                assert(cell@ == row.cells@[ci as int]@);
                                assert(row@[ci as int] == row.cells@[ci as int]@);
                                assert(cell@ == cells0[ci as int]);
                            }
                            find_args(&mut cell, &mut args, li_e, ci);
                            row.cells.set(ci, cell);
                            proof {
                                let fs = find_args_model(
                                    cells0[ci as int].compounds,
                                    li,
                                    ci as int,
                                    args_pre,
                                );
                                assert(cell@ == (CompositeModel {
                                    style: cells0[ci as int].style,
                                    compounds: fs.pieces,
                                }));
                                assert(row@ =~= row_pre.update(ci as int, cell@));
                                assert(row@.take(ci + 1) =~= row_pre.take(ci as int) + seq![cell@]);
                                assert(compile_cells(cells0, li, 0, args_a).0 =~= row@.take(ci + 1)
                                    + compile_cells(cells0, li, ci + 1, arg_views(args@)).0);
                            }
                            ci += 1;
                        }
                        proof {
                            assert(compile_cells(cells0, li, cells0.len() as int, arg_views(args@)).0
                                =~= Seq::<CompositeModel>::empty());
                            assert(row@.take(cells0.len() as int) =~= row@);
                            assert(row@ == compile_cells(cells0, li, 0, args_a).0);
                        }
                        text.push(Line::TableRow(row));
                        proof {
                            assert(line_views(text@) =~= texts_pre.push(
                                compile_line(line_model(md_line@, start_state()).0, li, st_pre.args).0,
                            ));
                        }
                    },
                    Line::CodeFence => {
                        text.push(Line::CodeFence);
                        proof {
                            assert(line_views(text@) =~= texts_pre.push(LineModel::CodeFence));
                        }
                    },
                }
            }
            i += 1;
        }
        TextTemplate { text: Text { lines: text }, compound_args: args, sub_templates: subs }
    }
}

/// whether two strings hold the same characters
fn str_eq(a: &str, b: &str) -> (r: bool)
    ensures
        r == (a@ == b@),
{
    let n = a.unicode_len();
    if n != b.unicode_len() {
        return false;
    }
    let mut i: usize = 0;
    while i < n
        invariant
            0 <= i <= n,
            n == a@.len() == b@.len(),
            forall|j: int| 0 <= j < i ==> a@[j] == b@[j],
        decreases n - i,
    {
        if a.get_char(i) != b.get_char(i) {
            return false;
        }
        i += 1;
    }
    proof {
        assert(a@ =~= b@);
    }
    true
}

/// One recorded binding: a placeholder name and its replacement value.
#[derive(Debug, Clone, Copy)]
struct Replacement<'s, 'b> {
    name: &'b str,
    value: &'s str,
}

impl<'s, 'b> View for Replacement<'s, 'b> {
    type V = ReplModel;

    closed spec fn view(&self) -> ReplModel {
        ReplModel { name: self.name@, value: self.value@ }
    }
}

/// The ghost values of a sequence of bindings.
spec fn repl_views<'s, 'b>(s: Seq<Replacement<'s, 'b>>) -> Seq<ReplModel> {
    s.map_values(|r: Replacement<'s, 'b>| r@)
}

/// The ghost values of the per-region deferred binding lists.
spec fn defered_views<'s, 'b>(d: Seq<Vec<Replacement<'s, 'b>>>) -> Seq<Seq<ReplModel>> {
    d.map_values(|v: Vec<Replacement<'s, 'b>>| repl_views(v@))
}

/// The ghost values of the recorded region shifts.
spec fn shift_views(s: Seq<(usize, usize, usize)>) -> Seq<(int, int, int)> {
    s.map_values(|t: (usize, usize, usize)| (t.0 as int, t.1 as int, t.2 as int))
}

/// The value of the first binding with the given name, if any.
fn first_match_exec<'s, 'b>(repls: &Vec<Replacement<'s, 'b>>, name: &str) -> (r: Option<&'s str>)
    ensures
        ({
            let m = first_match(repl_views(repls@), 0, name@);
            match r {
                Some(v) => m == Some(v@),
                None => m is None,
            }
        }),
{
    let mut j: usize = 0;
    while j < repls.len()
        invariant
            0 <= j <= repls.len(),
            first_match(repl_views(repls@), 0, name@) == first_match(
                repl_views(repls@),
                j as int,
                name@,
            ),
        decreases repls.len() - j,
    {
        let rp = repls[j];
        if str_eq(rp.name, name) {
            return Some(rp.value);
        }
        j += 1;
    }
    None
}

/// replace a compound of the composite with several other ones, shifting
/// what follows. Do nothing when the replacement is empty
fn replace_compound<'s>(
    composite: &mut Composite<'s>,
    compound_idx: usize,
    replacing_compounds: Vec<Compound<'s>>,
)
    ensures
        final(composite)@ == replace_in_composite(
            old(composite)@,
            compound_idx as int,
            compound_views(replacing_compounds@),
        ),
{
    let ghost c0 = composite@.compounds;
    let ghost repl = compound_views(replacing_compounds@);
    if replacing_compounds.len() == 0 {
        return;
    }
    if compound_idx >= composite.compounds.len() {
        return;
    }
    composite.compounds.set(compound_idx, replacing_compounds[0]);
    let mut k: usize = 1;
    proof {
        assert(composite@.compounds =~= c0.take(compound_idx as int) + repl.take(1) + c0.skip(
            compound_idx + 1,
        ));
    }
    while k < replacing_compounds.len()
        invariant
            1 <= k <= replacing_compounds.len(),
            repl == compound_views(replacing_compounds@),
            repl.len() == replacing_compounds@.len(),
            compound_idx + k <= composite.compounds@.len(),
            composite@.style == old(composite)@.style,
            composite@.compounds == c0.take(compound_idx as int) + repl.take(k as int) + c0.skip(
                compound_idx + 1,
            ),
            compound_idx < c0.len(),
        decreases replacing_compounds.len() - k,
    {
        let ghost before = composite@.compounds;
        let cur_len = composite.compounds.len();
        proof {
            assert(compound_idx + k <= cur_len);
        }
        composite.compounds.insert(compound_idx + k, replacing_compounds[k]);
        proof {
            assert(composite@.compounds =~= before.insert(compound_idx + k, repl[k as int]));
            assert(composite@.compounds =~= c0.take(compound_idx as int) + repl.take(k + 1)
                + c0.skip(compound_idx + 1));
        }
        k += 1;
    }
    proof {
        assert(repl.take(repl.len() as int) =~= repl);
    }
}

/// The line with the content of the slot at the placeholder's coordinates
/// overwritten by `value`.
fn line_set<'s>(line: Line<'s>, a: CompoundArg<'s>, value: &'s str) -> (r: Line<'s>)
    ensures
        r@ == line_with_set(line@, a@, value@),
{
    match line {
        Line::Normal(c) => {
            let mut c = c;
            let ghost cm0 = c@;
            if a.compound_idx < c.compounds.len() {
                let mut comp = c.compounds[a.compound_idx];
                comp.set_str(value);
                c.compounds.set(a.compound_idx, comp);
                proof {
                    assert(c@.compounds =~= cm0.compounds.update(
                        a.compound_idx as int,
                        CompoundModel { content: value@, ..cm0.compounds[a.compound_idx as int] },
                    ));
                }
            }
            Line::Normal(c)
        },
        Line::TableRow(row) => {
            let mut row = row;
            let ghost cells0 = row@;
            if a.composite_idx < row.cells.len() {
                let mut cell = row.cells[a.composite_idx].clone();
                let ghost cellm = cell@;
                proof {
                    assert(cellm == cells0[a.composite_idx as int]);
                }
                if a.compound_idx < cell.compounds.len() {
                    let mut comp = cell.compounds[a.compound_idx];
                    comp.set_str(value);
                    cell.compounds.set(a.compound_idx, comp);
                    proof {
                        assert(cell@.compounds =~= cellm.compounds.update(
                            a.compound_idx as int,
                            CompoundModel {
                                content: value@,
                                ..cellm.compounds[a.compound_idx as int]
                            },
                        ));
                    }
                }
                row.cells.set(a.composite_idx, cell);
                proof {
                    assert(row@ =~= cells0.update(
                        a.composite_idx as int,
                        set_compound(cells0[a.composite_idx as int], a.compound_idx as int, value@),
                    ));
                }
            }
            Line::TableRow(row)
        },
        Line::CodeFence => Line::CodeFence,
    }
}

/// The line with the slot at the placeholder's coordinates replaced by the
/// given compounds.
fn line_md<'s>(line: Line<'s>, a: CompoundArg<'s>, replacing: Vec<Compound<'s>>) -> (r: Line<'s>)
    ensures
        r@ == line_with_md(line@, a@, compound_views(replacing@)),
{
    match line {
        Line::Normal(c) => {
            let mut c = c;
            replace_compound(&mut c, a.compound_idx, replacing);
            Line::Normal(c)
        },
        Line::TableRow(row) => {
            let mut row = row;
            let ghost cells0 = row@;
            if a.composite_idx < row.cells.len() {
                let mut cell = row.cells[a.composite_idx].clone();
                proof {
                    assert(cell@ == cells0[a.composite_idx as int]);
                }
                replace_compound(&mut cell, a.compound_idx, replacing);
                row.cells.set(a.composite_idx, cell);
                proof {
                    assert(row@ =~= cells0.update(
                        a.composite_idx as int,
                        replace_in_composite(
                            cells0[a.composite_idx as int],
                            a.compound_idx as int,
                            compound_views(replacing@),
                        ),
                    ));
                }
            }
            Line::TableRow(row)
        },
        Line::CodeFence => Line::CodeFence,
    }
}

/// overwrite every slot named `name` of the window of `text` starting at
/// `line_offset` with `value`, keeping the slots' styling
fn set_in_text<'s>(
    template: &TextTemplate<'s>,
    text: &mut Text<'s>,
    line_offset: usize,
    name: &str,
    value: &'s str,
)
    ensures
        final(text)@ == set_in_text_model(
            template@.compound_args,
            0,
            old(text)@,
            line_offset as int,
            name@,
            value@,
        ),
{
    let ghost args = template@.compound_args;
    let ghost t0 = old(text)@;
    let mut k: usize = 0;
    while k < template.compound_args.len()
        invariant
            0 <= k <= template.compound_args.len(),
            args == template@.compound_args,
            args.len() == template.compound_args@.len(),
            set_in_text_model(args, 0, t0, line_offset as int, name@, value@)
                == set_in_text_model(args, k as int, text@, line_offset as int, name@, value@),
        decreases template.compound_args.len() - k,
    {
        let arg = template.compound_args[k];
        proof {
            assert(arg@ == args[k as int]);
        }
        if str_eq(arg.name, name) {
            if arg.line_idx >= line_offset && arg.line_idx - line_offset < text.lines.len() {
                let idx = arg.line_idx - line_offset;
                let ghost pre = text@;
                let line = text.lines[idx].clone();
                proof {
                    assert(line@ == pre[idx as int]);
                }
                let new_line = line_set(line, arg, value);
                text.lines.set(idx, new_line);
                proof {
                    assert(text@ =~= pre.update(
                        idx as int,
                        line_with_set(pre[idx as int], arg@, value@),
                    ));
                }
            }
        }
        k += 1;
    }
}

/// apply the markdown bindings to the slots of the window of `text`
/// starting at `line_offset`, walking the placeholders backward; for each
/// slot the first binding with its name wins
fn set_all_md_in_text<'s, 'b>(
    template: &TextTemplate<'s>,
    text: &mut Text<'s>,
    line_offset: usize,
    md_replacements: &Vec<Replacement<'s, 'b>>,
)
    ensures
        final(text)@ == set_all_md_model(
            template@.compound_args,
            template@.compound_args.len() as int,
            old(text)@,
            line_offset as int,
            repl_views(md_replacements@),
        ),
{
    let ghost args = template@.compound_args;
    let ghost t0 = old(text)@;
    let ghost repls = repl_views(md_replacements@);
    let mut k: usize = template.compound_args.len();
    while k > 0
        invariant
            0 <= k <= template.compound_args.len(),
            args == template@.compound_args,
            args.len() == template.compound_args@.len(),
            repls == repl_views(md_replacements@),
            set_all_md_model(args, args.len() as int, t0, line_offset as int, repls)
                == set_all_md_model(args, k as int, text@, line_offset as int, repls),
        decreases k,
    {
        k -= 1;
        let arg = template.compound_args[k];
        proof {
            assert(arg@ == args[k as int]);
        }
        match first_match_exec(md_replacements, arg.name) {
            Some(value) => {
                let replacing = Composite::from_inline(value).compounds;
                if arg.line_idx >= line_offset && arg.line_idx - line_offset < text.lines.len() {
                    let idx = arg.line_idx - line_offset;
                    let ghost pre = text@;
                    let line = text.lines[idx].clone();
                    proof {
                        assert(line@ == pre[idx as int]);
                    }
                    let new_line = line_md(line, arg, replacing);
                    text.lines.set(idx, new_line);
                    proof {
                        assert(text@ =~= pre.update(
                            idx as int,
                            line_with_md(
                                pre[idx as int],
                                arg@,
                                crate::line_parser::inline_model(value@).compounds,
                            ),
                        ));
                    }
                }
            },
            None => {},
        }
    }
}

proof fn lemma_set_in_text_model_len(
    args: Seq<CompoundArgModel>,
    k: int,
    text: Seq<LineModel>,
    line_offset: int,
    name: Seq<char>,
    value: Seq<char>,
)
    ensures
        set_in_text_model(args, k, text, line_offset, name, value).len() == text.len(),
    decreases args.len() - k,
{
    if k < args.len() {
        let a = args[k];
        let text2 = if a.name == name {
            set_one(text, line_offset, a, value)
        } else {
            text
        };
        lemma_set_in_text_model_len(args, k + 1, text2, line_offset, name, value);
    }
}

proof fn lemma_set_all_md_model_len(
    args: Seq<CompoundArgModel>,
    k: int,
    text: Seq<LineModel>,
    line_offset: int,
    repls: Seq<ReplModel>,
)
    ensures
        set_all_md_model(args, k, text, line_offset, repls).len() == text.len(),
    decreases k,
{
    if k > 0 {
        let a = args[k - 1];
        let text2 = match first_match(repls, 0, a.name) {
            Some(value) => set_md_one(
                text,
                line_offset,
                a,
                crate::line_parser::inline_model(value).compounds,
            ),
            None => text,
        };
        lemma_set_all_md_model_len(args, k - 1, text2, line_offset, repls);
    }
}

proof fn lemma_instance_text_len(
    tpl: TextTemplateModel,
    region: Seq<LineModel>,
    start: int,
    raws: Seq<ReplModel>,
    j: int,
    mds: Seq<ReplModel>,
)
    ensures
        instance_text(tpl, region, start, raws, j, mds).len() == region.len(),
    decreases raws.len() - j,
{
    if j >= raws.len() {
        lemma_set_all_md_model_len(
            tpl.compound_args,
            tpl.compound_args.len() as int,
            region,
            start,
            mds,
        );
    } else {
        let t2 = set_in_text_model(
            tpl.compound_args,
            0,
            region,
            start,
            raws[j].name,
            raws[j].value,
        );
        lemma_set_in_text_model_len(tpl.compound_args, 0, region, start, raws[j].name, raws[j].value);
        lemma_instance_text_len(tpl, t2, start, raws, j + 1, mds);
    }
}

/// The expander of one instance of a repeatable region: the bindings set
/// here apply to that instance alone.
#[derive(Debug)]
pub struct SubTemplateExpander<'s, 'b> {
    name: &'b str,
    raw_replacements: Vec<Replacement<'s, 'b>>,
    md_replacements: Vec<Replacement<'s, 'b>>,
}

impl<'s, 'b> View for SubTemplateExpander<'s, 'b> {
    type V = SubExpModel;

    closed spec fn view(&self) -> SubExpModel {
        SubExpModel {
            name: self.name@,
            raws: repl_views(self.raw_replacements@),
            mds: repl_views(self.md_replacements@),
        }
    }
}

/// The ghost values of a sequence of region-instance expanders.
spec fn sub_exp_views<'s, 'b>(s: Seq<SubTemplateExpander<'s, 'b>>) -> Seq<SubExpModel> {
    s.map_values(|e: SubTemplateExpander<'s, 'b>| e@)
}

impl<'s, 'b> SubTemplateExpander<'s, 'b> {
    /// a fresh expander for one instance of the repeatable region `name`,
    /// to fill and hand to [`TextTemplateExpander::add_sub`]
    pub fn new(name: &'b str) -> (r: Self)
        ensures
            r@ == (SubExpModel {
                name: name@,
                raws: Seq::<ReplModel>::empty(),
                mds: Seq::<ReplModel>::empty(),
            }),
    {
        let r = SubTemplateExpander {
            name,
            raw_replacements: Vec::new(),
            md_replacements: Vec::new(),
        };
        proof {
            assert(repl_views(r.raw_replacements@) =~= Seq::<ReplModel>::empty());
            assert(repl_views(r.md_replacements@) =~= Seq::<ReplModel>::empty());
        }
        r
    }

    /// replace placeholders named `name` of this instance with the given
    /// value, not interpreted as markdown
    pub fn set(&mut self, name: &'b str, value: &'s str)
        ensures
            final(self)@ == (SubExpModel {
                raws: old(self)@.raws.push(ReplModel { name: name@, value: value@ }),
                ..old(self)@
            }),
    {
        let ghost pre = repl_views(self.raw_replacements@);
        let rp = Replacement { name, value };
        self.raw_replacements.push(rp);
        proof {
            assert(repl_views(self.raw_replacements@) =~= pre.push(rp@));
        }
    }

    /// replace placeholders named `name` of this instance with the given
    /// value, interpreted as markdown
    pub fn set_md(&mut self, name: &'b str, value: &'s str)
        ensures
            final(self)@ == (SubExpModel {
                mds: old(self)@.mds.push(ReplModel { name: name@, value: value@ }),
                ..old(self)@
            }),
    {
        let ghost pre = repl_views(self.md_replacements@);
        let rp = Replacement { name, value };
        self.md_replacements.push(rp);
        proof {
            assert(repl_views(self.md_replacements@) =~= pre.push(rp@));
        }
    }
}

/// An expander of a [`TextTemplate`]: it holds a private working copy of
/// the template's text and the recorded bindings, and produces the
/// expanded text. The template itself stays untouched and reusable.
pub struct TextTemplateExpander<'s, 'b> {
    template: &'b TextTemplate<'s>,
    text: Text<'s>,
    sub_expansions: Vec<SubTemplateExpander<'s, 'b>>,
    md_replacements: Vec<Replacement<'s, 'b>>,
    lines_replacements: Vec<Replacement<'s, 'b>>,
    lines_md_replacements: Vec<Replacement<'s, 'b>>,
}

impl<'s, 'b> View for TextTemplateExpander<'s, 'b> {
    type V = ExpanderModel;

    closed spec fn view(&self) -> ExpanderModel {
        ExpanderModel {
            template: self.template@,
            text: self.text@,
            sub_exps: sub_exp_views(self.sub_expansions@),
            md_repls: repl_views(self.md_replacements@),
            line_repls: repl_views(self.lines_replacements@),
            line_md_repls: repl_views(self.lines_md_replacements@),
        }
    }
}

impl<'s> TextTemplate<'s> {
    /// a new expander of this template, with a fresh working copy of its
    /// text and no binding yet
    pub fn expander<'b>(&'b self) -> (r: TextTemplateExpander<'s, 'b>)
        ensures
            r@ == (ExpanderModel {
                template: self@,
                text: self@.text,
                sub_exps: Seq::<SubExpModel>::empty(),
                md_repls: Seq::<ReplModel>::empty(),
                line_repls: Seq::<ReplModel>::empty(),
                line_md_repls: Seq::<ReplModel>::empty(),
            }),
    {
        let r = TextTemplateExpander {
            template: self,
            text: self.text.clone(),
            sub_expansions: Vec::new(),
            md_replacements: Vec::new(),
            lines_replacements: Vec::new(),
            lines_md_replacements: Vec::new(),
        };
        proof {
            assert(sub_exp_views(r.sub_expansions@) =~= Seq::<SubExpModel>::empty());
            assert(repl_views(r.md_replacements@) =~= Seq::<ReplModel>::empty());
            assert(repl_views(r.lines_replacements@) =~= Seq::<ReplModel>::empty());
            assert(repl_views(r.lines_md_replacements@) =~= Seq::<ReplModel>::empty());
        }
        r
    }

    /// the index of the first repeatable region whose line range holds the
    /// line, if any
    fn get_sub_of_line(&self, line_idx: usize) -> (r: Option<usize>)
        ensures
            ({
                let s = sub_of_line(self@.sub_templates, 0, line_idx as int);
                match r {
                    Some(i) => s == Some(i as int),
                    None => s is None,
                }
            }),
    {
        let ghost subs = self@.sub_templates;
        let mut j: usize = 0;
        while j < self.sub_templates.len()
            invariant
                0 <= j <= self.sub_templates.len(),
                subs == self@.sub_templates,
                subs.len() == self.sub_templates@.len(),
                sub_of_line(subs, 0, line_idx as int) == sub_of_line(subs, j as int, line_idx as int),
            decreases self.sub_templates.len() - j,
        {
            let s = self.sub_templates[j];
            proof {
                assert(s@ == subs[j as int]);
            }
            if s.start_line_idx <= line_idx && line_idx - s.start_line_idx < s.line_count {
                return Some(j);
            }
            j += 1;
        }
        None
    }
}

impl<'s, 'b> TextTemplateExpander<'s, 'b> {
    /// replace every placeholder named `name` with the given value, not
    /// interpreted as markdown (stars, backquotes or pipes in it don't
    /// change the styling the template defined)
    pub fn set(&mut self, name: &str, value: &'s str)
        ensures
            final(self)@ == (ExpanderModel {
                text: set_in_text_model(
                    old(self)@.template.compound_args,
                    0,
                    old(self)@.text,
                    0,
                    name@,
                    value@,
                ),
                ..old(self)@
            }),
    {
        set_in_text(self.template, &mut self.text, 0, name, value);
    }

    /// replace every placeholder named `name` with the given value,
    /// interpreted as inline markdown when the expansion is built
    pub fn set_md(&mut self, name: &'b str, value: &'s str)
        ensures
            final(self)@ == (ExpanderModel {
                md_repls: old(self)@.md_repls.push(ReplModel { name: name@, value: value@ }),
                ..old(self)@
            }),
    {
        let ghost pre = repl_views(self.md_replacements@);
        let rp = Replacement { name, value };
        self.md_replacements.push(rp);
        proof {
            assert(repl_views(self.md_replacements@) =~= pre.push(rp@));
        }
    }

    /// replace the whole line holding a placeholder named `name` with one
    /// copy of that line per line of the value, the placeholder taking
    /// that line as its raw content
    pub fn set_lines(&mut self, name: &'b str, raw_lines: &'s str)
        ensures
            final(self)@ == (ExpanderModel {
                line_repls: old(self)@.line_repls.push(
                    ReplModel { name: name@, value: raw_lines@ },
                ),
                ..old(self)@
            }),
    {
        let ghost pre = repl_views(self.lines_replacements@);
        let rp = Replacement { name, value: raw_lines };
        self.lines_replacements.push(rp);
        proof {
            assert(repl_views(self.lines_replacements@) =~= pre.push(rp@));
        }
    }

    /// like [`Self::set_lines`], each line of the value interpreted as
    /// inline markdown
    pub fn set_lines_md(&mut self, name: &'b str, md: &'s str)
        ensures
            final(self)@ == (ExpanderModel {
                line_md_repls: old(self)@.line_md_repls.push(
                    ReplModel { name: name@, value: md@ },
                ),
                ..old(self)@
            }),
    {
        let ghost pre = repl_views(self.lines_md_replacements@);
        let rp = Replacement { name, value: md };
        self.lines_md_replacements.push(rp);
        proof {
            assert(repl_views(self.lines_md_replacements@) =~= pre.push(rp@));
        }
    }

    /// declare one instance of the repeatable region `name` and return its
    /// index, under which `sub_set` and `sub_set_md` bind its placeholders
    pub fn sub(&mut self, name: &'b str) -> (r: usize)
        ensures
            final(self)@ == (ExpanderModel {
                sub_exps: old(self)@.sub_exps.push(
                    SubExpModel {
                        name: name@,
                        raws: Seq::<ReplModel>::empty(),
                        mds: Seq::<ReplModel>::empty(),
                    },
                ),
                ..old(self)@
            }),
            r == old(self)@.sub_exps.len(),
    {
        let ghost pre = sub_exp_views(self.sub_expansions@);
        let idx = self.sub_expansions.len();
        let se = SubTemplateExpander {
            name,
            raw_replacements: Vec::new(),
            md_replacements: Vec::new(),
        };
        proof {
            assert(repl_views(se.raw_replacements@) =~= Seq::<ReplModel>::empty());
            assert(repl_views(se.md_replacements@) =~= Seq::<ReplModel>::empty());
        }
        self.sub_expansions.push(se);
        proof {
            assert(sub_exp_views(self.sub_expansions@) =~= pre.push(
                SubExpModel {
                    name: name@,
                    raws: Seq::<ReplModel>::empty(),
                    mds: Seq::<ReplModel>::empty(),
                },
            ));
        }
        idx
    }

    /// declare one already filled instance of a repeatable region
    pub fn add_sub(&mut self, sub_expander: SubTemplateExpander<'s, 'b>)
        ensures
            final(self)@ == (ExpanderModel {
                sub_exps: old(self)@.sub_exps.push(sub_expander@),
                ..old(self)@
            }),
    {
        let ghost pre = sub_exp_views(self.sub_expansions@);
        let ghost sv = sub_expander@;
        self.sub_expansions.push(sub_expander);
        proof {
            assert(sub_exp_views(self.sub_expansions@) =~= pre.push(sv));
        }
    }

    /// bind, in the region instance declared as `sub_idx`, the
    /// placeholders named `name` to the given raw value (instances that
    /// were never declared are ignored)
    pub fn sub_set(&mut self, sub_idx: usize, name: &'b str, value: &'s str)
        ensures
            final(self)@ == (ExpanderModel {
                sub_exps: (if sub_idx < old(self)@.sub_exps.len() {
                    old(self)@.sub_exps.update(
                        sub_idx as int,
                        SubExpModel {
                            raws: old(self)@.sub_exps[sub_idx as int].raws.push(
                                ReplModel { name: name@, value: value@ },
                            ),
                            ..old(self)@.sub_exps[sub_idx as int]
                        },
                    )
                } else {
                    old(self)@.sub_exps
                }),
                ..old(self)@
            }),
    {
        if sub_idx < self.sub_expansions.len() {
            let ghost pre = sub_exp_views(self.sub_expansions@);
            let mut se = self.sub_expansions.remove(sub_idx);
            se.set(name, value);
            self.sub_expansions.insert(sub_idx, se);
            proof {
                assert(sub_exp_views(self.sub_expansions@) =~= pre.update(sub_idx as int, se@));
            }
        }
    }

    /// bind, in the region instance declared as `sub_idx`, the
    /// placeholders named `name` to the given value, interpreted as inline
    /// markdown
    pub fn sub_set_md(&mut self, sub_idx: usize, name: &'b str, value: &'s str)
        ensures
            final(self)@ == (ExpanderModel {
                sub_exps: (if sub_idx < old(self)@.sub_exps.len() {
                    old(self)@.sub_exps.update(
                        sub_idx as int,
                        SubExpModel {
                            mds: old(self)@.sub_exps[sub_idx as int].mds.push(
                                ReplModel { name: name@, value: value@ },
                            ),
                            ..old(self)@.sub_exps[sub_idx as int]
                        },
                    )
                } else {
                    old(self)@.sub_exps
                }),
                ..old(self)@
            }),
    {
        if sub_idx < self.sub_expansions.len() {
            let ghost pre = sub_exp_views(self.sub_expansions@);
            let mut se = self.sub_expansions.remove(sub_idx);
            se.set_md(name, value);
            self.sub_expansions.insert(sub_idx, se);
            proof {
                assert(sub_exp_views(self.sub_expansions@) =~= pre.update(sub_idx as int, se@));
            }
        }
    }
}

/// insert the given lines into `text` at position `at`, in order
fn insert_lines_at<'s>(text: &mut Text<'s>, at: usize, lines_in: Text<'s>)
    requires
        at <= old(text)@.len(),
    ensures
        final(text)@ == old(text)@.take(at as int) + lines_in@ + old(text)@.skip(at as int),
{
    let ghost t0 = old(text)@;
    let ghost cp = lines_in@;
    let mut rest = lines_in;
    let total = rest.lines.len();
    let mut done: usize = 0;
    proof {
        assert(cp.take(0) =~= Seq::<LineModel>::empty());
        assert(t0.take(at as int) + cp.take(0) + t0.skip(at as int) =~= t0);
        assert(cp.skip(0) =~= cp);
    }
    while rest.lines.len() > 0
        invariant
            0 <= done <= total,
            total == cp.len(),
            at <= t0.len(),
            rest@ == cp.skip(done as int),
            text@ == t0.take(at as int) + cp.take(done as int) + t0.skip(at as int),
            at + done <= text@.len(),
        decreases rest.lines@.len(),
    {
        let ghost text_pre = text@;
        let ghost rest_pre = rest@;
        let ghost rlines_pre = rest.lines@;
        let l = rest.lines.remove(0);
        proof {
            assert(rest_pre.len() == rlines_pre.len());
            assert(rest_pre.len() == cp.len() - done);
            assert(done < cp.len());
            assert(l == rlines_pre[0]);
            assert(rest_pre[0] == rlines_pre[0]@);
            assert(rest_pre[0] == cp.skip(done as int)[0]);
            assert(cp.skip(done as int) == cp.subrange(done as int, cp.len() as int));
            assert(cp.subrange(done as int, cp.len() as int)[0] == cp[done as int]);
            assert(l@ == cp[done as int]);
            assert(rest@ =~= rest_pre.drop_first());
            assert(rest@ =~= cp.skip(done + 1));
        }
        let tl = text.lines.len();
        proof {
            assert(at + done <= tl);
        }
        text.lines.insert(at + done, l);
        proof {
            assert(text@ =~= text_pre.insert(at + done, l@));
            assert(text_pre.subrange(0, at + done) =~= t0.take(at as int) + cp.take(done as int));
            assert(text_pre.subrange(at + done, text_pre.len() as int) =~= t0.skip(at as int));
            assert(text_pre.insert(at + done, l@) == text_pre.subrange(0, at + done).push(l@)
                + text_pre.subrange(at + done, text_pre.len() as int));
            assert((t0.take(at as int) + cp.take(done as int)).push(l@) =~= t0.take(at as int)
                + cp.take(done + 1));
            assert(text@ =~= t0.take(at as int) + cp.take(done + 1) + t0.skip(at as int));
        }
        done += 1;
    }
    proof {
        assert(done == cp.len());
        assert(cp.take(cp.len() as int) =~= cp);
    }
}

/// replace the line at `idx` of `text` with the given lines
fn splice_at<'s>(text: &mut Text<'s>, idx: usize, copies: Vec<Line<'s>>)
    requires
        idx < old(text)@.len(),
    ensures
        final(text)@ == splice_lines(old(text)@, idx as int, crate::text::line_views(copies@)),
{
    let ghost t0 = old(text)@;
    let ghost cp = crate::text::line_views(copies@);
    text.lines.remove(idx);
    proof {
        assert(text@ =~= t0.remove(idx as int));
        assert(text@ =~= t0.take(idx as int) + t0.skip(idx + 1));
        assert(text@.take(idx as int) =~= t0.take(idx as int));
        assert(text@.skip(idx as int) =~= t0.skip(idx + 1));
    }
    insert_lines_at(text, idx, Text { lines: copies });
    proof {
        assert(text@ =~= t0.take(idx as int) + cp + t0.skip(idx + 1));
    }
}

impl<'s, 'b> TextTemplateExpander<'s, 'b> {
    /// build the expanded text: apply the markdown bindings (the ones
    /// aimed into a repeatable region deferred to that region's
    /// instances), splice the declared region instances in, then apply
    /// the line bindings. The raw `set` bindings were already applied to
    /// the working copy when they were recorded.
    pub fn expand(self) -> (r: Text<'s>)
        ensures
            r@ == expand_model(self@),
    {
        let ghost m = self@;
        let TextTemplateExpander {
            template,
            text,
            sub_expansions,
            md_replacements,
            lines_replacements,
            lines_md_replacements,
        } = self;
        let mut text = text;
        let ghost tpl = template@;
        let ghost mviews = repl_views(md_replacements@);
        let ghost sev = sub_exp_views(sub_expansions@);

        // the markdown pass: apply each binding to the slots outside the
        // regions, defer the others to their region
        let nsubs = template.sub_templates.len();
        let mut defered: Vec<Vec<Replacement<'s, 'b>>> = Vec::new();
        while defered.len() < nsubs
            invariant
                defered@.len() <= nsubs,
                forall|j: int|
                    0 <= j < defered@.len() ==> #[trigger] repl_views(defered@[j]@) == Seq::<
                        ReplModel,
                    >::empty(),
            decreases nsubs - defered@.len(),
        {
            defered.push(Vec::new());
        }
        let ghost empty_def = Seq::new(tpl.sub_templates.len(), |i: int| Seq::<ReplModel>::empty());
        proof {
            assert(defered_views(defered@) =~= empty_def);
        }
        let mut k: usize = template.compound_args.len();
        proof {
            assert(tpl.compound_args.len() == template.compound_args@.len());
        }
        while k > 0
            invariant
                0 <= k <= tpl.compound_args.len(),
                tpl == template@,
                tpl.compound_args.len() == template.compound_args@.len(),
                nsubs as int == tpl.sub_templates.len(),
                defered@.len() == nsubs,
                mviews == repl_views(md_replacements@),
                phase_direct(tpl, k as int, text@, defered_views(defered@), mviews)
                    == phase_direct(tpl, tpl.compound_args.len() as int, m.text, empty_def, mviews),
            decreases k,
        {
            k -= 1;
            let arg = template.compound_args[k];
            proof {
                assert(arg@ == tpl.compound_args[k as int]);
            }
            match first_match_exec(&md_replacements, arg.name) {
                Some(value) => {
                    match template.get_sub_of_line(arg.line_idx) {
                        Some(s) => {
                            if s < defered.len() {
                                let ghost dpre = defered_views(defered@);
                                let mut d = defered.remove(s);
                                proof {
                                    assert(repl_views(d@) == dpre[s as int]);
                                }
                                let rp = Replacement { name: arg.name, value };
                                let ghost dv = repl_views(d@);
                                d.push(rp);
                                proof {
                                    assert(repl_views(d@) =~= dv.push(rp@));
                                }
                                defered.insert(s, d);
                                proof {
                                    assert(defered_views(defered@) =~= dpre.update(
                                        s as int,
                                        dpre[s as int].push(
                                            ReplModel { name: arg@.name, value: value@ },
                                        ),
                                    ));
                                }
                            }
                        },
                        None => {
                            let replacing = Composite::from_inline(value).compounds;
                            if arg.line_idx < text.lines.len() {
                                let idx = arg.line_idx;
                                let ghost pre = text@;
                                let line = text.lines[idx].clone();
                                proof {
                                    assert(line@ == pre[idx as int]);
                                }
                                let new_line = line_md(line, arg, replacing);
                                text.lines.set(idx, new_line);
                                proof {
                                    assert(text@ =~= pre.update(
                                        idx as int,
                                        line_with_md(
                                            pre[idx as int],
                                            arg@,
                                            crate::line_parser::inline_model(value@).compounds,
                                        ),
                                    ));
                                }
                            }
                        },
                    }
                },
                None => {},
            }
        }
        let ghost pd = phase_direct(
            tpl,
            tpl.compound_args.len() as int,
            m.text,
            empty_def,
            mviews,
        );
        proof {
            assert(text@ == pd.text);
            assert(defered_views(defered@) == pd.defered);
        }

        // the region pass, from the last region toward the first
        let mut shifts: Vec<(usize, usize, usize)> = Vec::new();
        let mut sk: usize = template.sub_templates.len();
        proof {
            assert(shift_views(shifts@) =~= Seq::<(int, int, int)>::empty());
        }
        while sk > 0
            invariant
                0 <= sk <= tpl.sub_templates.len(),
                tpl == template@,
                tpl.sub_templates.len() == template.sub_templates@.len(),
                tpl.compound_args.len() == template.compound_args@.len(),
                defered@.len() as int == tpl.sub_templates.len(),
                defered_views(defered@) == pd.defered,
                sev == sub_exp_views(sub_expansions@),
                sev.len() == sub_expansions@.len(),
                phase_regions(tpl, sk as int, text@, pd.defered, sev, shift_views(shifts@))
                    == phase_regions(
                    tpl,
                    tpl.sub_templates.len() as int,
                    pd.text,
                    pd.defered,
                    sev,
                    Seq::empty(),
                ),
            decreases sk,
        {
            sk -= 1;
            let s = template.sub_templates[sk];
            proof {
                assert(s@ == tpl.sub_templates[sk as int]);
            }
            let start = s.start_line_idx;
            let count = s.line_count;
            if start <= text.lines.len() && count <= text.lines.len() - start {
                // drain the region's lines out of the working text
                let ghost t_pre = text@;
                let mut region_lines: Vec<Line<'s>> = Vec::new();
                let mut j: usize = 0;
                proof {
                    assert(crate::text::line_views(region_lines@) =~= t_pre.subrange(
                        start as int,
                        start as int,
                    ));
                    assert(text@ =~= t_pre.take(start as int) + t_pre.skip(start as int));
                }
                while j < count
                    invariant
                        0 <= j <= count,
                        start + count <= t_pre.len(),
                        text@ == t_pre.take(start as int) + t_pre.skip(start + j),
                        crate::text::line_views(region_lines@) == t_pre.subrange(
                            start as int,
                            start + j,
                        ),
                    decreases count - j,
                {
                    let ghost text_pre = text@;
                    let ghost reg_pre = crate::text::line_views(region_lines@);
                    let ghost tlines_pre = text.lines@;
                    let l = text.lines.remove(start);
                    proof {
                        assert(text_pre == crate::text::line_views(tlines_pre));
                        assert(tlines_pre.len() == text_pre.len());
                        assert(text_pre.len() == t_pre.len() - j);
                        assert(start < tlines_pre.len());
                        assert(l == tlines_pre[start as int]);
                        assert(text_pre == crate::text::line_views(tlines_pre));
                        assert(text_pre[start as int] == tlines_pre[start as int]@);
                        assert(l@ == t_pre[start + j]);
                        assert(text@ =~= text_pre.remove(start as int));
                        assert(text@ =~= t_pre.take(start as int) + t_pre.skip(start + j + 1));
                    }
                    region_lines.push(l);
                    proof {
                        assert(crate::text::line_views(region_lines@) =~= reg_pre.push(l@));
                        assert(crate::text::line_views(region_lines@) =~= t_pre.subrange(
                            start as int,
                            start + j + 1,
                        ));
                    }
                    j += 1;
                }
                let region_text = Text { lines: region_lines };
                let ghost region = t_pre.subrange(start as int, start + count);
                let ghost rest = t_pre.take(start as int) + t_pre.skip(start + count);
                let rest_len = text.lines.len();
                proof {
                    assert(text@ == rest);
                    assert(region_text@ == region);
                    assert(region.len() == count);
                }
                let ghost d_view = pd.defered[sk as int];
                proof {
                    assert(repl_views(defered@[sk as int]@) == d_view);
                }
                // splice the declared instances back, last declared first,
                // each inserted at the region's start
                let mut j2: usize = sub_expansions.len();
                while j2 > 0
                    invariant
                        0 <= j2 <= sev.len(),
                        tpl == template@,
                        tpl.compound_args.len() == template.compound_args@.len(),
                        sev == sub_exp_views(sub_expansions@),
                        sev.len() == sub_expansions@.len(),
                        d_view == repl_views(defered@[sk as int]@),
                        defered@.len() as int == tpl.sub_templates.len(),
                        0 <= sk < tpl.sub_templates.len(),
                        s@ == tpl.sub_templates[sk as int],
                        start as int == s@.start_line_idx,
                        count as int == s@.line_count,
                        count as int == region.len(),
                        start <= text@.len(),
                        rest_len as int == rest.len(),
                        region_text@ == region,
                        text@.len() >= rest.len(),
                        text@.len() - rest.len() == count_matches(sev, j2 as int, s@.name)
                            * s@.line_count,
                        insert_instances(tpl, s@, region, text@, sev, j2 as int, d_view)
                            == insert_instances(
                            tpl,
                            s@,
                            region,
                            rest,
                            sev,
                            sev.len() as int,
                            d_view,
                        ),
                    decreases j2,
                {
                    j2 -= 1;
                    let se = &sub_expansions[j2];
                    proof {
                        assert(se@ == sev[j2 as int]);
                    }
                    if str_eq(se.name, s.name) {
                        let mut sub_text = region_text.clone();
                        // this instance's raw bindings, in order
                        let ghost raws = se@.raws;
                        let ghost mds_view = se@.mds + d_view;
                        let mut rj: usize = 0;
                        while rj < se.raw_replacements.len()
                            invariant
                                0 <= rj <= raws.len(),
                                tpl == template@,
                                raws == repl_views(se.raw_replacements@),
                                raws.len() == se.raw_replacements@.len(),
                                instance_text(tpl, sub_text@, start as int, raws, rj as int, mds_view)
                                    == instance_text(tpl, region, start as int, raws, 0, mds_view),
                            decreases raws.len() - rj,
                        {
                            let rp = se.raw_replacements[rj];
                            proof {
                                assert(rp@ == raws[rj as int]);
                            }
                            set_in_text(template, &mut sub_text, start, rp.name, rp.value);
                            rj += 1;
                        }
                        // its markdown bindings, then the deferred ones
                        let mut mds: Vec<Replacement<'s, 'b>> = Vec::new();
                        let mut t: usize = 0;
                        proof {
                            assert(repl_views(mds@) =~= se@.mds.take(0));
                        }
                        while t < se.md_replacements.len()
                            invariant
                                0 <= t <= se.md_replacements@.len(),
                                se@.mds == repl_views(se.md_replacements@),
                                se@.mds.len() == se.md_replacements@.len(),
                                repl_views(mds@) == se@.mds.take(t as int),
                            decreases se.md_replacements@.len() - t,
                        {
                            let ghost mpre = repl_views(mds@);
                            let rp = se.md_replacements[t];
                            proof {
                                assert(rp@ == se@.mds[t as int]);
                            }
                            mds.push(rp);
                            proof {
                                assert(repl_views(mds@) =~= mpre.push(rp@));
                                assert(repl_views(mds@) =~= se@.mds.take(t + 1));
                            }
                            t += 1;
                        }
                        proof {
                            assert(se@.mds.take(se@.mds.len() as int) =~= se@.mds);
                        }
                        let dref = &defered[sk];
                        let mut t2: usize = 0;
                        proof {
                            assert(repl_views(mds@) + d_view.take(0) =~= repl_views(mds@));
                        }
                        while t2 < dref.len()
                            invariant
                                0 <= t2 <= d_view.len(),
                                d_view == repl_views(dref@),
                                d_view.len() == dref@.len(),
                                repl_views(mds@) == se@.mds + d_view.take(t2 as int),
                            decreases d_view.len() - t2,
                        {
                            let ghost mpre = repl_views(mds@);
                            let rp = dref[t2];
                            proof {
                                assert(rp@ == d_view[t2 as int]);
                            }
                            mds.push(rp);
                            proof {
                                assert(repl_views(mds@) =~= mpre.push(rp@));
                                assert(repl_views(mds@) =~= se@.mds + d_view.take(t2 + 1));
                            }
                            t2 += 1;
                        }
                        proof {
                            assert(d_view.take(d_view.len() as int) =~= d_view);
                            assert(repl_views(mds@) == mds_view);
                        }
                        set_all_md_in_text(template, &mut sub_text, start, &mds);
                        proof {
                            assert(sub_text@ == instance_text(
                                tpl,
                                region,
                                start as int,
                                raws,
                                0,
                                mds_view,
                            ));
                            lemma_instance_text_len(tpl, region, start as int, raws, 0, mds_view);
                            assert(sub_text@.len() == count);
                        }
                        let ghost t_before = text@;
                        let ghost inst = sub_text@;
                        let ghost cm_pre = count_matches(sev, j2 + 1, s@.name);
                        insert_lines_at(&mut text, start, sub_text);
                        proof {
                            assert(count_matches(sev, j2 as int, s@.name) == cm_pre + 1);
                            assert((cm_pre + 1) * s@.line_count == cm_pre * s@.line_count
                                + s@.line_count) by (nonlinear_arith);
                            assert(text@.len() - rest.len() == count_matches(sev, j2 as int, s@.name)
                                * s@.line_count);
                        }
                    }
                }
                proof {
                    assert(insert_instances(tpl, s@, region, text@, sev, 0, d_view) == text@);
                }
                let inserted = text.lines.len() - rest_len;
                proof {
                    assert(inserted as int == count_matches(sev, 0, s@.name) * s@.line_count);
                }
                let ghost shifts_pre = shift_views(shifts@);
                shifts.push((start, count, inserted));
                proof {
                    assert(shift_views(shifts@) =~= shifts_pre.push(
                        (start as int, count as int, inserted as int),
                    ));
                }
            }
        }
        let ghost pr = phase_regions(
            tpl,
            tpl.sub_templates.len() as int,
            pd.text,
            pd.defered,
            sev,
            Seq::empty(),
        );
        proof {
            assert(text@ == pr.0);
            assert(shift_views(shifts@) == pr.1);
        }

        // the line pass
        let ghost lrv = repl_views(lines_replacements@);
        let ghost lmv = repl_views(lines_md_replacements@);
        let mut k: usize = template.compound_args.len();
        while k > 0
            invariant
                0 <= k <= tpl.compound_args.len(),
                tpl == template@,
                tpl.compound_args.len() == template.compound_args@.len(),
                lrv == repl_views(lines_replacements@),
                lmv == repl_views(lines_md_replacements@),
                pr.1 == shift_views(shifts@),
                pr.1.len() == shifts@.len(),
                phase_lines(tpl, k as int, text@, pr.1, lrv, lmv) == phase_lines(
                    tpl,
                    tpl.compound_args.len() as int,
                    pr.0,
                    pr.1,
                    lrv,
                    lmv,
                ),
            decreases k,
        {
            k -= 1;
            let arg = template.compound_args[k];
            proof {
                assert(arg@ == tpl.compound_args[k as int]);
            }
            match template.get_sub_of_line(arg.line_idx) {
                Some(_) => {},
                None => {
                    // the line's position after the region pass
                    let cap: u128 = 0xffff_ffff_ffff_ffff;
                    let mut plus: u128 = 0;
                    let mut minus: u128 = 0;
                    let mut t: usize = 0;
                    while t < shifts.len()
                        invariant
                            0 <= t <= shifts@.len(),
                            pr.1 == shift_views(shifts@),
                            pr.1.len() == shifts@.len(),
                            cap == 0xffff_ffff_ffff_ffffu128,
                            plus <= t * cap,
                            minus <= t * cap,
                            plus as int - minus as int == shift_sum(pr.1, 0, arg@.line_idx)
                                - shift_sum(pr.1, t as int, arg@.line_idx),
                        decreases shifts@.len() - t,
                    {
                        let e = shifts[t];
                        proof {
                            assert((e.0 as int, e.1 as int, e.2 as int) == pr.1[t as int]);
                            assert((t + 1) * cap == t * cap + cap) by (nonlinear_arith);
                        }
                        if (e.0 as u128) + (e.1 as u128) <= arg.line_idx as u128 {
                            plus = plus + (e.2 as u128);
                            minus = minus + (e.1 as u128);
                        }
                        t += 1;
                    }
                    proof {
                        assert(plus <= cap * cap) by (nonlinear_arith)
                            requires plus <= shifts@.len() * cap && shifts@.len() <= cap && cap >= 0;
                        assert(minus <= cap * cap) by (nonlinear_arith)
                            requires minus <= shifts@.len() * cap && shifts@.len() <= cap && cap
                            >= 0;
                        assert(plus as int - minus as int == shift_sum(pr.1, 0, arg@.line_idx));
                    }
                    let li128 = arg.line_idx as u128;
                    let ghost idx_spec = arg@.line_idx + shift_sum(pr.1, 0, arg@.line_idx);
                    if li128 + plus >= minus && li128 + plus - minus < text.lines.len() as u128 {
                        let idx = (li128 + plus - minus) as usize;
                        proof {
                            assert(idx as int == idx_spec);
                        }
                        let ghost t_cur = text@;
                        let host = text.lines[idx].clone();
                        proof {
                            assert(host@ == t_cur[idx as int]);
                        }
                        match first_match_exec(&lines_replacements, arg.name) {
                            Some(v) => {
                                let values = split_lines(v);
                                let ghost vals = split_lines_model(v@);
                                let mut copies: Vec<Line<'s>> = Vec::new();
                                let mut t3: usize = 0;
                                while t3 < values.len()
                                    invariant
                                        0 <= t3 <= vals.len(),
                                        vals == crate::clean::str_views(values@),
                                        vals.len() == values@.len(),
                                        crate::text::line_views(copies@).len() == t3,
                                        forall|u: int|
                                            0 <= u < t3 ==> #[trigger] crate::text::line_views(
                                                copies@,
                                            )[u] == line_with_set(host@, arg@, vals[u]),
                                        text@ == t_cur,
                                        host@ == t_cur[idx as int],
                                        0 <= idx < t_cur.len(),
                                    decreases vals.len() - t3,
                                {
                                    let w = values[t3];
                                    proof {
                                        assert(w@ == vals[t3 as int]);
                                    }
                                    let nl = line_set(host.clone(), arg, w);
                                    let ghost cpre = crate::text::line_views(copies@);
                                    copies.push(nl);
                                    proof {
                                        assert(crate::text::line_views(copies@) =~= cpre.push(
                                            nl@,
                                        ));
                                    }
                                    t3 += 1;
                                }
                                proof {
                                    assert(crate::text::line_views(copies@)
                                        =~= lines_substituted_raw(host@, arg@, vals));
                                }
                                let ghost t_pre = text@;
                                splice_at(&mut text, idx, copies);
                                proof {
                                    assert(text@ == splice_lines(
                                        t_pre,
                                        idx_spec,
                                        lines_substituted_raw(t_pre[idx_spec], arg@, vals),
                                    ));
                                }
                            },
                            None => {
                                match first_match_exec(&lines_md_replacements, arg.name) {
                                    Some(v) => {
                                        let values = split_lines(v);
                                        let ghost vals = split_lines_model(v@);
                                        let mut copies: Vec<Line<'s>> = Vec::new();
                                        let mut t3: usize = 0;
                                        while t3 < values.len()
                                            invariant
                                                0 <= t3 <= vals.len(),
                                                vals == crate::clean::str_views(values@),
                                                vals.len() == values@.len(),
                                                crate::text::line_views(copies@).len() == t3,
                                                forall|u: int|
                                                    0 <= u < t3 ==> #[trigger] crate::text::line_views(
                                                        copies@,
                                                    )[u] == line_with_md(
                                                        host@,
                                                        arg@,
                                                        crate::line_parser::inline_model(
                                                            vals[u],
                                                        ).compounds,
                                                    ),
                                                text@ == t_cur,
                                                host@ == t_cur[idx as int],
                                                0 <= idx < t_cur.len(),
                                            decreases vals.len() - t3,
                                        {
                                            let w = values[t3];
                                            proof {
                                                assert(w@ == vals[t3 as int]);
                                            }
                                            let replacing = Composite::from_inline(w).compounds;
                                            let nl = line_md(host.clone(), arg, replacing);
                                            let ghost cpre = crate::text::line_views(copies@);
                                            copies.push(nl);
                                            proof {
                                                assert(crate::text::line_views(copies@)
                                                    =~= cpre.push(nl@));
                                            }
                                            t3 += 1;
                                        }
                                        proof {
                                            assert(crate::text::line_views(copies@)
                                                =~= lines_substituted_md(host@, arg@, vals));
                                        }
                                        let ghost t_pre = text@;
                                        splice_at(&mut text, idx, copies);
                                        proof {
                                            assert(text@ == splice_lines(
                                                t_pre,
                                                idx_spec,
                                                lines_substituted_md(
                                                    t_pre[idx_spec],
                                                    arg@,
                                                    vals,
                                                ),
                                            ));
                                        }
                                    },
                                    None => {},
                                }
                            },
                        }
                    }
                },
            }
        }
        proof {
            assert(text@ == expand_model(m));
        }
        text
    }
}

} // verus!
