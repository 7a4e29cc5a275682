//! Splitting raw text into lines, and normalizing the common indentation
//! of a multi-line string, as the parser consumes it.

use vstd::prelude::*;
use vstd::string::StrSliceExecFns;

use crate::compound::is_ws;

verus! {

/// The ghost values of a sequence of borrowed strings.
pub open spec fn str_views<'s>(s: Seq<&'s str>) -> Seq<Seq<char>> {
    s.map_values(|l: &'s str| l@)
}

/// The position of the first newline of `s` at or after `i`, or the length
/// of `s` when there is none.
pub open spec fn newline_at(s: Seq<char>, i: int) -> int
    decreases s.len() - i,
{
    if i >= s.len() {
        s.len() as int
    } else if s[i] == '\n' {
        i
    } else {
        newline_at(s, i + 1)
    }
}

pub proof fn lemma_newline_at_bounds(s: Seq<char>, i: int)
    requires
        0 <= i <= s.len(),
    ensures
        i <= newline_at(s, i) <= s.len(),
        newline_at(s, i) < s.len() ==> s[newline_at(s, i)] == '\n',
    decreases s.len() - i,
{
    if i < s.len() && s[i] != '\n' {
        lemma_newline_at_bounds(s, i + 1);
    }
}

/// One line of `s` ends just before its newline, or, when the newline
/// closes a `\r\n` pair, just before the carriage return.
pub open spec fn line_end(s: Seq<char>, pos: int, j: int) -> int {
    if j > pos && s[j - 1] == '\r' {
        j - 1
    } else {
        j
    }
}

/// The lines of `s` from position `pos` on: segments split at `\n` (a
/// `\r\n` pair counts as one terminator), the final terminator optional.
pub open spec fn split_from(s: Seq<char>, pos: int) -> Seq<Seq<char>>
    decreases s.len() - pos,
    when 0 <= pos
    via split_from_dec
{
    if pos >= s.len() {
        Seq::empty()
    } else {
        let j = newline_at(s, pos);
        if j >= s.len() {
            seq![s.subrange(pos, s.len() as int)]
        } else {
            seq![s.subrange(pos, line_end(s, pos, j))] + split_from(s, j + 1)
        }
    }
}

#[via_fn]
proof fn split_from_dec(s: Seq<char>, pos: int) {
    if 0 <= pos < s.len() {
        lemma_newline_at_bounds(s, pos);
    }
}

/// The lines of `s`.
pub open spec fn split_lines_model(s: Seq<char>) -> Seq<Seq<char>> {
    split_from(s, 0)
}

/// The position of the first newline of `md` at or after `from`, or the
/// end of `md`.
fn find_newline(md: &str, from: usize) -> (r: usize)
    requires
        from <= md@.len(),
    ensures
        r == newline_at(md@, from as int),
        from <= r <= md@.len(),
        r < md@.len() ==> md@[r as int] == '\n',
{
    let n = md.unicode_len();
    let mut i = from;
    while i < n
        invariant
            from <= i <= n,
            n == md@.len(),
            newline_at(md@, from as int) == newline_at(md@, i as int),
        decreases n - i,
    {
        if md.get_char(i) == '\n' {
            return i;
        }
        i += 1;
    }
    i
}

/// split a text into its lines
pub fn split_lines<'s>(md: &'s str) -> (r: Vec<&'s str>)
    ensures
        str_views(r@) == split_lines_model(md@),
{
    let n = md.unicode_len();
    let mut r: Vec<&'s str> = Vec::new();
    let mut pos: usize = 0;
    proof {
        assert(str_views(r@) =~= Seq::<Seq<char>>::empty());
    }
    while pos < n
        invariant
            0 <= pos <= n,
            n == md@.len(),
            split_lines_model(md@) == str_views(r@) + split_from(md@, pos as int),
        decreases n - pos,
    {
        let ghost before = str_views(r@);
        let j = find_newline(md, pos);
        if j < n {
            let e = if j > pos && md.get_char(j - 1) == '\r' {
                j - 1
            } else {
                j
            };
            let line = md.substring_char(pos, e);
            r.push(line);
            proof {
                assert(str_views(r@) =~= before.push(line@));
                assert(str_views(r@) + split_from(md@, j + 1) =~= before + split_from(
                    md@,
                    pos as int,
                ));
            }
            pos = j + 1;
        } else {
            let line = md.substring_char(pos, n);
            r.push(line);
            proof {
                assert(str_views(r@) =~= before.push(line@));
                assert(str_views(r@) + split_from(md@, n as int) =~= before + split_from(
                    md@,
                    pos as int,
                ));
            }
            pos = n;
        }
    }
    proof {
        assert(str_views(r@) + split_from(md@, pos as int) =~= str_views(r@));
    }
    r
}

/// Whether the line holds nothing but whitespace.
pub open spec fn is_blank(s: Seq<char>) -> bool {
    forall|j: int| 0 <= j < s.len() ==> is_ws(s[j])
}

fn is_blank_exec(line: &str) -> (r: bool)
    ensures
        r == is_blank(line@),
{
    let n = line.unicode_len();
    let mut i: usize = 0;
    while i < n
        invariant
            0 <= i <= n,
            n == line@.len(),
            forall|j: int| 0 <= j < i ==> is_ws(line@[j]),
        decreases n - i,
    {
        if !line.get_char(i).is_whitespace() {
            return false;
        }
        i += 1;
    }
    true
}

/// The number of space characters at the start of the line.
pub open spec fn leading_spaces(s: Seq<char>) -> int
    decreases s.len(),
{
    if s.len() == 0 || s[0] != ' ' {
        0
    } else {
        1 + leading_spaces(s.drop_first())
    }
}

proof fn lemma_leading_spaces_is(s: Seq<char>, k: int)
    requires
        0 <= k <= s.len(),
        forall|j: int| 0 <= j < k ==> s[j] == ' ',
        k < s.len() ==> s[k] != ' ',
    ensures
        leading_spaces(s) == k,
    decreases s.len(),
{
    if k > 0 {
        let t = s.drop_first();
        assert(forall|j: int| 0 <= j < k - 1 ==> s[j + 1] == t[j]);
        lemma_leading_spaces_is(t, k - 1);
    }
}

fn leading_spaces_exec(line: &str) -> (r: usize)
    ensures
        r == leading_spaces(line@),
        r <= line@.len(),
{
    let n = line.unicode_len();
    let mut i: usize = 0;
    while i < n
        invariant
            0 <= i <= n,
            n == line@.len(),
            forall|j: int| 0 <= j < i ==> line@[j] == ' ',
        decreases n - i,
    {
        if line.get_char(i) != ' ' {
            proof {
                lemma_leading_spaces_is(line@, i as int);
            }
            return i;
        }
        i += 1;
    }
    proof {
        lemma_leading_spaces_is(line@, n as int);
    }
    n
}

/// The smallest number of leading spaces of the non-blank lines, or -1
/// when every line is blank.
pub open spec fn min_indent(lines: Seq<Seq<char>>) -> int
    decreases lines.len(),
{
    if lines.len() == 0 {
        -1
    } else {
        let rest = min_indent(lines.drop_first());
        let cur = if is_blank(lines[0]) {
            -1
        } else {
            leading_spaces(lines[0])
        };
        if cur < 0 {
            rest
        } else if rest < 0 {
            cur
        } else if cur <= rest {
            cur
        } else {
            rest
        }
    }
}

/// The line without its first `n` characters (or all of them when it is
/// shorter).
pub open spec fn dedent_line(s: Seq<char>, n: int) -> Seq<char> {
    s.skip(if n <= s.len() { n } else { s.len() as int })
}

/// The lines without a first blank line and without a last blank line.
pub open spec fn trim_outer_blanks(lines: Seq<Seq<char>>) -> Seq<Seq<char>> {
    let a = if lines.len() > 0 && is_blank(lines[0]) {
        lines.drop_first()
    } else {
        lines
    };
    if a.len() > 0 && is_blank(a[a.len() - 1]) {
        a.drop_last()
    } else {
        a
    }
}

/// What [`lines`] returns: the lines of `md`, outer blank lines dropped,
/// and the common indentation of the non-blank lines removed everywhere.
pub open spec fn clean_model(md: Seq<char>) -> Seq<Seq<char>> {
    let t = trim_outer_blanks(split_lines_model(md));
    let ind = min_indent(t);
    let n: int = if ind < 0 {
        0
    } else {
        ind
    };
    t.map_values(|l: Seq<char>| dedent_line(l, n))
}

/// split a text into lines, removing a first and a last blank line and
/// the superfluous common indentation
pub fn lines<'s>(md: &'s str) -> (r: Vec<&'s str>)
    ensures
        str_views(r@) == clean_model(md@),
{
    let mut lines = split_lines(md);
    if lines.len() > 0 && is_blank_exec(lines[0]) {
        let ghost before = str_views(lines@);
        lines.remove(0);
        proof {
            assert(str_views(lines@) =~= before.drop_first());
        }
    }
    if lines.len() > 0 && is_blank_exec(lines[lines.len() - 1]) {
        let ghost before = str_views(lines@);
        lines.pop();
        proof {
            assert(str_views(lines@) =~= before.drop_last());
        }
    }
    let ghost t = str_views(lines@);
    proof {
        assert(t == trim_outer_blanks(split_lines_model(md@)));
    }
    // the common indentation of the non-blank lines, walking backward so
    // the running minimum matches the head recursion of `min_indent`
    let mut ind: Option<usize> = None;
    let mut i = lines.len();
    proof {
        assert(t.skip(i as int) =~= Seq::<Seq<char>>::empty());
    }
    while i > 0
        invariant
            0 <= i <= lines.len(),
            t == str_views(lines@),
            match ind {
                None => min_indent(t.skip(i as int)) == -1,
                Some(v) => v == min_indent(t.skip(i as int)),
            },
        decreases i,
    {
        i -= 1;
        let cur: Option<usize> = if is_blank_exec(lines[i]) {
            None
        } else {
            Some(leading_spaces_exec(lines[i]))
        };
        ind = match (cur, ind) {
            (None, rest) => rest,
            (Some(c), None) => Some(c),
            (Some(c), Some(r)) => Some(if c <= r {
                c
            } else {
                r
            }),
        };
        proof {
            assert(t.skip(i as int).drop_first() =~= t.skip(i + 1));
        }
    }
    proof {
        assert(t.skip(0) =~= t);
    }
    let n: usize = match ind {
        None => 0,
        Some(v) => v,
    };
    // remove the indentation from every line
    let mut r: Vec<&'s str> = Vec::new();
    let mut i: usize = 0;
    while i < lines.len()
        invariant
            0 <= i <= lines.len(),
            t == str_views(lines@),
            n as int == (if min_indent(t) < 0 { 0int } else { min_indent(t) }),
            str_views(r@).len() == i,
            forall|j: int| 0 <= j < i ==> #[trigger] str_views(r@)[j] == dedent_line(t[j], n as int),
        decreases lines.len() - i,
    {
        let line = lines[i];
        let len = line.unicode_len();
        let from = if n <= len {
            n
        } else {
            len
        };
        let d = line.substring_char(from, len);
        let ghost rs = str_views(r@);
        proof {
            assert(line@ == t[i as int]);
            assert(d@ =~= dedent_line(line@, n as int));
        }
        r.push(d);
        proof {
            assert(str_views(r@) =~= rs.push(d@));
        }
        i += 1;
    }
    proof {
        assert(str_views(r@) =~= clean_model(md@));
    }
    r
}

} // verus!
