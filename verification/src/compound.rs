use vstd::prelude::*;
use vstd::string::StrSliceExecFns;

verus! {

/// Left, Center, Right or Unspecified
#[derive(Debug, PartialEq, Eq, Clone, Copy, Structural)]
pub enum Alignment {
    Unspecified,
    Left,
    Center,
    Right,
}

impl Default for Alignment {
    fn default() -> (r: Self)
        ensures
            r == Alignment::Unspecified,
    {
        Alignment::Unspecified
    }
}

impl Alignment {
    /// the markdown fragment which, at the start of a column of a table
    /// rule line, declares this alignment
    pub fn col_spec(self) -> (r: &'static str)
        ensures
            r@ == (match self {
                Alignment::Left => "|:-"@,
                Alignment::Right => "|-:"@,
                Alignment::Center => "|:-:"@,
                Alignment::Unspecified => "|-"@,
            }),
    {
        match self {
            Alignment::Left => "|:-",
            Alignment::Right => "|-:",
            Alignment::Center => "|:-:",
            Alignment::Unspecified => "|-",
        }
    }
}

/// Whether a character beyond the ASCII range counts as whitespace: a
/// name for what `char::is_whitespace` returns there.
pub uninterp spec fn is_ws_beyond_ascii(c: char) -> bool;

/// Whether a character counts as whitespace when a span is trimmed: the
/// Unicode `White_Space` property. Within ASCII these are exactly the
/// space, the tab, the line feed, the carriage return and the two
/// vertical-space controls; beyond ASCII the set keeps only a name.
pub open spec fn is_ws(c: char) -> bool {
    if c <= '~' {
        c == ' ' || c == '\t' || c == '\n' || c == '\r' || c == '\u{000B}' || c == '\u{000C}'
    } else {
        is_ws_beyond_ascii(c)
    }
}

/// Relies on char::is_whitespace: true exactly on the characters with the
/// Unicode `White_Space` property, a function of the character alone. Its
/// documentation gives the ASCII members of that set, so [`is_ws`] spells
/// them out and only the behaviour beyond ASCII is taken on trust.
pub assume_specification[ char::is_whitespace ](c: char) -> (r: bool)
    ensures
        r == is_ws(c),
        c > '~' ==> r == is_ws_beyond_ascii(c),
;

/// The number of whitespace characters at the start of `s`.
pub open spec fn leading_ws(s: Seq<char>) -> int
    decreases s.len(),
{
    if s.len() == 0 || !is_ws(s[0]) {
        0
    } else {
        1 + leading_ws(s.drop_first())
    }
}

/// The number of whitespace characters at the end of `s`.
pub open spec fn trailing_ws(s: Seq<char>) -> int
    decreases s.len(),
{
    if s.len() == 0 || !is_ws(s[s.len() - 1]) {
        0
    } else {
        1 + trailing_ws(s.drop_last())
    }
}

/// `s` without its leading and trailing whitespace.
pub open spec fn ws_trimmed(s: Seq<char>) -> Seq<char> {
    let l = s.skip(leading_ws(s));
    l.take(l.len() - trailing_ws(l))
}

pub broadcast proof fn lemma_leading_ws_le(s: Seq<char>)
    ensures
        0 <= #[trigger] leading_ws(s) <= s.len(),
    decreases s.len(),
{
    if s.len() != 0 && is_ws(s[0]) {
        lemma_leading_ws_le(s.drop_first());
    }
}

pub broadcast proof fn lemma_trailing_ws_le(s: Seq<char>)
    ensures
        0 <= #[trigger] trailing_ws(s) <= s.len(),
    decreases s.len(),
{
    if s.len() != 0 && is_ws(s[s.len() - 1]) {
        lemma_trailing_ws_le(s.drop_last());
    }
}

/// The characters counted by `leading_ws` are whitespace, and the first
/// one past them, if any, is not.
pub proof fn lemma_leading_ws_props(s: Seq<char>)
    ensures
        forall|j: int| 0 <= j < leading_ws(s) ==> #[trigger] is_ws(s[j]),
        leading_ws(s) < s.len() ==> !is_ws(s[leading_ws(s)]),
    decreases s.len(),
{
    lemma_leading_ws_le(s);
    if s.len() != 0 && is_ws(s[0]) {
        let t = s.drop_first();
        lemma_leading_ws_le(t);
        lemma_leading_ws_props(t);
        assert forall|j: int| 0 <= j < leading_ws(s) implies #[trigger] is_ws(s[j]) by {
            if j > 0 {
                assert(s[j] == t[j - 1]);
            }
        }
        if leading_ws(s) < s.len() {
            assert(s[leading_ws(s)] == t[leading_ws(t)]);
        }
    }
}

/// The characters counted by `trailing_ws` are whitespace, and the one
/// just before them, if any, is not.
pub proof fn lemma_trailing_ws_props(s: Seq<char>)
    ensures
        forall|j: int| s.len() - trailing_ws(s) <= j < s.len() ==> #[trigger] is_ws(s[j]),
        trailing_ws(s) < s.len() ==> !is_ws(s[s.len() - trailing_ws(s) - 1]),
    decreases s.len(),
{
    lemma_trailing_ws_le(s);
    if s.len() != 0 && is_ws(s[s.len() - 1]) {
        let t = s.drop_last();
        lemma_trailing_ws_le(t);
        lemma_trailing_ws_props(t);
        assert forall|j: int| s.len() - trailing_ws(s) <= j < s.len() implies #[trigger] is_ws(
            s[j],
        ) by {
            if j < s.len() - 1 {
                assert(s[j] == t[j]);
            }
        }
        if trailing_ws(s) < s.len() {
            assert(s[s.len() - trailing_ws(s) - 1] == t[t.len() - trailing_ws(t) - 1]);
        }
    }
}

/// `leading_ws` is pinned by any split point `k` between the whitespace
/// prefix and the rest.
pub proof fn lemma_leading_ws_is(s: Seq<char>, k: int)
    requires
        0 <= k <= s.len(),
        forall|j: int| 0 <= j < k ==> is_ws(s[j]),
        k < s.len() ==> !is_ws(s[k]),
    ensures
        leading_ws(s) == k,
    decreases s.len(),
{
    if k > 0 {
        let t = s.drop_first();
        assert(forall|j: int| 0 <= j < k - 1 ==> s[j + 1] == t[j]);
        lemma_leading_ws_is(t, k - 1);
    }
}

/// `trailing_ws` is pinned by any split point: if the last `k` characters
/// are whitespace and the one before them is not, the count is `k`.
pub proof fn lemma_trailing_ws_is(s: Seq<char>, k: int)
    requires
        0 <= k <= s.len(),
        forall|j: int| s.len() - k <= j < s.len() ==> is_ws(s[j]),
        k < s.len() ==> !is_ws(s[s.len() - k - 1]),
    ensures
        trailing_ws(s) == k,
    decreases s.len(),
{
    if k > 0 {
        let t = s.drop_last();
        lemma_trailing_ws_is(t, k - 1);
    }
}

/// The ghost value of a [`Compound`]: the characters it spans, and its
/// four style flags.
pub struct CompoundModel {
    pub content: Seq<char>,
    pub bold: bool,
    pub italic: bool,
    pub code: bool,
    pub strikeout: bool,
}

impl CompoundModel {
    /// The same span with all style flags cleared.
    pub open spec fn unstyled(content: Seq<char>) -> CompoundModel {
        CompoundModel { content, bold: false, italic: false, code: false, strikeout: false }
    }

    /// Whether both values carry the same style flags.
    pub open spec fn same_style(self, other: CompoundModel) -> bool {
        &&& self.bold == other.bold
        &&& self.italic == other.italic
        &&& self.code == other.code
        &&& self.strikeout == other.strikeout
    }
}

/// The ghost values of a sequence of compounds.
pub open spec fn compound_views<'s>(s: Seq<Compound<'s>>) -> Seq<CompoundModel> {
    s.map_values(|c: Compound<'s>| c@)
}

/// A Compound is a part of a line with a consistent styling.
/// It can be part of a word, several words, some inline code, or even the
/// whole line.
///
/// It never copies text: it spans a character range `[start, end)` of a
/// shared source string, which must outlive every structure derived from it.
#[derive(Debug, Clone, Copy)]
pub struct Compound<'s> {
    src: &'s str,
    start: usize,
    end: usize,
    bold: bool,
    italic: bool,
    code: bool,
    strikeout: bool,
}

impl<'s> View for Compound<'s> {
    type V = CompoundModel;

    closed spec fn view(&self) -> CompoundModel {
        CompoundModel {
            content: self.src@.subrange(self.start as int, self.end as int),
            bold: self.bold,
            italic: self.italic,
            code: self.code,
            strikeout: self.strikeout,
        }
    }
}

impl<'s> Compound<'s> {
    /// The span offsets are character indices and stay inside the source.
    #[verifier::type_invariant]
    spec fn wf(self) -> bool {
        self.start <= self.end <= self.src@.len()
    }

    /// make a raw unstyled compound spanning a whole string.
    /// Involves no parsing
    pub fn raw_str(src: &'s str) -> (r: Compound<'s>)
        ensures
            r@ == CompoundModel::unstyled(src@),
    {
        let end = src.unicode_len();
        let r = Compound { src, start: 0, end, bold: false, italic: false, code: false, strikeout: false };
        proof {
            assert(r@.content =~= src@);
        }
        r
    }

    /// make a raw unstyled compound from a character range of a string.
    /// Involves no parsing
    pub fn raw_part(src: &'s str, start: usize, end: usize) -> (r: Compound<'s>)
        requires
            start <= end <= src@.len(),
        ensures
            r@ == CompoundModel::unstyled(src@.subrange(start as int, end as int)),
    {
        Compound { src, start, end, bold: false, italic: false, code: false, strikeout: false }
    }

    pub fn new(
        src: &'s str,
        start: usize,
        end: usize,
        bold: bool,
        italic: bool,
        code: bool,
        strikeout: bool,
    ) -> (r: Compound<'s>)
        requires
            start <= end <= src@.len(),
        ensures
            r@ == (CompoundModel {
                content: src@.subrange(start as int, end as int),
                bold,
                italic,
                code,
                strikeout,
            }),
    {
        Compound { src, start, end, bold, italic, code, strikeout }
    }

    /// change the content but keep the style flags
    pub fn set_str(&mut self, src: &'s str)
        ensures
            final(self)@ == (CompoundModel { content: src@, ..old(self)@ }),
    {
        let end = src.unicode_len();
        *self = Compound { src, start: 0, end, ..*self };
        proof {
            assert(self@.content =~= src@);
        }
    }

    /// return a sub part of the compound, with the same styling.
    /// `r_start` is relative: 0 is the index of the first character of
    /// this compound.
    pub fn sub(&self, r_start: usize, r_end: usize) -> (r: Compound<'s>)
        requires
            r_start <= r_end <= self@.content.len(),
        ensures
            r@ == (CompoundModel {
                content: self@.content.subrange(r_start as int, r_end as int),
                ..self@
            }),
    {
        proof {
            use_type_invariant(&*self);
        }
        let r = Compound { start: self.start + r_start, end: self.start + r_end, ..*self };
        proof {
            assert(r@.content =~= self@.content.subrange(r_start as int, r_end as int));
        }
        r
    }

    /// return a sub part at the end of the compound, with the same styling.
    /// `r_start` is relative: 0 gives a copy of this compound.
    pub fn tail(&self, r_start: usize) -> (r: Compound<'s>)
        requires
            r_start <= self@.content.len(),
        ensures
            r@ == (CompoundModel { content: self@.content.skip(r_start as int), ..self@ }),
    {
        proof {
            use_type_invariant(&*self);
        }
        let r = Compound { start: self.start + r_start, ..*self };
        proof {
            assert(r@.content =~= self@.content.skip(r_start as int));
        }
        r
    }

    /// like [`Compound::sub`], but clamps the range to the span instead of
    /// requiring it to fit
    pub fn sub_chars(&self, r_start: usize, r_end: usize) -> (r: Compound<'s>)
        ensures
            r@ == (CompoundModel {
                content: ({
                    let n = self@.content.len() as int;
                    let e = if r_end <= n { r_end as int } else { n };
                    let s = if r_start <= e { r_start as int } else { e };
                    self@.content.subrange(s, e)
                }),
                ..self@
            }),
    {
        let n = self.char_length();
        let e = if r_end <= n { r_end } else { n };
        let s = if r_start <= e { r_start } else { e };
        self.sub(s, e)
    }

    /// like [`Compound::tail`], but clamps the start to the span instead of
    /// requiring it to fit
    pub fn tail_chars(&self, r_start: usize) -> (r: Compound<'s>)
        ensures
            r@ == (CompoundModel {
                content: ({
                    let n = self@.content.len() as int;
                    let s = if r_start <= n { r_start as int } else { n };
                    self@.content.skip(s)
                }),
                ..self@
            }),
    {
        let n = self.char_length();
        let s = if r_start <= n { r_start } else { n };
        self.tail(s)
    }

    pub fn bold(self) -> (r: Compound<'s>)
        ensures
            r@ == (CompoundModel { bold: true, ..self@ }),
    {
        proof {
            use_type_invariant(&self);
        }
        Compound { bold: true, ..self }
    }

    pub fn italic(self) -> (r: Compound<'s>)
        ensures
            r@ == (CompoundModel { italic: true, ..self@ }),
    {
        proof {
            use_type_invariant(&self);
        }
        Compound { italic: true, ..self }
    }

    pub fn code(self) -> (r: Compound<'s>)
        ensures
            r@ == (CompoundModel { code: true, ..self@ }),
    {
        proof {
            use_type_invariant(&self);
        }
        Compound { code: true, ..self }
    }

    pub fn strikeout(self) -> (r: Compound<'s>)
        ensures
            r@ == (CompoundModel { strikeout: true, ..self@ }),
    {
        proof {
            use_type_invariant(&self);
        }
        Compound { strikeout: true, ..self }
    }

    pub fn set_bold(&mut self, bold: bool)
        ensures
            final(self)@ == (CompoundModel { bold, ..old(self)@ }),
    {
        proof {
            use_type_invariant(&*self);
        }
        *self = Compound { bold, ..*self };
    }

    pub fn set_italic(&mut self, italic: bool)
        ensures
            final(self)@ == (CompoundModel { italic, ..old(self)@ }),
    {
        proof {
            use_type_invariant(&*self);
        }
        *self = Compound { italic, ..*self };
    }

    pub fn set_code(&mut self, code: bool)
        ensures
            final(self)@ == (CompoundModel { code, ..old(self)@ }),
    {
        proof {
            use_type_invariant(&*self);
        }
        *self = Compound { code, ..*self };
    }

    pub fn set_strikeout(&mut self, strikeout: bool)
        ensures
            final(self)@ == (CompoundModel { strikeout, ..old(self)@ }),
    {
        proof {
            use_type_invariant(&*self);
        }
        *self = Compound { strikeout, ..*self };
    }

    pub fn is_bold(&self) -> (r: bool)
        ensures
            r == self@.bold,
    {
        self.bold
    }

    pub fn is_italic(&self) -> (r: bool)
        ensures
            r == self@.italic,
    {
        self.italic
    }

    pub fn is_code(&self) -> (r: bool)
        ensures
            r == self@.code,
    {
        self.code
    }

    pub fn is_strikeout(&self) -> (r: bool)
        ensures
            r == self@.strikeout,
    {
        self.strikeout
    }

    /// the characters spanned by this compound, as a borrow of the source
    pub fn as_str(&self) -> (r: &'s str)
        ensures
            r@ == self@.content,
    {
        proof {
            use_type_invariant(&*self);
        }
        self.src.substring_char(self.start, self.end)
    }

    /// the number of characters of the span (which may be less than its
    /// number of bytes)
    pub fn char_length(&self) -> (r: usize)
        ensures
            r == self@.content.len(),
    {
        proof {
            use_type_invariant(&*self);
        }
        self.end - self.start
    }

    pub fn is_empty(&self) -> (r: bool)
        ensures
            r == (self@.content.len() == 0),
    {
        proof {
            use_type_invariant(&*self);
        }
        self.start >= self.end
    }

    /// remove the whitespace characters at the start of the span
    pub fn trim_left_spaces(&mut self)
        ensures
            final(self)@ == (CompoundModel {
                content: old(self)@.content.skip(leading_ws(old(self)@.content)),
                ..old(self)@
            }),
    {
        proof {
            use_type_invariant(&*self);
        }
        let ghost c0 = self@.content;
        let mut i = self.start;
        let mut stopped = false;
        while i < self.end && !stopped
            invariant
                self == old(self),
                self.wf(),
                self.start <= i <= self.end,
                forall|j: int| 0 <= j < i - self.start ==> #[trigger] is_ws(c0[j]),
                c0 == self@.content,
                stopped ==> i < self.end && !is_ws(c0[i - self.start]),
            decreases self.end - i + (if stopped { 0int } else { 1int }),
        {
            let c = self.src.get_char(i);
            if c.is_whitespace() {
                i += 1;
            } else {
                stopped = true;
            }
        }
        proof {
            if stopped {
                lemma_leading_ws_is(c0, i - self.start);
            } else {
                lemma_leading_ws_is(c0, c0.len() as int);
            }
        }
        *self = Compound { start: i, ..*self };
        proof {
            assert(self@.content =~= c0.skip(leading_ws(c0)));
        }
    }

    /// remove the whitespace characters at the end of the span
    pub fn trim_right_spaces(&mut self)
        ensures
            final(self)@ == (CompoundModel {
                content: ({
                    let c = old(self)@.content;
                    c.take(c.len() - trailing_ws(c))
                }),
                ..old(self)@
            }),
    {
        proof {
            use_type_invariant(&*self);
        }
        let ghost c0 = self@.content;
        let mut i = self.end;
        let mut stopped = false;
        while i > self.start && !stopped
            invariant
                self == old(self),
                self.wf(),
                self.start <= i <= self.end,
                forall|j: int| i - self.start <= j < c0.len() ==> #[trigger] is_ws(c0[j]),
                c0 == self@.content,
                stopped ==> i > self.start && !is_ws(c0[i - 1 - self.start]),
            decreases i - self.start + (if stopped { 0int } else { 1int }),
        {
            let c = self.src.get_char(i - 1);
            if c.is_whitespace() {
                i -= 1;
            } else {
                stopped = true;
            }
        }
        proof {
            if stopped {
                lemma_trailing_ws_is(c0, self.end - i);
            } else {
                lemma_trailing_ws_is(c0, c0.len() as int);
            }
        }
        *self = Compound { end: i, ..*self };
        proof {
            assert(self@.content =~= c0.take(c0.len() - trailing_ws(c0)));
        }
    }

    /// remove the whitespace characters at both ends of the span
    pub fn trim_spaces(&mut self)
        ensures
            final(self)@ == (CompoundModel {
                content: ws_trimmed(old(self)@.content),
                ..old(self)@
            }),
    {
        self.trim_left_spaces();
        self.trim_right_spaces();
    }
}

impl<'s> PartialEq for Compound<'s> {
    /// Two compounds are equal when they span the same characters with the
    /// same styling, wherever those characters live.
    fn eq(&self, other: &Compound<'s>) -> (r: bool) {
        proof {
            use_type_invariant(&*self);
            use_type_invariant(&*other);
        }
        if self.bold != other.bold || self.italic != other.italic || self.code != other.code
            || self.strikeout != other.strikeout {
            return false;
        }
        let n = self.end - self.start;
        if n != other.end - other.start {
            proof {
                assert(self@.content.len() != other@.content.len());
            }
            return false;
        }
        let mut i: usize = 0;
        while i < n
            invariant
                self.wf(),
                other.wf(),
                n == self@.content.len() == other@.content.len(),
                n == self.end - self.start,
                0 <= i <= n,
                forall|j: int| 0 <= j < i ==> self@.content[j] == other@.content[j],
            decreases n - i,
        {
            let a = self.src.get_char(self.start + i);
            let b = other.src.get_char(other.start + i);
            if a != b {
                proof {
                    assert(self@.content[i as int] != other@.content[i as int]);
                }
                return false;
            }
            i += 1;
        }
        proof {
            assert(self@.content =~= other@.content);
        }
        true
    }
}

impl<'s> vstd::std_specs::cmp::PartialEqSpecImpl for Compound<'s> {
    open spec fn obeys_eq_spec() -> bool {
        true
    }

    open spec fn eq_spec(&self, other: &Compound<'s>) -> bool {
        self@.content == other@.content && self@.same_style(other@)
    }
}

impl<'s> Eq for Compound<'s> {}

} // verus!
