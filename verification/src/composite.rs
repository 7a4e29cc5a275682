use vstd::prelude::*;

use crate::compound::{leading_ws, trailing_ws, Compound, CompoundModel};

verus! {

/// The structural style of a composite
#[derive(Debug, PartialEq, Eq, Clone, Copy, Structural)]
pub enum CompositeStyle {
    Paragraph,
    Header(u8),  // never 0, and <= MAX_HEADER_DEPTH
    ListItem,
    Code,
}

/// The ghost value of a [`Composite`]: its structural style and the
/// values of its compounds.
pub struct CompositeModel {
    pub style: CompositeStyle,
    pub compounds: Seq<CompoundModel>,
}

/// A composite is a monoline sequence of compounds sharing a structural
/// style: a whole line, or one table cell.
#[derive(Debug, PartialEq, Eq)]
pub struct Composite<'a> {
    pub style: CompositeStyle,
    pub compounds: Vec<Compound<'a>>,
}

impl<'a> Clone for Composite<'a> {
    /// The copy has the same value as the original.
    fn clone(&self) -> (r: Self)
        ensures
            r@ == self@,
    {
        let mut compounds: Vec<Compound<'a>> = Vec::new();
        let mut i: usize = 0;
        while i < self.compounds.len()
            invariant
                0 <= i <= self.compounds.len(),
                compounds@ == self.compounds@.subrange(0, i as int),
            decreases self.compounds.len() - i,
        {
            compounds.push(self.compounds[i]);
            proof {
                assert(compounds@ =~= self.compounds@.subrange(0, i + 1));
            }
            i += 1;
        }
        let r = Composite { style: self.style, compounds };
        proof {
            assert(r.compounds@ =~= self.compounds@);
            assert(r@.compounds =~= self@.compounds);
        }
        r
    }
}

impl<'a> View for Composite<'a> {
    type V = CompositeModel;

    open spec fn view(&self) -> CompositeModel {
        CompositeModel {
            style: self.style,
            compounds: self.compounds@.map_values(|c: Compound<'a>| c@),
        }
    }
}

/// The ghost values of a sequence of composites.
pub open spec fn composite_views<'a>(s: Seq<Composite<'a>>) -> Seq<CompositeModel> {
    s.map_values(|c: Composite<'a>| c@)
}

/// The total character count of a sequence of compound values.
pub open spec fn char_count(s: Seq<CompoundModel>) -> int
    decreases s.len(),
{
    if s.len() == 0 {
        0
    } else {
        s[0].content.len() + char_count(s.drop_first())
    }
}

pub broadcast proof fn lemma_char_count_nonneg(s: Seq<CompoundModel>)
    ensures
        #[trigger] char_count(s) >= 0,
    decreases s.len(),
{
    if s.len() != 0 {
        lemma_char_count_nonneg(s.drop_first());
    }
}

/// What trimming whitespace from the left leaves of a compound sequence:
/// leading all-whitespace non-code compounds are dropped, and the first
/// remaining compound, if not code, loses its leading whitespace.
pub open spec fn trim_left_compounds(s: Seq<CompoundModel>) -> Seq<CompoundModel>
    decreases s.len(),
{
    if s.len() == 0 {
        s
    } else if s[0].code {
        s
    } else {
        let t = CompoundModel { content: s[0].content.skip(leading_ws(s[0].content)), ..s[0] };
        if t.content.len() == 0 {
            trim_left_compounds(s.drop_first())
        } else {
            seq![t] + s.drop_first()
        }
    }
}

/// The mirror image of [`trim_left_compounds`], at the right end.
pub open spec fn trim_right_compounds(s: Seq<CompoundModel>) -> Seq<CompoundModel>
    decreases s.len(),
{
    if s.len() == 0 {
        s
    } else if s[s.len() - 1].code {
        s
    } else {
        let c = s[s.len() - 1].content;
        let t = CompoundModel { content: c.take(c.len() - trailing_ws(c)), ..s[s.len() - 1] };
        if t.content.len() == 0 {
            trim_right_compounds(s.drop_last())
        } else {
            s.drop_last() + seq![t]
        }
    }
}

/// The most spaces one padding call can add.
pub const MAX_PAD: usize = 64;

const SPACES: &'static str = "                                                                ";

/// `n` spaces in a row.
pub open spec fn spaces(n: int) -> Seq<char> {
    Seq::new(n as nat, |i: int| ' ')
}

/// How many spaces a request for `n > 0` of them actually adds.
pub open spec fn pad_len(n: int) -> int {
    if n < MAX_PAD { n } else { MAX_PAD as int }
}

proof fn lemma_spaces_source()
    ensures
        SPACES@ =~= spaces(MAX_PAD as int),
{
    reveal_strlit("                                                                ");
}

impl<'a> Composite<'a> {
    pub fn new() -> (r: Composite<'a>)
        ensures
            r@.style == CompositeStyle::Paragraph,
            r@.compounds == Seq::<CompoundModel>::empty(),
    {
        let r = Composite { style: CompositeStyle::Paragraph, compounds: Vec::new() };
        proof {
            assert(r@.compounds =~= Seq::<CompoundModel>::empty());
        }
        r
    }

    /// parse a monoline markdown snippet which isn't from a text
    pub fn from_inline(md: &'a str) -> (r: Composite<'a>)
        ensures
            r@ == crate::line_parser::inline_model(md@),
    {
        let mut parser = crate::line_parser::LineParser::from(md);
        parser.inline()
    }

    pub fn is_code(&self) -> (r: bool)
        ensures
            r == (self@.style == CompositeStyle::Code),
    {
        match self.style {
            CompositeStyle::Code => true,
            _ => false,
        }
    }

    pub fn is_list_item(&self) -> (r: bool)
        ensures
            r == (self@.style == CompositeStyle::ListItem),
    {
        match self.style {
            CompositeStyle::ListItem => true,
            _ => false,
        }
    }

    /// return the total number of characters in the composite.
    ///
    /// This may not be the visible width: a renderer can add some
    /// characters to wrap inline code, or a bullet in front of a list item
    pub fn char_length(&self) -> (r: usize)
        requires
            char_count(self@.compounds) <= usize::MAX,
        ensures
            r == char_count(self@.compounds),
    {
        let ghost models = self@.compounds;
        let mut sum: usize = 0;
        let mut i: usize = 0;
        proof {
            assert(models.skip(0) =~= models);
        }
        while i < self.compounds.len()
            invariant
                char_count(models) <= usize::MAX,
                models == self@.compounds,
                0 <= i <= self.compounds.len(),
                sum + char_count(models.skip(i as int)) == char_count(models),
            decreases self.compounds.len() - i,
        {
            proof {
                assert(models.skip(i as int).drop_first() =~= models.skip(i + 1));
                lemma_char_count_nonneg(models.skip(i + 1));
            }
            sum = sum + self.compounds[i].char_length();
            i += 1;
        }
        proof {
            assert(models.skip(i as int) =~= Seq::<CompoundModel>::empty());
        }
        sum
    }

    pub fn is_empty(&self) -> (r: bool)
        ensures
            r == (self@.compounds.len() == 0),
    {
        self.compounds.len() == 0
    }

    /// remove all whitespace at the left, unless in inline code.
    /// Compounds trimmed to nothing are cleaned out
    pub fn trim_left_spaces(&mut self)
        ensures
            final(self)@.style == old(self)@.style,
            final(self)@.compounds == trim_left_compounds(old(self)@.compounds),
    {
        loop
            invariant
                self.style == old(self).style,
                trim_left_compounds(self@.compounds) == trim_left_compounds(old(self)@.compounds),
            ensures
                self.style == old(self).style,
                self@.compounds == trim_left_compounds(old(self)@.compounds),
            decreases self@.compounds.len(),
        {
            if self.compounds.len() == 0 {
                proof {
                    assert(trim_left_compounds(self@.compounds) =~= self@.compounds);
                }
                break;
            }
            if self.compounds[0].is_code() {
                return;
            }
            let ghost before = self@.compounds;
            let mut first = self.compounds[0];
            proof {
                assert(first@ == before[0]);
            }
            first.trim_left_spaces();
            self.compounds.set(0, first);
            proof {
                let after = self@.compounds;
                assert(after =~= seq![first@] + before.drop_first());
                assert(after.drop_first() =~= before.drop_first());
                let l = leading_ws(before[0].content);
                crate::compound::lemma_leading_ws_le(before[0].content);
                crate::compound::lemma_leading_ws_props(before[0].content);
                if first@.content.len() != 0 {
                    assert(first@.content[0] == before[0].content[l]);
                    assert(leading_ws(first@.content) == 0);
                    assert(first@.content.skip(0) =~= first@.content);
                    assert(after[0] == first@);
                    assert(trim_left_compounds(after) =~= after);
                }
            }
            if self.compounds[0].is_empty() {
                self.compounds.remove(0);
                proof {
                    assert(self@.compounds =~= before.drop_first());
                }
            } else {
                return;
            }
        }
    }

    /// remove all whitespace at the right, unless in inline code.
    /// Compounds trimmed to nothing are cleaned out
    pub fn trim_right_spaces(&mut self)
        ensures
            final(self)@.style == old(self)@.style,
            final(self)@.compounds == trim_right_compounds(old(self)@.compounds),
    {
        loop
            invariant
                self.style == old(self).style,
                trim_right_compounds(self@.compounds) == trim_right_compounds(old(self)@.compounds),
            ensures
                self.style == old(self).style,
                self@.compounds == trim_right_compounds(old(self)@.compounds),
            decreases self@.compounds.len(),
        {
            if self.compounds.len() == 0 {
                proof {
                    assert(trim_right_compounds(self@.compounds) =~= self@.compounds);
                }
                break;
            }
            let last = self.compounds.len() - 1;
            if self.compounds[last].is_code() {
                return;
            }
            let ghost before = self@.compounds;
            let mut lc = self.compounds[last];
            proof {
                assert(lc@ == before[last as int]);
            }
            lc.trim_right_spaces();
            self.compounds.set(last, lc);
            proof {
                let after = self@.compounds;
                assert(after =~= before.drop_last() + seq![lc@]);
                assert(after.drop_last() =~= before.drop_last());
                let c = before[last as int].content;
                let t = trailing_ws(c);
                crate::compound::lemma_trailing_ws_le(c);
                crate::compound::lemma_trailing_ws_props(c);
                if lc@.content.len() != 0 {
                    assert(lc@.content[lc@.content.len() - 1] == c[c.len() - t - 1]);
                    assert(trailing_ws(lc@.content) == 0);
                    assert(lc@.content.take(lc@.content.len() as int) =~= lc@.content);
                    assert(after[after.len() - 1] == lc@);
                    assert(trim_right_compounds(after) =~= after);
                }
            }
            if self.compounds[last].is_empty() {
                self.compounds.remove(last);
                proof {
                    assert(self@.compounds =~= before.drop_last());
                }
            } else {
                return;
            }
        }
    }

    /// prepend spaces, as one unstyled compound (at most [`MAX_PAD`] of
    /// them; asking for none leaves the composite unchanged)
    pub fn pad_left(&mut self, nb_added_spaces: usize)
        ensures
            final(self)@.style == old(self)@.style,
            nb_added_spaces == 0 ==> final(self)@ == old(self)@,
            nb_added_spaces > 0 ==> final(self)@.compounds == seq![
                CompoundModel::unstyled(spaces(pad_len(nb_added_spaces as int))),
            ] + old(self)@.compounds,
    {
        if nb_added_spaces > 0 {
            proof {
                lemma_spaces_source();
            }
            let cap = SPACES.unicode_len();
            let nb = if nb_added_spaces < cap {
                nb_added_spaces
            } else {
                cap
            };
            let ghost before = self@.compounds;
            let pad = Compound::raw_part(SPACES, 0, nb);
            self.compounds.insert(0, pad);
            proof {
                assert(pad@.content =~= spaces(pad_len(nb_added_spaces as int)));
                assert(self@.compounds =~= seq![pad@] + before);
            }
        }
    }

    /// append spaces, as one unstyled compound (at most [`MAX_PAD`] of
    /// them; asking for none leaves the composite unchanged)
    pub fn pad_right(&mut self, nb_added_spaces: usize)
        ensures
            final(self)@.style == old(self)@.style,
            nb_added_spaces == 0 ==> final(self)@ == old(self)@,
            nb_added_spaces > 0 ==> final(self)@.compounds == old(self)@.compounds + seq![
                CompoundModel::unstyled(spaces(pad_len(nb_added_spaces as int))),
            ],
    {
        if nb_added_spaces > 0 {
            proof {
                lemma_spaces_source();
            }
            let cap = SPACES.unicode_len();
            let nb = if nb_added_spaces < cap {
                nb_added_spaces
            } else {
                cap
            };
            let ghost before = self@.compounds;
            let pad = Compound::raw_part(SPACES, 0, nb);
            self.compounds.push(pad);
            proof {
                assert(pad@.content =~= spaces(pad_len(nb_added_spaces as int)));
                assert(self@.compounds =~= before + seq![pad@]);
            }
        }
    }

    /// remove all whitespace at both ends, unless in inline code
    pub fn trim_spaces(&mut self)
        ensures
            final(self)@.style == old(self)@.style,
            final(self)@.compounds == trim_right_compounds(
                trim_left_compounds(old(self)@.compounds),
            ),
    {
        self.trim_left_spaces();
        self.trim_right_spaces();
    }
}

} // verus!
