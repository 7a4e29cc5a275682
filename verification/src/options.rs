use vstd::prelude::*;

verus! {

/// Markdown parsing options.
///
/// `clean_indentations` removes the superfluous common indentation of the
/// text before parsing, which is useful when it is defined in a raw
/// literal. The four `continue_*` options each let an inline style left
/// unterminated at the end of a line carry over into the next line.
#[derive(Debug, PartialEq, Eq, Clone, Copy, Structural)]
pub struct Options {
    pub clean_indentations: bool,
    pub continue_inline_code: bool,
    pub continue_italic: bool,
    pub continue_bold: bool,
    pub continue_strikeout: bool,
}

impl Default for Options {
    fn default() -> (r: Self)
        ensures
            r == Options::all_disabled(),
    {
        Options {
            clean_indentations: false,
            continue_inline_code: false,
            continue_italic: false,
            continue_bold: false,
            continue_strikeout: false,
        }
    }
}

impl Options {
    /// The default options: everything disabled.
    pub open spec fn all_disabled() -> Options {
        Options {
            clean_indentations: false,
            continue_inline_code: false,
            continue_italic: false,
            continue_bold: false,
            continue_strikeout: false,
        }
    }

    pub fn clean_indentations(self, value: bool) -> (r: Self)
        ensures
            r == (Options { clean_indentations: value, ..self }),
    {
        Options { clean_indentations: value, ..self }
    }

    pub fn continue_inline_code(self, value: bool) -> (r: Self)
        ensures
            r == (Options { continue_inline_code: value, ..self }),
    {
        Options { continue_inline_code: value, ..self }
    }

    pub fn continue_italic(self, value: bool) -> (r: Self)
        ensures
            r == (Options { continue_italic: value, ..self }),
    {
        Options { continue_italic: value, ..self }
    }

    pub fn continue_bold(self, value: bool) -> (r: Self)
        ensures
            r == (Options { continue_bold: value, ..self }),
    {
        Options { continue_bold: value, ..self }
    }

    pub fn continue_strikeout(self, value: bool) -> (r: Self)
        ensures
            r == (Options { continue_strikeout: value, ..self }),
    {
        Options { continue_strikeout: value, ..self }
    }

    /// enable or disable the continuation of all four inline styles at once
    pub fn continue_spans(self, value: bool) -> (r: Self)
        ensures
            r == (Options {
                continue_inline_code: value,
                continue_italic: value,
                continue_bold: value,
                continue_strikeout: value,
                ..self
            }),
    {
        Options {
            continue_inline_code: value,
            continue_italic: value,
            continue_bold: value,
            continue_strikeout: value,
            ..self
        }
    }
}

} // verus!
