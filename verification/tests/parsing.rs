use minimad::parse_inline;
use minimad::parse_line;
use minimad::parse_text;
use minimad::LineParser;
use minimad::ScanState;
use minimad::Composite;
use minimad::CompositeStyle;
use minimad::Compound;
use minimad::Line;
use minimad::Options;
use minimad::Text;

#[test]
fn test_trim_left() {
    let mut left = Compound::raw_str(" ");
    left.trim_left_spaces();
    assert!(left.is_empty());

    let mut left = Compound::raw_str("  text");
    left.trim_left_spaces();
    assert_eq!(left, Compound::raw_str("text"), "trim 2 spaces");

    let mut left = Compound::raw_str("text");
    left.trim_left_spaces();
    assert_eq!(left, Compound::raw_str("text"), "not trimming when no space");
}

#[test]
fn test_trim_right() {
    let mut left = Compound::raw_str(" ");
    left.trim_right_spaces();
    assert!(left.is_empty());

    let mut left = Compound::raw_str("  text   ");
    left.trim_right_spaces();
    assert_eq!(left, Compound::raw_str("  text"));

    let mut left = Compound::raw_str("text");
    left.trim_right_spaces();
    assert_eq!(left, Compound::raw_str("text"), "not trimming when no space");
}

#[test]
fn composite_trim() {
    let mut left = Composite::from_inline(" *some* text  ");
    left.trim_spaces();
    assert_eq!(
        left,
        Composite {
            style: CompositeStyle::Paragraph,
            compounds: vec![
                Compound::raw_str("some").italic(),
                Compound::raw_str(" text"),
            ]
        }
    );
}

#[test]
fn composite_trim_keep_code() {
    let mut left = Composite::from_inline(" ` `  ");
    left.trim_spaces();
    assert_eq!(
        left,
        Composite {
            style: CompositeStyle::Paragraph,
            compounds: vec![Compound::raw_str(" ").code()]
        }
    );
}

#[test]
fn empty_composite_trim() {
    let mut left = Composite::from_inline(" * * ** `` **  ");
    left.trim_left_spaces();
    assert_eq!(left.compounds.len(), 0);
}

#[test]
fn count_chars() {
    assert_eq!(Line::from("τ").char_length(), 1);
    assert_eq!(Line::from("τ:`2π`").char_length(), 4);
    assert_eq!(Line::from("* item").char_length(), 4);
}

#[test]
fn header_level_count() {
    assert_eq!(minimad::header_level(""), 0);
    assert_eq!(minimad::header_level("#"), 0);
    assert_eq!(minimad::header_level("# "), 0); // we don't allow empty headers
    assert_eq!(minimad::header_level("# A"), 1);
    assert_eq!(minimad::header_level(" "), 0);
    assert_eq!(minimad::header_level("test"), 0);
    assert_eq!(minimad::header_level("###b"), 0);
    assert_eq!(minimad::header_level("###"), 0);
    assert_eq!(minimad::header_level("### b"), 3);
    assert_eq!(minimad::header_level(" a b"), 0);
    assert_eq!(minimad::header_level("# titre"), 1);
    assert_eq!(minimad::header_level("#### *titre*"), 4);
    assert_eq!(minimad::header_level("######## a b"), 8);
    assert_eq!(minimad::header_level("######### a b"), 0); // too deep
}

#[test]
fn line_parser_simple_line_parsing() {
    assert_eq!(
        Line::from("Hello **World**. *Code*: `sqrt(π/2)`"),
        Line::new_paragraph(vec![
            Compound::raw_str("Hello "),
            Compound::raw_str("World").bold(),
            Compound::raw_str(". "),
            Compound::raw_str("Code").italic(),
            Compound::raw_str(": "),
            Compound::raw_str("sqrt(π/2)").code(),
        ])
    );
}

#[test]
fn line_parser_nested_styles_parsing() {
    assert_eq!(
        Line::from("*Italic then **bold and italic `and some *code*`** and italic*"),
        Line::new_paragraph(vec![
            Compound::raw_str("Italic then ").italic(),
            Compound::raw_str("bold and italic ").bold().italic(),
            Compound::raw_str("and some *code*").bold().italic().code(),
            Compound::raw_str(" and italic").italic(),
        ])
    );
}

#[test]
fn line_of_code() {
    assert_eq!(
        Line::from("    let r = Math.sin(π/2) * 7"),
        Line::new_code(Compound::raw_str("let r = Math.sin(π/2) * 7").code())
    );
}

#[test]
fn standard_header() {
    assert_eq!(
        Line::from("### just a title"),
        Line::new_header(3, vec![Compound::raw_str("just a title")])
    );
}

#[test]
fn list_item() {
    assert_eq!(
        Line::from("* *list* item"),
        Line::new_list_item(vec![
            Compound::raw_str("list").italic(),
            Compound::raw_str(" item"),
        ])
    );
}

#[test]
fn styled_header() {
    assert_eq!(
        Line::from("## a header with some **bold**!"),
        Line::new_header(
            2,
            vec![
                Compound::raw_str("a header with some "),
                Compound::raw_str("bold").bold(),
                Compound::raw_str("!"),
            ]
        )
    );
}

#[test]
fn table_row() {
    assert_eq!(
        Line::from("| bla |*italic*|hi!|"),
        Line::new_table_row(vec![
            Composite {
                style: CompositeStyle::Paragraph,
                compounds: vec![Compound::raw_str("bla")],
            },
            Composite {
                style: CompositeStyle::Paragraph,
                compounds: vec![Compound::raw_str("italic").italic()],
            },
            Composite {
                style: CompositeStyle::Paragraph,
                compounds: vec![Compound::raw_str("hi!")],
            }
        ])
    );
}

#[test]
fn parser_simple_line_parsing() {
    assert_eq!(
        parse_line("Hello **World**. *Code*: `sqrt(π/2)`"),
        Line::new_paragraph(vec![
            Compound::raw_str("Hello "),
            Compound::raw_str("World").bold(),
            Compound::raw_str(". "),
            Compound::raw_str("Code").italic(),
            Compound::raw_str(": "),
            Compound::raw_str("sqrt(π/2)").code(),
        ])
    );
}

#[test]
fn parser_nested_styles_parsing() {
    assert_eq!(
        parse_line("*Italic then **bold and italic `and some *code*`** and italic*"),
        Line::new_paragraph(vec![
            Compound::raw_str("Italic then ").italic(),
            Compound::raw_str("bold and italic ").bold().italic(),
            Compound::raw_str("and some *code*").bold().italic().code(),
            Compound::raw_str(" and italic").italic(),
        ])
    );
}

#[test]
fn indented_code_between_fences() {
    let md = r#"
        outside
        ```code
        a
            b
        ```
    "#;
    assert_eq!(
        parse_text(md, Options::default().clean_indentations(true)),
        Text {
            lines: vec![
                Line::new_paragraph(vec![Compound::raw_str("outside")]),
                Line::new_code(Compound::raw_str("a").code()),
                Line::new_code(Compound::raw_str("    b").code()),
            ]
        },
    );
}

#[test]
fn test_clean() {
    let text = r#"
        bla bla bla
        * item 1
        * item 2
    "#;
    assert_eq!(
        parse_text(
            text,
            Options {
                clean_indentations: true,
                ..Default::default()
            }
        ),
        Text {
            lines: vec![
                Line::from("bla bla bla"),
                Line::from("* item 1"),
                Line::from("* item 2"),
            ]
        },
    );
}

#[test]
fn test_inline_code_continuation() {
    let md = r#"
        bla bla `code
        again` bla
    "#;
    // Without continuation
    let options = Options::default().clean_indentations(true);
    assert_eq!(
        parse_text(md, options),
        Text {
            lines: vec![Line::from("bla bla `code"), Line::from("again` bla")]
        },
    );
    // With continuation
    let options = Options::default()
        .clean_indentations(true)
        .continue_inline_code(true);
    assert_eq!(
        parse_text(md, options),
        Text {
            lines: vec![Line::from("bla bla `code`"), Line::from("`again` bla")]
        },
    );
}

#[test]
fn plain_snippet_is_one_compound() {
    assert_eq!(
        parse_inline("just plain text"),
        Composite {
            style: CompositeStyle::Paragraph,
            compounds: vec![Compound::raw_str("just plain text")],
        }
    );
}

#[test]
fn bold_snippet() {
    assert_eq!(
        parse_inline("**bold**"),
        Composite {
            style: CompositeStyle::Paragraph,
            compounds: vec![Compound::raw_str("bold").bold()],
        }
    );
}

#[test]
fn alternating_styles() {
    // flags are independent toggles, not a nesting stack
    assert_eq!(
        parse_inline("*a**b**c*"),
        Composite {
            style: CompositeStyle::Paragraph,
            compounds: vec![
                Compound::raw_str("a").italic(),
                Compound::raw_str("b").bold().italic(),
                Compound::raw_str("c").italic(),
            ],
        }
    );
}

#[test]
fn unicode_code_span() {
    assert_eq!(
        parse_line("τ:`2π`"),
        Line::new_paragraph(vec![
            Compound::raw_str("τ:"),
            Compound::raw_str("2π").code(),
        ])
    );
}

#[test]
fn nine_hashes_is_a_paragraph() {
    let line = parse_line("######### a b");
    match &line {
        Line::Normal(composite) => {
            assert_eq!(composite.style, CompositeStyle::Paragraph);
        }
        _ => panic!("expected a normal line"),
    }
    assert_eq!(
        line,
        Line::new_paragraph(vec![Compound::raw_str("######### a b")])
    );
}

#[test]
fn compound_sub_parts() {
    let c = Compound::raw_str("0123456789").bold();
    assert_eq!(c.sub(2, 5), Compound::raw_str("234").bold());
    assert_eq!(c.tail(7), Compound::raw_str("789").bold());
    assert_eq!(c.sub_chars(8, 100), Compound::raw_str("89").bold());
    assert_eq!(c.tail_chars(100), Compound::raw_str("").bold());
    let u = Compound::raw_str("τ2π");
    assert_eq!(u.sub_chars(1, 2), Compound::raw_str("2"));
}

#[test]
fn compound_char_length() {
    assert_eq!(Compound::raw_str("τ2π").char_length(), 3);
    assert_eq!(Compound::raw_str("").char_length(), 0);
}

#[test]
fn composite_padding() {
    let mut c = Composite::from_inline("x");
    c.pad_left(2);
    c.pad_right(3);
    assert_eq!(
        c,
        Composite {
            style: CompositeStyle::Paragraph,
            compounds: vec![
                Compound::raw_str("  "),
                Compound::raw_str("x"),
                Compound::raw_str("   "),
            ],
        }
    );
    let mut untouched = Composite::from_inline("x");
    untouched.pad_left(0);
    assert_eq!(untouched.compounds.len(), 1);
}

#[test]
fn table_row_in_text() {
    let text = parse_text("| a | b |\n| c | d |", Options::default());
    assert_eq!(text.lines.len(), 2);
    assert!(text.lines[0].is_table_row());
    assert!(!Line::from("plain").is_table_row());
    assert!(Line::from("    code").is_code());
}

#[test]
fn from_md_lines_builds_a_text() {
    let text = Text::from_md_lines(vec!["# title", "body"]);
    assert_eq!(
        text,
        Text {
            lines: vec![
                Line::new_header(1, vec![Compound::raw_str("title")]),
                Line::new_paragraph(vec![Compound::raw_str("body")]),
            ]
        }
    );
}

#[test]
fn col_spec_strings() {
    assert_eq!(minimad::Alignment::Left.col_spec(), "|:-");
    assert_eq!(minimad::Alignment::Right.col_spec(), "|-:");
    assert_eq!(minimad::Alignment::Center.col_spec(), "|:-:");
    assert_eq!(minimad::Alignment::Unspecified.col_spec(), "|-");
    assert_eq!(minimad::Alignment::default(), minimad::Alignment::Unspecified);
}

#[test]
fn parse_free_functions() {
    assert_eq!(
        minimad::parse("a\nb", Options::default()),
        Text {
            lines: vec![
                Line::new_paragraph(vec![Compound::raw_str("a")]),
                Line::new_paragraph(vec![Compound::raw_str("b")]),
            ]
        }
    );
    assert_eq!(
        minimad::parse_lines(vec!["a", "b"], Options::default()),
        minimad::parse("a\nb", Options::default())
    );
}

#[test]
fn bold_and_italic_continuation() {
    let md = "*ita\nlic* and **bo\nld**";
    // without continuation the stars stay unmatched within each line
    let plain = parse_text(md, Options::default());
    assert_eq!(plain.lines.len(), 3);
    // with continuation the styles carry over the line breaks
    let options = Options::default().continue_spans(true);
    assert_eq!(
        parse_text(md, options),
        Text {
            lines: vec![
                Line::new_paragraph(vec![Compound::raw_str("ita").italic()]),
                Line::new_paragraph(vec![
                    Compound::raw_str("lic").italic(),
                    Compound::raw_str(" and "),
                    Compound::raw_str("bo").bold(),
                ]),
                Line::new_paragraph(vec![Compound::raw_str("ld").bold()]),
            ]
        },
    );
}

#[test]
fn cell_with_list_item_style() {
    let row = parse_line("|* item|");
    match row {
        Line::TableRow(table_row) => {
            assert_eq!(table_row.cells.len(), 1);
            assert!(table_row.cells[0].is_list_item());
        }
        _ => panic!("expected a table row"),
    }
}

#[test]
fn pipe_inside_code_does_not_split_cells() {
    let row = parse_line("|a`b|c`d|");
    match row {
        Line::TableRow(table_row) => {
            assert_eq!(table_row.cells.len(), 1);
            assert_eq!(
                table_row.cells[0].compounds,
                vec![Compound::raw_str("a"), Compound::raw_str("b|c").code(), Compound::raw_str("d")]
            );
        }
        _ => panic!("expected a table row"),
    }
}

#[test]
fn trailing_lone_star_is_dropped() {
    assert_eq!(
        parse_inline("boundary*"),
        Composite {
            style: CompositeStyle::Paragraph,
            compounds: vec![Compound::raw_str("boundary")],
        }
    );
}

#[test]
fn compound_construction_and_flags() {
    let mut c = Compound::new("abcdef", 1, 4, false, false, false, false);
    assert_eq!(c.as_str(), "bcd");
    assert!(!c.is_bold() && !c.is_italic() && !c.is_code() && !c.is_strikeout());
    c.set_bold(true);
    c.set_italic(true);
    c.set_code(true);
    c.set_strikeout(true);
    assert!(c.is_bold() && c.is_italic() && c.is_code() && c.is_strikeout());
    assert_eq!(
        c,
        Compound::raw_part("xbcdx", 1, 4).bold().italic().code().strikeout()
    );
    c.set_str("other");
    assert_eq!(c.as_str(), "other");
    assert!(c.is_bold(), "set_str keeps the styling");
}

#[test]
fn line_parser_directly() {
    let mut parser = LineParser::from("a*b*");
    let composite = parser.inline();
    assert_eq!(
        composite.compounds,
        vec![Compound::raw_str("a"), Compound::raw_str("b").italic()]
    );
    let st = parser.state();
    assert!(st.italic, "the italic span is left open at end of line");
    let mut continued = LineParser::from_state("c* d", st);
    let composite = continued.inline();
    assert_eq!(
        composite.compounds,
        vec![Compound::raw_str("c").italic(), Compound::raw_str(" d")]
    );
    assert_eq!(ScanState::initial(), LineParser::from("x").state());
}

#[test]
fn text_from_whole_string() {
    assert_eq!(
        Text::from("# t\n    code"),
        Text {
            lines: vec![
                Line::new_header(1, vec![Compound::raw_str("t")]),
                Line::new_code(Compound::raw_str("code").code()),
            ]
        }
    );
}

#[test]
fn split_and_clean_lines() {
    let split = minimad::clean::split_lines("a\r\nb\nc");
    assert_eq!(split, vec!["a", "b", "c"]);
    let cleaned = minimad::clean::lines("\n  a\n   b\n");
    assert_eq!(cleaned, vec!["a", " b"]);
}

#[test]
fn composite_and_line_lengths() {
    let c = Composite::from_inline("a *b*");
    assert_eq!(c.char_length(), 3);
    assert!(!c.is_empty());
    assert!(Composite::new().is_empty());
    assert_eq!(Line::from("| τ | b |").char_length(), 2);
}

#[test]
fn lone_pipe_is_a_row_with_one_empty_cell() {
    // a row never has zero cells: the single empty cell stays
    assert_eq!(
        parse_line("|"),
        Line::new_table_row(vec![Composite {
            style: CompositeStyle::Paragraph,
            compounds: vec![],
        }])
    );
}

#[test]
fn trailing_blank_cell_is_kept() {
    // the final cell comes from text after the last `|`, not from a
    // terminating delimiter, so it stays (empty once trimmed)
    assert_eq!(
        parse_line("|a| "),
        Line::new_table_row(vec![
            Composite {
                style: CompositeStyle::Paragraph,
                compounds: vec![Compound::raw_str("a")],
            },
            Composite {
                style: CompositeStyle::Paragraph,
                compounds: vec![],
            },
        ])
    );
}
