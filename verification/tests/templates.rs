use minimad::Composite;
use minimad::SubTemplateExpander;
use minimad::CompositeStyle;
use minimad::Compound;
use minimad::Line;
use minimad::OwningTemplateExpander;
use minimad::Text;
use minimad::TextTemplate;

#[test]
fn template_set_raw_value() {
    let template = TextTemplate::from("Hello ${name}!");
    let mut expander = template.expander();
    expander.set("name", "World");
    let text = expander.expand();
    assert_eq!(
        text,
        Text {
            lines: vec![Line::new_paragraph(vec![
                Compound::raw_str("Hello "),
                Compound::raw_str("World"),
                Compound::raw_str("!"),
            ])]
        }
    );
}

#[test]
fn template_slot_keeps_styling() {
    // the placeholder sits inside a bold span: the replacement is bold too
    let template = TextTemplate::from("**${name}** rocks");
    let mut expander = template.expander();
    expander.set("name", "who*ever");
    let text = expander.expand();
    assert_eq!(
        text,
        Text {
            lines: vec![Line::new_paragraph(vec![
                Compound::raw_str("who*ever").bold(),
                Compound::raw_str(" rocks"),
            ])]
        }
    );
}

#[test]
fn template_set_md_is_parsed() {
    let template = TextTemplate::from("status: ${status}");
    let mut expander = template.expander();
    expander.set_md("status", "*fine*");
    let text = expander.expand();
    assert_eq!(
        text,
        Text {
            lines: vec![Line::new_paragraph(vec![
                Compound::raw_str("status: "),
                Compound::raw_str("fine").italic(),
            ])]
        }
    );
}

#[test]
fn template_set_md_does_not_rescan_placeholders() {
    // placeholder scanning happens only at compile time: a substituted
    // value holding `${other}`, stars, backquotes or pipes never becomes
    // a new placeholder, even when `other` is bound too
    let template = TextTemplate::from("v: ${value}");
    let mut expander = template.expander();
    expander.set_md("value", "${other} *x*");
    expander.set("other", "BOOM");
    let text = expander.expand();
    assert_eq!(
        text,
        Text {
            lines: vec![Line::new_paragraph(vec![
                Compound::raw_str("v: "),
                Compound::raw_str("${other} "),
                Compound::raw_str("x").italic(),
            ])]
        }
    );
}

#[test]
fn template_expansion_is_repeatable() {
    // a template may be expanded many times, independently
    let template = TextTemplate::from("Hello ${name}!");
    let mut first = template.expander();
    first.set("name", "a");
    let mut second = template.expander();
    second.set("name", "b");
    let ta = first.expand();
    let tb = second.expand();
    assert_eq!(
        ta,
        Text {
            lines: vec![Line::new_paragraph(vec![
                Compound::raw_str("Hello "),
                Compound::raw_str("a"),
                Compound::raw_str("!"),
            ])]
        }
    );
    assert_eq!(
        tb,
        Text {
            lines: vec![Line::new_paragraph(vec![
                Compound::raw_str("Hello "),
                Compound::raw_str("b"),
                Compound::raw_str("!"),
            ])]
        }
    );
    // and the same bindings always give the same text
    let mut third = template.expander();
    third.set("name", "a");
    assert_eq!(third.expand(), ta);
}

#[test]
fn template_sub_instances_in_call_order() {
    let template = TextTemplate::from("head\n${rows}\n* item ${n}\n}\ntail");
    let mut expander = template.expander();
    let first = expander.sub("rows");
    expander.sub_set(first, "n", "one");
    let second = expander.sub("rows");
    expander.sub_set(second, "n", "two");
    let text = expander.expand();
    assert_eq!(
        text,
        Text {
            lines: vec![
                Line::new_paragraph(vec![Compound::raw_str("head")]),
                Line::new_list_item(vec![
                    Compound::raw_str("item "),
                    Compound::raw_str("one"),
                ]),
                Line::new_list_item(vec![
                    Compound::raw_str("item "),
                    Compound::raw_str("two"),
                ]),
                Line::new_paragraph(vec![Compound::raw_str("tail")]),
            ]
        }
    );
}

#[test]
fn template_sub_zero_instances_removes_region() {
    let template = TextTemplate::from("head\n${rows}\nrow ${n}\n}\ntail");
    let expander = template.expander();
    let text = expander.expand();
    assert_eq!(
        text,
        Text {
            lines: vec![
                Line::new_paragraph(vec![Compound::raw_str("head")]),
                Line::new_paragraph(vec![Compound::raw_str("tail")]),
            ]
        }
    );
}

#[test]
fn template_stray_brace_is_text() {
    // a `}` line with no region open is ordinary text, and a second
    // `${name}` line while one region is open is ordinary text too
    let template = TextTemplate::from("}");
    let text = template.expander().expand();
    assert_eq!(
        text,
        Text {
            lines: vec![Line::new_paragraph(vec![Compound::raw_str("}")])]
        }
    );
}

#[test]
fn template_table_cell_placeholder() {
    let template = TextTemplate::from("|${a}|*${b}*|");
    let mut expander = template.expander();
    expander.set("a", "left");
    expander.set("b", "right");
    let text = expander.expand();
    assert_eq!(
        text,
        Text {
            lines: vec![Line::new_table_row(vec![
                Composite {
                    style: CompositeStyle::Paragraph,
                    compounds: vec![Compound::raw_str("left")],
                },
                Composite {
                    style: CompositeStyle::Paragraph,
                    compounds: vec![Compound::raw_str("right").italic()],
                },
            ])]
        }
    );
}

#[test]
fn owning_expander_set_and_sub() {
    let mut expander = OwningTemplateExpander::new();
    expander.set("title", "the title");
    let row = expander.sub("rows");
    expander.sub_set(row, "n", "one");
    let template = TextTemplate::from("# ${title}\n${rows}\nrow ${n}\n}");
    let text = expander.expand(&template);
    assert_eq!(
        text,
        Text {
            lines: vec![
                Line::new_header(1, vec![Compound::raw_str("the title")]),
                Line::new_paragraph(vec![
                    Compound::raw_str("row "),
                    Compound::raw_str("one"),
                ]),
            ]
        }
    );
}

#[test]
fn owning_expander_set_md() {
    let mut expander = OwningTemplateExpander::new();
    expander.set_md("w", "**big**");
    let template = TextTemplate::from("a ${w} day");
    let text = expander.expand(&template);
    assert_eq!(
        text,
        Text {
            lines: vec![Line::new_paragraph(vec![
                Compound::raw_str("a "),
                Compound::raw_str("big").bold(),
                Compound::raw_str(" day"),
            ])]
        }
    );
}

#[test]
fn owning_expander_set_lines() {
    // each line of the value makes one copy of the placeholder's line
    let mut expander = OwningTemplateExpander::new();
    expander.set_lines("item", "alpha\nbeta");
    let template = TextTemplate::from("head\n* ${item}");
    let text = expander.expand(&template);
    assert_eq!(
        text,
        Text {
            lines: vec![
                Line::new_paragraph(vec![Compound::raw_str("head")]),
                Line::new_list_item(vec![Compound::raw_str("alpha")]),
                Line::new_list_item(vec![Compound::raw_str("beta")]),
            ]
        }
    );
}

#[test]
fn owning_expander_set_lines_md() {
    let mut expander = OwningTemplateExpander::new();
    expander.set_lines_md("item", "*a*\nb");
    let template = TextTemplate::from("val ${item}");
    let text = expander.expand(&template);
    assert_eq!(
        text,
        Text {
            lines: vec![
                Line::new_paragraph(vec![
                    Compound::raw_str("val "),
                    Compound::raw_str("a").italic(),
                ]),
                Line::new_paragraph(vec![
                    Compound::raw_str("val "),
                    Compound::raw_str("b"),
                ]),
            ]
        }
    );
}

#[test]
fn template_add_filled_sub() {
    let template = TextTemplate::from("${rows}\nrow ${n}\n}");
    let mut expander = template.expander();
    let mut sub = SubTemplateExpander::new("rows");
    sub.set("n", "alpha");
    sub.set_md("unused", "x");
    expander.add_sub(sub);
    let text = expander.expand();
    assert_eq!(
        text,
        Text {
            lines: vec![Line::new_paragraph(vec![
                Compound::raw_str("row "),
                Compound::raw_str("alpha"),
            ])]
        }
    );
}
