use isaribi::text::indent_text;
use isaribi::Style;

struct Shown<'a>(&'a Style);

impl<'a> std::fmt::Debug for Shown<'a> {
    fn fmt(&self, f: &mut std::fmt::Formatter<'_>) -> std::fmt::Result {
        f.write_str(&self.0.debug_text())
    }
}

fn foo_and_bar() -> Vec<(String, Vec<(String, String)>)> {
    vec![
        (
            String::from("foo"),
            vec![
                (String::from("width"), String::from("100px")),
                (String::from("height"), String::from("100px")),
            ],
        ),
        (
            String::from("bar"),
            vec![
                (String::from("width"), String::from("100px")),
                (String::from("height"), String::from("100px")),
            ],
        ),
    ]
}

#[test]
fn debug_style() {
    let style = Style::from_parts(foo_and_bar(), vec![]).unwrap();

    let style_str = [
        "foo {\n",
        "    width: 100px;\n",
        "    height: 100px;\n",
        "}\n",
        "bar {\n",
        "    width: 100px;\n",
        "    height: 100px;\n",
        "}\n",
    ]
    .concat();

    assert_eq!(format!("{:?}", Shown(&style)), style_str);
}

#[test]
fn debug_style_with_media() {
    let media_style = Style::from_parts(foo_and_bar(), vec![]).unwrap();
    let style =
        Style::from_parts(foo_and_bar(), vec![(String::from("query"), media_style)]).unwrap();

    let style_str = [
        "foo {\n",
        "    width: 100px;\n",
        "    height: 100px;\n",
        "}\n",
        "bar {\n",
        "    width: 100px;\n",
        "    height: 100px;\n",
        "}\n",
        "@media query {\n",
        "    foo {\n",
        "        width: 100px;\n",
        "        height: 100px;\n",
        "    }\n",
        "    bar {\n",
        "        width: 100px;\n",
        "        height: 100px;\n",
        "    }\n",
        "}\n",
    ]
    .concat();

    assert_eq!(format!("{:?}", Shown(&style)), style_str);
}

#[test]
fn debug_text_of_the_empty_style_is_empty() {
    assert_eq!(Style::new().debug_text(), "");
}

#[test]
fn debug_text_of_an_empty_media_block() {
    let mut style = Style::new();
    style.add_media("print", Style::new());
    assert_eq!(style.debug_text(), "@media print {\n}\n");
}

#[test]
fn debug_text_adds_one_step_for_each_level() {
    let mut inner = Style::new();
    inner.add("p", "margin", "0");
    let mut middle = Style::new();
    middle.add_media("(min-width:1px)", inner);
    let mut style = Style::new();
    style.add_media("screen", middle);
    assert_eq!(
        style.debug_text(),
        [
            "@media screen {\n",
            "    @media (min-width:1px) {\n",
            "        p {\n",
            "            margin: 0;\n",
            "        }\n",
            "    }\n",
            "}\n",
        ]
        .concat()
    );
}

#[test]
fn debug_text_is_the_same_for_equal_styles() {
    let mut a = Style::new();
    a.add("div", "color", "red");
    a.add_media("print", a.clone());
    let b = a.clone();
    assert_eq!(a.debug_text(), b.debug_text());
}

#[test]
fn debug_text_after_append_lists_blocks_then_media() {
    let mut a = Style::new();
    a.add("div", "color", "red");
    a.add_media("print", Style::new());
    let mut b = Style::new();
    b.add("span", "color", "blue");
    b.add_media("screen", Style::new());
    a.append(&b);
    assert_eq!(
        a.debug_text(),
        [
            "div {\n",
            "    color: red;\n",
            "}\n",
            "span {\n",
            "    color: blue;\n",
            "}\n",
            "@media print {\n",
            "}\n",
            "@media screen {\n",
            "}\n",
        ]
        .concat()
    );
}

#[test]
fn debug_text_leaves_out_nested_lines_that_hold_nothing() {
    let mut nested = Style::new();
    nested.add("div", "content", "a\n\nb");
    let mut style = Style::new();
    style.add_media("print", nested);
    assert_eq!(
        style.debug_text(),
        [
            "@media print {\n",
            "    div {\n",
            "        content: a\n",
            "    b;\n",
            "    }\n",
            "}\n",
        ]
        .concat()
    );
}

#[test]
fn indent_text_sets_in_each_line() {
    assert_eq!(indent_text("a\nb\n"), "    a\n    b\n");
}

#[test]
fn indent_text_ends_the_last_line() {
    assert_eq!(indent_text("a\nb"), "    a\n    b\n");
}

#[test]
fn indent_text_leaves_out_empty_lines() {
    assert_eq!(indent_text("\n\na\n\n\nb\n\n"), "    a\n    b\n");
    assert_eq!(indent_text(""), "");
    assert_eq!(indent_text("\n"), "");
}

#[test]
fn indent_text_matches_line_splitting() {
    let text = "x {\n    y: z;\n}\n\n ö \n";
    let mut expected = String::new();
    for line in text.split("\n") {
        if line != "" {
            expected += &format!("    {}\n", line);
        }
    }
    assert_eq!(indent_text(text), expected);
}
