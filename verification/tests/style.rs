use isaribi::Style;

fn declarations(entries: &[(&str, &str)]) -> Vec<(String, String)> {
    entries
        .iter()
        .map(|(property, value)| (String::from(*property), String::from(*value)))
        .collect()
}

fn foo_and_bar() -> Vec<(String, Vec<(String, String)>)> {
    vec![
        (
            String::from("foo"),
            vec![
                (String::from("width"), String::from("100px")),
                (String::from("height"), String::from("100px")),
            ],
        ),
        (
            String::from("bar"),
            vec![
                (String::from("width"), String::from("100px")),
                (String::from("height"), String::from("100px")),
            ],
        ),
    ]
}

#[test]
fn it_works() {
    assert!(true);
}

#[test]
fn gen_style_by_manual() {
    let style_a = Style::from_parts(foo_and_bar(), vec![]).unwrap();

    let mut style_b = Style::new();
    style_b.add("foo", "width", "100px");
    style_b.add("foo", "height", "100px");
    style_b.add("bar", "width", "100px");
    style_b.add("bar", "height", "100px");

    assert!(style_a == style_b);
}

#[test]
fn gen_style_with_media_by_manual() {
    let media_style_a = Style::from_parts(foo_and_bar(), vec![]).unwrap();
    let style_a =
        Style::from_parts(foo_and_bar(), vec![(String::from("query"), media_style_a)]).unwrap();

    let mut media_style_b = Style::new();
    media_style_b.add("foo", "width", "100px");
    media_style_b.add("foo", "height", "100px");
    media_style_b.add("bar", "width", "100px");
    media_style_b.add("bar", "height", "100px");
    let mut style_b = Style::new();
    style_b.add("foo", "width", "100px");
    style_b.add("foo", "height", "100px");
    style_b.add("bar", "width", "100px");
    style_b.add("bar", "height", "100px");
    style_b.add_media("query", media_style_b);

    assert!(style_a == style_b);
}

#[test]
fn gen_style_by_macro() {
    let mut style_a = Style::new();
    style_a.add("foo", "width", "100px");
    style_a.add("foo", "height", "100px");
    style_a.add("bar", "width", "100px");
    style_a.add("bar", "height", "100px");

    let style_b = {
        let mut style = Style::new();
        style.add(&format!("{}", "foo"), &format!("{}", "width"), &format!("{}", "100px"));
        style.add(&format!("{}", "foo"), &format!("{}", "height"), &format!("{}", "100px"));
        style.add(&format!("{}", "bar"), &format!("{}", "width"), &format!("{}", "100px"));
        style.add(&format!("{}", "bar"), &format!("{}", "height"), &format!("{}", "100px"));
        style
    };

    assert!(style_a == style_b);
}

#[test]
fn gen_style_with_media_by_macro() {
    let mut media_style_a = Style::new();
    media_style_a.add("foo", "width", "100px");
    media_style_a.add("foo", "height", "100px");
    media_style_a.add("bar", "width", "100px");
    media_style_a.add("bar", "height", "100px");
    let mut style_a = Style::new();
    style_a.add("foo", "width", "100px");
    style_a.add("foo", "height", "100px");
    style_a.add("bar", "width", "100px");
    style_a.add("bar", "height", "100px");
    style_a.add_media("query", media_style_a);

    let style_b = {
        let mut style = Style::new();
        style.add(&format!("{}", "foo"), &format!("{}", "width"), &format!("{}", "100px"));
        style.add(&format!("{}", "foo"), &format!("{}", "height"), &format!("{}", "100px"));
        style.add(&format!("{}", "bar"), &format!("{}", "width"), &format!("{}", "100px"));
        style.add(&format!("{}", "bar"), &format!("{}", "height"), &format!("{}", "100px"));
        style.add_media("query", {
            let mut style = Style::new();
            style.add(&format!("{}", "foo"), &format!("{}", "width"), &format!("{}", "100px"));
            style.add(&format!("{}", "foo"), &format!("{}", "height"), &format!("{}", "100px"));
            style.add(&format!("{}", "bar"), &format!("{}", "width"), &format!("{}", "100px"));
            style.add(&format!("{}", "bar"), &format!("{}", "height"), &format!("{}", "100px"));
            style
        });
        style
    };

    assert!(style_a == style_b);
}

#[test]
fn new_style_is_empty() {
    let style = Style::new();
    assert!(style.blocks().is_empty());
    assert!(style.media().is_empty());
    assert!(style == Style::from_parts(vec![], vec![]).unwrap());
}

#[test]
fn add_twice_keeps_one_declaration_with_the_second_value() {
    let mut style = Style::new();
    style.add("div", "color", "red");
    style.add("div", "color", "blue");
    assert_eq!(style.blocks().len(), 1);
    assert_eq!(style.blocks()[0].0, "div");
    assert_eq!(style.blocks()[0].1, declarations(&[("color", "blue")]));
}

#[test]
fn add_overwrites_in_place() {
    let mut style = Style::new();
    style.add("div", "color", "red");
    style.add("div", "width", "1px");
    style.add("span", "color", "green");
    style.add("div", "color", "blue");
    assert_eq!(style.blocks().len(), 2);
    assert_eq!(style.blocks()[0].0, "div");
    assert_eq!(style.blocks()[0].1, declarations(&[("color", "blue"), ("width", "1px")]));
    assert_eq!(style.blocks()[1].0, "span");
    assert_eq!(style.blocks()[1].1, declarations(&[("color", "green")]));
}

#[test]
fn add_accepts_any_text() {
    let mut style = Style::new();
    style.add("", "", "");
    style.add("a > b::after", "content", "\"}\"");
    assert_eq!(style.blocks().len(), 2);
    assert_eq!(style.blocks()[0].1, declarations(&[("", "")]));
    assert_eq!(style.blocks()[1].1, declarations(&[("content", "\"}\"")]));
}

#[test]
fn add_media_never_merges_equal_queries() {
    let mut nested = Style::new();
    nested.add("div", "color", "red");
    let mut style = Style::new();
    style.add_media("print", nested.clone());
    style.add_media("print", nested.clone());
    assert_eq!(style.media().len(), 2);
    assert_eq!(style.media()[0].0, "print");
    assert_eq!(style.media()[1].0, "print");
    assert!(style.media()[0].1 == nested);
    assert!(style.media()[1].1 == nested);
}

#[test]
fn add_media_keeps_its_own_copy() {
    let mut nested = Style::new();
    nested.add("div", "color", "red");
    let mut style = Style::new();
    style.add_media("print", nested.clone());
    nested.add("div", "color", "blue");
    assert_eq!(style.media()[0].1.blocks()[0].1, declarations(&[("color", "red")]));
}

#[test]
fn clone_is_equal_and_independent() {
    let mut nested = Style::new();
    nested.add("p", "margin", "0");
    let mut style = Style::new();
    style.add("div", "color", "red");
    style.add_media("screen", nested);
    let mut copy = style.clone();
    assert!(copy == style);
    copy.add("div", "color", "blue");
    assert!(copy != style);
    assert_eq!(style.blocks()[0].1, declarations(&[("color", "red")]));
}

#[test]
fn equality_is_sensitive_to_block_order() {
    let mut a = Style::new();
    a.add("div", "color", "red");
    a.add("span", "color", "blue");
    let mut b = Style::new();
    b.add("span", "color", "blue");
    b.add("div", "color", "red");
    assert!(a != b);
}

#[test]
fn equality_is_sensitive_to_declaration_order() {
    let mut a = Style::new();
    a.add("div", "color", "red");
    a.add("div", "width", "1px");
    let mut b = Style::new();
    b.add("div", "width", "1px");
    b.add("div", "color", "red");
    assert!(a != b);
}

#[test]
fn equality_is_sensitive_to_media_order() {
    let mut a = Style::new();
    a.add_media("print", Style::new());
    a.add_media("screen", Style::new());
    let mut b = Style::new();
    b.add_media("screen", Style::new());
    b.add_media("print", Style::new());
    assert!(a != b);
}

#[test]
fn equality_looks_into_nested_styles() {
    let mut red = Style::new();
    red.add("div", "color", "red");
    let mut blue = Style::new();
    blue.add("div", "color", "blue");
    let mut a = Style::new();
    a.add_media("print", red.clone());
    let mut b = Style::new();
    b.add_media("print", blue);
    let mut c = Style::new();
    c.add_media("print", red);
    assert!(a != b);
    assert!(a == c);
}

#[test]
fn same_calls_give_equal_styles() {
    let build = || {
        let mut nested = Style::new();
        nested.add(".box", "width", "5px");
        let mut style = Style::new();
        style.add(".box", "width", "10px");
        style.add("div", "color", "red");
        style.add(".box", "width", "20px");
        style.add_media("(max-width:600px)", nested);
        style
    };
    assert!(build() == build());
}

#[test]
fn append_puts_new_blocks_and_media_at_the_end() {
    let mut a = Style::new();
    a.add("div", "color", "red");
    a.add_media("print", Style::new());
    let mut b = Style::new();
    b.add("span", "color", "blue");
    b.add("span", "width", "1px");
    b.add_media("screen", Style::new());
    a.append(&b);
    assert_eq!(a.blocks().len(), 2);
    assert_eq!(a.blocks()[0].0, "div");
    assert_eq!(a.blocks()[1].0, "span");
    assert_eq!(a.blocks()[1].1, declarations(&[("color", "blue"), ("width", "1px")]));
    assert_eq!(a.media().len(), 2);
    assert_eq!(a.media()[0].0, "print");
    assert_eq!(a.media()[1].0, "screen");
}

#[test]
fn append_lets_the_other_style_win() {
    let mut a = Style::new();
    a.add("div", "color", "red");
    a.add("div", "width", "1px");
    let mut b = Style::new();
    b.add("div", "color", "blue");
    b.add("div", "height", "2px");
    a.append(&b);
    assert_eq!(a.blocks().len(), 1);
    assert_eq!(
        a.blocks()[0].1,
        declarations(&[("color", "blue"), ("width", "1px"), ("height", "2px")])
    );
}

#[test]
fn append_never_merges_media_blocks() {
    let mut nested = Style::new();
    nested.add("div", "color", "red");
    let mut a = Style::new();
    a.add_media("print", nested.clone());
    let mut b = Style::new();
    b.add_media("print", nested);
    a.append(&b);
    assert_eq!(a.media().len(), 2);
    assert!(a.media()[0].1 == a.media()[1].1);
}

#[test]
fn append_of_the_empty_style_changes_nothing() {
    let mut a = Style::new();
    a.add("div", "color", "red");
    let before = a.clone();
    a.append(&Style::new());
    assert!(a == before);
}

#[test]
fn from_parts_refuses_a_selector_that_stands_twice() {
    let blocks = vec![
        (String::from("div"), declarations(&[("color", "red")])),
        (String::from("div"), declarations(&[("width", "1px")])),
    ];
    assert!(Style::from_parts(blocks, vec![]).is_none());
}

#[test]
fn from_parts_refuses_a_property_that_stands_twice() {
    let blocks = vec![(String::from("div"), declarations(&[("color", "red"), ("color", "blue")]))];
    assert!(Style::from_parts(blocks, vec![]).is_none());
}

#[test]
fn from_parts_keeps_the_given_order() {
    let blocks = vec![
        (String::from("span"), declarations(&[("width", "1px"), ("color", "red")])),
        (String::from("div"), declarations(&[])),
    ];
    let style = Style::from_parts(blocks.clone(), vec![(String::from("print"), Style::new())])
        .unwrap();
    assert_eq!(style.blocks(), &blocks);
    assert_eq!(style.media().len(), 1);
    assert_eq!(style.media()[0].0, "print");
}
