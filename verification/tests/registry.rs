use isaribi::identity::{styled_class, styled_class_prefix};
use isaribi::style::StyleModel;
use isaribi::{Injection, Registry, Style, Styled};
use vstd::seq::Seq;

fn box_style(width: &str) -> Style {
    let mut style = Style::new();
    style.add(".box", "width", width);
    style
}

fn rules_of(injection: Injection) -> Vec<String> {
    match injection {
        Injection::Rules(rules) => rules,
        Injection::AlreadyStyled => panic!("already styled"),
    }
}

// `kind_name` and `kind_style` stand for what `kind` and `style` return in
// contracts. They are never run.
struct Button;

impl Styled for Button {
    fn kind_name() -> Seq<char> {
        unreachable!()
    }

    fn kind_style() -> StyleModel {
        unreachable!()
    }

    fn kind() -> &'static str {
        "app::Button"
    }

    fn style() -> Style {
        box_style("10px")
    }
}

struct Dialog;

impl Styled for Dialog {
    fn kind_name() -> Seq<char> {
        unreachable!()
    }

    fn kind_style() -> StyleModel {
        unreachable!()
    }

    fn kind() -> &'static str {
        "app::Dialog"
    }

    fn style() -> Style {
        let mut style = box_style("20px");
        style.add_media("print", box_style("0"));
        style
    }
}

#[test]
fn new_registry_holds_no_kind() {
    let registry = Registry::new();
    assert!(!registry.is_styled("app::Button"));
    assert!(!registry.is_styled(""));
}

#[test]
fn first_call_hands_out_the_rules_under_the_prefix_of_the_kind() {
    let mut registry = Registry::new();
    let rules = rules_of(registry.ensure_injected("app::Button", &box_style("10px")));
    let prefix = styled_class_prefix("app::Button");
    assert_eq!(rules, vec![format!("._{}__box{{width:10px;}}", prefix)]);
    assert!(registry.is_styled("app::Button"));
}

#[test]
fn later_calls_hand_out_nothing() {
    let mut registry = Registry::new();
    let mut batches = 0;
    for _ in 0..5 {
        match registry.ensure_injected("app::Button", &box_style("10px")) {
            Injection::Rules(_) => batches += 1,
            Injection::AlreadyStyled => {}
        }
    }
    assert_eq!(batches, 1);
    assert!(matches!(
        registry.ensure_injected("app::Button", &box_style("99px")),
        Injection::AlreadyStyled
    ));
}

#[test]
fn kinds_are_styled_each_on_its_own() {
    let mut registry = Registry::new();
    let first = rules_of(registry.ensure_injected("app::Button", &box_style("10px")));
    assert!(!registry.is_styled("app::Dialog"));
    let second = rules_of(registry.ensure_injected("app::Dialog", &box_style("10px")));
    assert!(registry.is_styled("app::Button"));
    assert!(registry.is_styled("app::Dialog"));
    assert_ne!(first, second);
    assert!(first[0].starts_with(&format!(".{}", styled_class("app::Button", "box"))));
    assert!(second[0].starts_with(&format!(".{}", styled_class("app::Dialog", "box"))));
}

#[test]
fn registries_do_not_share_what_they_record() {
    let mut one = Registry::new();
    let mut two = Registry::new();
    rules_of(one.ensure_injected("app::Button", &box_style("10px")));
    assert!(!two.is_styled("app::Button"));
    rules_of(two.ensure_injected("app::Button", &box_style("10px")));
}

#[test]
fn empty_style_is_injected_as_an_empty_batch() {
    let mut registry = Registry::new();
    assert_eq!(rules_of(registry.ensure_injected("app::Empty", &Style::new())), Vec::<String>::new());
    assert!(registry.is_styled("app::Empty"));
}

#[test]
fn styled_hands_the_node_back_and_injects_once() {
    let mut registry = Registry::new();
    let (node, injection) = Button::styled(&mut registry, 7);
    assert_eq!(node, 7);
    assert_eq!(rules_of(injection), vec![format!(".{}{{width:10px;}}", Button::class("box"))]);
    let (node, injection) = Button::styled(&mut registry, "again");
    assert_eq!(node, "again");
    assert!(matches!(injection, Injection::AlreadyStyled));
    let (_, injection) = Button::styled(&mut registry, ());
    assert!(matches!(injection, Injection::AlreadyStyled));
}

#[test]
fn styled_kinds_with_the_same_class_do_not_collide() {
    let mut registry = Registry::new();
    let (_, button) = Button::styled(&mut registry, ());
    let (_, dialog) = Dialog::styled(&mut registry, ());
    let button = rules_of(button);
    let dialog = rules_of(dialog);
    assert_ne!(Button::class("box"), Dialog::class("box"));
    assert_eq!(button, vec![format!(".{}{{width:10px;}}", Button::class("box"))]);
    assert_eq!(
        dialog,
        vec![
            format!(".{}{{width:20px;}}", Dialog::class("box")),
            format!("@media print{{.{}{{width:0;}}}}", Dialog::class("box")),
        ]
    );
}

#[test]
fn class_goes_by_the_kind() {
    assert_eq!(Button::class("box"), styled_class("app::Button", "box"));
    assert_eq!(Dialog::class("box"), styled_class("app::Dialog", "box"));
    assert_eq!(Button::kind(), "app::Button");
}
