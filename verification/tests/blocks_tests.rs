use rspolib::blocks::Code;
use rspolib::blocks::FormattedText;
use rspolib::blocks::Inlinelink;
use rspolib::blocks::Link;
use rspolib::blocks::Paragraph;
use rspolib::blocks::PlainText;
use rspolib::blocks::Style;
use rspolib::blocks::Wikilink;
use rspolib::circuit_info::CircuitFlags;

#[test]
fn plain_text_to_html() {
    let text = PlainText {
        content: "hello world".to_string(),
    };
    assert_eq!(text.to_html(), "hello world ");
}

#[test]
fn wikilink_to_html() {
    let link = Wikilink {
        target: Link::WikilinkTarget("Main Page".to_string()),
        title: "the front page".to_string(),
    };
    assert_eq!(link.to_html(), "<a href='Main Page'>the front page</a> ");

    // an empty title falls back to the target
    let untitled = Wikilink {
        target: Link::Url("https://example.org".to_string()),
        title: "".to_string(),
    };
    assert_eq!(
        untitled.to_html(),
        "<a href='https://example.org'>https://example.org</a> "
    );
}

#[test]
fn inlinelink_trims_target() {
    let link = Inlinelink {
        target: Link::Url("  https://example.org \t".to_string()),
        title: "example".to_string(),
    };
    assert_eq!(link.to_html(), "<a href='https://example.org'>example</a> ");
}

#[test]
fn formatted_text_to_html() {
    let text = FormattedText {
        style: Style::Italic,
        content: "slanted".to_string(),
    };
    assert_eq!(text.to_html(), "<em>slanted</em> ");
}

#[test]
fn code_to_html() {
    let code = Code {
        content: "let x = 1;".to_string(),
    };
    assert_eq!(code.to_html(), "<pre>let x = 1;</pre>");
}

#[test]
fn circuit_flags_check_and_all_true() {
    let flags = CircuitFlags(0b0011);
    assert!(flags.check(CircuitFlags(CircuitFlags::IS_CONSTANT)));
    assert!(flags.check(CircuitFlags(CircuitFlags::IS_EXPLICITLY_COMPUTABLE)));
    assert!(!flags.check(CircuitFlags(CircuitFlags::CAN_BE_SAMPLED)));
    assert!(!flags.check(CircuitFlags(CircuitFlags::NONE)));

    assert_eq!(CircuitFlags::all_true(), CircuitFlags(0b1111));
    assert_eq!(CircuitFlags::default(), CircuitFlags::all_true());
    assert!(CircuitFlags::all_true().check(CircuitFlags(CircuitFlags::USE_AUTONAME)));
}
