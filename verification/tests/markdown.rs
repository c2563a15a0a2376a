use flodo::markdown::{
    family_for, inline_spans, parse, Block, Span, Style, FAMILY_BOLD_ITALIC, FAMILY_MONO, FAMILY_UI,
};

fn text_of(spans: &[Span]) -> String {
    spans.iter().map(|s| s.text.as_str()).collect()
}

#[test]
fn plain_text_is_one_paragraph() {
    let b = parse("hello world");
    assert_eq!(b.len(), 1);
    match &b[0] {
        Block::Paragraph(s) => assert_eq!(text_of(s), "hello world"),
        other => panic!("expected paragraph, got {other:?}"),
    }
}

#[test]
fn bold_italic_and_strikethrough_are_captured() {
    let b = parse("a **bold** _em_ ~~gone~~");
    let Block::Paragraph(spans) = &b[0] else {
        panic!("expected paragraph")
    };
    let bold = spans.iter().find(|s| s.style.strong).unwrap();
    assert_eq!(bold.text, "bold");
    let em = spans.iter().find(|s| s.style.emph).unwrap();
    assert_eq!(em.text, "em");
    let st = spans.iter().find(|s| s.style.strike).unwrap();
    assert_eq!(st.text, "gone");
}

#[test]
fn inline_code_is_marked_but_not_a_code_block() {
    let b = parse("run `cargo test` now");
    let Block::Paragraph(spans) = &b[0] else {
        panic!()
    };
    let code = spans.iter().find(|s| s.style.code).unwrap();
    assert_eq!(code.text, "cargo test");
    assert!(!b.iter().any(|x| matches!(x, Block::Code { .. })));
}

#[test]
fn fenced_code_keeps_its_language_and_exact_text() {
    let b = parse("```rust\nfn main() {\n    println!(\"hi\");\n}\n```");
    let Block::Code { lang, text } = &b[0] else {
        panic!("expected code block, got {:?}", b)
    };
    assert_eq!(lang, "rust");
    assert_eq!(text, "fn main() {\n    println!(\"hi\");\n}");
}

#[test]
fn a_fence_with_no_language_still_parses() {
    let b = parse("```\nplain\n```");
    assert!(matches!(&b[0], Block::Code { lang, text } if lang.is_empty() && text == "plain"));
}

#[test]
fn an_unclosed_fence_still_yields_its_content() {
    let b = parse("```rust\nfn main() {}");
    assert!(
        matches!(&b[0], Block::Code { text, .. } if text.contains("fn main")),
        "got {b:?}"
    );
}

#[test]
fn lists_track_depth_and_ordinals() {
    let b = parse("- one\n- two\n  - nested");
    let items: Vec<_> = b
        .iter()
        .filter_map(|x| match x {
            Block::Item { depth, spans, .. } => Some((*depth, text_of(spans))),
            _ => None,
        })
        .collect();
    assert_eq!(items[0], (0, "one".into()));
    assert_eq!(items[1], (0, "two".into()));
    assert_eq!(items[2], (1, "nested".into()));
}

#[test]
fn loose_lists_keep_their_item_text() {
    let b = parse("- one\n\n- two\n");
    let items: Vec<_> = b
        .iter()
        .filter_map(|x| match x {
            Block::Item { spans, .. } => Some(text_of(spans)),
            _ => None,
        })
        .collect();
    assert_eq!(items, vec!["one".to_string(), "two".to_string()]);
    assert!(
        !b.iter().any(|x| matches!(x, Block::Paragraph(_))),
        "item text must not leak out as a bare paragraph: {b:?}"
    );
}

#[test]
fn ordered_lists_number_upward() {
    let b = parse("1. first\n2. second\n3. third");
    let markers: Vec<_> = b
        .iter()
        .filter_map(|x| match x {
            Block::Item { marker, .. } => *marker,
            _ => None,
        })
        .collect();
    assert_eq!(markers, vec![1, 2, 3]);
}

#[test]
fn an_ordered_list_starts_at_its_first_number() {
    let b = parse("7. seven\n8. eight");
    let markers: Vec<_> = b
        .iter()
        .filter_map(|x| match x {
            Block::Item { marker, .. } => *marker,
            _ => None,
        })
        .collect();
    assert_eq!(markers, vec![7, 8]);
}

#[test]
fn headings_carry_their_level() {
    let b = parse("# one\n## two\n### three");
    let levels: Vec<_> = b
        .iter()
        .filter_map(|x| match x {
            Block::Heading { level, .. } => Some(*level),
            _ => None,
        })
        .collect();
    assert_eq!(levels, vec![1, 2, 3]);
}

#[test]
fn links_and_quotes_and_rules_are_recognised() {
    let b = parse("[docs](https://example.com)\n\n> quoted\n\n---");
    let Block::Paragraph(spans) = &b[0] else {
        panic!()
    };
    assert_eq!(spans[0].style.link.as_deref(), Some("https://example.com"));
    assert!(b.iter().any(|x| matches!(x, Block::Quote(_))));
    assert!(b.iter().any(|x| matches!(x, Block::Rule)));
}

#[test]
fn adjacent_runs_with_identical_styling_are_merged() {
    let Block::Paragraph(spans) = &parse("one two three")[0] else {
        panic!()
    };
    assert_eq!(spans.len(), 1, "should not fragment: {spans:?}");
}

#[test]
fn a_soft_break_becomes_a_space_inside_one_run() {
    let Block::Paragraph(spans) = &parse("one\ntwo")[0] else {
        panic!()
    };
    assert_eq!(spans.len(), 1);
    assert_eq!(spans[0].text, "one two");
}

#[test]
fn raw_html_shows_as_text_rather_than_vanishing() {
    let b = parse("<div>hi</div>");
    let all: String = b
        .iter()
        .filter_map(|x| match x {
            Block::Paragraph(s) | Block::Quote(s) => Some(text_of(s)),
            _ => None,
        })
        .collect();
    assert!(all.contains("div"), "got {b:?}");
}

#[test]
fn pathological_input_does_not_panic() {
    let deep_list = (0..100)
        .map(|i| format!("{}- x", " ".repeat(i * 2)))
        .collect::<Vec<_>>()
        .join("\n");
    let cases = vec![
        String::new(),
        "*".into(),
        "**".into(),
        "***".into(),
        "`".into(),
        "```".into(),
        "```rust".into(),
        "> ".into(),
        "[".into(),
        "[]()".into(),
        "![](".into(),
        "#".repeat(50),
        "~".repeat(50),
        "a".repeat(100_000),
        "\0\u{feff}\u{202e}".into(),
        "🎉 emoji ✅ test".into(),
        deep_list,
        "|a|b|\n|-|-|\n|1|2|".into(),
    ];
    for c in cases {
        let _ = parse(&c);
    }
}

#[test]
fn empty_input_produces_no_blocks() {
    assert!(parse("").is_empty());
    assert!(parse("   \n  \n").is_empty());
}

#[test]
fn a_title_flattens_to_one_line_of_runs() {
    let spans = inline_spans(parse("# Ship **it**"));
    assert_eq!(text_of(&spans), "Ship it");
    assert!(spans.iter().any(|s| s.style.strong && s.text == "it"));
    let code = inline_spans(parse("```\nx\n```"));
    assert_eq!(code.len(), 1);
    assert!(code[0].style.code);
    assert!(inline_spans(parse("---")).is_empty());
}

#[test]
fn runs_are_drawn_in_the_family_of_their_style() {
    let plain = Style::default();
    assert_eq!(family_for(&plain), FAMILY_UI);
    let both = Style { strong: true, emph: true, ..Style::default() };
    assert_eq!(family_for(&both), FAMILY_BOLD_ITALIC);
    let code = Style { code: true, strong: true, ..Style::default() };
    assert_eq!(family_for(&code), FAMILY_MONO);
}
