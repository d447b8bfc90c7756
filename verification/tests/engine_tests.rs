use blockfmt::block::{leading_use_run, Attr, Block, EmptyBlockStyle, Item, ItemKind};
use blockfmt::comment::{comment_code_slices, contains_comment, CodeCharKind};
use blockfmt::options::{Config, IndentStyle, LineRange, NewlineStyle};
use blockfmt::span::{mk_sp, SourceSpan};
use blockfmt::visitor::FmtVisitor;

fn config(max_width: usize) -> Config {
    Config {
        max_width,
        tab_spaces: 4,
        newline_style: NewlineStyle::Unix,
        indent_style: IndentStyle::Block,
        file_lines: None,
    }
}

fn visitor(source: &str, max_width: usize) -> FmtVisitor {
    FmtVisitor::from_source(source.as_bytes().to_vec(), config(max_width))
}

fn stmt(lo: usize, hi: usize, text: &str) -> Item {
    Item {
        kind: ItemKind::Statement,
        span: SourceSpan { lo, hi },
        formatted: text.as_bytes().to_vec(),
        requires_sep: false,
        is_import: false,
    }
}

fn use_item(lo: usize, hi: usize, text: &str) -> Item {
    Item {
        kind: ItemKind::Statement,
        span: SourceSpan { lo, hi },
        formatted: text.as_bytes().to_vec(),
        requires_sep: false,
        is_import: true,
    }
}

fn output(v: FmtVisitor) -> String {
    String::from_utf8(v.buffer).unwrap()
}

#[test]
fn slicer_splits_comments_and_code() {
    let text = b"a = 1; // one\nb /* two */ c".to_vec();
    let slices = comment_code_slices(&text);
    let rendered: Vec<(CodeCharKind, String)> = slices
        .iter()
        .map(|s| {
            (
                s.kind,
                String::from_utf8(text[s.offset..s.offset + s.len].to_vec()).unwrap(),
            )
        })
        .collect();
    assert_eq!(
        rendered,
        vec![
            (CodeCharKind::Normal, "a = 1; ".to_string()),
            (CodeCharKind::Comment, "// one".to_string()),
            (CodeCharKind::Normal, "\nb ".to_string()),
            (CodeCharKind::Comment, "/* two */".to_string()),
            (CodeCharKind::Normal, " c".to_string()),
        ]
    );
    // Concatenating the slices in order reconstructs the input exactly.
    let mut joined = Vec::new();
    for s in slices.iter() {
        joined.extend_from_slice(&text[s.offset..s.offset + s.len]);
    }
    assert_eq!(joined, text);
}

#[test]
fn slicer_handles_nested_block_comments() {
    let text = b"x /* a /* b */ c */ y".to_vec();
    let slices = comment_code_slices(&text);
    assert_eq!(slices.len(), 3);
    assert_eq!(slices[1].kind, CodeCharKind::Comment);
    assert_eq!(
        &text[slices[1].offset..slices[1].offset + slices[1].len],
        b"/* a /* b */ c */"
    );
}

#[test]
fn contains_comment_matches_openers() {
    assert!(contains_comment(&b"a // b".to_vec()));
    assert!(contains_comment(&b"/* x */".to_vec()));
    assert!(!contains_comment(&b"a / b * c".to_vec()));
    assert!(!contains_comment(&b"".to_vec()));
}

fn empty_block(source: &str, style: EmptyBlockStyle) -> Block {
    Block {
        items: Vec::new(),
        inner_attrs: None,
        empty_block_style: style,
        span: SourceSpan { lo: 0, hi: source.len() },
    }
}

#[test]
fn empty_block_single_line_collapses() {
    let src = "{  }";
    let mut v = visitor(src, 100);
    let b = empty_block(src, EmptyBlockStyle::SingleLine);
    v.visit_block(&b);
    assert_eq!(v.last_pos, src.len());
    assert_eq!(output(v), "{}");
}

#[test]
fn empty_block_multi_line_keeps_brace_on_next_line() {
    let src = "{  }";
    let mut v = visitor(src, 100);
    let b = empty_block(src, EmptyBlockStyle::MultiLine);
    v.visit_block(&b);
    assert_eq!(output(v), "{\n}");
}

#[test]
fn empty_block_over_width_breaks() {
    // The opening line is already at the width limit, so even the
    // single-line style must break.
    let src = "{  }";
    let mut v = visitor(src, 1);
    let b = empty_block(src, EmptyBlockStyle::SingleLine);
    v.visit_block(&b);
    assert_eq!(output(v), "{\n}");
}

#[test]
fn empty_block_with_comment_is_not_empty() {
    let src = "{ // note\n }";
    let mut v = visitor(src, 100);
    let b = empty_block(src, EmptyBlockStyle::SingleLine);
    v.visit_block(&b);
    assert_eq!(output(v), "{ // note\n}");
}

#[test]
fn comment_only_block_preserves_comments_with_one_blank_line() {
    // Scenario: multi-line empty style, but the block is non-empty because
    // of its comments; both survive with one blank line between them and
    // the closing brace on its own indented line.
    let src = "{ \n // hello\n\n // world\n }";
    let mut v = visitor(src, 100);
    let b = empty_block(src, EmptyBlockStyle::MultiLine);
    v.visit_block(&b);
    assert_eq!(output(v), "{\n    // hello\n\n    // world\n}");
}

#[test]
fn blank_line_normalization_collapses_many_blank_lines() {
    // Three blank lines in the source collapse to exactly one.
    let src = "{ \n // hello\n\n\n\n // world\n }";
    let mut v = visitor(src, 100);
    let b = empty_block(src, EmptyBlockStyle::MultiLine);
    v.visit_block(&b);
    assert_eq!(output(v), "{\n    // hello\n\n    // world\n}");
}

#[test]
fn blank_line_normalization_single_newline_gives_none() {
    let src = "{ \n // hello\n // world\n }";
    let mut v = visitor(src, 100);
    let b = empty_block(src, EmptyBlockStyle::MultiLine);
    v.visit_block(&b);
    assert_eq!(output(v), "{\n    // hello\n    // world\n}");
}

#[test]
fn idempotence_on_comment_only_block() {
    // Re-running the engine on its own output yields byte-identical output.
    let src = "{ \n // hello\n\n // world\n }";
    let mut v = visitor(src, 100);
    v.visit_block(&empty_block(src, EmptyBlockStyle::MultiLine));
    let first = output(v);

    let mut v2 = visitor(&first, 100);
    v2.visit_block(&empty_block(&first, EmptyBlockStyle::MultiLine));
    let second = output(v2);
    assert_eq!(first, second);
}

#[test]
fn idempotence_on_statement_block() {
    let src = "{ x; // trailing\n }";
    let mut v = visitor(src, 100);
    let b = Block {
        items: vec![stmt(2, 4, "x;")],
        inner_attrs: None,
        empty_block_style: EmptyBlockStyle::SingleLine,
        span: SourceSpan { lo: 0, hi: src.len() },
    };
    v.visit_block(&b);
    let first = output(v);
    assert_eq!(first, "{\n    x; // trailing\n}");

    // Re-parse the output: the statement now sits at bytes 6..8 and the
    // trailing comment follows it.
    let mut v2 = visitor(&first, 100);
    let b2 = Block {
        items: vec![stmt(6, 8, "x;")],
        inner_attrs: None,
        empty_block_style: EmptyBlockStyle::SingleLine,
        span: SourceSpan { lo: 0, hi: first.len() },
    };
    v2.visit_block(&b2);
    assert_eq!(output(v2), first);
}

#[test]
fn trailing_comment_unindents_before_else() {
    // Scenario: the conditional-chain flag is set and the comment cannot
    // stay on the statement's line, so it lands one level shallower than
    // the statement, ready for the `} else {` that follows.
    let src = "{ x; // trailing\n }";
    let mut v = visitor(src, 7);
    v.is_if_else_block = true;
    let b = Block {
        items: vec![stmt(2, 4, "x;")],
        inner_attrs: None,
        empty_block_style: EmptyBlockStyle::SingleLine,
        span: SourceSpan { lo: 0, hi: src.len() },
    };
    v.visit_block(&b);
    assert_eq!(output(v), "{\n    x;\n// trailing\n}");
}

#[test]
fn trailing_comment_stays_on_line_when_it_fits() {
    let src = "{ x; // trailing\n }";
    let mut v = visitor(src, 100);
    v.is_if_else_block = true;
    let b = Block {
        items: vec![stmt(2, 4, "x;")],
        inner_attrs: None,
        empty_block_style: EmptyBlockStyle::SingleLine,
        span: SourceSpan { lo: 0, hi: src.len() },
    };
    v.visit_block(&b);
    assert_eq!(output(v), "{\n    x; // trailing\n}");
}

#[test]
fn leading_use_grouping_boundary() {
    // Scenario: [use A; use B; stmt C; use D] — the leading group holds
    // exactly the first two; the later import is never merged into it.
    let items = vec![
        use_item(1, 7, "use A;"),
        use_item(8, 14, "use B;"),
        stmt(15, 22, "stmt_c;"),
        use_item(23, 29, "use D;"),
    ];
    assert_eq!(leading_use_run(&items, 0), 2);
    assert_eq!(leading_use_run(&items, 2), 0);
    assert_eq!(leading_use_run(&items, 3), 1);
    assert_eq!(leading_use_run(&items, 4), 0);
}

#[test]
fn walk_emits_items_in_order() {
    let src = "{use A;use B;stmt_c;use D;}";
    let mut v = visitor(src, 100);
    let items = vec![
        use_item(1, 7, "use A;"),
        use_item(7, 13, "use B;"),
        stmt(13, 20, "stmt_c;"),
        use_item(20, 26, "use D;"),
    ];
    let b = Block {
        items,
        inner_attrs: None,
        empty_block_style: EmptyBlockStyle::SingleLine,
        span: SourceSpan { lo: 0, hi: src.len() },
    };
    v.visit_block(&b);
    assert_eq!(
        output(v),
        "{\n    use A;\n    use B;\n    stmt_c;\n    use D;\n}"
    );
}

#[test]
fn trailing_separator_is_emitted() {
    let src = "{ x }";
    let mut v = visitor(src, 100);
    let mut item = stmt(2, 3, "x");
    item.requires_sep = true;
    let b = Block {
        items: vec![item],
        inner_attrs: None,
        empty_block_style: EmptyBlockStyle::SingleLine,
        span: SourceSpan { lo: 0, hi: src.len() },
    };
    v.visit_block(&b);
    assert_eq!(output(v), "{\n    x;\n}");
}

#[test]
fn inner_attrs_are_emitted_before_items() {
    let src = "{ #![allow(dead_code)] x; }";
    let mut v = visitor(src, 100);
    let b = Block {
        items: vec![stmt(23, 25, "x;")],
        inner_attrs: Some(vec![Attr {
            span: SourceSpan { lo: 2, hi: 22 },
            formatted: b"#![allow(dead_code)]".to_vec(),
        }]),
        empty_block_style: EmptyBlockStyle::SingleLine,
        span: SourceSpan { lo: 0, hi: src.len() },
    };
    v.visit_block(&b);
    assert_eq!(output(v), "{\n    #![allow(dead_code)]\n    x;\n}");
}

#[test]
fn out_of_file_lines_range_copies_tail_verbatim() {
    // The remaining span lies on lines outside the filter, so it is
    // copied byte for byte instead of being reconstructed.
    let src = "{ x;   // messy   \n }";
    let mut cfg = config(100);
    cfg.file_lines = Some(vec![LineRange { lo: 100, hi: 200 }]);
    let mut v = FmtVisitor::from_source(src.as_bytes().to_vec(), cfg);
    let b = Block {
        items: vec![stmt(2, 4, "x;")],
        inner_attrs: None,
        empty_block_style: EmptyBlockStyle::SingleLine,
        span: SourceSpan { lo: 0, hi: src.len() },
    };
    v.visit_block(&b);
    assert_eq!(output(v), "{\n    x;   // messy   \n }");
}

#[test]
fn close_block_keeps_stray_code() {
    let src = "{ x; y() \n }";
    let mut v = visitor(src, 100);
    let b = Block {
        items: vec![stmt(2, 4, "x;")],
        inner_attrs: None,
        empty_block_style: EmptyBlockStyle::SingleLine,
        span: SourceSpan { lo: 0, hi: src.len() },
    };
    v.visit_block(&b);
    assert_eq!(output(v), "{\n    x;\n    y()\n}");
}

#[test]
fn block_comment_in_tail_is_preserved() {
    let src = "{ x;\n/* keep\nme */\n }";
    let mut v = visitor(src, 100);
    let b = Block {
        items: vec![stmt(2, 4, "x;")],
        inner_attrs: None,
        empty_block_style: EmptyBlockStyle::SingleLine,
        span: SourceSpan { lo: 0, hi: src.len() },
    };
    v.visit_block(&b);
    // A multi-line comment is beyond the re-flow stand-in, so it is kept
    // byte for byte.
    assert_eq!(output(v), "{\n    x;\n    /* keep\nme */\n}");
}

#[test]
fn from_ast_module_drops_empty_attrs() {
    let b = Block::from_ast_module(
        Vec::new(),
        Vec::new(),
        EmptyBlockStyle::SingleLine,
        mk_sp(0, 2),
    );
    assert!(b.inner_attrs.is_none());
    let b2 = Block::from_ast_block(Vec::new(), None, EmptyBlockStyle::SingleLine, mk_sp(0, 2));
    assert!(b2.items.is_empty());
}

#[test]
fn walk_block_stmts_matches_walk_stmts() {
    let src = "{a;b;}";
    let mut v = visitor(src, 100);
    v.last_pos = 1;
    v.block_indent = blockfmt::shape::Indent { width: 4 };
    let items = vec![stmt(1, 3, "a;"), stmt(3, 5, "b;")];
    v.walk_block_stmts(&items);
    assert_eq!(output(v), "\n    a;\n    b;");
}

#[test]
fn visit_items_with_reordering_emits_the_run() {
    let src = "{use A;use B;}";
    let mut v = visitor(src, 100);
    v.last_pos = 1;
    v.block_indent = blockfmt::shape::Indent { width: 4 };
    let items = vec![use_item(1, 7, "use A;"), use_item(7, 13, "use B;")];
    v.visit_items_with_reordering(&items, 0, 2);
    assert_eq!(v.last_pos, 13);
    assert_eq!(output(v), "\n    use A;\n    use B;");
}

#[test]
fn unterminated_block_comment_runs_to_end() {
    let text = b"a /* open".to_vec();
    let slices = comment_code_slices(&text);
    assert_eq!(slices.len(), 2);
    assert_eq!(slices[1].kind, CodeCharKind::Comment);
    assert_eq!(slices[1].offset + slices[1].len, text.len());
}
