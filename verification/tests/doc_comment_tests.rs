use blockfmt::doc_comment::{
    filter_doc_comments, parse_doc_comment, take_code_block, skip_until_next_header, DocComment,
    FieldAttr, ParseDocCommentError,
};

fn doc(s: &str) -> FieldAttr {
    FieldAttr::Doc(s.to_string())
}

#[test]
fn filter_doc_comments_test() {
    let attrs = vec![
        doc(" first line."),
        doc(""),
        doc(" third line."),
        FieldAttr::Other,
        doc(" second group."),
    ];
    let doc_comments = filter_doc_comments(&attrs);
    assert_eq!(doc_comments, "first line.\n\nthird line.\nsecond group.");
}

#[test]
fn parse_doc_comment_test() {
    let attrs = vec![
        doc(" A description."),
        doc(""),
        doc(" ### Example"),
        doc(""),
        doc(" #### Input"),
        doc(""),
        doc(" ```rust"),
        doc(" fn main() {"),
        doc("     println!(\"Hello world.\");"),
        doc(" }"),
        doc(" ```"),
        doc(""),
        doc(" #### Output"),
        doc(""),
        doc(" ##### Option value 1"),
        doc(" ```rust"),
        doc(" fn main() {"),
        doc("     println!(\"Hello world.\");"),
        doc(" }"),
        doc(" ```"),
        doc(""),
        doc(""),
        doc(""),
        doc(" ##### Option value 1"),
        doc(""),
        doc(""),
        doc(" ```rust"),
        doc(" fn main() {"),
        doc("   println!(\"Hello world.\");"),
        doc(" }"),
        doc(" ```"),
        doc(""),
        doc(""),
    ];
    let doc_comment = parse_doc_comment(&attrs).unwrap();
    assert_eq!(doc_comment.description(), "A description.");
    let input_s = r#"fn main() {
    println!("Hello world.");
}"#;
    assert_eq!(doc_comment.example().input(), input_s);
    let output_1 = r#"fn main() {
    println!("Hello world.");
}"#;
    let output_2 = r#"fn main() {
  println!("Hello world.");
}"#;
    assert_eq!(doc_comment.example().output().len(), 2);
    assert_eq!(doc_comment.example().output()[0].1, output_1);
    assert_eq!(doc_comment.example().output()[1].1, output_2);
}

#[test]
fn from_str_parses_a_full_doc_text() {
    let text = "Puts braces on their own lines.\n\n### Example\n\n#### Input\n```rust\nfn f() {}\n```\n\n#### Output\n##### true\n```rust\nfn f()\n{\n}\n```\n";
    let d = DocComment::from_str(text).unwrap();
    assert_eq!(d.description(), "Puts braces on their own lines.");
    assert_eq!(d.example().input(), "fn f() {}");
    assert_eq!(d.example().output().len(), 1);
    assert_eq!(d.example().output()[0].0, "true");
    assert_eq!(d.example().output()[0].1, "fn f()\n{\n}");
}

#[test]
fn from_str_missing_example() {
    let r = DocComment::from_str("Just a description.");
    assert!(matches!(r, Err(ParseDocCommentError::MissingExample)));
}

#[test]
fn from_str_wrong_example_header() {
    let r = DocComment::from_str("Desc.\n## Wrong");
    match r {
        Err(ParseDocCommentError::InvalidFormat(expected, found)) => {
            assert_eq!(expected, "`### Example`");
            assert_eq!(found, "## Wrong");
        }
        other => panic!("unexpected result: {:?}", other.is_ok()),
    }
}

#[test]
fn from_str_missing_description() {
    let r = DocComment::from_str("### Example\n#### Input\n```\nx\n```\n#### Output\n##### v\n```\ny\n```");
    assert!(matches!(r, Err(ParseDocCommentError::MissingDescription)));
}

#[test]
fn from_str_missing_input() {
    let r = DocComment::from_str("Desc.\n### Example");
    assert!(matches!(r, Err(ParseDocCommentError::MissingInput)));
}

#[test]
fn from_str_missing_code_block() {
    let r = DocComment::from_str("Desc.\n### Example\n#### Input\nno fence here");
    assert!(matches!(r, Err(ParseDocCommentError::MissingCodeBlock)));
}

#[test]
fn from_str_missing_output() {
    let r = DocComment::from_str("Desc.\n### Example\n#### Input\n```\nx\n```");
    assert!(matches!(r, Err(ParseDocCommentError::MissingOutput)));
}

#[test]
fn from_str_missing_output_values() {
    let r = DocComment::from_str("Desc.\n### Example\n#### Input\n```\nx\n```\n#### Output");
    assert!(matches!(r, Err(ParseDocCommentError::MissingOutput)));
}

#[test]
fn take_code_block_collects_until_closing_fence() {
    let lines: Vec<String> = vec!["skip", "```rust", "a", "b", "```", "rest"]
        .into_iter()
        .map(|s| s.to_string())
        .collect();
    let (r, end) = take_code_block(&lines, 0);
    assert_eq!(r.unwrap(), "a\nb");
    assert_eq!(end, 5);
}

#[test]
fn skip_until_next_header_stops_at_hash() {
    let lines: Vec<String> = vec!["a", "b", "# h", "c"]
        .into_iter()
        .map(|s| s.to_string())
        .collect();
    assert_eq!(skip_until_next_header(&lines, 0), 2);
    assert_eq!(skip_until_next_header(&lines, 3), 4);
}
