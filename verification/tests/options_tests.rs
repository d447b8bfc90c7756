use blockfmt::options::{
    Color, Config, ConfigPath, Density, EmitMode, Edition, FileName, IgnoreList, ListTactic,
    NewlineStyle, WidthHeuristics,
};

#[test]
fn test_newline_style_auto_detect() {
    let lf = "One\nTwo\nThree";
    let crlf = "One\r\nTwo\r\nThree";
    let none = "One Two Three";

    assert_eq!(NewlineStyle::Unix, NewlineStyle::auto_detect(lf));
    assert_eq!(NewlineStyle::Windows, NewlineStyle::auto_detect(crlf));
    assert_eq!(NewlineStyle::Native, NewlineStyle::auto_detect(none));
}

#[test]
fn test_newline_style_auto_apply() {
    let auto = NewlineStyle::Auto;

    let formatted_text = "One\nTwo\nThree";
    let raw_input_text = "One\nTwo\nThree";

    let mut out = String::from(formatted_text);
    auto.apply(&mut out, raw_input_text);
    assert_eq!("One\nTwo\nThree", out.as_str(), "auto should detect 'lf'");

    let formatted_text = "One\nTwo\nThree";
    let raw_input_text = "One\r\nTwo\r\nThree";

    let mut out = String::from(formatted_text);
    auto.apply(&mut out, raw_input_text);
    assert_eq!("One\r\nTwo\r\nThree", out.as_str(), "auto should detect 'crlf'");

    let formatted_text = "One\nTwo\nThree";
    let raw_input_text = "One Two Three";

    let mut out = String::from(formatted_text);
    auto.apply(&mut out, raw_input_text);
    assert_eq!(
        "One\nTwo\nThree",
        out.as_str(),
        "auto-native-unix should detect 'lf'"
    );
}

#[test]
fn newline_style_windows_apply() {
    let mut out = String::from("a\nb\r\nc");
    NewlineStyle::Windows.apply(&mut out, "ignored");
    assert_eq!("a\r\nb\r\nc", out.as_str());
}

#[test]
fn density_to_list_tactic() {
    assert_eq!(Density::Compressed.to_list_tactic(3), ListTactic::Mixed);
    assert_eq!(Density::Tall.to_list_tactic(3), ListTactic::HorizontalVertical);
    assert_eq!(Density::Vertical.to_list_tactic(1), ListTactic::Horizontal);
    assert_eq!(Density::Vertical.to_list_tactic(3), ListTactic::Vertical);
}

#[test]
fn width_heuristics_null_and_set() {
    let null = WidthHeuristics::null();
    assert_eq!(null.fn_call_width, usize::MAX);
    assert_eq!(null.struct_lit_width, 0);
    assert_eq!(null.single_line_if_else_max_width, 0);

    let set = WidthHeuristics::set(42);
    assert_eq!(set.fn_call_width, 42);
    assert_eq!(set.attr_fn_like_width, 42);
    assert_eq!(set.struct_lit_width, 42);
    assert_eq!(set.struct_variant_width, 42);
    assert_eq!(set.array_width, 42);
    assert_eq!(set.chain_width, 42);
    assert_eq!(set.single_line_if_else_max_width, 42);
}

#[test]
fn width_heuristics_scaled_default_width() {
    let w = WidthHeuristics::scaled(100);
    assert_eq!(w.fn_call_width, 60);
    assert_eq!(w.attr_fn_like_width, 70);
    assert_eq!(w.struct_lit_width, 18);
    assert_eq!(w.struct_variant_width, 35);
    assert_eq!(w.array_width, 60);
    assert_eq!(w.chain_width, 60);
    assert_eq!(w.single_line_if_else_max_width, 50);
}

#[test]
fn width_heuristics_scaled_wider() {
    // 120 columns: ratio 1.2, each threshold rounded to the nearest column.
    let w = WidthHeuristics::scaled(120);
    assert_eq!(w.fn_call_width, 72);
    assert_eq!(w.attr_fn_like_width, 84);
    assert_eq!(w.struct_lit_width, 22);
    assert_eq!(w.struct_variant_width, 42);
    assert_eq!(w.array_width, 72);
    assert_eq!(w.chain_width, 72);
    assert_eq!(w.single_line_if_else_max_width, 60);
}

fn path(absolute: bool, components: &[&str]) -> ConfigPath {
    ConfigPath {
        absolute,
        components: components.iter().map(|s| s.to_string()).collect(),
    }
}

#[test]
fn ignore_list_add_prefix_roots_relative_entries() {
    let mut list = IgnoreList(vec![path(false, &["src", "lib.rs"]), path(true, &["etc"])]);
    list.add_prefix(&path(true, &["home", "project"]));
    assert!(list.0[0].absolute);
    assert_eq!(list.0[0].components, vec!["home", "project", "src", "lib.rs"]);
    assert!(list.0[1].absolute);
    assert_eq!(list.0[1].components, vec!["etc"]);
}

#[test]
fn ignore_list_skip_file() {
    let list = IgnoreList(vec![path(true, &["home", "project", "src"])]);
    let inside = FileName::Real(path(true, &["home", "project", "src", "main.rs"]));
    let outside = FileName::Real(path(true, &["home", "other", "src", "main.rs"]));
    let relative = FileName::Real(path(false, &["home", "project", "src", "main.rs"]));
    assert!(list.skip_file(&inside));
    assert!(!list.skip_file(&outside));
    assert!(!list.skip_file(&relative));
    assert!(!list.skip_file(&FileName::Stdin));
}

#[test]
fn color_use_colored_tty_fixed_choices() {
    assert!(Color::Always.use_colored_tty());
    assert!(!Color::Never.use_colored_tty());
    assert!(Color::Auto.use_colored_tty_given(true));
    assert!(!Color::Auto.use_colored_tty_given(false));
}

#[test]
fn defaults() {
    assert_eq!(EmitMode::default(), EmitMode::Files);
    assert_eq!(Edition::default(), Edition::Edition2015);
    let c = Config::default();
    assert_eq!(c.max_width, 100);
    assert_eq!(c.tab_spaces, 4);
    assert_eq!(c.newline_style, NewlineStyle::Auto);
    assert!(c.file_lines.is_none());
}

#[test]
fn auto_detect_newline_at_start_is_unix() {
    assert_eq!(NewlineStyle::Unix, NewlineStyle::auto_detect("\nrest"));
    assert_eq!(NewlineStyle::Unix, NewlineStyle::native());
}
