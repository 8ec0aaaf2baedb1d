use reporocket::theme::{parse_color, parse_theme_yaml, theme_names, unquote, nibble, Color, ThemeColors};

#[test]
fn parses_hex_colors() {
    let color = parse_color("#2f5f8f").unwrap();
    assert_eq!(color.red(), 0x2f);
    assert_eq!(color.green(), 0x5f);
    assert_eq!(color.blue(), 0x8f);
    let short = parse_color("#abc").unwrap();
    assert_eq!(
        (short.red(), short.green(), short.blue()),
        (0xaa, 0xbb, 0xcc)
    );
}

#[test]
fn parses_flat_theme_yaml() {
    let colors = parse_theme_yaml("accent-color: \"#112233\"\ntext-color: #fff\n");
    assert_eq!(colors.accent.red(), 0x11);
    assert_eq!(colors.text.red(), 0xff);
}

#[test]
fn colors_with_alpha_and_invalid_forms() {
    let c = parse_color("  #10203040 ").unwrap();
    assert_eq!((c.red(), c.green(), c.blue(), c.alpha()), (0x10, 0x20, 0x30, 0x40));
    let opaque = parse_color("#102030ff").unwrap();
    assert_eq!(opaque, Color::rgb(0x10, 0x20, 0x30));
    assert_eq!(parse_color("#+f+e+d").unwrap(), Color::rgb(0x0f, 0x0e, 0x0d));
    assert_eq!(parse_color("102030"), None);
    assert_eq!(parse_color("#12345"), None);
    assert_eq!(parse_color("#ggg"), None);
    assert_eq!(parse_color("#é1234"), None);
}

#[test]
fn nibbles_widen_digits() {
    assert_eq!(nibble(b'a'), Some(0xaa));
    assert_eq!(nibble(b'F'), Some(0xff));
    assert_eq!(nibble(b'0'), Some(0));
    assert_eq!(nibble(b'g'), None);
}

#[test]
fn yaml_skips_comments_unknown_keys_and_bad_values() {
    let text = "# comment\n\nunknown: #123456\nborder-color: nonsense\nmodal-color: '#010203' # trailing\r\n  danger-color :  #abcdef\naccent-color: '#0a0b0c'\ntext-color: #040506 # trailing\n";
    let colors = parse_theme_yaml(text);
    let dark = ThemeColors::dark();
    assert_eq!(colors.border, dark.border);
    assert_eq!(colors.modal, dark.modal);
    assert_eq!(colors.accent, Color::rgb(10, 11, 12));
    assert_eq!(colors.text, Color::rgb(4, 5, 6));
    assert_eq!(colors.danger, Color::rgb(0xab, 0xcd, 0xef));
    assert_eq!(colors.background, dark.background);
    assert_eq!(parse_theme_yaml(""), dark);
}

#[test]
fn unquote_removes_one_matching_pair() {
    assert_eq!(unquote("\"abc\""), "abc");
    assert_eq!(unquote("'abc'"), "abc");
    assert_eq!(unquote("\"abc'"), "\"abc'");
    assert_eq!(unquote("\""), "\"");
    assert_eq!(unquote("''"), "");
}

#[test]
fn named_themes() {
    assert_eq!(ThemeColors::named("Default Dark", None), ThemeColors::dark());
    assert_eq!(ThemeColors::named("Default Light", Some("text-color: #000")), ThemeColors::light());
    let custom = ThemeColors::named("Mine", Some("text-color: #000"));
    assert_eq!(custom.text, Color::rgb(0, 0, 0));
    assert_eq!(ThemeColors::named("Missing", None), ThemeColors::dark());
    assert_eq!(ThemeColors::light().overlay, Color::argb(220, 10, 14, 20));
}

#[test]
fn theme_list_puts_builtins_first_then_sorted_names() {
    let names = theme_names(vec!["zeta".into(), "Alpha".into(), "beta".into()]);
    assert_eq!(names, vec!["Default Dark", "Default Light", "Alpha", "beta", "zeta"]);
}

#[test]
fn an_appended_line_sets_only_its_own_colour() {
    let base = "accent-color: #112233\ntext-color: #445566";
    let before = parse_theme_yaml(base);
    let after = parse_theme_yaml(&format!("{base}\n  border-color : '#0a0b0c'"));
    let mut expected = before;
    expected.border = Color::rgb(10, 11, 12);
    assert_eq!(after, expected);
    for line in ["", "# border-color: #000000", "border-color #000000", "unknown: #000000", "border-color: red"] {
        assert_eq!(parse_theme_yaml(&format!("{base}\n{line}")), before);
    }
}
