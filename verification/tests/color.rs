use chevron::color::{arrow, bash_wrap_escapes, bg, fg, wrap_for_shell, zsh_wrap_escapes, ARROW};

#[test]
fn fg_produces_ansi_color() {
    assert_eq!(fg(31), "\x1b[38;5;31m");
    assert_eq!(fg(0), "\x1b[38;5;0m");
    assert_eq!(fg(255), "\x1b[38;5;255m");
}

#[test]
fn bg_produces_ansi_color() {
    assert_eq!(bg(31), "\x1b[48;5;31m");
    assert_eq!(bg(0), "\x1b[48;5;0m");
}

#[test]
fn zsh_wrap_no_escapes() {
    assert_eq!(zsh_wrap_escapes("hello"), "hello");
}

#[test]
fn zsh_wrap_single_escape() {
    let input = format!("{}text", fg(31));
    let wrapped = zsh_wrap_escapes(&input);
    assert_eq!(wrapped, "%{\x1b[38;5;31m%}text");
}

#[test]
fn zsh_wrap_multiple_escapes() {
    let input = format!("{}hello{}world", fg(31), bg(236));
    let wrapped = zsh_wrap_escapes(&input);
    assert_eq!(wrapped, "%{\x1b[38;5;31m%}hello%{\x1b[48;5;236m%}world");
}

#[test]
fn zsh_wrap_preserves_visible_text() {
    let input = format!("{} $ {}", fg(15), fg(9));
    let wrapped = zsh_wrap_escapes(&input);
    assert!(wrapped.contains(" $ "));
    assert!(wrapped.contains("%{"));
    assert!(wrapped.contains("%}"));
}

#[test]
fn arrow_with_from_bg_includes_glyph() {
    let out = arrow(Some(237), 148);
    assert!(out.contains(&fg(237)));
    assert!(out.contains(&bg(148)));
    assert!(out.contains(ARROW));
}

#[test]
fn arrow_without_from_bg_is_just_bg() {
    let out = arrow(None, 31);
    assert_eq!(out, bg(31));
    assert!(!out.contains(ARROW));
}

#[test]
fn bash_wrap_single_escape() {
    let input = format!("{}text", fg(31));
    let wrapped = bash_wrap_escapes(&input);
    assert_eq!(wrapped, "\x01\x1b[38;5;31m\x02text");
}

#[test]
fn bash_wrap_multiple_escapes() {
    let input = format!("{}hello{}world", fg(31), bg(236));
    let wrapped = bash_wrap_escapes(&input);
    assert_eq!(
        wrapped,
        "\x01\x1b[38;5;31m\x02hello\x01\x1b[48;5;236m\x02world"
    );
}

#[test]
fn bash_wrap_no_escapes() {
    assert_eq!(bash_wrap_escapes("hello"), "hello");
}

#[test]
fn wrap_for_shell_zsh_default() {
    let input = format!("{}text", fg(31));
    let wrapped = wrap_for_shell("zsh", &input);
    assert_eq!(wrapped, zsh_wrap_escapes(&input));
}

#[test]
fn wrap_for_shell_bash() {
    let input = format!("{}text", fg(31));
    let wrapped = wrap_for_shell("bash", &input);
    assert_eq!(wrapped, bash_wrap_escapes(&input));
}

#[test]
fn wrap_for_shell_fish_passthrough() {
    let input = format!("{}text", fg(31));
    let wrapped = wrap_for_shell("fish", &input);
    assert_eq!(wrapped, input);
}

#[test]
fn wrap_for_shell_unknown_defaults_to_zsh() {
    let input = format!("{}text", fg(31));
    let wrapped = wrap_for_shell("unknown", &input);
    assert_eq!(wrapped, zsh_wrap_escapes(&input));
}

#[test]
fn marks_are_all_that_wrapping_adds() {
    let input = format!("{}a{}b\x1b[0m", fg(1), bg(2));
    assert_eq!(zsh_wrap_escapes(&input).replace("%{", "").replace("%}", ""), input);
    assert_eq!(bash_wrap_escapes(&input).replace('\x01', "").replace('\x02', ""), input);
}

#[test]
fn an_escape_without_an_end_is_left() {
    assert_eq!(bash_wrap_escapes("x\x1b[38;5"), "x\x1b[38;5");
}

#[test]
fn the_shells_differ_in_their_marks() {
    for s in ["100% of \x1b[38;5;31mtext\x1b[0m", "\x1b[1m%m%% \x1b[0m}{", "%\x1b[1m{\x1b[0m"] {
        let zsh = zsh_wrap_escapes(s);
        assert_eq!(zsh.replace("%{", "\x01").replace("%}", "\x02"), bash_wrap_escapes(s));
        assert_eq!(zsh.replace("%{", "").replace("%}", ""), s);
    }
    assert_eq!(bash_wrap_escapes("\x1b[38;5;31mtext"), "\x01\x1b[38;5;31m\x02text");
}
