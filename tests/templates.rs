use shell_prompt::format::{brace_arg_len, get_arg, parse_offset};
use shell_prompt::{ColorError, ColorKind, FormatIssue, Position, Prompt, PromptSection, SectionOptions};

fn section(text: &str, format: &str, fg: &str, bg: &str, position: Position) -> PromptSection {
    PromptSection {
        text: text.to_string(),
        path: "/srv/www".to_string(),
        icon: "@".to_string(),
        format: format.to_string(),
        visible: true,
        priority: 15,
        foreground: fg.to_string(),
        background: bg.to_string(),
        position,
        order: 0,
        options: SectionOptions::default(),
    }
}

fn three(format: &str) -> Prompt<'static> {
    let mut p = Prompt::default();
    p.foreground = "<F>".to_string();
    p.background = "<B>".to_string();
    p.shell.reset = "<R>";
    p.sections.push(section("one", "%t", "\x1B[31m", "\x1B[41m", Position::LeftAlign));
    p.sections.push(section("two", format, "\x1B[32m", "\x1B[42m", Position::LeftAlign));
    p.sections.push(section("three", "%t", "\x1B[34m", "\x1B[44m", Position::RightAlign));
    p
}

#[test]
fn plain_directives() {
    let p = three("[%t|%i|%p]%F%B%r%f%b");
    let (text, issues) = p.format_section(1);
    assert_eq!(text, "[two|@|/srv/www]<F><B><R>\x1B[32m\x1B[42m");
    assert!(issues.is_empty());
}

#[test]
fn escaped_percent_and_brace() {
    let p = three("100%% %{x}");
    let (text, issues) = p.format_section(1);
    assert_eq!(text, "100% {x}");
    assert!(issues.is_empty());
}

#[test]
fn unknown_directive_is_skipped_and_reported() {
    let p = three("a%xb%");
    let (text, issues) = p.format_section(1);
    assert_eq!(text, "ab");
    assert_eq!(issues, vec![FormatIssue::UnknownDirective('x')]);
}

#[test]
fn neighbour_offsets_resolve_to_neighbour_colors() {
    let p = three("%f{-1}%b{+1}%f{0}");
    let (text, issues) = p.format_section(1);
    assert_eq!(text, "\x1B[31m\x1B[44m\x1B[32m");
    assert!(issues.is_empty());
}

#[test]
fn out_of_range_offset_uses_default() {
    let p = three("%f{-2}%b{5}");
    let (text, _) = p.format_section(1);
    assert_eq!(text, "<F><B>");
}

#[test]
fn nested_argument_switches_layer() {
    let p = three("%b{%f{-1}}|%f{%b{1}}|%f{%f{1}}");
    let (text, issues) = p.format_section(1);
    assert_eq!(text, "\x1B[41m|\x1B[34m|\x1B[34m");
    assert!(issues.is_empty());
}

#[test]
fn bare_layer_argument_is_malformed() {
    let p = three("a%b{%f}b%f{%b}");
    let (text, issues) = p.format_section(1);
    assert_eq!(text, "ab");
    assert_eq!(
        issues,
        vec![FormatIssue::Color(ColorError::Malformed), FormatIssue::Color(ColorError::Malformed)]
    );
}

#[test]
fn named_color_argument_is_an_error() {
    let p = three("x%f{red}y");
    let (text, issues) = p.format_section(1);
    assert_eq!(text, "xy");
    assert_eq!(issues, vec![FormatIssue::Color(ColorError::NamedColor)]);
}

#[test]
fn malformed_argument_is_an_error() {
    let p = three("%f{%x}%b{%f{1}junk}");
    let (text, issues) = p.format_section(1);
    assert_eq!(text, "");
    assert_eq!(
        issues,
        vec![FormatIssue::Color(ColorError::Malformed), FormatIssue::Color(ColorError::Malformed)]
    );
}

#[test]
fn process_color_arg_directly() {
    let p = three("%t");
    assert_eq!(p.process_color_arg(ColorKind::Foreground, "1", 0), Ok("\x1B[32m".to_string()));
    assert_eq!(p.process_color_arg(ColorKind::Background, "-1", 2), Ok("\x1B[42m".to_string()));
    assert_eq!(p.process_color_arg(ColorKind::Foreground, "blue", 0), Err(ColorError::NamedColor));
    assert!(!ColorError::Malformed.message().is_empty());
}

#[test]
fn layer_recoding() {
    let p = Prompt::default();
    assert_eq!(p.get_background_color_escape("\x1B[34m"), "\x1B[44m");
    assert_eq!(p.get_foreground_color_escape("\x1B[44m"), "\x1B[34m");
    assert_eq!(p.get_foreground_color_escape("%{\x1B[41m%}"), "%{\x1B[31m%}");
    assert_eq!(p.get_background_color_escape("plain"), "plain");
}

#[test]
fn brace_arguments_nest() {
    let f = "%f{%b{1}}rest";
    assert_eq!(brace_arg_len(f, 3), 5);
    assert_eq!(get_arg(f, 2), ("%b{1}", 9));
    assert_eq!(get_arg("%f{open", 2), ("open", 7));
}

#[test]
fn offsets_parse_like_isize() {
    assert_eq!(parse_offset("5"), Some(5));
    assert_eq!(parse_offset("+5"), Some(5));
    assert_eq!(parse_offset("-12"), Some(-12));
    assert_eq!(parse_offset(""), None);
    assert_eq!(parse_offset("-"), None);
    assert_eq!(parse_offset("1a"), None);
    assert_eq!(parse_offset(" 1"), None);
    assert_eq!(parse_offset("9223372036854775807"), Some(isize::MAX));
    assert_eq!(parse_offset("-9223372036854775808"), Some(isize::MIN));
    assert_eq!(parse_offset("9223372036854775808"), None);
    assert_eq!(parse_offset("99999999999999999999999"), None);
}
