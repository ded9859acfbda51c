use shell_prompt::{Position, Prompt, PromptSection, SectionOptions, Shell, ShellInstance};

fn section(text: &str, path: &str, format: &str, priority: usize, position: Position) -> PromptSection {
    PromptSection {
        text: text.to_string(),
        path: path.to_string(),
        icon: String::new(),
        format: format.to_string(),
        visible: true,
        priority,
        foreground: String::new(),
        background: String::new(),
        position,
        order: 0,
        options: SectionOptions::default(),
    }
}

fn prompt(columns: usize, sections: Vec<PromptSection>) -> Prompt<'static> {
    let mut p = Prompt::default();
    p.columns = columns;
    p.sections = sections;
    p.section_fill = "-".to_string();
    p.blank_fill = " ".to_string();
    p.shell = ShellInstance::new(Shell::Bash);
    p
}

#[test]
fn width_counts_printable_characters_and_fill() {
    let mut p = prompt(
        80,
        vec![
            section("abc", "/x/y", "[%t]%f%r", 15, Position::LeftAlign),
            section("de", "", "%t%%", 15, Position::LeftAlign),
            section("z", "", "%p%t", 15, Position::RightAlign),
            section("$", "", "%t", 15, Position::Prompt),
        ],
    );
    assert_eq!(p.len(), 5 + 3 + 1);
    p.section_pad = 2;
    p.surround_pad = 1;
    // left: one gap of 2, two ends of 1; right: two ends of 1
    assert_eq!(p.len(), 9 + 2 + 2 + 2);
    p.sections[1].visible = false;
    assert_eq!(p.len(), 5 + 1 + 2 + 2);
}

#[test]
fn fit_leaves_fitting_line_alone() {
    let mut p = prompt(
        40,
        vec![
            section("", "/home/alice/project", "%p", 5, Position::LeftAlign),
            section("ok", "", "%t", 25, Position::RightAlign),
        ],
    );
    p.fit_prompt();
    assert_eq!(p.sections[0].path, "/home/alice/project");
    assert!(p.sections[0].visible);
    assert!(p.sections[1].visible);
}

#[test]
fn fit_sacrifices_lowest_priority_first() {
    let mut p = prompt(
        25,
        vec![
            section("cccccccccc", "", "%t", 25, Position::LeftAlign),
            section("aaaaaaaaaa", "", "%t", 5, Position::LeftAlign),
            section("bbbbbbbbbb", "", "%t", 15, Position::LeftAlign),
        ],
    );
    p.fit_prompt();
    assert!(!p.sections[1].visible);
    assert!(p.sections[2].visible);
    assert!(p.sections[0].visible);

    let mut q = prompt(
        15,
        vec![
            section("cccccccccc", "", "%t", 25, Position::LeftAlign),
            section("aaaaaaaaaa", "", "%t", 5, Position::LeftAlign),
            section("bbbbbbbbbb", "", "%t", 15, Position::LeftAlign),
        ],
    );
    q.fit_prompt();
    assert!(!q.sections[1].visible);
    assert!(!q.sections[2].visible);
    assert!(q.sections[0].visible);
}

#[test]
fn fit_tiers_fire_in_priority_order() {
    // priority 5 fires the strongest tier before anything else is touched
    let mut p = prompt(
        12,
        vec![
            section("", "/aaaa/bbbb/cccc", "%p", 25, Position::LeftAlign),
            section("xx", "", "%t", 15, Position::LeftAlign),
            section("yy", "", "%t", 5, Position::LeftAlign),
        ],
    );
    p.fit_prompt();
    assert_eq!(p.sections[0].path, "/a/b/c");
    assert!(p.sections[0].visible);
    assert!(p.sections[1].visible);
    assert!(p.sections[2].visible);

    // without a low-priority section, priority 15 keeps the last component
    let mut q = prompt(
        12,
        vec![
            section("", "/aaaa/bbbb/cccc", "%p", 25, Position::LeftAlign),
            section("xx", "", "%t", 15, Position::LeftAlign),
        ],
    );
    q.fit_prompt();
    assert_eq!(q.sections[0].path, "/a/b/cccc");
    assert!(q.sections[1].visible);
}

#[test]
fn fit_with_no_columns_hides_all_but_indicator() {
    let mut p = prompt(
        0,
        vec![
            section("a", "", "%t", 40, Position::LeftAlign),
            section("b", "", "%t", 50, Position::CenterAlign),
            section(">", "", "%t", 1, Position::Prompt),
        ],
    );
    p.fit_prompt();
    assert!(!p.sections[0].visible);
    assert!(!p.sections[1].visible);
    assert!(p.sections[2].visible);
    assert_eq!(p.len(), 0);
}

#[test]
fn end_to_end_small_terminal() {
    let mut exit = section("0", "", "%t", 15, Position::LeftAlign);
    exit.options.not_zero = true;
    let mut p = prompt(
        10,
        vec![
            section("", "/home/alice/project", "%p", 5, Position::LeftAlign),
            exit,
            section("$", "", "%t", 15, Position::Prompt),
        ],
    );
    let out = p.term_text();
    assert_eq!(out, "/h/a/p    $");
    assert!(!out.contains('0'));
    assert!(out.ends_with('$'));
}

#[test]
fn render_orders_by_position_and_aligns() {
    let mut p = prompt(
        20,
        vec![
            section("R", "", "%t", 15, Position::RightAlign),
            section(">", "", "%t", 15, Position::Prompt),
            section("L1", "", "%t", 15, Position::LeftAlign),
            section("C", "", "%t", 15, Position::CenterAlign),
            section("L2", "", "%t", 15, Position::LeftAlign),
        ],
    );
    p.section_pad = 1;
    p.surround_pad = 1;
    // width: L1 L2 C R = 6, left fill 1 + 2, center 2, right 2 => 13; spare 7
    let (out, issues) = p.render();
    assert!(issues.is_empty());
    assert_eq!(out, "-L1-L2-    -C-   -R->");
    assert_eq!(p.sections[0].text, "L1");
    assert_eq!(p.sections[4].text, ">");
}

#[test]
fn second_render_is_no_wider() {
    let mut p = prompt(
        12,
        vec![
            section("", "/home/alice/project", "%p", 5, Position::LeftAlign),
            section("status", "", "%t", 8, Position::RightAlign),
        ],
    );
    let first = p.term_text();
    let width_after_first = p.len();
    let second = p.term_text();
    assert!(p.len() <= width_after_first);
    assert!(second.chars().count() <= first.chars().count());
    assert_eq!(p.sections[0].path, "/h/a/p");
}

#[test]
fn render_applies_tilde_before_fitting() {
    let mut s = section("", "/home/alice/src", "%p", 15, Position::LeftAlign);
    s.options.tilde = true;
    let mut p = prompt(80, vec![s]);
    p.home = "/home/alice".to_string();
    assert_eq!(p.term_text(), "~/src");
}

#[test]
fn newline_flag_is_left_to_the_caller() {
    let mut p = prompt(5, vec![section("a", "", "%t", 15, Position::LeftAlign)]);
    p.newline = true;
    assert_eq!(p.term_text(), "a");
}

#[test]
fn sort_by_order_is_stable() {
    let mut a = section("a", "", "%t", 15, Position::LeftAlign);
    a.order = 2;
    let mut b = section("b", "", "%t", 15, Position::LeftAlign);
    b.order = 1;
    let mut c = section("c", "", "%t", 15, Position::LeftAlign);
    c.order = 2;
    let mut d = section("d", "", "%t", 15, Position::LeftAlign);
    d.order = 0;
    let mut p = prompt(80, vec![a, b, c, d]);
    p.sort_by_order();
    let texts: Vec<&str> = p.sections.iter().map(|s| s.text.as_str()).collect();
    assert_eq!(texts, vec!["d", "b", "a", "c"]);
}

#[test]
fn indicator_priority_fires_a_tier_but_stays() {
    let mut p = prompt(
        1,
        vec![
            section("", "a/bb", "%p", 25, Position::LeftAlign),
            section(">", "", "%t", 5, Position::Prompt),
        ],
    );
    p.fit_prompt();
    assert_eq!(p.sections[0].path, "a/b");
    assert!(!p.sections[0].visible);
    assert!(p.sections[1].visible);
}
