use shell_prompt::{Position, PromptSection, SectionOptions};

fn section(text: &str, path: &str, format: &str) -> PromptSection {
    PromptSection {
        text: text.to_string(),
        path: path.to_string(),
        icon: String::new(),
        format: format.to_string(),
        visible: true,
        priority: 15,
        foreground: String::new(),
        background: String::new(),
        position: Position::LeftAlign,
        order: 0,
        options: SectionOptions::default(),
    }
}

#[test]
fn not_zero_hides_zero_text() {
    let mut s = section("0", "", "%t");
    s.options.not_zero = true;
    assert!(!s.is_visible());
    s.visible = false;
    assert!(!s.is_visible());
    s.visible = true;
    s.text = "1".to_string();
    assert!(s.is_visible());
    s.text = "00".to_string();
    assert!(s.is_visible());
}

#[test]
fn zero_text_shows_without_not_zero() {
    let s = section("0", "", "%t");
    assert!(s.is_visible());
}

#[test]
fn not_empty_hides_empty_section() {
    let mut s = section("", "", "%t");
    s.options.not_empty = true;
    assert!(!s.is_visible());
    s.path = "/tmp".to_string();
    assert!(s.is_visible());
    s.path = String::new();
    s.text = "x".to_string();
    assert!(s.is_visible());
}

#[test]
fn hidden_flag_or_empty_format_hides() {
    let mut s = section("a", "", "");
    assert!(!s.is_visible());
    s.format = "%t".to_string();
    assert!(s.is_visible());
    s.visible = false;
    assert!(!s.is_visible());
}

#[test]
fn tilde_replaces_home_once() {
    let mut s = section("", "/home/alice/project", "%p");
    s.options.tilde = true;
    s.apply_options("/home/alice");
    assert_eq!(s.path, "~/project");
    s.apply_options("/home/alice");
    assert_eq!(s.path, "~/project");
}

#[test]
fn tilde_needs_option_and_prefix() {
    let mut s = section("", "/home/alice/project", "%p");
    s.apply_options("/home/alice");
    assert_eq!(s.path, "/home/alice/project");
    s.options.tilde = true;
    s.apply_options("/home/bob");
    assert_eq!(s.path, "/home/alice/project");
    s.apply_options("");
    assert_eq!(s.path, "/home/alice/project");
}

#[test]
fn positions_by_name_ignore_case() {
    assert_eq!("left".parse::<Position>(), Ok(Position::LeftAlign));
    assert_eq!("Center".parse::<Position>(), Ok(Position::CenterAlign));
    assert_eq!("RIGHT".parse::<Position>(), Ok(Position::RightAlign));
    assert_eq!("prompt".parse::<Position>(), Ok(Position::Prompt));
    assert_eq!("middle".parse::<Position>(), Err(()));
    assert_eq!(Position::from_lowercase("Left"), None);
    assert_eq!(Position::from_name("Left"), Some(Position::LeftAlign));
}

#[test]
fn duplicate_copies_every_field() {
    let mut s = section("t", "/p", "%t");
    s.icon = "i".to_string();
    s.priority = 3;
    s.position = Position::RightAlign;
    let d = s.duplicate();
    assert_eq!(d.text, "t");
    assert_eq!(d.path, "/p");
    assert_eq!(d.icon, "i");
    assert_eq!(d.priority, 3);
    assert_eq!(d.position, Position::RightAlign);
}

#[test]
fn options_by_name() {
    let mut o = SectionOptions::default();
    assert!(o.set_named("not_zero"));
    assert!(o.not_zero && !o.not_empty && !o.tilde);
    assert!(o.set_named("~"));
    assert!(o.tilde);
    assert!(o.set_named("not_empty"));
    assert!(o.not_empty);
    let mut p = SectionOptions::default();
    assert!(p.set_named("tilde"));
    assert!(p.tilde && !p.not_zero);
    let before = p;
    assert!(!p.set_named("Tilde"));
    assert_eq!(p, before);
}
