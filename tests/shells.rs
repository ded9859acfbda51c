use shell_prompt::{Shell, ShellInstance};

#[test]
fn bash_escapes() {
    let sh = ShellInstance::new(Shell::Bash);
    assert_eq!(sh.reset, "\x1B[0m");
    assert_eq!(sh.foreground.red, "\x1B[31m");
    assert_eq!(sh.background.white, "\x1B[47m");
    assert_eq!(sh.foreground.get_escape("blue"), Ok("\x1B[34m".to_string()));
    assert_eq!(sh.background.get_escape("black"), Ok("\x1B[40m".to_string()));
}

#[test]
fn zsh_escapes_are_quoted() {
    let sh = ShellInstance::new(Shell::Zsh);
    assert_eq!(sh.reset, "%{\x1B[0m%}");
    assert_eq!(sh.foreground.get_escape("green"), Ok("%{\x1B[32m%}".to_string()));
    assert_eq!(sh.background.get_escape("magenta"), Ok("%{\x1B[45m%}".to_string()));
}

#[test]
fn unknown_color_name() {
    let sh = ShellInstance::new(Shell::Bash);
    assert_eq!(sh.foreground.get_escape("purple"), Err("Unknown color name"));
    assert_eq!(sh.foreground.get_escape("Red"), Err("Unknown color name"));
    let zsh = ShellInstance::new(Shell::Zsh);
    assert_eq!(zsh.foreground.get_escape("blue"), Ok("%{\x1B[34m%}".to_string()));
    assert_eq!(zsh.foreground.get_escape("Blue"), Err("Unknown color name"));
}

#[test]
fn shells_by_name_ignore_case() {
    assert_eq!("bash".parse::<Shell>(), Ok(Shell::Bash));
    assert_eq!("ZSH".parse::<Shell>(), Ok(Shell::Zsh));
    assert_eq!("fish".parse::<Shell>(), Err(()));
    assert_eq!(Shell::from_lowercase("Bash"), None);
    assert_eq!(Shell::from_name("BaSh"), Some(Shell::Bash));
}
