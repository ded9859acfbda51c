use shell_prompt::config::{env_reference, prompt_from_config, section_from_config, ConfigEntry, ConfigError, ConfigField, ConfigValue};
use shell_prompt::{Position, Shell, ShellInstance};

fn text(key: &str, value: &str) -> ConfigEntry {
    ConfigEntry { key: key.to_string(), value: ConfigValue::Text(value.to_string()) }
}

fn integer(key: &str, value: i64) -> ConfigEntry {
    ConfigEntry { key: key.to_string(), value: ConfigValue::Integer(value) }
}

fn flag(key: &str, value: bool) -> ConfigEntry {
    ConfigEntry { key: key.to_string(), value: ConfigValue::Boolean(value) }
}

fn list(key: &str, values: &[&str]) -> ConfigEntry {
    ConfigEntry {
        key: key.to_string(),
        value: ConfigValue::TextList(values.iter().map(|v| v.to_string()).collect()),
    }
}

#[test]
fn full_configuration() {
    let prompt = vec![
        text("background", "black"),
        text("blank_fill", " "),
        text("foreground", "white"),
        flag("newline", true),
        text("section_fill", "-"),
        integer("section_pad", 2),
        text("shell", "ZSH"),
        integer("surround_pad", 1),
    ];
    let tables = vec![
        vec![text("text", "$?"), integer("order", 3), list("options", &["not_zero"])],
        vec![
            text("path", "$PWD"),
            text("format", "%p"),
            text("foreground", "blue"),
            text("background", "red"),
            text("position", "Right"),
            integer("priority", 5),
            integer("order", 1),
            list("options", &["~", "not_empty"]),
            flag("visible", false),
            text("icon", "*"),
        ],
    ];
    let p = prompt_from_config(&prompt, &tables).unwrap();
    assert!(p.newline);
    assert_eq!(p.section_pad, 2);
    assert_eq!(p.surround_pad, 1);
    assert_eq!(p.section_fill, "-");
    assert_eq!(p.blank_fill, " ");
    assert_eq!(p.foreground, "%{\x1B[37m%}");
    assert_eq!(p.background, "%{\x1B[40m%}");
    assert_eq!(p.shell.reset, "%{\x1B[0m%}");
    assert_eq!(p.columns, 0);
    assert_eq!(p.sections.len(), 2);
    let first = &p.sections[0];
    assert_eq!(first.path, "$PWD");
    assert_eq!(first.format, "%p");
    assert_eq!(first.icon, "*");
    assert_eq!(first.foreground, "%{\x1B[34m%}");
    assert_eq!(first.background, "%{\x1B[41m%}");
    assert_eq!(first.position, Position::RightAlign);
    assert_eq!(first.priority, 5);
    assert_eq!(first.order, 1);
    assert!(!first.visible);
    assert!(first.options.tilde && first.options.not_empty && !first.options.not_zero);
    let second = &p.sections[1];
    assert_eq!(second.text, "$?");
    assert_eq!(second.path, "");
    assert_eq!(second.format, "");
    assert_eq!(second.foreground, "");
    assert_eq!(second.position, Position::LeftAlign);
    assert_eq!(second.priority, 15);
    assert!(second.visible);
    assert!(second.options.not_zero);
}

#[test]
fn defaults_without_shell() {
    let p = prompt_from_config(&vec![], &vec![vec![]]).unwrap();
    assert!(!p.newline);
    assert_eq!(p.section_pad, 0);
    assert_eq!(p.shell.reset, "");
    assert_eq!(p.foreground, "");
    assert_eq!(p.background, "");
    assert_eq!(p.sections[0].order, 0);
    assert_eq!(p.sections[0].foreground, "");
}

#[test]
fn unknown_color_names_are_refused() {
    let sh = ShellInstance::new(Shell::Bash);
    assert_eq!(
        section_from_config(&vec![text("foreground", "orange")], &sh).err(),
        Some(ConfigError::Invalid(ConfigField::SectionForeground))
    );
    assert_eq!(
        section_from_config(&vec![text("background", "Red")], &sh).err(),
        Some(ConfigError::Invalid(ConfigField::SectionBackground))
    );
    let tables: Vec<Vec<ConfigEntry>> = vec![];
    assert_eq!(
        prompt_from_config(&vec![text("shell", "bash"), text("foreground", "orange")], &tables).err(),
        Some(ConfigError::Invalid(ConfigField::Foreground))
    );
    assert_eq!(
        prompt_from_config(&vec![text("background", "crimson")], &tables).err(),
        Some(ConfigError::Invalid(ConfigField::Background))
    );
}

#[test]
fn prompt_table_problems() {
    let tables: Vec<Vec<ConfigEntry>> = vec![];
    assert_eq!(
        prompt_from_config(&vec![text("colour", "red")], &tables).err(),
        Some(ConfigError::UnknownPromptKey("colour".to_string()))
    );
    assert_eq!(
        prompt_from_config(&vec![integer("section_pad", -1)], &tables).err(),
        Some(ConfigError::Invalid(ConfigField::SectionPad))
    );
    assert_eq!(
        prompt_from_config(&vec![text("shell", "fish")], &tables).err(),
        Some(ConfigError::Invalid(ConfigField::Shell))
    );
    assert_eq!(
        prompt_from_config(&vec![text("newline", "yes")], &tables).err(),
        Some(ConfigError::Invalid(ConfigField::Newline))
    );
    assert_eq!(
        prompt_from_config(&vec![flag("newline", true), integer("blank_fill", 3)], &tables).err(),
        Some(ConfigError::Invalid(ConfigField::BlankFill))
    );
}

#[test]
fn section_table_problems() {
    let sh = ShellInstance::new(Shell::Bash);
    assert_eq!(
        section_from_config(&vec![integer("text", 1)], &sh).err(),
        Some(ConfigError::Invalid(ConfigField::SectionText))
    );
    assert_eq!(
        section_from_config(&vec![text("position", "top")], &sh).err(),
        Some(ConfigError::Invalid(ConfigField::SectionPosition))
    );
    assert_eq!(
        section_from_config(&vec![list("options", &["not_zero", "bogus"])], &sh).err(),
        Some(ConfigError::UnknownOption("bogus".to_string()))
    );
    assert_eq!(
        section_from_config(
            &vec![ConfigEntry { key: "options".to_string(), value: ConfigValue::Other }],
            &sh
        )
        .err(),
        Some(ConfigError::Invalid(ConfigField::SectionOptions))
    );
    // the first problem in field order wins
    assert_eq!(
        section_from_config(&vec![integer("order", -2), flag("icon", true)], &sh).err(),
        Some(ConfigError::Invalid(ConfigField::SectionIcon))
    );
    // a later table's problem comes out of the whole configuration
    assert_eq!(
        prompt_from_config(&vec![], &vec![vec![], vec![text("visible", "no")]]).err(),
        Some(ConfigError::Invalid(ConfigField::SectionVisible))
    );
}

#[test]
fn environment_references() {
    assert_eq!(env_reference("$HOME"), Some("HOME"));
    assert_eq!(env_reference("$"), Some(""));
    assert_eq!(env_reference("HOME"), None);
    assert_eq!(env_reference(""), None);
}
