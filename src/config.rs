//! The rules of the prompt configuration: which keys exist, what type
//! each wants, their defaults, and how names of shells, positions, colors
//! and options resolve. Values come in as `ConfigValue`s, read from the
//! configuration file by the caller.

use vstd::prelude::*;
use vstd::string::*;
use crate::layout::by_order;
use crate::prompt::{section_models, Prompt, PromptModel};
use crate::section::{option_named, position_named, Position, PromptSection, SectionModel, SectionOptions};
use crate::shell::{
    escape_named, no_escapes, shell_escapes, shell_named, ColorEscapes, Shell, ShellInstance,
};
use crate::text::{lower_of, same_text};

verus! {

/// A configuration value.
#[derive(Clone, Debug, PartialEq)]
pub enum ConfigValue {
    Text(String),
    Integer(i64),
    Boolean(bool),
    /// An array whose items are all strings.
    TextList(Vec<String>),
    /// Anything else: a float, a date, a table, a mixed array.
    Other,
}

/// One `key = value` line of a configuration table.
#[derive(Clone, Debug, PartialEq)]
pub struct ConfigEntry {
    pub key: String,
    pub value: ConfigValue,
}

/// A setting whose value has the wrong type or names nothing known.
#[derive(Clone, Copy, Debug, PartialEq, Eq, Structural)]
pub enum ConfigField {
    SectionText,
    SectionPath,
    SectionIcon,
    SectionFormat,
    SectionVisible,
    SectionPriority,
    SectionForeground,
    SectionBackground,
    SectionPosition,
    SectionOrder,
    SectionOptions,
    Newline,
    SectionPad,
    SurroundPad,
    SectionFill,
    BlankFill,
    Shell,
    Foreground,
    Background,
}

/// Why a configuration was refused.
#[derive(Clone, Debug, PartialEq)]
pub enum ConfigError {
    /// The setting holds a value of the wrong type, or a name it does
    /// not know (a shell, a position).
    Invalid(ConfigField),
    /// A section option that does not exist.
    UnknownOption(String),
    /// A key of the prompt table that does not exist.
    UnknownPromptKey(String),
}

// ----- looking values up -----

/// The value of the first entry called `key`.
pub open spec fn lookup(entries: Seq<ConfigEntry>, key: Seq<char>) -> Option<ConfigValue>
    decreases entries.len(),
{
    if entries.len() == 0 {
        None
    } else if entries[0].key@ == key {
        Some(entries[0].value)
    } else {
        lookup(entries.drop_first(), key)
    }
}

/// A text setting: `default` when absent, `None` when not a string.
pub open spec fn text_or(entries: Seq<ConfigEntry>, key: Seq<char>, default: Seq<char>) -> Option<
    Seq<char>,
> {
    match lookup(entries, key) {
        None => Some(default),
        Some(ConfigValue::Text(t)) => Some(t@),
        Some(_) => None,
    }
}

/// A boolean setting: `default` when absent, `None` when not a boolean.
pub open spec fn flag_or(entries: Seq<ConfigEntry>, key: Seq<char>, default: bool) -> Option<bool> {
    match lookup(entries, key) {
        None => Some(default),
        Some(ConfigValue::Boolean(b)) => Some(b),
        Some(_) => None,
    }
}

/// Whether integer `v` is a valid count.
pub open spec fn is_count(v: int) -> bool {
    0 <= v <= usize::MAX
}

/// A count setting: `default` when absent, `None` when not an integer
/// that fits `usize`.
pub open spec fn count_or(entries: Seq<ConfigEntry>, key: Seq<char>, default: nat) -> Option<nat> {
    match lookup(entries, key) {
        None => Some(default),
        Some(ConfigValue::Integer(v)) => if is_count(v as int) {
            Some(v as nat)
        } else {
            None
        },
        Some(_) => None,
    }
}

fn find<'a>(entries: &'a Vec<ConfigEntry>, key: &str) -> (r: Option<&'a ConfigValue>)
    ensures
        match r {
            Some(v) => lookup(entries@, key@) == Some(*v),
            None => lookup(entries@, key@) is None,
        },
{
    let n = entries.len();
    let mut i: usize = 0;
    proof {
        assert(entries@.skip(0) =~= entries@);
    }
    while i < n
        invariant
            n == entries@.len(),
            i <= n,
            lookup(entries@.skip(i as int), key@) == lookup(entries@, key@),
        decreases n - i,
    {
        proof {
            assert(entries@.skip(i as int).drop_first() =~= entries@.skip(i + 1));
        }
        if same_text(entries[i].key.as_str(), key) {
            return Some(&entries[i].value);
        }
        i += 1;
    }
    None
}

fn text_setting(entries: &Vec<ConfigEntry>, key: &str) -> (r: Option<String>)
    ensures
        match r {
            Some(t) => text_or(entries@, key@, Seq::empty()) == Some(t@),
            None => text_or(entries@, key@, Seq::empty()) is None,
        },
{
    match find(entries, key) {
        None => Some(String::new()),
        Some(ConfigValue::Text(t)) => Some(t.clone()),
        Some(_) => None,
    }
}

fn flag_setting(entries: &Vec<ConfigEntry>, key: &str, default: bool) -> (r: Option<bool>)
    ensures
        r == flag_or(entries@, key@, default),
{
    match find(entries, key) {
        None => Some(default),
        Some(ConfigValue::Boolean(b)) => Some(*b),
        Some(_) => None,
    }
}

/// Reads integer `v` as a count, when it fits.
fn count_of(v: i64) -> (r: Option<usize>)
    ensures
        match r {
            Some(c) => is_count(v as int) && c == v,
            None => !is_count(v as int),
        },
{
    if v < 0 {
        None
    } else if (v as u64) <= (usize::MAX as u64) {
        Some(v as usize)
    } else {
        None
    }
}

fn count_setting(entries: &Vec<ConfigEntry>, key: &str, default: usize) -> (r: Option<usize>)
    ensures
        match r {
            Some(c) => count_or(entries@, key@, default as nat) == Some(c as nat),
            None => count_or(entries@, key@, default as nat) is None,
        },
{
    match find(entries, key) {
        None => Some(default),
        Some(ConfigValue::Integer(v)) => count_of(*v),
        Some(_) => None,
    }
}

// ----- colors and options -----

/// A color setting: no escape when no name is given, else the escape the
/// name selects in `table`; `None` for a name the table does not know.
pub open spec fn color_setting(table: ColorEscapes, name: Option<Seq<char>>) -> Option<Seq<char>> {
    match name {
        None => Some(Seq::empty()),
        Some(n) => escape_named(table, n),
    }
}

/// The views of an optional string.
pub open spec fn opt_view(o: Option<String>) -> Option<Seq<char>> {
    match o {
        Some(s) => Some(s@),
        None => None,
    }
}

fn resolve_color_name(table: &ColorEscapes, name: &Option<String>) -> (r: Option<String>)
    ensures
        match r {
            Some(e) => color_setting(*table, opt_view(*name)) == Some(e@),
            None => color_setting(*table, opt_view(*name)) is None,
        },
{
    match name {
        None => Some(String::new()),
        Some(n) => match table.get_escape(n.as_str()) {
            Ok(e) => Some(e),
            Err(_) => None,
        },
    }
}

/// Options `o` with the named options of `names[k..]` switched on, or the
/// first name that calls no option.
pub open spec fn options_from(names: Seq<String>, k: int, o: SectionOptions) -> Result<
    SectionOptions,
    ConfigError,
>
    decreases names.len() - k,
{
    if k >= names.len() {
        Ok(o)
    } else {
        match option_named(o, names[k]@) {
            Some(next) => options_from(names, k + 1, next),
            None => Err(ConfigError::UnknownOption(names[k])),
        }
    }
}

/// The options setting of a section: none when absent.
pub open spec fn options_setting(entries: Seq<ConfigEntry>) -> Result<SectionOptions, ConfigError> {
    let none = SectionOptions { tilde: false, not_zero: false, not_empty: false };
    match lookup(entries, "options"@) {
        None => Ok(none),
        Some(ConfigValue::TextList(names)) => options_from(names@, 0, none),
        Some(_) => Err(ConfigError::Invalid(ConfigField::SectionOptions)),
    }
}

fn read_options(entries: &Vec<ConfigEntry>) -> (r: Result<SectionOptions, ConfigError>)
    ensures
        r == options_setting(entries@),
{
    let mut o = SectionOptions::default();
    match find(entries, "options") {
        None => Ok(o),
        Some(ConfigValue::TextList(names)) => {
            let n = names.len();
            let mut k: usize = 0;
            while k < n
                invariant
                    n == names@.len(),
                    k <= n,
                    lookup(entries@, "options"@) == Some(ConfigValue::TextList(*names)),
                    options_from(names@, k as int, o) == options_from(
                        names@,
                        0,
                        SectionOptions { tilde: false, not_zero: false, not_empty: false },
                    ),
                decreases n - k,
            {
                if !o.set_named(names[k].as_str()) {
                    return Err(ConfigError::UnknownOption(names[k].clone()));
                }
                k += 1;
            }
            Ok(o)
        },
        Some(_) => Err(ConfigError::Invalid(ConfigField::SectionOptions)),
    }
}

// ----- sections -----

/// The position setting of a section: left when absent, `None` when not a
/// string or not a position's name (in any case).
pub open spec fn position_setting(entries: Seq<ConfigEntry>) -> Option<Position> {
    match lookup(entries, "position"@) {
        None => Some(Position::LeftAlign),
        Some(ConfigValue::Text(t)) => position_named(lower_of(t@)),
        Some(_) => None,
    }
}

/// A color setting of a section: no escape when absent, else the escape
/// the name selects in `table`; `None` when not a string or not a color
/// name of the table.
pub open spec fn section_color(entries: Seq<ConfigEntry>, key: Seq<char>, table: ColorEscapes) -> Option<
    Seq<char>,
> {
    match lookup(entries, key) {
        None => Some(Seq::empty()),
        Some(ConfigValue::Text(n)) => escape_named(table, n@),
        Some(_) => None,
    }
}

/// The first problem of a section table, checking its settings in the
/// order text, path, icon, format, visible, priority, foreground,
/// background, position, order, options.
pub open spec fn section_problem(entries: Seq<ConfigEntry>, shell: ShellInstance) -> Option<
    ConfigError,
> {
    if text_or(entries, "text"@, Seq::empty()) is None {
        Some(ConfigError::Invalid(ConfigField::SectionText))
    } else if text_or(entries, "path"@, Seq::empty()) is None {
        Some(ConfigError::Invalid(ConfigField::SectionPath))
    } else if text_or(entries, "icon"@, Seq::empty()) is None {
        Some(ConfigError::Invalid(ConfigField::SectionIcon))
    } else if text_or(entries, "format"@, Seq::empty()) is None {
        Some(ConfigError::Invalid(ConfigField::SectionFormat))
    } else if flag_or(entries, "visible"@, true) is None {
        Some(ConfigError::Invalid(ConfigField::SectionVisible))
    } else if count_or(entries, "priority"@, 15) is None {
        Some(ConfigError::Invalid(ConfigField::SectionPriority))
    } else if section_color(entries, "foreground"@, shell.foreground) is None {
        Some(ConfigError::Invalid(ConfigField::SectionForeground))
    } else if section_color(entries, "background"@, shell.background) is None {
        Some(ConfigError::Invalid(ConfigField::SectionBackground))
    } else if position_setting(entries) is None {
        Some(ConfigError::Invalid(ConfigField::SectionPosition))
    } else if count_or(entries, "order"@, 0) is None {
        Some(ConfigError::Invalid(ConfigField::SectionOrder))
    } else {
        match options_setting(entries) {
            Ok(_) => None,
            Err(e) => Some(e),
        }
    }
}

/// The section a problem-free table describes. Absent settings default to
/// empty texts, visible, priority 15, no colors, left, order 0, no options.
pub open spec fn section_from(entries: Seq<ConfigEntry>, shell: ShellInstance) -> SectionModel {
    SectionModel {
        text: text_or(entries, "text"@, Seq::empty()).unwrap(),
        path: text_or(entries, "path"@, Seq::empty()).unwrap(),
        icon: text_or(entries, "icon"@, Seq::empty()).unwrap(),
        format: text_or(entries, "format"@, Seq::empty()).unwrap(),
        visible: flag_or(entries, "visible"@, true).unwrap(),
        priority: count_or(entries, "priority"@, 15).unwrap(),
        foreground: section_color(entries, "foreground"@, shell.foreground).unwrap(),
        background: section_color(entries, "background"@, shell.background).unwrap(),
        position: position_setting(entries).unwrap(),
        order: count_or(entries, "order"@, 0).unwrap(),
        options: options_setting(entries)->Ok_0,
    }
}

fn section_color_setting(entries: &Vec<ConfigEntry>, key: &str, table: &ColorEscapes) -> (r: Option<
    String,
>)
    ensures
        match r {
            Some(e) => section_color(entries@, key@, *table) == Some(e@),
            None => section_color(entries@, key@, *table) is None,
        },
{
    match find(entries, key) {
        None => Some(String::new()),
        Some(ConfigValue::Text(n)) => match table.get_escape(n.as_str()) {
            Ok(e) => Some(e),
            Err(_) => None,
        },
        Some(_) => None,
    }
}

fn position_from_config(entries: &Vec<ConfigEntry>) -> (r: Option<Position>)
    ensures
        r == position_setting(entries@),
{
    match find(entries, "position") {
        None => Some(Position::LeftAlign),
        Some(ConfigValue::Text(t)) => Position::from_name(t.as_str()),
        Some(_) => None,
    }
}

/// The section that configuration table `entries` describes, with colors
/// from `shell`; or its first problem. A text or path that starts with
/// `$` is kept as it is: it names an environment variable, which the
/// caller resolves (see `env_reference`).
pub fn section_from_config(entries: &Vec<ConfigEntry>, shell: &ShellInstance) -> (r: Result<
    PromptSection,
    ConfigError,
>)
    ensures
        match r {
            Ok(s) => section_problem(entries@, *shell) is None && s@ == section_from(entries@, *shell),
            Err(e) => section_problem(entries@, *shell) == Some(e),
        },
{
    let text = match text_setting(entries, "text") {
        Some(t) => t,
        None => return Err(ConfigError::Invalid(ConfigField::SectionText)),
    };
    let path = match text_setting(entries, "path") {
        Some(t) => t,
        None => return Err(ConfigError::Invalid(ConfigField::SectionPath)),
    };
    let icon = match text_setting(entries, "icon") {
        Some(t) => t,
        None => return Err(ConfigError::Invalid(ConfigField::SectionIcon)),
    };
    let format = match text_setting(entries, "format") {
        Some(t) => t,
        None => return Err(ConfigError::Invalid(ConfigField::SectionFormat)),
    };
    let visible = match flag_setting(entries, "visible", true) {
        Some(b) => b,
        None => return Err(ConfigError::Invalid(ConfigField::SectionVisible)),
    };
    let priority = match count_setting(entries, "priority", 15) {
        Some(c) => c,
        None => return Err(ConfigError::Invalid(ConfigField::SectionPriority)),
    };
    let foreground = match section_color_setting(entries, "foreground", &shell.foreground) {
        Some(e) => e,
        None => return Err(ConfigError::Invalid(ConfigField::SectionForeground)),
    };
    let background = match section_color_setting(entries, "background", &shell.background) {
        Some(e) => e,
        None => return Err(ConfigError::Invalid(ConfigField::SectionBackground)),
    };
    let position = match position_from_config(entries) {
        Some(p) => p,
        None => return Err(ConfigError::Invalid(ConfigField::SectionPosition)),
    };
    let order = match count_setting(entries, "order", 0) {
        Some(c) => c,
        None => return Err(ConfigError::Invalid(ConfigField::SectionOrder)),
    };
    let options = match read_options(entries) {
        Ok(o) => o,
        Err(e) => return Err(e),
    };
    Ok(PromptSection {
        text,
        path,
        icon,
        format,
        visible,
        priority,
        foreground,
        background,
        position,
        order,
        options,
    })
}

/// The environment variable that a configured text names: what follows a
/// leading `$`.
pub fn env_reference(value: &str) -> (r: Option<&str>)
    ensures
        match r {
            Some(name) => value@.len() > 0 && value@[0] == '$' && name@ == value@.skip(1),
            None => value@.len() == 0 || value@[0] != '$',
        },
{
    let n = value.unicode_len();
    if n > 0 && value.get_char(0) == '$' {
        let name = value.substring_char(1, n);
        assert(value@.subrange(1, n as int) =~= value@.skip(1));
        Some(name)
    } else {
        None
    }
}

// ----- the prompt table -----

/// The prompt-wide settings read so far; colors are still names.
pub ghost struct PromptSettings {
    pub newline: bool,
    pub section_pad: nat,
    pub surround_pad: nat,
    pub section_fill: Seq<char>,
    pub blank_fill: Seq<char>,
    pub shell: Option<Shell>,
    pub foreground: Option<Seq<char>>,
    pub background: Option<Seq<char>>,
}

/// The settings before any entry is read.
pub open spec fn initial_settings() -> PromptSettings {
    PromptSettings {
        newline: false,
        section_pad: 0,
        surround_pad: 0,
        section_fill: Seq::empty(),
        blank_fill: Seq::empty(),
        shell: None,
        foreground: None,
        background: None,
    }
}

/// Settings `st` after prompt entry `e`.
pub open spec fn settle(st: PromptSettings, e: ConfigEntry) -> Result<PromptSettings, ConfigError> {
    let k = e.key@;
    if k == "newline"@ {
        match e.value {
            ConfigValue::Boolean(b) => Ok(PromptSettings { newline: b, ..st }),
            _ => Err(ConfigError::Invalid(ConfigField::Newline)),
        }
    } else if k == "section_pad"@ {
        match e.value {
            ConfigValue::Integer(v) if is_count(v as int) => Ok(
                PromptSettings { section_pad: v as nat, ..st },
            ),
            _ => Err(ConfigError::Invalid(ConfigField::SectionPad)),
        }
    } else if k == "surround_pad"@ {
        match e.value {
            ConfigValue::Integer(v) if is_count(v as int) => Ok(
                PromptSettings { surround_pad: v as nat, ..st },
            ),
            _ => Err(ConfigError::Invalid(ConfigField::SurroundPad)),
        }
    } else if k == "section_fill"@ {
        match e.value {
            ConfigValue::Text(t) => Ok(PromptSettings { section_fill: t@, ..st }),
            _ => Err(ConfigError::Invalid(ConfigField::SectionFill)),
        }
    } else if k == "blank_fill"@ {
        match e.value {
            ConfigValue::Text(t) => Ok(PromptSettings { blank_fill: t@, ..st }),
            _ => Err(ConfigError::Invalid(ConfigField::BlankFill)),
        }
    } else if k == "shell"@ {
        match e.value {
            ConfigValue::Text(t) => match shell_named(lower_of(t@)) {
                Some(sh) => Ok(PromptSettings { shell: Some(sh), ..st }),
                None => Err(ConfigError::Invalid(ConfigField::Shell)),
            },
            _ => Err(ConfigError::Invalid(ConfigField::Shell)),
        }
    } else if k == "foreground"@ {
        match e.value {
            ConfigValue::Text(t) => Ok(PromptSettings { foreground: Some(t@), ..st }),
            _ => Err(ConfigError::Invalid(ConfigField::Foreground)),
        }
    } else if k == "background"@ {
        match e.value {
            ConfigValue::Text(t) => Ok(PromptSettings { background: Some(t@), ..st }),
            _ => Err(ConfigError::Invalid(ConfigField::Background)),
        }
    } else {
        Err(ConfigError::UnknownPromptKey(e.key))
    }
}

/// The settings after the first `k` prompt entries, or the first problem.
pub open spec fn settle_upto(entries: Seq<ConfigEntry>, k: int) -> Result<PromptSettings, ConfigError>
    decreases k,
{
    if k <= 0 {
        Ok(initial_settings())
    } else {
        match settle_upto(entries, k - 1) {
            Ok(st) => settle(st, entries[k - 1]),
            Err(e) => Err(e),
        }
    }
}

/// The escape table that the settings choose; all empty when no shell is
/// named.
pub open spec fn chosen_shell(st: PromptSettings) -> ShellInstance<'static> {
    match st.shell {
        Some(sh) => shell_escapes(sh),
        None => no_escapes(),
    }
}

/// The first problem among the first `k` section tables.
pub open spec fn sections_problem(
    tables: Seq<Vec<ConfigEntry>>,
    shell: ShellInstance,
    k: int,
) -> Option<ConfigError>
    decreases k,
{
    if k <= 0 {
        None
    } else {
        match sections_problem(tables, shell, k - 1) {
            Some(e) => Some(e),
            None => section_problem(tables[k - 1]@, shell),
        }
    }
}

/// The first problem of a configuration: of its prompt table, else of its
/// default colors (named in the chosen shell's tables), else of its
/// section tables in order.
pub open spec fn config_problem(prompt: Seq<ConfigEntry>, tables: Seq<Vec<ConfigEntry>>) -> Option<
    ConfigError,
> {
    match settle_upto(prompt, prompt.len() as int) {
        Err(e) => Some(e),
        Ok(st) => {
            let sh = chosen_shell(st);
            if color_setting(sh.foreground, st.foreground) is None {
                Some(ConfigError::Invalid(ConfigField::Foreground))
            } else if color_setting(sh.background, st.background) is None {
                Some(ConfigError::Invalid(ConfigField::Background))
            } else {
                sections_problem(tables, sh, tables.len() as int)
            }
        },
    }
}

/// The prompt that a problem-free configuration describes: its sections in
/// ascending order key, the default colors resolved in the chosen shell's
/// table (none when not set), no terminal width and no home directory yet.
pub open spec fn configured(prompt: Seq<ConfigEntry>, tables: Seq<Vec<ConfigEntry>>) -> PromptModel {
    let st = settle_upto(prompt, prompt.len() as int)->Ok_0;
    let sh = chosen_shell(st);
    PromptModel {
        sections: by_order(Seq::new(tables.len(), |i: int| section_from(tables[i]@, sh))),
        newline: st.newline,
        section_pad: st.section_pad,
        surround_pad: st.surround_pad,
        columns: 0,
        foreground: color_setting(sh.foreground, st.foreground).unwrap(),
        background: color_setting(sh.background, st.background).unwrap(),
        section_fill: st.section_fill,
        blank_fill: st.blank_fill,
        home: Seq::empty(),
        reset: sh.reset@,
    }
}

proof fn lemma_settle_error_stays(entries: Seq<ConfigEntry>, k: int, j: int, e: ConfigError)
    requires
        0 <= k <= j,
        settle_upto(entries, k) == Err::<PromptSettings, ConfigError>(e),
    ensures
        settle_upto(entries, j) == Err::<PromptSettings, ConfigError>(e),
    decreases j - k,
{
    if j > k {
        lemma_settle_error_stays(entries, k, j - 1, e);
    }
}

proof fn lemma_problem_stays(
    tables: Seq<Vec<ConfigEntry>>,
    shell: ShellInstance,
    k: int,
    j: int,
    e: ConfigError,
)
    requires
        0 <= k <= j,
        sections_problem(tables, shell, k) == Some(e),
    ensures
        sections_problem(tables, shell, j) == Some(e),
    decreases j - k,
{
    if j > k {
        lemma_problem_stays(tables, shell, k, j - 1, e);
    }
}

/// Reads count setting `v`.
fn count_value(v: &ConfigValue) -> (r: Option<usize>)
    ensures
        match r {
            Some(c) => v matches ConfigValue::Integer(i) && is_count(i as int) && c == i,
            None => !(v matches ConfigValue::Integer(i) && is_count(i as int)),
        },
{
    match v {
        ConfigValue::Integer(i) => count_of(*i),
        _ => None,
    }
}

/// Reads text setting `v`.
fn text_value(v: &ConfigValue) -> (r: Option<String>)
    ensures
        match r {
            Some(t) => v matches ConfigValue::Text(s) && t@ == s@,
            None => !(v is Text),
        },
{
    match v {
        ConfigValue::Text(t) => Some(t.clone()),
        _ => None,
    }
}

/// The prompt that a configuration describes: `prompt` holds the entries
/// of its prompt table, `tables` those of each section table. Returns the
/// first problem instead when there is one.
pub fn prompt_from_config(prompt: &Vec<ConfigEntry>, tables: &Vec<Vec<ConfigEntry>>) -> (r: Result<
    Prompt<'static>,
    ConfigError,
>)
    ensures
        match r {
            Ok(p) => {
                &&& config_problem(prompt@, tables@) is None
                &&& p@ == configured(prompt@, tables@)
                &&& p.shell == chosen_shell(settle_upto(prompt@, prompt@.len() as int)->Ok_0)
            },
            Err(e) => config_problem(prompt@, tables@) == Some(e),
        },
{
    let mut newline = false;
    let mut section_pad: usize = 0;
    let mut surround_pad: usize = 0;
    let mut section_fill = String::new();
    let mut blank_fill = String::new();
    let mut shell: Option<Shell> = None;
    let mut foreground: Option<String> = None;
    let mut background: Option<String> = None;
    let n = prompt.len();
    let mut k: usize = 0;
    while k < n
        invariant
            n == prompt@.len(),
            k <= n,
            settle_upto(prompt@, k as int) == Ok::<PromptSettings, ConfigError>(
                PromptSettings {
                    newline,
                    section_pad: section_pad as nat,
                    surround_pad: surround_pad as nat,
                    section_fill: section_fill@,
                    blank_fill: blank_fill@,
                    shell,
                    foreground: opt_view(foreground),
                    background: opt_view(background),
                },
            ),
        decreases n - k,
    {
        let e = &prompt[k];
        let key = e.key.as_str();
        let ghost st = settle_upto(prompt@, k as int)->Ok_0;
        let mut problem: Option<ConfigError> = None;
        if same_text(key, "newline") {
            match &e.value {
                ConfigValue::Boolean(b) => newline = *b,
                _ => problem = Some(ConfigError::Invalid(ConfigField::Newline)),
            }
        } else if same_text(key, "section_pad") {
            match count_value(&e.value) {
                Some(c) => section_pad = c,
                None => problem = Some(ConfigError::Invalid(ConfigField::SectionPad)),
            }
        } else if same_text(key, "surround_pad") {
            match count_value(&e.value) {
                Some(c) => surround_pad = c,
                None => problem = Some(ConfigError::Invalid(ConfigField::SurroundPad)),
            }
        } else if same_text(key, "section_fill") {
            match text_value(&e.value) {
                Some(t) => section_fill = t,
                None => problem = Some(ConfigError::Invalid(ConfigField::SectionFill)),
            }
        } else if same_text(key, "blank_fill") {
            match text_value(&e.value) {
                Some(t) => blank_fill = t,
                None => problem = Some(ConfigError::Invalid(ConfigField::BlankFill)),
            }
        } else if same_text(key, "shell") {
            match text_value(&e.value) {
                Some(t) => match Shell::from_name(t.as_str()) {
                    Some(sh) => shell = Some(sh),
                    None => problem = Some(ConfigError::Invalid(ConfigField::Shell)),
                },
                None => problem = Some(ConfigError::Invalid(ConfigField::Shell)),
            }
        } else if same_text(key, "foreground") {
            match text_value(&e.value) {
                Some(t) => foreground = Some(t),
                None => problem = Some(ConfigError::Invalid(ConfigField::Foreground)),
            }
        } else if same_text(key, "background") {
            match text_value(&e.value) {
                Some(t) => background = Some(t),
                None => problem = Some(ConfigError::Invalid(ConfigField::Background)),
            }
        } else {
            problem = Some(ConfigError::UnknownPromptKey(e.key.clone()));
        }
        match problem {
            Some(err) => {
                proof {
                    assert(settle_upto(prompt@, k + 1) == Err::<PromptSettings, ConfigError>(err));
                    lemma_settle_error_stays(prompt@, k + 1, n as int, err);
                }
                return Err(err);
            },
            None => {},
        }
        k += 1;
    }
    let ghost st = settle_upto(prompt@, n as int)->Ok_0;
    let chosen = match shell {
        Some(sh) => ShellInstance::new(sh),
        None => ShellInstance::plain(),
    };
    assert(chosen == chosen_shell(st));
    let prompt_foreground = match resolve_color_name(&chosen.foreground, &foreground) {
        Some(e) => e,
        None => return Err(ConfigError::Invalid(ConfigField::Foreground)),
    };
    let prompt_background = match resolve_color_name(&chosen.background, &background) {
        Some(e) => e,
        None => return Err(ConfigError::Invalid(ConfigField::Background)),
    };
    let mut sections: Vec<PromptSection> = Vec::new();
    let t = tables.len();
    let mut i: usize = 0;
    while i < t
        invariant
            t == tables@.len(),
            i <= t,
            settle_upto(prompt@, prompt@.len() as int) == Ok::<PromptSettings, ConfigError>(st),
            st == (PromptSettings {
                newline,
                section_pad: section_pad as nat,
                surround_pad: surround_pad as nat,
                section_fill: section_fill@,
                blank_fill: blank_fill@,
                shell,
                foreground: opt_view(foreground),
                background: opt_view(background),
            }),
            chosen == chosen_shell(st),
            color_setting(chosen.foreground, st.foreground) == Some(prompt_foreground@),
            color_setting(chosen.background, st.background) == Some(prompt_background@),
            sections_problem(tables@, chosen, i as int) is None,
            section_models(sections@) =~= Seq::new(
                i as nat,
                |j: int| section_from(tables@[j]@, chosen),
            ),
        decreases t - i,
    {
        match section_from_config(&tables[i], &chosen) {
            Ok(s) => {
                let ghost before = sections@;
                sections.push(s);
                proof {
                    assert(section_models(sections@) =~= section_models(before).push(s@));
                }
            },
            Err(err) => {
                proof {
                    lemma_problem_stays(tables@, chosen, i + 1, t as int, err);
                }
                return Err(err);
            },
        }
        i += 1;
    }
    let mut p = Prompt {
        sections,
        newline,
        section_pad,
        surround_pad,
        columns: 0,
        foreground: prompt_foreground,
        background: prompt_background,
        section_fill,
        blank_fill,
        home: String::new(),
        shell: chosen,
    };
    let ghost unsorted = p@;
    p.sort_by_order();
    proof {
        assert(unsorted.sections == Seq::new(
            tables@.len(),
            |j: int| section_from(tables@[j]@, chosen_shell(st)),
        ));
    }
    Ok(p)
}

} // verus!
