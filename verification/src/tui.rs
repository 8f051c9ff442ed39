//! The settings form: keys, edits and the screen.

use crate::cli;
use crate::text;
use vstd::prelude::*;

verus! {

/// The settings. The temperature is a single-precision bit pattern.
pub struct Config {
    pub model_path: Option<String>,
    pub prompt: String,
    pub max_tokens: u32,
    pub temperature: u32,
    pub top_k: u32,
    pub server_port: Option<u16>,
    pub debug: bool,
    pub vk_validation: bool,
    pub smoke: bool,
    pub chat: bool,
}

/// What the settings say.
pub struct ConfigModel {
    pub model_path: Option<Seq<char>>,
    pub prompt: Seq<char>,
    pub max_tokens: u32,
    pub temperature: u32,
    pub top_k: u32,
    pub server_port: Option<u16>,
    pub debug: bool,
    pub vk_validation: bool,
    pub smoke: bool,
    pub chat: bool,
}

impl View for Config {
    type V = ConfigModel;

    open spec fn view(&self) -> ConfigModel {
        ConfigModel {
            model_path: cli::text_of(self.model_path),
            prompt: self.prompt@,
            max_tokens: self.max_tokens,
            temperature: self.temperature,
            top_k: self.top_k,
            server_port: self.server_port,
            debug: self.debug,
            vk_validation: self.vk_validation,
            smoke: self.smoke,
            chat: self.chat,
        }
    }
}

/// The settings before any edit.
pub open spec fn initial() -> ConfigModel {
    ConfigModel {
        model_path: None,
        prompt: Seq::empty(),
        max_tokens: 100,
        temperature: 0x3f80_0000,
        top_k: 0,
        server_port: None,
        debug: false,
        vk_validation: false,
        smoke: false,
        chat: false,
    }
}

impl Default for Config {
    fn default() -> (r: Self)
        ensures
            r@ == initial(),
    {
        let c: Config = Config {
            model_path: None,
            prompt: String::new(),
            max_tokens: 100,
            temperature: 0x3f80_0000,
            top_k: 0,
            server_port: None,
            debug: false,
            vk_validation: false,
            smoke: false,
            chat: false,
        };
        assert(c.prompt@ =~= Seq::<char>::empty());
        c
    }
}

/// A key on the terminal.
#[derive(Clone, Copy, Debug, PartialEq, Eq, Structural)]
pub enum Key {
    Up,
    Down,
    Enter,
    Esc,
    Char(u8),
    Ctrl(char),
}

/// The key of a byte and of those that follow an escape in time. Without a
/// byte there is nothing more to read, which counts as an escape.
pub open spec fn key_for(first: Option<u8>, second: Option<u8>, third: Option<u8>) -> Key {
    match first {
        None => Key::Esc,
        Some(b) => if b == 0x1b {
            match (second, third) {
                (Some(x), Some(y)) => if x == 0x5b && y == 0x41 {
                    Key::Up
                } else if x == 0x5b && y == 0x42 {
                    Key::Down
                } else {
                    Key::Esc
                },
                _ => Key::Esc,
            }
        } else if b == 0x0a || b == 0x0d {
            Key::Enter
        } else if b == 3 {
            Key::Ctrl('c')
        } else {
            Key::Char(b)
        },
    }
}

/// The key of a byte and of those that follow an escape in time.
pub fn key_of(first: Option<u8>, second: Option<u8>, third: Option<u8>) -> (k: Key)
    ensures
        k == key_for(first, second, third),
{
    match first {
        None => Key::Esc,
        Some(b) => if b == 0x1b {
            match (second, third) {
                (Some(x), Some(y)) => if x == 0x5b && y == 0x41 {
                    Key::Up
                } else if x == 0x5b && y == 0x42 {
                    Key::Down
                } else {
                    Key::Esc
                },
                _ => Key::Esc,
            }
        } else if b == 0x0a || b == 0x0d {
            Key::Enter
        } else if b == 3 {
            Key::Ctrl('c')
        } else {
            Key::Char(b)
        },
    }
}

/// A line of the form that can be changed.
#[derive(Clone, Copy, Debug, PartialEq, Eq, Structural)]
pub enum Field {
    Model,
    Prompt,
    Temperature,
    TopK,
    MaxTokens,
    Server,
    Port,
    Debug,
    VkValidation,
    Chat,
}

/// How many fields the form has.
pub const FIELDS: usize = 10;

/// Field `i` of the form.
pub open spec fn field_at(i: int) -> Field {
    if i == 0 {
        Field::Model
    } else if i == 1 {
        Field::Prompt
    } else if i == 2 {
        Field::Temperature
    } else if i == 3 {
        Field::TopK
    } else if i == 4 {
        Field::MaxTokens
    } else if i == 5 {
        Field::Server
    } else if i == 6 {
        Field::Port
    } else if i == 7 {
        Field::Debug
    } else if i == 8 {
        Field::VkValidation
    } else {
        Field::Chat
    }
}

/// Field `i` of the form.
pub fn field(i: usize) -> (f: Field)
    requires
        i < FIELDS,
    ensures
        f == field_at(i as int),
{
    if i == 0 {
        Field::Model
    } else if i == 1 {
        Field::Prompt
    } else if i == 2 {
        Field::Temperature
    } else if i == 3 {
        Field::TopK
    } else if i == 4 {
        Field::MaxTokens
    } else if i == 5 {
        Field::Server
    } else if i == 6 {
        Field::Port
    } else if i == 7 {
        Field::Debug
    } else if i == 8 {
        Field::VkValidation
    } else {
        Field::Chat
    }
}

/// The form: the settings and the selected field.
pub struct Form {
    pub config: Config,
    pub selected: usize,
}

/// What the form says.
pub struct FormModel {
    pub config: ConfigModel,
    pub selected: int,
}

impl View for Form {
    type V = FormModel;

    open spec fn view(&self) -> FormModel {
        FormModel { config: self.config@, selected: self.selected as int }
    }
}

/// What happens next.
#[derive(Clone, Copy, Debug, PartialEq, Eq, Structural)]
pub enum Reaction {
    /// Show the form and wait for a key.
    Show,
    /// A switch was turned: clear the screen first.
    Cleared,
    /// Ask for a line for this field.
    Ask(Field),
    /// Say that the model is missing.
    ModelMissing,
    /// Ask for a prompt, and go on if there is one.
    AskPrompt,
    /// Go on with these settings.
    Done,
    Quit,
}

/// The port of the settings, or the usual one.
pub open spec fn port_or_default(c: ConfigModel) -> u16 {
    match c.server_port {
        Some(p) => p,
        None => cli::DEFAULT_PORT,
    }
}

/// The settings with a switch turned.
pub open spec fn switched(c: ConfigModel, f: Field) -> ConfigModel {
    match f {
        Field::Server => ConfigModel {
            server_port: if c.server_port is Some {
                None
            } else {
                Some(cli::DEFAULT_PORT)
            },
            ..c
        },
        Field::Debug => ConfigModel { debug: !c.debug, ..c },
        Field::VkValidation => ConfigModel { vk_validation: !c.vk_validation, ..c },
        Field::Chat => ConfigModel { chat: !c.chat, ..c },
        _ => c,
    }
}

/// The field is a switch.
pub open spec fn is_switch(f: Field) -> bool {
    f == Field::Server || f == Field::Debug || f == Field::VkValidation || f == Field::Chat
}

/// The form behind a key, and what happens next.
pub open spec fn after_key(m: FormModel, k: Key) -> (FormModel, Reaction) {
    match k {
        Key::Up => if m.selected > 0 {
            (FormModel { selected: m.selected - 1, ..m }, Reaction::Show)
        } else {
            (m, Reaction::Show)
        },
        Key::Down => if m.selected < FIELDS - 1 {
            (FormModel { selected: m.selected + 1, ..m }, Reaction::Show)
        } else {
            (m, Reaction::Show)
        },
        Key::Enter => {
            let f = field_at(m.selected);
            if is_switch(f) {
                (FormModel { config: switched(m.config, f), ..m }, Reaction::Cleared)
            } else {
                (m, Reaction::Ask(f))
            }
        },
        Key::Char(b) => if b == 0x72 {
            if m.config.model_path is None {
                (m, Reaction::ModelMissing)
            } else if m.config.prompt.len() == 0 {
                (m, Reaction::AskPrompt)
            } else {
                (m, Reaction::Done)
            }
        } else if b == 0x73 {
            (
                FormModel { config: ConfigModel { smoke: true, ..m.config }, ..m },
                Reaction::Done,
            )
        } else if b == 0x71 {
            (m, Reaction::Quit)
        } else {
            (m, Reaction::Show)
        },
        Key::Esc => (m, Reaction::Quit),
        Key::Ctrl(c) => if c == 'c' {
            (m, Reaction::Quit)
        } else {
            (m, Reaction::Show)
        },
    }
}

/// What was entered on a line; an empty line keeps `current`.
pub open spec fn entered(line: Seq<char>, current: Seq<char>) -> Seq<char> {
    let t = text::trim_back(text::trim_front(line));
    if t.len() == 0 {
        current
    } else {
        t
    }
}

/// The number that was entered, or `current` when it is none up to `max`.
pub open spec fn number_entered(line: Seq<char>, max: nat, current: nat) -> nat {
    match text::number_in(entered(line, text::decimal(current)), max) {
        Some(n) => n,
        None => current,
    }
}

/// The path that was entered for the model.
pub open spec fn path_entered(c: ConfigModel, line: Seq<char>) -> Seq<char> {
    entered(
        line,
        match c.model_path {
            Some(p) => p,
            None => Seq::empty(),
        },
    )
}

/// The settings behind a line for field `f`. A model is taken only where its
/// file exists.
pub open spec fn after_line(c: ConfigModel, f: Field, line: Seq<char>, exists: bool) -> ConfigModel {
    match f {
        Field::Model => if path_entered(c, line).len() > 0 && exists {
            ConfigModel { model_path: Some(path_entered(c, line)), ..c }
        } else {
            c
        },
        Field::Prompt => ConfigModel { prompt: entered(line, c.prompt), ..c },
        Field::TopK => ConfigModel {
            top_k: number_entered(line, u32::MAX as nat, c.top_k as nat) as u32,
            ..c
        },
        Field::MaxTokens => ConfigModel {
            max_tokens: number_entered(line, u32::MAX as nat, c.max_tokens as nat) as u32,
            ..c
        },
        Field::Port => ConfigModel {
            server_port: Some(
                number_entered(line, u16::MAX as nat, port_or_default(c) as nat) as u16,
            ),
            ..c
        },
        _ => c,
    }
}

fn entry(line: &str, current: &str) -> (r: String)
    ensures
        r@ == entered(line@, current@),
{
    let chars: Vec<char> = text::to_chars(line);
    let t: &[char] = text::trim(chars.as_slice());
    if t.len() == 0 {
        current.to_owned()
    } else {
        text::from_chars(t)
    }
}

fn number_entry(line: &str, max: u64, current: u64) -> (r: u64)
    requires
        current <= max,
    ensures
        r == number_entered(line@, max as nat, current as nat),
        r <= max,
{
    let mut shown: String = String::new();
    text::push_decimal(&mut shown, current);
    assert(shown@ =~= text::decimal(current as nat));
    let s: String = entry(line, shown.as_str());
    let chars: Vec<char> = text::to_chars(s.as_str());
    match text::parse_number(chars.as_slice(), max) {
        Some(n) => n,
        None => current,
    }
}

impl Form {
    /// A field of the form is selected.
    pub open spec fn well_formed(&self) -> bool {
        self.selected < FIELDS
    }

    /// The form as it is first shown.
    pub fn new() -> (r: Self)
        ensures
            r.well_formed(),
            r@ == (FormModel { config: initial(), selected: 0 }),
    {
        Form { config: Config::default(), selected: 0 }
    }

    /// Takes a key.
    pub fn press(&mut self, k: Key) -> (r: Reaction)
        requires
            old(self).well_formed(),
        ensures
            final(self).well_formed(),
            (final(self)@, r) == after_key(old(self)@, k),
    {
        match k {
            Key::Up => {
                if self.selected > 0 {
                    self.selected = self.selected - 1;
                }
                Reaction::Show
            },
            Key::Down => {
                if self.selected < FIELDS - 1 {
                    self.selected = self.selected + 1;
                }
                Reaction::Show
            },
            Key::Enter => {
                let f: Field = field(self.selected);
                match f {
                    Field::Server => {
                        self.config.server_port =
                        match self.config.server_port {
                            Some(_) => None,
                            None => Some(cli::DEFAULT_PORT),
                        };
                        Reaction::Cleared
                    },
                    Field::Debug => {
                        self.config.debug = !self.config.debug;
                        Reaction::Cleared
                    },
                    Field::VkValidation => {
                        self.config.vk_validation = !self.config.vk_validation;
                        Reaction::Cleared
                    },
                    Field::Chat => {
                        self.config.chat = !self.config.chat;
                        Reaction::Cleared
                    },
                    _ => Reaction::Ask(f),
                }
            },
            Key::Char(b) => {
                if b == 0x72 {
                    if self.config.model_path.is_none() {
                        Reaction::ModelMissing
                    } else if self.config.prompt.as_str().is_empty() {
                        Reaction::AskPrompt
                    } else {
                        Reaction::Done
                    }
                } else if b == 0x73 {
                    self.config.smoke = true;
                    Reaction::Done
                } else if b == 0x71 {
                    Reaction::Quit
                } else {
                    Reaction::Show
                }
            },
            Key::Esc => Reaction::Quit,
            Key::Ctrl(c) => {
                if c == 'c' {
                    Reaction::Quit
                } else {
                    Reaction::Show
                }
            },
        }
    }

    /// The path that a line for the model names.
    pub fn model_entry(&self, line: &str) -> (r: String)
        ensures
            r@ == path_entered(self@.config, line@),
    {
        match &self.config.model_path {
            Some(p) => entry(line, p.as_str()),
            None => {
                let none: String = String::new();
                assert(none@ =~= Seq::<char>::empty());
                entry(line, none.as_str())
            },
        }
    }

    /// Takes a line for field `f`; `exists` says whether the named model does.
    pub fn enter(&mut self, f: Field, line: &str, exists: bool)
        requires
            old(self).well_formed(),
        ensures
            final(self).well_formed(),
            final(self)@ == (FormModel {
                config: after_line(old(self)@.config, f, line@, exists),
                ..old(self)@
            }),
    {
        match f {
            Field::Model => {
                let path: String = self.model_entry(line);
                if !path.as_str().is_empty() && exists {
                    self.config.model_path = Some(path);
                }
            },
            Field::Prompt => {
                self.config.prompt = entry(line, self.config.prompt.as_str());
            },
            Field::TopK => {
                self.config.top_k =
                number_entry(line, u32::MAX as u64, self.config.top_k as u64) as u32;
            },
            Field::MaxTokens => {
                self.config.max_tokens =
                number_entry(line, u32::MAX as u64, self.config.max_tokens as u64) as u32;
            },
            Field::Port => {
                let port: u16 = match self.config.server_port {
                    Some(p) => p,
                    None => cli::DEFAULT_PORT,
                };
                self.config.server_port =
                Some(number_entry(line, u16::MAX as u64, port as u64) as u16);
            },
            _ => {},
        }
    }

    /// Takes a temperature; what was no number changes nothing.
    pub fn enter_temperature(&mut self, bits: Option<u32>)
        requires
            old(self).well_formed(),
        ensures
            final(self).well_formed(),
            final(self)@ == (FormModel {
                config: ConfigModel {
                    temperature: match bits {
                        Some(t) => t,
                        None => old(self)@.config.temperature,
                    },
                    ..old(self)@.config
                },
                ..old(self)@
            }),
    {
        if let Some(t) = bits {
            self.config.temperature = t;
        }
    }

    /// Takes the prompt that was asked for before going on, which it does where
    /// there is one.
    pub fn enter_prompt(&mut self, line: &str) -> (r: Reaction)
        requires
            old(self).well_formed(),
            old(self)@.config.prompt.len() == 0,
        ensures
            final(self).well_formed(),
            final(self)@ == (FormModel {
                config: after_line(old(self)@.config, Field::Prompt, line@, false),
                ..old(self)@
            }),
            r == if final(self)@.config.prompt.len() == 0 {
                Reaction::Cleared
            } else {
                Reaction::Done
            },
    {
        self.enter(Field::Prompt, line, false);
        if self.config.prompt.as_str().is_empty() {
            Reaction::Cleared
        } else {
            Reaction::Done
        }
    }
}

/// Moves the cursor to a row.
pub open spec fn at_row(row: nat) -> Seq<char> {
    "\x1B["@ + text::decimal(row) + "H"@
}

/// A text, in reverse where it is selected.
pub open spec fn marked(s: Seq<char>, on: bool) -> Seq<char> {
    if on {
        "\x1B[7m"@ + s + "\x1B[0m"@
    } else {
        s
    }
}

/// The front of a row with a field.
pub open spec fn row_front(row: nat, on: bool, label: Seq<char>) -> Seq<char> {
    at_row(row) + "  │ "@ + marked("▶"@, on) + label
}

/// A row with a field, behind a row that was cleared.
pub open spec fn row_text(row: nat, on: bool, label: Seq<char>, value: Seq<char>) -> Seq<char> {
    at_row(row) + "\x1B[K\n"@ + row_front(row, on, label) + marked(value, on) + "\n"@
}

/// The row of the temperature, which is written twice.
pub open spec fn temperature_row(on: bool, value: Seq<char>) -> Seq<char> {
    at_row(8) + "\x1B[K\n"@ + row_front(8, on, " Temperature: "@) + value + row_front(
        8,
        on,
        " Temperature: "@,
    ) + marked(value, on) + "\n"@
}

/// The bytes of a prompt that the form shows.
pub const PREVIEW: usize = 47;

/// The prompt as the form shows it.
pub open spec fn preview_of(prompt: Seq<char>) -> Seq<char> {
    let bytes = vstd::utf8::encode_utf8(prompt);
    if bytes.len() > PREVIEW {
        vstd::utf8::decode_utf8(bytes.subrange(0, PREVIEW as int)) + ".."@
    } else if prompt.len() == 0 {
        "(empty)"@
    } else {
        prompt
    }
}

/// A long prompt can be cut where the form cuts it.
pub open spec fn can_preview(prompt: Seq<char>) -> bool {
    let bytes = vstd::utf8::encode_utf8(prompt);
    bytes.len() > PREVIEW ==> vstd::utf8::is_char_boundary(bytes, PREVIEW as int)
}

/// The prompt as the form shows it.
pub fn preview(prompt: &str) -> (r: String)
    requires
        can_preview(prompt@),
    ensures
        r@ == preview_of(prompt@),
{
    broadcast use vstd::utf8::encode_utf8_decode_utf8;

    if prompt.as_bytes().len() > PREVIEW {
        let (front, _) = prompt.split_at(PREVIEW);
        assert(vstd::utf8::decode_utf8(vstd::utf8::encode_utf8(front@)) == front@);
        let mut out: String = front.to_owned();
        out.append("..");
        out
    } else if prompt.is_empty() {
        "(empty)".to_owned()
    } else {
        prompt.to_owned()
    }
}

pub open spec fn on_off(on: bool) -> Seq<char> {
    if on {
        "ON"@
    } else {
        "OFF"@
    }
}

pub open spec fn on_off_padded(on: bool) -> Seq<char> {
    if on {
        "ON "@
    } else {
        "OFF"@
    }
}

/// The upper half of the form.
pub open spec fn upper_half(m: FormModel, temperature: Seq<char>) -> Seq<char> {
    let c = m.config;
    let sel = m.selected;
    at_row(1) + "┌────────────────────────────────────────────────┐"@ + at_row(2)
        + "│          moe-680m Configuration               │"@ + at_row(3)
        + "├────────────────────────────────────────────────┤"@ + at_row(4)
        + "│ Model                                          │"@ + row_text(
        5,
        sel == 0,
        " Model path:  "@,
        match c.model_path {
            Some(p) => p,
            None => "(not set)"@,
        },
    ) + row_text(6, sel == 1, " Prompt:      "@, preview_of(c.prompt)) + at_row(7)
        + "│ Sampling                                       │"@ + temperature_row(
        sel == 2,
        temperature,
    ) + row_text(9, sel == 3, " Top-K:       "@, text::decimal(c.top_k as nat)) + row_text(
        10,
        sel == 4,
        " Max tokens:  "@,
        text::decimal(c.max_tokens as nat),
    )
}

/// The lower half of the form.
pub open spec fn lower_half(m: FormModel) -> Seq<char> {
    let c = m.config;
    let sel = m.selected;
    at_row(11) + "│ Server                                         │"@ + row_text(
        12,
        sel == 5,
        " Server mode: "@,
        on_off_padded(c.server_port is Some),
    ) + row_text(
        13,
        sel == 6,
        " Server port: "@,
        text::decimal(port_or_default(c) as nat),
    ) + at_row(14) + "│ Debug                                          │"@ + row_text(
        15,
        sel == 7,
        " Debug:        "@,
        on_off(c.debug),
    ) + row_text(16, sel == 8, " Vulkan valid: "@, on_off(c.vk_validation)) + row_text(
        17,
        sel == 9,
        " Interactive chat: "@,
        on_off_padded(c.chat),
    ) + at_row(18) + "├────────────────────────────────────────────────┤"@ + at_row(19)
        + "│  ↑↓ navigate  ↵ edit  r run  s smoke  q quit  │"@ + at_row(20)
        + "└────────────────────────────────────────────────┘"@ + at_row(21) + "\x1B[K"@
}

fn push_row(out: &mut String, row: u64)
    ensures
        final(out)@ == old(out)@ + at_row(row as nat),
{
    let ghost start = out@;
    out.append("\x1B[");
    text::push_decimal(out, row);
    out.append("H");
    assert(out@ =~= start + at_row(row as nat));
}

fn push_marked(out: &mut String, s: &str, on: bool)
    ensures
        final(out)@ == old(out)@ + marked(s@, on),
{
    let ghost start = out@;
    if on {
        out.append("\x1B[7m");
        out.append(s);
        out.append("\x1B[0m");
    } else {
        out.append(s);
    }
    assert(out@ =~= start + marked(s@, on));
}

fn push_front(out: &mut String, row: u64, on: bool, label: &str)
    ensures
        final(out)@ == old(out)@ + row_front(row as nat, on, label@),
{
    let ghost start = out@;
    push_row(out, row);
    out.append("  │ ");
    push_marked(out, "▶", on);
    out.append(label);
    assert(out@ =~= start + row_front(row as nat, on, label@));
}

fn push_field(out: &mut String, row: u64, on: bool, label: &str, value: &str)
    ensures
        final(out)@ == old(out)@ + row_text(row as nat, on, label@, value@),
{
    let ghost start = out@;
    push_row(out, row);
    out.append("\x1B[K\n");
    push_front(out, row, on, label);
    push_marked(out, value, on);
    out.append("\n");
    assert(out@ =~= start + row_text(row as nat, on, label@, value@));
}

fn push_line(out: &mut String, row: u64, line: &str)
    ensures
        final(out)@ == old(out)@ + at_row(row as nat) + line@,
{
    push_row(out, row);
    out.append(line);
}

fn number_text(n: u64) -> (r: String)
    ensures
        r@ == text::decimal(n as nat),
{
    let mut s: String = String::new();
    text::push_decimal(&mut s, n);
    assert(s@ =~= text::decimal(n as nat));
    s
}

fn push_temperature(out: &mut String, on: bool, value: &str)
    ensures
        final(out)@ == old(out)@ + temperature_row(on, value@),
{
    let ghost start = out@;
    push_row(out, 8);
    out.append("\x1B[K\n");
    push_front(out, 8, on, " Temperature: ");
    out.append(value);
    push_front(out, 8, on, " Temperature: ");
    push_marked(out, value, on);
    out.append("\n");
    assert(out@ =~= start + temperature_row(on, value@));
}

fn upper(form: &Form, temperature: &str) -> (out: String)
    requires
        can_preview(form@.config.prompt),
    ensures
        out@ == upper_half(form@, temperature@),
{
    let c: &Config = &form.config;
    let sel: usize = form.selected;
    let path: &str = match &c.model_path {
        Some(p) => p.as_str(),
        None => "(not set)",
    };
    let prompt: String = preview(c.prompt.as_str());
    let top_k: String = number_text(c.top_k as u64);
    let max_tokens: String = number_text(c.max_tokens as u64);
    let mut out: String = String::new();
    push_row(&mut out, 1);
    assert(out@ =~= at_row(1));
    out.append("┌────────────────────────────────────────────────┐");
    push_line(&mut out, 2, "│          moe-680m Configuration               │");
    push_line(&mut out, 3, "├────────────────────────────────────────────────┤");
    push_line(&mut out, 4, "│ Model                                          │");
    push_field(&mut out, 5, sel == 0, " Model path:  ", path);
    push_field(&mut out, 6, sel == 1, " Prompt:      ", prompt.as_str());
    push_line(&mut out, 7, "│ Sampling                                       │");
    push_temperature(&mut out, sel == 2, temperature);
    push_field(&mut out, 9, sel == 3, " Top-K:       ", top_k.as_str());
    push_field(&mut out, 10, sel == 4, " Max tokens:  ", max_tokens.as_str());
    out
}

fn lower(form: &Form) -> (out: String)
    ensures
        out@ == lower_half(form@),
{
    let c: &Config = &form.config;
    let sel: usize = form.selected;
    let mode: &str = if c.server_port.is_some() {
        "ON "
    } else {
        "OFF"
    };
    let port: u16 = match c.server_port {
        Some(p) => p,
        None => cli::DEFAULT_PORT,
    };
    let port_text: String = number_text(port as u64);
    let debug: &str = if c.debug {
        "ON"
    } else {
        "OFF"
    };
    let validation: &str = if c.vk_validation {
        "ON"
    } else {
        "OFF"
    };
    let chat: &str = if c.chat {
        "ON "
    } else {
        "OFF"
    };
    let mut out: String = String::new();
    push_row(&mut out, 11);
    assert(out@ =~= at_row(11));
    out.append("│ Server                                         │");
    push_field(&mut out, 12, sel == 5, " Server mode: ", mode);
    push_field(&mut out, 13, sel == 6, " Server port: ", port_text.as_str());
    push_line(&mut out, 14, "│ Debug                                          │");
    push_field(&mut out, 15, sel == 7, " Debug:        ", debug);
    push_field(&mut out, 16, sel == 8, " Vulkan valid: ", validation);
    push_field(&mut out, 17, sel == 9, " Interactive chat: ", chat);
    push_line(&mut out, 18, "├────────────────────────────────────────────────┤");
    push_line(&mut out, 19, "│  ↑↓ navigate  ↵ edit  r run  s smoke  q quit  │");
    push_line(&mut out, 20, "└────────────────────────────────────────────────┘");
    push_line(&mut out, 21, "\x1B[K");
    out
}

/// What is written to the terminal to show the form; the temperature comes as text.
pub fn render(form: &Form, temperature: &str) -> (r: String)
    requires
        can_preview(form@.config.prompt),
    ensures
        r@ == upper_half(form@, temperature@) + lower_half(form@),
{
    let mut out: String = upper(form, temperature);
    out.append(lower(form).as_str());
    out
}

/// The form goes on only with a model and a prompt, or to the smoke test.
pub proof fn law_done_is_complete(m: FormModel, k: Key)
    requires
        after_key(m, k).1 == Reaction::Done,
    ensures
        ({
            let c = after_key(m, k).0.config;
            c.smoke || (c.model_path is Some && c.prompt.len() > 0)
        }),
{
}

/// Turning a switch twice leaves the settings as they were, but that the
/// server's port is the usual one again.
pub proof fn law_switches_turn_back(c: ConfigModel, f: Field)
    requires
        f == Field::Server && c.server_port is Some ==> c.server_port == Some(cli::DEFAULT_PORT),
    ensures
        switched(switched(c, f), f) == c,
{
}

} // verus!
