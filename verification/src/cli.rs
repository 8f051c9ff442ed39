//! Command-line arguments.

use crate::text;
use vstd::prelude::*;

verus! {

/// What is reported beside the results.
#[derive(Clone, Copy, Debug, PartialEq, Eq, Structural)]
pub struct DebugContext {
    pub enabled: bool,
    pub vk_validation: bool,
}

/// A variable is on when it is set to anything but "0".
pub open spec fn is_on(v: Option<&str>) -> bool {
    v matches Some(s) && s@ != "0"@
}

fn on(v: Option<&str>) -> (r: bool)
    ensures
        r == is_on(v),
{
    match v {
        Some(s) => !text::same_text(s, "0"),
        None => false,
    }
}

impl DebugContext {
    /// The context that two variables ask for: one for debug output, one for
    /// validation.
    pub fn from_env(debug: Option<&str>, validation: Option<&str>) -> (r: Self)
        ensures
            r == (DebugContext { enabled: is_on(debug), vk_validation: is_on(validation) }),
    {
        DebugContext { enabled: on(debug), vk_validation: on(validation) }
    }
}

pub const DEFAULT_PORT: u16 = 8080;

pub const DEFAULT_MAX_TOKENS: u32 = 100;

/// The options.
pub struct Options {
    pub debug: DebugContext,
    pub smoke: bool,
    pub tui: bool,
    pub chat: bool,
    pub model: Option<String>,
    pub prompt: Option<String>,
    pub max_tokens: u32,
    pub server_port: Option<u16>,
}

/// What the options say.
pub struct OptionsModel {
    pub debug: DebugContext,
    pub smoke: bool,
    pub tui: bool,
    pub chat: bool,
    pub model: Option<Seq<char>>,
    pub prompt: Option<Seq<char>>,
    pub max_tokens: u32,
    pub server_port: Option<u16>,
}

/// The characters of a text that may be there.
pub open spec fn text_of(s: Option<String>) -> Option<Seq<char>> {
    match s {
        Some(t) => Some(t@),
        None => None,
    }
}

impl View for Options {
    type V = OptionsModel;

    open spec fn view(&self) -> OptionsModel {
        OptionsModel {
            debug: self.debug,
            smoke: self.smoke,
            tui: self.tui,
            chat: self.chat,
            model: text_of(self.model),
            prompt: text_of(self.prompt),
            max_tokens: self.max_tokens,
            server_port: self.server_port,
        }
    }
}

/// The options before any argument.
pub open spec fn defaults(debug: DebugContext) -> OptionsModel {
    OptionsModel {
        debug,
        smoke: false,
        tui: false,
        chat: false,
        model: None,
        prompt: None,
        max_tokens: DEFAULT_MAX_TOKENS,
        server_port: None,
    }
}

/// What arguments come to.
pub enum Parsed {
    Help,
    Unknown(String),
    Options(Options),
}

/// What arguments come to.
pub enum ParsedModel {
    Help,
    Unknown(Seq<char>),
    Options(OptionsModel),
}

impl View for Parsed {
    type V = ParsedModel;

    open spec fn view(&self) -> ParsedModel {
        match self {
            Parsed::Help => ParsedModel::Help,
            Parsed::Unknown(s) => ParsedModel::Unknown(s@),
            Parsed::Options(o) => ParsedModel::Options(o@),
        }
    }
}

/// Argument `i`, or nothing behind the last.
pub open spec fn value_at(raw: Seq<Seq<char>>, i: int) -> Seq<char> {
    if i < raw.len() {
        raw[i]
    } else {
        Seq::empty()
    }
}

/// The number of tokens that `s` asks for.
pub open spec fn token_limit(s: Seq<char>) -> u32 {
    match text::number_in(s, u32::MAX as nat) {
        Some(n) => n as u32,
        None => DEFAULT_MAX_TOKENS,
    }
}

/// The port that argument `i` names, if it is there and names one.
pub open spec fn port_at(raw: Seq<Seq<char>>, i: int) -> Option<u16> {
    if i < raw.len() {
        match text::number_in(raw[i], u16::MAX as nat) {
            Some(n) => Some(n as u16),
            None => None,
        }
    } else {
        None
    }
}

/// What the arguments from `i` on come to, on top of `o`. Later options win.
/// Help and what is not known end the reading.
pub open spec fn parse_from(raw: Seq<Seq<char>>, i: int, o: OptionsModel) -> ParsedModel
    decreases raw.len() + 1 - i,
{
    if i >= raw.len() {
        ParsedModel::Options(o)
    } else if raw[i] == "--debug"@ || raw[i] == "-d"@ {
        parse_from(
            raw,
            i + 1,
            OptionsModel { debug: DebugContext { enabled: true, ..o.debug }, ..o },
        )
    } else if raw[i] == "--validate"@ {
        parse_from(
            raw,
            i + 1,
            OptionsModel { debug: DebugContext { vk_validation: true, ..o.debug }, ..o },
        )
    } else if raw[i] == "--smoke"@ {
        parse_from(raw, i + 1, OptionsModel { smoke: true, ..o })
    } else if raw[i] == "--tui"@ {
        parse_from(raw, i + 1, OptionsModel { tui: true, ..o })
    } else if raw[i] == "--chat"@ {
        parse_from(raw, i + 1, OptionsModel { chat: true, ..o })
    } else if raw[i] == "--model"@ {
        parse_from(raw, i + 2, OptionsModel { model: Some(value_at(raw, i + 1)), ..o })
    } else if raw[i] == "--prompt"@ {
        parse_from(raw, i + 2, OptionsModel { prompt: Some(value_at(raw, i + 1)), ..o })
    } else if raw[i] == "--max-tokens"@ {
        parse_from(
            raw,
            i + 2,
            OptionsModel { max_tokens: token_limit(value_at(raw, i + 1)), ..o },
        )
    } else if raw[i] == "--server"@ {
        match port_at(raw, i + 1) {
            Some(p) => parse_from(raw, i + 2, OptionsModel { server_port: Some(p), ..o }),
            None => parse_from(raw, i + 1, OptionsModel { server_port: Some(DEFAULT_PORT), ..o }),
        }
    } else if raw[i] == "--help"@ || raw[i] == "-h"@ {
        ParsedModel::Help
    } else {
        ParsedModel::Unknown(raw[i])
    }
}

fn value_of(raw: &[String], i: usize) -> (r: String)
    ensures
        r@ == value_at(text::texts(raw@), i as int),
{
    if i < raw.len() {
        raw[i].clone()
    } else {
        String::new()
    }
}

fn limit_of(s: &str) -> (r: u32)
    ensures
        r == token_limit(s@),
{
    let chars: Vec<char> = text::to_chars(s);
    match text::parse_number(chars.as_slice(), u32::MAX as u64) {
        Some(n) => n as u32,
        None => DEFAULT_MAX_TOKENS,
    }
}

fn port_of(raw: &[String], i: usize) -> (r: Option<u16>)
    ensures
        r == port_at(text::texts(raw@), i as int),
{
    if i < raw.len() {
        let chars: Vec<char> = text::to_chars(raw[i].as_str());
        match text::parse_number(chars.as_slice(), u16::MAX as u64) {
            Some(n) => Some(n as u16),
            None => None,
        }
    } else {
        None
    }
}

/// Reads the arguments behind the program's name.
pub fn parse_args(raw: &[String], debug: DebugContext) -> (r: Parsed)
    requires
        raw@.len() < usize::MAX,
    ensures
        r@ == parse_from(text::texts(raw@), 1, defaults(debug)),
{
    let ghost all = text::texts(raw@);
    let mut o: Options = Options {
        debug,
        smoke: false,
        tui: false,
        chat: false,
        model: None,
        prompt: None,
        max_tokens: DEFAULT_MAX_TOKENS,
        server_port: None,
    };
    let mut i: usize = 1;
    assert(raw.len() == raw@.len());
    while i < raw.len()
        invariant
            1 <= i <= raw@.len() + 1,
            raw@.len() < usize::MAX,
            all == text::texts(raw@),
            parse_from(all, 1, defaults(debug)) == parse_from(all, i as int, o@),
        decreases raw@.len() + 1 - i,
    {
        let a: &str = raw[i].as_str();
        assert(a@ == all[i as int]);
        if text::same_text(a, "--debug") || text::same_text(a, "-d") {
            o.debug.enabled = true;
        } else if text::same_text(a, "--validate") {
            o.debug.vk_validation = true;
        } else if text::same_text(a, "--smoke") {
            o.smoke = true;
        } else if text::same_text(a, "--tui") {
            o.tui = true;
        } else if text::same_text(a, "--chat") {
            o.chat = true;
        } else if text::same_text(a, "--model") {
            i = i + 1;
            o.model = Some(value_of(raw, i));
        } else if text::same_text(a, "--prompt") {
            i = i + 1;
            o.prompt = Some(value_of(raw, i));
        } else if text::same_text(a, "--max-tokens") {
            i = i + 1;
            o.max_tokens = limit_of(value_of(raw, i).as_str());
        } else if text::same_text(a, "--server") {
            match port_of(raw, i + 1) {
                Some(p) => {
                    i = i + 1;
                    o.server_port = Some(p);
                },
                None => {
                    o.server_port = Some(DEFAULT_PORT);
                },
            }
        } else if text::same_text(a, "--help") || text::same_text(a, "-h") {
            return Parsed::Help;
        } else {
            return Parsed::Unknown(raw[i].clone());
        }
        i = i + 1;
    }
    Parsed::Options(o)
}

/// What the program does.
#[derive(Clone, Copy, Debug, PartialEq, Eq, Structural)]
pub enum Task {
    /// Test the device.
    Smoke,
    /// Ask for the settings on the terminal.
    Tui,
    /// Load the model.
    Infer,
    Nothing,
}

/// What the options ask for, given whether there were any arguments.
pub open spec fn task_of(o: OptionsModel, any: bool) -> Task {
    if o.smoke {
        Task::Smoke
    } else if o.tui || !any {
        Task::Tui
    } else if o.model is Some {
        Task::Infer
    } else if o.server_port is None && o.prompt is None {
        Task::Smoke
    } else {
        Task::Nothing
    }
}

/// What the options ask for, given whether there were any arguments.
pub fn task(o: &Options, any: bool) -> (r: Task)
    ensures
        r == task_of(o@, any),
{
    if o.smoke {
        Task::Smoke
    } else if o.tui || !any {
        Task::Tui
    } else if o.model.is_some() {
        Task::Infer
    } else if o.server_port.is_none() && o.prompt.is_none() {
        Task::Smoke
    } else {
        Task::Nothing
    }
}

/// No later argument takes back a switch: debug output, validation, the smoke
/// test, the settings form and the chat can only be turned on.
pub proof fn law_flags_are_kept(raw: Seq<Seq<char>>, i: int, o: OptionsModel)
    requires
        0 <= i,
        parse_from(raw, i, o) is Options,
    ensures
        o.smoke ==> parse_from(raw, i, o)->Options_0.smoke,
        o.tui ==> parse_from(raw, i, o)->Options_0.tui,
        o.chat ==> parse_from(raw, i, o)->Options_0.chat,
        o.debug.enabled ==> parse_from(raw, i, o)->Options_0.debug.enabled,
        o.debug.vk_validation ==> parse_from(raw, i, o)->Options_0.debug.vk_validation,
    decreases raw.len() + 1 - i,
{
    if i < raw.len() {
        let a = raw[i];
        if a == "--debug"@ || a == "-d"@ {
            law_flags_are_kept(
                raw,
                i + 1,
                OptionsModel { debug: DebugContext { enabled: true, ..o.debug }, ..o },
            );
        } else if a == "--validate"@ {
            law_flags_are_kept(
                raw,
                i + 1,
                OptionsModel { debug: DebugContext { vk_validation: true, ..o.debug }, ..o },
            );
        } else if a == "--smoke"@ {
            law_flags_are_kept(raw, i + 1, OptionsModel { smoke: true, ..o });
        } else if a == "--tui"@ {
            law_flags_are_kept(raw, i + 1, OptionsModel { tui: true, ..o });
        } else if a == "--chat"@ {
            law_flags_are_kept(raw, i + 1, OptionsModel { chat: true, ..o });
        } else if a == "--model"@ {
            law_flags_are_kept(
                raw,
                i + 2,
                OptionsModel { model: Some(value_at(raw, i + 1)), ..o },
            );
        } else if a == "--prompt"@ {
            law_flags_are_kept(
                raw,
                i + 2,
                OptionsModel { prompt: Some(value_at(raw, i + 1)), ..o },
            );
        } else if a == "--max-tokens"@ {
            law_flags_are_kept(
                raw,
                i + 2,
                OptionsModel { max_tokens: token_limit(value_at(raw, i + 1)), ..o },
            );
        } else if a == "--server"@ {
            match port_at(raw, i + 1) {
                Some(p) => law_flags_are_kept(
                    raw,
                    i + 2,
                    OptionsModel { server_port: Some(p), ..o },
                ),
                None => law_flags_are_kept(
                    raw,
                    i + 1,
                    OptionsModel { server_port: Some(DEFAULT_PORT), ..o },
                ),
            }
        }
    }
}

} // verus!
