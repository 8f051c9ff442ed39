//! What options and the settings form come to: every option sets its own
//! setting, a number is taken as it is typed, and the form shows all of them.

use crate::cli;
use crate::cli::{DebugContext, OptionsModel, ParsedModel, Task};
use crate::text;
use crate::tui;
use crate::tui::{ConfigModel, Field, FormModel, Key};
use vstd::prelude::*;

verus! {

proof fn lemma_flags()
    ensures
        "--debug"@.len() == 7,
        "-d"@.len() == 2,
        "--validate"@.len() == 10,
        "--smoke"@.len() == 7,
        "--tui"@.len() == 5,
        "--chat"@.len() == 6,
        "--model"@.len() == 7,
        "--prompt"@.len() == 8,
        "--max-tokens"@.len() == 12,
        "--server"@.len() == 8,
        "--help"@.len() == 6,
        "-h"@.len() == 2,
        "--debug"@[2] == 'd',
        "-d"@[1] == 'd',
        "--smoke"@[2] == 's',
        "--chat"@[2] == 'c',
        "--model"@[2] == 'm',
        "--prompt"@[2] == 'p',
        "--server"@[2] == 's',
        "--help"@[2] == 'h',
        "-h"@[1] == 'h',
{
    reveal_strlit("--debug");
    reveal_strlit("-d");
    reveal_strlit("--validate");
    reveal_strlit("--smoke");
    reveal_strlit("--tui");
    reveal_strlit("--chat");
    reveal_strlit("--model");
    reveal_strlit("--prompt");
    reveal_strlit("--max-tokens");
    reveal_strlit("--server");
    reveal_strlit("--help");
    reveal_strlit("-h");
}

/// The flag turns on one switch and leaves all other options as they are.
pub open spec fn turns_on(o: OptionsModel, after: OptionsModel, flag: Seq<char>) -> bool {
    &&& after.debug.enabled == (o.debug.enabled || flag == "--debug"@ || flag == "-d"@)
    &&& after.debug.vk_validation == (o.debug.vk_validation || flag == "--validate"@)
    &&& after.smoke == (o.smoke || flag == "--smoke"@)
    &&& after.tui == (o.tui || flag == "--tui"@)
    &&& after.chat == (o.chat || flag == "--chat"@)
    &&& after.model == o.model
    &&& after.prompt == o.prompt
    &&& after.max_tokens == o.max_tokens
    &&& after.server_port == o.server_port
}

/// The text is a flag without a value.
pub open spec fn is_plain_flag(flag: Seq<char>) -> bool {
    flag == "--debug"@ || flag == "-d"@ || flag == "--validate"@ || flag == "--smoke"@ || flag
        == "--tui"@ || flag == "--chat"@
}

/// A flag sets its switch, and the reading goes on behind it.
pub proof fn law_flags_set_their_switch(raw: Seq<Seq<char>>, i: int, o: OptionsModel)
    requires
        0 <= i < raw.len(),
        is_plain_flag(raw[i]),
    ensures
        exists|after: OptionsModel|
            turns_on(o, after, raw[i]) && cli::parse_from(raw, i, o) == #[trigger] cli::parse_from(
                raw,
                i + 1,
                after,
            ),
{
    lemma_flags();
    let after = OptionsModel {
        debug: DebugContext {
            enabled: o.debug.enabled || raw[i] == "--debug"@ || raw[i] == "-d"@,
            vk_validation: o.debug.vk_validation || raw[i] == "--validate"@,
        },
        smoke: o.smoke || raw[i] == "--smoke"@,
        tui: o.tui || raw[i] == "--tui"@,
        chat: o.chat || raw[i] == "--chat"@,
        ..o
    };
    assert(cli::parse_from(raw, i, o) == cli::parse_from(raw, i + 1, after));
    assert(turns_on(o, after, raw[i]));
}

/// An option with a value takes the argument behind it, and sets nothing else.
/// A limit that is no number counts as a hundred; a server without a port that
/// is one listens on the usual port, and nothing is taken.
pub proof fn law_options_take_their_value(raw: Seq<Seq<char>>, i: int, o: OptionsModel, n: nat)
    requires
        0 <= i < raw.len() - 1,
    ensures
        raw[i] == "--model"@ ==> cli::parse_from(raw, i, o) == cli::parse_from(
            raw,
            i + 2,
            OptionsModel { model: Some(raw[i + 1]), ..o },
        ),
        raw[i] == "--prompt"@ ==> cli::parse_from(raw, i, o) == cli::parse_from(
            raw,
            i + 2,
            OptionsModel { prompt: Some(raw[i + 1]), ..o },
        ),
        raw[i] == "--max-tokens"@ && raw[i + 1] == text::decimal(n) && n <= u32::MAX
            ==> cli::parse_from(raw, i, o) == cli::parse_from(
            raw,
            i + 2,
            OptionsModel { max_tokens: n as u32, ..o },
        ),
        raw[i] == "--max-tokens"@ && raw[i + 1].len() == 0 ==> cli::parse_from(raw, i, o)
            == cli::parse_from(raw, i + 2, OptionsModel { max_tokens: 100, ..o }),
        raw[i] == "--server"@ && raw[i + 1] == text::decimal(n) && n <= u16::MAX
            ==> cli::parse_from(raw, i, o) == cli::parse_from(
            raw,
            i + 2,
            OptionsModel { server_port: Some(n as u16), ..o },
        ),
        raw[i] == "--server"@ && is_plain_flag(raw[i + 1]) ==> cli::parse_from(raw, i, o)
            == cli::parse_from(raw, i + 1, OptionsModel { server_port: Some(8080), ..o }),
        raw[i] == "--help"@ || raw[i] == "-h"@ ==> cli::parse_from(raw, i, o) is Help,
{
    lemma_flags();
    lemma_number(n);
    reveal_strlit("--debug");
    reveal_strlit("-d");
    reveal_strlit("--validate");
    reveal_strlit("--smoke");
    reveal_strlit("--tui");
    reveal_strlit("--chat");
    if is_plain_flag(raw[i + 1]) {
        let d = text::without_plus(raw[i + 1]);
        assert(raw[i + 1][0] == '-');
        assert(d[0] == '-');
        assert(!text::is_digit(d[0]));
    }
    if raw[i + 1].len() == 0 {
        assert(text::without_plus(raw[i + 1]).len() == 0);
    }
}

/// A number reads back as itself, up to the limit.
proof fn lemma_number(n: nat)
    ensures
        forall|max: nat|
            n <= max ==> #[trigger] text::number_in(text::decimal(n), max) == Some(n),
{
    text::law_decimal_reads_back(n);
    assert(text::is_digit(text::decimal(n)[0]));
}

/// The smoke test comes before all else, and the form before a model; a model
/// is loaded where one is named; with nothing to load and nothing asked for the
/// device is tested, and a prompt or a server alone is not enough.
pub proof fn law_tasks_in_order(o: OptionsModel)
    ensures
        o.smoke ==> cli::task_of(o, true) == Task::Smoke && cli::task_of(o, false) == Task::Smoke,
        !o.smoke ==> cli::task_of(o, false) == Task::Tui,
        !o.smoke && o.tui ==> cli::task_of(o, true) == Task::Tui,
        !o.smoke && !o.tui && o.model is Some ==> cli::task_of(o, true) == Task::Infer,
        !o.smoke && !o.tui && o.model is None && (o.prompt is Some || o.server_port is Some)
            ==> cli::task_of(o, true) == Task::Nothing,
        !o.smoke && !o.tui && o.model is None && o.prompt is None && o.server_port is None
            ==> cli::task_of(o, true) == Task::Smoke,
{
}

/// The characters and the end of the line that is typed behind them.
pub open spec fn typed(s: Seq<char>) -> Seq<char> {
    s + seq!['\n']
}

proof fn lemma_typed(s: Seq<char>)
    requires
        s.len() > 0,
        !text::white_space(s[0]),
        !text::white_space(s.last()),
    ensures
        text::trim_back(text::trim_front(typed(s))) == s,
{
    let t = typed(s);
    assert(t[0] == s[0]);
    assert(text::trim_front(t) == t);
    assert(t.last() == '\n' && text::white_space('\n'));
    assert(t.drop_last() =~= s);
    assert(text::trim_back(s) == s);
}

/// A number that is typed for a field is taken, and a text that is typed for
/// the prompt or the path; nothing else changes. An empty line changes nothing
/// but that the port is shown as set.
pub proof fn law_typed_lines_are_taken(c: ConfigModel, n: nat, s: Seq<char>)
    requires
        s.len() > 0,
        !text::white_space(s[0]),
        !text::white_space(s.last()),
    ensures
        n <= u32::MAX ==> tui::after_line(c, Field::TopK, typed(text::decimal(n)), false) == (
        ConfigModel { top_k: n as u32, ..c }),
        n <= u32::MAX ==> tui::after_line(c, Field::MaxTokens, typed(text::decimal(n)), false) == (
        ConfigModel { max_tokens: n as u32, ..c }),
        n <= u16::MAX ==> tui::after_line(c, Field::Port, typed(text::decimal(n)), false) == (
        ConfigModel { server_port: Some(n as u16), ..c }),
        tui::after_line(c, Field::Prompt, typed(s), false) == (ConfigModel { prompt: s, ..c }),
        tui::after_line(c, Field::Model, typed(s), true) == (ConfigModel {
            model_path: Some(s),
            ..c
        }),
        tui::after_line(c, Field::Model, typed(s), false) == c,
        tui::after_line(c, Field::Prompt, typed(Seq::empty()), true) == c,
        tui::after_line(c, Field::TopK, typed(Seq::empty()), true) == c,
        tui::after_line(c, Field::MaxTokens, typed(Seq::empty()), true) == c,
        tui::after_line(c, Field::Port, typed(Seq::empty()), true) == (ConfigModel {
            server_port: if c.server_port is Some {
                c.server_port
            } else {
                Some(8080)
            },
            ..c
        }),
{
    let d = text::decimal(n);
    text::law_decimal_reads_back(n);
    assert(text::is_digit(d[0]) && text::is_digit(d[d.len() - 1]));
    lemma_typed(d);
    lemma_number(n);
    lemma_typed(s);
    let e = typed(Seq::empty());
    assert(e[0] == '\n' && text::white_space('\n'));
    assert(e.skip(1) =~= Seq::<char>::empty());
    assert(text::trim_front(e.skip(1)) == e.skip(1));
    assert(text::trim_front(e) == e.skip(1));
    assert(text::trim_back(e.skip(1)) == e.skip(1));
    lemma_number(c.top_k as nat);
    lemma_number(c.max_tokens as nat);
    lemma_number(tui::port_or_default(c) as nat);
}

/// On the screen stands the label with its value, and then the end of the line;
/// the value of the selected field is in reverse.
pub open spec fn shows(screen: Seq<char>, label: Seq<char>, value: Seq<char>, selected: bool) -> bool {
    text::occurs_in(
        screen,
        if selected {
            label + "\x1B[7m"@ + value + "\x1B[0m"@ + "\n"@
        } else {
            label + value + "\n"@
        },
    )
}

proof fn lemma_occurs(a: Seq<char>, p: Seq<char>, b: Seq<char>)
    ensures
        text::occurs_in(a + p + b, p),
{
    let s = a + p + b;
    assert(s.subrange(a.len() as int, (a.len() + p.len()) as int) =~= p);
    assert(text::stands_at(s, a.len() as int, p));
}

proof fn lemma_occurs_within(s: Seq<char>, t: Seq<char>, p: Seq<char>)
    requires
        text::occurs_in(s, t),
        text::occurs_in(t, p),
    ensures
        text::occurs_in(s, p),
{
    let i = choose|i: int| 0 <= i <= s.len() && #[trigger] text::stands_at(s, i, t);
    let j = choose|j: int| 0 <= j <= t.len() && #[trigger] text::stands_at(t, j, p);
    assert(s.subrange(i + j, i + j + p.len()) =~= s.subrange(i, i + t.len()).subrange(
        j,
        j + p.len(),
    ));
    assert(text::stands_at(s, i + j, p));
}

proof fn lemma_row(row: nat, on: bool, label: Seq<char>, value: Seq<char>)
    ensures
        shows(tui::row_text(row, on, label, value), label, value, on),
{
    let front = tui::at_row(row) + "\x1B[K\n"@ + tui::at_row(row) + "  │ "@ + tui::marked("▶"@, on);
    let p = if on {
        label + "\x1B[7m"@ + value + "\x1B[0m"@ + "\n"@
    } else {
        label + value + "\n"@
    };
    assert(tui::row_text(row, on, label, value) =~= front + p + Seq::<char>::empty());
    lemma_occurs(front, p, Seq::empty());
}

/// What stands in a text still stands in it when more follows.
proof fn lemma_more(s: Seq<char>, b: Seq<char>)
    ensures
        forall|p: Seq<char>| text::occurs_in(s, p) ==> #[trigger] text::occurs_in(s + b, p),
{
    assert forall|p: Seq<char>| text::occurs_in(s, p) implies #[trigger] text::occurs_in(
        s + b,
        p,
    ) by {
        assert(Seq::<char>::empty() + s + b =~= s + b);
        lemma_occurs(Seq::empty(), s, b);
        lemma_occurs_within(s + b, s, p);
    }
}

/// A row shows its value behind whatever stands before it.
proof fn lemma_shown(a: Seq<char>, row: nat, on: bool, label: Seq<char>, value: Seq<char>)
    ensures
        shows(a + tui::row_text(row, on, label, value), label, value, on),
{
    let r = tui::row_text(row, on, label, value);
    lemma_row(row, on, label, value);
    assert(a + r + Seq::<char>::empty() =~= a + r);
    lemma_occurs(a, r, Seq::empty());
    let p = if on {
        label + "\x1B[7m"@ + value + "\x1B[0m"@ + "\n"@
    } else {
        label + value + "\n"@
    };
    lemma_occurs_within(a + r, r, p);
}

/// The upper half of the form shows the path, the prompt and the numbers, each
/// behind its own label, and marks the selected one.
pub proof fn law_form_shows_the_model(m: FormModel, temperature: Seq<char>)
    ensures
        ({
            let s = tui::upper_half(m, temperature);
            let c = m.config;
            &&& c.model_path is Some ==> shows(
                s,
                " Model path:  "@,
                c.model_path->0,
                m.selected == 0,
            )
            &&& c.model_path is None ==> shows(s, " Model path:  "@, "(not set)"@, m.selected == 0)
            &&& shows(s, " Prompt:      "@, tui::preview_of(c.prompt), m.selected == 1)
            &&& shows(s, " Top-K:       "@, text::decimal(c.top_k as nat), m.selected == 3)
            &&& shows(s, " Max tokens:  "@, text::decimal(c.max_tokens as nat), m.selected == 4)
        }),
{
    let s = tui::upper_half(m, temperature);
    let c = m.config;
    let sel = m.selected;
    let path = match c.model_path {
        Some(p) => p,
        None => "(not set)"@,
    };
    let a = tui::at_row(1) + "┌────────────────────────────────────────────────┐"@ + tui::at_row(2)
        + "│          moe-680m Configuration               │"@ + tui::at_row(3)
        + "├────────────────────────────────────────────────┤"@ + tui::at_row(4)
        + "│ Model                                          │"@;
    let r5 = tui::row_text(5, sel == 0, " Model path:  "@, path);
    let r6 = tui::row_text(6, sel == 1, " Prompt:      "@, tui::preview_of(c.prompt));
    let sampling = "│ Sampling                                       │"@;
    let r8 = tui::temperature_row(sel == 2, temperature);
    let r9 = tui::row_text(9, sel == 3, " Top-K:       "@, text::decimal(c.top_k as nat));
    let r10 = tui::row_text(10, sel == 4, " Max tokens:  "@, text::decimal(c.max_tokens as nat));
    let x5 = a + r5;
    let x6 = x5 + r6;
    let x7 = x6 + tui::at_row(7);
    let x8 = x7 + sampling;
    let x9 = x8 + r8;
    let x10 = x9 + r9;
    assert(s == x10 + r10);
    lemma_shown(a, 5, sel == 0, " Model path:  "@, path);
    lemma_shown(x5, 6, sel == 1, " Prompt:      "@, tui::preview_of(c.prompt));
    lemma_shown(x9, 9, sel == 3, " Top-K:       "@, text::decimal(c.top_k as nat));
    lemma_shown(x10, 10, sel == 4, " Max tokens:  "@, text::decimal(c.max_tokens as nat));
    lemma_more(x5, r6);
    lemma_more(x6, tui::at_row(7));
    lemma_more(x7, sampling);
    lemma_more(x8, r8);
    lemma_more(x9, r9);
    lemma_more(x10, r10);
}

/// The lower half of the form shows whether the server, debug output, validation
/// and the chat are on, and the port, each behind its own label, and marks the
/// selected one.
pub proof fn law_form_shows_the_switches(m: FormModel)
    ensures
        ({
            let s = tui::lower_half(m);
            let c = m.config;
            let port = if c.server_port is Some {
                c.server_port->0
            } else {
                8080
            };
            &&& c.server_port is Some ==> shows(s, " Server mode: "@, "ON "@, m.selected == 5)
            &&& c.server_port is None ==> shows(s, " Server mode: "@, "OFF"@, m.selected == 5)
            &&& shows(s, " Server port: "@, text::decimal(port as nat), m.selected == 6)
            &&& c.debug ==> shows(s, " Debug:        "@, "ON"@, m.selected == 7)
            &&& !c.debug ==> shows(s, " Debug:        "@, "OFF"@, m.selected == 7)
            &&& c.vk_validation ==> shows(s, " Vulkan valid: "@, "ON"@, m.selected == 8)
            &&& !c.vk_validation ==> shows(s, " Vulkan valid: "@, "OFF"@, m.selected == 8)
            &&& c.chat ==> shows(s, " Interactive chat: "@, "ON "@, m.selected == 9)
            &&& !c.chat ==> shows(s, " Interactive chat: "@, "OFF"@, m.selected == 9)
        }),
{
    let s = tui::lower_half(m);
    let c = m.config;
    let sel = m.selected;
    let mode = tui::on_off_padded(c.server_port is Some);
    let port = text::decimal(tui::port_or_default(c) as nat);
    let a = tui::at_row(11) + "│ Server                                         │"@;
    let r12 = tui::row_text(12, sel == 5, " Server mode: "@, mode);
    let r13 = tui::row_text(13, sel == 6, " Server port: "@, port);
    let title = "│ Debug                                          │"@;
    let r15 = tui::row_text(15, sel == 7, " Debug:        "@, tui::on_off(c.debug));
    let r16 = tui::row_text(16, sel == 8, " Vulkan valid: "@, tui::on_off(c.vk_validation));
    let r17 = tui::row_text(17, sel == 9, " Interactive chat: "@, tui::on_off_padded(c.chat));
    let line = "├────────────────────────────────────────────────┤"@;
    let keys = "│  ↑↓ navigate  ↵ edit  r run  s smoke  q quit  │"@;
    let bottom = "└────────────────────────────────────────────────┘"@;
    let x12 = a + r12;
    let x13 = x12 + r13;
    let x14 = x13 + tui::at_row(14);
    let x15 = x14 + title;
    let x16 = x15 + r15;
    let x17 = x16 + r16;
    let x18 = x17 + r17;
    let y1 = x18 + tui::at_row(18);
    let y2 = y1 + line;
    let y3 = y2 + tui::at_row(19);
    let y4 = y3 + keys;
    let y5 = y4 + tui::at_row(20);
    let y6 = y5 + bottom;
    let y7 = y6 + tui::at_row(21);
    assert(s == y7 + "\x1B[K"@);
    lemma_shown(a, 12, sel == 5, " Server mode: "@, mode);
    lemma_shown(x12, 13, sel == 6, " Server port: "@, port);
    lemma_shown(x15, 15, sel == 7, " Debug:        "@, tui::on_off(c.debug));
    lemma_shown(x16, 16, sel == 8, " Vulkan valid: "@, tui::on_off(c.vk_validation));
    lemma_shown(x17, 17, sel == 9, " Interactive chat: "@, tui::on_off_padded(c.chat));
    lemma_more(x12, r13);
    lemma_more(x13, tui::at_row(14));
    lemma_more(x14, title);
    lemma_more(x15, r15);
    lemma_more(x16, r16);
    lemma_more(x17, r17);
    lemma_more(x18, tui::at_row(18));
    lemma_more(y1, line);
    lemma_more(y2, tui::at_row(19));
    lemma_more(y3, keys);
    lemma_more(y4, tui::at_row(20));
    lemma_more(y5, bottom);
    lemma_more(y6, tui::at_row(21));
    lemma_more(y7, "\x1B[K"@);
}

/// The arrows come as an escape, a bracket and a letter; what else follows an
/// escape leaves an escape, and so does silence. A line ends with either of its
/// two characters, and every other byte is a key of its own.
pub proof fn law_keys_have_their_bytes(
    first: Option<u8>,
    second: Option<u8>,
    third: Option<u8>,
    b: u8,
    c: char,
)
    ensures
        ({
            let k = tui::key_for(first, second, third);
            let escaped = first == Some(27u8);
            let bracketed = escaped && second == Some(91u8);
            &&& k == Key::Up <==> bracketed && third == Some(65u8)
            &&& k == Key::Down <==> bracketed && third == Some(66u8)
            &&& k == Key::Enter <==> first == Some(10u8) || first == Some(13u8)
            &&& k == Key::Ctrl(c) <==> first == Some(3u8) && c == 'c'
            &&& k == Key::Char(b) <==> first == Some(b) && b != 27 && b != 10 && b != 13 && b != 3
            &&& k == Key::Esc <==> first is None || escaped && !(bracketed && (third == Some(65u8)
                || third == Some(66u8)))
        }),
{
}

/// Without arguments nothing is switched on, nothing is named, and a reply has a
/// hundred tokens; a switch of the environment is on unless it is unset or zero.
pub proof fn law_settings_without_arguments(debug: DebugContext, v: Option<&str>)
    ensures
        ({
            let o = cli::defaults(debug);
            &&& o.debug == debug
            &&& !o.smoke && !o.tui && !o.chat
            &&& o.model is None && o.prompt is None && o.server_port is None
            &&& o.max_tokens == 100
        }),
        cli::is_on(v) <==> !(v is None || v->0@ == "0"@),
{
}

/// The form begins with nothing named and nothing switched on, and with a reply
/// of a hundred tokens at temperature one among all tokens.
pub proof fn law_form_begins_empty()
    ensures
        ({
            let c = tui::initial();
            &&& c.model_path is None && c.server_port is None && c.prompt.len() == 0
            &&& c.max_tokens == 100 && c.temperature == 0x3f80_0000 && c.top_k == 0
            &&& !c.debug && !c.vk_validation && !c.smoke && !c.chat
        }),
{
}

/// An option without the value that it takes, at the end of the line, has an
/// empty one: for a limit the usual limit, and for a server the usual port.
pub proof fn law_last_option_lacks_its_value(raw: Seq<Seq<char>>, o: OptionsModel)
    requires
        raw.len() > 0,
    ensures
        ({
            let read = cli::parse_from(raw, raw.len() - 1, o);
            &&& raw.last() == "--model"@ ==> read == ParsedModel::Options(
                OptionsModel { model: Some(Seq::empty()), ..o },
            )
            &&& raw.last() == "--prompt"@ ==> read == ParsedModel::Options(
                OptionsModel { prompt: Some(Seq::empty()), ..o },
            )
            &&& raw.last() == "--max-tokens"@ ==> read == ParsedModel::Options(
                OptionsModel { max_tokens: 100, ..o },
            )
            &&& raw.last() == "--server"@ ==> read == ParsedModel::Options(
                OptionsModel { server_port: Some(8080), ..o },
            )
        }),
{
    lemma_flags();
    reveal_with_fuel(cli::parse_from, 2);
    assert(text::without_plus(Seq::<char>::empty()).len() == 0);
}

/// What is selected in the form is shown in reverse, and else as it is.
pub proof fn law_selection_is_marked(s: Seq<char>)
    ensures
        ({
            let m = tui::marked(s, true);
            &&& m.len() == s.len() + 8
            &&& text::stands_at(m, 0, "\x1B[7m"@)
            &&& text::stands_at(m, 4, s)
            &&& text::stands_at(m, 4 + s.len() as int, "\x1B[0m"@)
            &&& tui::marked(s, false) == s
        }),
{
    reveal_strlit("\x1B[7m");
    reveal_strlit("\x1B[0m");
    let m = tui::marked(s, true);
    assert(m.subrange(0, 4) =~= "\x1B[7m"@);
    assert(m.subrange(4, 4 + s.len() as int) =~= s);
    assert(m.subrange(4 + s.len() as int, 8 + s.len() as int) =~= "\x1B[0m"@);
}

} // verus!
