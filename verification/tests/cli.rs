use moe_680m::cli::{parse_args, task, DebugContext, Options, Parsed, Task};
use moe_680m::tui::{field, key_of, preview, render, Config, Field, Form, Key, Reaction};

fn parse(args: &[&str]) -> Parsed {
    let raw: Vec<String> =
        std::iter::once("moe-680m").chain(args.iter().copied()).map(|s| s.to_string()).collect();
    parse_args(&raw, DebugContext::from_env(None, None))
}

fn options(args: &[&str]) -> Options {
    match parse(args) {
        Parsed::Options(o) => o,
        _ => panic!("no options"),
    }
}

#[test]
fn environment() {
    let d = DebugContext::from_env(Some("1"), Some("0"));
    assert!(d.enabled && !d.vk_validation);
    let d = DebugContext::from_env(None, Some(""));
    assert!(!d.enabled && d.vk_validation);
}

#[test]
fn options_are_read() {
    let o = options(&[
        "--model", "m.gguf", "--prompt", "Hi there", "--max-tokens", "200", "-d", "--validate",
        "--chat",
    ]);
    assert_eq!(o.model.as_deref(), Some("m.gguf"));
    assert_eq!(o.prompt.as_deref(), Some("Hi there"));
    assert_eq!(o.max_tokens, 200);
    assert!(o.debug.enabled && o.debug.vk_validation && o.chat);
    assert!(!o.smoke && !o.tui);
    assert_eq!(o.server_port, None);
    assert_eq!(task(&o, true), Task::Infer);
}

#[test]
fn server_takes_an_optional_port() {
    let o = options(&["--server", "9000", "--smoke"]);
    assert_eq!(o.server_port, Some(9000));
    assert!(o.smoke);
    let o = options(&["--server", "--model", "m"]);
    assert_eq!(o.server_port, Some(8080));
    assert_eq!(o.model.as_deref(), Some("m"));
    assert_eq!(options(&["--server"]).server_port, Some(8080));
}

#[test]
fn missing_and_bad_values() {
    assert_eq!(options(&["--model"]).model.as_deref(), Some(""));
    assert_eq!(options(&["--max-tokens", "many"]).max_tokens, 100);
    assert_eq!(options(&["--max-tokens"]).max_tokens, 100);
    assert_eq!(options(&["--max-tokens", "5", "--max-tokens", "7"]).max_tokens, 7);
}

#[test]
fn help_and_unknown() {
    assert!(matches!(parse(&["--help", "--what"]), Parsed::Help));
    assert!(matches!(parse(&["-h"]), Parsed::Help));
    match parse(&["--smoke", "--what", "--help"]) {
        Parsed::Unknown(s) => assert_eq!(s, "--what"),
        _ => panic!("known"),
    }
    assert!(matches!(parse(&["--server", "99999"]), Parsed::Unknown(_)));
}

#[test]
fn tasks() {
    assert_eq!(task(&options(&[]), false), Task::Tui);
    assert_eq!(task(&options(&["--tui", "--model", "m"]), true), Task::Tui);
    assert_eq!(task(&options(&["--smoke", "--tui"]), true), Task::Smoke);
    assert_eq!(task(&options(&["--debug"]), true), Task::Smoke);
    assert_eq!(task(&options(&["--prompt", "x"]), true), Task::Nothing);
    assert_eq!(task(&options(&["--server"]), true), Task::Nothing);
}

#[test]
fn keys() {
    assert_eq!(key_of(None, None, None), Key::Esc);
    assert_eq!(key_of(Some(0x1b), Some(b'['), Some(b'A')), Key::Up);
    assert_eq!(key_of(Some(0x1b), Some(b'['), Some(b'B')), Key::Down);
    assert_eq!(key_of(Some(0x1b), Some(b'['), Some(b'H')), Key::Esc);
    assert_eq!(key_of(Some(0x1b), Some(b'O'), Some(b'A')), Key::Esc);
    assert_eq!(key_of(Some(0x1b), None, None), Key::Esc);
    assert_eq!(key_of(Some(b'\n'), None, None), Key::Enter);
    assert_eq!(key_of(Some(b'\r'), None, None), Key::Enter);
    assert_eq!(key_of(Some(3), None, None), Key::Ctrl('c'));
    assert_eq!(key_of(Some(b'r'), None, None), Key::Char(b'r'));
}

#[test]
fn selection_stays_on_the_form() {
    let mut f = Form::new();
    assert_eq!(f.press(Key::Up), Reaction::Show);
    assert_eq!(f.selected, 0);
    for _ in 0..20 {
        f.press(Key::Down);
    }
    assert_eq!(f.selected, 9);
    assert_eq!(field(f.selected), Field::Chat);
    f.press(Key::Up);
    assert_eq!(field(f.selected), Field::VkValidation);
}

#[test]
fn switches_turn_and_turn_back() {
    let mut f = Form::new();
    for i in [5usize, 7, 8, 9] {
        f.selected = i;
        assert_eq!(f.press(Key::Enter), Reaction::Cleared);
    }
    assert_eq!(f.config.server_port, Some(8080));
    assert!(f.config.debug && f.config.vk_validation && f.config.chat);
    for i in [5usize, 7, 8, 9] {
        f.selected = i;
        f.press(Key::Enter);
    }
    assert_eq!(f.config.server_port, None);
    assert!(!f.config.debug && !f.config.vk_validation && !f.config.chat);
}

#[test]
fn edits() {
    let mut f = Form::new();
    assert_eq!(f.press(Key::Enter), Reaction::Ask(Field::Model));
    assert_eq!(f.model_entry(" m.gguf \n"), "m.gguf");
    f.enter(Field::Model, "m.gguf\n", false);
    assert_eq!(f.config.model_path, None);
    f.enter(Field::Model, "m.gguf\n", true);
    assert_eq!(f.config.model_path.as_deref(), Some("m.gguf"));
    assert_eq!(f.model_entry("\n"), "m.gguf");
    f.enter(Field::Prompt, "  Hello  \n", false);
    assert_eq!(f.config.prompt, "Hello");
    f.enter(Field::Prompt, "\n", false);
    assert_eq!(f.config.prompt, "Hello");
    f.enter(Field::TopK, "40\n", false);
    assert_eq!(f.config.top_k, 40);
    f.enter(Field::TopK, "-1\n", false);
    assert_eq!(f.config.top_k, 40);
    f.enter(Field::MaxTokens, "\n", false);
    assert_eq!(f.config.max_tokens, 100);
    f.enter(Field::Port, "70000\n", false);
    assert_eq!(f.config.server_port, Some(8080));
    f.enter(Field::Port, "9000\n", false);
    assert_eq!(f.config.server_port, Some(9000));
    f.enter_temperature(Some(0.5f32.to_bits()));
    f.enter_temperature(None);
    assert_eq!(f.config.temperature, 0.5f32.to_bits());
}

#[test]
fn running_needs_a_model_and_a_prompt() {
    let mut f = Form::new();
    assert_eq!(f.press(Key::Char(b'r')), Reaction::ModelMissing);
    f.enter(Field::Model, "m", true);
    assert_eq!(f.press(Key::Char(b'r')), Reaction::AskPrompt);
    assert_eq!(f.enter_prompt("\n"), Reaction::Cleared);
    assert_eq!(f.enter_prompt("Hi\n"), Reaction::Done);
    assert_eq!(f.press(Key::Char(b'r')), Reaction::Done);
    assert!(!f.config.smoke);
}

#[test]
fn smoke_and_quit() {
    let mut f = Form::new();
    assert_eq!(f.press(Key::Char(b's')), Reaction::Done);
    assert!(f.config.smoke);
    assert_eq!(f.press(Key::Char(b'q')), Reaction::Quit);
    assert_eq!(f.press(Key::Esc), Reaction::Quit);
    assert_eq!(f.press(Key::Ctrl('c')), Reaction::Quit);
    assert_eq!(f.press(Key::Char(b'z')), Reaction::Show);
}

#[test]
fn prompt_preview() {
    assert_eq!(preview(""), "(empty)");
    assert_eq!(preview(&"x".repeat(47)), "x".repeat(47));
    assert_eq!(preview(&"x".repeat(48)), format!("{}..", "x".repeat(47)));
    let accents = format!("{}{}", "x".repeat(45), "éé");
    assert_eq!(preview(&accents), format!("{}é..", "x".repeat(45)));
}

#[test]
fn form_on_the_screen() {
    let c = Config::default();
    assert_eq!(c.temperature, 1.0f32.to_bits());
    let mut f = Form::new();
    f.selected = 3;
    let s = render(&f, "1.0");
    assert!(s.starts_with("\u{1b}[1H┌───"));
    assert!(s.contains("\u{1b}[5H\u{1b}[K\n\u{1b}[5H  │ ▶ Model path:  (not set)\n"));
    assert!(s.contains("\u{1b}[9H  │ \u{1b}[7m▶\u{1b}[0m Top-K:       \u{1b}[7m0\u{1b}[0m\n"));
    assert!(s.contains(" Server port: 8080\n"));
    assert!(s.contains(" Vulkan valid: OFF\n"));
    assert!(s.ends_with("\u{1b}[21H\u{1b}[K"));
}
