use balance_overlay::balance::Provider;
use balance_overlay::config::{Config, Mode};
use balance_overlay::render::Row;
use balance_overlay::state::{
    sources, AppState, Message, Reaction, HOTKEY_EXIT, HOTKEY_MODE, HOTKEY_TOGGLE, TIMER_SYSTEM,
};
use balance_overlay::system::{FileTime, SystemTimes};

fn tokens(deepseek: &str, openrouter: &str, proxyapi: &str) -> Config {
    let mut cfg = Config::default();
    cfg.deepseek_token = deepseek.to_string();
    cfg.openrouter_token = openrouter.to_string();
    cfg.proxyapi_token = proxyapi.to_string();
    cfg
}

fn shown(state: &AppState) -> Vec<String> {
    state
        .display_rows()
        .iter()
        .map(|row| match row {
            Row::Text(s) => s.clone(),
            _ => format!("{}{:?}", row.label().unwrap(), row.percent()),
        })
        .collect()
}

fn hotkey(id: u32) -> Message {
    Message::Hotkey { wparam: id as usize }
}

#[test]
fn providers_with_a_token_are_listed_alphabetically() {
    assert_eq!(sources(&Config::default()), vec![]);
    assert_eq!(
        sources(&tokens(" sk-1\n", "or", "\tp x ")),
        vec![
            (Provider::DeepSeek, "sk-1".to_string()),
            (Provider::OpenRouter, "or".to_string()),
            (Provider::ProxyApi, "p x".to_string()),
        ]
    );
    assert_eq!(
        sources(&tokens("", " \t ", "p")),
        vec![(Provider::ProxyApi, "p".to_string())]
    );
}

#[test]
fn the_overlay_starts_with_its_charts() {
    let state = AppState::new(tokens("a", "", "b"));
    assert!(state.visible);
    assert_eq!(state.mode, Mode::System);
    assert_eq!(shown(&state), vec!["CPUNone", "RAMNone"]);
    assert_eq!(state.lines.len(), 4);
}

#[test]
fn the_mode_hotkey_swaps_what_is_shown() {
    let mut state = AppState::new(tokens("a", "", "b"));
    assert_eq!(state.wnd_proc(hotkey(HOTKEY_MODE)), Reaction::Redraw);
    assert_eq!(shown(&state), vec!["DEEPSEEK: LOADING...", "PROXYAPI: LOADING..."]);
    assert_eq!(state.wnd_proc(hotkey(HOTKEY_MODE)), Reaction::Redraw);
    assert_eq!(shown(&state), vec!["CPUNone", "RAMNone"]);
}

#[test]
fn the_start_mode_is_configurable() {
    let mut cfg = tokens("a", "", "");
    cfg.start_mode = "balances".to_string();
    assert_eq!(shown(&AppState::new(cfg)), vec!["DEEPSEEK: LOADING..."]);
}

#[test]
fn balances_without_tokens_say_so() {
    let mut cfg = Config::default();
    cfg.start_mode = "balances".to_string();
    let state = AppState::new(cfg);
    assert_eq!(shown(&state), vec!["NO TOKENS"]);
}

#[test]
fn without_a_system_block_there_are_only_balances() {
    let mut cfg = tokens("a", "", "");
    cfg.show_system = false;
    let mut state = AppState::new(cfg);
    assert_eq!(state.lines.len(), 1);
    assert_eq!(shown(&state), vec!["DEEPSEEK: LOADING..."]);
    state.wnd_proc(hotkey(HOTKEY_MODE));
    assert_eq!(shown(&state), vec!["DEEPSEEK: LOADING..."]);
}

#[test]
fn each_writer_keeps_to_its_own_slots() {
    let mut state = AppState::new(tokens("a", "b", ""));
    state.store_lines(&vec!["one".to_string(), "two".to_string()]);
    let times = Some(SystemTimes {
        idle: FileTime { high: 0, low: 1 },
        kernel: FileTime { high: 0, low: 2 },
        user: FileTime { high: 0, low: 3 },
    });
    state.tick(times, Some(33));
    assert_eq!(shown(&state), vec!["CPUNone", "RAMSome(33)"]);
    state.wnd_proc(hotkey(HOTKEY_MODE));
    assert_eq!(shown(&state), vec!["one", "two"]);
    // Sampling goes on behind the balances.
    state.tick(None, Some(34));
    assert_eq!(shown(&state), vec!["one", "two"]);
    state.wnd_proc(hotkey(HOTKEY_MODE));
    assert_eq!(shown(&state), vec!["CPUNone", "RAMSome(34)"]);
}

#[test]
fn a_failed_client_is_reported_in_the_first_line() {
    let mut state = AppState::new(tokens("a", "b", ""));
    state.client_failed("no TLS");
    state.wnd_proc(hotkey(HOTKEY_MODE));
    assert_eq!(shown(&state), vec!["Client build: no TLS", "OPENROUTER: LOADING..."]);
    // With no providers there is no line to report it in: the charts stay.
    let mut state = AppState::new(Config::default());
    state.client_failed("no TLS");
    assert_eq!(shown(&state), vec!["CPUNone", "RAMNone"]);
    state.wnd_proc(hotkey(HOTKEY_MODE));
    assert_eq!(shown(&state), vec!["NO TOKENS"]);
    let mut cfg = Config::default();
    cfg.show_system = false;
    let mut state = AppState::new(cfg);
    state.client_failed("no TLS");
    assert_eq!(shown(&state), vec!["NO TOKENS"]);
}

#[test]
fn no_writer_leaves_its_slots() {
    let mut state = AppState::new(tokens("a", "", ""));
    state.store_lines(&vec!["one".to_string(), "two".to_string(), "three".to_string()]);
    assert_eq!(shown(&state), vec!["CPUNone", "RAMNone"]);
    state.wnd_proc(hotkey(HOTKEY_MODE));
    assert_eq!(shown(&state), vec!["one"]);

    let mut cfg = tokens("a", "b", "c");
    cfg.show_system = false;
    let mut state = AppState::new(cfg);
    state.store_lines(&vec!["one".to_string(), "two".to_string()]);
    state.tick(None, Some(50));
    assert_eq!(shown(&state), vec!["one", "two", "PROXYAPI: LOADING..."]);
}

#[test]
fn polls_are_at_least_five_seconds_apart() {
    let mut cfg = tokens("a", "", "");
    for (configured, want) in [(0, 5), (4, 5), (5, 5), (6, 6), (60, 60)] {
        cfg.refresh_interval_secs = configured;
        let (secs, list) = AppState::new(cfg.clone()).poll_plan();
        assert_eq!(secs, want);
        assert_eq!(list, vec![(Provider::DeepSeek, "a".to_string())]);
    }
}

#[test]
fn messages_are_answered() {
    let mut state = AppState::new(Config::default());
    let cases = [
        (Message::Paint, Reaction::Validate, Some(0)),
        (Message::EraseBackground, Reaction::Erased, Some(1)),
        (hotkey(HOTKEY_EXIT), Reaction::Close, Some(0)),
        (hotkey(99), Reaction::Nothing, Some(0)),
        (Message::UpdateDisplay, Reaction::Redraw, Some(0)),
        (Message::Timer { wparam: TIMER_SYSTEM }, Reaction::Sample, Some(0)),
        (Message::Timer { wparam: 2 }, Reaction::Nothing, Some(0)),
        (Message::DpiChanged { wparam: 0x00900090 }, Reaction::Rescale { dpi: 144 }, Some(0)),
        (Message::Destroy, Reaction::Quit, Some(0)),
        (Message::Other, Reaction::Default, None),
    ];
    for (message, reaction, code) in cases {
        assert_eq!(state.wnd_proc(message), reaction);
        assert_eq!(reaction.result(), code);
        assert!(state.visible);
        assert_eq!(state.mode, Mode::System);
    }
}

#[test]
fn the_toggle_hotkey_undoes_itself() {
    let mut state = AppState::new(Config::default());
    assert_eq!(state.wnd_proc(hotkey(HOTKEY_TOGGLE)), Reaction::Hide);
    assert!(!state.visible);
    assert_eq!(state.wnd_proc(hotkey(HOTKEY_TOGGLE)), Reaction::Show);
    assert!(state.visible);
}
