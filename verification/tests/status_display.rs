use cs16_tool_v2::config::{DebugConsoleConfig, OverlayColors, OverlayDisplay, OverlayPosition};
use cs16_tool_v2::debug::{opt, yn, DebugConsole};
use cs16_tool_v2::overlay::{build_lines, text_origin};
use cs16_tool_v2::state::{
    field, format_status, waiting_message, DebugSnapshot, StatusDisplay, StatusView,
};

#[test]
fn no_fake_zero_reserve() {
    let s = StatusView {
        connected: true,
        ready: true,
        clip: 30,
        clip_valid: true,
        reserve_valid: false,
        ..Default::default()
    };
    assert!(format_status(&s, &StatusDisplay::all()).contains("30/--"));
}

#[test]
fn status_line_joins_the_shown_fields() {
    let s = StatusView {
        connected: true,
        ready: true,
        money: 800,
        money_valid: true,
        clip: 7,
        clip_valid: true,
        reserve: 90,
        reserve_valid: true,
        hp: Some(" 97".to_string()),
        ..Default::default()
    };
    assert_eq!(
        format_status(&s, &StatusDisplay::all()),
        "💰    800  🔫  7/90  ❤  97"
    );
    let only_ammo = StatusDisplay { show_ammo: true, ..Default::default() };
    assert_eq!(format_status(&s, &only_ammo), "🔫  7/90");
    assert_eq!(format_status(&s, &StatusDisplay::default()), "CS16 v2 — Connected");
}

#[test]
fn status_line_while_waiting() {
    let s = StatusView::default();
    assert_eq!(format_status(&s, &StatusDisplay::all()), "[منتظر بازی...]");
    let s = StatusView { connected: true, ..Default::default() };
    assert_eq!(format_status(&s, &StatusDisplay::all()), "[در حال خواندن...]");
    let s = StatusView { connected: true, money: -5, money_valid: true, ..Default::default() };
    assert_eq!(format_status(&s, &StatusDisplay::all()), "[در حال خواندن...]");
    let s = StatusView { connected: true, ready: true, money: -5, money_valid: true, ..Default::default() };
    assert_eq!(format_status(&s, &StatusDisplay::all()), "💰     -5  🔫 --/--");
}

#[test]
fn overlay_waits_until_ready() {
    let s = StatusView { connected: true, money: 800, money_valid: true, ..Default::default() };
    let ls = build_lines(&s, true, &all_shown(), &colors());
    assert_eq!(ls.len(), 1);
    assert_eq!(ls[0].text, "[CS16 v2] Reading memory...");
}

#[test]
fn waiting_messages() {
    assert_eq!(waiting_message(false, false), "[CS16 v2] Waiting for hl.exe...");
    assert_eq!(waiting_message(false, true), "[CS16 v2] Connecting... (enter a match)");
    assert_eq!(waiting_message(true, true), "[CS16 v2] Reading memory...");
}

#[test]
fn fields_pad_or_dash() {
    assert_eq!(field(true, 42, 6), "    42");
    assert_eq!(field(true, 1234567, 2), "1234567");
    assert_eq!(field(false, 42, 6), "--");
}

fn colors() -> OverlayColors {
    OverlayColors {
        money: "0x00D7FF".to_string(),
        ammo: "green".to_string(),
        hp: "0x4444FF".to_string(),
        armor: "0xFFAA00".to_string(),
        position: "0xFFFF88".to_string(),
        default: "0xFFFFFF".to_string(),
    }
}

fn all_shown() -> OverlayDisplay {
    OverlayDisplay {
        show_money: true,
        show_ammo: true,
        show_hp: true,
        show_armor: true,
        show_position: true,
        show_view_aux: true,
    }
}

#[test]
fn overlay_lines_show_read_fields_in_their_colours() {
    let s = StatusView {
        connected: true,
        ready: true,
        money: 16000,
        money_valid: true,
        reserve: 90,
        reserve_valid: true,
        armor: Some("100".to_string()),
        ..Default::default()
    };
    let ls = build_lines(&s, true, &all_shown(), &colors());
    let got: Vec<(String, u32)> = ls.into_iter().map(|l| (l.text, l.color)).collect();
    assert_eq!(
        got,
        vec![
            ("💰  16000".to_string(), 0x00D7FF),
            ("🔫 --/90".to_string(), 0x00FF00),
            ("Armor 100".to_string(), 0xFFAA00),
        ]
    );
}

#[test]
fn overlay_lines_before_anything_is_read() {
    let s = StatusView::default();
    let ls = build_lines(&s, false, &all_shown(), &colors());
    assert_eq!(ls.len(), 1);
    assert_eq!(ls[0].text, "[CS16 v2] Waiting for hl.exe...");
    assert_eq!(ls[0].color, 0xFFFFFF);
    let s = StatusView { connected: true, ready: true, ..Default::default() };
    let none_shown = OverlayDisplay { show_money: false, show_ammo: false, show_hp: false, show_armor: false, show_position: false, show_view_aux: false };
    let ls = build_lines(&s, true, &none_shown, &colors());
    assert_eq!(ls.len(), 1);
    assert_eq!(ls[0].text, "CS16 v2 — Connected");
}

#[test]
fn text_block_origin_per_corner() {
    assert_eq!(
        text_origin(OverlayPosition::TopLeft, 800, 600, 200, 3, 22, 12, 5, -5),
        Some((17, 7))
    );
    assert_eq!(
        text_origin(OverlayPosition::BottomRight, 800, 600, 200, 3, 22, 12, 0, 0),
        Some((588, 522))
    );
    assert_eq!(
        text_origin(OverlayPosition::TopRight, i32::MIN, 600, 200, 3, 22, 12, 0, 0),
        None
    );
}

fn snapshot() -> DebugSnapshot {
    DebugSnapshot {
        connected: true,
        ready: true,
        money: 800,
        clip: 7,
        reserve: 0,
        money_valid: true,
        clip_valid: true,
        reserve_valid: false,
        write_enabled: true,
        player_alive: false,
        money_source: "chain_hw".to_string(),
    }
}

#[test]
fn debug_console_prints_on_its_interval() {
    let cfg = DebugConsoleConfig { enabled: true, interval_ms: 1000, clear_screen: false };
    let mut c = DebugConsole::new(cfg, 50_000);
    assert_eq!(c.last_ms, 40_000);
    let first = c.maybe_print(&snapshot(), 50_000).expect("due at once");
    assert_eq!(c.tick, 1);
    assert!(first.starts_with("╔"));
    assert!(first.contains("║  CS16 Tool v2 Debug  tick #1      ready: YES       ║\n"));
    assert!(first.contains("💰 800  🔫 7/--  write=YES  alive=NO\nmoney source: chain_hw\n"));
    assert!(first.ends_with("\n[F7] debug | [Insert] overlay | [Q] quit\n"));
    assert!(c.maybe_print(&snapshot(), 50_999).is_none());
    assert_eq!(c.tick, 1);
    assert!(c.maybe_print(&snapshot(), 51_000).is_some());
    assert_eq!(c.tick, 2);
}

#[test]
fn debug_console_over_a_run_of_calls() {
    let cfg = DebugConsoleConfig { enabled: true, interval_ms: 300, clear_screen: false };
    let mut c = DebugConsole::new(cfg, 10_000);
    let mut printed = Vec::new();
    for t in [10_000u64, 10_100, 10_299, 10_300, 10_301, 10_650, 10_700, 10_950] {
        if c.maybe_print(&snapshot(), t).is_some() {
            printed.push(t);
        }
    }
    assert_eq!(printed, vec![10_000, 10_300, 10_650, 10_950]);
    assert_eq!(c.tick, 4);
    assert_eq!(c.last_ms, 10_950);
}

#[test]
fn debug_console_disabled_or_waiting() {
    let off = DebugConsoleConfig { enabled: false, interval_ms: 0, clear_screen: true };
    let mut c = DebugConsole::new(off, 5);
    assert_eq!(c.last_ms, 5);
    assert!(c.maybe_print(&snapshot(), 100_000).is_none());
    let on = DebugConsoleConfig { enabled: true, interval_ms: 0, clear_screen: true };
    let mut c = DebugConsole::new(on, 5);
    let s = DebugSnapshot { connected: false, ..snapshot() };
    let t = c.maybe_print(&s, 5).unwrap();
    assert!(t.starts_with("\x1b[2J\x1b[H╔"));
    assert!(t.contains("[!] منتظر hl.exe — وارد match شو\n"));
    let s = DebugSnapshot { ready: false, ..snapshot() };
    let t = c.maybe_print(&s, 6).unwrap();
    assert!(t.contains("ready: NO   "));
    assert!(t.contains("[!] در حال resolve آدرس‌ها...\n"));
    assert_eq!(opt(false, 3), "--");
    assert_eq!(opt(true, -3), "-3");
    assert_eq!(yn(true), "YES");
}
