use std::cell::Cell;

use cs16_tool_v2::config::ModulesConfig;
use cs16_tool_v2::error::{AppError, MemoryError};
use cs16_tool_v2::local_player::{lp_rva_client, lp_rva_hw};
use cs16_tool_v2::process::{
    engine_base, find_pid, is_alive, module_base, module_size, to_wide, wide_eq,
};
use cs16_tool_v2::window::{
    find_game_window, find_uncached, get_game_rect, invalidate_window_cache, largest_visible,
    rect_from_corners, GameRect, WindowCache,
};

#[test]
fn candidates_non_empty() {
    assert!(!lp_rva_hw().is_empty());
    assert!(!lp_rva_client().is_empty());
}

#[test]
fn wide_names_are_nul_terminated_utf16() {
    assert_eq!(to_wide("hl.exe"), vec![104, 108, 46, 101, 120, 101, 0]);
    assert_eq!(to_wide(""), vec![0]);
    assert_eq!(to_wide("a😀"), vec![97, 0xD83D, 0xDE00, 0]);
    assert_eq!(to_wide("é"), vec![0xE9, 0]);
}

#[test]
fn wide_names_compare_up_to_nul_ignoring_ascii_case() {
    let mut buf = [0u16; 16];
    for (i, c) in "HL.EXE".encode_utf16().enumerate() {
        buf[i] = c;
    }
    buf[8] = 65;
    assert!(wide_eq(&buf, &to_wide("hl.exe")));
    assert!(!wide_eq(&buf, &to_wide("hl.ex")));
    assert!(!wide_eq(&buf, &to_wide("hl.exe2")));
    assert!(wide_eq(&[0xC9, 0], &[0xC9]));
    assert!(!wide_eq(&[0xC9, 0], &[0xE9, 0]));
}

fn entry(name: &str) -> Vec<u16> {
    let mut v: Vec<u16> = name.encode_utf16().collect();
    v.resize(260, 0);
    v
}

#[test]
fn processes_and_modules_are_found_by_name() {
    let procs = vec![(entry("explorer.exe"), 4), (entry("HL.exe"), 1200), (entry("hl.exe"), 1300)];
    assert_eq!(find_pid("hl.exe", &procs), Some(1200));
    assert_eq!(find_pid("cstrike.exe", &procs), None);
    let mods = vec![(entry("hl.exe"), (0x400000, 0x1000)), (entry("HW.DLL"), (0x1000_0000, 0x2000))];
    assert_eq!(module_base("hw.dll", &mods), Ok(0x1000_0000));
    assert_eq!(module_size("hw.dll", &mods), Ok(0x2000));
    assert_eq!(
        module_base("client.dll", &mods),
        Err(MemoryError::ModuleNotFound { name: "client.dll".to_string() })
    );
}

fn modules_config(sw: &str) -> ModulesConfig {
    ModulesConfig { hw: "hw.dll".to_string(), sw: sw.to_string(), client: "client.dll".to_string() }
}

#[test]
fn engine_base_prefers_hw_then_sw() {
    let both = vec![(entry("sw.dll"), (0x2000_0000, 1)), (entry("hw.dll"), (0x1000_0000, 1))];
    assert_eq!(engine_base(&modules_config("sw.dll"), &both), Ok(0x1000_0000));
    let sw_only = vec![(entry("sw.dll"), (0x2000_0000, 1))];
    assert_eq!(engine_base(&modules_config("sw.dll"), &sw_only), Ok(0x2000_0000));
    assert_eq!(
        engine_base(&modules_config(""), &sw_only),
        Err(MemoryError::ModuleNotFound { name: "hw.dll / ".to_string() })
    );
    assert_eq!(
        engine_base(&modules_config("sw.dll"), &Vec::new()),
        Err(MemoryError::ModuleNotFound { name: "hw.dll / sw.dll".to_string() })
    );
}

#[test]
fn a_process_is_alive_while_still_active() {
    let asked = Cell::new(0u32);
    let code = |pid: u32| {
        asked.set(asked.get() + 1);
        match pid {
            10 => Some(259),
            11 => Some(0),
            _ => None,
        }
    };
    assert!(is_alive(10, &code));
    assert!(!is_alive(11, &code));
    assert!(!is_alive(12, &code));
    assert_eq!(asked.get(), 3);
    assert!(!is_alive(0, &code));
    assert_eq!(asked.get(), 3);
}

#[test]
fn error_messages() {
    assert_eq!(
        MemoryError::ReadFailed { address: 0x32ABF4 }.message(),
        "خواندن در 0x32abf4 ناموفق"
    );
    assert_eq!(
        MemoryError::ChainBroken { step: 2, address: 0 }.message(),
        "chain در گام 2 شکست (آدرس 0x0)"
    );
    assert_eq!(
        MemoryError::OpenProcessFailed { pid: 1200 }.message(),
        "OpenProcess برای PID=1200 ناموفق — Run as Administrator"
    );
    assert_eq!(
        AppError::Memory(MemoryError::ModuleNotFound { name: "hw.dll".to_string() }).message(),
        "حافظه: ماژول 'hw.dll' لود نشده — وارد match شو"
    );
    assert_eq!(AppError::Config("x".to_string()).message(), "پیکربندی: x");
    assert_eq!(
        MemoryError::ProcessNotFound { name: "hl.exe".to_string() }.message(),
        "پروسس 'hl.exe' پیدا نشد"
    );
    assert_eq!(MemoryError::WriteFailed { address: 0xAB }.message(), "نوشتن در 0xab ناموفق");
    assert_eq!(MemoryError::InvalidAddress { address: 0 }.message(), "آدرس نامعتبر: 0x0");
    assert_eq!(AppError::from(MemoryError::InvalidAddress { address: 0 }), AppError::Memory(MemoryError::InvalidAddress { address: 0 }));
}

#[test]
fn rectangles_from_corners() {
    assert_eq!(
        rect_from_corners((10, 20, 110, 70)),
        Some(GameRect { x: 10, y: 20, width: 100, height: 50 })
    );
    assert_eq!(rect_from_corners((10, 20, 10, 70)), None);
    assert_eq!(rect_from_corners((10, 20, 110, 19)), None);
    assert_eq!(GameRect::default(), GameRect { x: 0, y: 0, width: 0, height: 0 });
}

#[test]
fn game_rect_prefers_the_client_area() {
    let asked = Cell::new(false);
    let client = |_h: isize| Some((0, 0, 800, 600));
    let window = |_h: isize| {
        asked.set(true);
        Some((-8, -30, 808, 608))
    };
    assert_eq!(get_game_rect(1, &client, &window), Some(GameRect { x: 0, y: 0, width: 800, height: 600 }));
    assert!(!asked.get());
    let empty_client = |_h: isize| Some((5, 5, 5, 600));
    assert_eq!(
        get_game_rect(1, &empty_client, &window),
        Some(GameRect { x: -8, y: -30, width: 816, height: 638 })
    );
    assert!(asked.get());
    let no_client = |_h: isize| None;
    let no_window = |_h: isize| None;
    assert_eq!(get_game_rect(1, &no_client, &no_window), None);
}

#[test]
fn largest_visible_window_wins_first_on_ties() {
    let r = |w: i32, h: i32| Some(GameRect { x: 0, y: 0, width: w, height: h });
    assert_eq!(largest_visible(&vec![(1, r(10, 10)), (2, None), (3, r(20, 5)), (4, r(5, 21))]), Some(4));
    assert_eq!(largest_visible(&vec![(1, r(10, 10)), (2, r(20, 5))]), Some(1));
    assert_eq!(largest_visible(&vec![(1, None)]), None);
    assert_eq!(largest_visible(&Vec::new()), None);
}

#[test]
fn window_search_order() {
    let calls = std::cell::RefCell::new(Vec::<String>::new());
    let by_class = |_pid: u32, c: &str| {
        calls.borrow_mut().push(format!("class {c}"));
        None
    };
    let by_title = |_pid: u32, t: &str| {
        calls.borrow_mut().push(format!("title {t}"));
        if t == "Half-Life" { Some(77) } else { None }
    };
    let largest = |_pid: u32| {
        calls.borrow_mut().push("largest".to_string());
        Some(99)
    };
    assert_eq!(find_uncached(5, &by_class, &by_title, &largest), Some(77));
    assert_eq!(
        *calls.borrow(),
        vec!["class Valve001", "title Counter-Strike", "title Half-Life"]
    );
    let no_title = |_pid: u32, _t: &str| None;
    assert_eq!(find_uncached(5, &by_class, &no_title, &largest), Some(99));
}

#[test]
fn window_cache_lives_800_ms() {
    let searches = Cell::new(0);
    let search = |pid: u32| {
        searches.set(searches.get() + 1);
        Some(pid as isize * 10)
    };
    let valid = |_h: isize| true;
    let mut cache = WindowCache::new();
    assert_eq!(find_game_window(&mut cache, 0, 0, &valid, &search), None);
    assert_eq!(searches.get(), 0);
    assert_eq!(find_game_window(&mut cache, 7, 1000, &valid, &search), Some(70));
    assert_eq!(searches.get(), 1);
    assert_eq!(find_game_window(&mut cache, 7, 1799, &valid, &search), Some(70));
    assert_eq!(searches.get(), 1);
    assert_eq!(find_game_window(&mut cache, 7, 1800, &valid, &search), Some(70));
    assert_eq!(searches.get(), 2);
    assert_eq!(find_game_window(&mut cache, 8, 1801, &valid, &search), Some(80));
    assert_eq!(searches.get(), 3);
    let gone = |_h: isize| false;
    assert_eq!(find_game_window(&mut cache, 8, 1802, &gone, &search), Some(80));
    assert_eq!(searches.get(), 4);
    invalidate_window_cache(&mut cache);
    assert_eq!(cache, WindowCache::new());
    assert_eq!(find_game_window(&mut cache, 8, 1803, &valid, &search), Some(80));
    assert_eq!(searches.get(), 5);
}
