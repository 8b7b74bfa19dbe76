use std::collections::HashMap;

use cs16_tool_v2::config::{
    AppConfig, ChainsConfig, ClipDetectionConfig, DebugConsoleConfig, EntityConfig,
    FeaturesConfig, HudSyncConfig, ModulesConfig, MoneyClientFallback, OverlayColors,
    OverlayConfig, OverlayDisplay, PointerChainConfig, ProcessConfig, TargetsConfig,
    TimingConfig,
};
use cs16_tool_v2::engine::{
    apply_write_i32, best_magazine, check_ready, Cache, EngineCore, TickReads,
};
use cs16_tool_v2::memory::{read_word, resolve_chain, write_i32, MemWrite};
use cs16_tool_v2::error::MemoryError;

#[test]
fn clip_pick_matches_1_cs16() {
    let range = ClipDetectionConfig {
        min_value: 0,
        max_value: 150,
    };
    let candidates = [(0x1000, 5), (0x2000, 12), (0x3000, 8), (0x4000, 200)];
    let best = best_magazine(&candidates, &range);
    assert_eq!(best, (0x2000, 12));
}

#[test]
fn magazine_pick_keeps_the_first_of_equal_values() {
    let range = ClipDetectionConfig { min_value: 1, max_value: 100 };
    assert_eq!(best_magazine(&[(0x10, 7), (0x20, 7), (0x30, 0)], &range), (0x10, 7));
    assert_eq!(best_magazine(&[(0x10, 0), (0x20, 100)], &range), (0, 0));
    assert_eq!(best_magazine(&[], &range), (0, 0));
}

#[test]
fn magazine_pick_refuses_zero_even_when_the_range_allows_it() {
    let range = ClipDetectionConfig { min_value: 0, max_value: 150 };
    assert_eq!(best_magazine(&[(0x10, 0), (0x20, 3)], &range), (0x20, 3));
    assert_eq!(best_magazine(&[(0x10, 0)], &range), (0, 0));
}

fn chain(base: &str, offs: &[&str]) -> PointerChainConfig {
    PointerChainConfig {
        base_rva: base.to_string(),
        offsets: offs.iter().map(|s| s.to_string()).collect(),
    }
}

fn config(write: bool) -> AppConfig {
    AppConfig {
        process: ProcessConfig { name: "hl.exe".to_string() },
        modules: ModulesConfig {
            hw: "hw.dll".to_string(),
            sw: "sw.dll".to_string(),
            client: "client.dll".to_string(),
        },
        targets: TargetsConfig { money: 16000, clip: 30, reserve: 90 },
        features: FeaturesConfig {
            write_enabled: write,
            overlay_enabled: true,
            debug_addresses: false,
            money_enabled: true,
            clip_enabled: true,
            clip_write_enabled: true,
            reserve_enabled: true,
            reserve_write_enabled: true,
            hp_enabled: false,
            armor_enabled: false,
            position_enabled: false,
        },
        timing: TimingConfig {
            memory_loop_ms: 50,
            overlay_loop_ms: 100,
            connect_retry_ms: 2000,
            stale_reconnect_ticks: 3,
        },
        entity: EntityConfig::default(),
        overlay: OverlayConfig {
            offset_x: 0,
            offset_y: 0,
            font_size: 20,
            font_name: "Consolas".to_string(),
            font_bold: true,
            line_spacing: 22,
            position: "top-left".to_string(),
            margin: 12,
            colors: OverlayColors {
                money: "0x00D7FF".to_string(),
                ammo: "0x00FF00".to_string(),
                hp: "0x4444FF".to_string(),
                armor: "0xFFAA00".to_string(),
                position: "0xFFFF88".to_string(),
                default: "0xFFFFFF".to_string(),
            },
            display: OverlayDisplay {
                show_money: true,
                show_ammo: true,
                show_hp: true,
                show_armor: true,
                show_position: true,
                show_view_aux: true,
            },
        },
        chains: ChainsConfig {
            reserve: chain("0x1000", &["0x10"]),
            money_hw: chain("0x2000", &["0x20"]),
            money_client_fallback: MoneyClientFallback { direct_rva: "0x3000".to_string() },
            clip: vec![chain("0x4000", &["0x40"])],
            reserve_clip_index: 2,
        },
        clip_detection: ClipDetectionConfig { min_value: 0, max_value: 150 },
        hud_sync: HudSyncConfig::default(),
        debug_console: DebugConsoleConfig::default(),
    }
}

const HW: u32 = 0x1000_0000;

fn memory(reserve: i32) -> HashMap<u32, u32> {
    let mut m = HashMap::new();
    m.insert(HW + 0x2000, 0x0500_0000);
    m.insert(0x0500_0020, 800);
    m.insert(HW + 0x1000, 0x0600_0000);
    m.insert(0x0600_0010, reserve as u32);
    m.insert(HW + 0x4000, 0x0700_0000);
    m.insert(0x0700_0040, 25);
    m
}

#[test]
fn engine_reads_the_counters_through_the_chains() {
    let mem = memory(90);
    let read = |a: u32| mem.get(&a).copied();
    let mut e = EngineCore::open(config(false), HW, 0, &read);
    assert_eq!(e.money_hw_addr, 0x0500_0020);
    assert_eq!(e.reserve_addr, 0x0600_0010);
    assert_eq!(e.client_money_addr, 0);
    let player = e.begin_tick(&read, Some(HW), 0);
    assert_eq!(player, 0);
    let r = e.read_counters(&read, player, false, false, false);
    assert_eq!((r.money, r.money_ok), (800, true));
    assert_eq!((r.clip, r.clip_ok), (25, true));
    assert_eq!((r.reserve, r.reserve_ok), (90, true));
    assert!(r.writes.is_empty());
    assert_eq!(e.last_money_source, "chain_hw");
    assert_eq!(e.last_resolved.clip_addr, 0x0700_0040);
    let c = e.finish_tick(&r, false, false, false);
    assert!(c.ready && c.money_valid && c.clip_valid && c.reserve_valid);
    assert_eq!((c.money, c.clip, c.reserve), (800, 25, 90));
    let d = e.debug_snapshot(&c, true, true);
    assert_eq!(d.money_source, "chain_hw");
    assert!(!d.write_enabled);
}

#[test]
fn engine_writes_toward_the_targets_in_order() {
    let mem = memory(50);
    let read = |a: u32| mem.get(&a).copied();
    let mut e = EngineCore::open(config(true), HW, 0, &read);
    let player = e.begin_tick(&read, Some(HW), 0);
    let r = e.read_counters(&read, player, false, false, true);
    assert_eq!((r.money, r.clip, r.reserve), (16000, 30, 90));
    assert_eq!(
        r.writes,
        vec![
            MemWrite { address: 0x0500_0020, value: 16000 },
            MemWrite { address: 0x0700_0040, value: 30 },
            MemWrite { address: 0x0700_0040 - 0xCC + 0xD0, value: 30 },
            MemWrite { address: 0x0600_0010, value: 90 },
        ]
    );
    // A dead player gets no ammo writes.
    let r = e.read_counters(&read, player, false, false, false);
    assert_eq!(r.writes, vec![MemWrite { address: 0x0500_0020, value: 16000 }]);
    assert_eq!((r.clip, r.reserve), (25, 50));
}

#[test]
fn failed_reads_keep_the_last_values_and_count_stale_ticks() {
    let mem = memory(90);
    let read = |a: u32| mem.get(&a).copied();
    let mut e = EngineCore::open(config(false), HW, 0, &read);
    let r = e.read_counters(&read, 0, false, false, false);
    let c = e.finish_tick(&r, false, false, false);
    assert_eq!((c.money, c.clip, c.reserve), (800, 25, 90));
    let nothing = TickReads {
        money: 0,
        money_ok: false,
        clip: 0,
        clip_ok: false,
        reserve: 0,
        reserve_ok: false,
        writes: Vec::new(),
    };
    for i in 1..=3u32 {
        let c = e.finish_tick(&nothing, false, false, false);
        assert_eq!((c.money, c.clip, c.reserve), (800, 25, 90));
        assert!(c.ready && c.money_valid);
        assert_eq!(e.stale, i);
    }
    assert!(e.should_reconnect(true, true));
    assert!(e.should_reconnect(false, true));
    let r = e.read_counters(&read, 0, false, false, false);
    e.finish_tick(&r, false, false, false);
    assert_eq!(e.stale, 0);
    assert!(!e.should_reconnect(true, true));
    assert!(e.should_reconnect(true, false));
}

#[test]
fn readiness_never_falls_back() {
    let f = config(false).features;
    let empty = Cache::default();
    assert!(!check_ready(false, &empty, &f));
    assert!(check_ready(true, &empty, &f));
    let money_only = Cache { money_valid: true, ..Cache::default() };
    assert!(!check_ready(false, &money_only, &f));
    let reserve = Cache { money_valid: true, reserve_valid: true, ..Cache::default() };
    assert!(check_ready(false, &reserve, &f));
}

#[test]
fn writing_is_skipped_at_the_target() {
    assert_eq!(apply_write_i32(true, 0x40, 30, 30), (30, None));
    assert_eq!(
        apply_write_i32(true, 0x40, 29, 30),
        (30, Some(MemWrite { address: 0x40, value: 30 }))
    );
    assert_eq!(apply_write_i32(false, 0x40, 29, 30), (29, None));
}

#[test]
fn pointer_chains_follow_each_offset() {
    let mut m: HashMap<u32, u32> = HashMap::new();
    m.insert(0x100, 0x2000);
    m.insert(0x2010, 0x3000);
    let read = |a: u32| m.get(&a).copied();
    assert_eq!(resolve_chain(&read, 0x100, &[0x10, 0x8]), Ok(0x3008));
    assert_eq!(resolve_chain(&read, 0x100, &[]), Ok(0x100));
    assert_eq!(resolve_chain(&read, 0, &[0x10]), Err(MemoryError::InvalidAddress { address: 0 }));
    assert_eq!(
        resolve_chain(&read, 0x100, &[0x10, 0x8, 0x4]),
        Err(MemoryError::ChainBroken { step: 2, address: 0x3008 })
    );
    m.insert(0x3008, 0);
    let read = |a: u32| m.get(&a).copied();
    assert_eq!(
        resolve_chain(&read, 0x100, &[0x10, 0x8, 0x4]),
        Err(MemoryError::ChainBroken { step: 2, address: 0x3008 })
    );
    let mut w: HashMap<u32, u32> = HashMap::new();
    w.insert(0x10, 0xFFFF_FFF0);
    let read = |a: u32| w.get(&a).copied();
    assert_eq!(resolve_chain(&read, 0x10, &[0x20]), Ok(0x10));
}

#[test]
fn single_reads_and_writes_refuse_null() {
    let read = |a: u32| if a == 0x40 { Some(7) } else { None };
    assert_eq!(read_word(&read, 0x40), Ok(7));
    assert_eq!(read_word(&read, 0), Err(MemoryError::InvalidAddress { address: 0 }));
    assert_eq!(read_word(&read, 0x44), Err(MemoryError::ReadFailed { address: 0x44 }));
    let write = |a: u32, _v: i32| a == 0x40;
    assert_eq!(write_i32(&write, 0x40, 5), Ok(()));
    assert_eq!(write_i32(&write, 0x44, 5), Err(MemoryError::WriteFailed { address: 0x44 }));
    assert_eq!(write_i32(&write, 0, 5), Err(MemoryError::InvalidAddress { address: 0 }));
}

#[test]
fn vitals_are_tried_direct_first_then_on_the_entity() {
    let mem = memory(90);
    let read = |a: u32| mem.get(&a).copied();
    let mut cfg = config(false);
    cfg.features.hp_enabled = true;
    cfg.features.armor_enabled = true;
    cfg.entity.health_direct_rva = Some("0x100".to_string());
    let e = EngineCore::open(cfg, HW, 0x2000_0000, &read);
    assert_eq!(e.hp_sources(0x0400_0000), vec![0x2000_0100, 0x0400_0B74]);
    assert_eq!(e.hp_sources(0), vec![0x2000_0100]);
    assert_eq!(e.armor_sources(0x0400_0000), vec![0x0400_010C]);
    let off = EngineCore::open(config(false), HW, 0, &read);
    assert!(off.hp_sources(0x0400_0000).is_empty());
}

#[test]
fn money_comes_from_the_player_entity_first() {
    let mut mem = memory(90);
    mem.insert(0x0400_00E4, 1234);
    let read = |a: u32| mem.get(&a).copied();
    let mut e = EngineCore::open(config(false), HW, 0, &read);
    let r = e.read_counters(&read, 0x0400_0000, false, false, true);
    assert_eq!((r.money, r.money_ok), (1234, true));
    assert_eq!(e.last_money_source, "entity");
    let r = e.read_counters(&read, 0x0800_0000, false, false, true);
    assert_eq!((r.money, r.money_ok), (800, true));
    assert_eq!(e.last_money_source, "chain_hw");
}
