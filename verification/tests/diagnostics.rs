use std::collections::HashMap;

use cs16_tool_v2::diagnose::{
    ammo_valid, brute_scan, choose_entity, dedup_hits, entity_from_health, find_reserve_fallback,
    health_scan, known_offset_label, pick_reported_magazine, plausible_armor, plausible_entity,
    plausible_health, plausible_money, probe_slot, smart_scan, SlotProbe, SmartHit,
};
use cs16_tool_v2::position::{PositionDiscovery, PositionTrack};

#[test]
fn offset_labels() {
    assert_eq!(known_offset_label(0xB74), "  ← m_dwHealth (BLASTHACK)");
    assert_eq!(known_offset_label(0x15C), "  ← m_dwLifeState");
    assert_eq!(known_offset_label(0x8), "");
}

#[test]
fn plausibility_ranges() {
    assert!(plausible_health(1) && plausible_health(100));
    assert!(!plausible_health(0) && !plausible_health(101));
    assert!(plausible_armor(0) && !plausible_armor(-1));
    assert!(plausible_money(16000) && !plausible_money(16001));
    assert!(plausible_entity(0x0100_0000) && plausible_entity(0x7FFF_0000));
    assert!(!plausible_entity(0x0100_0002) && !plausible_entity(0x00FF_FFFC) && !plausible_entity(0x7FFF_0004));
    assert!(ammo_valid(1, 150) && !ammo_valid(0, 150) && !ammo_valid(150, 150));
}

#[test]
fn slot_probes() {
    let mut m = HashMap::new();
    m.insert(0x1010u32, 0x0200_0000u32);
    m.insert(0x1020, 0x8000);
    let read = |a: u32| m.get(&a).copied();
    assert_eq!(probe_slot(&read, 0x1000, 0x10), SlotProbe::Player { ptr_addr: 0x1010, player: 0x0200_0000 });
    assert_eq!(probe_slot(&read, 0x1000, 0x20), SlotProbe::Invalid { ptr_addr: 0x1020, value: 0x8000 });
    assert_eq!(probe_slot(&read, 0x1000, 0x30), SlotProbe::ReadFailed { ptr_addr: 0x1030 });
}

#[test]
fn entity_choice() {
    assert_eq!(choose_entity(0, 0x50), (0x50, false));
    assert_eq!(choose_entity(0x60, 0x50), (0x60, true));
    assert_eq!(choose_entity(0x50, 0x50), (0x50, false));
    assert_eq!(entity_from_health(0x2000_0100, 0x100), Some(0x2000_0000));
    assert_eq!(entity_from_health(0x10100, 0x100), None);
    assert_eq!(entity_from_health(0x10, 0x20), Some(0xFFFF_FFF0));
}

#[test]
fn health_scan_finds_living_values_in_order() {
    let mut m = HashMap::new();
    m.insert(0x0300_0004u32, 100u32);
    m.insert(0x0300_0008, 0);
    m.insert(0x0300_0B74, 57);
    m.insert(0x0300_2000, 50);
    let read = |a: u32| m.get(&a).copied();
    assert_eq!(health_scan(&read, 0x0300_0000), vec![(0x4, 100), (0xB74, 57)]);
}

fn scan_memory() -> HashMap<u32, u32> {
    let mut m = HashMap::new();
    let base = 0x1000_0000u32;
    // Two adjacent slots pointing at the same player, one at another.
    m.insert(base + 0x100000, 0x0400_0000);
    m.insert(base + 0x100004, 0x0400_0000);
    m.insert(base + 0x100008, 0x0500_0000);
    m.insert(base + 0x10000C, 0x0400_0001);
    m.insert(0x0400_0000 + 0xB74, 100);
    m.insert(0x0400_0000 + 0xE4, 800);
    m.insert(0x0400_0000 + 0x10C, 50);
    m.insert(0x0500_0000 + 0xB74, 30);
    m.insert(0x0500_0000 + 0xFC, 40);
    m.insert(0x0500_0000 + 0xE4, 20000);
    m.insert(0x0500_0000 + 0x10C, 0);
    m
}

#[test]
fn smart_scan_needs_all_three_fields() {
    let m = scan_memory();
    let read = |a: u32| m.get(&a).copied();
    let hits = smart_scan(&read, 0x1000_0000, 0x100000, 0x100010);
    assert_eq!(
        hits,
        vec![
            SmartHit { rva: 0x100000, player: 0x0400_0000, hp: 100, armor: 50, money: 800 },
            SmartHit { rva: 0x100004, player: 0x0400_0000, hp: 100, armor: 50, money: 800 },
        ]
    );
    assert!(smart_scan(&read, 0x1000_0000, 0x100000, 0x100000).is_empty());
}

#[test]
fn brute_scan_and_dedup() {
    let m = scan_memory();
    let read = |a: u32| m.get(&a).copied();
    let hits = brute_scan(&read, 0x1000_0000, 0x100000, 0x100010, &[0xB74, 0xFC]);
    assert_eq!(
        hits,
        vec![
            (0x100000, 0x0400_0000, 0xB74, 100),
            (0x100004, 0x0400_0000, 0xB74, 100),
            (0x100008, 0x0500_0000, 0xB74, 30),
            (0x100008, 0x0500_0000, 0xFC, 40),
        ]
    );
    assert_eq!(
        dedup_hits(&hits),
        vec![
            (0x100000, 0x0400_0000, 0xB74, 100),
            (0x100008, 0x0500_0000, 0xB74, 30),
            (0x100008, 0x0500_0000, 0xFC, 40),
        ]
    );
    // A range that is not a multiple of 4 still covers its last partial step.
    assert_eq!(brute_scan(&read, 0x1000_0000, 0x100000, 0x100001, &[0xB74]).len(), 1);
    assert!(brute_scan(&read, 0x1000_0000, 0x100010, 0x100000, &[0xB74]).is_empty());
}

#[test]
fn reported_magazine_is_the_last_of_the_highest() {
    let vals = vec![(0, 0x10, 12, true), (1, 0x20, 30, true), (2, 0x30, 90, true), (3, 0x40, 30, true), (4, 0x50, 99, false)];
    assert_eq!(pick_reported_magazine(&vals, 2), Some((3, 0x40, 30, true)));
    assert_eq!(pick_reported_magazine(&vals, 1), Some((2, 0x30, 90, true)));
    assert_eq!(pick_reported_magazine(&vec![(2, 0x30, 90, true)], 2), None);
    assert_eq!(find_reserve_fallback(&vals, 2), Some((2, 0x30, 90, true)));
    assert_eq!(find_reserve_fallback(&vals, 4), None);
}

#[test]
fn position_track_locks_the_first_source() {
    let mut t = PositionTrack::new();
    assert!(!t.is_locked());
    assert_eq!(t.entity(0x77), 0x77);
    assert_eq!(t.offset(0x8), 0x8);
    t.record(Some(0x34), Some(0x0600_0000), false);
    assert!(t.is_locked());
    assert_eq!((t.locked_player, t.locked_off), (0x0600_0000, 0x34));
    t.record(Some(0x8), Some(0x0700_0000), true);
    assert_eq!((t.locked_player, t.locked_off), (0x0600_0000, 0x34));
    assert_eq!(t.discovered_player, 0x0700_0000);
    assert_eq!(t.entity(0x77), 0x0600_0000);
    assert_eq!(t.pos_addr(true, 0x77, 0x8), 0x0600_0034);
    assert_eq!(t.pos_addr(false, 0x77, 0x8), 0);
    t.after_motion(false, true);
    assert_eq!(t.static_ticks, 0);
}

#[test]
fn still_position_is_rediscovered_after_the_limit() {
    let mut t = PositionTrack { discovered_player: 0x0600_0000, discovered_off: 0x34, ..PositionTrack::new() };
    for i in 1..120u32 {
        t.after_motion(false, false);
        assert_eq!(t.static_ticks, i);
        assert!(!t.force_rediscover());
    }
    t.after_motion(false, false);
    assert_eq!(t.static_ticks, 120);
    assert_eq!((t.discovered_player, t.discovered_off), (0, 0));
    assert!(t.force_rediscover());
    t.after_motion(true, false);
    assert_eq!(t.static_ticks, 0);
    let mut g = PositionTrack::new();
    g.lock(PositionDiscovery { player: 0x0800_0000, offset: 0 });
    assert_eq!(g, PositionTrack { locked_player: 0x0800_0000, locked_off: 0, discovered_player: 0x0800_0000, discovered_off: 0, static_ticks: 0 });
}
