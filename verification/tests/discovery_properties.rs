use std::collections::HashMap;

use cs16_tool_v2::config::parse_hex_u32;
use cs16_tool_v2::debug::on;
use cs16_tool_v2::engine::should_log_connect_failure;
use cs16_tool_v2::local_player::{discover, LocalPlayerDiscovery};
use cs16_tool_v2::memory::resolve_chain;
use cs16_tool_v2::process::{to_wide, wide_eq};
use cs16_tool_v2::text::hex_string;

const HW: u32 = 0x1000_0000;

#[test]
fn discovery_prefers_the_configured_slot() {
    let mut m: HashMap<u32, u32> = HashMap::new();
    m.insert(HW + 0x32ABF4, 0x0400_0000);
    m.insert(0x0400_0000 + 0xB74, 90);
    m.insert(0x0400_0000 + 0x10C, 50);
    m.insert(HW + 0x100000, 0x0500_0000);
    m.insert(0x0500_0000 + 0xB74, 100);
    m.insert(0x0500_0000 + 0x10C, 0);
    let read = |a: u32| m.get(&a).copied();
    assert_eq!(
        discover(&read, HW, 0x32ABF4, 0xB74, false),
        Some(LocalPlayerDiscovery { rva: 0x32ABF4, player: 0x0400_0000, health_offset: 0xB74 })
    );
    assert_eq!(discover(&read, 0, 0x32ABF4, 0xB74, false), None);
}

#[test]
fn discovery_falls_back_to_the_scan() {
    let mut m: HashMap<u32, u32> = HashMap::new();
    m.insert(HW + 0x100010, 0x0500_0000);
    m.insert(0x0500_0000 + 0xFC, 77);
    m.insert(HW + 0x100020, 0x0600_0000);
    m.insert(0x0600_0000 + 0xFC, 500);
    let read = |a: u32| m.get(&a).copied();
    assert_eq!(
        discover(&read, HW, 0x32ABF4, 0xB74, false),
        Some(LocalPlayerDiscovery { rva: 0x100010, player: 0x0500_0000, health_offset: 0xFC })
    );
    let empty: HashMap<u32, u32> = HashMap::new();
    let read = |a: u32| empty.get(&a).copied();
    assert_eq!(discover(&read, HW, 0x32ABF4, 0xB74, false), None);
}

#[test]
fn printed_hex_reads_back() {
    for n in [0u32, 0x9, 0xE4, 0x32ABF4, u32::MAX] {
        let t = hex_string(n as u64);
        assert_eq!(parse_hex_u32(&t).unwrap(), n);
    }
    assert_eq!(hex_string(0x32ABF4), "0x32abf4");
}

#[test]
fn upper_case_and_padded_hex_reads_back() {
    for n in [0u32, 0x9, 0xE4, 0x32ABF4, 0xDEAD_BEEF, u32::MAX] {
        assert_eq!(parse_hex_u32(&format!("{:X}", n)).unwrap(), n);
        assert_eq!(parse_hex_u32(&format!(" 0X{:08X} ", n)).unwrap(), n);
    }
}

#[test]
fn a_chain_in_two_parts_is_the_whole_chain() {
    let mut m: HashMap<u32, u32> = HashMap::new();
    m.insert(0x100, 0x2000);
    m.insert(0x2010, 0x3000);
    m.insert(0x3008, 0x4000);
    let read = |a: u32| m.get(&a).copied();
    let first = resolve_chain(&read, 0x100, &[0x10]).unwrap();
    assert_eq!(resolve_chain(&read, first, &[0x8, 0x4]), resolve_chain(&read, 0x100, &[0x10, 0x8, 0x4]));
    assert_eq!(resolve_chain(&read, 0x100, &[0x10, 0x8, 0x4]), Ok(0x4004));
}

#[test]
fn name_comparison_is_symmetric() {
    let a = to_wide("Client.DLL");
    let b = to_wide("client.dll");
    assert_eq!(wide_eq(&a, &b), wide_eq(&b, &a));
    assert!(wide_eq(&a, &a));
}

#[test]
fn console_helpers() {
    assert_eq!(on(true), "ON ");
    assert_eq!(on(false), "OFF");
    assert!(should_log_connect_failure(1));
    assert!(!should_log_connect_failure(2));
    assert!(should_log_connect_failure(40));
    assert!(should_log_connect_failure(0));
}
