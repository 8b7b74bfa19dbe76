use cs16_tool_v2::config::{
    parse_color, parse_hex_or, parse_hex_u32, parse_offsets, AppConfig, ChainsConfig,
    ClipDetectionConfig, DebugConsoleConfig, EntityConfig, FeaturesConfig, HudSyncConfig,
    ModulesConfig, MoneyClientFallback, OverlayColors, OverlayConfig, OverlayDisplay,
    OverlayPosition, PointerChainConfig, ProcessConfig, TargetsConfig, TimingConfig, ValueType,
};
use cs16_tool_v2::error::AppError;

#[test]
fn parse_hex() {
    assert_eq!(parse_hex_u32("0x32ABF4").unwrap(), 0x32ABF4);
    assert_eq!(parse_hex_u32("E4").unwrap(), 0xE4);
}

fn config_message(r: Result<u32, AppError>) -> String {
    match r {
        Err(AppError::Config(m)) => m,
        other => panic!("expected a configuration error, got {:?}", other),
    }
}

#[test]
fn parse_hex_trims_and_accepts_upper_prefix() {
    assert_eq!(parse_hex_u32("  0XdeadBEEF \n").unwrap(), 0xDEADBEEF);
    assert_eq!(parse_hex_u32("0").unwrap(), 0);
    assert_eq!(parse_hex_u32("+ff").unwrap(), 0xFF);
    assert_eq!(parse_hex_u32("ffffffff").unwrap(), u32::MAX);
}

#[test]
fn parse_hex_errors_name_the_input() {
    assert_eq!(
        config_message(parse_hex_u32("")),
        "hex '': cannot parse integer from empty string"
    );
    assert_eq!(
        config_message(parse_hex_u32("0x")),
        "hex '0x': cannot parse integer from empty string"
    );
    assert_eq!(
        config_message(parse_hex_u32("0xZZ")),
        "hex '0xZZ': invalid digit found in string"
    );
    assert_eq!(
        config_message(parse_hex_u32("100000000")),
        "hex '100000000': number too large to fit in target type"
    );
    assert_eq!(
        config_message(parse_hex_u32("+")),
        "hex '+': invalid digit found in string"
    );
}

#[test]
fn parse_hex_or_falls_back() {
    assert_eq!(parse_hex_or("0xB74", 7), 0xB74);
    assert_eq!(parse_hex_or("nope", 7), 7);
}

#[test]
fn parse_offsets_stops_at_first_bad_value() {
    let good = vec!["0x10".to_string(), "7C".to_string()];
    assert_eq!(parse_offsets(&good).unwrap(), vec![0x10, 0x7C]);
    let bad = vec!["0x10".to_string(), "xyz".to_string(), "".to_string()];
    match parse_offsets(&bad) {
        Err(AppError::Config(m)) => assert_eq!(m, "hex 'xyz': invalid digit found in string"),
        other => panic!("unexpected {:?}", other),
    }
    assert_eq!(parse_offsets(&[]).unwrap(), Vec::<u32>::new());
}

#[test]
fn parse_color_reads_bgr_hex() {
    assert_eq!(parse_color("0x00D7FF").unwrap(), 0x00D7FF);
    assert!(parse_color("gold").is_err());
}

#[test]
fn value_type_names_ignore_case() {
    assert_eq!(ValueType::parse("INT").unwrap(), ValueType::Int);
    assert_eq!(ValueType::parse("4Bytes").unwrap(), ValueType::Int);
    assert_eq!(ValueType::parse("F32").unwrap(), ValueType::Float);
    assert_eq!(ValueType::parse("u8").unwrap(), ValueType::Byte);
    match ValueType::parse("Double") {
        Err(AppError::Config(m)) => assert_eq!(m, "نوع نامعتبر: double"),
        other => panic!("unexpected {:?}", other),
    }
}

#[test]
fn float_type_name() {
    assert!(cs16_tool_v2::config::names_float("FLOAT"));
    assert!(cs16_tool_v2::config::names_float("float"));
    assert!(!cs16_tool_v2::config::names_float("f32"));
    assert!(!cs16_tool_v2::config::names_float("floats"));
}

#[test]
fn overlay_position_names() {
    assert_eq!(OverlayPosition::parse("Top-Left").unwrap(), OverlayPosition::TopLeft);
    assert_eq!(OverlayPosition::parse("top_right").unwrap(), OverlayPosition::TopRight);
    assert_eq!(OverlayPosition::parse("Bottom_Left").unwrap(), OverlayPosition::BottomLeft);
    assert_eq!(OverlayPosition::parse("bottom-right").unwrap(), OverlayPosition::BottomRight);
    match OverlayPosition::parse("Mid_Dle") {
        Err(AppError::Config(m)) => assert_eq!(m, "position نامعتبر: mid-dle"),
        other => panic!("unexpected {:?}", other),
    }
}

pub fn chain(base: &str, offs: &[&str]) -> PointerChainConfig {
    PointerChainConfig {
        base_rva: base.to_string(),
        offsets: offs.iter().map(|s| s.to_string()).collect(),
    }
}

fn sample_config() -> AppConfig {
    AppConfig {
        process: ProcessConfig { name: "hl.exe".to_string() },
        modules: ModulesConfig {
            hw: "hw.dll".to_string(),
            sw: "sw.dll".to_string(),
            client: "client.dll".to_string(),
        },
        targets: TargetsConfig { money: 16000, clip: 30, reserve: 90 },
        features: FeaturesConfig {
            write_enabled: false,
            overlay_enabled: true,
            debug_addresses: false,
            money_enabled: true,
            clip_enabled: true,
            clip_write_enabled: true,
            reserve_enabled: true,
            reserve_write_enabled: true,
            hp_enabled: true,
            armor_enabled: true,
            position_enabled: false,
        },
        timing: TimingConfig {
            memory_loop_ms: 50,
            overlay_loop_ms: 100,
            connect_retry_ms: 2000,
            stale_reconnect_ticks: 40,
        },
        entity: EntityConfig::default(),
        overlay: OverlayConfig {
            offset_x: 0,
            offset_y: 0,
            font_size: 20,
            font_name: "Consolas".to_string(),
            font_bold: true,
            line_spacing: 4,
            position: "top-left".to_string(),
            margin: 12,
            colors: OverlayColors {
                money: "0x00D7FF".to_string(),
                ammo: "0x00FF00".to_string(),
                hp: "0x0000FF".to_string(),
                armor: "0xFF8800".to_string(),
                position: "0xFFFF00".to_string(),
                default: "0xFFFFFF".to_string(),
            },
            display: OverlayDisplay {
                show_money: true,
                show_ammo: true,
                show_hp: true,
                show_armor: true,
                show_position: true,
                show_view_aux: true,
            },
        },
        chains: ChainsConfig {
            reserve: chain("0x1000", &["0x10"]),
            money_hw: chain("0x2000", &["0x20"]),
            money_client_fallback: MoneyClientFallback { direct_rva: "0x3000".to_string() },
            clip: vec![chain("0x4000", &["0x40"])],
            reserve_clip_index: 2,
        },
        clip_detection: ClipDetectionConfig { min_value: 0, max_value: 150 },
        hud_sync: HudSyncConfig::default(),
        debug_console: DebugConsoleConfig::default(),
    }
}

#[test]
fn validate_accepts_a_complete_config() {
    assert_eq!(sample_config().validate(), Ok(()));
}

#[test]
fn validate_reports_the_first_failing_check() {
    let mut c = sample_config();
    c.process.name = String::new();
    c.chains.clip.clear();
    assert_eq!(c.validate(), Err(AppError::Config("process.name خالی".to_string())));

    let mut c = sample_config();
    c.chains.clip.clear();
    c.overlay.position = "middle".to_string();
    assert_eq!(
        c.validate(),
        Err(AppError::Config("حداقل یک chains.clip لازم است".to_string()))
    );

    let mut c = sample_config();
    c.overlay.position = "Middle".to_string();
    assert_eq!(
        c.validate(),
        Err(AppError::Config("position نامعتبر: middle".to_string()))
    );
}

#[test]
fn defaults_of_omitted_keys() {
    let e = EntityConfig::default();
    assert!(e.enabled);
    assert_eq!(e.local_player_module, "hw");
    assert_eq!(e.local_player_rva, "0x32ABF4");
    assert_eq!(e.health_offset, "0xB74");
    assert_eq!(e.health_type, "float");
    assert_eq!(e.position_offset, "0x8");
    let h = HudSyncConfig::default();
    assert!(h.enabled);
    assert_eq!(h.clip_struct_offset, "0xCC");
    assert_eq!(h.hud_clip_offset, "0xD0");
    let d = DebugConsoleConfig::default();
    assert!(!d.enabled);
    assert_eq!(d.interval_ms, 1000);
    assert!(d.clear_screen);
    assert_eq!(cs16_tool_v2::config::default_reserve_clip_index(), 2);
    assert_eq!(cs16_tool_v2::config::default_pos(), "top-left");
}
