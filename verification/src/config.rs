use vstd::prelude::*;

use crate::error::AppError;
use crate::text::{
    chars_of, digit_of, digits, hex_prefixed, is_ws, push_char, push_str, string_of, trim, trim_end, trim_start,
    trimmed_chars,
};

verus! {

// ----------------------------------------------------------------------------
// Lower-casing (std's Unicode `str::to_lowercase`)
// ----------------------------------------------------------------------------

/// What `str::to_lowercase` returns for a string.
pub uninterp spec fn lowercase_of(s: Seq<char>) -> Seq<char>;

/// ASCII lower case of one character.
pub open spec fn ascii_lower(c: char) -> char {
    if 'A' <= c <= 'Z' {
        ((c as u32) + 32) as char
    } else {
        c
    }
}

/// Every character of `s` is ASCII.
pub open spec fn all_ascii(s: Seq<char>) -> bool {
    forall|i: int| 0 <= i < s.len() ==> (s[i] as u32) < 128
}

/// `s.to_lowercase()` (std).  Its result is named by `lowercase_of`; on ASCII
/// input it is the ASCII lower case of each character, as the Unicode
/// lower-case mapping of ASCII letters is their ASCII lower case.  For other
/// characters the Unicode tables decide, and nothing more is stated here.
#[verifier::external_body]
fn to_lowercase(s: &str) -> (r: String)
    ensures
        r@ == lowercase_of(s@),
        all_ascii(s@) ==> r@ == s@.map_values(|c: char| ascii_lower(c)),
{
    s.to_lowercase()
}

/// Whether a value type name is exactly `float` once lower-cased (the dump
/// warns that health should be an integer then).
pub fn names_float(s: &str) -> (b: bool)
    ensures
        b == (lowercase_of(s@) == "float"@),
{
    let l = to_lowercase(s);
    let cs = chars_of(l.as_str());
    chars_eq(&cs, "float")
}

/// Whether the characters `cs` spell the literal `lit`.
pub fn chars_eq(cs: &Vec<char>, lit: &str) -> (b: bool)
    ensures
        b == (cs@ == lit@),
{
    let l = chars_of(lit);
    if cs.len() != l.len() {
        return false;
    }
    let mut i: usize = 0;
    while i < cs.len()
        invariant
            cs@.len() == l@.len(),
            l@ == lit@,
            i <= cs@.len(),
            forall|k: int| 0 <= k < i ==> cs@[k] == l@[k],
        decreases cs@.len() - i,
    {
        if cs[i] != l[i] {
            return false;
        }
        i = i + 1;
    }
    assert(cs@ =~= lit@);
    true
}

// ----------------------------------------------------------------------------
// ValueType
// ----------------------------------------------------------------------------

/// How a memory value is typed.
#[derive(Debug, Clone, Copy, PartialEq, Eq, Structural, Default)]
pub enum ValueType {
    Int,
    #[default]
    Float,
    Byte,
}

/// The value type that a lower-cased name denotes, if any.
pub open spec fn value_type_of(l: Seq<char>) -> Option<ValueType> {
    if l == "int"@ || l == "i32"@ || l == "4bytes"@ {
        Some(ValueType::Int)
    } else if l == "float"@ || l == "f32"@ {
        Some(ValueType::Float)
    } else if l == "byte"@ || l == "u8"@ {
        Some(ValueType::Byte)
    } else {
        None
    }
}

/// The result of parsing a value type from its lower-cased name `l`.
pub open spec fn value_type_result(l: Seq<char>, res: Result<ValueType, AppError>) -> bool {
    match value_type_of(l) {
        Some(v) => res == Ok::<ValueType, AppError>(v),
        None => res matches Err(AppError::Config(m)) && m@ == "نوع نامعتبر: "@ + l,
    }
}

impl ValueType {
    /// Parses a value type from an already lower-cased name.
    pub fn from_lowercase(l: &str) -> (res: Result<Self, AppError>)
        ensures
            value_type_result(l@, res),
    {
        let cs = chars_of(l);
        if chars_eq(&cs, "int") || chars_eq(&cs, "i32") || chars_eq(&cs, "4bytes") {
            Ok(ValueType::Int)
        } else if chars_eq(&cs, "float") || chars_eq(&cs, "f32") {
            Ok(ValueType::Float)
        } else if chars_eq(&cs, "byte") || chars_eq(&cs, "u8") {
            Ok(ValueType::Byte)
        } else {
            let mut m = String::new();
            push_str(&mut m, "نوع نامعتبر: ");
            push_str(&mut m, l);
            Err(AppError::Config(m))
        }
    }

    /// Parses a value type name, ignoring case (`int`/`i32`/`4bytes`,
    /// `float`/`f32`, `byte`/`u8`).
    pub fn parse(s: &str) -> (res: Result<Self, AppError>)
        ensures
            value_type_result(lowercase_of(s@), res),
            all_ascii(s@) ==> value_type_result(s@.map_values(|c: char| ascii_lower(c)), res),
    {
        let l = to_lowercase(s);
        Self::from_lowercase(l.as_str())
    }
}

// ----------------------------------------------------------------------------
// OverlayPosition
// ----------------------------------------------------------------------------

/// Corner of the game window where the overlay text is drawn.
#[derive(Debug, Clone, Copy, PartialEq, Eq, Structural)]
pub enum OverlayPosition {
    TopLeft,
    TopRight,
    BottomLeft,
    BottomRight,
}

/// `s` with every `_` replaced by `-`.
pub open spec fn dashed(s: Seq<char>) -> Seq<char> {
    s.map_values(|c: char| if c == '_' { '-' } else { c })
}

/// The corner that a lower-cased, dashed name denotes, if any.
pub open spec fn overlay_position_of(d: Seq<char>) -> Option<OverlayPosition> {
    if d == "top-left"@ {
        Some(OverlayPosition::TopLeft)
    } else if d == "top-right"@ {
        Some(OverlayPosition::TopRight)
    } else if d == "bottom-left"@ {
        Some(OverlayPosition::BottomLeft)
    } else if d == "bottom-right"@ {
        Some(OverlayPosition::BottomRight)
    } else {
        None
    }
}

/// The result of parsing a corner from its lower-cased name `l`.
pub open spec fn overlay_position_result(l: Seq<char>, res: Result<OverlayPosition, AppError>) -> bool {
    match overlay_position_of(dashed(l)) {
        Some(p) => res == Ok::<OverlayPosition, AppError>(p),
        None => res matches Err(AppError::Config(m)) && m@ == "position نامعتبر: "@ + dashed(l),
    }
}

impl OverlayPosition {
    /// Parses a corner from an already lower-cased name; `_` counts as `-`.
    pub fn from_lowercase(l: &str) -> (res: Result<Self, AppError>)
        ensures
            overlay_position_result(l@, res),
    {
        let cs = chars_of(l);
        let mut d: Vec<char> = Vec::new();
        let mut i: usize = 0;
        while i < cs.len()
            invariant
                cs@ == l@,
                i <= cs@.len(),
                d@ == dashed(cs@.subrange(0, i as int)),
            decreases cs@.len() - i,
        {
            let c = cs[i];
            d.push(if c == '_' { '-' } else { c });
            i = i + 1;
            assert(d@ =~= dashed(cs@.subrange(0, i as int)));
        }
        assert(cs@.subrange(0, cs@.len() as int) =~= cs@);
        if chars_eq(&d, "top-left") {
            Ok(OverlayPosition::TopLeft)
        } else if chars_eq(&d, "top-right") {
            Ok(OverlayPosition::TopRight)
        } else if chars_eq(&d, "bottom-left") {
            Ok(OverlayPosition::BottomLeft)
        } else if chars_eq(&d, "bottom-right") {
            Ok(OverlayPosition::BottomRight)
        } else {
            let mut m = String::new();
            push_str(&mut m, "position نامعتبر: ");
            let t = string_of(&d);
            push_str(&mut m, t.as_str());
            Err(AppError::Config(m))
        }
    }

    /// Parses a corner name, ignoring case, with `_` or `-` between the words.
    pub fn parse(s: &str) -> (res: Result<Self, AppError>)
        ensures
            overlay_position_result(lowercase_of(s@), res),
            all_ascii(s@) ==> overlay_position_result(s@.map_values(|c: char| ascii_lower(c)), res),
    {
        let l = to_lowercase(s);
        Self::from_lowercase(l.as_str())
    }
}

// ----------------------------------------------------------------------------
// Hexadecimal numbers ("0x32ABF4", "E4")
// ----------------------------------------------------------------------------

/// Why an integer could not be parsed, as std's `ParseIntError` reports it.
#[derive(Debug, Clone, Copy, PartialEq, Eq, Structural)]
pub enum IntErrorKind {
    Empty,
    InvalidDigit,
    PosOverflow,
}

/// The text std writes for each kind of `ParseIntError`.
pub open spec fn int_error_text(k: IntErrorKind) -> Seq<char> {
    match k {
        IntErrorKind::Empty => "cannot parse integer from empty string"@,
        IntErrorKind::InvalidDigit => "invalid digit found in string"@,
        IntErrorKind::PosOverflow => "number too large to fit in target type"@,
    }
}

/// The value of a hexadecimal digit, if `c` is one.
pub open spec fn hex_digit(c: char) -> Option<nat> {
    if '0' <= c <= '9' {
        Some((c as u32 - '0' as u32) as nat)
    } else if 'a' <= c <= 'f' {
        Some((c as u32 - 'a' as u32 + 10) as nat)
    } else if 'A' <= c <= 'F' {
        Some((c as u32 - 'A' as u32 + 10) as nat)
    } else {
        None
    }
}

/// Accumulating the hexadecimal digits `d` onto `acc`, left to right: the first
/// non-digit is an invalid digit, and a value past `u32::MAX` an overflow,
/// whichever comes first.
pub open spec fn hex_scan(d: Seq<char>, acc: u32) -> Result<u32, IntErrorKind>
    decreases d.len(),
{
    if d.len() == 0 {
        Ok(acc)
    } else {
        match hex_digit(d[0]) {
            None => Err(IntErrorKind::InvalidDigit),
            Some(x) => if acc * 16 + x > u32::MAX {
                Err(IntErrorKind::PosOverflow)
            } else {
                hex_scan(d.drop_first(), (acc * 16 + x) as u32)
            },
        }
    }
}

/// `u32::from_str_radix(h, 16)`: an optional `+`, then hexadecimal digits only.
pub open spec fn radix16(h: Seq<char>) -> Result<u32, IntErrorKind> {
    if h.len() == 0 {
        Err(IntErrorKind::Empty)
    } else if (h[0] == '+' || h[0] == '-') && h.len() == 1 {
        Err(IntErrorKind::InvalidDigit)
    } else if h[0] == '+' {
        hex_scan(h.drop_first(), 0)
    } else {
        hex_scan(h, 0)
    }
}

/// `t` without a leading `0x` or `0X`.
pub open spec fn strip_hex_prefix(t: Seq<char>) -> Seq<char> {
    if t.len() >= 2 && t[0] == '0' && (t[1] == 'x' || t[1] == 'X') {
        t.subrange(2, t.len() as int)
    } else {
        t
    }
}

/// The number that a configuration hex string denotes: surrounding whitespace
/// and a `0x`/`0X` prefix are dropped, the rest is read in base 16.
pub open spec fn hex_value(value: Seq<char>) -> Result<u32, IntErrorKind> {
    radix16(strip_hex_prefix(trim(value)))
}

/// The result of `parse_hex_u32(value)`.
pub open spec fn hex_result(value: Seq<char>, res: Result<u32, AppError>) -> bool {
    match hex_value(value) {
        Ok(v) => res == Ok::<u32, AppError>(v),
        Err(k) => res matches Err(AppError::Config(m)) && m@ == "hex '"@ + value + "': "@
            + int_error_text(k),
    }
}

fn hex_digit_exec(c: char) -> (r: Option<u32>)
    ensures
        match hex_digit(c) {
            Some(x) => r == Some(x as u32),
            None => r is None,
        },
{
    if '0' <= c && c <= '9' {
        Some(c as u32 - '0' as u32)
    } else if 'a' <= c && c <= 'f' {
        Some(c as u32 - 'a' as u32 + 10)
    } else if 'A' <= c && c <= 'F' {
        Some(c as u32 - 'A' as u32 + 10)
    } else {
        None
    }
}

proof fn lemma_hex_scan_step(d: Seq<char>, i: int, acc: u32)
    requires
        0 <= i < d.len(),
    ensures
        hex_scan(d.subrange(i, d.len() as int), acc) == (match hex_digit(d[i]) {
            None => Err(IntErrorKind::InvalidDigit),
            Some(x) => if acc * 16 + x > u32::MAX {
                Err(IntErrorKind::PosOverflow)
            } else {
                hex_scan(d.subrange(i + 1, d.len() as int), (acc * 16 + x) as u32)
            },
        }),
{
    assert(d.subrange(i, d.len() as int).drop_first() =~= d.subrange(i + 1, d.len() as int));
}

/// Reads the hexadecimal digits `cs[start..]`.
fn hex_scan_exec(cs: &Vec<char>, start: usize) -> (r: Result<u32, IntErrorKind>)
    requires
        start <= cs@.len(),
    ensures
        r == hex_scan(cs@.subrange(start as int, cs@.len() as int), 0),
{
    let mut acc: u32 = 0;
    let mut i: usize = start;
    while i < cs.len()
        invariant
            start <= i <= cs@.len(),
            hex_scan(cs@.subrange(start as int, cs@.len() as int), 0) == hex_scan(
                cs@.subrange(i as int, cs@.len() as int),
                acc,
            ),
        decreases cs@.len() - i,
    {
        proof {
            lemma_hex_scan_step(cs@, i as int, acc);
        }
        match hex_digit_exec(cs[i]) {
            None => {
                return Err(IntErrorKind::InvalidDigit);
            },
            Some(x) => {
                if acc > 0x0FFF_FFFF || (acc == 0x0FFF_FFFF && x > 15) {
                    return Err(IntErrorKind::PosOverflow);
                }
                acc = acc * 16 + x;
            },
        }
        i = i + 1;
    }
    assert(cs@.subrange(i as int, cs@.len() as int).len() == 0);
    Ok(acc)
}

/// `u32::from_str_radix(h, 16)` over the characters `h`.
pub fn from_str_radix16(h: &Vec<char>) -> (r: Result<u32, IntErrorKind>)
    ensures
        r == radix16(h@),
{
    if h.len() == 0 {
        return Err(IntErrorKind::Empty);
    }
    if (h[0] == '+' || h[0] == '-') && h.len() == 1 {
        return Err(IntErrorKind::InvalidDigit);
    }
    if h[0] == '+' {
        assert(h@.subrange(1, h@.len() as int) =~= h@.drop_first());
        hex_scan_exec(h, 1)
    } else {
        assert(h@.subrange(0, h@.len() as int) =~= h@);
        hex_scan_exec(h, 0)
    }
}

/// Appends std's text for a `ParseIntError` kind.
fn push_int_error_text(m: &mut String, k: IntErrorKind)
    ensures
        final(m)@ == old(m)@ + int_error_text(k),
{
    match k {
        IntErrorKind::Empty => push_str(m, "cannot parse integer from empty string"),
        IntErrorKind::InvalidDigit => push_str(m, "invalid digit found in string"),
        IntErrorKind::PosOverflow => push_str(m, "number too large to fit in target type"),
    }
}

/// Parses a configuration hex number such as `"0x32ABF4"` or `"E4"`.
pub fn parse_hex_u32(value: &str) -> (res: Result<u32, AppError>)
    ensures
        hex_result(value@, res),
{
    let t = trimmed_chars(value);
    let mut h: Vec<char> = Vec::new();
    let skip: usize = if t.len() >= 2 && t[0] == '0' && (t[1] == 'x' || t[1] == 'X') {
        2
    } else {
        0
    };
    let mut i: usize = skip;
    while i < t.len()
        invariant
            skip <= i <= t@.len(),
            h@ == t@.subrange(skip as int, i as int),
        decreases t@.len() - i,
    {
        h.push(t[i]);
        i = i + 1;
        assert(h@ =~= t@.subrange(skip as int, i as int));
    }
    assert(h@ =~= strip_hex_prefix(trim(value@)));
    match from_str_radix16(&h) {
        Ok(v) => Ok(v),
        Err(k) => {
            let mut m = String::new();
            push_str(&mut m, "hex '");
            push_str(&mut m, value);
            push_str(&mut m, "': ");
            push_int_error_text(&mut m, k);
            Err(AppError::Config(m))
        },
    }
}

/// The views of a list of strings.
pub open spec fn views(values: Seq<String>) -> Seq<Seq<char>> {
    values.map_values(|v: String| v@)
}

/// The result of `parse_offsets(values)`: every string parsed in order, or the
/// error of the first one that fails.
pub open spec fn offsets_result(values: Seq<Seq<char>>, res: Result<Vec<u32>, AppError>) -> bool {
    match res {
        Ok(v) => v@.len() == values.len() && forall|i: int|
            0 <= i < values.len() ==> hex_value(values[i]) == Ok::<u32, IntErrorKind>(v@[i]),
        Err(e) => exists|i: int|
            0 <= i < values.len() && (forall|j: int| 0 <= j < i ==> hex_value(values[j]) is Ok)
                && #[trigger] hex_result(values[i], Err(e)) && hex_value(values[i]) is Err,
    }
}

/// Parses every offset string of a pointer chain.
pub fn parse_offsets(values: &[String]) -> (res: Result<Vec<u32>, AppError>)
    ensures
        offsets_result(views(values@), res),
{
    let mut out: Vec<u32> = Vec::new();
    let mut i: usize = 0;
    while i < values.len()
        invariant
            i <= values@.len(),
            out@.len() == i,
            forall|k: int|
                0 <= k < i ==> hex_value(#[trigger] views(values@)[k]) == Ok::<u32, IntErrorKind>(
                    out@[k],
                ),
        decreases values@.len() - i,
    {
        let r = parse_hex_u32(values[i].as_str());
        assert(views(values@)[i as int] == values@[i as int]@);
        match r {
            Ok(v) => {
                out.push(v);
            },
            Err(e) => {
                assert(hex_result(views(values@)[i as int], Err(e)));
                return Err(e);
            },
        }
        i = i + 1;
    }
    Ok(out)
}

/// Parses a `0xBBGGRR` colour.
pub fn parse_color(value: &str) -> (res: Result<u32, AppError>)
    ensures
        hex_result(value@, res),
{
    parse_hex_u32(value)
}

// ----------------------------------------------------------------------------
// Configuration structures
// ----------------------------------------------------------------------------

/// Whole configuration (`config.toml`).
#[derive(Debug, Clone)]
pub struct AppConfig {
    pub process: ProcessConfig,
    pub modules: ModulesConfig,
    pub targets: TargetsConfig,
    pub features: FeaturesConfig,
    pub timing: TimingConfig,
    pub entity: EntityConfig,
    pub overlay: OverlayConfig,
    pub chains: ChainsConfig,
    pub clip_detection: ClipDetectionConfig,
    pub hud_sync: HudSyncConfig,
    pub debug_console: DebugConsoleConfig,
}

/// `[process]`
#[derive(Debug, Clone)]
pub struct ProcessConfig {
    pub name: String,
}

/// `[modules]`
#[derive(Debug, Clone)]
pub struct ModulesConfig {
    pub hw: String,
    pub sw: String,
    pub client: String,
}

/// `[targets]` — values written when writing is enabled.
#[derive(Debug, Clone)]
pub struct TargetsConfig {
    pub money: i32,
    pub clip: i32,
    pub reserve: i32,
}

/// `[features]`
#[derive(Debug, Clone)]
pub struct FeaturesConfig {
    pub write_enabled: bool,
    pub overlay_enabled: bool,
    pub debug_addresses: bool,
    pub money_enabled: bool,
    pub clip_enabled: bool,
    pub clip_write_enabled: bool,
    pub reserve_enabled: bool,
    pub reserve_write_enabled: bool,
    pub hp_enabled: bool,
    pub armor_enabled: bool,
    pub position_enabled: bool,
}

/// `[timing]`
#[derive(Debug, Clone)]
pub struct TimingConfig {
    pub memory_loop_ms: u64,
    pub overlay_loop_ms: u64,
    pub connect_retry_ms: u64,
    pub stale_reconnect_ticks: u32,
}

/// `[entity]` — reading from the local player entity.
#[derive(Debug, Clone)]
pub struct EntityConfig {
    pub enabled: bool,
    /// `hw` = hw.dll + local_player_rva, `client` = client.dll + local_player_rva
    pub local_player_module: String,
    pub local_player_rva: String,
    pub money_offset: String,
    pub health_offset: String,
    pub armor_offset: String,
    pub health_type: String,
    pub armor_type: String,
    /// client.dll RVA of the health value itself
    pub health_direct_rva: Option<String>,
    /// client.dll RVA of the armor value itself
    pub armor_direct_rva: Option<String>,
    /// player + offset → vec3 (X, Y, Z)
    pub position_offset: String,
    /// hw.dll RVA of the engine's entity pointer
    pub position_entity_hw_rva: Option<String>,
    /// hw.dll RVA of a vec3 origin
    pub position_global_hw_rva: Option<String>,
    /// client.dll RVA of a vec3 origin
    pub position_global_client_rva: Option<String>,
    /// client.dll RVA of the view / mouse vector (not map coordinates)
    pub view_client_rva: Option<String>,
}

/// One pointer chain: module RVA, then the offsets.
#[derive(Debug, Clone)]
pub struct PointerChainConfig {
    pub base_rva: String,
    pub offsets: Vec<String>,
}

/// client.dll direct money address.
#[derive(Debug, Clone)]
pub struct MoneyClientFallback {
    pub direct_rva: String,
}

/// `[chains]`
#[derive(Debug, Clone)]
pub struct ChainsConfig {
    pub reserve: PointerChainConfig,
    pub money_hw: PointerChainConfig,
    pub money_client_fallback: MoneyClientFallback,
    pub clip: Vec<PointerChainConfig>,
    /// Index into `clip` of the chain that holds the reserve ammo.
    pub reserve_clip_index: usize,
}

/// `[clip_detection]` — accepted magazine values are positive and `min_value <= v < max_value`.
#[derive(Debug, Clone)]
pub struct ClipDetectionConfig {
    pub min_value: i32,
    pub max_value: i32,
}

/// `[hud_sync]`
#[derive(Debug, Clone)]
pub struct HudSyncConfig {
    pub enabled: bool,
    pub clip_struct_offset: String,
    pub hud_clip_offset: String,
}

/// `[overlay]`
#[derive(Debug, Clone)]
pub struct OverlayConfig {
    pub offset_x: i32,
    pub offset_y: i32,
    pub font_size: i32,
    pub font_name: String,
    pub font_bold: bool,
    pub line_spacing: i32,
    pub position: String,
    pub margin: i32,
    pub colors: OverlayColors,
    pub display: OverlayDisplay,
}

/// `[overlay.colors]` — `0xBBGGRR` strings.
#[derive(Debug, Clone)]
pub struct OverlayColors {
    pub money: String,
    pub ammo: String,
    pub hp: String,
    pub armor: String,
    pub position: String,
    pub default: String,
}

/// `[overlay.display]`
#[derive(Debug, Clone)]
pub struct OverlayDisplay {
    pub show_money: bool,
    pub show_ammo: bool,
    pub show_hp: bool,
    pub show_armor: bool,
    pub show_position: bool,
    pub show_view_aux: bool,
}

/// `[debug_console]`
#[derive(Debug, Clone)]
pub struct DebugConsoleConfig {
    pub enabled: bool,
    pub interval_ms: u64,
    pub clear_screen: bool,
}

// ----------------------------------------------------------------------------
// Defaults of omitted keys
// ----------------------------------------------------------------------------

/// Default software-renderer module.
pub fn default_sw() -> (r: String)
    ensures
        r@ == "sw.dll"@,
{
    String::from_str("sw.dll")
}

/// Default of the switches that are on unless turned off.
pub fn default_true() -> (r: bool)
    ensures
        r,
{
    true
}

/// Default pause between connection attempts, in ms.
pub fn default_retry() -> (r: u64)
    ensures
        r == 250,
{
    250
}

/// Default number of ticks without data before reconnecting.
pub fn default_stale() -> (r: u32)
    ensures
        r == 40,
{
    40
}

/// Default module of the local player pointer.
pub fn default_local_player_module() -> (r: String)
    ensures
        r@ == "hw"@,
{
    String::from_str("hw")
}

/// Default RVA of the local player pointer.
pub fn default_local_player_rva() -> (r: String)
    ensures
        r@ == "0x32ABF4"@,
{
    String::from_str("0x32ABF4")
}

/// Default money offset in the player entity.
pub fn default_money_offset() -> (r: String)
    ensures
        r@ == "0xE4"@,
{
    String::from_str("0xE4")
}

/// Default health offset in the player entity.
pub fn default_health_offset() -> (r: String)
    ensures
        r@ == "0xB74"@,
{
    String::from_str("0xB74")
}

/// Default armor offset in the player entity.
pub fn default_armor_offset() -> (r: String)
    ensures
        r@ == "0x10C"@,
{
    String::from_str("0x10C")
}

/// Default position offset in the player entity (`entvars.origin`).
pub fn default_position_offset() -> (r: String)
    ensures
        r@ == "0x8"@,
{
    String::from_str("0x8")
}

/// Default type of health and armor values.
pub fn default_float_type() -> (r: String)
    ensures
        r@ == "float"@,
{
    String::from_str("float")
}

/// Default index of the reserve chain among the clip chains.
pub fn default_reserve_clip_index() -> (r: usize)
    ensures
        r == 2,
{
    2
}

/// Default offset of the clip value in the weapon structure.
pub fn default_clip_struct() -> (r: String)
    ensures
        r@ == "0xCC"@,
{
    String::from_str("0xCC")
}

/// Default offset of the HUD clip value in the weapon structure.
pub fn default_hud_clip() -> (r: String)
    ensures
        r@ == "0xD0"@,
{
    String::from_str("0xD0")
}

/// Default overlay line spacing.
pub fn default_spacing() -> (r: i32)
    ensures
        r == 22,
{
    22
}

/// Default overlay corner.
pub fn default_pos() -> (r: String)
    ensures
        r@ == "top-left"@,
{
    String::from_str("top-left")
}

/// Default overlay margin.
pub fn default_margin() -> (r: i32)
    ensures
        r == 12,
{
    12
}

/// Default money colour.
pub fn default_gold() -> (r: String)
    ensures
        r@ == "0x00D7FF"@,
{
    String::from_str("0x00D7FF")
}

/// Default ammo and fallback colour.
pub fn default_green() -> (r: String)
    ensures
        r@ == "0x00FF00"@,
{
    String::from_str("0x00FF00")
}

/// Default health colour.
pub fn default_red() -> (r: String)
    ensures
        r@ == "0x4444FF"@,
{
    String::from_str("0x4444FF")
}

/// Default armor colour.
pub fn default_blue() -> (r: String)
    ensures
        r@ == "0xFFAA00"@,
{
    String::from_str("0xFFAA00")
}

/// Default position colour.
pub fn default_cyan() -> (r: String)
    ensures
        r@ == "0xFFFF88"@,
{
    String::from_str("0xFFFF88")
}

/// Default debug console refresh interval, in ms.
pub fn default_interval() -> (r: u64)
    ensures
        r == 1000,
{
    1000
}

impl Default for EntityConfig {
    fn default() -> (r: Self)
        ensures
            r.enabled,
            r.local_player_module@ == "hw"@,
            r.local_player_rva@ == "0x32ABF4"@,
            r.money_offset@ == "0xE4"@,
            r.health_offset@ == "0xB74"@,
            r.armor_offset@ == "0x10C"@,
            r.health_type@ == "float"@,
            r.armor_type@ == "float"@,
            r.health_direct_rva is None,
            r.armor_direct_rva is None,
            r.position_offset@ == "0x8"@,
            r.position_entity_hw_rva is None,
            r.position_global_hw_rva is None,
            r.position_global_client_rva is None,
            r.view_client_rva is None,
    {
        EntityConfig {
            enabled: true,
            local_player_module: default_local_player_module(),
            local_player_rva: default_local_player_rva(),
            money_offset: default_money_offset(),
            health_offset: default_health_offset(),
            armor_offset: default_armor_offset(),
            health_type: default_float_type(),
            armor_type: default_float_type(),
            health_direct_rva: None,
            armor_direct_rva: None,
            position_offset: default_position_offset(),
            position_entity_hw_rva: None,
            position_global_hw_rva: None,
            position_global_client_rva: None,
            view_client_rva: None,
        }
    }
}

impl Default for HudSyncConfig {
    fn default() -> (r: Self)
        ensures
            r.enabled,
            r.clip_struct_offset@ == "0xCC"@,
            r.hud_clip_offset@ == "0xD0"@,
    {
        HudSyncConfig {
            enabled: true,
            clip_struct_offset: default_clip_struct(),
            hud_clip_offset: default_hud_clip(),
        }
    }
}

impl Default for DebugConsoleConfig {
    fn default() -> (r: Self)
        ensures
            !r.enabled,
            r.interval_ms == 1000,
            r.clear_screen,
    {
        DebugConsoleConfig { enabled: false, interval_ms: default_interval(), clear_screen: true }
    }
}

/// The outcome of validating a configuration: the first failing check decides.
pub open spec fn validate_result(c: AppConfig, res: Result<(), AppError>) -> bool {
    validate_with(c, lowercase_of(c.overlay.position@), res)
}

/// The outcome of validating a configuration whose overlay corner name,
/// lower-cased, is `l`.
pub open spec fn validate_with(c: AppConfig, l: Seq<char>, res: Result<(), AppError>) -> bool {
    if c.process.name@.len() == 0 {
        res matches Err(AppError::Config(m)) && m@ == "process.name خالی"@
    } else if c.chains.clip@.len() == 0 {
        res matches Err(AppError::Config(m)) && m@ == "حداقل یک chains.clip لازم است"@
    } else {
        let d = dashed(l);
        match overlay_position_of(d) {
            Some(_) => res is Ok,
            None => res matches Err(AppError::Config(m)) && m@ == "position نامعتبر: "@ + d,
        }
    }
}

impl AppConfig {
    /// Checks a loaded configuration: a process name, at least one clip
    /// chain, and a known overlay corner.
    pub fn validate(&self) -> (res: Result<(), AppError>)
        ensures
            validate_result(*self, res),
            all_ascii(self.overlay.position@) ==> validate_with(
                *self,
                self.overlay.position@.map_values(|c: char| ascii_lower(c)),
                res,
            ),
    {
        if self.process.name.as_str().is_empty() {
            return Err(AppError::Config(String::from_str("process.name خالی")));
        }
        if self.chains.clip.len() == 0 {
            return Err(AppError::Config(String::from_str("حداقل یک chains.clip لازم است")));
        }
        match OverlayPosition::parse(self.overlay.position.as_str()) {
            Ok(_) => Ok(()),
            Err(e) => Err(e),
        }
    }
}

/// The number a hex string denotes, or `d` when it does not parse
/// (`parse_hex_u32(s).unwrap_or(d)`).
pub open spec fn hex_or(s: Seq<char>, d: u32) -> u32 {
    match hex_value(s) {
        Ok(v) => v,
        Err(_) => d,
    }
}

/// `parse_hex_u32(s).unwrap_or(d)`.
pub fn parse_hex_or(s: &str, d: u32) -> (r: u32)
    ensures
        r == hex_or(s@, d),
{
    match parse_hex_u32(s) {
        Ok(v) => v,
        Err(_) => d,
    }
}

// ----------------------------------------------------------------------------
// Properties
// ----------------------------------------------------------------------------

proof fn lemma_hex_digit_of(d: nat)
    requires
        d < 16,
    ensures
        hex_digit(digit_of(d)) == Some(d),
        digit_of(d) != '+' && digit_of(d) != '-',
{
}

proof fn lemma_hex_scan_push(ds: Seq<char>, c: char, acc: u32)
    ensures
        hex_scan(ds.push(c), acc) == match hex_scan(ds, acc) {
            Ok(v) => match hex_digit(c) {
                None => Err(IntErrorKind::InvalidDigit),
                Some(x) => if v * 16 + x > u32::MAX {
                    Err(IntErrorKind::PosOverflow)
                } else {
                    Ok((v * 16 + x) as u32)
                },
            },
            Err(e) => Err(e),
        },
    decreases ds.len(),
{
    if ds.len() == 0 {
        assert(ds.push(c) =~= seq![c]);
        assert(seq![c].drop_first() =~= Seq::<char>::empty());
        match hex_digit(c) {
            Some(x) => {
                if acc * 16 + x <= u32::MAX {
                    assert(hex_scan(Seq::<char>::empty(), (acc * 16 + x) as u32) == Ok::<u32, IntErrorKind>((acc * 16 + x) as u32));
                }
            },
            None => {},
        }
    } else {
        assert(ds.push(c)[0] == ds[0]);
        assert(ds.push(c).drop_first() =~= ds.drop_first().push(c));
        match hex_digit(ds[0]) {
            Some(x) => {
                if acc * 16 + x <= u32::MAX {
                    lemma_hex_scan_push(ds.drop_first(), c, (acc * 16 + x) as u32);
                }
            },
            None => {},
        }
    }
}

proof fn lemma_hex_scan_digits(n: nat)
    requires
        n <= u32::MAX,
    ensures
        hex_scan(digits(n, 16), 0) == Ok::<u32, IntErrorKind>(n as u32),
        digits(n, 16).len() > 0,
        digits(n, 16)[0] != '+' && digits(n, 16)[0] != '-',
        forall|i: int| 0 <= i < digits(n, 16).len() ==> hex_digit(#[trigger] digits(n, 16)[i]) is Some,
    decreases n,
{
    if n < 16 {
        lemma_hex_digit_of(n);
        let ds = digits(n, 16);
        assert(ds == seq![digit_of(n)]);
        assert(ds.drop_first() =~= Seq::<char>::empty());
        assert(hex_scan(Seq::<char>::empty(), n as u32) == Ok::<u32, IntErrorKind>(n as u32));
    } else {
        let q = n / 16;
        let r = n % 16;
        lemma_hex_scan_digits(q);
        lemma_hex_digit_of(r);
        let ds = digits(q, 16);
        assert(digits(n, 16) == ds.push(digit_of(r)));
        lemma_hex_scan_push(ds, digit_of(r), 0);
        assert(q * 16 + r == n);
        assert(ds.push(digit_of(r))[0] == ds[0]);
        assert forall|i: int| 0 <= i < ds.push(digit_of(r)).len() implies hex_digit(
            #[trigger] ds.push(digit_of(r))[i],
        ) is Some by {
            if i < ds.len() {
                assert(ds.push(digit_of(r))[i] == ds[i]);
            }
        }
    }
}

/// ASCII upper case of one character.
pub open spec fn ascii_upper(c: char) -> char {
    if 'a' <= c <= 'z' {
        ((c as u32) - 32) as char
    } else {
        c
    }
}

/// `n` in upper-case hexadecimal, as `{:X}` writes it.
pub open spec fn upper_hex(n: nat) -> Seq<char> {
    digits(n, 16).map_values(|c: char| ascii_upper(c))
}

/// `s` padded on the left with `0` to at least `w` characters, as a `0`
/// flag with width `w` pads a number.
pub open spec fn zero_padded(s: Seq<char>, w: nat) -> Seq<char> {
    if s.len() >= w {
        s
    } else {
        Seq::new((w - s.len()) as nat, |i: int| '0') + s
    }
}

proof fn lemma_hex_scan_same_digits(a: Seq<char>, b: Seq<char>, acc: u32)
    requires
        a.len() == b.len(),
        forall|i: int| 0 <= i < a.len() ==> hex_digit(#[trigger] a[i]) == hex_digit(b[i]),
    ensures
        hex_scan(a, acc) == hex_scan(b, acc),
    decreases a.len(),
{
    if a.len() > 0 {
        assert(hex_digit(a[0]) == hex_digit(b[0]));
        assert forall|i: int| 0 <= i < a.drop_first().len() implies hex_digit(
            #[trigger] a.drop_first()[i],
        ) == hex_digit(b.drop_first()[i]) by {
            assert(hex_digit(a[i + 1]) == hex_digit(b[i + 1]));
        }
        match hex_digit(a[0]) {
            Some(x) => {
                if acc * 16 + x <= u32::MAX {
                    lemma_hex_scan_same_digits(a.drop_first(), b.drop_first(), (acc * 16 + x) as u32);
                }
            },
            None => {},
        }
    }
}

proof fn lemma_hex_scan_zeros(k: nat, ds: Seq<char>)
    ensures
        hex_scan(Seq::new(k, |i: int| '0') + ds, 0) == hex_scan(ds, 0),
    decreases k,
{
    if k > 0 {
        let z = Seq::new(k, |i: int| '0') + ds;
        assert(z[0] == '0');
        assert(z.drop_first() =~= Seq::new((k - 1) as nat, |i: int| '0') + ds);
        lemma_hex_scan_zeros((k - 1) as nat, ds);
    } else {
        assert(Seq::new(k, |i: int| '0') + ds =~= ds);
    }
}

proof fn lemma_upper_hex_digits(n: nat)
    requires
        n <= u32::MAX,
    ensures
        hex_scan(upper_hex(n), 0) == Ok::<u32, IntErrorKind>(n as u32),
        upper_hex(n).len() > 0,
        forall|i: int| 0 <= i < upper_hex(n).len() ==> #[trigger] hex_digit(upper_hex(n)[i]) is Some,
        forall|i: int| 0 <= i < upper_hex(n).len() ==> !is_ws(#[trigger] upper_hex(n)[i]),
{
    lemma_hex_scan_digits(n);
    let ds = digits(n, 16);
    let us = upper_hex(n);
    assert forall|i: int| 0 <= i < ds.len() implies hex_digit(#[trigger] ds[i]) == hex_digit(us[i]) by {
        assert(hex_digit(ds[i]) is Some);
    }
    lemma_hex_scan_same_digits(ds, us, 0);
    assert forall|i: int| 0 <= i < us.len() implies #[trigger] hex_digit(us[i]) is Some && !is_ws(us[i]) by {
        assert(hex_digit(ds[i]) is Some);
        assert(hex_digit(ds[i]) == hex_digit(us[i]));
    }
}

/// A number written in upper-case hexadecimal, bare (`{:X}`) or with a `0X`
/// prefix, zero-padded to eight digits and surrounded by spaces
/// (`" 0X{:08X} "`), reads back as the same number through
/// `parse_hex_u32`.
pub proof fn lemma_upper_hex_text_reads_back(n: u32)
    ensures
        hex_value(upper_hex(n as nat)) == Ok::<u32, IntErrorKind>(n),
        hex_value(seq![' ', '0', 'X'] + zero_padded(upper_hex(n as nat), 8) + seq![' '])
            == Ok::<u32, IntErrorKind>(n),
{
    let us = upper_hex(n as nat);
    lemma_upper_hex_digits(n as nat);
    // Bare form.
    assert(hex_digit(us[0]) is Some);
    assert(!is_ws(us[0]));
    assert(!is_ws(us.last()));
    assert(trim_start(us) == us);
    assert(trim_end(us) == us);
    assert(us[0] != '0' || us.len() < 2 || (us[1] != 'x' && us[1] != 'X')) by {
        if us.len() >= 2 {
            assert(hex_digit(us[1]) is Some);
        }
    }
    assert(strip_hex_prefix(trim(us)) == us);
    // Padded form.
    let p = zero_padded(us, 8);
    let k: nat = if us.len() >= 8 { 0 } else { (8 - us.len()) as nat };
    assert(p =~= Seq::new(k, |i: int| '0') + us);
    lemma_hex_scan_zeros(k, us);
    assert(p.len() > 0);
    assert(p.last() == us.last());
    assert(p[0] == '0' || p[0] == us[0]);
    assert(hex_digit(p[0]) is Some);
    let t = seq!['0', 'X'] + p;
    let s = seq![' '] + t + seq![' '];
    assert(s.drop_first() =~= t + seq![' ']);
    assert(trim_start(t + seq![' ']) == t + seq![' ']);
    assert(trim_start(s) == t + seq![' ']);
    assert((t + seq![' ']).drop_last() =~= t);
    assert(t.last() == us.last());
    assert(trim_end(t) == t);
    assert(trim_end(t + seq![' ']) == t);
    assert(s =~= seq![' ', '0', 'X'] + p + seq![' ']);
    assert(t.subrange(2, t.len() as int) =~= p);
}

/// A number written in hexadecimal with a `0x` prefix (as `{:#x}` writes
/// addresses and offsets in messages and suggested settings) reads back as
/// the same number through `parse_hex_u32`.
pub proof fn lemma_hex_text_reads_back(n: u32)
    ensures
        hex_value(hex_prefixed(n as nat)) == Ok::<u32, IntErrorKind>(n),
{
    let t = hex_prefixed(n as nat);
    let ds = digits(n as nat, 16);
    lemma_hex_scan_digits(n as nat);
    assert(t[0] == '0');
    assert(t.last() == ds.last());
    assert(hex_digit(ds[ds.len() - 1]) is Some);
    assert(trim_start(t) == t);
    assert(trim_end(t) == t);
    assert(trim(t) == t);
    assert(t.subrange(2, t.len() as int) =~= ds);
}

} // verus!
