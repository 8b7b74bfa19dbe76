//! The game engine's decisions: which addresses to use, which values to show,
//! what to write, when the display is ready and when to reconnect.
use vstd::prelude::*;

use crate::config::{
    all_ascii, ascii_lower, hex_or, hex_value, lowercase_of, parse_hex_u32, value_type_of, AppConfig,
    ChainsConfig, ClipDetectionConfig, EntityConfig, FeaturesConfig, PointerChainConfig, ValueType,
};
use crate::error::{AppError, MemoryError};
use crate::memory::{
    chain_spec, i32_at, read_i32, read_word, reader_total, reads_agree, resolve_chain, word_at,
    wrap_add, wrap_sub, MemModel, MemWrite,
};
use crate::state::{DebugSnapshot, ResolvedInfo};
use crate::text::chars_of;

verus! {

// ----------------------------------------------------------------------------
// Entity addresses
// ----------------------------------------------------------------------------

/// Entity offsets and direct addresses, parsed from `[entity]`.
#[derive(Debug, Clone, Copy, PartialEq, Eq, Structural)]
pub struct EntityAddrs {
    pub local_player_on_client: bool,
    pub local_player_ptr: u32,
    pub money: u32,
    pub health: u32,
    pub armor: u32,
    pub health_type: ValueType,
    pub armor_type: ValueType,
    pub health_direct: u32,
    pub armor_direct: u32,
    pub position: u32,
    pub position_entity_hw_rva: Option<u32>,
    pub position_global_hw_rva: Option<u32>,
    pub view_client_rva: Option<u32>,
    pub active: bool,
}

/// Entity reading switched off.
pub open spec fn inactive_entity() -> EntityAddrs {
    EntityAddrs {
        local_player_on_client: false,
        local_player_ptr: 0,
        money: 0,
        health: 0,
        armor: 0,
        health_type: ValueType::Float,
        armor_type: ValueType::Float,
        health_direct: 0,
        armor_direct: 0,
        position: 0,
        position_entity_hw_rva: None,
        position_global_hw_rva: None,
        view_client_rva: None,
        active: false,
    }
}

impl Default for EntityAddrs {
    fn default() -> (r: Self)
        ensures
            r == inactive_entity(),
    {
        EntityAddrs {
            local_player_on_client: false,
            local_player_ptr: 0,
            money: 0,
            health: 0,
            armor: 0,
            health_type: ValueType::Float,
            armor_type: ValueType::Float,
            health_direct: 0,
            armor_direct: 0,
            position: 0,
            position_entity_hw_rva: None,
            position_global_hw_rva: None,
            view_client_rva: None,
            active: false,
        }
    }
}

/// The number an optional hex string denotes, if present and well formed.
pub open spec fn opt_hex(s: Option<String>) -> Option<u32> {
    match s {
        Some(t) => match hex_value(t@) {
            Ok(v) => Some(v),
            Err(_) => None,
        },
        None => None,
    }
}

/// `s.eq_ignore_ascii_case(lit)` for an ASCII literal: same length, and equal
/// characters once ASCII letters are lower-cased.
pub open spec fn eq_ignore_ascii_case(s: Seq<char>, lit: Seq<char>) -> bool {
    s.len() == lit.len() && forall|i: int| 0 <= i < s.len() ==> ascii_lower(s[i]) == ascii_lower(lit[i])
}

/// A client.dll address given as an optional RVA, or 0.
pub open spec fn client_addr(rva: Option<String>, client_base: u32) -> u32 {
    match opt_hex(rva) {
        Some(r) => wrap_add(client_base, r),
        None => 0,
    }
}

/// The entity addresses a configuration gives: all five offsets must parse,
/// else entity reading is off; unknown value types read as `Int`.
pub open spec fn entity_addrs_spec(e: EntityConfig, client_base: u32) -> EntityAddrs {
    if hex_value(e.local_player_rva@) is Ok && hex_value(e.money_offset@) is Ok && hex_value(
        e.health_offset@,
    ) is Ok && hex_value(e.armor_offset@) is Ok && hex_value(e.position_offset@) is Ok {
        EntityAddrs {
            local_player_on_client: eq_ignore_ascii_case(e.local_player_module@, "client"@),
            local_player_ptr: hex_value(e.local_player_rva@)->Ok_0,
            money: hex_value(e.money_offset@)->Ok_0,
            health: hex_value(e.health_offset@)->Ok_0,
            armor: hex_value(e.armor_offset@)->Ok_0,
            health_type: match value_type_of(lowercase_of(e.health_type@)) {
                Some(t) => t,
                None => ValueType::Int,
            },
            armor_type: match value_type_of(lowercase_of(e.armor_type@)) {
                Some(t) => t,
                None => ValueType::Int,
            },
            health_direct: client_addr(e.health_direct_rva, client_base),
            armor_direct: client_addr(e.armor_direct_rva, client_base),
            position: hex_value(e.position_offset@)->Ok_0,
            position_entity_hw_rva: opt_hex(e.position_entity_hw_rva),
            position_global_hw_rva: opt_hex(e.position_global_hw_rva),
            view_client_rva: opt_hex(e.view_client_rva),
            active: true,
        }
    } else {
        inactive_entity()
    }
}

/// Whether `s` equals the ASCII literal `lit`, ignoring ASCII case.
pub fn eq_ignore_ascii_case_str(s: &str, lit: &str) -> (b: bool)
    requires
        all_ascii(lit@),
    ensures
        b == eq_ignore_ascii_case(s@, lit@),
{
    let a = chars_of(s);
    let l = chars_of(lit);
    if a.len() != l.len() {
        return false;
    }
    let mut i: usize = 0;
    while i < a.len()
        invariant
            a@ == s@,
            l@ == lit@,
            a@.len() == l@.len(),
            i <= a@.len(),
            forall|k: int| 0 <= k < i ==> ascii_lower(a@[k]) == ascii_lower(l@[k]),
        decreases a@.len() - i,
    {
        let x = a[i];
        let y = l[i];
        let lx = if 'A' <= x && x <= 'Z' {
            (((x as u32) + 32) as u8) as char
        } else {
            x
        };
        let ly = if 'A' <= y && y <= 'Z' {
            (((y as u32) + 32) as u8) as char
        } else {
            y
        };
        if lx != ly {
            return false;
        }
        i = i + 1;
    }
    true
}

/// Parses an optional hex RVA.
fn parse_opt_hex(s: &Option<String>) -> (r: Option<u32>)
    ensures
        r == opt_hex(*s),
{
    match s {
        Some(t) => match parse_hex_u32(t.as_str()) {
            Ok(v) => Some(v),
            Err(_) => None,
        },
        None => None,
    }
}

/// Parses the entity section against the current client.dll base.
pub fn parse_entity_addrs(entity: &EntityConfig, client_base: u32) -> (r: EntityAddrs)
    ensures
        r == entity_addrs_spec(*entity, client_base),
{
    let lp = match parse_hex_u32(entity.local_player_rva.as_str()) {
        Ok(v) => v,
        Err(_) => {
            return EntityAddrs::default();
        },
    };
    let money = match parse_hex_u32(entity.money_offset.as_str()) {
        Ok(v) => v,
        Err(_) => {
            return EntityAddrs::default();
        },
    };
    let health = match parse_hex_u32(entity.health_offset.as_str()) {
        Ok(v) => v,
        Err(_) => {
            return EntityAddrs::default();
        },
    };
    let armor = match parse_hex_u32(entity.armor_offset.as_str()) {
        Ok(v) => v,
        Err(_) => {
            return EntityAddrs::default();
        },
    };
    let position = match parse_hex_u32(entity.position_offset.as_str()) {
        Ok(v) => v,
        Err(_) => {
            return EntityAddrs::default();
        },
    };
    let health_type = match ValueType::parse(entity.health_type.as_str()) {
        Ok(t) => t,
        Err(_) => ValueType::Int,
    };
    let armor_type = match ValueType::parse(entity.armor_type.as_str()) {
        Ok(t) => t,
        Err(_) => ValueType::Int,
    };
    proof {
        reveal_strlit("client");
    }
    let on_client = eq_ignore_ascii_case_str(entity.local_player_module.as_str(), "client");
    let health_direct = match parse_opt_hex(&entity.health_direct_rva) {
        Some(rva) => client_base.wrapping_add(rva),
        None => 0,
    };
    let armor_direct = match parse_opt_hex(&entity.armor_direct_rva) {
        Some(rva) => client_base.wrapping_add(rva),
        None => 0,
    };
    EntityAddrs {
        local_player_on_client: on_client,
        local_player_ptr: lp,
        money,
        health,
        armor,
        health_type,
        armor_type,
        health_direct,
        armor_direct,
        position,
        position_entity_hw_rva: parse_opt_hex(&entity.position_entity_hw_rva),
        position_global_hw_rva: parse_opt_hex(&entity.position_global_hw_rva),
        view_client_rva: parse_opt_hex(&entity.view_client_rva),
        active: true,
    }
}

// ----------------------------------------------------------------------------
// Pointer chains from the configuration
// ----------------------------------------------------------------------------

/// The offsets of a chain, when every one of them parses.
pub open spec fn parsed_offsets(values: Seq<String>) -> Option<Seq<u32>> {
    if forall|i: int| 0 <= i < values.len() ==> (#[trigger] hex_value(values[i]@)) is Ok {
        Some(Seq::new(values.len(), |i: int| hex_value(values[i]@)->Ok_0))
    } else {
        None
    }
}

/// The address a configured chain resolves to from `hw_base`, if it does.
pub open spec fn chain_target(mem: MemModel, hw_base: u32, chain: PointerChainConfig) -> Option<u32> {
    match (hex_value(chain.base_rva@), parsed_offsets(chain.offsets@)) {
        (Ok(rva), Some(offs)) => match chain_spec(mem, wrap_add(hw_base, rva), offs) {
            Ok(a) => Some(a),
            Err(_) => None,
        },
        _ => None,
    }
}

/// Resolves a configured chain from `hw_base`.
pub fn resolve_chain_addr<F: Fn(u32) -> Option<u32>>(
    read: &F,
    hw_base: u32,
    chain: &PointerChainConfig,
) -> (r: Option<u32>)
    requires
        reader_total(read),
    ensures
        forall|mem: MemModel| #[trigger]
            reads_agree(read, mem) ==> r == chain_target(mem, hw_base, *chain),
{
    let rva = match parse_hex_u32(chain.base_rva.as_str()) {
        Ok(v) => v,
        Err(_) => {
            return None;
        },
    };
    let offsets = match crate::config::parse_offsets(chain.offsets.as_slice()) {
        Ok(v) => v,
        Err(_) => {
            assert(parsed_offsets(chain.offsets@) is None);
            return None;
        },
    };
    proof {
        assert forall|i: int| 0 <= i < chain.offsets@.len() implies (#[trigger] hex_value(
            chain.offsets@[i]@,
        )) is Ok by {
            assert(crate::config::views(chain.offsets@)[i] == chain.offsets@[i]@);
        }
        assert forall|i: int| 0 <= i < chain.offsets@.len() implies offsets@[i] == hex_value(
            chain.offsets@[i]@,
        )->Ok_0 by {
            assert(crate::config::views(chain.offsets@)[i] == chain.offsets@[i]@);
        }
        assert(offsets@ =~= parsed_offsets(chain.offsets@)->Some_0);
    }
    match resolve_chain(read, hw_base.wrapping_add(rva), offsets.as_slice()) {
        Ok(a) => Some(a),
        Err(_) => None,
    }
}

/// `opt.unwrap_or(0)` for addresses.
pub open spec fn or_zero(a: Option<u32>) -> u32 {
    match a {
        Some(v) => v,
        None => 0,
    }
}

// ----------------------------------------------------------------------------
// Writes toward the targets
// ----------------------------------------------------------------------------

/// The shown value and the write, if any: when writing is on and the value read
/// differs from the target, the target is written and shown.
pub open spec fn write_toward(write: bool, addr: u32, current: i32, target: i32) -> (i32, Option<MemWrite>) {
    if write && current != target {
        (target, Some(MemWrite { address: addr, value: target }))
    } else {
        (current, None)
    }
}

/// Decides whether to write `target` over `current` at `addr`.
pub fn apply_write_i32(write: bool, addr: u32, current: i32, target: i32) -> (r: (i32, Option<MemWrite>))
    ensures
        r == write_toward(write, addr, current, target),
{
    if write && current != target {
        (target, Some(MemWrite { address: addr, value: target }))
    } else {
        (current, None)
    }
}

// ----------------------------------------------------------------------------
// Value cache and readiness
// ----------------------------------------------------------------------------

/// Last successfully read counters; a failed read keeps the previous value.
#[derive(Debug, Clone, Copy, Default, PartialEq, Eq, Structural)]
pub struct Cache {
    pub money: i32,
    pub money_valid: bool,
    pub clip: i32,
    pub clip_valid: bool,
    pub reserve: i32,
    pub reserve_valid: bool,
}

/// The cache after a tick's reads: each successful read replaces its value.
pub open spec fn merged(c: Cache, money_ok: bool, money: i32, clip_ok: bool, clip: i32, reserve_ok: bool, reserve: i32) -> Cache {
    Cache {
        money: if money_ok { money } else { c.money },
        money_valid: money_ok || c.money_valid,
        clip: if clip_ok { clip } else { c.clip },
        clip_valid: clip_ok || c.clip_valid,
        reserve: if reserve_ok { reserve } else { c.reserve },
        reserve_valid: reserve_ok || c.reserve_valid,
    }
}

impl Cache {
    /// Merges a tick's successful reads.
    pub fn merge(&mut self, money_ok: bool, money: i32, clip_ok: bool, clip: i32, reserve_ok: bool, reserve: i32)
        ensures
            *final(self) == merged(*old(self), money_ok, money, clip_ok, clip, reserve_ok, reserve),
    {
        if money_ok {
            self.money = money;
            self.money_valid = true;
        }
        if clip_ok {
            self.clip = clip;
            self.clip_valid = true;
        }
        if reserve_ok {
            self.reserve = reserve;
            self.reserve_valid = true;
        }
    }
}

/// Whether the enabled counters have been read: money when enabled, and, for
/// ammo, the clip or the reserve (either, when both are enabled).
pub open spec fn cache_ready(c: Cache, f: FeaturesConfig) -> bool {
    &&& (f.money_enabled ==> c.money_valid)
    &&& if f.clip_enabled && f.reserve_enabled {
        c.clip_valid || c.reserve_valid
    } else if f.clip_enabled {
        c.clip_valid
    } else if f.reserve_enabled {
        c.reserve_valid
    } else {
        true
    }
}

/// Whether the display is ready: once ready, it stays ready.
pub fn check_ready(display_ready: bool, cache: &Cache, feats: &FeaturesConfig) -> (r: bool)
    ensures
        r == (display_ready || cache_ready(*cache, *feats)),
{
    if display_ready {
        return true;
    }
    if feats.money_enabled && !cache.money_valid {
        return false;
    }
    if feats.clip_enabled && feats.reserve_enabled {
        if !cache.clip_valid && !cache.reserve_valid {
            return false;
        }
    } else if feats.clip_enabled && !cache.clip_valid {
        return false;
    } else if feats.reserve_enabled && !cache.reserve_valid {
        return false;
    }
    true
}

/// The stale-tick counter after a tick: data resets it; a tick without data
/// counts when any counter is enabled.
pub open spec fn next_stale(stale: u32, got_data: bool, f: FeaturesConfig) -> u32 {
    if got_data {
        0
    } else if f.money_enabled || f.clip_enabled || f.reserve_enabled {
        if stale == u32::MAX { stale } else { (stale + 1) as u32 }
    } else {
        stale
    }
}

/// Whether to drop the connection: the process died, the engine module is
/// gone, or too many ticks passed without data.
pub open spec fn reconnect_needed(process_alive: bool, engine_found: bool, stale: u32, limit: u32) -> bool {
    !process_alive || !engine_found || stale >= limit
}

// ----------------------------------------------------------------------------
// Engine state
// ----------------------------------------------------------------------------

/// The engine's integer state between ticks.
#[derive(Debug, Clone)]
pub struct EngineCore {
    pub config: AppConfig,
    pub hw_base: u32,
    pub client_base: u32,
    /// hw.dll money chain, resolved once and again only after it fails.
    pub money_hw_addr: u32,
    /// Reserve ammo address, kept while it reads.
    pub reserve_addr: u32,
    /// `client_base + money_client_fallback.direct_rva`
    pub client_money_addr: u32,
    pub entity: EntityAddrs,
    /// Local player RVA found at run time (0: none yet, use the configured one).
    pub discovered_lp_rva: u32,
    /// Health offset found at run time (0: none yet, use the configured one).
    pub discovered_hp_off: u32,
    /// Ticks in a row without any data.
    pub stale: u32,
    pub cache: Cache,
    /// Once true, never false again.
    pub display_ready: bool,
    pub last_money_source: String,
    pub last_resolved: ResolvedInfo,
}

/// The state a tick carries over from the last one (readiness, value cache,
/// stale-tick count) is the same in `b` as in `a`.
pub open spec fn keeps_tick_state(a: EngineCore, b: EngineCore) -> bool {
    &&& b.display_ready == a.display_ready
    &&& b.cache == a.cache
    &&& b.stale == a.stale
}

/// The hw.dll money chain's address, or 0.
pub open spec fn money_target(mem: MemModel, e: EngineCore) -> u32 {
    or_zero(chain_target(mem, e.hw_base, e.config.chains.money_hw))
}

/// The reserve chain's address, or 0.
pub open spec fn reserve_primary(mem: MemModel, e: EngineCore) -> u32 {
    or_zero(chain_target(mem, e.hw_base, e.config.chains.reserve))
}

/// The address of the clip chain that holds the reserve, or 0.
pub open spec fn reserve_fallback(mem: MemModel, e: EngineCore) -> u32 {
    let idx = e.config.chains.reserve_clip_index;
    if idx < e.config.chains.clip@.len() {
        or_zero(chain_target(mem, e.hw_base, e.config.chains.clip@[idx as int]))
    } else {
        0
    }
}

/// How likely `addr` holds the reserve: an accepted ammo value scores highest,
/// then 0, then any other value; an unreadable or null address scores -1.
pub open spec fn reserve_score(mem: MemModel, addr: u32, max: i32) -> int {
    if addr == 0 {
        -1
    } else {
        match i32_at(mem, addr) {
            Ok(v) => if 1 <= v < max {
                v + 10_000
            } else if v == 0 {
                100
            } else {
                50
            },
            Err(_) => -1,
        }
    }
}

/// The reserve address chosen between the reserve chain and the clip chain
/// that holds the reserve: the better score wins, the reserve chain on a tie.
pub open spec fn reserve_pick(mem: MemModel, e: EngineCore) -> u32 {
    let p = reserve_primary(mem, e);
    let f = reserve_fallback(mem, e);
    let max = e.config.clip_detection.max_value;
    let ps = reserve_score(mem, p, max);
    let fs = reserve_score(mem, f, max);
    if fs > ps {
        f
    } else if ps >= 0 {
        p
    } else if fs >= 0 {
        f
    } else {
        0
    }
}

/// `client_base + direct_rva` when client.dll is loaded and the RVA parses, else 0.
pub open spec fn client_money_for(c: AppConfig, client_base: u32) -> u32 {
    if client_base != 0 {
        match hex_value(c.chains.money_client_fallback.direct_rva@) {
            Ok(rva) => wrap_add(client_base, rva),
            Err(_) => 0,
        }
    } else {
        0
    }
}

/// The engine after resolving its static addresses.
pub open spec fn with_static(mem: MemModel, e: EngineCore) -> EngineCore {
    EngineCore {
        money_hw_addr: money_target(mem, e),
        reserve_addr: reserve_pick(mem, e),
        client_money_addr: client_money_for(e.config, e.client_base),
        ..e
    }
}

/// The local player RVA in use.
pub open spec fn eff_lp_rva(e: EngineCore) -> u32 {
    if e.discovered_lp_rva != 0 {
        e.discovered_lp_rva
    } else {
        e.entity.local_player_ptr
    }
}

/// The health offset in use.
pub open spec fn eff_hp_off(e: EngineCore) -> u32 {
    if e.discovered_hp_off != 0 {
        e.discovered_hp_off
    } else {
        e.entity.health
    }
}

/// The module holding the local player pointer.
pub open spec fn lp_module_base(e: EngineCore) -> u32 {
    if e.entity.local_player_on_client {
        e.client_base
    } else {
        e.hw_base
    }
}

/// Whether `addr` holds a plausible health value (0..=100).
pub open spec fn plausible_hp_at(mem: MemModel, addr: u32) -> bool {
    match i32_at(mem, addr) {
        Ok(v) => 0 <= v <= 100,
        Err(_) => false,
    }
}

/// The local player entity: first `health_direct - health_offset` when the
/// direct health reads plausibly, then the pointer at `module + rva` when the
/// health behind it reads plausibly; 0 when neither.
pub open spec fn local_player_of(mem: MemModel, e: EngineCore) -> u32 {
    let hp_off = eff_hp_off(e);
    let hd = e.entity.health_direct;
    if !e.entity.active {
        0
    } else if hd != 0 && wrap_sub(hd, hp_off) != 0 && wrap_sub(hd, hp_off) % 4 == 0
        && plausible_hp_at(mem, hd) {
        wrap_sub(hd, hp_off)
    } else if lp_module_base(e) == 0 {
        0
    } else {
        match word_at(mem, wrap_add(lp_module_base(e), eff_lp_rva(e))) {
            Err(_) => 0,
            Ok(p) => if p == 0 || p % 4 != 0 {
                0
            } else if plausible_hp_at(mem, wrap_add(p, hp_off)) {
                p
            } else {
                0
            },
        }
    }
}

/// The engine after looking for the local player when it is not found.
pub open spec fn after_discover(mem: MemModel, e: EngineCore) -> EngineCore {
    if !e.entity.active || local_player_of(mem, e) != 0 {
        e
    } else {
        match crate::local_player::discover_spec(
            mem,
            lp_module_base(e),
            eff_lp_rva(e),
            eff_hp_off(e),
            e.entity.local_player_on_client,
        ) {
            Some(f) => EngineCore {
                discovered_lp_rva: f.rva,
                discovered_hp_off: f.health_offset,
                last_resolved: ResolvedInfo { local_player: f.player, ..e.last_resolved },
                ..e
            },
            None => e,
        }
    }
}

/// The engine after re-resolving the money chain, if it has no address.
pub open spec fn after_refresh_money(mem: MemModel, e: EngineCore) -> EngineCore {
    if e.money_hw_addr != 0 {
        e
    } else {
        EngineCore { money_hw_addr: money_target(mem, e), ..e }
    }
}

/// The engine after re-choosing the reserve address, unless it still reads.
pub open spec fn after_refresh_reserve(mem: MemModel, e: EngineCore) -> EngineCore {
    if e.reserve_addr != 0 && i32_at(mem, e.reserve_addr) is Ok {
        e
    } else {
        EngineCore { reserve_addr: reserve_pick(mem, e), ..e }
    }
}

/// The engine after the module bases were looked up again: a new engine base
/// re-resolves the static addresses; a new client.dll base recomputes the
/// client money address and, when entity reading is on, the entity addresses.
pub open spec fn after_bases(mem: MemModel, e: EngineCore, hw: Option<u32>, client: u32) -> EngineCore {
    let e1 = match hw {
        Some(h) => if h != e.hw_base {
            with_static(mem, EngineCore { hw_base: h, ..e })
        } else {
            e
        },
        None => e,
    };
    if client != e1.client_base {
        EngineCore {
            client_base: client,
            client_money_addr: client_money_for(e1.config, client),
            entity: if e1.entity.active {
                entity_addrs_spec(e1.config.entity, client)
            } else {
                e1.entity
            },
            ..e1
        }
    } else {
        e1
    }
}

impl EngineCore {
    /// Resolves the hw.dll money chain; 0 when it does not resolve.
    pub fn try_resolve_money_hw<F: Fn(u32) -> Option<u32>>(&self, read: &F) -> (a: u32)
        requires
            reader_total(read),
        ensures
            forall|mem: MemModel| #[trigger] reads_agree(read, mem) ==> a == money_target(mem, *self),
    {
        match resolve_chain_addr(read, self.hw_base, &self.config.chains.money_hw) {
            Some(a) => a,
            None => 0,
        }
    }

    /// Resolves the reserve chain; 0 when it does not resolve.
    pub fn try_resolve_reserve<F: Fn(u32) -> Option<u32>>(&self, read: &F) -> (a: u32)
        requires
            reader_total(read),
        ensures
            forall|mem: MemModel| #[trigger]
                reads_agree(read, mem) ==> a == reserve_primary(mem, *self),
    {
        match resolve_chain_addr(read, self.hw_base, &self.config.chains.reserve) {
            Some(a) => a,
            None => 0,
        }
    }

    /// Resolves the clip chain that holds the reserve; 0 when absent or broken.
    pub fn try_resolve_reserve_from_clip_chains<F: Fn(u32) -> Option<u32>>(&self, read: &F) -> (a: u32)
        requires
            reader_total(read),
        ensures
            forall|mem: MemModel| #[trigger]
                reads_agree(read, mem) ==> a == reserve_fallback(mem, *self),
    {
        let idx = self.config.chains.reserve_clip_index;
        if idx < self.config.chains.clip.len() {
            match resolve_chain_addr(read, self.hw_base, &self.config.chains.clip[idx]) {
                Some(a) => a,
                None => 0,
            }
        } else {
            0
        }
    }

    fn score_reserve<F: Fn(u32) -> Option<u32>>(read: &F, addr: u32, max: i32) -> (s: i64)
        requires
            reader_total(read),
        ensures
            forall|mem: MemModel| #[trigger]
                reads_agree(read, mem) ==> s == reserve_score(mem, addr, max),
    {
        if addr == 0 {
            return -1;
        }
        match read_i32(read, addr) {
            Ok(v) => if 1 <= v && v < max {
                v as i64 + 10_000
            } else if v == 0 {
                100
            } else {
                50
            },
            Err(_) => -1,
        }
    }

    /// Chooses the reserve address between the reserve chain and its clip-chain
    /// fallback, by what each address holds.
    pub fn pick_reserve_addr<F: Fn(u32) -> Option<u32>>(&self, read: &F) -> (a: u32)
        requires
            reader_total(read),
        ensures
            forall|mem: MemModel| #[trigger] reads_agree(read, mem) ==> a == reserve_pick(mem, *self),
    {
        let primary = self.try_resolve_reserve(read);
        let fallback = self.try_resolve_reserve_from_clip_chains(read);
        let max = self.config.clip_detection.max_value;
        let ps = Self::score_reserve(read, primary, max);
        let fs = Self::score_reserve(read, fallback, max);
        if fs > ps {
            fallback
        } else if ps >= 0 {
            primary
        } else if fs >= 0 {
            fallback
        } else {
            0
        }
    }

    /// Resolves the money chain, the reserve address and the client money address.
    pub fn resolve_static_addresses<F: Fn(u32) -> Option<u32>>(&mut self, read: &F)
        requires
            reader_total(read),
        ensures
            forall|mem: MemModel| #[trigger]
                reads_agree(read, mem) ==> *final(self) == with_static(mem, *old(self)),
            final(self).config == old(self).config,
            final(self).last_money_source == old(self).last_money_source,
            keeps_tick_state(*old(self), *final(self)),
    {
        let m = self.try_resolve_money_hw(read);
        let r = self.pick_reserve_addr(read);
        let c = if self.client_base != 0 {
            match parse_hex_u32(self.config.chains.money_client_fallback.direct_rva.as_str()) {
                Ok(rva) => self.client_base.wrapping_add(rva),
                Err(_) => 0,
            }
        } else {
            0
        };
        self.money_hw_addr = m;
        self.reserve_addr = r;
        self.client_money_addr = c;
    }

    /// The local player RVA in use.
    pub fn effective_lp_rva(&self) -> (r: u32)
        ensures
            r == eff_lp_rva(*self),
    {
        if self.discovered_lp_rva != 0 {
            self.discovered_lp_rva
        } else {
            self.entity.local_player_ptr
        }
    }

    /// The health offset in use.
    pub fn effective_hp_off(&self) -> (r: u32)
        ensures
            r == eff_hp_off(*self),
    {
        if self.discovered_hp_off != 0 {
            self.discovered_hp_off
        } else {
            self.entity.health
        }
    }

    /// The module holding the local player pointer.
    pub fn entity_module_base(&self) -> (r: u32)
        ensures
            r == lp_module_base(*self),
    {
        if self.entity.local_player_on_client {
            self.client_base
        } else {
            self.hw_base
        }
    }

    fn plausible_hp<F: Fn(u32) -> Option<u32>>(read: &F, addr: u32) -> (b: bool)
        requires
            reader_total(read),
        ensures
            forall|mem: MemModel| #[trigger] reads_agree(read, mem) ==> b == plausible_hp_at(mem, addr),
    {
        match read_i32(read, addr) {
            Ok(v) => 0 <= v && v <= 100,
            Err(_) => false,
        }
    }

    /// Finds the local player entity, 0 when it cannot be verified.
    pub fn resolve_local_player_ptr<F: Fn(u32) -> Option<u32>>(&self, read: &F) -> (p: u32)
        requires
            reader_total(read),
        ensures
            forall|mem: MemModel| #[trigger] reads_agree(read, mem) ==> p == local_player_of(mem, *self),
    {
        if !self.entity.active {
            return 0;
        }
        let hp_off = self.effective_hp_off();
        let hd = self.entity.health_direct;
        if hd != 0 {
            let player = hd.wrapping_sub(hp_off);
            assert((player & 3 == 0) == (player % 4 == 0)) by (bit_vector);
            if player != 0 && (player & 3) == 0 {
                if Self::plausible_hp(read, hd) {
                    return player;
                }
            }
        }
        let module_base = self.entity_module_base();
        if module_base == 0 {
            return 0;
        }
        let ptr_addr = module_base.wrapping_add(self.effective_lp_rva());
        let player = match read_word(read, ptr_addr) {
            Ok(p) => p,
            Err(_) => {
                return 0;
            },
        };
        assert((player & 3 != 0) == (player % 4 != 0)) by (bit_vector);
        if player == 0 || player & 3 != 0 {
            return 0;
        }
        if Self::plausible_hp(read, player.wrapping_add(hp_off)) {
            player
        } else {
            0
        }
    }

    /// Looks for the local player when entity reading is on and it is not found.
    pub fn discover_local_player_if_needed<F: Fn(u32) -> Option<u32>>(&mut self, read: &F)
        requires
            reader_total(read),
        ensures
            forall|mem: MemModel| #[trigger]
                reads_agree(read, mem) ==> *final(self) == after_discover(mem, *old(self)),
            final(self).config == old(self).config,
            final(self).last_money_source == old(self).last_money_source,
            keeps_tick_state(*old(self), *final(self)),
    {
        if !self.entity.active {
            return ;
        }
        let player = self.resolve_local_player_ptr(read);
        if player != 0 {
            return ;
        }
        let config_rva = self.effective_lp_rva();
        let config_hp = self.effective_hp_off();
        let base = self.entity_module_base();
        match crate::local_player::discover(
            read,
            base,
            config_rva,
            config_hp,
            self.entity.local_player_on_client,
        ) {
            Some(found) => {
                self.discovered_lp_rva = found.rva;
                self.discovered_hp_off = found.health_offset;
                self.last_resolved.local_player = found.player;
            },
            None => {},
        }
    }

    /// Resolves the money chain again if it has no address.
    pub fn refresh_money_hw_if_needed<F: Fn(u32) -> Option<u32>>(&mut self, read: &F)
        requires
            reader_total(read),
        ensures
            forall|mem: MemModel| #[trigger]
                reads_agree(read, mem) ==> *final(self) == after_refresh_money(mem, *old(self)),
            final(self).config == old(self).config,
            final(self).last_money_source == old(self).last_money_source,
            keeps_tick_state(*old(self), *final(self)),
    {
        if self.money_hw_addr != 0 {
            return ;
        }
        self.money_hw_addr = self.try_resolve_money_hw(read);
    }

    /// Chooses the reserve address again unless the current one still reads.
    pub fn refresh_reserve_if_needed<F: Fn(u32) -> Option<u32>>(&mut self, read: &F)
        requires
            reader_total(read),
        ensures
            forall|mem: MemModel| #[trigger]
                reads_agree(read, mem) ==> *final(self) == after_refresh_reserve(mem, *old(self)),
            final(self).config == old(self).config,
            final(self).last_money_source == old(self).last_money_source,
            keeps_tick_state(*old(self), *final(self)),
    {
        if self.reserve_addr != 0 {
            if read_i32(read, self.reserve_addr).is_ok() {
                return ;
            }
        }
        self.reserve_addr = self.pick_reserve_addr(read);
    }
}

/// What a money read gives: the value shown, whether it read, where it came
/// from, and the write toward the target, if any.  The player entity comes
/// first, then the hw.dll chain, then the client.dll direct address.
pub open spec fn money_read(mem: MemModel, e: EngineCore, player: u32, write: bool, enabled: bool, target: i32) -> (
    i32,
    bool,
    Seq<char>,
    Option<MemWrite>,
) {
    let entity_addr = wrap_add(player, e.entity.money);
    if !enabled {
        (0, false, Seq::empty(), None)
    } else if player != 0 && e.entity.active && i32_at(mem, entity_addr) is Ok {
        let w = write_toward(write, entity_addr, i32_at(mem, entity_addr)->Ok_0, target);
        (w.0, true, "entity"@, w.1)
    } else if e.money_hw_addr != 0 && i32_at(mem, e.money_hw_addr) is Ok {
        let w = write_toward(write, e.money_hw_addr, i32_at(mem, e.money_hw_addr)->Ok_0, target);
        (w.0, true, "chain_hw"@, w.1)
    } else if e.client_money_addr != 0 && i32_at(mem, e.client_money_addr) is Ok {
        let w = write_toward(write, e.client_money_addr, i32_at(mem, e.client_money_addr)->Ok_0, target);
        (w.0, true, "client_direct"@, w.1)
    } else {
        (0, false, Seq::empty(), None)
    }
}

/// A magazine value is accepted when it is positive and lies in `[min, max)`.
pub open spec fn accepted(v: i32, min: i32, max: i32) -> bool {
    0 < v && min <= v < max
}

/// The best of the candidate `(address, value)` pairs: the highest accepted
/// value, the first one on a tie; `(0, 0)` when none is accepted.
pub open spec fn best_of(cands: Seq<(u32, i32)>, min: i32, max: i32) -> (u32, i32)
    decreases cands.len(),
{
    if cands.len() == 0 {
        (0, 0)
    } else {
        let prev = best_of(cands.drop_last(), min, max);
        let c = cands.last();
        if accepted(c.1, min, max) && (prev.0 == 0 || c.1 > prev.1) {
            c
        } else {
            prev
        }
    }
}

/// Picks the magazine among the candidates read from the clip chains (see `best_of`).
pub fn best_magazine(cands: &[(u32, i32)], range: &ClipDetectionConfig) -> (r: (u32, i32))
    ensures
        r == best_of(cands@, range.min_value, range.max_value),
{
    let min = range.min_value;
    let max = range.max_value;
    let mut best: (u32, i32) = (0, 0);
    let mut i: usize = 0;
    while i < cands.len()
        invariant
            i <= cands@.len(),
            min == range.min_value,
            max == range.max_value,
            best == best_of(cands@.take(i as int), min, max),
        decreases cands@.len() - i,
    {
        assert(cands@.take(i as int + 1).drop_last() =~= cands@.take(i as int));
        let c = cands[i];
        if c.1 > 0 && c.1 >= min && c.1 < max && (best.0 == 0 || c.1 > best.1) {
            best = c;
        }
        i = i + 1;
    }
    assert(cands@.take(cands@.len() as int) =~= cands@);
    best
}

/// The values read from the first `n` clip chains, the reserve chain
/// excluded, each with its address; chains that do not resolve or read are left out.
pub open spec fn magazine_cands(mem: MemModel, hw_base: u32, chains: Seq<PointerChainConfig>, skip: usize, n: nat) -> Seq<(u32, i32)>
    decreases n,
{
    if n == 0 {
        Seq::empty()
    } else {
        let prev = magazine_cands(mem, hw_base, chains, skip, (n - 1) as nat);
        let i = n - 1;
        if i == skip {
            prev
        } else {
            match chain_target(mem, hw_base, chains[i]) {
                Some(a) => match i32_at(mem, a) {
                    Ok(v) => prev.push((a, v)),
                    Err(_) => prev,
                },
                None => prev,
            }
        }
    }
}

/// The best magazine among the first `n` clip chains (the reserve chain
/// excluded): the highest accepted value, the first one on a tie; `(0, 0)`
/// when none.
pub open spec fn magazine_pick(mem: MemModel, hw_base: u32, chains: Seq<PointerChainConfig>, skip: usize, min: i32, max: i32, n: nat) -> (
    u32,
    i32,
) {
    best_of(magazine_cands(mem, hw_base, chains, skip, n), min, max)
}

/// The clip address and value: the best magazine, else the reserve's clip
/// chain when its value is accepted; `(0, 0)` when neither.
pub open spec fn clip_pick(mem: MemModel, e: EngineCore) -> (u32, i32) {
    let chains = e.config.chains.clip@;
    let skip = e.config.chains.reserve_clip_index;
    let min = e.config.clip_detection.min_value;
    let max = e.config.clip_detection.max_value;
    let best = magazine_pick(mem, e.hw_base, chains, skip, min, max, chains.len());
    if best.0 == 0 && skip < chains.len() {
        match chain_target(mem, e.hw_base, chains[skip as int]) {
            Some(a) => match i32_at(mem, a) {
                Ok(v) => if accepted(v, min, max) {
                    (a, v)
                } else {
                    best
                },
                Err(_) => best,
            },
            None => best,
        }
    } else {
        best
    }
}

/// The writes that set the clip at `addr` to `target`: the clip itself and,
/// with HUD sync, the HUD copy in the same weapon structure.
pub open spec fn clip_writes(e: EngineCore, addr: u32, target: i32) -> Seq<MemWrite> {
    let clip_off = hex_or(e.config.hud_sync.clip_struct_offset@, 0xCC);
    let hud_off = hex_or(e.config.hud_sync.hud_clip_offset@, 0xD0);
    let first = seq![MemWrite { address: addr, value: target }];
    if e.config.hud_sync.enabled {
        first.push(MemWrite { address: wrap_add(wrap_sub(addr, clip_off), hud_off), value: target })
    } else {
        first
    }
}

/// What a clip read gives: value shown, whether it read, its address, and the writes.
pub open spec fn clip_read(mem: MemModel, e: EngineCore, write: bool, target: i32) -> (
    i32,
    bool,
    u32,
    Seq<MemWrite>,
) {
    let f = e.config.features;
    let (a, v) = clip_pick(mem, e);
    if !f.clip_enabled || a == 0 {
        (0, false, 0, Seq::empty())
    } else if write && f.clip_write_enabled && v != target {
        (target, true, a, clip_writes(e, a, target))
    } else {
        (v, true, a, Seq::empty())
    }
}

/// What a reserve read gives: value shown, whether it read, and the write.
pub open spec fn reserve_read(mem: MemModel, e: EngineCore, write: bool, target: i32) -> (
    i32,
    bool,
    Option<MemWrite>,
) {
    let f = e.config.features;
    if !f.reserve_enabled || e.reserve_addr == 0 {
        (0, false, None)
    } else {
        match i32_at(mem, e.reserve_addr) {
            Ok(v) => if write && f.reserve_write_enabled && v != target {
                (target, true, Some(MemWrite { address: e.reserve_addr, value: target }))
            } else {
                (v, true, None)
            },
            Err(_) => (0, false, None),
        }
    }
}

/// The counters read in one tick, and the writes to perform.
#[derive(Debug, Clone)]
pub struct TickReads {
    pub money: i32,
    pub money_ok: bool,
    pub clip: i32,
    pub clip_ok: bool,
    pub reserve: i32,
    pub reserve_ok: bool,
    /// In order: money, clip, HUD clip, reserve.
    pub writes: Vec<MemWrite>,
}

/// The counters shown after a tick.
#[derive(Debug, Clone, Copy, Default, PartialEq, Eq, Structural)]
pub struct Counters {
    pub money: i32,
    pub clip: i32,
    pub reserve: i32,
    pub money_valid: bool,
    pub clip_valid: bool,
    pub reserve_valid: bool,
    pub ready: bool,
}

/// An optional write as a sequence.
pub open spec fn opt_seq(w: Option<MemWrite>) -> Seq<MemWrite> {
    match w {
        Some(x) => seq![x],
        None => Seq::empty(),
    }
}

/// The addresses a vital is tried at, in order: the direct address when set,
/// then `player + field_off` when the entity is active and the player known.
pub open spec fn vital_sources(enabled: bool, direct: u32, player: u32, active: bool, field_off: u32) -> Seq<u32> {
    if !enabled {
        Seq::empty()
    } else {
        (if direct != 0 { seq![direct] } else { Seq::empty() }) + (if player != 0 && active {
            seq![wrap_add(player, field_off)]
        } else {
            Seq::empty()
        })
    }
}

fn vital_sources_vec(enabled: bool, direct: u32, player: u32, active: bool, field_off: u32) -> (v: Vec<u32>)
    ensures
        v@ == vital_sources(enabled, direct, player, active, field_off),
{
    let mut v: Vec<u32> = Vec::new();
    if enabled {
        if direct != 0 {
            v.push(direct);
        }
        if player != 0 && active {
            v.push(player.wrapping_add(field_off));
        }
    }
    assert(v@ =~= vital_sources(enabled, direct, player, active, field_off));
    v
}

/// The address the health is read from.
pub open spec fn hp_addr_of(e: EngineCore, player: u32, hp_on: bool) -> u32 {
    if hp_on && e.entity.health_direct != 0 {
        e.entity.health_direct
    } else if player != 0 && e.entity.active {
        wrap_add(player, eff_hp_off(e))
    } else {
        0
    }
}

/// The address the armor is read from.
pub open spec fn armor_addr_of(e: EngineCore, player: u32, armor_on: bool) -> u32 {
    if armor_on && e.entity.armor_direct != 0 {
        e.entity.armor_direct
    } else if player != 0 && e.entity.active {
        wrap_add(player, e.entity.armor)
    } else {
        0
    }
}

/// The engine at the start of a tick: bases, money chain, reserve address and
/// local player refreshed, the local player recorded.
pub open spec fn tick_start(mem: MemModel, e: EngineCore, hw: Option<u32>, client: u32) -> EngineCore {
    let e4 = after_discover(
        mem,
        after_refresh_reserve(mem, after_refresh_money(mem, after_bases(mem, e, hw, client))),
    );
    EngineCore {
        last_resolved: ResolvedInfo {
            local_player: local_player_of(mem, e4),
            hw_base: e4.hw_base,
            client_base: e4.client_base,
            ..e4.last_resolved
        },
        ..e4
    }
}

/// The result of the counter reads of a tick.
pub open spec fn tick_reads_spec(mem: MemModel, e: EngineCore, player: u32, alive: bool, r: TickReads) -> bool {
    let f = e.config.features;
    let t = e.config.targets;
    let m = money_read(mem, e, player, f.write_enabled, f.money_enabled, t.money);
    let c = clip_read(mem, e, f.write_enabled && alive, t.clip);
    let v = reserve_read(mem, e, f.write_enabled && alive, t.reserve);
    &&& r.money == m.0 && r.money_ok == m.1
    &&& r.clip == c.0 && r.clip_ok == c.1
    &&& r.reserve == v.0 && r.reserve_ok == v.1
    &&& r.writes@ == opt_seq(m.3) + c.3 + opt_seq(v.2)
}

/// The engine after the counter reads of a tick: sources and addresses recorded.
pub open spec fn after_reads(mem: MemModel, e: EngineCore, player: u32, hp_on: bool, armor_on: bool, alive: bool, s: EngineCore) -> bool {
    let f = e.config.features;
    let t = e.config.targets;
    let m = money_read(mem, e, player, f.write_enabled, f.money_enabled, t.money);
    let c = clip_read(mem, e, f.write_enabled && alive, t.clip);
    &&& s.last_money_source@ == m.2
    &&& s == EngineCore {
        last_money_source: s.last_money_source,
        last_resolved: ResolvedInfo {
            hp_addr: hp_addr_of(e, player, hp_on),
            armor_addr: armor_addr_of(e, player, armor_on),
            money_addr: if e.money_hw_addr != 0 {
                e.money_hw_addr
            } else {
                e.client_money_addr
            },
            clip_addr: c.2,
            reserve_addr: e.reserve_addr,
            ..e.last_resolved
        },
        ..e
    }
}

/// The engine at the end of a tick: stale counter, cache and readiness.
pub open spec fn tick_end(e: EngineCore, r: TickReads, hp_on: bool, armor_on: bool, pos_on: bool) -> EngineCore {
    let got = r.money_ok || r.clip_ok || r.reserve_ok || hp_on || armor_on || pos_on;
    let cache = merged(e.cache, r.money_ok, r.money, r.clip_ok, r.clip, r.reserve_ok, r.reserve);
    EngineCore {
        stale: next_stale(e.stale, got, e.config.features),
        cache,
        display_ready: e.display_ready || cache_ready(cache, e.config.features),
        ..e
    }
}

/// The counters a finished tick shows.
pub open spec fn counters_of(e: EngineCore) -> Counters {
    Counters {
        money: e.cache.money,
        clip: e.cache.clip,
        reserve: e.cache.reserve,
        money_valid: e.cache.money_valid,
        clip_valid: e.cache.clip_valid,
        reserve_valid: e.cache.reserve_valid,
        ready: e.display_ready,
    }
}

/// A fresh engine before any memory is read.
pub open spec fn initial_engine(config: AppConfig, hw_base: u32, client_base: u32, source: String) -> EngineCore {
    EngineCore {
        config,
        hw_base,
        client_base,
        money_hw_addr: 0,
        reserve_addr: 0,
        client_money_addr: 0,
        entity: if config.entity.enabled {
            entity_addrs_spec(config.entity, client_base)
        } else {
            inactive_entity()
        },
        discovered_lp_rva: 0,
        discovered_hp_off: 0,
        stale: 0,
        cache: Cache {
            money: 0,
            money_valid: false,
            clip: 0,
            clip_valid: false,
            reserve: 0,
            reserve_valid: false,
        },
        display_ready: false,
        last_money_source: source,
        last_resolved: ResolvedInfo {
            hw_base: 0,
            client_base: 0,
            local_player: 0,
            money_addr: 0,
            reserve_addr: 0,
            clip_addr: 0,
            hp_addr: 0,
            armor_addr: 0,
            pos_addr: 0,
        },
    }
}

impl EngineCore {
    /// Builds the engine for a freshly attached process whose engine module is
    /// at `hw_base` and client.dll at `client_base` (0 when not loaded):
    /// parses the entity section, resolves the static addresses and looks for
    /// the local player.
    pub fn open<F: Fn(u32) -> Option<u32>>(config: AppConfig, hw_base: u32, client_base: u32, read: &F) -> (e: Self)
        requires
            reader_total(read),
        ensures
            e.config == config,
            forall|mem: MemModel| #[trigger]
                reads_agree(read, mem) ==> e == after_discover(
                    mem,
                    with_static(mem, initial_engine(config, hw_base, client_base, e.last_money_source)),
                ),
            e.last_money_source@ == Seq::<char>::empty(),
    {
        let entity = if config.entity.enabled {
            parse_entity_addrs(&config.entity, client_base)
        } else {
            EntityAddrs::default()
        };
        let mut engine = EngineCore {
            config,
            hw_base,
            client_base,
            money_hw_addr: 0,
            reserve_addr: 0,
            client_money_addr: 0,
            entity,
            discovered_lp_rva: 0,
            discovered_hp_off: 0,
            stale: 0,
            cache: Cache {
                money: 0,
                money_valid: false,
                clip: 0,
                clip_valid: false,
                reserve: 0,
                reserve_valid: false,
            },
            display_ready: false,
            last_money_source: String::new(),
            last_resolved: ResolvedInfo {
                hw_base: 0,
                client_base: 0,
                local_player: 0,
                money_addr: 0,
                reserve_addr: 0,
                clip_addr: 0,
                hp_addr: 0,
                armor_addr: 0,
                pos_addr: 0,
            },
        };
        engine.resolve_static_addresses(read);
        engine.discover_local_player_if_needed(read);
        engine
    }
}

impl EngineCore {
    /// Takes the module bases looked up this tick: `hw` is the engine module
    /// (`None` when neither hw.dll nor sw.dll was found), `client` client.dll
    /// (0 when not loaded).
    pub fn refresh_bases<F: Fn(u32) -> Option<u32>>(&mut self, read: &F, hw: Option<u32>, client: u32)
        requires
            reader_total(read),
        ensures
            forall|mem: MemModel| #[trigger]
                reads_agree(read, mem) ==> *final(self) == after_bases(mem, *old(self), hw, client),
            final(self).config == old(self).config,
            final(self).last_money_source == old(self).last_money_source,
            keeps_tick_state(*old(self), *final(self)),
    {
        match hw {
            Some(h) => {
                if h != self.hw_base {
                    self.hw_base = h;
                    self.resolve_static_addresses(read);
                }
            },
            None => {},
        }
        if client != self.client_base {
            self.client_base = client;
            self.client_money_addr = if client != 0 {
                match parse_hex_u32(self.config.chains.money_client_fallback.direct_rva.as_str()) {
                    Ok(rva) => client.wrapping_add(rva),
                    Err(_) => 0,
                }
            } else {
                0
            };
            if self.entity.active {
                self.entity = parse_entity_addrs(&self.config.entity, client);
            }
        }
    }

    /// The first part of a tick: refreshes bases and addresses and finds the
    /// local player, which it returns (0 when not found).
    pub fn begin_tick<F: Fn(u32) -> Option<u32>>(&mut self, read: &F, hw: Option<u32>, client: u32) -> (player: u32)
        requires
            reader_total(read),
        ensures
            forall|mem: MemModel| #[trigger]
                reads_agree(read, mem) ==> *final(self) == tick_start(mem, *old(self), hw, client)
                    && player == final(self).last_resolved.local_player,
            final(self).config == old(self).config,
            final(self).last_money_source == old(self).last_money_source,
            keeps_tick_state(*old(self), *final(self)),
    {
        self.refresh_bases(read, hw, client);
        self.refresh_money_hw_if_needed(read);
        self.refresh_reserve_if_needed(read);
        if self.entity.active {
            let probe = self.resolve_local_player_ptr(read);
            if probe == 0 {
                self.discover_local_player_if_needed(read);
            }
        }
        let player = self.resolve_local_player_ptr(read);
        self.last_resolved.local_player = player;
        self.last_resolved.hw_base = self.hw_base;
        self.last_resolved.client_base = self.client_base;
        player
    }

    fn read_money<F: Fn(u32) -> Option<u32>>(&self, read: &F, player: u32, write: bool, enabled: bool, target: i32) -> (r: (i32, bool, String, Option<MemWrite>))
        requires
            reader_total(read),
        ensures
            forall|mem: MemModel| #[trigger]
                reads_agree(read, mem) ==> {
                    let m = money_read(mem, *self, player, write, enabled, target);
                    r.0 == m.0 && r.1 == m.1 && r.2@ == m.2 && r.3 == m.3
                },
            !write ==> r.3 is None,
            r.3 matches Some(w) ==> w.value == target,
    {
        if !enabled {
            return (0, false, String::new(), None);
        }
        if player != 0 && self.entity.active {
            let addr = player.wrapping_add(self.entity.money);
            match read_i32(read, addr) {
                Ok(v) => {
                    let (shown, w) = apply_write_i32(write, addr, v, target);
                    return (shown, true, String::from_str("entity"), w);
                },
                Err(_) => {},
            }
        }
        if self.money_hw_addr != 0 {
            match read_i32(read, self.money_hw_addr) {
                Ok(v) => {
                    let (shown, w) = apply_write_i32(write, self.money_hw_addr, v, target);
                    return (shown, true, String::from_str("chain_hw"), w);
                },
                Err(_) => {},
            }
        }
        if self.client_money_addr != 0 {
            match read_i32(read, self.client_money_addr) {
                Ok(v) => {
                    let (shown, w) = apply_write_i32(write, self.client_money_addr, v, target);
                    return (shown, true, String::from_str("client_direct"), w);
                },
                Err(_) => {},
            }
        }
        (0, false, String::new(), None)
    }

    /// The indices of the magazine chains: every clip chain but the reserve one.
    pub fn clip_chain_indices(&self) -> (v: Vec<usize>)
        ensures
            forall|i: int| 0 <= i < v@.len() ==> v@[i] < self.config.chains.clip@.len()
                && v@[i] != self.config.chains.reserve_clip_index,
            forall|k: usize| k < self.config.chains.clip@.len() && k != self.config.chains.reserve_clip_index
                ==> v@.contains(k),
            forall|i: int, j: int| 0 <= i < j < v@.len() ==> v@[i] < v@[j],
    {
        let skip = self.config.chains.reserve_clip_index;
        let n = self.config.chains.clip.len();
        let mut v: Vec<usize> = Vec::new();
        let mut i: usize = 0;
        while i < n
            invariant
                n == self.config.chains.clip@.len(),
                skip == self.config.chains.reserve_clip_index,
                i <= n,
                forall|k: int| 0 <= k < v@.len() ==> v@[k] < i && v@[k] != skip,
                forall|k: usize| k < i && k != skip ==> v@.contains(k),
                forall|a: int, b: int| 0 <= a < b < v@.len() ==> v@[a] < v@[b],
            decreases n - i,
        {
            let ghost old_v = v@;
            if i != skip {
                v.push(i);
                assert(v@[v@.len() - 1] == i);
            }
            assert forall|k: usize| k < i + 1 && k != skip implies v@.contains(k) by {
                if k < i {
                    assert(old_v.contains(k));
                    let j = choose|j: int| 0 <= j < old_v.len() && old_v[j] == k;
                    assert(v@[j] == k);
                } else {
                    assert(v@[v@.len() - 1] == k);
                }
            }
            i = i + 1;
        }
        v
    }

    fn read_chain_value<F: Fn(u32) -> Option<u32>>(read: &F, hw_base: u32, chain: &PointerChainConfig) -> (r: Option<(u32, i32)>)
        requires
            reader_total(read),
        ensures
            forall|mem: MemModel| #[trigger]
                reads_agree(read, mem) ==> r == match chain_target(mem, hw_base, *chain) {
                    Some(a) => match i32_at(mem, a) {
                        Ok(v) => Some((a, v)),
                        Err(_) => None,
                    },
                    None => None,
                },
    {
        match resolve_chain_addr(read, hw_base, chain) {
            Some(a) => match read_i32(read, a) {
                Ok(v) => Some((a, v)),
                Err(_) => None,
            },
            None => None,
        }
    }

    fn read_clip<F: Fn(u32) -> Option<u32>>(&self, read: &F, write: bool, target: i32) -> (r: (i32, bool, u32, Vec<MemWrite>))
        requires
            reader_total(read),
        ensures
            forall|mem: MemModel| #[trigger]
                reads_agree(read, mem) ==> {
                    let c = clip_read(mem, *self, write, target);
                    r.0 == c.0 && r.1 == c.1 && r.2 == c.2 && r.3@ == c.3
                },
            !write ==> r.3@.len() == 0,
            forall|i: int| 0 <= i < r.3@.len() ==> (#[trigger] r.3@[i]).value == target,
    {
        if !self.config.features.clip_enabled {
            return (0, false, 0, Vec::new());
        }
        let chains = &self.config.chains.clip;
        let skip = self.config.chains.reserve_clip_index;
        let min = self.config.clip_detection.min_value;
        let max = self.config.clip_detection.max_value;
        let mut cands: Vec<(u32, i32)> = Vec::new();
        let mut i: usize = 0;
        while i < chains.len()
            invariant
                reader_total(read),
                chains == &self.config.chains.clip,
                skip == self.config.chains.reserve_clip_index,
                i <= chains@.len(),
                forall|mem: MemModel| #[trigger]
                    reads_agree(read, mem) ==> cands@ == magazine_cands(
                        mem,
                        self.hw_base,
                        chains@,
                        skip,
                        i as nat,
                    ),
            decreases chains@.len() - i,
        {
            if i != skip {
                match Self::read_chain_value(read, self.hw_base, &chains[i]) {
                    Some(c) => {
                        cands.push(c);
                    },
                    None => {},
                }
            }
            i = i + 1;
        }
        let best = best_magazine(cands.as_slice(), &self.config.clip_detection);
        let mut best_addr: u32 = best.0;
        let mut best_val: i32 = best.1;
        if best_addr == 0 && skip < chains.len() {
            match Self::read_chain_value(read, self.hw_base, &chains[skip]) {
                Some((a, v)) => {
                    if v > 0 && v >= min && v < max {
                        best_val = v;
                        best_addr = a;
                    }
                },
                None => {},
            }
        }
        if best_addr == 0 {
            return (0, false, 0, Vec::new());
        }
        if write && self.config.features.clip_write_enabled && best_val != target {
            let clip_off = match parse_hex_u32(self.config.hud_sync.clip_struct_offset.as_str()) {
                Ok(v) => v,
                Err(_) => 0xCC,
            };
            let hud_off = match parse_hex_u32(self.config.hud_sync.hud_clip_offset.as_str()) {
                Ok(v) => v,
                Err(_) => 0xD0,
            };
            let mut writes: Vec<MemWrite> = Vec::new();
            writes.push(MemWrite { address: best_addr, value: target });
            if self.config.hud_sync.enabled {
                let weapon = best_addr.wrapping_sub(clip_off);
                writes.push(MemWrite { address: weapon.wrapping_add(hud_off), value: target });
            }
            proof {
                assert forall|mem: MemModel| #[trigger] reads_agree(read, mem) implies writes@
                    == clip_writes(*self, best_addr, target) by {
                    assert(writes@ =~= clip_writes(*self, best_addr, target));
                }
            }
            (target, true, best_addr, writes)
        } else {
            (best_val, true, best_addr, Vec::new())
        }
    }

    fn read_reserve<F: Fn(u32) -> Option<u32>>(&self, read: &F, write: bool, target: i32) -> (r: (i32, bool, Option<MemWrite>))
        requires
            reader_total(read),
        ensures
            forall|mem: MemModel| #[trigger]
                reads_agree(read, mem) ==> r == reserve_read(mem, *self, write, target),
            !write ==> r.2 is None,
            r.2 matches Some(w) ==> w.value == target,
    {
        if !self.config.features.reserve_enabled || self.reserve_addr == 0 {
            return (0, false, None);
        }
        match read_i32(read, self.reserve_addr) {
            Ok(v) => if write && self.config.features.reserve_write_enabled && v != target {
                (target, true, Some(MemWrite { address: self.reserve_addr, value: target }))
            } else {
                (v, true, None)
            },
            Err(_) => (0, false, None),
        }
    }
}

impl EngineCore {
    /// The counter reads of a tick, once the local player and the vitals are
    /// known: money, clip and reserve, with the writes toward the targets
    /// (ammo is written only while the player is alive).
    pub fn read_counters<F: Fn(u32) -> Option<u32>>(&mut self, read: &F, player: u32, hp_on: bool, armor_on: bool, alive: bool) -> (r: TickReads)
        requires
            reader_total(read),
        ensures
            forall|mem: MemModel| #[trigger]
                reads_agree(read, mem) ==> tick_reads_spec(mem, *old(self), player, alive, r)
                    && after_reads(mem, *old(self), player, hp_on, armor_on, alive, *final(self)),
            final(self).config == old(self).config,
            keeps_tick_state(*old(self), *final(self)),
            !old(self).config.features.write_enabled ==> r.writes@.len() == 0,
            forall|i: int|
                0 <= i < r.writes@.len() ==> {
                    let v = (#[trigger] r.writes@[i]).value;
                    v == old(self).config.targets.money || v == old(self).config.targets.clip || v
                        == old(self).config.targets.reserve
                },
    {
        let write = self.config.features.write_enabled;
        let (money, money_ok, source, money_write) = self.read_money(
            read,
            player,
            write,
            self.config.features.money_enabled,
            self.config.targets.money,
        );
        let (clip, clip_ok, clip_addr, clip_writes) = self.read_clip(
            read,
            write && alive,
            self.config.targets.clip,
        );
        let (reserve, reserve_ok, reserve_write) = self.read_reserve(
            read,
            write && alive,
            self.config.targets.reserve,
        );
        let writes = concat_writes(money_write, clip_writes, reserve_write);
        let hp_addr = self.hp_addr_for(player, hp_on);
        let armor_addr = self.armor_addr_for(player, armor_on);
        let money_addr = if self.money_hw_addr != 0 {
            self.money_hw_addr
        } else {
            self.client_money_addr
        };
        let reserve_addr = self.reserve_addr;
        self.last_money_source = source;
        self.last_resolved = ResolvedInfo {
            hp_addr,
            armor_addr,
            money_addr,
            clip_addr,
            reserve_addr,
            ..self.last_resolved
        };
        TickReads { money, money_ok, clip, clip_ok, reserve, reserve_ok, writes }
    }

    /// Where the health is read from, in order, until a value in `0..=100`
    /// is found: the direct address when configured, then the local player's
    /// field; nothing while health reading is disabled.
    pub fn hp_sources(&self, player: u32) -> (v: Vec<u32>)
        ensures
            v@ == vital_sources(
                self.config.features.hp_enabled,
                self.entity.health_direct,
                player,
                self.entity.active,
                eff_hp_off(*self),
            ),
    {
        let off = self.effective_hp_off();
        vital_sources_vec(self.config.features.hp_enabled, self.entity.health_direct, player, self.entity.active, off)
    }

    /// Where the armor is read from, in the same order as the health.
    pub fn armor_sources(&self, player: u32) -> (v: Vec<u32>)
        ensures
            v@ == vital_sources(
                self.config.features.armor_enabled,
                self.entity.armor_direct,
                player,
                self.entity.active,
                self.entity.armor,
            ),
    {
        vital_sources_vec(self.config.features.armor_enabled, self.entity.armor_direct, player, self.entity.active, self.entity.armor)
    }

    fn hp_addr_for(&self, player: u32, hp_on: bool) -> (a: u32)
        ensures
            a == hp_addr_of(*self, player, hp_on),
    {
        if hp_on && self.entity.health_direct != 0 {
            self.entity.health_direct
        } else if player != 0 && self.entity.active {
            player.wrapping_add(self.effective_hp_off())
        } else {
            0
        }
    }

    fn armor_addr_for(&self, player: u32, armor_on: bool) -> (a: u32)
        ensures
            a == armor_addr_of(*self, player, armor_on),
    {
        if armor_on && self.entity.armor_direct != 0 {
            self.entity.armor_direct
        } else if player != 0 && self.entity.active {
            player.wrapping_add(self.entity.armor)
        } else {
            0
        }
    }

    /// The end of a tick: stale counter, value cache and readiness updated from
    /// the tick's reads and the vitals and position flags; returns the counters
    /// to show.
    pub fn finish_tick(&mut self, r: &TickReads, hp_on: bool, armor_on: bool, pos_on: bool) -> (c: Counters)
        ensures
            *final(self) == tick_end(*old(self), *r, hp_on, armor_on, pos_on),
            c == counters_of(*final(self)),
    {
        let got_data = r.money_ok || r.clip_ok || r.reserve_ok || hp_on || armor_on || pos_on;
        if got_data {
            self.stale = 0;
        } else if self.config.features.money_enabled || self.config.features.clip_enabled
            || self.config.features.reserve_enabled {
            self.stale = self.stale.saturating_add(1);
        }
        self.cache.merge(r.money_ok, r.money, r.clip_ok, r.clip, r.reserve_ok, r.reserve);
        if check_ready(self.display_ready, &self.cache, &self.config.features) {
            self.display_ready = true;
        }
        Counters {
            money: self.cache.money,
            clip: self.cache.clip,
            reserve: self.cache.reserve,
            money_valid: self.cache.money_valid,
            clip_valid: self.cache.clip_valid,
            reserve_valid: self.cache.reserve_valid,
            ready: self.display_ready,
        }
    }

    /// Whether to drop the connection, given whether the process is alive and
    /// whether its engine module was found.
    pub fn should_reconnect(&self, process_alive: bool, engine_found: bool) -> (b: bool)
        ensures
            b == reconnect_needed(process_alive, engine_found, self.stale, self.config.timing.stale_reconnect_ticks),
    {
        if !process_alive {
            return true;
        }
        if !engine_found {
            return true;
        }
        self.stale >= self.config.timing.stale_reconnect_ticks
    }

    /// The debug console's view of a tick.
    pub fn debug_snapshot(&self, c: &Counters, connected: bool, player_alive: bool) -> (d: DebugSnapshot)
        ensures
            d.connected == connected,
            d.ready == c.ready,
            d.money == c.money && d.clip == c.clip && d.reserve == c.reserve,
            d.money_valid == c.money_valid && d.clip_valid == c.clip_valid && d.reserve_valid == c.reserve_valid,
            d.write_enabled == self.config.features.write_enabled,
            d.player_alive == player_alive,
            d.money_source@ == self.last_money_source@,
    {
        DebugSnapshot {
            connected,
            ready: c.ready,
            money: c.money,
            clip: c.clip,
            reserve: c.reserve,
            money_valid: c.money_valid,
            clip_valid: c.clip_valid,
            reserve_valid: c.reserve_valid,
            write_enabled: self.config.features.write_enabled,
            player_alive,
            money_source: copy_string(&self.last_money_source),
        }
    }
}

/// Whether the `fails`-th failed connection attempt in a row is reported: the
/// first, then every twentieth.
pub fn should_log_connect_failure(fails: u32) -> (b: bool)
    ensures
        b == (fails == 1 || fails % 20 == 0),
{
    fails == 1 || fails % 20 == 0
}

/// The writes of a tick in order: money, clip (and HUD clip), reserve.
pub fn concat_writes(money: Option<MemWrite>, clip: Vec<MemWrite>, reserve: Option<MemWrite>) -> (v: Vec<MemWrite>)
    ensures
        v@ == opt_seq(money) + clip@ + opt_seq(reserve),
{
    let mut writes: Vec<MemWrite> = Vec::new();
    match money {
        Some(w) => writes.push(w),
        None => {},
    }
    let ghost before = writes@;
    let mut k: usize = 0;
    while k < clip.len()
        invariant
            k <= clip@.len(),
            writes@ == before + clip@.subrange(0, k as int),
        decreases clip@.len() - k,
    {
        writes.push(clip[k]);
        k = k + 1;
        assert(writes@ =~= before + clip@.subrange(0, k as int));
    }
    assert(clip@.subrange(0, clip@.len() as int) =~= clip@);
    match reserve {
        Some(w) => writes.push(w),
        None => {},
    }
    assert(writes@ =~= opt_seq(money) + clip@ + opt_seq(reserve));
    writes
}

/// A copy of a string.
pub fn copy_string(s: &String) -> (r: String)
    ensures
        r@ == s@,
{
    String::from_str(s.as_str())
}

// ----------------------------------------------------------------------------
// Properties of the tick
// ----------------------------------------------------------------------------

/// Once the display is ready, no later tick makes it unready.
pub proof fn lemma_ready_is_sticky(e: EngineCore, r: TickReads, hp_on: bool, armor_on: bool, pos_on: bool)
    requires
        e.display_ready,
    ensures
        tick_end(e, r, hp_on, armor_on, pos_on).display_ready,
{
}

/// Only successful reads reach the cache: a failed read keeps the value and
/// the validity the counter had, and a counter once read stays valid.
pub proof fn lemma_failed_reads_keep_values(e: EngineCore, r: TickReads, hp_on: bool, armor_on: bool, pos_on: bool)
    ensures
        ({
            let c = tick_end(e, r, hp_on, armor_on, pos_on).cache;
            &&& !r.money_ok ==> c.money == e.cache.money && c.money_valid == e.cache.money_valid
            &&& !r.clip_ok ==> c.clip == e.cache.clip && c.clip_valid == e.cache.clip_valid
            &&& !r.reserve_ok ==> c.reserve == e.cache.reserve && c.reserve_valid
                == e.cache.reserve_valid
            &&& r.money_ok ==> c.money == r.money && c.money_valid
            &&& r.clip_ok ==> c.clip == r.clip && c.clip_valid
            &&& r.reserve_ok ==> c.reserve == r.reserve && c.reserve_valid
            &&& e.cache.money_valid ==> c.money_valid
            &&& e.cache.clip_valid ==> c.clip_valid
            &&& e.cache.reserve_valid ==> c.reserve_valid
        }),
{
}

/// A tick with data resets the stale counter; a tick without data adds one
/// (saturating) while any counter is enabled; the engine asks to reconnect
/// exactly when the counter has reached the configured limit (or the process
/// or its engine module is gone).
pub proof fn lemma_stale_ticks(e: EngineCore, r: TickReads, hp_on: bool, armor_on: bool, pos_on: bool)
    ensures
        ({
            let got = r.money_ok || r.clip_ok || r.reserve_ok || hp_on || armor_on || pos_on;
            let f = e.config.features;
            let s = tick_end(e, r, hp_on, armor_on, pos_on);
            &&& got ==> s.stale == 0
            &&& !got && (f.money_enabled || f.clip_enabled || f.reserve_enabled) && e.stale
                < u32::MAX ==> s.stale == e.stale + 1
            &&& !got && !(f.money_enabled || f.clip_enabled || f.reserve_enabled) ==> s.stale
                == e.stale
            &&& reconnect_needed(true, true, s.stale, s.config.timing.stale_reconnect_ticks)
                <==> s.stale >= e.config.timing.stale_reconnect_ticks
        }),
{
}

/// Money comes from the first source that reads, in the documented order:
/// the local player's entity, then the hw.dll chain, then the client.dll
/// direct address; without writing, the value shown is the value read there.
pub proof fn lemma_money_source_order(mem: MemModel, e: EngineCore, player: u32, target: i32)
    ensures
        ({
            let m = money_read(mem, e, player, false, true, target);
            let ent = wrap_add(player, e.entity.money);
            let entity_ok = player != 0 && e.entity.active && i32_at(mem, ent) is Ok;
            let hw_ok = e.money_hw_addr != 0 && i32_at(mem, e.money_hw_addr) is Ok;
            let client_ok = e.client_money_addr != 0 && i32_at(mem, e.client_money_addr) is Ok;
            &&& entity_ok ==> m.2 == "entity"@ && m.0 == i32_at(mem, ent)->Ok_0
            &&& !entity_ok && hw_ok ==> m.2 == "chain_hw"@ && m.0 == i32_at(mem, e.money_hw_addr)->Ok_0
            &&& !entity_ok && !hw_ok && client_ok ==> m.2 == "client_direct"@ && m.0 == i32_at(
                mem,
                e.client_money_addr,
            )->Ok_0
            &&& m.1 == (entity_ok || hw_ok || client_ok)
            &&& m.3 is None
        }),
{
}

/// Over a whole tick (`begin_tick`, `read_counters`, `finish_tick` on the
/// engine `e0`, giving `e1`, `e2` and `e3`), whatever the target's memory did
/// meanwhile: readiness never goes back, a counter that did not read keeps its
/// value and validity from before the tick, the stale count is reset by data
/// and otherwise counts on, and with writing off the tick writes nothing.
pub proof fn lemma_whole_tick(
    e0: EngineCore,
    e1: EngineCore,
    e2: EngineCore,
    r: TickReads,
    hp_on: bool,
    armor_on: bool,
    pos_on: bool,
)
    requires
        keeps_tick_state(e0, e1),
        e1.config == e0.config,
        keeps_tick_state(e1, e2),
        e2.config == e1.config,
        !e1.config.features.write_enabled ==> r.writes@.len() == 0,
    ensures
        ({
            let e3 = tick_end(e2, r, hp_on, armor_on, pos_on);
            let got = r.money_ok || r.clip_ok || r.reserve_ok || hp_on || armor_on || pos_on;
            let f = e0.config.features;
            &&& e0.display_ready ==> e3.display_ready
            &&& !r.money_ok ==> e3.cache.money == e0.cache.money && e3.cache.money_valid == e0.cache.money_valid
            &&& !r.clip_ok ==> e3.cache.clip == e0.cache.clip && e3.cache.clip_valid == e0.cache.clip_valid
            &&& !r.reserve_ok ==> e3.cache.reserve == e0.cache.reserve && e3.cache.reserve_valid
                == e0.cache.reserve_valid
            &&& r.money_ok ==> e3.cache.money == r.money && e3.cache.money_valid
            &&& r.clip_ok ==> e3.cache.clip == r.clip && e3.cache.clip_valid
            &&& r.reserve_ok ==> e3.cache.reserve == r.reserve && e3.cache.reserve_valid
            &&& e3.stale == next_stale(e0.stale, got, f)
            &&& !f.write_enabled ==> r.writes@.len() == 0
        }),
{
}

/// Writing never changes a value that is already at its target, so a second
/// tick over unchanged memory writes nothing there.
pub proof fn lemma_no_write_at_target(write: bool, addr: u32, target: i32)
    ensures
        write_toward(write, addr, target, target) == (target, None::<MemWrite>),
{
}

/// Every write of a tick sets a counter to its configured target; with
/// writing disabled a tick writes nothing, and a player that is not alive
/// gets no ammo write (only the money may be written).
pub proof fn lemma_writes_go_to_targets(mem: MemModel, e: EngineCore, player: u32, alive: bool, r: TickReads)
    requires
        tick_reads_spec(mem, e, player, alive, r),
    ensures
        forall|i: int|
            0 <= i < r.writes@.len() ==> {
                let v = (#[trigger] r.writes@[i]).value;
                v == e.config.targets.money || v == e.config.targets.clip || v
                    == e.config.targets.reserve
            },
        !e.config.features.write_enabled ==> r.writes@.len() == 0,
        !alive ==> forall|i: int|
            0 <= i < r.writes@.len() ==> (#[trigger] r.writes@[i]).value == e.config.targets.money
                && i == 0,
{
    let f = e.config.features;
    let t = e.config.targets;
    let m = money_read(mem, e, player, f.write_enabled, f.money_enabled, t.money);
    let c = clip_read(mem, e, f.write_enabled && alive, t.clip);
    let v = reserve_read(mem, e, f.write_enabled && alive, t.reserve);
    assert(m.3 matches Some(w) ==> w.value == t.money);
    assert forall|i: int| 0 <= i < c.3.len() implies (#[trigger] c.3[i]).value == t.clip by {}
    assert(v.2 matches Some(w) ==> w.value == t.reserve);
    assert(r.writes@ == opt_seq(m.3) + c.3 + opt_seq(v.2));
    assert forall|i: int| 0 <= i < r.writes@.len() implies {
        let x = (#[trigger] r.writes@[i]).value;
        x == t.money || x == t.clip || x == t.reserve
    } by {
        let a = opt_seq(m.3);
        if i < a.len() {
            assert(r.writes@[i] == a[i]);
        } else if i < a.len() + c.3.len() {
            assert(r.writes@[i] == c.3[i - a.len()]);
        } else {
            assert(r.writes@[i] == opt_seq(v.2)[i - a.len() - c.3.len()]);
        }
    }
    if !alive {
        assert(c.3.len() == 0);
        assert(v.2 is None);
        assert(r.writes@ =~= opt_seq(m.3));
    }
}

/// The magazine pick is the first of the highest accepted values: with
/// candidates at non-null addresses, the result is `(0, 0)` exactly when no
/// value is accepted; otherwise it is an accepted candidate, no
/// accepted candidate has a higher value, and none before it has the same.
pub proof fn lemma_best_of_is_first_max(cands: Seq<(u32, i32)>, min: i32, max: i32)
    requires
        forall|i: int| 0 <= i < cands.len() ==> (#[trigger] cands[i]).0 != 0,
    ensures
        ({
            let b = best_of(cands, min, max);
            &&& b.0 == 0 <==> forall|i: int|
                0 <= i < cands.len() ==> !(accepted((#[trigger] cands[i]).1, min, max))
            &&& b.0 == 0 ==> b == (0u32, 0i32)
            &&& b.0 != 0 ==> exists|k: int|
                0 <= k < cands.len() && #[trigger] cands[k] == b && accepted(b.1, min, max) && (forall|i: int|
                    0 <= i < cands.len() && accepted((#[trigger] cands[i]).1, min, max) ==> cands[i].1 <= b.1)
                    && (forall|i: int| 0 <= i < k && accepted((#[trigger] cands[i]).1, min, max) ==> cands[i].1 < b.1)
        }),
    decreases cands.len(),
{
    if cands.len() > 0 {
        let xs = cands.drop_last();
        assert forall|i: int| 0 <= i < xs.len() implies (#[trigger] xs[i]).0 != 0 by {
            assert(xs[i] == cands[i]);
        }
        lemma_best_of_is_first_max(xs, min, max);
        let prev = best_of(xs, min, max);
        let c = cands.last();
        assert(c == cands[cands.len() - 1]);
        assert forall|i: int| 0 <= i < xs.len() implies xs[i] == cands[i] by {}
        if prev.0 != 0 {
            let k = choose|k: int|
                0 <= k < xs.len() && #[trigger] xs[k] == prev && accepted(prev.1, min, max) && (forall|i: int|
                    0 <= i < xs.len() && accepted((#[trigger] xs[i]).1, min, max) ==> xs[i].1 <= prev.1)
                    && (forall|i: int| 0 <= i < k && accepted((#[trigger] xs[i]).1, min, max) ==> xs[i].1 < prev.1);
            if accepted(c.1, min, max) && c.1 > prev.1 {
                let j = cands.len() - 1;
                assert(cands[j] == best_of(cands, min, max));
                assert forall|i: int| 0 <= i < cands.len() && accepted((#[trigger] cands[i]).1, min, max) implies cands[i].1 <= c.1 by {
                    if i < xs.len() {
                        assert(xs[i] == cands[i]);
                    }
                }
                assert forall|i: int| 0 <= i < j && accepted((#[trigger] cands[i]).1, min, max) implies cands[i].1 < c.1 by {
                    assert(xs[i] == cands[i]);
                }
            } else {
                assert(cands[k] == prev);
                assert forall|i: int| 0 <= i < cands.len() && accepted((#[trigger] cands[i]).1, min, max) implies cands[i].1 <= prev.1 by {
                    if i < xs.len() {
                        assert(xs[i] == cands[i]);
                    }
                }
                assert forall|i: int| 0 <= i < k && accepted((#[trigger] cands[i]).1, min, max) implies cands[i].1 < prev.1 by {
                    assert(xs[i] == cands[i]);
                }
            }
        } else {
            if accepted(c.1, min, max) {
                let j = cands.len() - 1;
                assert(cands[j] == best_of(cands, min, max));
                assert forall|i: int| 0 <= i < cands.len() && accepted((#[trigger] cands[i]).1, min, max) implies cands[i].1 <= c.1 by {
                    if i < xs.len() {
                        assert(xs[i] == cands[i]);
                        assert(!(accepted(xs[i].1, min, max)));
                    }
                }
                assert forall|i: int| 0 <= i < j && accepted((#[trigger] cands[i]).1, min, max) implies cands[i].1 < c.1 by {
                    assert(xs[i] == cands[i]);
                    assert(!(accepted(xs[i].1, min, max)));
                }
            } else {
                assert forall|i: int| 0 <= i < cands.len() implies !(accepted((#[trigger] cands[i]).1, min, max)) by {
                    if i < xs.len() {
                        assert(xs[i] == cands[i]);
                    }
                }
            }
        }
    }
}

/// Clip chain `j` (not the reserve's chain `skip`) resolves to `a`, where the
/// value `v` is read.
pub open spec fn magazine_source(
    mem: MemModel,
    hw_base: u32,
    chains: Seq<PointerChainConfig>,
    skip: usize,
    j: int,
    a: u32,
    v: i32,
) -> bool {
    &&& 0 <= j < chains.len()
    &&& j != skip
    &&& chain_target(mem, hw_base, chains[j]) == Some(a)
    &&& i32_at(mem, a) == Ok::<i32, MemoryError>(v)
}

/// The candidate `c` (address, value) was read through one of the first `n`
/// clip chains other than the reserve's, at a non-null address.
pub open spec fn sourced(mem: MemModel, hw_base: u32, chains: Seq<PointerChainConfig>, skip: usize, n: nat, c: (u32, i32)) -> bool {
    c.0 != 0 && exists|j: int| j < n && #[trigger] magazine_source(mem, hw_base, chains, skip, j, c.0, c.1)
}

proof fn lemma_magazine_cands_sources(
    mem: MemModel,
    hw_base: u32,
    chains: Seq<PointerChainConfig>,
    skip: usize,
    n: nat,
)
    requires
        n <= chains.len(),
    ensures
        forall|k: int| 0 <= k < magazine_cands(mem, hw_base, chains, skip, n).len() ==> sourced(
            mem,
            hw_base,
            chains,
            skip,
            n,
            #[trigger] magazine_cands(mem, hw_base, chains, skip, n)[k],
        ),
        forall|j: int, a: u32, v: i32|
            j < n && #[trigger] magazine_source(mem, hw_base, chains, skip, j, a, v) ==> magazine_cands(
                mem,
                hw_base,
                chains,
                skip,
                n,
            ).contains((a, v)),
    decreases n,
{
    if n > 0 {
        let m = (n - 1) as nat;
        lemma_magazine_cands_sources(mem, hw_base, chains, skip, m);
        let prev = magazine_cands(mem, hw_base, chains, skip, m);
        let cur = magazine_cands(mem, hw_base, chains, skip, n);
        let i = m as int;
        assert forall|k: int| 0 <= k < cur.len() implies sourced(mem, hw_base, chains, skip, n, #[trigger] cur[k]) by {
            if k < prev.len() {
                assert(cur[k] == prev[k]);
                let c = prev[k];
                assert(sourced(mem, hw_base, chains, skip, m, c));
                let j = choose|j: int| j < m && #[trigger] magazine_source(mem, hw_base, chains, skip, j, c.0, c.1);
                assert(j < n && magazine_source(mem, hw_base, chains, skip, j, c.0, c.1));
                assert(sourced(mem, hw_base, chains, skip, n, c));
            } else {
                assert(i != skip);
                assert(chain_target(mem, hw_base, chains[i]) is Some);
                let a = chain_target(mem, hw_base, chains[i])->Some_0;
                assert(i32_at(mem, a) is Ok);
                assert(cur[k] == (a, i32_at(mem, a)->Ok_0));
                assert(a != 0);
                assert(magazine_source(mem, hw_base, chains, skip, i, a, i32_at(mem, a)->Ok_0));
                assert(magazine_source(mem, hw_base, chains, skip, i, cur[k].0, cur[k].1));
                assert(i < n);
                assert(cur[k].0 != 0);
                assert(sourced(mem, hw_base, chains, skip, n, cur[k]));
            }
        }
        assert forall|j: int, a: u32, v: i32|
            j < n && #[trigger] magazine_source(mem, hw_base, chains, skip, j, a, v) implies cur.contains((a, v)) by {
            if j < m {
                let k = choose|k: int| 0 <= k < prev.len() && prev[k] == (a, v);
                assert(cur[k] == prev[k]);
            } else {
                assert(cur[cur.len() - 1] == (a, v));
            }
        }
    }
}

/// The magazine is picked among the clip chains other than the reserve's:
/// when one of them reads an accepted value, the clip shown is read through
/// such a chain (the reserve chain is only a fallback), it is the highest
/// accepted value among them, and without a write it is the value read.
pub proof fn lemma_magazine_leaves_out_reserve_chain(mem: MemModel, e: EngineCore, write: bool, target: i32)
    requires
        e.config.features.clip_enabled,
    ensures
        ({
            let chains = e.config.chains.clip@;
            let skip = e.config.chains.reserve_clip_index;
            let min = e.config.clip_detection.min_value;
            let max = e.config.clip_detection.max_value;
            let c = clip_read(mem, e, write, target);
            (exists|j: int, a: u32, v: i32| #[trigger] magazine_source(mem, e.hw_base, chains, skip, j, a, v)
                && accepted(v, min, max)) ==> {
                &&& c.1
                &&& exists|j: int, v: i32| #[trigger] magazine_source(mem, e.hw_base, chains, skip, j, c.2, v)
                    && accepted(v, min, max) && (!(write && e.config.features.clip_write_enabled) ==> c.0 == v)
                    && (forall|j2: int, a2: u32, v2: i32| #[trigger] magazine_source(mem, e.hw_base, chains, skip, j2, a2, v2)
                        && accepted(v2, min, max) ==> v2 <= v)
            }
        }),
{
    let chains = e.config.chains.clip@;
    let skip = e.config.chains.reserve_clip_index;
    let min = e.config.clip_detection.min_value;
    let max = e.config.clip_detection.max_value;
    let n = chains.len();
    let cands = magazine_cands(mem, e.hw_base, chains, skip, n);
    lemma_magazine_cands_sources(mem, e.hw_base, chains, skip, n);
    if exists|j: int, a: u32, v: i32| #[trigger] magazine_source(mem, e.hw_base, chains, skip, j, a, v) && accepted(v, min, max) {
        let (j0, a0, v0) = choose|j: int, a: u32, v: i32| #[trigger] magazine_source(mem, e.hw_base, chains, skip, j, a, v)
            && accepted(v, min, max);
        assert(j0 < n);
        assert(cands.contains((a0, v0)));
        let k0 = choose|k: int| 0 <= k < cands.len() && cands[k] == (a0, v0);
        assert forall|i: int| 0 <= i < cands.len() implies (#[trigger] cands[i]).0 != 0 by {}
        lemma_best_of_is_first_max(cands, min, max);
        let b = best_of(cands, min, max);
        assert(accepted(cands[k0].1, min, max));
        assert(b.0 != 0);
        let k = choose|k: int|
            0 <= k < cands.len() && #[trigger] cands[k] == b && accepted(b.1, min, max) && (forall|i: int|
                0 <= i < cands.len() && accepted((#[trigger] cands[i]).1, min, max) ==> cands[i].1 <= b.1)
                && (forall|i: int| 0 <= i < k && accepted((#[trigger] cands[i]).1, min, max) ==> cands[i].1 < b.1);
        assert(clip_pick(mem, e) == b);
        let c = clip_read(mem, e, write, target);
        assert(c.2 == b.0);
        let jb = choose|j: int| j < n && #[trigger] magazine_source(mem, e.hw_base, chains, skip, j, cands[k].0, cands[k].1);
        assert(magazine_source(mem, e.hw_base, chains, skip, jb, c.2, b.1));
        assert forall|j2: int, a2: u32, v2: i32| #[trigger] magazine_source(mem, e.hw_base, chains, skip, j2, a2, v2)
            && accepted(v2, min, max) implies v2 <= b.1 by {
            assert(j2 < n);
            assert(cands.contains((a2, v2)));
            let k2 = choose|k2: int| 0 <= k2 < cands.len() && cands[k2] == (a2, v2);
            assert(accepted(cands[k2].1, min, max));
        }
    }
}

/// With reserve writing switched off, a reserve read never writes, and the
/// reserve shown is the value read at the reserve address.
pub proof fn lemma_reserve_write_switch(mem: MemModel, e: EngineCore, write: bool, target: i32)
    ensures
        ({
            let r = reserve_read(mem, e, write, target);
            &&& !e.config.features.reserve_write_enabled ==> r.2 is None && (r.1 ==> i32_at(mem, e.reserve_addr)
                == Ok::<i32, MemoryError>(r.0))
            &&& r.2 matches Some(w) ==> write && e.config.features.reserve_write_enabled && w == MemWrite {
                address: e.reserve_addr,
                value: target,
            } && r.0 == target
            &&& r.1 <==> e.config.features.reserve_enabled && e.reserve_addr != 0 && i32_at(mem, e.reserve_addr) is Ok
        }),
{
}

/// With money disabled, a money read reads nothing, writes nothing and
/// reports no source; so a tick with money disabled reports money unread.
pub proof fn lemma_money_disabled(mem: MemModel, e: EngineCore, player: u32, alive: bool, r: TickReads, write: bool, target: i32)
    ensures
        money_read(mem, e, player, write, false, target) == (0i32, false, Seq::<char>::empty(), None::<MemWrite>),
        tick_reads_spec(mem, e, player, alive, r) && !e.config.features.money_enabled ==> !r.money_ok && r.money
            == 0 && r.writes@ == clip_read(mem, e, e.config.features.write_enabled && alive, e.config.targets.clip).3
            + opt_seq(reserve_read(mem, e, e.config.features.write_enabled && alive, e.config.targets.reserve).2),
        ({
            let m = money_read(mem, e, player, write, true, target);
            m.3 matches Some(w) ==> write && w.value == target
        }),
{
}

} // verus!
