//! The decisions of the one-shot diagnostic dump: which pointer slots hold a
//! plausible entity, which entity fields look like health, armor or money,
//! and which ammo chain is the magazine.  The dump itself reads the target
//! and prints; what it concludes from each value is here.
use vstd::prelude::*;

use crate::memory::{
    i32_at, read_i32, read_word, reader_total, reads_agree, word_at, wrap_add, wrap_sub, MemModel,
};

verus! {

/// The name of a well-known entity field at `off`, as the health scan marks
/// it (empty for other offsets).
pub open spec fn offset_label(off: u32) -> Seq<char> {
    if off == 0xB74 {
        "  ← m_dwHealth (BLASTHACK)"@
    } else if off == 0xFC {
        "  ← m_iHealth alt"@
    } else if off == 0x10C {
        "  ← m_dwArmor"@
    } else if off == 0xE4 {
        "  ← m_dwMoney"@
    } else if off == 0x15C {
        "  ← m_dwLifeState"@
    } else {
        ""@
    }
}

/// The label of a well-known entity field (see `offset_label`).
pub fn known_offset_label(off: u32) -> (r: &'static str)
    ensures
        r@ == offset_label(off),
{
    if off == 0xB74 {
        "  ← m_dwHealth (BLASTHACK)"
    } else if off == 0xFC {
        "  ← m_iHealth alt"
    } else if off == 0x10C {
        "  ← m_dwArmor"
    } else if off == 0xE4 {
        "  ← m_dwMoney"
    } else if off == 0x15C {
        "  ← m_dwLifeState"
    } else {
        ""
    }
}

/// A health value of a living player.
pub open spec fn health_ok(v: i32) -> bool {
    1 <= v <= 100
}

/// A plausible armor value.
pub open spec fn armor_ok(v: i32) -> bool {
    0 <= v <= 100
}

/// A plausible money value.
pub open spec fn money_ok(v: i32) -> bool {
    0 <= v <= 16000
}

/// Whether `v` is a health value of a living player (`1..=100`).
pub fn plausible_health(v: i32) -> (b: bool)
    ensures
        b == health_ok(v),
{
    1 <= v && v <= 100
}

/// Whether `v` is a plausible armor value (`0..=100`).
pub fn plausible_armor(v: i32) -> (b: bool)
    ensures
        b == armor_ok(v),
{
    0 <= v && v <= 100
}

/// Whether `v` is a plausible money value (`0..=16000`).
pub fn plausible_money(v: i32) -> (b: bool)
    ensures
        b == money_ok(v),
{
    0 <= v && v <= 16000
}

/// A pointer the scans take for an entity: in the usual heap range and
/// 4-aligned.
pub open spec fn entity_like(p: u32) -> bool {
    0x0100_0000 <= p <= 0x7FFF_0000 && p % 4 == 0
}

/// Whether the scans take `p` for an entity pointer (see `entity_like`).
pub fn plausible_entity(p: u32) -> (b: bool)
    ensures
        b == entity_like(p),
{
    0x0100_0000 <= p && p <= 0x7FFF_0000 && p % 4 == 0
}

/// What a pointer slot `base + rva` holds.
#[derive(Debug, Clone, Copy, PartialEq, Eq, Structural)]
pub enum SlotProbe {
    /// A pointer above the first 64 KiB: taken for the player.
    Player { ptr_addr: u32, player: u32 },
    /// Null or too small to be a pointer.
    Invalid { ptr_addr: u32, value: u32 },
    /// The slot could not be read.
    ReadFailed { ptr_addr: u32 },
}

/// The probe of the slot at `base + rva`.
pub open spec fn slot_probe(mem: MemModel, base: u32, rva: u32) -> SlotProbe {
    let a = wrap_add(base, rva);
    match word_at(mem, a) {
        Ok(p) => if p != 0 && p > 0x10000 {
            SlotProbe::Player { ptr_addr: a, player: p }
        } else {
            SlotProbe::Invalid { ptr_addr: a, value: p }
        },
        Err(_) => SlotProbe::ReadFailed { ptr_addr: a },
    }
}

/// Reads the pointer slot at `base + rva` and says what it holds.
pub fn probe_slot<F: Fn(u32) -> Option<u32>>(read: &F, base: u32, rva: u32) -> (r: SlotProbe)
    requires
        reader_total(read),
    ensures
        forall|mem: MemModel| #[trigger] reads_agree(read, mem) ==> r == slot_probe(mem, base, rva),
{
    let a = base.wrapping_add(rva);
    match read_word(read, a) {
        Ok(p) => if p != 0 && p > 0x10000 {
            SlotProbe::Player { ptr_addr: a, player: p }
        } else {
            SlotProbe::Invalid { ptr_addr: a, value: p }
        },
        Err(_) => SlotProbe::ReadFailed { ptr_addr: a },
    }
}

/// The entity the field report is about: the configured one when it was
/// found, else the first candidate found; and whether that is the configured
/// entity under a label of its own (it differs from the first candidate).
pub fn choose_entity(config_player: u32, best_player: u32) -> (r: (u32, bool))
    ensures
        r.0 == if config_player != 0 { config_player } else { best_player },
        r.1 == (config_player != 0 && config_player != best_player),
{
    if config_player != 0 {
        (config_player, config_player != best_player)
    } else {
        (best_player, false)
    }
}

/// The player that `health_direct - health_offset` points at, when it looks
/// like an entity pointer (non-null, above the first 64 KiB).
pub fn entity_from_health(health_direct: u32, hp_off: u32) -> (r: Option<u32>)
    ensures
        r == if wrap_sub(health_direct, hp_off) > 0x10000 {
            Some(wrap_sub(health_direct, hp_off))
        } else {
            None::<u32>
        },
{
    let d = health_direct.wrapping_sub(hp_off);
    if d != 0 && d > 0x10000 {
        Some(d)
    } else {
        None
    }
}

/// The health-like values in the first `n` fields (4 bytes apart) of `entity`.
pub open spec fn health_hits(mem: MemModel, entity: u32, n: nat) -> Seq<(u32, i32)>
    decreases n,
{
    if n == 0 {
        Seq::empty()
    } else {
        let off = (4 * (n - 1)) as u32;
        let prev = health_hits(mem, entity, (n - 1) as nat);
        match i32_at(mem, wrap_add(entity, off)) {
            Ok(v) => if health_ok(v) {
                prev.push((off, v))
            } else {
                prev
            },
            Err(_) => prev,
        }
    }
}

/// Every 4-byte field in the first 0x2000 bytes of `entity` that holds a
/// health value of a living player, with its offset, in order.
pub fn health_scan<F: Fn(u32) -> Option<u32>>(read: &F, entity: u32) -> (v: Vec<(u32, i32)>)
    requires
        reader_total(read),
    ensures
        forall|mem: MemModel| #[trigger] reads_agree(read, mem) ==> v@ == health_hits(mem, entity, 0x800),
{
    let mut v: Vec<(u32, i32)> = Vec::new();
    let mut k: u32 = 0;
    while k < 0x800
        invariant
            reader_total(read),
            k <= 0x800,
            forall|mem: MemModel| #[trigger] reads_agree(read, mem) ==> v@ == health_hits(mem, entity, k as nat),
        decreases 0x800 - k,
    {
        let off = 4 * k;
        match read_i32(read, entity.wrapping_add(off)) {
            Ok(x) => {
                if plausible_health(x) {
                    v.push((off, x));
                }
            },
            Err(_) => {},
        }
        k = k + 1;
    }
    v
}

/// A slot whose pointer leads to an entity with a living player's health,
/// plausible money and plausible armor at the well-known offsets.
#[derive(Debug, Clone, Copy, PartialEq, Eq, Structural)]
pub struct SmartHit {
    pub rva: u32,
    pub player: u32,
    pub hp: i32,
    pub armor: i32,
    pub money: i32,
}

/// The entity behind the slot at `rva`, when it has a living player's
/// health at `+0xB74`, plausible money at `+0xE4` and armor at `+0x10C`.
pub open spec fn smart_hit(mem: MemModel, base: u32, rva: u32) -> Option<SmartHit> {
    match word_at(mem, wrap_add(base, rva)) {
        Ok(p) => if !entity_like(p) {
            None
        } else {
            match (i32_at(mem, wrap_add(p, 0xB74)), i32_at(mem, wrap_add(p, 0xE4)), i32_at(mem, wrap_add(p, 0x10C))) {
                (Ok(hp), Ok(money), Ok(armor)) => if health_ok(hp) && money_ok(money) && armor_ok(armor) {
                    Some(SmartHit { rva, player: p, hp, armor, money })
                } else {
                    None
                },
                _ => None,
            }
        },
        Err(_) => None,
    }
}

/// The smart-scan hits of the first `n` slots from `lo`, 4 bytes apart.
pub open spec fn smart_hits(mem: MemModel, base: u32, lo: u32, n: nat) -> Seq<SmartHit>
    decreases n,
{
    if n == 0 {
        Seq::empty()
    } else {
        let prev = smart_hits(mem, base, lo, (n - 1) as nat);
        match smart_hit(mem, base, (lo + 4 * (n - 1)) as u32) {
            Some(h) => prev.push(h),
            None => prev,
        }
    }
}

fn smart_hit_at<F: Fn(u32) -> Option<u32>>(read: &F, base: u32, rva: u32) -> (r: Option<SmartHit>)
    requires
        reader_total(read),
    ensures
        forall|mem: MemModel| #[trigger] reads_agree(read, mem) ==> r == smart_hit(mem, base, rva),
{
    let p = match read_word(read, base.wrapping_add(rva)) {
        Ok(p) => p,
        Err(_) => {
            return None;
        },
    };
    if !plausible_entity(p) {
        return None;
    }
    let hp = match read_i32(read, p.wrapping_add(0xB74)) {
        Ok(v) => v,
        Err(_) => {
            return None;
        },
    };
    let money = match read_i32(read, p.wrapping_add(0xE4)) {
        Ok(v) => v,
        Err(_) => {
            return None;
        },
    };
    let armor = match read_i32(read, p.wrapping_add(0x10C)) {
        Ok(v) => v,
        Err(_) => {
            return None;
        },
    };
    if plausible_health(hp) && plausible_money(money) && plausible_armor(armor) {
        Some(SmartHit { rva, player: p, hp, armor, money })
    } else {
        None
    }
}

/// The number of slots `lo`, `lo + 4`, … below `hi`.
pub open spec fn steps(lo: u32, hi: u32) -> nat {
    if lo < hi {
        ((hi - lo + 3) / 4) as nat
    } else {
        0
    }
}

fn step_count(lo: u32, hi: u32) -> (n: u32)
    ensures
        n == steps(lo, hi),
{
    if lo < hi {
        (hi - lo) / 4 + if (hi - lo) % 4 == 0 { 0 } else { 1 }
    } else {
        0
    }
}

/// Scans the slots `base + lo`, `base + lo + 4`, … below `base + hi` for a
/// local player with the well-known health, money and armor offsets.
pub fn smart_scan<F: Fn(u32) -> Option<u32>>(read: &F, base: u32, lo: u32, hi: u32) -> (v: Vec<SmartHit>)
    requires
        reader_total(read),
    ensures
        forall|mem: MemModel| #[trigger] reads_agree(read, mem) ==> v@ == smart_hits(mem, base, lo, steps(lo, hi)),
{
    let n = step_count(lo, hi);
    let mut v: Vec<SmartHit> = Vec::new();
    let mut k: u32 = 0;
    while k < n
        invariant
            reader_total(read),
            k <= n,
            n == steps(lo, hi),
            forall|mem: MemModel| #[trigger] reads_agree(read, mem) ==> v@ == smart_hits(mem, base, lo, k as nat),
        decreases n - k,
    {
        assert(lo + 4 * k < 0x1_0000_0000) by (nonlinear_arith)
            requires
                k < n,
                n == (hi - lo + 3) / 4,
                lo < hi,
                hi <= 0xFFFF_FFFF,
        ;
        let rva = lo + 4 * k;
        match smart_hit_at(read, base, rva) {
            Some(h) => v.push(h),
            None => {},
        }
        k = k + 1;
    }
    v
}

/// The `(rva, player, health offset, health)` hits of one slot: the health
/// offsets, in order, at which the entity behind the slot has a living
/// player's health.
pub open spec fn slot_hits(mem: MemModel, base: u32, rva: u32, hp_offs: Seq<u32>, k: nat) -> Seq<(u32, u32, u32, i32)>
    decreases k,
{
    if k == 0 || k > hp_offs.len() {
        Seq::empty()
    } else {
        let prev = slot_hits(mem, base, rva, hp_offs, (k - 1) as nat);
        match word_at(mem, wrap_add(base, rva)) {
            Ok(p) => if !entity_like(p) {
                Seq::empty()
            } else {
                let off = hp_offs[k - 1];
                match i32_at(mem, wrap_add(p, off)) {
                    Ok(hp) => if health_ok(hp) {
                        prev.push((rva, p, off, hp))
                    } else {
                        prev
                    },
                    Err(_) => prev,
                }
            },
            Err(_) => Seq::empty(),
        }
    }
}

/// The hits of the first `n` slots from `lo`, 4 bytes apart.
pub open spec fn brute_hits(mem: MemModel, base: u32, lo: u32, n: nat, hp_offs: Seq<u32>) -> Seq<(u32, u32, u32, i32)>
    decreases n,
{
    if n == 0 {
        Seq::empty()
    } else {
        brute_hits(mem, base, lo, (n - 1) as nat, hp_offs) + slot_hits(
            mem,
            base,
            (lo + 4 * (n - 1)) as u32,
            hp_offs,
            hp_offs.len(),
        )
    }
}

fn slot_hits_at<F: Fn(u32) -> Option<u32>>(read: &F, base: u32, rva: u32, hp_offs: &[u32], out: &mut Vec<(u32, u32, u32, i32)>)
    requires
        reader_total(read),
    ensures
        forall|mem: MemModel| #[trigger]
            reads_agree(read, mem) ==> final(out)@ == old(out)@ + slot_hits(mem, base, rva, hp_offs@, hp_offs@.len()),
{
    let ghost start = out@;
    let p = match read_word(read, base.wrapping_add(rva)) {
        Ok(p) => p,
        Err(_) => {
            assert forall|mem: MemModel| #[trigger] reads_agree(read, mem) implies out@ == start + slot_hits(
                mem,
                base,
                rva,
                hp_offs@,
                hp_offs@.len(),
            ) by {
                lemma_slot_hits_dead(mem, base, rva, hp_offs@, hp_offs@.len());
                assert(start + Seq::<(u32, u32, u32, i32)>::empty() =~= start);
            }
            return;
        },
    };
    if !plausible_entity(p) {
        assert forall|mem: MemModel| #[trigger] reads_agree(read, mem) implies out@ == start + slot_hits(
            mem,
            base,
            rva,
            hp_offs@,
            hp_offs@.len(),
        ) by {
            lemma_slot_hits_dead(mem, base, rva, hp_offs@, hp_offs@.len());
            assert(start + Seq::<(u32, u32, u32, i32)>::empty() =~= start);
        }
        return;
    }
    let mut k: usize = 0;
    assert forall|mem: MemModel| #[trigger] reads_agree(read, mem) implies out@ == start + slot_hits(
        mem,
        base,
        rva,
        hp_offs@,
        0,
    ) by {
        assert(start + Seq::<(u32, u32, u32, i32)>::empty() =~= start);
    }
    while k < hp_offs.len()
        invariant
            reader_total(read),
            k <= hp_offs@.len(),
            entity_like(p),
            forall|mem: MemModel| #[trigger] reads_agree(read, mem) ==> word_at(mem, wrap_add(base, rva)) == Ok::<u32, crate::error::MemoryError>(p),
            forall|mem: MemModel| #[trigger]
                reads_agree(read, mem) ==> out@ == start + slot_hits(mem, base, rva, hp_offs@, k as nat),
        decreases hp_offs@.len() - k,
    {
        let off = hp_offs[k];
        let ghost before = out@;
        match read_i32(read, p.wrapping_add(off)) {
            Ok(hp) => {
                if plausible_health(hp) {
                    out.push((rva, p, off, hp));
                }
            },
            Err(_) => {},
        }
        assert forall|mem: MemModel| #[trigger] reads_agree(read, mem) implies out@ == start + slot_hits(
            mem,
            base,
            rva,
            hp_offs@,
            (k + 1) as nat,
        ) by {
            assert((start + slot_hits(mem, base, rva, hp_offs@, k as nat)).push((rva, p, off, i32_at(mem, wrap_add(p, off))->Ok_0))
                =~= start + slot_hits(mem, base, rva, hp_offs@, k as nat).push((rva, p, off, i32_at(mem, wrap_add(p, off))->Ok_0)));
        }
        k = k + 1;
    }
}

proof fn lemma_slot_hits_dead(mem: MemModel, base: u32, rva: u32, hp_offs: Seq<u32>, k: nat)
    requires
        match word_at(mem, wrap_add(base, rva)) {
            Ok(p) => !entity_like(p),
            Err(_) => true,
        },
    ensures
        slot_hits(mem, base, rva, hp_offs, k) == Seq::<(u32, u32, u32, i32)>::empty(),
    decreases k,
{
}

/// Scans the slots `base + lo`, `base + lo + 4`, … below `base + hi`: every
/// slot whose pointer looks like an entity is tried with each health offset,
/// and each living player's health found is a hit, in scan order.
pub fn brute_scan<F: Fn(u32) -> Option<u32>>(read: &F, base: u32, lo: u32, hi: u32, hp_offs: &[u32]) -> (v: Vec<(u32, u32, u32, i32)>)
    requires
        reader_total(read),
    ensures
        forall|mem: MemModel| #[trigger]
            reads_agree(read, mem) ==> v@ == brute_hits(mem, base, lo, steps(lo, hi), hp_offs@),
{
    let n = step_count(lo, hi);
    let mut v: Vec<(u32, u32, u32, i32)> = Vec::new();
    let mut k: u32 = 0;
    while k < n
        invariant
            reader_total(read),
            k <= n,
            n == steps(lo, hi),
            forall|mem: MemModel| #[trigger] reads_agree(read, mem) ==> v@ == brute_hits(mem, base, lo, k as nat, hp_offs@),
        decreases n - k,
    {
        assert(lo + 4 * k < 0x1_0000_0000) by (nonlinear_arith)
            requires
                k < n,
                n == (hi - lo + 3) / 4,
                lo < hi,
                hi <= 0xFFFF_FFFF,
        ;
        let rva = lo + 4 * k;
        slot_hits_at(read, base, rva, hp_offs, &mut v);
        k = k + 1;
    }
    v
}

/// `hits` without the entries that repeat the entity and health offset of
/// the entry just before them.
pub open spec fn dedup_spec(hits: Seq<(u32, u32, u32, i32)>) -> Seq<(u32, u32, u32, i32)>
    decreases hits.len(),
{
    if hits.len() <= 1 {
        hits
    } else {
        let prev = dedup_spec(hits.drop_last());
        let h = hits.last();
        let g = hits[hits.len() - 2];
        if h.1 == g.1 && h.2 == g.2 {
            prev
        } else {
            prev.push(h)
        }
    }
}

/// Drops each hit that repeats the entity and health offset of the hit just
/// before it (adjacent slots that point at the same entity).
pub fn dedup_hits(hits: &Vec<(u32, u32, u32, i32)>) -> (v: Vec<(u32, u32, u32, i32)>)
    ensures
        v@ == dedup_spec(hits@),
{
    let mut v: Vec<(u32, u32, u32, i32)> = Vec::new();
    let mut i: usize = 0;
    while i < hits.len()
        invariant
            i <= hits@.len(),
            v@ == dedup_spec(hits@.take(i as int)),
        decreases hits@.len() - i,
    {
        let ghost t = hits@.take(i as int + 1);
        assert(t.drop_last() =~= hits@.take(i as int));
        if i == 0 {
            v.push(hits[i]);
            assert(v@ =~= dedup_spec(t));
        } else {
            assert(t[t.len() - 2] == hits@[i - 1]);
            let h = hits[i];
            let g = hits[i - 1];
            if !(h.1 == g.1 && h.2 == g.2) {
                v.push(h);
            }
        }
        i = i + 1;
    }
    assert(hits@.take(hits@.len() as int) =~= hits@);
    v
}

/// The magazine the dump reports: among the valid clip chains other than the
/// reserve one, the one with the highest value — the last of equal values,
/// as `Iterator::max_by_key` picks.
pub open spec fn report_magazine(vals: Seq<(usize, u32, i32, bool)>, reserve_idx: usize) -> Option<(usize, u32, i32, bool)>
    decreases vals.len(),
{
    if vals.len() == 0 {
        None
    } else {
        let prev = report_magazine(vals.drop_last(), reserve_idx);
        let c = vals.last();
        if c.0 != reserve_idx && c.3 {
            match prev {
                Some(p) => if c.2 >= p.2 {
                    Some(c)
                } else {
                    prev
                },
                None => Some(c),
            }
        } else {
            prev
        }
    }
}

/// Picks the magazine chain to report (see `report_magazine`).
pub fn pick_reported_magazine(vals: &Vec<(usize, u32, i32, bool)>, reserve_idx: usize) -> (r: Option<(usize, u32, i32, bool)>)
    ensures
        r == report_magazine(vals@, reserve_idx),
{
    let mut best: Option<(usize, u32, i32, bool)> = None;
    let mut i: usize = 0;
    while i < vals.len()
        invariant
            i <= vals@.len(),
            best == report_magazine(vals@.take(i as int), reserve_idx),
        decreases vals@.len() - i,
    {
        assert(vals@.take(i as int + 1).drop_last() =~= vals@.take(i as int));
        let c = vals[i];
        if c.0 != reserve_idx && c.3 {
            best = match best {
                Some(p) => if c.2 >= p.2 {
                    Some(c)
                } else {
                    Some(p)
                },
                None => Some(c),
            };
        }
        i = i + 1;
    }
    assert(vals@.take(vals@.len() as int) =~= vals@);
    best
}

/// The clip chain that holds the reserve, when it read a valid positive value.
pub open spec fn reserve_fallback_spec(vals: Seq<(usize, u32, i32, bool)>, reserve_idx: usize, i: int) -> Option<(usize, u32, i32, bool)>
    decreases vals.len() - i,
{
    if i < 0 || i >= vals.len() {
        None
    } else if vals[i].0 == reserve_idx && vals[i].3 && vals[i].2 > 0 {
        Some(vals[i])
    } else {
        reserve_fallback_spec(vals, reserve_idx, i + 1)
    }
}

/// The first entry of the reserve's clip chain that read a valid positive value.
pub fn find_reserve_fallback(vals: &Vec<(usize, u32, i32, bool)>, reserve_idx: usize) -> (r: Option<(usize, u32, i32, bool)>)
    ensures
        r == reserve_fallback_spec(vals@, reserve_idx, 0),
{
    let mut i: usize = 0;
    while i < vals.len()
        invariant
            i <= vals@.len(),
            reserve_fallback_spec(vals@, reserve_idx, 0) == reserve_fallback_spec(vals@, reserve_idx, i as int),
        decreases vals@.len() - i,
    {
        let c = vals[i];
        if c.0 == reserve_idx && c.3 && c.2 > 0 {
            return Some(c);
        }
        i = i + 1;
    }
    None
}

/// Whether a clip chain's value is valid ammo for the report: positive and
/// below the configured maximum.
pub fn ammo_valid(v: i32, max: i32) -> (b: bool)
    ensures
        b == (v > 0 && v < max),
{
    v > 0 && v < max
}

} // verus!
