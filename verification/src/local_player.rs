//! Finding the local player entity across CS 1.6 builds (Steam / non-Steam).
use vstd::prelude::*;

use crate::memory::{read_word, reader_total, reads_agree, word_at, wrap_add, MemModel};
use crate::util::{
    better, contains_u32, fold_best, lemma_fold_best_append, lemma_fold_best_max, lemma_fold_best_push,
    prepend_distinct, prepend_distinct_vec,
};

verus! {

/// A local player pointer that was found: `module + rva` holds `player`, and
/// the player's health lies at `player + health_offset`.
#[derive(Debug, Clone, Copy, PartialEq, Eq, Structural)]
pub struct LocalPlayerDiscovery {
    pub rva: u32,
    pub player: u32,
    pub health_offset: u32,
}

/// Known hw.dll RVAs of the local player pointer.
pub open spec fn known_hw_rvas() -> Seq<u32> {
    seq![0x0010FC80u32, 0x0012D6F4, 0x0032ABF4, 0x0013FDF4, 0x00827484, 0x0051FA44, 0x007028FC]
}

/// Known client.dll RVAs of the local player pointer.
pub open spec fn known_client_rvas() -> Seq<u32> {
    seq![0x0004B530u32, 0x0011D438]
}

/// Known health offsets in the player entity.
pub open spec fn known_hp_offsets() -> Seq<u32> {
    seq![0x14u32, 0xB74, 0xFC, 0x100]
}

/// The known hw.dll RVAs of the local player pointer.
pub fn lp_rva_hw() -> (v: Vec<u32>)
    ensures
        v@ == known_hw_rvas(),
{
    let v: Vec<u32> = vec![0x0010FC80, 0x0012D6F4, 0x0032ABF4, 0x0013FDF4, 0x00827484, 0x0051FA44, 0x007028FC];
    assert(v@ =~= known_hw_rvas());
    v
}

/// The known client.dll RVAs of the local player pointer.
pub fn lp_rva_client() -> (v: Vec<u32>)
    ensures
        v@ == known_client_rvas(),
{
    let v: Vec<u32> = vec![0x0004B530, 0x0011D438];
    assert(v@ =~= known_client_rvas());
    v
}

/// The known health offsets in the player entity.
pub fn hp_offset_candidates() -> (v: Vec<u32>)
    ensures
        v@ == known_hp_offsets(),
{
    let v: Vec<u32> = vec![0x14, 0xB74, 0xFC, 0x100];
    assert(v@ =~= known_hp_offsets());
    v
}

/// The health at `player + hp_off`, when `player` is an aligned user-space
/// pointer and the value read is within 0..=100.
pub open spec fn hp_of(mem: MemModel, player: u32, hp_off: u32) -> Option<i32> {
    if player < 0x0100_0000 || player > 0x7FFF_0000 || player % 4 != 0 {
        None
    } else {
        match word_at(mem, wrap_add(player, hp_off)) {
            Ok(w) => if 0 <= (w as i32) <= 100 {
                Some(w as i32)
            } else {
                None
            },
            Err(_) => None,
        }
    }
}

/// Reads a plausible health value (0..=100) of a candidate player.
pub fn read_hp<F: Fn(u32) -> Option<u32>>(read: &F, player: u32, hp_off: u32) -> (r: Option<i32>)
    requires
        reader_total(read),
    ensures
        forall|mem: MemModel| #[trigger] reads_agree(read, mem) ==> r == hp_of(mem, player, hp_off),
        r matches Some(h) ==> 0 <= h <= 100,
{
    if player < 0x0100_0000 || player > 0x7FFF_0000 || player & 3 != 0 {
        assert((player & 3 != 0) == (player % 4 != 0)) by (bit_vector);
        return None;
    }
    assert((player & 3 != 0) == (player % 4 != 0)) by (bit_vector);
    match read_word(read, player.wrapping_add(hp_off)) {
        Ok(w) => {
            let hp = #[verifier::truncate] (w as i32);
            if 0 <= hp && hp <= 100 {
                Some(hp)
            } else {
                None
            }
        },
        Err(_) => None,
    }
}

/// Bonus for the health offset: the configured one first, then the common ones.
pub open spec fn hp_offset_bonus(hp_off: u32, config_hp_off: u32) -> int {
    if hp_off == config_hp_off {
        500
    } else if hp_off == 0xB74 {
        300
    } else if hp_off == 0xFC {
        200
    } else {
        0
    }
}

/// Bonus when the armor slot (`player + 0x10C`) holds 0..=100.
pub open spec fn armor_bonus(mem: MemModel, player: u32) -> int {
    match word_at(mem, wrap_add(player, 0x10C)) {
        Ok(w) => if 0 <= (w as i32) <= 100 {
            100
        } else {
            0
        },
        Err(_) => 0,
    }
}

/// The score of a candidate, `i32::MIN` when its health is implausible: a
/// known RVA, a likely health offset, a plausible armor, and a health close to
/// 100 all count.
pub open spec fn candidate_score(
    mem: MemModel,
    player: u32,
    hp_off: u32,
    config_hp_off: u32,
    from_known_rva: bool,
) -> i32 {
    match hp_of(mem, player, hp_off) {
        None => i32::MIN,
        Some(hp) => ((if from_known_rva {
            1000int
        } else {
            0
        }) + hp_offset_bonus(hp_off, config_hp_off) + armor_bonus(mem, player) + hp) as i32,
    }
}

/// Scores one candidate (player pointer, health offset).
pub fn score_candidate<F: Fn(u32) -> Option<u32>>(
    read: &F,
    player: u32,
    hp_off: u32,
    config_hp_off: u32,
    from_known_rva: bool,
) -> (s: i32)
    requires
        reader_total(read),
    ensures
        forall|mem: MemModel| #[trigger]
            reads_agree(read, mem) ==> s == candidate_score(
                mem,
                player,
                hp_off,
                config_hp_off,
                from_known_rva,
            ),
{
    let hp = match read_hp(read, player, hp_off) {
        Some(hp) => hp,
        None => {
            return i32::MIN;
        },
    };
    assert(0 <= hp <= 100);
    let mut score: i32 = 0;
    if from_known_rva {
        score = score + 1000;
    }
    if hp_off == config_hp_off {
        score = score + 500;
    } else if hp_off == 0xB74 {
        score = score + 300;
    } else if hp_off == 0xFC {
        score = score + 200;
    }
    match read_word(read, player.wrapping_add(0x10C)) {
        Ok(w) => {
            let armor = #[verifier::truncate] (w as i32);
            if 0 <= armor && armor <= 100 {
                score = score + 100;
            }
        },
        Err(_) => {},
    }
    assert(0 <= score <= 1600);
    score = score + hp;
    score
}

/// The candidates that one pointer slot `module + rva` yields: the pointer read
/// there, paired with each health offset, scored.
pub open spec fn slot_row(
    mem: MemModel,
    module_base: u32,
    rva: u32,
    hp_offs: Seq<u32>,
    config_hp_off: u32,
    known: bool,
) -> Seq<(i32, LocalPlayerDiscovery)> {
    match word_at(mem, wrap_add(module_base, rva)) {
        Err(_) => Seq::empty(),
        Ok(player) => Seq::new(
            hp_offs.len(),
            |k: int|
                (
                    candidate_score(mem, player, hp_offs[k], config_hp_off, known),
                    LocalPlayerDiscovery { rva, player, health_offset: hp_offs[k] },
                ),
        ),
    }
}

/// The candidates of the tried RVAs, in order.
pub open spec fn known_rows(
    mem: MemModel,
    module_base: u32,
    rvas: Seq<u32>,
    hp_offs: Seq<u32>,
    config_hp_off: u32,
) -> Seq<(i32, LocalPlayerDiscovery)>
    decreases rvas.len(),
{
    if rvas.len() == 0 {
        Seq::empty()
    } else {
        known_rows(mem, module_base, rvas.drop_last(), hp_offs, config_hp_off) + slot_row(
            mem,
            module_base,
            rvas.last(),
            hp_offs,
            config_hp_off,
            true,
        )
    }
}

/// The candidates of the first `n` scanned RVAs `lo, lo + 4, ...`, skipping
/// the RVAs already tried.
pub open spec fn scan_rows(
    mem: MemModel,
    module_base: u32,
    lo: u32,
    n: nat,
    skip: Seq<u32>,
    hp_offs: Seq<u32>,
    config_hp_off: u32,
) -> Seq<(i32, LocalPlayerDiscovery)>
    decreases n,
{
    if n == 0 {
        Seq::empty()
    } else {
        let rva = (lo + 4 * (n - 1)) as u32;
        scan_rows(mem, module_base, lo, (n - 1) as nat, skip, hp_offs, config_hp_off) + if skip.contains(rva) {
            Seq::empty()
        } else {
            slot_row(mem, module_base, rva, hp_offs, config_hp_off, false)
        }
    }
}

/// Start of the scanned RVA range.
pub open spec fn scan_lo() -> u32 {
    0x100000
}

/// End (exclusive) of the scanned RVA range.
pub open spec fn scan_hi(on_client: bool) -> u32 {
    if on_client {
        0x200000
    } else {
        0x600000
    }
}

/// RVAs tried before the scan: the configured one, then the known ones.
pub open spec fn tried_rvas(config_rva: u32, on_client: bool) -> Seq<u32> {
    prepend_distinct(config_rva, if on_client { known_client_rvas() } else { known_hw_rvas() })
}

/// Health offsets tried for each pointer: the configured one, then the known ones.
pub open spec fn tried_hp_offsets(config_hp_off: u32) -> Seq<u32> {
    prepend_distinct(config_hp_off, known_hp_offsets())
}

/// Every candidate considered by `discover`, in the order it considers them.
pub open spec fn discover_candidates(
    mem: MemModel,
    module_base: u32,
    config_rva: u32,
    config_hp_off: u32,
    on_client: bool,
) -> Seq<(i32, LocalPlayerDiscovery)> {
    let tried = tried_rvas(config_rva, on_client);
    let hp_offs = tried_hp_offsets(config_hp_off);
    known_rows(mem, module_base, tried, hp_offs, config_hp_off) + scan_rows(
        mem,
        module_base,
        scan_lo(),
        ((scan_hi(on_client) - scan_lo()) / 4) as nat,
        tried,
        hp_offs,
        config_hp_off,
    )
}

/// What `discover` finds: nothing in a module that is not loaded, else the
/// first candidate with the highest score, if any candidate is plausible.
pub open spec fn discover_spec(
    mem: MemModel,
    module_base: u32,
    config_rva: u32,
    config_hp_off: u32,
    on_client: bool,
) -> Option<LocalPlayerDiscovery> {
    if module_base == 0 {
        None
    } else {
        match fold_best(
            None,
            discover_candidates(mem, module_base, config_rva, config_hp_off, on_client),
        ) {
            None => None,
            Some(b) => Some(b.1),
        }
    }
}

/// Considers the candidates of one pointer slot.
fn consider_slot<F: Fn(u32) -> Option<u32>>(
    read: &F,
    best: &mut Option<(i32, LocalPlayerDiscovery)>,
    module_base: u32,
    rva: u32,
    hp_offs: &Vec<u32>,
    config_hp_off: u32,
    known: bool,
)
    requires
        reader_total(read),
    ensures
        forall|mem: MemModel| #[trigger]
            reads_agree(read, mem) ==> *final(best) == fold_best(
                *old(best),
                slot_row(mem, module_base, rva, hp_offs@, config_hp_off, known),
            ),
{
    let player = match read_word(read, module_base.wrapping_add(rva)) {
        Ok(p) => p,
        Err(_) => {
            assert forall|mem: MemModel| #[trigger] reads_agree(read, mem) implies *best
                == fold_best(
                *old(best),
                slot_row(mem, module_base, rva, hp_offs@, config_hp_off, known),
            ) by {
                assert(slot_row(mem, module_base, rva, hp_offs@, config_hp_off, known).len() == 0);
            }
            return ;
        },
    };
    let ghost start = *old(best);
    let mut k: usize = 0;
    while k < hp_offs.len()
        invariant
            reader_total(read),
            k <= hp_offs@.len(),
            forall|mem: MemModel| #[trigger]
                reads_agree(read, mem) ==> word_at(mem, wrap_add(module_base, rva)) == Ok::<
                    u32,
                    crate::error::MemoryError,
                >(player),
            forall|mem: MemModel| #[trigger]
                reads_agree(read, mem) ==> *best == fold_best(
                    start,
                    slot_row(mem, module_base, rva, hp_offs@, config_hp_off, known).subrange(
                        0,
                        k as int,
                    ),
                ),
        decreases hp_offs@.len() - k,
    {
        let hp_off = hp_offs[k];
        let s = score_candidate(read, player, hp_off, config_hp_off, known);
        let d = LocalPlayerDiscovery { rva, player, health_offset: hp_off };
        let ghost before = *best;
        let replace = s != i32::MIN && match best {
            None => true,
            Some(b) => s > b.0,
        };
        if replace {
            *best = Some((s, d));
        }
        assert forall|mem: MemModel| #[trigger] reads_agree(read, mem) implies *best == fold_best(
            start,
            slot_row(mem, module_base, rva, hp_offs@, config_hp_off, known).subrange(
                0,
                k + 1,
            ),
        ) by {
            let row = slot_row(mem, module_base, rva, hp_offs@, config_hp_off, known);
            assert(row.subrange(0, k + 1) =~= row.subrange(0, k as int).push(row[k as int]));
            lemma_fold_best_push(start, row.subrange(0, k as int), row[k as int]);
            assert(row[k as int] == (s, d));
        }
        k = k + 1;
    }
    assert forall|mem: MemModel| #[trigger] reads_agree(read, mem) implies *best == fold_best(
        start,
        slot_row(mem, module_base, rva, hp_offs@, config_hp_off, known),
    ) by {
        let row = slot_row(mem, module_base, rva, hp_offs@, config_hp_off, known);
        assert(row.subrange(0, hp_offs@.len() as int) =~= row);
    }
}

/// Finds the local player pointer in `module_base`: first the configured RVA,
/// then the known RVAs, then a scan of the module's data range, each pointer
/// with every candidate health offset; the best-scoring plausible candidate wins.
pub fn discover<F: Fn(u32) -> Option<u32>>(
    read: &F,
    module_base: u32,
    config_rva: u32,
    config_hp_off: u32,
    on_client: bool,
) -> (res: Option<LocalPlayerDiscovery>)
    requires
        reader_total(read),
    ensures
        forall|mem: MemModel| #[trigger]
            reads_agree(read, mem) ==> res == discover_spec(
                mem,
                module_base,
                config_rva,
                config_hp_off,
                on_client,
            ),
{
    if module_base == 0 {
        return None;
    }
    let known = if on_client {
        lp_rva_client()
    } else {
        lp_rva_hw()
    };
    let scan_start: u32 = 0x100000;
    let scan_end: u32 = if on_client {
        0x200000
    } else {
        0x600000
    };
    let try_rvas = prepend_distinct_vec(config_rva, &known);
    let cands = hp_offset_candidates();
    let hp_offs = prepend_distinct_vec(config_hp_off, &cands);
    let mut best: Option<(i32, LocalPlayerDiscovery)> = None;

    let mut i: usize = 0;
    while i < try_rvas.len()
        invariant
            reader_total(read),
            i <= try_rvas@.len(),
            try_rvas@ == tried_rvas(config_rva, on_client),
            hp_offs@ == tried_hp_offsets(config_hp_off),
            forall|mem: MemModel| #[trigger]
                reads_agree(read, mem) ==> best == fold_best(
                    None,
                    known_rows(
                        mem,
                        module_base,
                        try_rvas@.subrange(0, i as int),
                        hp_offs@,
                        config_hp_off,
                    ),
                ),
        decreases try_rvas@.len() - i,
    {
        let ghost before = best;
        consider_slot(read, &mut best, module_base, try_rvas[i], &hp_offs, config_hp_off, true);
        assert forall|mem: MemModel| #[trigger] reads_agree(read, mem) implies best == fold_best(
            None,
            known_rows(mem, module_base, try_rvas@.subrange(0, i + 1), hp_offs@, config_hp_off),
        ) by {
            let pre = try_rvas@.subrange(0, i as int);
            assert(try_rvas@.subrange(0, i + 1).drop_last() =~= pre);
            assert(try_rvas@.subrange(0, i + 1).last() == try_rvas@[i as int]);
            lemma_fold_best_append(
                None,
                known_rows(mem, module_base, pre, hp_offs@, config_hp_off),
                slot_row(mem, module_base, try_rvas@[i as int], hp_offs@, config_hp_off, true),
            );
        }
        i = i + 1;
    }
    assert(try_rvas@.subrange(0, try_rvas@.len() as int) =~= try_rvas@);

    let n: u32 = (scan_end - scan_start) / 4;
    let mut j: u32 = 0;
    while j < n
        invariant
            reader_total(read),
            j <= n,
            n == (scan_hi(on_client) - scan_lo()) / 4,
            scan_start == scan_lo(),
            try_rvas@ == tried_rvas(config_rva, on_client),
            hp_offs@ == tried_hp_offsets(config_hp_off),
            forall|mem: MemModel| #[trigger]
                reads_agree(read, mem) ==> best == fold_best(
                    None,
                    known_rows(mem, module_base, try_rvas@, hp_offs@, config_hp_off) + scan_rows(
                        mem,
                        module_base,
                        scan_start,
                        j as nat,
                        try_rvas@,
                        hp_offs@,
                        config_hp_off,
                    ),
                ),
        decreases n - j,
    {
        let rva = scan_start + 4 * j;
        let skip = contains_u32(&try_rvas, rva);
        if !skip {
            consider_slot(read, &mut best, module_base, rva, &hp_offs, config_hp_off, false);
        }
        assert forall|mem: MemModel| #[trigger] reads_agree(read, mem) implies best == fold_best(
            None,
            known_rows(mem, module_base, try_rvas@, hp_offs@, config_hp_off) + scan_rows(
                mem,
                module_base,
                scan_start,
                (j + 1) as nat,
                try_rvas@,
                hp_offs@,
                config_hp_off,
            ),
        ) by {
            let kr = known_rows(mem, module_base, try_rvas@, hp_offs@, config_hp_off);
            let sr = scan_rows(
                mem,
                module_base,
                scan_start,
                j as nat,
                try_rvas@,
                hp_offs@,
                config_hp_off,
            );
            let tail = if skip {
                Seq::<(i32, LocalPlayerDiscovery)>::empty()
            } else {
                slot_row(mem, module_base, rva, hp_offs@, config_hp_off, false)
            };
            assert(scan_rows(
                mem,
                module_base,
                scan_start,
                (j + 1) as nat,
                try_rvas@,
                hp_offs@,
                config_hp_off,
            ) == sr + tail);
            assert(kr + (sr + tail) =~= (kr + sr) + tail);
            lemma_fold_best_append(None, kr + sr, tail);
            assert(fold_best(fold_best(None, kr + sr), Seq::<(i32, LocalPlayerDiscovery)>::empty())
                == fold_best(None, kr + sr));
        }
        j = j + 1;
    }
    match best {
        Some(b) => Some(b.1),
        None => None,
    }
}

// ----------------------------------------------------------------------------
// Properties
// ----------------------------------------------------------------------------

/// Discovery tries the configured RVA and health offset first, and the
/// player it finds is a candidate with the highest score among the plausible
/// ones; it finds nothing when the module is not loaded or no candidate is
/// plausible.
pub proof fn lemma_discover_picks_best(
    mem: MemModel,
    module_base: u32,
    config_rva: u32,
    config_hp_off: u32,
    on_client: bool,
)
    ensures
        tried_rvas(config_rva, on_client)[0] == config_rva,
        tried_hp_offsets(config_hp_off)[0] == config_hp_off,
        ({
            let cands = discover_candidates(mem, module_base, config_rva, config_hp_off, on_client);
            match discover_spec(mem, module_base, config_rva, config_hp_off, on_client) {
                Some(d) => module_base != 0 && exists|k: int|
                    0 <= k < cands.len() && (#[trigger] cands[k]).1 == d && cands[k].0 != i32::MIN
                        && forall|j: int| 0 <= j < cands.len() ==> (#[trigger] cands[j]).0 <= cands[k].0,
                None => module_base == 0 || forall|j: int|
                    0 <= j < cands.len() ==> (#[trigger] cands[j]).0 == i32::MIN,
            }
        }),
{
    let cands = discover_candidates(mem, module_base, config_rva, config_hp_off, on_client);
    lemma_fold_best_max(cands);
    match fold_best(None, cands) {
        Some(b) => {
            let k = choose|k: int| 0 <= k < cands.len() && cands[k] == b;
            assert(cands[k] == b);
        },
        None => {},
    }
}

/// For one entity pointer, the configured health offset outscores any other
/// offset by at least 200 points plus the difference in health read there, so
/// it wins unless the other health is higher by 200 or more.
pub proof fn lemma_configured_health_offset_preferred(
    mem: MemModel,
    player: u32,
    config_hp_off: u32,
    other: u32,
    from_known_rva: bool,
)
    requires
        other != config_hp_off,
        hp_of(mem, player, config_hp_off) is Some,
        hp_of(mem, player, other) is Some,
    ensures
        candidate_score(mem, player, config_hp_off, config_hp_off, from_known_rva) >= candidate_score(
            mem,
            player,
            other,
            config_hp_off,
            from_known_rva,
        ) + 200 + hp_of(mem, player, config_hp_off)->Some_0 - hp_of(mem, player, other)->Some_0,
        hp_of(mem, player, other)->Some_0 < hp_of(mem, player, config_hp_off)->Some_0 + 200 ==> candidate_score(
            mem,
            player,
            config_hp_off,
            config_hp_off,
            from_known_rva,
        ) > candidate_score(mem, player, other, config_hp_off, from_known_rva),
{
}

} // verus!
