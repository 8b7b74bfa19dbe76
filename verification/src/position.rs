//! Player position discovery: the integer side of it — which entities and
//! global slots are candidates, which (base, offset) pairs are probed, and how
//! offsets are ranked.  Whether the three floats at a probe look like a map
//! position is decided by the caller's float predicate.
use vstd::prelude::*;

use crate::memory::{
    i32_at, read_i32, read_word, reader_total, reads_agree, word_at, wrap_add, wrap_sub, MemModel,
};
use crate::util::{contains_u32, prepend_distinct, prepend_distinct_vec};

verus! {

/// Where a vec3 position lies: `player + offset`.
#[derive(Debug, Clone, Copy, PartialEq, Eq, Structural)]
pub struct PositionDiscovery {
    /// Base address: an entity or a global slot.
    pub player: u32,
    /// Offset of the vec3 from the base.
    pub offset: u32,
}

/// A candidate player entity with the offset of its health.
#[derive(Debug, Clone, Copy, PartialEq, Eq, Structural)]
pub struct PlayerCandidate {
    pub player: u32,
    pub hp_offset: u32,
    /// Found through hw.dll (rather than client.dll).
    pub from_hw: bool,
}

/// Known offsets of `m_vecOrigin` / `entvars.origin` across GoldSrc builds.
pub open spec fn pos_offset_candidates() -> Seq<u32> {
    seq![
        0x8u32, 0x14, 0x20, 0x34, 0x38, 0x3C, 0x40, 0x44, 0x48, 0x128, 0x12C, 0x130, 0x134,
        0x138, 0x13C, 0x140, 0x1A4, 0x204, 0x334,
    ]
}

/// The known origin offsets, `entvars` first (origin, oldorigin, velocity).
pub fn pos_offsets() -> (v: Vec<u32>)
    ensures
        v@ == pos_offset_candidates(),
{
    let v: Vec<u32> = vec![
        0x8, 0x14, 0x20, 0x34, 0x38, 0x3C, 0x40, 0x44, 0x48, 0x128, 0x12C, 0x130, 0x134, 0x138,
        0x13C, 0x140, 0x1A4, 0x204, 0x334,
    ];
    assert(v@ =~= pos_offset_candidates());
    v
}

/// Known health offsets of hw.dll entities.
pub open spec fn hp_offs_hw() -> Seq<u32> {
    seq![0x59Cu32, 0x334, 0x100, 0xB74, 0xFC, 0x14]
}

/// The known health offsets of hw.dll entities.
pub fn hp_offsets_hw() -> (v: Vec<u32>)
    ensures
        v@ == hp_offs_hw(),
{
    let v: Vec<u32> = vec![0x59C, 0x334, 0x100, 0xB74, 0xFC, 0x14];
    assert(v@ =~= hp_offs_hw());
    v
}

/// hw.dll RVAs of the world entity pointer, 0x169438 first.
pub open spec fn lp_rva_hw_for_pos() -> Seq<u32> {
    seq![0x00169438u32, 0x0010FC80, 0x00176C68, 0x001694F0, 0x0013FDF4]
}

/// The hw.dll RVAs of the world entity pointer.
pub fn lp_rvas_hw_for_pos() -> (v: Vec<u32>)
    ensures
        v@ == lp_rva_hw_for_pos(),
{
    let v: Vec<u32> = vec![0x00169438, 0x0010FC80, 0x00176C68, 0x001694F0, 0x0013FDF4];
    assert(v@ =~= lp_rva_hw_for_pos());
    v
}

/// hw.dll RVAs of vec3 origins of known builds.
pub open spec fn global_origin_rva_hw() -> Seq<u32> {
    seq![0x0007CD13Cu32, 0x0012047A0, 0x001230274, 0x00122E324, 0x00108AEC4]
}

/// client.dll RVAs of vec3 origins (LocalOrigin and similar).
pub open spec fn global_origin_rva_client() -> Seq<u32> {
    seq![0x0013E7F0u32, 0x0012D9F0]
}

/// The hw.dll RVAs of vec3 origins of known builds.
pub fn global_origin_rvas_hw() -> (v: Vec<u32>)
    ensures
        v@ == global_origin_rva_hw(),
{
    let v: Vec<u32> = vec![0x0007CD13C, 0x0012047A0, 0x001230274, 0x00122E324, 0x00108AEC4];
    assert(v@ =~= global_origin_rva_hw());
    v
}

/// The client.dll RVAs of vec3 origins.
pub fn global_origin_rvas_client() -> (v: Vec<u32>)
    ensures
        v@ == global_origin_rva_client(),
{
    let v: Vec<u32> = vec![0x0013E7F0, 0x0012D9F0];
    assert(v@ =~= global_origin_rva_client());
    v
}

/// Offsets of the edict → entvars (`pev`) pointer across builds.
pub open spec fn pev_ptr_offs() -> Seq<u32> {
    seq![0x0u32, 0x4, 0x8, 0xC, 0x10, 0x14, 0x18, 0x1C, 0x20, 0x24, 0x28, 0x2C]
}

/// The offsets of the edict → entvars pointer.
pub fn pev_ptr_offsets() -> (v: Vec<u32>)
    ensures
        v@ == pev_ptr_offs(),
{
    let v: Vec<u32> = vec![0x0, 0x4, 0x8, 0xC, 0x10, 0x14, 0x18, 0x1C, 0x20, 0x24, 0x28, 0x2C];
    assert(v@ =~= pev_ptr_offs());
    v
}

/// `entvars` offsets probed behind a `pev` pointer.
pub open spec fn pev_origin_offs() -> Seq<u32> {
    seq![0x8u32, 0x14, 0x20, 0x34, 0x38, 0x44]
}

/// `entvars` offsets probed when the entity starts with its `entvars` pointer.
pub open spec fn entvars_origin_offs() -> Seq<u32> {
    seq![0x8u32, 0x14, 0x20, 0x34]
}

/// An aligned pointer into the user-space window.
pub open spec fn spec_valid_ptr(addr: u32) -> bool {
    0x0100_0000 <= addr <= 0x7FFF_0000 && addr % 4 == 0
}

/// A pointer into the user-space window (alignment not required).
pub open spec fn in_user_range(addr: u32) -> bool {
    0x0100_0000 <= addr <= 0x7FFF_0000
}

/// Whether `addr` is an aligned user-space pointer.
pub fn valid_ptr(addr: u32) -> (b: bool)
    ensures
        b == spec_valid_ptr(addr),
{
    assert((addr & 3 == 0) == (addr % 4 == 0)) by (bit_vector);
    0x0100_0000 <= addr && addr <= 0x7FFF_0000 && addr & 3 == 0
}

/// Whether `player` is the client.dll stub derived from the direct health address.
pub open spec fn spec_is_client_stub(player: u32, health_direct: u32, client_hp_off: u32) -> bool {
    health_direct != 0 && player == wrap_sub(health_direct, client_hp_off)
}

/// Whether `player` is the client.dll stub (`health_direct - hp_off`), not an entity.
pub fn is_client_stub(player: u32, health_direct: u32, client_hp_off: u32) -> (b: bool)
    ensures
        b == spec_is_client_stub(player, health_direct, client_hp_off),
{
    health_direct != 0 && player == health_direct.wrapping_sub(client_hp_off)
}

/// The rank of an origin offset: the configured offset and the common
/// `entvars` offsets rank high, 0x124/0x128 and far offsets low.
pub open spec fn offset_score(offset: u32, config_off: u32) -> int {
    (if offset == config_off {
        200int
    } else {
        0
    }) + (if offset == 0x8 || offset == 0x34 || offset == 0x38 || offset == 0x44 {
        500int
    } else if offset == 0x134 {
        350
    } else if offset == 0x138 {
        200
    } else if offset == 0x124 || offset == 0x128 {
        -5000
    } else {
        0
    }) + (if offset >= 0x1000 {
        -800int
    } else {
        0
    })
}

/// Ranks an origin offset.
pub fn score_offset(offset: u32, config_off: u32) -> (s: i32)
    ensures
        s == offset_score(offset, config_off),
{
    let mut score: i32 = 0;
    if offset == config_off {
        score = score + 200;
    }
    if offset == 0x8 || offset == 0x34 || offset == 0x38 || offset == 0x44 {
        score = score + 500;
    } else if offset == 0x134 {
        score = score + 350;
    } else if offset == 0x138 {
        score = score + 200;
    } else if offset == 0x124 || offset == 0x128 {
        score = score - 5000;
    }
    if offset >= 0x1000 {
        score = score - 800;
    }
    score
}

/// Origin offsets in the order they are tried: the configured one first.
pub fn offsets_to_try(config_off: u32) -> (v: Vec<u32>)
    ensures
        v@ == prepend_distinct(config_off, pos_offset_candidates()),
{
    let c = pos_offsets();
    prepend_distinct_vec(config_off, &c)
}

/// `hits` with `(player, off)` appended unless already present.
pub open spec fn add_hit(hits: Seq<(u32, u32)>, player: u32, off: u32) -> Seq<(u32, u32)> {
    if hits.contains((player, off)) {
        hits
    } else {
        hits.push((player, off))
    }
}

/// Records a hit once.
pub fn push_hit(hits: &mut Vec<(u32, u32)>, player: u32, off: u32)
    ensures
        final(hits)@ == add_hit(old(hits)@, player, off),
{
    let mut i: usize = 0;
    while i < hits.len()
        invariant
            i <= hits@.len(),
            hits@ == old(hits)@,
            forall|k: int| 0 <= k < i ==> hits@[k] != (player, off),
        decreases hits@.len() - i,
    {
        let (p, o) = hits[i];
        if p == player && o == off {
            assert(hits@[i as int] == (player, off));
            return ;
        }
        i = i + 1;
    }
    hits.push((player, off));
}

/// Whether `player + hp_off` holds a health of 0..=100, equal to the expected
/// one when there is one.
pub open spec fn hp_matches_at(mem: MemModel, player: u32, hp_off: u32, expected: Option<i32>) -> bool {
    match i32_at(mem, wrap_add(player, hp_off)) {
        Ok(hp) => 0 <= hp <= 100 && match expected {
            Some(e) => hp == e,
            None => true,
        },
        Err(_) => false,
    }
}

/// Checks the health of a candidate entity.
pub fn hp_matches<F: Fn(u32) -> Option<u32>>(read: &F, player: u32, hp_off: u32, expected: Option<i32>) -> (b: bool)
    requires
        reader_total(read),
    ensures
        forall|mem: MemModel| #[trigger]
            reads_agree(read, mem) ==> b == hp_matches_at(mem, player, hp_off, expected),
{
    let hp = match read_i32(read, player.wrapping_add(hp_off)) {
        Ok(v) => v,
        Err(_) => {
            return false;
        },
    };
    if !(0 <= hp && hp <= 100) {
        return false;
    }
    match expected {
        Some(e) => hp == e,
        None => true,
    }
}

// ----------------------------------------------------------------------------
// Candidate player entities
// ----------------------------------------------------------------------------

/// `out` with candidate `c` appended, unless its address is no aligned
/// user-space pointer or the same (player, health offset) is already listed.
pub open spec fn add_candidate(out: Seq<PlayerCandidate>, c: PlayerCandidate) -> Seq<PlayerCandidate> {
    if !spec_valid_ptr(c.player) || exists|i: int|
        0 <= i < out.len() && out[i].player == c.player && out[i].hp_offset == c.hp_offset {
        out
    } else {
        out.push(c)
    }
}

/// `out` after adding each of `cs` in order.
pub open spec fn add_candidates(out: Seq<PlayerCandidate>, cs: Seq<PlayerCandidate>) -> Seq<PlayerCandidate>
    decreases cs.len(),
{
    if cs.len() == 0 {
        out
    } else {
        add_candidate(add_candidates(out, cs.drop_last()), cs.last())
    }
}

proof fn lemma_add_candidates_append(out: Seq<PlayerCandidate>, xs: Seq<PlayerCandidate>, ys: Seq<PlayerCandidate>)
    ensures
        add_candidates(out, xs + ys) == add_candidates(add_candidates(out, xs), ys),
    decreases ys.len(),
{
    if ys.len() == 0 {
        assert(xs + ys =~= xs);
    } else {
        lemma_add_candidates_append(out, xs, ys.drop_last());
        assert((xs + ys).drop_last() =~= xs + ys.drop_last());
        assert((xs + ys).last() == ys.last());
    }
}

/// The candidates of one entity pointer: one per health offset whose health matches.
pub open spec fn hp_hits(mem: MemModel, player: u32, hoffs: Seq<u32>) -> Seq<PlayerCandidate>
    decreases hoffs.len(),
{
    if hoffs.len() == 0 {
        Seq::empty()
    } else {
        hp_hits(mem, player, hoffs.drop_last()) + if hp_matches_at(mem, player, hoffs.last(), None) {
            seq![PlayerCandidate { player, hp_offset: hoffs.last(), from_hw: true }]
        } else {
            Seq::empty()
        }
    }
}

/// The candidates of the hw.dll entity pointer slots `hw_base + rva`.
pub open spec fn hw_attempts(mem: MemModel, hw_base: u32, rvas: Seq<u32>) -> Seq<PlayerCandidate>
    decreases rvas.len(),
{
    if rvas.len() == 0 {
        Seq::empty()
    } else {
        hw_attempts(mem, hw_base, rvas.drop_last()) + match word_at(mem, wrap_add(hw_base, rvas.last())) {
            Ok(player) => hp_hits(mem, player, hp_offs_hw()),
            Err(_) => Seq::empty(),
        }
    }
}

/// The hw.dll entity pointer RVAs: the configured one first when it is not known.
pub open spec fn pos_entity_rvas(config_entity_hw_rva: Option<u32>) -> Seq<u32> {
    match config_entity_hw_rva {
        Some(r) => if lp_rva_hw_for_pos().contains(r) {
            lp_rva_hw_for_pos()
        } else {
            seq![r] + lp_rva_hw_for_pos()
        },
        None => lp_rva_hw_for_pos(),
    }
}

/// The local player pointer's candidate, unless it is the client.dll stub.
pub open spec fn lp_attempt(
    mem: MemModel,
    hw_base: u32,
    client_base: u32,
    on_client: bool,
    config_lp_rva: u32,
    health_direct: u32,
    client_hp_off: u32,
) -> Seq<PlayerCandidate> {
    let lp_base = if on_client {
        client_base
    } else {
        hw_base
    };
    if lp_base == 0 {
        Seq::empty()
    } else {
        match word_at(mem, wrap_add(lp_base, config_lp_rva)) {
            Ok(player) => if spec_is_client_stub(player, health_direct, client_hp_off) {
                Seq::empty()
            } else {
                seq![PlayerCandidate { player, hp_offset: client_hp_off, from_hw: false }]
            },
            Err(_) => Seq::empty(),
        }
    }
}

/// The candidate player entities: hw.dll entity pointers whose health
/// matches (with every known hw health offset), then the local player pointer;
/// each aligned user-space entity once per health offset.
pub open spec fn position_candidates(
    mem: MemModel,
    hw_base: u32,
    client_base: u32,
    on_client: bool,
    config_lp_rva: u32,
    health_direct: u32,
    client_hp_off: u32,
    config_entity_hw_rva: Option<u32>,
) -> Seq<PlayerCandidate> {
    add_candidates(
        Seq::empty(),
        (if hw_base != 0 {
            hw_attempts(mem, hw_base, pos_entity_rvas(config_entity_hw_rva))
        } else {
            Seq::empty()
        }) + lp_attempt(
            mem,
            hw_base,
            client_base,
            on_client,
            config_lp_rva,
            health_direct,
            client_hp_off,
        ),
    )
}

/// No (player, health offset) pair occurs twice in `s`.
pub open spec fn distinct_candidates(s: Seq<PlayerCandidate>) -> bool {
    forall|i: int, j: int|
        0 <= i < j < s.len() ==> !(s[i].player == s[j].player && s[i].hp_offset == s[j].hp_offset)
}

/// What a listed candidate satisfies: an aligned user-space entity; one found
/// through hw.dll has a known hw health offset at which a health of 0..=100
/// was read; the local player pointer's is no client.dll stub and uses the
/// configured health offset.
pub open spec fn sound_candidate(mem: MemModel, c: PlayerCandidate, health_direct: u32, client_hp_off: u32) -> bool {
    &&& spec_valid_ptr(c.player)
    &&& c.from_hw ==> hp_offs_hw().contains(c.hp_offset) && hp_matches_at(mem, c.player, c.hp_offset, None)
    &&& !c.from_hw ==> c.hp_offset == client_hp_off && !spec_is_client_stub(
        c.player,
        health_direct,
        client_hp_off,
    )
}

proof fn lemma_add_candidates_keeps(out: Seq<PlayerCandidate>, cs: Seq<PlayerCandidate>)
    ensures
        forall|i: int| 0 <= i < add_candidates(out, cs).len() ==> out.contains(
            #[trigger] add_candidates(out, cs)[i],
        ) || (cs.contains(add_candidates(out, cs)[i]) && spec_valid_ptr(add_candidates(out, cs)[i].player)),
        distinct_candidates(out) ==> distinct_candidates(add_candidates(out, cs)),
    decreases cs.len(),
{
    if cs.len() > 0 {
        let prev = cs.drop_last();
        lemma_add_candidates_keeps(out, prev);
        let r0 = add_candidates(out, prev);
        let r = add_candidates(out, cs);
        assert forall|i: int| 0 <= i < r.len() implies out.contains(#[trigger] r[i]) || (cs.contains(r[i])
            && spec_valid_ptr(r[i].player)) by {
            if i < r0.len() {
                assert(r[i] == r0[i]);
                if !out.contains(r0[i]) {
                    let k = choose|k: int| 0 <= k < prev.len() && prev[k] == r0[i];
                    assert(cs[k] == prev[k]);
                }
            } else {
                assert(r[i] == cs.last());
                assert(cs[cs.len() - 1] == cs.last());
            }
        }
    }
}

proof fn lemma_hp_hits_sound(mem: MemModel, player: u32, hoffs: Seq<u32>)
    ensures
        forall|i: int| 0 <= i < hp_hits(mem, player, hoffs).len() ==> {
            let c = #[trigger] hp_hits(mem, player, hoffs)[i];
            c.player == player && c.from_hw && hoffs.contains(c.hp_offset) && hp_matches_at(
                mem,
                player,
                c.hp_offset,
                None,
            )
        },
    decreases hoffs.len(),
{
    if hoffs.len() > 0 {
        let prev = hoffs.drop_last();
        lemma_hp_hits_sound(mem, player, prev);
        let h0 = hp_hits(mem, player, prev);
        let h = hp_hits(mem, player, hoffs);
        assert forall|i: int| 0 <= i < h.len() implies {
            let c = #[trigger] h[i];
            c.player == player && c.from_hw && hoffs.contains(c.hp_offset) && hp_matches_at(
                mem,
                player,
                c.hp_offset,
                None,
            )
        } by {
            if i < h0.len() {
                assert(h[i] == h0[i]);
                let k = choose|k: int| 0 <= k < prev.len() && prev[k] == h0[i].hp_offset;
                assert(hoffs[k] == prev[k]);
            } else {
                assert(h[i].hp_offset == hoffs.last());
                assert(hoffs[hoffs.len() - 1] == hoffs.last());
            }
        }
    }
}

proof fn lemma_hw_attempts_sound(mem: MemModel, hw_base: u32, rvas: Seq<u32>)
    ensures
        forall|i: int| 0 <= i < hw_attempts(mem, hw_base, rvas).len() ==> {
            let c = #[trigger] hw_attempts(mem, hw_base, rvas)[i];
            c.from_hw && hp_offs_hw().contains(c.hp_offset) && hp_matches_at(mem, c.player, c.hp_offset, None)
        },
    decreases rvas.len(),
{
    if rvas.len() > 0 {
        let prev = rvas.drop_last();
        lemma_hw_attempts_sound(mem, hw_base, prev);
        let a0 = hw_attempts(mem, hw_base, prev);
        let a = hw_attempts(mem, hw_base, rvas);
        match word_at(mem, wrap_add(hw_base, rvas.last())) {
            Ok(player) => {
                lemma_hp_hits_sound(mem, player, hp_offs_hw());
                let t = hp_hits(mem, player, hp_offs_hw());
                assert forall|i: int| 0 <= i < a.len() implies {
                    let c = #[trigger] a[i];
                    c.from_hw && hp_offs_hw().contains(c.hp_offset) && hp_matches_at(
                        mem,
                        c.player,
                        c.hp_offset,
                        None,
                    )
                } by {
                    if i < a0.len() {
                        assert(a[i] == a0[i]);
                    } else {
                        assert(a[i] == t[i - a0.len()]);
                    }
                }
            },
            Err(_) => {
                assert(a =~= a0);
            },
        }
    }
}

/// Every candidate entity listed for position discovery is sound (see
/// `sound_candidate`), and no (player, health offset) pair is listed twice.
pub proof fn lemma_position_candidates_sound(
    mem: MemModel,
    hw_base: u32,
    client_base: u32,
    on_client: bool,
    config_lp_rva: u32,
    health_direct: u32,
    client_hp_off: u32,
    config_entity_hw_rva: Option<u32>,
)
    ensures
        distinct_candidates(
            position_candidates(
                mem,
                hw_base,
                client_base,
                on_client,
                config_lp_rva,
                health_direct,
                client_hp_off,
                config_entity_hw_rva,
            ),
        ),
        forall|i: int|
            0 <= i < position_candidates(
                mem,
                hw_base,
                client_base,
                on_client,
                config_lp_rva,
                health_direct,
                client_hp_off,
                config_entity_hw_rva,
            ).len() ==> sound_candidate(
                mem,
                #[trigger] position_candidates(
                    mem,
                    hw_base,
                    client_base,
                    on_client,
                    config_lp_rva,
                    health_direct,
                    client_hp_off,
                    config_entity_hw_rva,
                )[i],
                health_direct,
                client_hp_off,
            ),
{
    let hw = if hw_base != 0 {
        hw_attempts(mem, hw_base, pos_entity_rvas(config_entity_hw_rva))
    } else {
        Seq::empty()
    };
    let lp = lp_attempt(mem, hw_base, client_base, on_client, config_lp_rva, health_direct, client_hp_off);
    let cs = hw + lp;
    let pc = position_candidates(
        mem,
        hw_base,
        client_base,
        on_client,
        config_lp_rva,
        health_direct,
        client_hp_off,
        config_entity_hw_rva,
    );
    assert(pc == add_candidates(Seq::empty(), cs));
    lemma_add_candidates_keeps(Seq::empty(), cs);
    if hw_base != 0 {
        lemma_hw_attempts_sound(mem, hw_base, pos_entity_rvas(config_entity_hw_rva));
    }
    assert forall|i: int| 0 <= i < pc.len() implies sound_candidate(mem, #[trigger] pc[i], health_direct, client_hp_off) by {
        let c = pc[i];
        assert(!Seq::<PlayerCandidate>::empty().contains(c));
        let k = choose|k: int| 0 <= k < cs.len() && cs[k] == c;
        if k < hw.len() {
            assert(cs[k] == hw[k]);
        } else {
            assert(cs[k] == lp[k - hw.len()]);
        }
    }
}

fn push_candidate(out: &mut Vec<PlayerCandidate>, c: PlayerCandidate)
    ensures
        final(out)@ == add_candidate(old(out)@, c),
{
    if !valid_ptr(c.player) {
        return ;
    }
    let mut i: usize = 0;
    while i < out.len()
        invariant
            i <= out@.len(),
            out@ == old(out)@,
            forall|k: int| 0 <= k < i ==> !(out@[k].player == c.player && out@[k].hp_offset == c.hp_offset),
        decreases out@.len() - i,
    {
        if out[i].player == c.player && out[i].hp_offset == c.hp_offset {
            return ;
        }
        i = i + 1;
    }
    out.push(c);
}

/// Adds the hw.dll candidates of one entity pointer slot.
fn add_hw_slot<F: Fn(u32) -> Option<u32>>(read: &F, out: &mut Vec<PlayerCandidate>, hw_base: u32, rva: u32, hoffs: &Vec<u32>)
    requires
        reader_total(read),
        hoffs@ == hp_offs_hw(),
    ensures
        forall|mem: MemModel| #[trigger]
            reads_agree(read, mem) ==> final(out)@ == add_candidates(
                old(out)@,
                match word_at(mem, wrap_add(hw_base, rva)) {
                    Ok(player) => hp_hits(mem, player, hp_offs_hw()),
                    Err(_) => Seq::empty(),
                },
            ),
{
    let player = match read_word(read, hw_base.wrapping_add(rva)) {
        Ok(p) => p,
        Err(_) => {
            return ;
        },
    };
    let ghost start = out@;
    let mut k: usize = 0;
    while k < hoffs.len()
        invariant
            reader_total(read),
            k <= hoffs@.len(),
            forall|mem: MemModel| #[trigger]
                reads_agree(read, mem) ==> word_at(mem, wrap_add(hw_base, rva)) == Ok::<
                    u32,
                    crate::error::MemoryError,
                >(player),
            forall|mem: MemModel| #[trigger]
                reads_agree(read, mem) ==> out@ == add_candidates(
                    start,
                    hp_hits(mem, player, hoffs@.subrange(0, k as int)),
                ),
        decreases hoffs@.len() - k,
    {
        let h = hoffs[k];
        let m = hp_matches(read, player, h, None);
        let c = PlayerCandidate { player, hp_offset: h, from_hw: true };
        let ghost before = out@;
        if m {
            push_candidate(out, c);
        }
        assert forall|mem: MemModel| #[trigger] reads_agree(read, mem) implies out@ == add_candidates(
            start,
            hp_hits(mem, player, hoffs@.subrange(0, k + 1)),
        ) by {
            let pre = hoffs@.subrange(0, k as int);
            assert(hoffs@.subrange(0, k + 1).drop_last() =~= pre);
            let tail = if m {
                seq![c]
            } else {
                Seq::<PlayerCandidate>::empty()
            };
            assert(hoffs@.subrange(0, k + 1).last() == h);
            assert(hp_hits(mem, player, hoffs@.subrange(0, k + 1)) == hp_hits(mem, player, pre) + tail);
            lemma_add_candidates_append(start, hp_hits(mem, player, pre), tail);
            assert(before == add_candidates(start, hp_hits(mem, player, pre)));
            if m {
                assert(tail.drop_last() =~= Seq::<PlayerCandidate>::empty());
                assert(add_candidates(before, tail) == add_candidate(
                    add_candidates(before, tail.drop_last()),
                    tail.last(),
                ));
            } else {
                assert(add_candidates(before, tail) == before);
            }
        }
        k = k + 1;
    }
    assert(hoffs@.subrange(0, hoffs@.len() as int) =~= hoffs@);
}

/// The hw.dll entity pointer RVAs, the configured one first when it is not known.
pub fn entity_rvas(config_entity_hw_rva: Option<u32>) -> (v: Vec<u32>)
    ensures
        v@ == pos_entity_rvas(config_entity_hw_rva),
{
    let mut rvas = lp_rvas_hw_for_pos();
    match config_entity_hw_rva {
        Some(rva) => {
            if !contains_u32(&rvas, rva) {
                rvas.insert(0, rva);
                assert(rvas@ =~= seq![rva] + lp_rva_hw_for_pos());
            }
        },
        None => {},
    }
    rvas
}

/// Collects the candidate player entities for position discovery.
pub fn collect_position_candidates<F: Fn(u32) -> Option<u32>>(
    read: &F,
    hw_base: u32,
    client_base: u32,
    on_client: bool,
    config_lp_rva: u32,
    health_direct: u32,
    client_hp_off: u32,
    config_entity_hw_rva: Option<u32>,
) -> (out: Vec<PlayerCandidate>)
    requires
        reader_total(read),
    ensures
        forall|mem: MemModel| #[trigger]
            reads_agree(read, mem) ==> out@ == position_candidates(
                mem,
                hw_base,
                client_base,
                on_client,
                config_lp_rva,
                health_direct,
                client_hp_off,
                config_entity_hw_rva,
            ),
{
    let mut out: Vec<PlayerCandidate> = Vec::new();
    let ghost empty = out@;
    let rvas = entity_rvas(config_entity_hw_rva);
    let hoffs = hp_offsets_hw();
    if hw_base != 0 {
        let mut i: usize = 0;
        while i < rvas.len()
            invariant
                reader_total(read),
                hoffs@ == hp_offs_hw(),
                i <= rvas@.len(),
                empty == Seq::<PlayerCandidate>::empty(),
                forall|mem: MemModel| #[trigger]
                    reads_agree(read, mem) ==> out@ == add_candidates(
                        empty,
                        hw_attempts(mem, hw_base, rvas@.subrange(0, i as int)),
                    ),
            decreases rvas@.len() - i,
        {
            add_hw_slot(read, &mut out, hw_base, rvas[i], &hoffs);
            assert forall|mem: MemModel| #[trigger] reads_agree(read, mem) implies out@
                == add_candidates(empty, hw_attempts(mem, hw_base, rvas@.subrange(0, i + 1))) by {
                let pre = rvas@.subrange(0, i as int);
                assert(rvas@.subrange(0, i + 1).drop_last() =~= pre);
                assert(rvas@.subrange(0, i + 1).last() == rvas@[i as int]);
                lemma_add_candidates_append(
                    empty,
                    hw_attempts(mem, hw_base, pre),
                    match word_at(mem, wrap_add(hw_base, rvas@[i as int])) {
                        Ok(player) => hp_hits(mem, player, hp_offs_hw()),
                        Err(_) => Seq::empty(),
                    },
                );
            }
            i = i + 1;
        }
        assert(rvas@.subrange(0, rvas@.len() as int) =~= rvas@);
    }
    let ghost mid = out@;
    let lp_base = if on_client {
        client_base
    } else {
        hw_base
    };
    let mut pushed: Option<PlayerCandidate> = None;
    if lp_base != 0 {
        match read_word(read, lp_base.wrapping_add(config_lp_rva)) {
            Ok(player) => {
                if !is_client_stub(player, health_direct, client_hp_off) {
                    let c = PlayerCandidate { player, hp_offset: client_hp_off, from_hw: false };
                    push_candidate(&mut out, c);
                    pushed = Some(c);
                }
            },
            Err(_) => {},
        }
    }
    assert forall|mem: MemModel| #[trigger] reads_agree(read, mem) implies out@ == position_candidates(
        mem,
        hw_base,
        client_base,
        on_client,
        config_lp_rva,
        health_direct,
        client_hp_off,
        config_entity_hw_rva,
    ) by {
        let hw = if hw_base != 0 {
            hw_attempts(mem, hw_base, pos_entity_rvas(config_entity_hw_rva))
        } else {
            Seq::<PlayerCandidate>::empty()
        };
        let lp = lp_attempt(mem, hw_base, client_base, on_client, config_lp_rva, health_direct, client_hp_off);
        if hw_base == 0 {
            assert(add_candidates(empty, Seq::<PlayerCandidate>::empty()) == empty);
        }
        assert(mid == add_candidates(empty, hw));
        lemma_add_candidates_append(empty, hw, lp);
        match pushed {
            Some(c) => {
                assert(lp =~= seq![c]);
                assert(lp.drop_last() =~= Seq::<PlayerCandidate>::empty());
                assert(add_candidates(mid, lp) == add_candidate(
                    add_candidates(mid, lp.drop_last()),
                    lp.last(),
                ));
            },
            None => {
                assert(lp =~= Seq::<PlayerCandidate>::empty());
                assert(add_candidates(mid, lp) == mid);
            },
        }
    }
    out
}

/// The addresses of the candidate player entities.
pub fn collect_player_candidates<F: Fn(u32) -> Option<u32>>(
    read: &F,
    hw_base: u32,
    client_base: u32,
    on_client: bool,
    config_lp_rva: u32,
    health_direct: u32,
    hp_off: u32,
) -> (out: Vec<u32>)
    requires
        reader_total(read),
    ensures
        forall|mem: MemModel| #[trigger]
            reads_agree(read, mem) ==> out@ == position_candidates(
                mem,
                hw_base,
                client_base,
                on_client,
                config_lp_rva,
                health_direct,
                hp_off,
                None,
            ).map_values(|c: PlayerCandidate| c.player),
{
    let cands = collect_position_candidates(
        read,
        hw_base,
        client_base,
        on_client,
        config_lp_rva,
        health_direct,
        hp_off,
        None,
    );
    let mut out: Vec<u32> = Vec::new();
    let mut i: usize = 0;
    while i < cands.len()
        invariant
            i <= cands@.len(),
            out@ == cands@.subrange(0, i as int).map_values(|c: PlayerCandidate| c.player),
        decreases cands@.len() - i,
    {
        out.push(cands[i].player);
        i = i + 1;
        assert(out@ =~= cands@.subrange(0, i as int).map_values(|c: PlayerCandidate| c.player));
    }
    assert(cands@.subrange(0, cands@.len() as int) =~= cands@);
    out
}

// ----------------------------------------------------------------------------
// Global origin slots
// ----------------------------------------------------------------------------

/// `out` with `a` appended when it is an aligned user-space pointer not yet listed.
pub open spec fn add_base(out: Seq<u32>, a: u32) -> Seq<u32> {
    if spec_valid_ptr(a) && !out.contains(a) {
        out.push(a)
    } else {
        out
    }
}

/// `out` after adding each of `xs` in order.
pub open spec fn add_bases(out: Seq<u32>, xs: Seq<u32>) -> Seq<u32>
    decreases xs.len(),
{
    if xs.len() == 0 {
        out
    } else {
        add_base(add_bases(out, xs.drop_last()), xs.last())
    }
}

proof fn lemma_add_bases_append(out: Seq<u32>, xs: Seq<u32>, ys: Seq<u32>)
    ensures
        add_bases(out, xs + ys) == add_bases(add_bases(out, xs), ys),
    decreases ys.len(),
{
    if ys.len() == 0 {
        assert(xs + ys =~= xs);
    } else {
        lemma_add_bases_append(out, xs, ys.drop_last());
        assert((xs + ys).drop_last() =~= xs + ys.drop_last());
        assert((xs + ys).last() == ys.last());
    }
}

/// The addresses a global slot offers: the slot itself, then, when it holds a
/// valid pointer, the pointer and the pointer plus the origin offsets 0x8 and 0x34.
pub open spec fn slot_bases(mem: MemModel, slot: u32) -> Seq<u32> {
    match word_at(mem, slot) {
        Ok(ptr) => if spec_valid_ptr(ptr) {
            seq![slot, ptr, wrap_add(ptr, 0x8), wrap_add(ptr, 0x34)]
        } else {
            seq![slot]
        },
        Err(_) => seq![slot],
    }
}

/// The addresses of the slots `base + rva`, in order.
pub open spec fn rva_bases(mem: MemModel, base: u32, rvas: Seq<u32>) -> Seq<u32>
    decreases rvas.len(),
{
    if rvas.len() == 0 {
        Seq::empty()
    } else {
        rva_bases(mem, base, rvas.drop_last()) + slot_bases(mem, wrap_add(base, rvas.last()))
    }
}

/// An optional RVA in a loaded module as a list of RVAs.
pub open spec fn opt_rvas(rva: Option<u32>, base: u32) -> Seq<u32> {
    match rva {
        Some(r) => if base != 0 {
            seq![r]
        } else {
            Seq::empty()
        },
        None => Seq::empty(),
    }
}

/// The global origin candidates: the configured hw.dll and client.dll slots,
/// then the known ones of each loaded module; each address once.
pub open spec fn global_origin_bases(
    mem: MemModel,
    hw_base: u32,
    client_base: u32,
    config_global_hw_rva: Option<u32>,
    config_global_client_rva: Option<u32>,
) -> Seq<u32> {
    add_bases(
        Seq::empty(),
        rva_bases(mem, hw_base, opt_rvas(config_global_hw_rva, hw_base)) + rva_bases(
            mem,
            client_base,
            opt_rvas(config_global_client_rva, client_base),
        ) + rva_bases(
            mem,
            hw_base,
            if hw_base != 0 {
                global_origin_rva_hw()
            } else {
                Seq::empty()
            },
        ) + rva_bases(
            mem,
            client_base,
            if client_base != 0 {
                global_origin_rva_client()
            } else {
                Seq::empty()
            },
        ),
    )
}

fn push_base(out: &mut Vec<u32>, a: u32)
    ensures
        final(out)@ == add_base(old(out)@, a),
{
    if valid_ptr(a) && !contains_u32(out, a) {
        out.push(a);
    }
}

fn add_slot<F: Fn(u32) -> Option<u32>>(read: &F, out: &mut Vec<u32>, slot: u32)
    requires
        reader_total(read),
    ensures
        forall|mem: MemModel| #[trigger]
            reads_agree(read, mem) ==> final(out)@ == add_bases(old(out)@, slot_bases(mem, slot)),
{
    let ghost o0 = out@;
    push_base(out, slot);
    let ghost o1 = out@;
    let r = read_word(read, slot);
    let ptr_ok = match r {
        Ok(ptr) => valid_ptr(ptr),
        Err(_) => false,
    };
    if ptr_ok {
        let ptr = match r {
            Ok(p) => p,
            Err(_) => 0,
        };
        push_base(out, ptr);
        let ghost o2 = out@;
        push_base(out, ptr.wrapping_add(0x8));
        let ghost o3 = out@;
        push_base(out, ptr.wrapping_add(0x34));
        assert forall|mem: MemModel| #[trigger] reads_agree(read, mem) implies out@ == add_bases(
            o0,
            slot_bases(mem, slot),
        ) by {
            let sb = slot_bases(mem, slot);
            assert(r == word_at(mem, slot));
            assert(sb == seq![slot, ptr, wrap_add(ptr, 0x8), wrap_add(ptr, 0x34)]);
            let s0 = Seq::<u32>::empty();
            let s1 = seq![slot];
            let s2 = seq![slot, ptr];
            let s3 = seq![slot, ptr, wrap_add(ptr, 0x8)];
            assert(s1.drop_last() =~= s0);
            assert(s2.drop_last() =~= s1);
            assert(s3.drop_last() =~= s2);
            assert(sb.drop_last() =~= s3);
            assert(add_bases(o0, s0) == o0);
            assert(add_bases(o0, s1) == o1);
            assert(add_bases(o0, s2) == o2);
            assert(add_bases(o0, s3) == o3);
        }
    } else {
        assert forall|mem: MemModel| #[trigger] reads_agree(read, mem) implies out@ == add_bases(
            o0,
            slot_bases(mem, slot),
        ) by {
            let sb = slot_bases(mem, slot);
            assert(r == word_at(mem, slot));
            assert(sb == seq![slot]);
            assert(sb.drop_last() =~= Seq::<u32>::empty());
            assert(add_bases(o0, Seq::<u32>::empty()) == o0);
        }
    }
}

fn add_rva_slots<F: Fn(u32) -> Option<u32>>(read: &F, out: &mut Vec<u32>, base: u32, rvas: &Vec<u32>)
    requires
        reader_total(read),
    ensures
        forall|mem: MemModel| #[trigger]
            reads_agree(read, mem) ==> final(out)@ == add_bases(old(out)@, rva_bases(mem, base, rvas@)),
{
    let ghost start = out@;
    let mut i: usize = 0;
    while i < rvas.len()
        invariant
            reader_total(read),
            i <= rvas@.len(),
            forall|mem: MemModel| #[trigger]
                reads_agree(read, mem) ==> out@ == add_bases(
                    start,
                    rva_bases(mem, base, rvas@.subrange(0, i as int)),
                ),
        decreases rvas@.len() - i,
    {
        add_slot(read, out, base.wrapping_add(rvas[i]));
        assert forall|mem: MemModel| #[trigger] reads_agree(read, mem) implies out@ == add_bases(
            start,
            rva_bases(mem, base, rvas@.subrange(0, i + 1)),
        ) by {
            let pre = rvas@.subrange(0, i as int);
            assert(rvas@.subrange(0, i + 1).drop_last() =~= pre);
            assert(rvas@.subrange(0, i + 1).last() == rvas@[i as int]);
            lemma_add_bases_append(
                start,
                rva_bases(mem, base, pre),
                slot_bases(mem, wrap_add(base, rvas@[i as int])),
            );
        }
        i = i + 1;
    }
    assert(rvas@.subrange(0, rvas@.len() as int) =~= rvas@);
}

fn opt_rva_vec(rva: Option<u32>, base: u32) -> (v: Vec<u32>)
    ensures
        v@ == opt_rvas(rva, base),
{
    let mut v: Vec<u32> = Vec::new();
    match rva {
        Some(r) => {
            if base != 0 {
                v.push(r);
                assert(v@ =~= seq![r]);
            }
        },
        None => {},
    }
    v
}

/// Collects the global slots that may hold the player's origin, directly or
/// through a pointer.
pub fn collect_global_origin_bases<F: Fn(u32) -> Option<u32>>(
    read: &F,
    hw_base: u32,
    client_base: u32,
    config_global_hw_rva: Option<u32>,
    config_global_client_rva: Option<u32>,
) -> (out: Vec<u32>)
    requires
        reader_total(read),
    ensures
        forall|mem: MemModel| #[trigger]
            reads_agree(read, mem) ==> out@ == global_origin_bases(
                mem,
                hw_base,
                client_base,
                config_global_hw_rva,
                config_global_client_rva,
            ),
{
    let mut out: Vec<u32> = Vec::new();
    let ghost e = out@;
    let a = opt_rva_vec(config_global_hw_rva, hw_base);
    let b = opt_rva_vec(config_global_client_rva, client_base);
    let c = if hw_base != 0 {
        global_origin_rvas_hw()
    } else {
        Vec::new()
    };
    let d = if client_base != 0 {
        global_origin_rvas_client()
    } else {
        Vec::new()
    };
    add_rva_slots(read, &mut out, hw_base, &a);
    let ghost o1 = out@;
    add_rva_slots(read, &mut out, client_base, &b);
    let ghost o2 = out@;
    add_rva_slots(read, &mut out, hw_base, &c);
    let ghost o3 = out@;
    add_rva_slots(read, &mut out, client_base, &d);
    assert forall|mem: MemModel| #[trigger] reads_agree(read, mem) implies out@ == global_origin_bases(
        mem,
        hw_base,
        client_base,
        config_global_hw_rva,
        config_global_client_rva,
    ) by {
        let ra = rva_bases(mem, hw_base, a@);
        let rb = rva_bases(mem, client_base, b@);
        let rc = rva_bases(mem, hw_base, c@);
        let rd = rva_bases(mem, client_base, d@);
        if hw_base == 0 {
            assert(c@ =~= Seq::<u32>::empty());
        }
        if client_base == 0 {
            assert(d@ =~= Seq::<u32>::empty());
        }
        lemma_add_bases_append(e, ra, rb);
        lemma_add_bases_append(e, ra + rb, rc);
        lemma_add_bases_append(e, ra + rb + rc, rd);
    }
    out
}

// ----------------------------------------------------------------------------
// Probing an entity for its origin
// ----------------------------------------------------------------------------

/// A model of the caller's probe predicate: whether the vec3 at `base + off`
/// reads and looks like what is sought.
pub type ProbeModel = spec_fn(u32, u32) -> bool;

/// The probe predicate may be called on every (base, offset).
pub open spec fn probe_total<H: Fn(u32, u32) -> bool>(hit: &H) -> bool {
    forall|b: u32, o: u32| #[trigger] hit.requires((b, o))
}

/// Every answer of `hit` is what `hm` says.
pub open spec fn probes_agree<H: Fn(u32, u32) -> bool>(hit: &H, hm: ProbeModel) -> bool {
    forall|b: u32, o: u32, r: bool| #[trigger] hit.ensures((b, o), r) ==> r == hm(b, o)
}

/// `(base, off)` for each offset.
pub open spec fn at_offsets(base: u32, offs: Seq<u32>) -> Seq<(u32, u32)> {
    offs.map_values(|o: u32| (base, o))
}

/// The probes behind each `pev` pointer slot of an entity.
pub open spec fn pev_probes(mem: MemModel, player: u32, pev_offs: Seq<u32>) -> Seq<(u32, u32)>
    decreases pev_offs.len(),
{
    if pev_offs.len() == 0 {
        Seq::empty()
    } else {
        pev_probes(mem, player, pev_offs.drop_last()) + match word_at(mem, wrap_add(player, pev_offs.last())) {
            Ok(pev) => if in_user_range(pev) {
                at_offsets(pev, pev_origin_offs())
            } else {
                Seq::empty()
            },
            Err(_) => Seq::empty(),
        }
    }
}

/// The probes behind an `entvars` pointer at the start of the entity.
pub open spec fn entvars_probes(mem: MemModel, player: u32) -> Seq<(u32, u32)> {
    match word_at(mem, player) {
        Ok(ev) => if in_user_range(ev) {
            at_offsets(ev, entvars_origin_offs())
        } else {
            Seq::empty()
        },
        Err(_) => Seq::empty(),
    }
}

/// The wide-scan probes `player + 4k` for `k < n`, skipping the offsets tried first.
pub open spec fn wide_probes(player: u32, n: nat, skip: Seq<u32>) -> Seq<(u32, u32)>
    decreases n,
{
    if n == 0 {
        Seq::empty()
    } else {
        let off = (4 * (n - 1)) as u32;
        wide_probes(player, (n - 1) as nat, skip) + if skip.contains(off) {
            Seq::empty()
        } else {
            seq![(player, off)]
        }
    }
}

/// Every probe of an entity, in order: the origin offsets on the entity, then
/// behind each `pev` pointer, then behind a leading `entvars` pointer, then
/// (wide scan) every other 4-byte offset below 0x2000.
pub open spec fn entity_probes(mem: MemModel, player: u32, config_off: u32, wide_scan: bool) -> Seq<(u32, u32)> {
    let tried = prepend_distinct(config_off, pos_offset_candidates());
    at_offsets(player, tried) + pev_probes(mem, player, pev_ptr_offs()) + entvars_probes(mem, player)
        + if wide_scan {
        wide_probes(player, 0x800, tried)
    } else {
        Seq::empty()
    }
}

/// `out` after each probe in turn, keeping the probes that hit, once each.
pub open spec fn add_probe_hits(out: Seq<(u32, u32)>, ps: Seq<(u32, u32)>, hm: ProbeModel) -> Seq<(u32, u32)>
    decreases ps.len(),
{
    if ps.len() == 0 {
        out
    } else {
        let o = add_probe_hits(out, ps.drop_last(), hm);
        let p = ps.last();
        if hm(p.0, p.1) {
            add_hit(o, p.0, p.1)
        } else {
            o
        }
    }
}

/// The hits of an entity candidate: none unless its health matches.
pub open spec fn entity_hits(mem: MemModel, hm: ProbeModel, cand: PlayerCandidate, config_off: u32, expected_hp: Option<i32>, wide_scan: bool) -> Seq<(u32, u32)> {
    if !hp_matches_at(mem, cand.player, cand.hp_offset, expected_hp) {
        Seq::empty()
    } else {
        add_probe_hits(Seq::empty(), entity_probes(mem, cand.player, config_off, wide_scan), hm)
    }
}

fn push_at_offsets(out: &mut Vec<(u32, u32)>, base: u32, offs: &Vec<u32>)
    ensures
        final(out)@ == old(out)@ + at_offsets(base, offs@),
{
    let mut i: usize = 0;
    while i < offs.len()
        invariant
            i <= offs@.len(),
            out@ == old(out)@ + at_offsets(base, offs@.subrange(0, i as int)),
        decreases offs@.len() - i,
    {
        out.push((base, offs[i]));
        i = i + 1;
        assert(out@ =~= old(out)@ + at_offsets(base, offs@.subrange(0, i as int)));
    }
    assert(offs@.subrange(0, offs@.len() as int) =~= offs@);
}

fn pev_origin_offsets() -> (v: Vec<u32>)
    ensures
        v@ == pev_origin_offs(),
{
    let v: Vec<u32> = vec![0x8, 0x14, 0x20, 0x34, 0x38, 0x44];
    assert(v@ =~= pev_origin_offs());
    v
}

fn entvars_origin_offsets() -> (v: Vec<u32>)
    ensures
        v@ == entvars_origin_offs(),
{
    let v: Vec<u32> = vec![0x8, 0x14, 0x20, 0x34];
    assert(v@ =~= entvars_origin_offs());
    v
}

/// Lists the probes of an entity.
fn list_entity_probes<F: Fn(u32) -> Option<u32>>(read: &F, player: u32, config_off: u32, wide_scan: bool) -> (ps: Vec<(u32, u32)>)
    requires
        reader_total(read),
    ensures
        forall|mem: MemModel| #[trigger]
            reads_agree(read, mem) ==> ps@ == entity_probes(mem, player, config_off, wide_scan),
{
    let tried = offsets_to_try(config_off);
    let mut ps: Vec<(u32, u32)> = Vec::new();
    push_at_offsets(&mut ps, player, &tried);
    let ghost p1 = ps@;
    let pevs = pev_ptr_offsets();
    let origin_offs = pev_origin_offsets();
    let mut i: usize = 0;
    while i < pevs.len()
        invariant
            reader_total(read),
            pevs@ == pev_ptr_offs(),
            origin_offs@ == pev_origin_offs(),
            i <= pevs@.len(),
            forall|mem: MemModel| #[trigger]
                reads_agree(read, mem) ==> ps@ == p1 + pev_probes(mem, player, pevs@.subrange(0, i as int)),
        decreases pevs@.len() - i,
    {
        let r = read_word(read, player.wrapping_add(pevs[i]));
        let ghost before = ps@;
        let mut took = false;
        match r {
            Ok(pev) => {
                if 0x0100_0000 <= pev && pev <= 0x7FFF_0000 {
                    push_at_offsets(&mut ps, pev, &origin_offs);
                    took = true;
                }
            },
            Err(_) => {},
        }
        assert forall|mem: MemModel| #[trigger] reads_agree(read, mem) implies ps@ == p1 + pev_probes(
            mem,
            player,
            pevs@.subrange(0, i + 1),
        ) by {
            let pre = pevs@.subrange(0, i as int);
            assert(pevs@.subrange(0, i + 1).drop_last() =~= pre);
            assert(pevs@.subrange(0, i + 1).last() == pevs@[i as int]);
            assert(r == word_at(mem, wrap_add(player, pevs@[i as int])));
            if took {
                assert(ps@ =~= p1 + (pev_probes(mem, player, pre) + at_offsets(r->Ok_0, pev_origin_offs())));
            } else {
                assert(ps@ =~= p1 + (pev_probes(mem, player, pre) + Seq::<(u32, u32)>::empty()));
            }
        }
        i = i + 1;
    }
    assert(pevs@.subrange(0, pevs@.len() as int) =~= pevs@);
    let ghost p2 = ps@;
    let ev = read_word(read, player);
    let mut took_ev = false;
    match ev {
        Ok(e) => {
            if 0x0100_0000 <= e && e <= 0x7FFF_0000 {
                let eo = entvars_origin_offsets();
                push_at_offsets(&mut ps, e, &eo);
                took_ev = true;
            }
        },
        Err(_) => {},
    }
    let ghost p3 = ps@;
    if wide_scan {
        let mut k: u32 = 0;
        while k < 0x800
            invariant
                k <= 0x800,
                tried@ == prepend_distinct(config_off, pos_offset_candidates()),
                ps@ == p3 + wide_probes(player, k as nat, tried@),
            decreases 0x800 - k,
        {
            let off = 4 * k;
            let ghost before = ps@;
            let skip = contains_u32(&tried, off);
            if !skip {
                ps.push((player, off));
            }
            assert(ps@ =~= p3 + wide_probes(player, (k + 1) as nat, tried@));
            k = k + 1;
        }
    }
    assert forall|mem: MemModel| #[trigger] reads_agree(read, mem) implies ps@ == entity_probes(
        mem,
        player,
        config_off,
        wide_scan,
    ) by {
        assert(ev == word_at(mem, player));
        if took_ev {
            assert(p3 =~= p2 + entvars_probes(mem, player));
        } else {
            assert(p3 =~= p2 + entvars_probes(mem, player));
        }
        if wide_scan {
            assert(ps@ =~= p3 + wide_probes(player, 0x800, tried@));
        } else {
            assert(ps@ =~= p3 + Seq::<(u32, u32)>::empty());
        }
    }
    ps
}

proof fn lemma_add_probe_hits_push(out: Seq<(u32, u32)>, ps: Seq<(u32, u32)>, p: (u32, u32), hm: ProbeModel)
    ensures
        add_probe_hits(out, ps.push(p), hm) == if hm(p.0, p.1) {
            add_hit(add_probe_hits(out, ps, hm), p.0, p.1)
        } else {
            add_probe_hits(out, ps, hm)
        },
{
    assert(ps.push(p).drop_last() =~= ps);
}

/// Collects the (base, offset) pairs of an entity candidate where the caller's
/// probe predicate `hit` holds, once each, in probing order; nothing when the
/// candidate's health does not match.
pub fn collect_entity_hits<F: Fn(u32) -> Option<u32>, H: Fn(u32, u32) -> bool>(
    read: &F,
    hit: &H,
    cand: PlayerCandidate,
    config_off: u32,
    expected_hp: Option<i32>,
    wide_scan: bool,
) -> (hits: Vec<(u32, u32)>)
    requires
        reader_total(read),
        probe_total(hit),
    ensures
        forall|mem: MemModel, hm: ProbeModel| #[trigger]
            reads_agree(read, mem) && #[trigger] probes_agree(hit, hm) ==> hits@ == entity_hits(
                mem,
                hm,
                cand,
                config_off,
                expected_hp,
                wide_scan,
            ),
{
    let mut hits: Vec<(u32, u32)> = Vec::new();
    if !hp_matches(read, cand.player, cand.hp_offset, expected_hp) {
        return hits;
    }
    let ps = list_entity_probes(read, cand.player, config_off, wide_scan);
    let mut i: usize = 0;
    while i < ps.len()
        invariant
            probe_total(hit),
            i <= ps@.len(),
            forall|hm: ProbeModel| #[trigger]
                probes_agree(hit, hm) ==> hits@ == add_probe_hits(
                    Seq::empty(),
                    ps@.subrange(0, i as int),
                    hm,
                ),
        decreases ps@.len() - i,
    {
        let (b, o) = ps[i];
        let h = hit(b, o);
        if h {
            push_hit(&mut hits, b, o);
        }
        assert forall|hm: ProbeModel| #[trigger] probes_agree(hit, hm) implies hits@ == add_probe_hits(
            Seq::empty(),
            ps@.subrange(0, i + 1),
            hm,
        ) by {
            assert(ps@.subrange(0, i + 1) =~= ps@.subrange(0, i as int).push((b, o)));
            lemma_add_probe_hits_push(Seq::empty(), ps@.subrange(0, i as int), (b, o), hm);
        }
        i = i + 1;
    }
    assert(ps@.subrange(0, ps@.len() as int) =~= ps@);
    hits
}

/// The last offset with the highest rank, as `max_by_key` picks it.
pub open spec fn last_best_offset(offs: Seq<u32>, config_off: u32) -> Option<u32>
    decreases offs.len(),
{
    if offs.len() == 0 {
        None
    } else {
        match last_best_offset(offs.drop_last(), config_off) {
            None => Some(offs.last()),
            Some(b) => if offset_score(offs.last(), config_off) >= offset_score(b, config_off) {
                Some(offs.last())
            } else {
                Some(b)
            },
        }
    }
}

/// The best-ranked origin offset of a player entity among the offsets where
/// the probe predicate holds (health not checked).
pub fn discover_offset<F: Fn(u32) -> Option<u32>, H: Fn(u32, u32) -> bool>(
    read: &F,
    hit: &H,
    player: u32,
    config_off: u32,
) -> (r: Option<u32>)
    requires
        reader_total(read),
        probe_total(hit),
    ensures
        forall|mem: MemModel, hm: ProbeModel| #[trigger]
            reads_agree(read, mem) && #[trigger] probes_agree(hit, hm) ==> r == last_best_offset(
                entity_hits(
                    mem,
                    hm,
                    PlayerCandidate { player, hp_offset: 0x14, from_hw: false },
                    config_off,
                    None,
                    true,
                ).map_values(|h: (u32, u32)| h.1),
                config_off,
            ),
{
    let cand = PlayerCandidate { player, hp_offset: 0x14, from_hw: false };
    let hits = collect_entity_hits(read, hit, cand, config_off, None, true);
    let ghost offs = hits@.map_values(|h: (u32, u32)| h.1);
    let mut best: Option<u32> = None;
    let mut i: usize = 0;
    while i < hits.len()
        invariant
            i <= hits@.len(),
            offs == hits@.map_values(|h: (u32, u32)| h.1),
            best == last_best_offset(offs.subrange(0, i as int), config_off),
        decreases hits@.len() - i,
    {
        let off = hits[i].1;
        assert(offs.subrange(0, i + 1).drop_last() =~= offs.subrange(0, i as int));
        assert(offs.subrange(0, i + 1).last() == off);
        best = match best {
            None => Some(off),
            Some(b) => if score_offset(off, config_off) >= score_offset(b, config_off) {
                Some(off)
            } else {
                Some(b)
            },
        };
        i = i + 1;
    }
    assert(offs.subrange(0, hits@.len() as int) =~= offs);
    best
}

// ----------------------------------------------------------------------------
// Tracking the position source between ticks
// ----------------------------------------------------------------------------

/// Ticks in a row with an unchanged position after which an unlocked
/// position source is dropped and looked for again.
pub const POS_STATIC_LIMIT: u32 = 120;

/// Where the position is read from between ticks: a source locked once (the
/// configured hw.dll global, or the first one discovered), else the last one
/// discovered, and how many ticks the position has not moved.
#[derive(Debug, Clone, Copy, Default, PartialEq, Eq, Structural)]
pub struct PositionTrack {
    pub locked_player: u32,
    pub locked_off: u32,
    pub discovered_player: u32,
    pub discovered_off: u32,
    pub static_ticks: u32,
}

/// The track after a tick's discovery reported `new_off` and `new_player`;
/// `was_locked` tells whether a source was locked when the tick began.  The
/// first source reported while none is locked becomes the locked one.
pub open spec fn recorded(t: PositionTrack, new_off: Option<u32>, new_player: Option<u32>, was_locked: bool) -> PositionTrack {
    let t1 = match new_off {
        Some(off) => if t.locked_player == 0 {
            PositionTrack { locked_off: off, ..t }
        } else if !was_locked && off != t.discovered_off {
            PositionTrack { discovered_off: off, ..t }
        } else {
            t
        },
        None => t,
    };
    match new_player {
        Some(p) => if t1.locked_player == 0 {
            PositionTrack { locked_player: p, ..t1 }
        } else if p != t1.discovered_player {
            PositionTrack { discovered_player: p, ..t1 }
        } else {
            t1
        },
        None => t1,
    }
}

/// The track after a tick that read a position: a move (or a first reading)
/// resets the still-tick count, a still tick counts while no source is locked,
/// and at the limit the discovered source is dropped.
pub open spec fn after_motion_spec(t: PositionTrack, moved: bool, was_locked: bool) -> PositionTrack {
    let s = if moved {
        0
    } else if !was_locked {
        if t.static_ticks == u32::MAX { t.static_ticks } else { (t.static_ticks + 1) as u32 }
    } else {
        t.static_ticks
    };
    if !was_locked && s == POS_STATIC_LIMIT {
        PositionTrack { static_ticks: s, discovered_off: 0, discovered_player: 0, ..t }
    } else {
        PositionTrack { static_ticks: s, ..t }
    }
}

/// The entity the position is read from: the locked one, else the
/// discovered one, else the local player.
pub open spec fn track_entity(t: PositionTrack, local_player: u32) -> u32 {
    if t.locked_player != 0 {
        t.locked_player
    } else if t.discovered_player != 0 {
        t.discovered_player
    } else {
        local_player
    }
}

/// The offset the position is read at: the locked one, else the discovered
/// one, else the configured one.
pub open spec fn track_offset(t: PositionTrack, config_off: u32) -> u32 {
    if t.locked_player != 0 {
        t.locked_off
    } else if t.discovered_off != 0 {
        t.discovered_off
    } else {
        config_off
    }
}

impl PositionTrack {
    /// No source yet.
    pub fn new() -> (t: Self)
        ensures
            t == (PositionTrack { locked_player: 0, locked_off: 0, discovered_player: 0, discovered_off: 0, static_ticks: 0 }),
    {
        PositionTrack { locked_player: 0, locked_off: 0, discovered_player: 0, discovered_off: 0, static_ticks: 0 }
    }

    /// Whether a source is locked.
    pub fn is_locked(&self) -> (b: bool)
        ensures
            b == (self.locked_player != 0),
    {
        self.locked_player != 0
    }

    /// Whether the next read must look for a source afresh: none is locked
    /// and the position has stood still for the limit.
    pub fn force_rediscover(&self) -> (b: bool)
        ensures
            b == (self.locked_player == 0 && self.static_ticks >= POS_STATIC_LIMIT),
    {
        self.locked_player == 0 && self.static_ticks >= POS_STATIC_LIMIT
    }

    /// Locks the configured global position source, as both the locked and
    /// the discovered source.
    pub fn lock(&mut self, d: PositionDiscovery)
        ensures
            *final(self) == (PositionTrack {
                locked_player: d.player,
                locked_off: d.offset,
                discovered_player: d.player,
                discovered_off: d.offset,
                static_ticks: old(self).static_ticks,
            }),
    {
        self.locked_player = d.player;
        self.locked_off = d.offset;
        self.discovered_player = d.player;
        self.discovered_off = d.offset;
    }

    /// Records what a tick's discovery reported (see `recorded`).
    pub fn record(&mut self, new_off: Option<u32>, new_player: Option<u32>, was_locked: bool)
        ensures
            *final(self) == recorded(*old(self), new_off, new_player, was_locked),
    {
        if let Some(off) = new_off {
            if self.locked_player == 0 {
                self.locked_off = off;
            } else if !was_locked && off != self.discovered_off {
                self.discovered_off = off;
            }
        }
        if let Some(p) = new_player {
            if self.locked_player == 0 {
                self.locked_player = p;
            } else if p != self.discovered_player {
                self.discovered_player = p;
            }
        }
    }

    /// Counts still ticks after a tick that read a position (see `after_motion_spec`).
    pub fn after_motion(&mut self, moved: bool, was_locked: bool)
        ensures
            *final(self) == after_motion_spec(*old(self), moved, was_locked),
    {
        if moved {
            self.static_ticks = 0;
        } else if !was_locked {
            self.static_ticks = self.static_ticks.saturating_add(1);
        }
        if !was_locked && self.static_ticks == POS_STATIC_LIMIT {
            self.discovered_off = 0;
            self.discovered_player = 0;
        }
    }

    /// The entity the position is read from (see `track_entity`).
    pub fn entity(&self, local_player: u32) -> (r: u32)
        ensures
            r == track_entity(*self, local_player),
    {
        if self.locked_player != 0 {
            self.locked_player
        } else if self.discovered_player != 0 {
            self.discovered_player
        } else {
            local_player
        }
    }

    /// The offset the position is read at (see `track_offset`).
    pub fn offset(&self, config_off: u32) -> (r: u32)
        ensures
            r == track_offset(*self, config_off),
    {
        if self.locked_player != 0 {
            self.locked_off
        } else if self.discovered_off != 0 {
            self.discovered_off
        } else {
            config_off
        }
    }

    /// The address of the position shown, for the debug log: 0 unless a
    /// position was read from a known entity.
    pub fn pos_addr(&self, pos_on: bool, local_player: u32, config_off: u32) -> (r: u32)
        ensures
            r == if pos_on && track_entity(*self, local_player) != 0 {
                wrap_add(track_entity(*self, local_player), track_offset(*self, config_off))
            } else {
                0
            },
    {
        let e = self.entity(local_player);
        if pos_on && e != 0 {
            e.wrapping_add(self.offset(config_off))
        } else {
            0
        }
    }
}

/// A locked position source stays locked, at the same offset, whatever the
/// later ticks report; while it is locked, the still-tick count never grows.
pub proof fn lemma_lock_is_permanent(t: PositionTrack, new_off: Option<u32>, new_player: Option<u32>, moved: bool)
    requires
        t.locked_player != 0,
    ensures
        recorded(t, new_off, new_player, true).locked_player == t.locked_player,
        recorded(t, new_off, new_player, true).locked_off == t.locked_off,
        after_motion_spec(t, moved, true).locked_player == t.locked_player,
        after_motion_spec(t, moved, true).locked_off == t.locked_off,
        after_motion_spec(t, moved, true).static_ticks <= t.static_ticks,
        track_entity(recorded(t, new_off, new_player, true), 0) == t.locked_player,
{
}

/// Without a locked source, a position that stands still for the limit of
/// ticks drops the discovered source, and a move resets the count.
pub proof fn lemma_still_position_is_rediscovered(t: PositionTrack)
    requires
        t.locked_player == 0,
        t.static_ticks == POS_STATIC_LIMIT - 1,
    ensures
        after_motion_spec(t, false, false).discovered_player == 0,
        after_motion_spec(t, false, false).discovered_off == 0,
        after_motion_spec(t, false, false).static_ticks == POS_STATIC_LIMIT,
        after_motion_spec(t, true, false).static_ticks == 0,
{
}

/// Configuring an origin offset raises its rank by 200 and leaves the rank of
/// every other offset as it was.
pub proof fn lemma_configured_offset_ranks_higher(c: u32, o: u32, d: u32)
    requires
        o != c,
        o != d,
    ensures
        offset_score(c, c) == offset_score(c, o) + 200,
        offset_score(o, c) == offset_score(o, d),
{
}

proof fn lemma_last_best_offset_in(offs: Seq<u32>, config_off: u32)
    ensures
        last_best_offset(offs, config_off) matches Some(b) ==> offs.contains(b),
        offs.len() > 0 ==> last_best_offset(offs, config_off) is Some,
    decreases offs.len(),
{
    if offs.len() > 0 {
        lemma_last_best_offset_in(offs.drop_last(), config_off);
        match last_best_offset(offs.drop_last(), config_off) {
            Some(b) => {
                let k = choose|k: int| 0 <= k < offs.drop_last().len() && offs.drop_last()[k] == b;
                assert(offs[k] == b);
            },
            None => {},
        }
        assert(offs[offs.len() - 1] == offs.last());
    }
}

/// Among the offsets where a position was found, the configured one is
/// chosen whenever it is among them and no other one outranks it when
/// neither is configured.
pub proof fn lemma_configured_offset_wins(offs: Seq<u32>, c: u32)
    requires
        offs.contains(c),
        forall|i: int| 0 <= i < offs.len() && offs[i] != c ==> offset_score(#[trigger] offs[i], c) <= offset_score(c, offs[i]),
    ensures
        last_best_offset(offs, c) == Some(c),
    decreases offs.len(),
{
    let prev = offs.drop_last();
    let t = offs.last();
    assert(offs[offs.len() - 1] == t);
    lemma_last_best_offset_in(prev, c);
    if prev.contains(c) {
        assert forall|i: int| 0 <= i < prev.len() && prev[i] != c implies offset_score(#[trigger] prev[i], c) <= offset_score(c, prev[i]) by {
            assert(prev[i] == offs[i]);
        }
        lemma_configured_offset_wins(prev, c);
        if t != c {
            lemma_configured_offset_ranks_higher(c, t, c);
        }
    } else {
        if t != c {
            let k = choose|k: int| 0 <= k < offs.len() && offs[k] == c;
            assert(k < prev.len() ==> prev[k] == c);
        }
        match last_best_offset(prev, c) {
            Some(b) => {
                assert(b != c);
                let k = choose|k: int| 0 <= k < prev.len() && prev[k] == b;
                assert(offs[k] == b);
                lemma_configured_offset_ranks_higher(c, b, c);
            },
            None => {},
        }
    }
}

} // verus!
