//! What the overlay draws: its lines, their colours, and where the text block goes.
use vstd::prelude::*;

use crate::config::{hex_or, parse_hex_or, OverlayColors, OverlayDisplay, OverlayPosition};
use crate::state::{
    field_text, format_status, status_text, text_of, waiting_message, waiting_text, StatusDisplay,
    StatusView,
};
use crate::text::{pad_left, push_str};

verus! {

/// One overlay line and its `0xBBGGRR` colour.
#[derive(Debug, Clone)]
pub struct Line {
    pub text: String,
    pub color: u32,
}

/// The views of overlay lines.
pub open spec fn line_views(ls: Seq<Line>) -> Seq<(Seq<char>, u32)> {
    ls.map_values(|l: Line| (l.text@, l.color))
}

/// `ls` with `(t, c)` appended when `cond` holds.
pub open spec fn push_line_if(ls: Seq<(Seq<char>, u32)>, cond: bool, t: Seq<char>, c: u32) -> Seq<(Seq<char>, u32)> {
    if cond {
        ls.push((t, c))
    } else {
        ls
    }
}

/// The status display that the overlay's display settings select.
pub open spec fn display_of(d: OverlayDisplay) -> StatusDisplay {
    StatusDisplay {
        show_money: d.show_money,
        show_ammo: d.show_ammo,
        show_hp: d.show_hp,
        show_armor: d.show_armor,
        show_position: d.show_position,
        show_view_aux: d.show_view_aux,
    }
}

/// The field lines of the overlay: money and ammo only once read (ammo when
/// either counter was read, the other shown as `--`), the float fields while active.
pub open spec fn field_lines(v: StatusView, d: OverlayDisplay, c: OverlayColors) -> Seq<(Seq<char>, u32)> {
    let l1 = push_line_if(
        Seq::empty(),
        d.show_money && v.money_valid,
        "💰 "@ + field_text(true, v.money, 6),
        hex_or(c.money@, 0x00D7FF),
    );
    let l2 = push_line_if(
        l1,
        d.show_ammo && (v.clip_valid || v.reserve_valid),
        "🔫 "@ + field_text(v.clip_valid, v.clip, 2) + "/"@ + field_text(v.reserve_valid, v.reserve, 2),
        hex_or(c.ammo@, 0x00FF00),
    );
    let l3 = push_line_if(l2, d.show_hp && v.hp is Some, "HP "@ + text_of(v.hp), hex_or(c.hp@, 0x4444FF));
    let l4 = push_line_if(
        l3,
        d.show_armor && v.armor is Some,
        "Armor "@ + text_of(v.armor),
        hex_or(c.armor@, 0xFFAA00),
    );
    let l5 = push_line_if(
        l4,
        d.show_position && v.position is Some,
        "📍 "@ + text_of(v.position),
        hex_or(c.position@, 0xFFFF88),
    );
    push_line_if(
        l5,
        d.show_view_aux && v.view is Some,
        "📐 "@ + text_of(v.view),
        hex_or(c.position@, 0xFFFF88),
    )
}

/// The overlay's lines: the waiting message until the display is ready, else the
/// field lines, else the status line; in the default colour where no field
/// colour applies.
pub open spec fn overlay_lines(v: StatusView, game_found: bool, d: OverlayDisplay, c: OverlayColors) -> Seq<(Seq<char>, u32)> {
    let def = hex_or(c.default@, 0x00FF00);
    if !v.connected || !v.ready {
        seq![(waiting_text(v.connected, game_found), def)]
    } else if field_lines(v, d, c).len() == 0 {
        seq![(status_text(v, display_of(d)), def)]
    } else {
        field_lines(v, d, c)
    }
}

fn add_line(ls: &mut Vec<Line>, cond: bool, prefix: &str, body: &str, color: u32)
    ensures
        line_views(final(ls)@) == push_line_if(line_views(old(ls)@), cond, prefix@ + body@, color),
{
    if cond {
        let mut t = String::new();
        push_str(&mut t, prefix);
        push_str(&mut t, body);
        ls.push(Line { text: t, color });
        assert(line_views(ls@) =~= push_line_if(line_views(old(ls)@), cond, prefix@ + body@, color));
    }
}

fn opt_str(t: &Option<String>) -> (r: &str)
    ensures
        r@ == text_of(*t),
{
    proof {
        reveal_strlit("");
    }
    match t {
        Some(x) => x.as_str(),
        None => "",
    }
}

/// Builds the overlay's lines for a state.
pub fn build_lines(v: &StatusView, game_found: bool, d: &OverlayDisplay, c: &OverlayColors) -> (ls: Vec<Line>)
    ensures
        line_views(ls@) == overlay_lines(*v, game_found, *d, *c),
{
    let def = parse_hex_or(c.default.as_str(), 0x00FF00);
    let mut ls: Vec<Line> = Vec::new();
    assert(line_views(ls@) =~= Seq::<(Seq<char>, u32)>::empty());
    if !v.connected || !v.ready {
        ls.push(Line { text: waiting_message(v.connected, game_found), color: def });
        assert(line_views(ls@) =~= overlay_lines(*v, game_found, *d, *c));
        return ls;
    }
    let money = crate::state::field(true, v.money, 6);
    add_line(&mut ls, d.show_money && v.money_valid, "💰 ", money.as_str(), parse_hex_or(c.money.as_str(), 0x00D7FF));
    let ghost l1 = line_views(ls@);
    assert(l1 == push_line_if(
        Seq::empty(),
        d.show_money && v.money_valid,
        "💰 "@ + field_text(true, v.money, 6),
        hex_or(c.money@, 0x00D7FF),
    ));
    let mut ammo = crate::state::field(v.clip_valid, v.clip, 2);
    push_str(&mut ammo, "/");
    let reserve = crate::state::field(v.reserve_valid, v.reserve, 2);
    push_str(&mut ammo, reserve.as_str());
    assert(("🔫 "@ + ammo@) =~= "🔫 "@ + field_text(v.clip_valid, v.clip, 2) + "/"@ + field_text(
        v.reserve_valid,
        v.reserve,
        2,
    ));
    add_line(&mut ls, d.show_ammo && (v.clip_valid || v.reserve_valid), "🔫 ", ammo.as_str(), parse_hex_or(c.ammo.as_str(), 0x00FF00));
    assert(line_views(ls@) == push_line_if(
        l1,
        d.show_ammo && (v.clip_valid || v.reserve_valid),
        "🔫 "@ + field_text(v.clip_valid, v.clip, 2) + "/"@ + field_text(v.reserve_valid, v.reserve, 2),
        hex_or(c.ammo@, 0x00FF00),
    ));
    add_line(&mut ls, d.show_hp && v.hp.is_some(), "HP ", opt_str(&v.hp), parse_hex_or(c.hp.as_str(), 0x4444FF));
    add_line(&mut ls, d.show_armor && v.armor.is_some(), "Armor ", opt_str(&v.armor), parse_hex_or(c.armor.as_str(), 0xFFAA00));
    let pos_color = parse_hex_or(c.position.as_str(), 0xFFFF88);
    add_line(&mut ls, d.show_position && v.position.is_some(), "📍 ", opt_str(&v.position), pos_color);
    add_line(&mut ls, d.show_view_aux && v.view.is_some(), "📐 ", opt_str(&v.view), pos_color);
    assert(line_views(ls@) == field_lines(*v, *d, *c));
    if ls.len() == 0 {
        let sd = StatusDisplay {
            show_money: d.show_money,
            show_ammo: d.show_ammo,
            show_hp: d.show_hp,
            show_armor: d.show_armor,
            show_position: d.show_position,
            show_view_aux: d.show_view_aux,
        };
        let mut out: Vec<Line> = Vec::new();
        out.push(Line { text: format_status(v, &sd), color: def });
        assert(line_views(out@) =~= overlay_lines(*v, game_found, *d, *c));
        return out;
    }
    ls
}

/// Where the text block of `n_lines` lines, `max_w` wide, starts in a client
/// area `cw` × `ch`: at the chosen corner, `margin` in, then shifted by the
/// configured offsets.  `None` when a coordinate leaves the `i32` range.
pub open spec fn text_origin_spec(pos: OverlayPosition, cw: int, ch: int, max_w: int, total_h: int, margin: int, offset_x: int, offset_y: int) -> (int, int) {
    let bx = match pos {
        OverlayPosition::TopLeft | OverlayPosition::BottomLeft => margin,
        _ => cw - max_w - margin,
    };
    let by = match pos {
        OverlayPosition::TopLeft | OverlayPosition::TopRight => margin,
        _ => ch - total_h - margin,
    };
    (bx + offset_x, by + offset_y)
}

/// Whether an integer fits in an `i32`.
pub open spec fn fits_i32(x: int) -> bool {
    i32::MIN <= x <= i32::MAX
}

/// The text block's origin, when every intermediate value fits in an `i32`.
pub fn text_origin(pos: OverlayPosition, cw: i32, ch: i32, max_w: i32, n_lines: usize, spacing: i32, margin: i32, offset_x: i32, offset_y: i32) -> (r: Option<(i32, i32)>)
    ensures
        r matches Some(p) ==> {
            let o = text_origin_spec(pos, cw as int, ch as int, max_w as int, n_lines * spacing, margin as int, offset_x as int, offset_y as int);
            p.0 == o.0 && p.1 == o.1
        },
        r is None ==> !fits_i32(n_lines as int) || !fits_i32(n_lines * spacing) || {
            let bx = match pos {
                OverlayPosition::TopLeft | OverlayPosition::BottomLeft => margin as int,
                _ => cw - max_w - margin,
            };
            let by = match pos {
                OverlayPosition::TopLeft | OverlayPosition::TopRight => margin as int,
                _ => ch - n_lines * spacing - margin,
            };
            !fits_i32(cw - max_w) || !fits_i32(ch - n_lines * spacing) || !fits_i32(bx) || !fits_i32(by)
                || !fits_i32(bx + offset_x) || !fits_i32(by + offset_y)
        },
{
    if n_lines > i32::MAX as usize {
        return None;
    }
    let n = n_lines as i64;
    assert(-0x8000_0000_0000_0000 < n * (spacing as i64) < 0x7FFF_FFFF_FFFF_FFFF) by (nonlinear_arith)
        requires
            0 <= n <= 0x7FFF_FFFF,
            -0x8000_0000 <= spacing <= 0x7FFF_FFFF,
    ;
    let total: i64 = n * (spacing as i64);
    if total < i32::MIN as i64 || total > i32::MAX as i64 {
        return None;
    }
    let bx: i64 = match pos {
        OverlayPosition::TopLeft | OverlayPosition::BottomLeft => margin as i64,
        _ => {
            let w = cw as i64 - max_w as i64;
            if w < i32::MIN as i64 || w > i32::MAX as i64 {
                return None;
            }
            w - margin as i64
        },
    };
    let by: i64 = match pos {
        OverlayPosition::TopLeft | OverlayPosition::TopRight => margin as i64,
        _ => {
            let h = ch as i64 - total;
            if h < i32::MIN as i64 || h > i32::MAX as i64 {
                return None;
            }
            h - margin as i64
        },
    };
    if bx < i32::MIN as i64 || bx > i32::MAX as i64 || by < i32::MIN as i64 || by > i32::MAX as i64 {
        return None;
    }
    let x = bx + offset_x as i64;
    let y = by + offset_y as i64;
    if x < i32::MIN as i64 || x > i32::MAX as i64 || y < i32::MIN as i64 || y > i32::MAX as i64 {
        return None;
    }
    Some((x as i32, y as i32))
}

// ----------------------------------------------------------------------------
// Properties
// ----------------------------------------------------------------------------

/// The overlay and the console share one formatter: when no field line is
/// shown, the overlay's single line is the status line, in the default colour;
/// and until connected, it is the waiting message.
pub proof fn lemma_overlay_shares_the_status_line(v: StatusView, game_found: bool, d: OverlayDisplay, c: OverlayColors)
    ensures
        v.connected && v.ready && field_lines(v, d, c).len() == 0
            ==> overlay_lines(v, game_found, d, c) == seq![(status_text(v, display_of(d)), hex_or(c.default@, 0x00FF00))],
        !v.connected ==> overlay_lines(v, game_found, d, c) == seq![(waiting_text(false, game_found), hex_or(c.default@, 0x00FF00))],
{
}

/// An unread counter never shows on the overlay as a number: the lines do
/// not depend on the value stored for a counter that was not read.
pub proof fn lemma_overlay_hides_unread_counters(v: StatusView, game_found: bool, d: OverlayDisplay, c: OverlayColors, x: i32)
    ensures
        !v.money_valid ==> overlay_lines(StatusView { money: x, ..v }, game_found, d, c) == overlay_lines(v, game_found, d, c),
        !v.clip_valid ==> overlay_lines(StatusView { clip: x, ..v }, game_found, d, c) == overlay_lines(v, game_found, d, c),
        !v.reserve_valid ==> overlay_lines(StatusView { reserve: x, ..v }, game_found, d, c) == overlay_lines(v, game_found, d, c),
{
    crate::state::lemma_unread_counter_is_hidden(v, display_of(d), x);
}

} // verus!
