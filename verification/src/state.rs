//! Shared status structures and the status-line text.
use vstd::prelude::*;

use crate::config::{hex_or, parse_hex_or, OverlayColors, OverlayDisplay};
use crate::text::{dec_int, pad_left, push_dec_i64, push_padded_left, push_str, i64_to_string};

verus! {

/// Which fields the status line shows.
#[derive(Debug, Clone, Copy, Default, PartialEq, Eq, Structural)]
pub struct StatusDisplay {
    pub show_money: bool,
    pub show_ammo: bool,
    pub show_hp: bool,
    pub show_armor: bool,
    pub show_position: bool,
    pub show_view_aux: bool,
}

impl StatusDisplay {
    /// Shows every field.
    pub fn all() -> (d: Self)
        ensures
            d.show_money && d.show_ammo && d.show_hp && d.show_armor && d.show_position
                && d.show_view_aux,
    {
        StatusDisplay {
            show_money: true,
            show_ammo: true,
            show_hp: true,
            show_armor: true,
            show_position: true,
            show_view_aux: true,
        }
    }
}

/// What the debug console shows.
#[derive(Debug, Clone, Default)]
pub struct DebugSnapshot {
    pub connected: bool,
    pub ready: bool,
    pub money: i32,
    pub clip: i32,
    pub reserve: i32,
    pub money_valid: bool,
    pub clip_valid: bool,
    pub reserve_valid: bool,
    pub write_enabled: bool,
    pub player_alive: bool,
    /// Where the money value was read from.
    pub money_source: String,
}

/// Resolved target addresses, for debug logging.
#[derive(Debug, Clone, Copy, Default, PartialEq, Eq, Structural)]
pub struct ResolvedInfo {
    pub hw_base: u32,
    pub client_base: u32,
    pub local_player: u32,
    pub money_addr: u32,
    pub reserve_addr: u32,
    pub clip_addr: u32,
    pub hp_addr: u32,
    pub armor_addr: u32,
    pub pos_addr: u32,
}

/// What the status line and the overlay show of one state.  The float values
/// (health, armor, position, view) come already formatted, present only while
/// their reading is active.
#[derive(Debug, Clone, Default)]
pub struct StatusView {
    pub connected: bool,
    pub ready: bool,
    pub money: i32,
    pub clip: i32,
    pub reserve: i32,
    pub money_valid: bool,
    pub clip_valid: bool,
    pub reserve_valid: bool,
    /// Health as `{:>3.0}`.
    pub hp: Option<String>,
    /// Armor as `{:>3.0}`.
    pub armor: Option<String>,
    /// Position as `{:>7.0} {:>7.0} {:>5.0}`.
    pub position: Option<String>,
    /// View values as `H:{:>5.0} M:{:>5.0}/{:<5.0}`.
    pub view: Option<String>,
}

/// The text of an optional part, empty when absent.
pub open spec fn text_of(t: Option<String>) -> Seq<char> {
    match t {
        Some(x) => x@,
        None => Seq::empty(),
    }
}

/// A counter right-aligned in `w` characters, or `--` when it was never read
/// (an unread value is never shown as 0).
pub open spec fn field_text(valid: bool, v: i32, w: nat) -> Seq<char> {
    if valid {
        pad_left(dec_int(v as int), w)
    } else {
        "--"@
    }
}

/// Formats a counter for the status line.
pub fn field(valid: bool, v: i32, w: usize) -> (r: String)
    ensures
        r@ == field_text(valid, v, w as nat),
{
    if valid {
        let t = i64_to_string(v as i64);
        let mut r = String::new();
        push_padded_left(&mut r, t.as_str(), w);
        r
    } else {
        String::from_str("--")
    }
}

/// `parts` joined with `sep`.
pub open spec fn join(parts: Seq<Seq<char>>, sep: Seq<char>) -> Seq<char>
    decreases parts.len(),
{
    if parts.len() == 0 {
        Seq::empty()
    } else if parts.len() == 1 {
        parts[0]
    } else {
        join(parts.drop_last(), sep) + sep + parts.last()
    }
}

/// `parts` with `p` appended when `cond` holds.
pub open spec fn push_if(parts: Seq<Seq<char>>, cond: bool, p: Seq<char>) -> Seq<Seq<char>> {
    if cond {
        parts.push(p)
    } else {
        parts
    }
}

/// The parts of the status line, in order.
pub open spec fn status_parts(v: StatusView, d: StatusDisplay) -> Seq<Seq<char>> {
    let p1 = push_if(
        Seq::empty(),
        d.show_money,
        "💰 "@ + field_text(v.money_valid, v.money, 6),
    );
    let p2 = push_if(
        p1,
        d.show_ammo,
        "🔫 "@ + field_text(v.clip_valid, v.clip, 2) + "/"@ + field_text(v.reserve_valid, v.reserve, 2),
    );
    let p3 = push_if(p2, d.show_hp && v.hp is Some, "❤ "@ + text_of(v.hp));
    let p4 = push_if(p3, d.show_armor && v.armor is Some, "🛡 "@ + text_of(v.armor));
    let p5 = push_if(
        p4,
        d.show_position && v.position is Some,
        "📍 "@ + text_of(v.position),
    );
    push_if(p5, d.show_view_aux && v.view is Some, "📐 "@ + text_of(v.view))
}

/// The status line: the waiting message until connected, the reading message
/// until the display is ready, then the shown fields joined by two spaces.
pub open spec fn status_text(v: StatusView, d: StatusDisplay) -> Seq<char> {
    if !v.connected {
        "[منتظر بازی...]"@
    } else if !v.ready {
        "[در حال خواندن...]"@
    } else if status_parts(v, d).len() == 0 {
        "CS16 v2 — Connected"@
    } else {
        join(status_parts(v, d), "  "@)
    }
}

/// The views of a list of strings.
pub open spec fn string_views(v: Seq<String>) -> Seq<Seq<char>> {
    v.map_values(|s: String| s@)
}

fn add_part(parts: &mut Vec<String>, cond: bool, prefix: &str, body: &str)
    ensures
        string_views(final(parts)@) == push_if(string_views(old(parts)@), cond, prefix@ + body@),
{
    if cond {
        let mut p = String::new();
        push_str(&mut p, prefix);
        push_str(&mut p, body);
        parts.push(p);
        assert(string_views(parts@) =~= push_if(string_views(old(parts)@), cond, prefix@ + body@));
    }
}

/// Joins strings with a separator.
pub fn join_strings(parts: &Vec<String>, sep: &str) -> (r: String)
    ensures
        r@ == join(string_views(parts@), sep@),
{
    let mut r = String::new();
    let mut i: usize = 0;
    while i < parts.len()
        invariant
            i <= parts@.len(),
            r@ == join(string_views(parts@.subrange(0, i as int)), sep@),
        decreases parts@.len() - i,
    {
        let ghost pre = string_views(parts@.subrange(0, i as int));
        let ghost next = string_views(parts@.subrange(0, i + 1));
        assert(next.drop_last() =~= pre);
        assert(next.last() == parts@[i as int]@);
        if i != 0 {
            push_str(&mut r, sep);
        }
        push_str(&mut r, parts[i].as_str());
        if i == 0 {
            assert(next.len() == 1);
            assert(r@ =~= next[0]);
        }
        i = i + 1;
    }
    assert(parts@.subrange(0, parts@.len() as int) =~= parts@);
    r
}

/// The text of an optional part, empty when absent.
fn opt_text(t: &Option<String>) -> (r: &str)
    ensures
        r@ == text_of(*t),
{
    proof {
        reveal_strlit("");
    }
    match t {
        Some(x) => x.as_str(),
        None => "",
    }
}

/// The status line of a state with the given fields shown.
pub fn format_status(v: &StatusView, d: &StatusDisplay) -> (r: String)
    ensures
        r@ == status_text(*v, *d),
{
    if !v.connected {
        return String::from_str("[منتظر بازی...]");
    }
    if !v.ready {
        return String::from_str("[در حال خواندن...]");
    }
    let mut parts: Vec<String> = Vec::new();
    assert(string_views(parts@) =~= Seq::<Seq<char>>::empty());
    let money = field(v.money_valid, v.money, 6);
    add_part(&mut parts, d.show_money, "💰 ", money.as_str());
    assert(string_views(parts@) == push_if(Seq::<Seq<char>>::empty(), d.show_money, "💰 "@ + field_text(v.money_valid, v.money, 6)));
    let mut ammo = field(v.clip_valid, v.clip, 2);
    push_str(&mut ammo, "/");
    let reserve = field(v.reserve_valid, v.reserve, 2);
    push_str(&mut ammo, reserve.as_str());
    assert(ammo@ == field_text(v.clip_valid, v.clip, 2) + "/"@ + field_text(v.reserve_valid, v.reserve, 2));
    add_part(&mut parts, d.show_ammo, "🔫 ", ammo.as_str());
    assert(("🔫 "@ + ammo@) =~= "🔫 "@ + field_text(v.clip_valid, v.clip, 2) + "/"@ + field_text(v.reserve_valid, v.reserve, 2));
    add_part(&mut parts, d.show_hp && v.hp.is_some(), "❤ ", opt_text(&v.hp));
    add_part(&mut parts, d.show_armor && v.armor.is_some(), "🛡 ", opt_text(&v.armor));
    add_part(&mut parts, d.show_position && v.position.is_some(), "📍 ", opt_text(&v.position));
    add_part(&mut parts, d.show_view_aux && v.view.is_some(), "📐 ", opt_text(&v.view));
    assert(string_views(parts@) =~= status_parts(*v, *d));
    if parts.len() == 0 {
        String::from_str("CS16 v2 — Connected")
    } else {
        join_strings(&parts, "  ")
    }
}

/// The message shown while there is nothing to show.
pub open spec fn waiting_text(connected: bool, game_found: bool) -> Seq<char> {
    if !game_found {
        "[CS16 v2] Waiting for hl.exe..."@
    } else if !connected {
        "[CS16 v2] Connecting... (enter a match)"@
    } else {
        "[CS16 v2] Reading memory..."@
    }
}

/// The waiting message for the connection state.
pub fn waiting_message(connected: bool, game_found: bool) -> (r: String)
    ensures
        r@ == waiting_text(connected, game_found),
{
    if !game_found {
        String::from_str("[CS16 v2] Waiting for hl.exe...")
    } else if !connected {
        String::from_str("[CS16 v2] Connecting... (enter a match)")
    } else {
        String::from_str("[CS16 v2] Reading memory...")
    }
}

// ----------------------------------------------------------------------------
// Properties
// ----------------------------------------------------------------------------

/// An unread counter is shown as `--`, never as a number: the status line
/// does not depend on the value stored for a counter that was not read.
pub proof fn lemma_unread_counter_is_hidden(v: StatusView, d: StatusDisplay, x: i32)
    ensures
        !v.money_valid ==> status_text(StatusView { money: x, ..v }, d) == status_text(v, d),
        !v.clip_valid ==> status_text(StatusView { clip: x, ..v }, d) == status_text(v, d),
        !v.reserve_valid ==> status_text(StatusView { reserve: x, ..v }, d) == status_text(v, d),
        field_text(false, x, 2) == "--"@,
{
}

} // verus!
