//! The debug console: a periodic, ANSI-cleared dump of the engine's state.
use vstd::prelude::*;

use crate::config::DebugConsoleConfig;
use crate::state::DebugSnapshot;
use crate::text::{dec, dec_int, i64_to_string, pad_right, push_padded_right, push_str, u64_to_string};

verus! {

/// The debug console's state: its settings, how many times it has printed,
/// and when it last printed (milliseconds on a monotonic clock).
pub struct DebugConsole {
    pub config: DebugConsoleConfig,
    pub tick: u64,
    pub last_ms: u64,
}

/// A counter's text, or `--` when it was never read.
pub open spec fn opt_text(valid: bool, v: i32) -> Seq<char> {
    if valid {
        dec_int(v as int)
    } else {
        "--"@
    }
}

/// `YES` or `NO`.
pub open spec fn yn_text(v: bool) -> Seq<char> {
    if v {
        "YES"@
    } else {
        "NO"@
    }
}

/// The counters line of a ready engine.
pub open spec fn counters_text(s: DebugSnapshot) -> Seq<char> {
    "💰 "@ + opt_text(s.money_valid, s.money) + "  🔫 "@ + opt_text(s.clip_valid, s.clip) + "/"@
        + opt_text(s.reserve_valid, s.reserve) + "  write="@ + yn_text(s.write_enabled)
        + "  alive="@ + yn_text(s.player_alive) + "\n"@
}

/// The line that names where the money address came from, when it is known.
pub open spec fn source_text(s: DebugSnapshot) -> Seq<char> {
    if s.money_source@.len() > 0 {
        "money source: "@ + s.money_source@ + "\n"@
    } else {
        Seq::empty()
    }
}

/// The body line that depends on the connection state.
pub open spec fn status_block(s: DebugSnapshot) -> Seq<char> {
    if !s.connected {
        "[!] منتظر hl.exe — وارد match شو\n"@
    } else if !s.ready {
        "[!] در حال resolve آدرس‌ها...\n"@
    } else {
        counters_text(s) + source_text(s)
    }
}

/// Milliseconds from `last` to `now` on a monotonic clock (never negative).
pub open spec fn elapsed_since(last: u64, now: u64) -> int {
    if now >= last {
        now - last
    } else {
        0
    }
}

/// The console is enabled and its interval has passed since the last print.
pub open spec fn print_due(c: DebugConsole, now: u64) -> bool {
    c.config.enabled && elapsed_since(c.last_ms, now) >= c.config.interval_ms
}

/// The console after printing at `now`: one more print, made at `now`.
pub open spec fn after_print(c: DebugConsole, now: u64) -> DebugConsole {
    DebugConsole { tick: (c.tick + 1) as u64, last_ms: now, ..c }
}

/// The console after one call of `maybe_print` at `now`.
pub open spec fn console_step(c: DebugConsole, now: u64) -> DebugConsole {
    if print_due(c, now) {
        after_print(c, now)
    } else {
        c
    }
}

/// A console made at `now_ms`: nothing printed yet, and its last print placed
/// 10 s earlier (at `now_ms` itself when the clock is younger than that).
pub open spec fn fresh_console(config: DebugConsoleConfig, now_ms: u64) -> DebugConsole {
    DebugConsole {
        config,
        tick: 0,
        last_ms: if now_ms >= 10_000 {
            (now_ms - 10_000) as u64
        } else {
            now_ms
        },
    }
}

/// The console after calls of `maybe_print` at the times `times`, in order.
pub open spec fn after_calls(c: DebugConsole, times: Seq<u64>) -> DebugConsole
    decreases times.len(),
{
    if times.len() == 0 {
        c
    } else {
        console_step(after_calls(c, times.drop_last()), times.last())
    }
}

/// The times, among `times`, at which those calls printed a frame.
pub open spec fn printed_at(c: DebugConsole, times: Seq<u64>) -> Seq<u64>
    decreases times.len(),
{
    if times.len() == 0 {
        Seq::empty()
    } else if print_due(after_calls(c, times.drop_last()), times.last()) {
        printed_at(c, times.drop_last()).push(times.last())
    } else {
        printed_at(c, times.drop_last())
    }
}

/// The whole console text for print number `tick`.
pub open spec fn render_text(clear_screen: bool, tick: u64, s: DebugSnapshot) -> Seq<char> {
    (if clear_screen {
        "\x1b[2J\x1b[H"@
    } else {
        Seq::empty()
    }) + "╔══════════════════════════════════════════════════╗\n"@
        + "║  CS16 Tool v2 Debug  tick #"@ + pad_right(dec(tick as nat), 5) + "  ready: "@ + pad_right(
        yn_text(s.ready),
        5,
    ) + "     ║\n"@ + "╚══════════════════════════════════════════════════╝\n\n"@ + status_block(s)
        + "\n[F7] debug | [Insert] overlay | [Q] quit\n"@
}

/// A counter's text, or `--`.
pub fn opt(valid: bool, v: i32) -> (r: String)
    ensures
        r@ == opt_text(valid, v),
{
    if valid {
        i64_to_string(v as i64)
    } else {
        String::from_str("--")
    }
}

/// `YES` or `NO`.
pub fn yn(v: bool) -> (r: &'static str)
    ensures
        r@ == yn_text(v),
{
    if v {
        "YES"
    } else {
        "NO"
    }
}

/// `ON ` or `OFF`, three characters wide, as the start-up banner shows a switch.
pub fn on(v: bool) -> (r: &'static str)
    ensures
        r@ == if v { "ON "@ } else { "OFF"@ },
{
    if v {
        "ON "
    } else {
        "OFF"
    }
}

impl DebugConsole {
    /// A console that may print at once: its last print is placed 10 s before
    /// `now_ms` (at `now_ms` itself when the clock is younger than that).
    pub fn new(config: DebugConsoleConfig, now_ms: u64) -> (c: Self)
        ensures
            c.config == config,
            c.tick == 0,
            c.last_ms == if now_ms >= 10_000 {
                (now_ms - 10_000) as u64
            } else {
                now_ms
            },
            c == fresh_console(config, now_ms),
    {
        let last = if now_ms >= 10_000 {
            now_ms - 10_000
        } else {
            now_ms
        };
        DebugConsole { config, tick: 0, last_ms: last }
    }

    /// How many times the console has printed.
    pub fn tick(&self) -> (t: u64)
        ensures
            t == self.tick,
    {
        self.tick
    }

    /// When the console last printed.
    pub fn last_ms(&self) -> (t: u64)
        ensures
            t == self.last_ms,
    {
        self.last_ms
    }

    /// The text to print at `now_ms`, if it is time: the console must be
    /// enabled and the interval must have passed since the last print; then the
    /// print is counted.
    pub fn maybe_print(&mut self, snap: &DebugSnapshot, now_ms: u64) -> (r: Option<String>)
        requires
            old(self).tick < u64::MAX,
        ensures
            if print_due(*old(self), now_ms) {
                &&& *final(self) == after_print(*old(self), now_ms)
                &&& r matches Some(t) && t@ == render_text(
                    old(self).config.clear_screen,
                    final(self).tick,
                    *snap,
                )
            } else {
                r is None && *final(self) == *old(self)
            },
            *final(self) == console_step(*old(self), now_ms),
    {
        if !self.config.enabled {
            return None;
        }
        let elapsed = if now_ms >= self.last_ms {
            now_ms - self.last_ms
        } else {
            0
        };
        if elapsed < self.config.interval_ms {
            return None;
        }
        self.last_ms = now_ms;
        self.tick = self.tick + 1;
        Some(self.render(snap))
    }

    /// The console text for the current print count.
    pub fn render(&self, snap: &DebugSnapshot) -> (r: String)
        ensures
            r@ == render_text(self.config.clear_screen, self.tick, *snap),
    {
        let mut out = String::new();
        push_header(&mut out, self.config.clear_screen, self.tick, snap.ready);
        let ghost o1 = out@;
        push_status_block(&mut out, snap);
        let ghost o2 = out@;
        push_str(&mut out, "\n[F7] debug | [Insert] overlay | [Q] quit\n");
        assert(out@ =~= render_text(self.config.clear_screen, self.tick, *snap));
        out
    }
}

/// The header: optional screen clear, and the framed title line.
pub open spec fn header_text(clear_screen: bool, tick: u64, ready: bool) -> Seq<char> {
    (if clear_screen {
        "\x1b[2J\x1b[H"@
    } else {
        Seq::empty()
    }) + "╔══════════════════════════════════════════════════╗\n"@
        + "║  CS16 Tool v2 Debug  tick #"@ + pad_right(dec(tick as nat), 5) + "  ready: "@ + pad_right(
        yn_text(ready),
        5,
    ) + "     ║\n"@ + "╚══════════════════════════════════════════════════╝\n\n"@
}

fn push_header(out: &mut String, clear_screen: bool, tick: u64, ready: bool)
    ensures
        final(out)@ == old(out)@ + header_text(clear_screen, tick, ready),
{
    if clear_screen {
        push_str(out, "\x1b[2J\x1b[H");
    }
    push_str(out, "╔══════════════════════════════════════════════════╗\n");
    push_str(out, "║  CS16 Tool v2 Debug  tick #");
    let t = u64_to_string(tick);
    push_padded_right(out, t.as_str(), 5);
    push_str(out, "  ready: ");
    push_padded_right(out, yn(ready), 5);
    push_str(out, "     ║\n");
    push_str(out, "╚══════════════════════════════════════════════════╝\n\n");
    assert(out@ =~= old(out)@ + header_text(clear_screen, tick, ready));
}

#[verifier::rlimit(40)]
fn push_counters(out: &mut String, snap: &DebugSnapshot)
    ensures
        final(out)@ == old(out)@ + counters_text(*snap),
{
    let ghost o = out@;
    push_str(out, "💰 ");
    let m = opt(snap.money_valid, snap.money);
    push_str(out, m.as_str());
    push_str(out, "  🔫 ");
    let c = opt(snap.clip_valid, snap.clip);
    push_str(out, c.as_str());
    push_str(out, "/");
    let v = opt(snap.reserve_valid, snap.reserve);
    push_str(out, v.as_str());
    let ghost o1 = out@;
    assert(o1 =~= o + ("💰 "@ + m@ + "  🔫 "@ + c@ + "/"@ + v@));
    push_str(out, "  write=");
    push_str(out, yn(snap.write_enabled));
    push_str(out, "  alive=");
    push_str(out, yn(snap.player_alive));
    push_str(out, "\n");
    assert(out@ =~= o1 + ("  write="@ + yn_text(snap.write_enabled) + "  alive="@ + yn_text(
        snap.player_alive,
    ) + "\n"@));
    assert(out@ =~= o + counters_text(*snap));
}

fn push_source(out: &mut String, snap: &DebugSnapshot)
    ensures
        final(out)@ == old(out)@ + source_text(*snap),
{
    if !snap.money_source.as_str().is_empty() {
        push_str(out, "money source: ");
        push_str(out, snap.money_source.as_str());
        push_str(out, "\n");
        assert(out@ =~= old(out)@ + source_text(*snap));
    } else {
        assert(out@ =~= old(out)@ + source_text(*snap));
    }
}

fn push_status_block(out: &mut String, snap: &DebugSnapshot)
    ensures
        final(out)@ == old(out)@ + status_block(*snap),
{
    if !snap.connected {
        push_str(out, "[!] منتظر hl.exe — وارد match شو\n");
    } else if !snap.ready {
        push_str(out, "[!] در حال resolve آدرس‌ها...\n");
    } else {
        push_counters(out, snap);
        push_source(out, snap);
        assert(out@ =~= old(out)@ + status_block(*snap));
    }
}

/// The console prints at most once per interval: after a print at `now`, it
/// is not due again before `now + interval`, and is due again from then on.
pub proof fn lemma_one_print_per_interval(c: DebugConsole, now: u64, later: u64)
    requires
        now <= later,
    ensures
        later < now + c.config.interval_ms ==> !print_due(after_print(c, now), later),
        c.config.enabled && later >= now + c.config.interval_ms ==> print_due(after_print(c, now), later),
{
}

/// Over a run of `maybe_print` calls at non-decreasing times `times` (a
/// monotonic clock), the console's count grows by exactly the number of
/// frames printed, any two printed frames are at least one interval apart,
/// its last print is the last frame printed, and when the first call is due
/// the first frame is printed by that call.
pub proof fn lemma_prints_over_a_run(c: DebugConsole, times: Seq<u64>)
    requires
        forall|i: int, j: int| 0 <= i <= j < times.len() ==> times[i] <= times[j],
        c.tick + times.len() <= u64::MAX,
    ensures
        after_calls(c, times).tick == c.tick + printed_at(c, times).len(),
        after_calls(c, times).config == c.config,
        printed_at(c, times).len() == 0 ==> after_calls(c, times).last_ms == c.last_ms,
        printed_at(c, times).len() > 0 ==> after_calls(c, times).last_ms == printed_at(c, times).last(),
        forall|i: int, j: int|
            0 <= i < j < printed_at(c, times).len() ==> printed_at(c, times)[i] + c.config.interval_ms
                <= printed_at(c, times)[j],
        times.len() > 0 && print_due(c, times[0]) ==> printed_at(c, times).len() > 0
            && printed_at(c, times)[0] == times[0],
        printed_at(c, times).len() > 0 ==> printed_at(c, times).last() <= times.last(),
        printed_at(c, times).len() <= times.len(),
    decreases times.len(),
{
    if times.len() > 0 {
        let prev = times.drop_last();
        let t = times.last();
        assert forall|i: int, j: int| 0 <= i <= j < prev.len() implies prev[i] <= prev[j] by {
            assert(times[i] <= times[j]);
        }
        lemma_prints_over_a_run(c, prev);
        let p = after_calls(c, prev);
        let pr = printed_at(c, prev);
        if prev.len() > 0 {
            assert(prev[0] == times[0]);
            assert(prev.last() <= t);
        }
        if print_due(p, t) {
            let q = pr.push(t);
            assert forall|i: int, j: int| 0 <= i < j < q.len() implies q[i] + c.config.interval_ms
                <= q[j] by {
                if j == q.len() - 1 {
                    assert(q[j] == t);
                    assert(pr.last() + c.config.interval_ms <= t);
                    if i < pr.len() - 1 {
                        assert(pr[i] + c.config.interval_ms <= pr[pr.len() - 1]);
                    }
                } else {
                    assert(q[i] == pr[i] && q[j] == pr[j]);
                }
            }
        }
    }
}

/// A console made at `now_ms` with its interval at most 10 s prints on the
/// first call made at or after `now_ms`, when it is enabled.
pub proof fn lemma_fresh_console_prints_at_once(config: DebugConsoleConfig, now_ms: u64, t: u64)
    requires
        config.interval_ms <= 10_000,
        now_ms >= 10_000,
        t >= now_ms,
    ensures
        print_due(fresh_console(config, now_ms), t) == config.enabled,
{
}

} // verus!
