//! Game window discovery and geometry: the cache of the window handle, the
//! order in which the game's window is looked for, and the window rectangle.
//!
//! The window system itself is reached through the closures that the caller
//! hands in; what is decided from their answers is here.
use vstd::prelude::*;

verus! {

/// Axis-aligned rectangle of the game window's client or window area, in
/// screen pixels from the monitor's top-left corner.
#[derive(Debug, Clone, Copy, PartialEq, Eq, Structural)]
pub struct GameRect {
    pub x: i32,
    pub y: i32,
    pub width: i32,
    pub height: i32,
}

impl Default for GameRect {
    fn default() -> (r: Self)
        ensures
            r == (GameRect { x: 0, y: 0, width: 0, height: 0 }),
    {
        GameRect { x: 0, y: 0, width: 0, height: 0 }
    }
}

/// Corners of a rectangle as the window system reports them:
/// `(left, top, right, bottom)`.
pub type Corners = (i32, i32, i32, i32);

/// Width and height of the corners fit in an `i32`.
pub open spec fn corners_fit(c: Corners) -> bool {
    &&& i32::MIN <= c.2 - c.0 <= i32::MAX
    &&& i32::MIN <= c.3 - c.1 <= i32::MAX
}

/// The rectangle spanned by the corners, when it has a positive area.
pub open spec fn rect_of(c: Corners) -> Option<GameRect> {
    if c.2 - c.0 <= 0 || c.3 - c.1 <= 0 {
        None
    } else {
        Some(GameRect { x: c.0, y: c.1, width: (c.2 - c.0) as i32, height: (c.3 - c.1) as i32 })
    }
}

/// The rectangle spanned by the corners, or `None` when it is empty.
pub fn rect_from_corners(c: Corners) -> (r: Option<GameRect>)
    requires
        corners_fit(c),
    ensures
        r == rect_of(c),
{
    let w = c.2 - c.0;
    let h = c.3 - c.1;
    if w <= 0 || h <= 0 {
        return None;
    }
    Some(GameRect { x: c.0, y: c.1, width: w, height: h })
}

/// The client rectangle wins when it has a positive area; otherwise the
/// whole window's rectangle is taken.
pub open spec fn client_usable(cc: Option<Corners>) -> bool {
    cc matches Some(c) && rect_of(c) matches Some(r) && r.width > 0 && r.height > 0
}

/// Every corners a rectangle query can answer fit in an `i32`.
pub open spec fn corners_query_fits<Q: Fn(isize) -> Option<Corners>>(q: &Q, hwnd: isize) -> bool {
    &&& q.requires((hwnd,))
    &&& forall|c: Corners| #[trigger] q.ensures((hwnd,), Some(c)) ==> corners_fit(c)
}

/// The rectangle of the window `hwnd`, preferring its client area.
///
/// `client` answers the client area's corners in screen coordinates, `window`
/// the whole window's corners; `window` is asked only when the client area
/// is missing or empty.
pub fn get_game_rect<C: Fn(isize) -> Option<Corners>, W: Fn(isize) -> Option<Corners>>(
    hwnd: isize,
    client: &C,
    window: &W,
) -> (r: Option<GameRect>)
    requires
        corners_query_fits(client, hwnd),
        corners_query_fits(window, hwnd),
    ensures
        ({
            ||| exists|cc: Option<Corners>| #[trigger]
                client.ensures((hwnd,), cc) && client_usable(cc) && r == rect_of(cc->0)
            ||| exists|cc: Option<Corners>, wc: Option<Corners>| #[trigger]
                client.ensures((hwnd,), cc) && !client_usable(cc) && #[trigger] window.ensures(
                    (hwnd,),
                    wc,
                ) && r == (match wc {
                    Some(w) => rect_of(w),
                    None => None,
                })
        }),
{
    let cc = client(hwnd);
    if let Some(c) = cc {
        if let Some(r) = rect_from_corners(c) {
            if r.width > 0 && r.height > 0 {
                return Some(r);
            }
        }
    }
    let wc = window(hwnd);
    match wc {
        Some(w) => rect_from_corners(w),
        None => None,
    }
}

/// Area of a rectangle.
pub open spec fn area(r: GameRect) -> int {
    r.width * r.height
}

/// The area of every rectangle in the list fits in an `i32`.
pub open spec fn areas_fit(cands: Seq<(isize, Option<GameRect>)>) -> bool {
    forall|i: int|
        0 <= i < cands.len() ==> ((#[trigger] cands[i]).1 matches Some(r) ==> i32::MIN <= area(r)
            <= i32::MAX)
}

/// Scanning the windows in order: a window replaces the best so far only
/// when its area is strictly larger (the first of equal areas stays).
pub open spec fn largest_from(cands: Seq<(isize, Option<GameRect>)>, best: Option<isize>, best_area: int) -> (
    Option<isize>,
    int,
)
    decreases cands.len(),
{
    if cands.len() == 0 {
        (best, best_area)
    } else {
        let c = cands[0];
        let (b, a) = match c.1 {
            Some(r) => if area(r) > best_area {
                (Some(c.0), area(r))
            } else {
                (best, best_area)
            },
            None => (best, best_area),
        };
        largest_from(cands.drop_first(), b, a)
    }
}

/// The largest of the windows, by area of their rectangles; windows with no
/// rectangle, or no positive area, are never picked.
pub open spec fn largest_spec(cands: Seq<(isize, Option<GameRect>)>) -> Option<isize> {
    largest_from(cands, None, 0).0
}

proof fn lemma_largest_step(
    cands: Seq<(isize, Option<GameRect>)>,
    i: int,
    best: Option<isize>,
    best_area: int,
)
    requires
        0 <= i < cands.len(),
    ensures
        largest_from(cands.subrange(i, cands.len() as int), best, best_area) == ({
            let c = cands[i];
            let (b, a) = match c.1 {
                Some(r) => if area(r) > best_area {
                    (Some(c.0), area(r))
                } else {
                    (best, best_area)
                },
                None => (best, best_area),
            };
            largest_from(cands.subrange(i + 1, cands.len() as int), b, a)
        }),
{
    assert(cands.subrange(i, cands.len() as int).drop_first() =~= cands.subrange(
        i + 1,
        cands.len() as int,
    ));
}

/// The largest visible window among `cands` (each with its rectangle, where
/// one could be had): the first of the largest areas wins.
pub fn largest_visible(cands: &Vec<(isize, Option<GameRect>)>) -> (r: Option<isize>)
    requires
        areas_fit(cands@),
    ensures
        r == largest_spec(cands@),
{
    let mut best: Option<isize> = None;
    let mut best_area: i32 = 0;
    let mut i: usize = 0;
    assert(cands@.subrange(0, cands@.len() as int) =~= cands@);
    while i < cands.len()
        invariant
            i <= cands@.len(),
            areas_fit(cands@),
            largest_spec(cands@) == largest_from(
                cands@.subrange(i as int, cands@.len() as int),
                best,
                best_area as int,
            ).0,
        decreases cands@.len() - i,
    {
        proof {
            lemma_largest_step(cands@, i as int, best, best_area as int);
        }
        let c = cands[i];
        if let Some(r) = c.1 {
            assert(cands@[i as int].1 == Some(r));
            let a = r.width as i64 * r.height as i64;
            assert(a == area(r)) by (nonlinear_arith)
                requires
                    a == r.width as i64 * r.height as i64,
            ;
            if a > best_area as i64 {
                best_area = a as i32;
                best = Some(c.0);
            }
        }
        i = i + 1;
    }
    assert(cands@.subrange(cands@.len() as int, cands@.len() as int) =~= Seq::empty());
    best
}

/// How long a cached window handle is trusted, in milliseconds.
pub const WINDOW_CACHE_TTL_MS: u64 = 800;

/// The cached result of the last window lookup: for which process, which
/// handle (or none), and when it was made.
#[derive(Debug, Clone, Copy, PartialEq, Eq, Structural)]
pub struct WindowCache {
    pub pid: u32,
    pub hwnd: Option<isize>,
    pub at_ms: Option<u64>,
}

/// A cache that holds nothing.
pub open spec fn empty_cache() -> WindowCache {
    WindowCache { pid: 0, hwnd: None, at_ms: None }
}

impl WindowCache {
    /// A cache that holds nothing.
    pub fn new() -> (c: Self)
        ensures
            c == empty_cache(),
    {
        WindowCache { pid: 0, hwnd: None, at_ms: None }
    }
}

/// Forgets the cached window, so that the next lookup searches afresh
/// (after the game restarts or changes its display mode).
pub fn invalidate_window_cache(cache: &mut WindowCache)
    ensures
        *final(cache) == empty_cache(),
{
    *cache = WindowCache { pid: 0, hwnd: None, at_ms: None };
}

/// Milliseconds from `then` to `now` on a monotonic clock (never negative).
pub open spec fn elapsed_ms(then: u64, now: u64) -> int {
    if now >= then {
        now - then
    } else {
        0
    }
}

/// The cache holds a handle for `pid` that is younger than the TTL.
pub open spec fn cache_fresh(c: WindowCache, pid: u32, now_ms: u64) -> bool {
    &&& c.pid == pid
    &&& c.hwnd is Some
    &&& c.at_ms matches Some(t) && elapsed_ms(t, now_ms) < WINDOW_CACHE_TTL_MS
}

/// The handle names a window: it is not null and the window system knows it.
pub open spec fn handle_valid<V: Fn(isize) -> bool>(is_window: &V, h: isize) -> bool {
    h != 0 && is_window.ensures((h,), true)
}

/// The game window of process `pid`, from the cache when its entry is for
/// `pid`, younger than the TTL and still a window; otherwise from a fresh
/// search (`search`), whose answer is then cached with the time `now_ms`.
/// Process 0 has no window, and the cache is then left alone.
pub fn find_game_window<V: Fn(isize) -> bool, U: Fn(u32) -> Option<isize>>(
    cache: &mut WindowCache,
    pid: u32,
    now_ms: u64,
    is_window: &V,
    search: &U,
) -> (r: Option<isize>)
    requires
        forall|h: isize| #[trigger] is_window.requires((h,)),
        search.requires((pid,)),
    ensures
        pid == 0 ==> r is None && *final(cache) == *old(cache),
        pid != 0 ==> {
            ||| {
                &&& cache_fresh(*old(cache), pid, now_ms)
                &&& handle_valid(is_window, old(cache).hwnd->0)
                &&& r == old(cache).hwnd
                &&& *final(cache) == *old(cache)
            }
            ||| {
                &&& cache_fresh(*old(cache), pid, now_ms) && old(cache).hwnd->0 != 0
                    ==> is_window.ensures((old(cache).hwnd->0,), false)
                &&& search.ensures((pid,), r)
                &&& *final(cache) == (WindowCache { pid, hwnd: r, at_ms: Some(now_ms) })
            }
        },
{
    if pid == 0 {
        return None;
    }
    if cache.pid == pid {
        if let Some(h) = cache.hwnd {
            let fresh = match cache.at_ms {
                Some(t) => {
                    let e = if now_ms >= t {
                        now_ms - t
                    } else {
                        0
                    };
                    e < WINDOW_CACHE_TTL_MS
                },
                None => false,
            };
            if fresh && h != 0 && is_window(h) {
                return Some(h);
            }
        }
    }
    let found = search(pid);
    *cache = WindowCache { pid, hwnd: found, at_ms: Some(now_ms) };
    found
}

/// The window class of the game's main window.
pub const GAME_WINDOW_CLASS: &'static str = "Valve001";

/// The calls a fresh search makes, in order, and what each answered: the
/// class search first, then the title searches in order, then the largest
/// visible window; the search stops at the first window found.
pub open spec fn search_trace<C: Fn(u32, &str) -> Option<isize>, T: Fn(u32, &str) -> Option<
    isize,
>, L: Fn(u32) -> Option<isize>>(
    pid: u32,
    by_class: &C,
    by_title: &T,
    largest: &L,
    outs: Seq<Option<isize>>,
) -> bool {
    &&& 1 <= outs.len() <= 5
    &&& forall|i: int| 0 <= i < outs.len() - 1 ==> #[trigger] outs[i] is None
    &&& outs.len() < 5 ==> outs.last() is Some
    &&& by_class.ensures((pid, GAME_WINDOW_CLASS), outs[0])
    &&& outs.len() > 1 ==> by_title.ensures((pid, "Counter-Strike"), outs[1])
    &&& outs.len() > 2 ==> by_title.ensures((pid, "Half-Life"), outs[2])
    &&& outs.len() > 3 ==> by_title.ensures((pid, "Condition Zero"), outs[3])
    &&& outs.len() > 4 ==> largest.ensures((pid,), outs[4])
}

/// Looks for the game window of `pid` without the cache: by the window class
/// `Valve001`, then by the titles `Counter-Strike`, `Half-Life` and
/// `Condition Zero`, then the largest visible window of the process.
pub fn find_uncached<C: Fn(u32, &str) -> Option<isize>, T: Fn(u32, &str) -> Option<isize>, L: Fn(
    u32,
) -> Option<isize>>(pid: u32, by_class: &C, by_title: &T, largest: &L) -> (r: Option<isize>)
    requires
        forall|s: &str| #[trigger] by_class.requires((pid, s)),
        forall|s: &str| #[trigger] by_title.requires((pid, s)),
        largest.requires((pid,)),
    ensures
        exists|outs: Seq<Option<isize>>|
            #[trigger] search_trace(pid, by_class, by_title, largest, outs) && r == outs.last(),
{
    let a = by_class(pid, GAME_WINDOW_CLASS);
    if a.is_some() {
        assert(search_trace(pid, by_class, by_title, largest, seq![a]));
        return a;
    }
    let b = by_title(pid, "Counter-Strike");
    if b.is_some() {
        assert(search_trace(pid, by_class, by_title, largest, seq![a, b]));
        return b;
    }
    let c = by_title(pid, "Half-Life");
    if c.is_some() {
        assert(search_trace(pid, by_class, by_title, largest, seq![a, b, c]));
        return c;
    }
    let d = by_title(pid, "Condition Zero");
    if d.is_some() {
        assert(search_trace(pid, by_class, by_title, largest, seq![a, b, c, d]));
        return d;
    }
    let e = largest(pid);
    assert(search_trace(pid, by_class, by_title, largest, seq![a, b, c, d, e]));
    e
}

// ----------------------------------------------------------------------------
// Properties
// ----------------------------------------------------------------------------

/// A window cached for `pid` at time `t` is served from the cache (no new
/// search) at every time before `t + 800` ms, and no longer from then on; an
/// invalidated cache serves nothing.
pub proof fn lemma_cache_ttl(pid: u32, h: isize, t: u64, now: u64)
    ensures
        t <= now < t + WINDOW_CACHE_TTL_MS ==> cache_fresh(
            WindowCache { pid, hwnd: Some(h), at_ms: Some(t) },
            pid,
            now,
        ),
        now >= t + WINDOW_CACHE_TTL_MS ==> !cache_fresh(
            WindowCache { pid, hwnd: Some(h), at_ms: Some(t) },
            pid,
            now,
        ),
        pid != 0 ==> !cache_fresh(empty_cache(), pid, now),
{
}

/// The area a window counts with: its rectangle's, or none.
pub open spec fn opt_area(r: Option<GameRect>) -> int {
    match r {
        Some(g) => area(g),
        None => 0,
    }
}

proof fn lemma_largest_from(cands: Seq<(isize, Option<GameRect>)>, best: Option<isize>, best_area: int)
    requires
        best_area >= 0,
    ensures
        ({
            let (rb, ra) = largest_from(cands, best, best_area);
            ||| (rb == best && ra == best_area && forall|j: int|
                0 <= j < cands.len() ==> opt_area((#[trigger] cands[j]).1) <= best_area)
            ||| exists|k: int|
                0 <= k < cands.len() && rb == Some((#[trigger] cands[k]).0) && ra == opt_area(
                    cands[k].1,
                ) && ra > best_area && (forall|j: int|
                    0 <= j < cands.len() ==> opt_area((#[trigger] cands[j]).1) <= ra) && (forall|j: int|
                    0 <= j < k ==> opt_area((#[trigger] cands[j]).1) < ra)
        }),
    decreases cands.len(),
{
    if cands.len() > 0 {
        let c = cands[0];
        let (b2, a2) = match c.1 {
            Some(r) => if area(r) > best_area {
                (Some(c.0), area(r))
            } else {
                (best, best_area)
            },
            None => (best, best_area),
        };
        let tail = cands.drop_first();
        lemma_largest_from(tail, b2, a2);
        assert forall|j: int| 0 <= j < tail.len() implies tail[j] == cands[j + 1] by {}
        let (rb, ra) = largest_from(tail, b2, a2);
        assert(largest_from(cands, best, best_area) == (rb, ra));
        if rb == b2 && ra == a2 && forall|j: int| 0 <= j < tail.len() ==> opt_area((#[trigger] tail[j]).1) <= a2 {
            if a2 > best_area {
                assert forall|j: int| 0 <= j < cands.len() implies opt_area((#[trigger] cands[j]).1) <= ra by {
                    if j > 0 {
                        assert(cands[j] == tail[j - 1]);
                    }
                }
                assert(rb == Some(cands[0].0));
            } else {
                assert forall|j: int| 0 <= j < cands.len() implies opt_area((#[trigger] cands[j]).1) <= best_area by {
                    if j > 0 {
                        assert(cands[j] == tail[j - 1]);
                    }
                }
            }
        } else {
            let k = choose|k: int|
                0 <= k < tail.len() && rb == Some((#[trigger] tail[k]).0) && ra == opt_area(tail[k].1)
                    && ra > a2 && (forall|j: int| 0 <= j < tail.len() ==> opt_area((#[trigger] tail[j]).1) <= ra)
                    && (forall|j: int| 0 <= j < k ==> opt_area((#[trigger] tail[j]).1) < ra);
            assert(cands[k + 1] == tail[k]);
            assert forall|j: int| 0 <= j < cands.len() implies opt_area((#[trigger] cands[j]).1) <= ra by {
                if j > 0 {
                    assert(cands[j] == tail[j - 1]);
                }
            }
            assert forall|j: int| 0 <= j < k + 1 implies opt_area((#[trigger] cands[j]).1) < ra by {
                if j > 0 {
                    assert(cands[j] == tail[j - 1]);
                }
            }
        }
    }
}

/// The largest visible window is the first window whose rectangle has the
/// greatest area, and that area is positive; no window is picked when none
/// has a positive area.
pub proof fn lemma_largest_is_first_max(cands: Seq<(isize, Option<GameRect>)>)
    ensures
        match largest_spec(cands) {
            Some(h) => exists|k: int|
                0 <= k < cands.len() && (#[trigger] cands[k]).0 == h && cands[k].1 is Some
                    && opt_area(cands[k].1) > 0 && (forall|j: int|
                    0 <= j < cands.len() ==> opt_area((#[trigger] cands[j]).1) <= opt_area(cands[k].1))
                    && (forall|j: int| 0 <= j < k ==> opt_area((#[trigger] cands[j]).1) < opt_area(cands[k].1)),
            None => forall|j: int| 0 <= j < cands.len() ==> opt_area((#[trigger] cands[j]).1) <= 0,
        },
{
    lemma_largest_from(cands, None, 0);
}

} // verus!
