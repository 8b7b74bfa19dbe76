//! Finding the game process and its modules by name, in the lists of
//! processes and modules that the system reports, and telling whether a
//! process is still running.
use vstd::prelude::*;

use crate::config::ModulesConfig;
use crate::error::MemoryError;
use crate::text::{chars_of, push_str};

verus! {

/// The exit code the system reports for a process that has not exited.
pub const STILL_ACTIVE: u32 = 259;

/// The UTF-16 code units of one character.
pub open spec fn utf16_of_char(c: char) -> Seq<u16> {
    let v = c as u32;
    if v < 0x10000 {
        seq![v as u16]
    } else {
        let u = (v - 0x10000) as u32;
        seq![(0xD800 + u / 0x400) as u16, (0xDC00 + u % 0x400) as u16]
    }
}

/// The UTF-16 encoding of a text.
pub open spec fn utf16_of(s: Seq<char>) -> Seq<u16>
    decreases s.len(),
{
    if s.len() == 0 {
        Seq::empty()
    } else {
        utf16_of(s.drop_last()) + utf16_of_char(s.last())
    }
}

fn push_utf16(out: &mut Vec<u16>, c: char)
    ensures
        final(out)@ == old(out)@ + utf16_of_char(c),
{
    let v = c as u32;
    if v < 0x10000 {
        out.push(v as u16);
    } else {
        let u = v - 0x10000;
        assert(u < 0x100000) by {
            assert(v <= 0x10FFFF);
        }
        out.push((0xD800 + u / 0x400) as u16);
        out.push((0xDC00 + u % 0x400) as u16);
    }
    assert(out@ =~= old(out)@ + utf16_of_char(c));
}

/// The text as a NUL-terminated UTF-16 string, as the wide system calls take it.
pub fn to_wide(s: &str) -> (r: Vec<u16>)
    ensures
        r@ == utf16_of(s@).push(0),
{
    let cs = chars_of(s);
    let mut out: Vec<u16> = Vec::new();
    let mut i: usize = 0;
    while i < cs.len()
        invariant
            cs@ == s@,
            i <= cs@.len(),
            out@ == utf16_of(cs@.take(i as int)),
        decreases cs@.len() - i,
    {
        proof {
            assert(cs@.take(i as int + 1).drop_last() =~= cs@.take(i as int));
        }
        push_utf16(&mut out, cs[i]);
        i = i + 1;
    }
    assert(cs@.take(cs@.len() as int) =~= cs@);
    out.push(0);
    out
}

/// ASCII upper-case letters to lower case; every other unit unchanged.
pub open spec fn lower16(c: u16) -> u16 {
    if 65 <= c <= 90 {
        (c + 32) as u16
    } else {
        c
    }
}

/// `lower16`.
pub fn ascii_lower16(c: u16) -> (r: u16)
    ensures
        r == lower16(c),
{
    if 65 <= c && c <= 90 {
        c + 32
    } else {
        c
    }
}

/// The position of the first NUL at or after `i`, or the length when none.
pub open spec fn nul_from(s: Seq<u16>, i: int) -> int
    decreases s.len() - i,
{
    if i < 0 || i >= s.len() {
        s.len() as int
    } else if s[i] == 0 {
        i
    } else {
        nul_from(s, i + 1)
    }
}

/// The units before the first NUL.
pub open spec fn until_nul(s: Seq<u16>) -> Seq<u16> {
    s.take(nul_from(s, 0))
}

proof fn lemma_nul_from(s: Seq<u16>, i: int)
    requires
        0 <= i <= s.len(),
    ensures
        i <= nul_from(s, i) <= s.len(),
        forall|j: int| i <= j < nul_from(s, i) ==> s[j] != 0,
        nul_from(s, i) < s.len() ==> s[nul_from(s, i)] == 0,
    decreases s.len() - i,
{
    if i < s.len() && s[i] != 0 {
        lemma_nul_from(s, i + 1);
    }
}

/// The length of the text before the first NUL.
fn nul_len(s: &[u16]) -> (n: usize)
    ensures
        n == nul_from(s@, 0),
{
    let mut i: usize = 0;
    while i < s.len() && s[i] != 0
        invariant
            i <= s@.len(),
            nul_from(s@, 0) == nul_from(s@, i as int),
        decreases s@.len() - i,
    {
        i = i + 1;
    }
    i
}

/// Two NUL-terminated names are equal, ignoring ASCII case.
pub open spec fn wide_eq_spec(a: Seq<u16>, b: Seq<u16>) -> bool {
    let x = until_nul(a);
    let y = until_nul(b);
    &&& x.len() == y.len()
    &&& forall|i: int| 0 <= i < x.len() ==> lower16(#[trigger] x[i]) == lower16(y[i])
}

/// Compares two NUL-terminated UTF-16 names, ignoring ASCII case; what
/// follows the first NUL of either is not looked at.
pub fn wide_eq(buf: &[u16], target: &[u16]) -> (r: bool)
    ensures
        r == wide_eq_spec(buf@, target@),
{
    let n = nul_len(buf);
    let m = nul_len(target);
    proof {
        lemma_nul_from(buf@, 0);
        lemma_nul_from(target@, 0);
    }
    if n != m {
        return false;
    }
    let mut i: usize = 0;
    while i < n
        invariant
            n == m,
            n == nul_from(buf@, 0),
            m == nul_from(target@, 0),
            n <= buf@.len(),
            m <= target@.len(),
            i <= n,
            forall|j: int| 0 <= j < i ==> lower16(#[trigger] buf@[j]) == lower16(target@[j]),
        decreases n - i,
    {
        if ascii_lower16(buf[i]) != ascii_lower16(target[i]) {
            assert(until_nul(buf@)[i as int] == buf@[i as int]);
            assert(until_nul(target@)[i as int] == target@[i as int]);
            return false;
        }
        i = i + 1;
    }
    assert forall|j: int| 0 <= j < until_nul(buf@).len() implies lower16(
        #[trigger] until_nul(buf@)[j],
    ) == lower16(until_nul(target@)[j]) by {
        assert(until_nul(buf@)[j] == buf@[j]);
        assert(until_nul(target@)[j] == target@[j]);
    }
    true
}

/// The value of the first entry whose name matches `target`.
pub open spec fn first_named<T>(entries: Seq<(Vec<u16>, T)>, target: Seq<u16>, i: int) -> Option<T>
    decreases entries.len() - i,
{
    if i < 0 || i >= entries.len() {
        None
    } else if wide_eq_spec(entries[i].0@, target) {
        Some(entries[i].1)
    } else {
        first_named(entries, target, i + 1)
    }
}

/// The value of the first entry (a process or a module, with its system
/// name as UTF-16) whose name is `name`, ignoring ASCII case.
pub fn find_named<T: Copy>(entries: &Vec<(Vec<u16>, T)>, name: &str) -> (r: Option<T>)
    ensures
        r == first_named(entries@, utf16_of(name@).push(0), 0),
{
    let wide = to_wide(name);
    let mut i: usize = 0;
    while i < entries.len()
        invariant
            wide@ == utf16_of(name@).push(0),
            i <= entries@.len(),
            first_named(entries@, wide@, 0) == first_named(entries@, wide@, i as int),
        decreases entries@.len() - i,
    {
        if wide_eq(entries[i].0.as_slice(), wide.as_slice()) {
            return Some(entries[i].1);
        }
        i = i + 1;
    }
    None
}

/// The id of the first running process whose executable is named `name`.
pub fn find_pid(name: &str, processes: &Vec<(Vec<u16>, u32)>) -> (r: Option<u32>)
    ensures
        r == first_named(processes@, utf16_of(name@).push(0), 0),
{
    find_named(processes, name)
}

/// The result is the error that module `name` is not loaded.
pub open spec fn module_not_found(r: Result<u32, MemoryError>, name: Seq<char>) -> bool {
    r matches Err(MemoryError::ModuleNotFound { name: n }) && n@ == name
}

/// The base address of module `name` among the process's modules (each
/// with its base and size), or `ModuleNotFound`.
pub fn module_base(name: &str, modules: &Vec<(Vec<u16>, (u32, u32))>) -> (r: Result<u32, MemoryError>)
    ensures
        match first_named(modules@, utf16_of(name@).push(0), 0) {
            Some(info) => r == Ok::<u32, MemoryError>(info.0),
            None => module_not_found(r, name@),
        },
{
    match find_named(modules, name) {
        Some(info) => Ok(info.0),
        None => Err(MemoryError::ModuleNotFound { name: String::from_str(name) }),
    }
}

/// The size of module `name`, or `ModuleNotFound`.
pub fn module_size(name: &str, modules: &Vec<(Vec<u16>, (u32, u32))>) -> (r: Result<u32, MemoryError>)
    ensures
        match first_named(modules@, utf16_of(name@).push(0), 0) {
            Some(info) => r == Ok::<u32, MemoryError>(info.1),
            None => module_not_found(r, name@),
        },
{
    match find_named(modules, name) {
        Some(info) => Ok(info.1),
        None => Err(MemoryError::ModuleNotFound { name: String::from_str(name) }),
    }
}

/// The engine module's base: the hardware renderer's module, else the
/// software renderer's when one is configured.
pub open spec fn engine_base_spec(cfg: ModulesConfig, modules: Seq<(Vec<u16>, (u32, u32))>) -> Option<
    u32,
> {
    match first_named(modules, utf16_of(cfg.hw@).push(0), 0) {
        Some(info) => Some(info.0),
        None => if cfg.sw@.len() > 0 {
            match first_named(modules, utf16_of(cfg.sw@).push(0), 0) {
                Some(info) => Some(info.0),
                None => None,
            }
        } else {
            None
        },
    }
}

/// The base address of the engine module (see `engine_base_spec`); when
/// neither module is loaded, the error names both, as `hw / sw`.
pub fn engine_base(cfg: &ModulesConfig, modules: &Vec<(Vec<u16>, (u32, u32))>) -> (r: Result<
    u32,
    MemoryError,
>)
    ensures
        match engine_base_spec(*cfg, modules@) {
            Some(b) => r == Ok::<u32, MemoryError>(b),
            None => module_not_found(r, cfg.hw@ + " / "@ + cfg.sw@),
        },
{
    if let Ok(base) = module_base(cfg.hw.as_str(), modules) {
        return Ok(base);
    }
    if !cfg.sw.as_str().is_empty() {
        if let Ok(base) = module_base(cfg.sw.as_str(), modules) {
            return Ok(base);
        }
    }
    let mut name = String::new();
    push_str(&mut name, cfg.hw.as_str());
    push_str(&mut name, " / ");
    push_str(&mut name, cfg.sw.as_str());
    assert(name@ =~= cfg.hw@ + " / "@ + cfg.sw@);
    Err(MemoryError::ModuleNotFound { name })
}

/// Whether process `pid` is still running: `exit_code` opens it and asks
/// for its exit code (`None` when either fails). Process 0 is never running
/// and is not asked about.
pub fn is_alive<Q: Fn(u32) -> Option<u32>>(pid: u32, exit_code: &Q) -> (r: bool)
    requires
        exit_code.requires((pid,)),
    ensures
        pid == 0 ==> !r,
        pid != 0 ==> exists|c: Option<u32>| #[trigger]
            exit_code.ensures((pid,), c) && r == (c == Some(STILL_ACTIVE)),
{
    if pid == 0 {
        return false;
    }
    let c = exit_code(pid);
    match c {
        Some(code) => code == STILL_ACTIVE,
        None => false,
    }
}

// ----------------------------------------------------------------------------
// Properties
// ----------------------------------------------------------------------------

/// Name comparison is symmetric, and every name equals itself.
pub proof fn lemma_wide_eq_symmetric(a: Seq<u16>, b: Seq<u16>)
    ensures
        wide_eq_spec(a, b) == wide_eq_spec(b, a),
        wide_eq_spec(a, a),
{
}

/// Changing the ASCII case of a name's letters does not change what it
/// matches: a name whose units lower-case to those of another matches it.
pub proof fn lemma_wide_eq_ignores_ascii_case(a: Seq<u16>, b: Seq<u16>)
    requires
        a.len() == b.len(),
        forall|i: int| 0 <= i < a.len() ==> lower16(#[trigger] a[i]) == lower16(b[i]),
    ensures
        wide_eq_spec(a, b),
{
    lemma_nul_from(a, 0);
    lemma_nul_from(b, 0);
    assert forall|i: int| 0 <= i < a.len() implies (#[trigger] a[i] == 0) == (b[i] == 0) by {
        assert(lower16(a[i]) == lower16(b[i]));
    }
    lemma_nul_same(a, b, 0);
}

proof fn lemma_nul_same(a: Seq<u16>, b: Seq<u16>, i: int)
    requires
        a.len() == b.len(),
        0 <= i <= a.len(),
        forall|j: int| 0 <= j < a.len() ==> (#[trigger] a[j] == 0) == (b[j] == 0),
    ensures
        nul_from(a, i) == nul_from(b, i),
    decreases a.len() - i,
{
    if i < a.len() {
        assert((a[i] == 0) == (b[i] == 0));
        lemma_nul_same(a, b, i + 1);
    }
}

/// A lookup by name gives the value of the first entry whose name matches,
/// and nothing when no entry matches.
pub proof fn lemma_first_named_is_first_match<T>(entries: Seq<(Vec<u16>, T)>, target: Seq<u16>, i: int)
    requires
        0 <= i <= entries.len(),
    ensures
        match first_named(entries, target, i) {
            Some(v) => exists|k: int|
                i <= k < entries.len() && wide_eq_spec((#[trigger] entries[k]).0@, target)
                    && entries[k].1 == v && forall|j: int|
                    i <= j < k ==> !wide_eq_spec((#[trigger] entries[j]).0@, target),
            None => forall|j: int|
                i <= j < entries.len() ==> !wide_eq_spec((#[trigger] entries[j]).0@, target),
        },
    decreases entries.len() - i,
{
    if i < entries.len() && !wide_eq_spec(entries[i].0@, target) {
        lemma_first_named_is_first_match(entries, target, i + 1);
    }
}

} // verus!
