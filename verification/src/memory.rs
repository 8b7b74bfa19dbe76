use vstd::prelude::*;

use crate::error::MemoryError;

verus! {

/// 32-bit wrapping addition, as the target's address arithmetic does it.
pub open spec fn wrap_add(a: u32, b: u32) -> u32 {
    if a + b > u32::MAX {
        (a + b - 0x1_0000_0000) as u32
    } else {
        (a + b) as u32
    }
}

/// 32-bit wrapping subtraction.
pub open spec fn wrap_sub(a: u32, b: u32) -> u32 {
    if a - b < 0 {
        (a - b + 0x1_0000_0000) as u32
    } else {
        (a - b) as u32
    }
}

/// A model of the target's memory: the 32-bit word stored at each address,
/// or `None` where reading fails.
pub type MemModel = spec_fn(u32) -> Option<u32>;

/// The reader may be called on every address.
pub open spec fn reader_total<F: Fn(u32) -> Option<u32>>(read: &F) -> bool {
    forall|a: u32| #[trigger] read.requires((a,))
}

/// Every answer of `read` is the word that `mem` holds at that address.
pub open spec fn reads_agree<F: Fn(u32) -> Option<u32>>(read: &F, mem: MemModel) -> bool {
    forall|a: u32, r: Option<u32>| #[trigger] read.ensures((a,), r) ==> r == mem(a)
}

/// Reading one word: a null address is refused before any access.
pub open spec fn word_at(mem: MemModel, addr: u32) -> Result<u32, MemoryError> {
    if addr == 0 {
        Err(MemoryError::InvalidAddress { address: 0 })
    } else {
        match mem(addr) {
            Some(v) => Ok(v),
            None => Err(MemoryError::ReadFailed { address: addr }),
        }
    }
}

/// Reads the word at `addr` through `read`, refusing the null address.
pub fn read_word<F: Fn(u32) -> Option<u32>>(read: &F, addr: u32) -> (res: Result<u32, MemoryError>)
    requires
        reader_total(read),
    ensures
        forall|mem: MemModel| #[trigger] reads_agree(read, mem) ==> res == word_at(mem, addr),
{
    if addr == 0 {
        return Err(MemoryError::InvalidAddress { address: addr });
    }
    match read(addr) {
        Some(v) => Ok(v),
        None => Err(MemoryError::ReadFailed { address: addr }),
    }
}

/// Following a pointer chain from `addr`, with `offsets[step..]` still to apply.
pub open spec fn chain_from(mem: MemModel, addr: u32, offsets: Seq<u32>, step: nat) -> Result<
    u32,
    MemoryError,
>
    decreases offsets.len() - step,
{
    if step >= offsets.len() {
        Ok(addr)
    } else {
        match word_at(mem, addr) {
            Ok(next) => if next == 0 {
                Err(MemoryError::ChainBroken { step: step as usize, address: addr })
            } else {
                chain_from(mem, wrap_add(next, offsets[step as int]), offsets, step + 1)
            },
            Err(_) => Err(MemoryError::ChainBroken { step: step as usize, address: addr }),
        }
    }
}

/// The address a pointer chain leads to: `addr = [addr] + offset` for each offset in turn.
pub open spec fn chain_spec(mem: MemModel, base_ptr: u32, offsets: Seq<u32>) -> Result<u32, MemoryError> {
    if base_ptr == 0 {
        Err(MemoryError::InvalidAddress { address: 0 })
    } else {
        chain_from(mem, base_ptr, offsets, 0)
    }
}

/// Resolves a pointer chain: starting at `base_ptr`, each step reads the pointer
/// at the current address, refuses a null pointer, and adds the next offset.
pub fn resolve_chain<F: Fn(u32) -> Option<u32>>(read: &F, base_ptr: u32, offsets: &[u32]) -> (res:
    Result<u32, MemoryError>)
    requires
        reader_total(read),
    ensures
        forall|mem: MemModel| #[trigger]
            reads_agree(read, mem) ==> res == chain_spec(mem, base_ptr, offsets@),
{
    if base_ptr == 0 {
        return Err(MemoryError::InvalidAddress { address: 0 });
    }
    let mut addr = base_ptr;
    let mut step: usize = 0;
    while step < offsets.len()
        invariant
            reader_total(read),
            step <= offsets@.len(),
            base_ptr != 0,
            forall|mem: MemModel| #[trigger]
                reads_agree(read, mem) ==> chain_spec(mem, base_ptr, offsets@) == chain_from(
                    mem,
                    addr,
                    offsets@,
                    step as nat,
                ),
        decreases offsets@.len() - step,
    {
        let next = match read_word(read, addr) {
            Ok(v) => v,
            Err(_) => {
                return Err(MemoryError::ChainBroken { step, address: addr });
            },
        };
        if next == 0 {
            return Err(MemoryError::ChainBroken { step, address: addr });
        }
        addr = next.wrapping_add(offsets[step]);
        step = step + 1;
    }
    Ok(addr)
}

/// The signed 32-bit value stored at `addr`.
pub open spec fn i32_at(mem: MemModel, addr: u32) -> Result<i32, MemoryError> {
    match word_at(mem, addr) {
        Ok(w) => Ok(w as i32),
        Err(e) => Err(e),
    }
}

/// Reads the signed 32-bit value at `addr`.
pub fn read_i32<F: Fn(u32) -> Option<u32>>(read: &F, addr: u32) -> (res: Result<i32, MemoryError>)
    requires
        reader_total(read),
    ensures
        forall|mem: MemModel| #[trigger] reads_agree(read, mem) ==> res == i32_at(mem, addr),
{
    match read_word(read, addr) {
        Ok(w) => Ok(#[verifier::truncate] (w as i32)),
        Err(e) => Err(e),
    }
}

/// Writes `value` at `address` through `write` (which reports whether the
/// write went through), refusing the null address before any access.
pub fn write_i32<W: Fn(u32, i32) -> bool>(write: &W, address: u32, value: i32) -> (res: Result<
    (),
    MemoryError,
>)
    requires
        write.requires((address, value)),
    ensures
        address == 0 ==> res == Err::<(), MemoryError>(MemoryError::InvalidAddress { address: 0 }),
        address != 0 ==> exists|ok: bool| #[trigger]
            write.ensures((address, value), ok) && res == if ok {
                Ok::<(), MemoryError>(())
            } else {
                Err(MemoryError::WriteFailed { address })
            },
{
    if address == 0 {
        return Err(MemoryError::InvalidAddress { address });
    }
    if write(address, value) {
        Ok(())
    } else {
        Err(MemoryError::WriteFailed { address })
    }
}

/// A write of a 32-bit value that the caller is to perform on the target.
#[derive(Debug, Clone, Copy, PartialEq, Eq, Structural)]
pub struct MemWrite {
    pub address: u32,
    pub value: i32,
}

// ----------------------------------------------------------------------------
// Properties of pointer chains
// ----------------------------------------------------------------------------

/// The address a chain result leads to, if it resolved.
pub open spec fn resolved(r: Result<u32, MemoryError>) -> Option<u32> {
    match r {
        Ok(a) => Some(a),
        Err(_) => None,
    }
}

proof fn lemma_chain_skip(mem: MemModel, addr: u32, offsets: Seq<u32>, step: nat)
    requires
        step <= offsets.len(),
    ensures
        resolved(chain_from(mem, addr, offsets, step)) == resolved(
            chain_from(mem, addr, offsets.subrange(step as int, offsets.len() as int), 0),
        ),
    decreases offsets.len() - step,
{
    let rest = offsets.subrange(step as int, offsets.len() as int);
    if step < offsets.len() {
        assert(rest[0] == offsets[step as int]);
        match word_at(mem, addr) {
            Ok(next) => {
                if next != 0 {
                    let a2 = wrap_add(next, offsets[step as int]);
                    lemma_chain_skip(mem, a2, offsets, step + 1);
                    lemma_chain_skip(mem, a2, rest, 1);
                    assert(rest.subrange(1, rest.len() as int) =~= offsets.subrange(
                        (step + 1) as int,
                        offsets.len() as int,
                    ));
                }
            },
            Err(_) => {},
        }
    }
}

proof fn lemma_chain_concat_from(mem: MemModel, addr: u32, first: Seq<u32>, second: Seq<u32>, step: nat)
    requires
        step <= first.len(),
    ensures
        resolved(chain_from(mem, addr, first + second, step)) == match resolved(
            chain_from(mem, addr, first, step),
        ) {
            Some(a) => resolved(chain_from(mem, a, second, 0)),
            None => None,
        },
    decreases first.len() - step,
{
    let all = first + second;
    if step < first.len() {
        assert(all[step as int] == first[step as int]);
        match word_at(mem, addr) {
            Ok(next) => {
                if next != 0 {
                    lemma_chain_concat_from(mem, wrap_add(next, first[step as int]), first, second, step + 1);
                }
            },
            Err(_) => {},
        }
    } else {
        lemma_chain_skip(mem, addr, all, step);
        assert(all.subrange(step as int, all.len() as int) =~= second);
    }
}

/// Following a chain's offsets in two parts is following them all at once:
/// when `first` resolves from `base_ptr` to a non-null address, the chain
/// `first + second` resolves exactly when `second` resolves from there, to the
/// same address; when `first` does not resolve, neither does the whole chain.
/// A chain without offsets resolves to its (non-null) base.
pub proof fn lemma_chain_in_two_parts(mem: MemModel, base_ptr: u32, first: Seq<u32>, second: Seq<u32>)
    ensures
        match resolved(chain_spec(mem, base_ptr, first)) {
            Some(a) => a != 0 ==> resolved(chain_spec(mem, base_ptr, first + second)) == resolved(
                chain_spec(mem, a, second),
            ),
            None => resolved(chain_spec(mem, base_ptr, first + second)) is None,
        },
        base_ptr != 0 ==> chain_spec(mem, base_ptr, Seq::empty()) == Ok::<u32, MemoryError>(base_ptr),
{
    if base_ptr != 0 {
        lemma_chain_concat_from(mem, base_ptr, first, second, 0);
    }
}

} // verus!
