use vstd::prelude::*;

use crate::text::{dec, hex_prefixed, hex_string, push_str, u64_to_string};

verus! {

/// Failures of process, module and memory access.
#[derive(Debug, Clone, PartialEq, Eq)]
pub enum MemoryError {
    /// The target process is not running under that name.
    ProcessNotFound { name: String },
    /// Opening the process failed (usually missing administrator rights).
    OpenProcessFailed { pid: u32 },
    /// The module is not loaded in the target process.
    ModuleNotFound { name: String },
    /// Reading target memory at `address` failed.
    ReadFailed { address: u32 },
    /// Writing target memory at `address` failed.
    WriteFailed { address: u32 },
    /// Pointer-chain resolution stopped at `step`, reading `address`.
    ChainBroken { step: usize, address: u32 },
    /// A null address was handed to a read or a write.
    InvalidAddress { address: u32 },
}

/// Top-level application error.
#[derive(Debug, Clone, PartialEq, Eq)]
pub enum AppError {
    /// Configuration parsing or validation error.
    Config(String),
    /// Memory access error.
    Memory(MemoryError),
}

impl From<MemoryError> for AppError {
    fn from(e: MemoryError) -> (r: AppError) {
        AppError::Memory(e)
    }
}

impl vstd::std_specs::convert::FromSpecImpl<MemoryError> for AppError {
    open spec fn obeys_from_spec() -> bool {
        true
    }

    open spec fn from_spec(e: MemoryError) -> AppError {
        AppError::Memory(e)
    }
}

/// The message of a memory error, as the user reads it.
pub open spec fn memory_error_text(e: MemoryError) -> Seq<char> {
    match e {
        MemoryError::ProcessNotFound { name } => "پروسس '"@ + name@ + "' پیدا نشد"@,
        MemoryError::OpenProcessFailed { pid } => "OpenProcess برای PID="@ + dec(pid as nat)
            + " ناموفق — Run as Administrator"@,
        MemoryError::ModuleNotFound { name } => "ماژول '"@ + name@ + "' لود نشده — وارد match شو"@,
        MemoryError::ReadFailed { address } => "خواندن در "@ + hex_prefixed(address as nat)
            + " ناموفق"@,
        MemoryError::WriteFailed { address } => "نوشتن در "@ + hex_prefixed(address as nat)
            + " ناموفق"@,
        MemoryError::ChainBroken { step, address } => "chain در گام "@ + dec(step as nat)
            + " شکست (آدرس "@ + hex_prefixed(address as nat) + ")"@,
        MemoryError::InvalidAddress { address } => "آدرس نامعتبر: "@ + hex_prefixed(address as nat),
    }
}

/// The message of an application error.
pub open spec fn app_error_text(e: AppError) -> Seq<char> {
    match e {
        AppError::Config(m) => "پیکربندی: "@ + m@,
        AppError::Memory(m) => "حافظه: "@ + memory_error_text(m),
    }
}

impl MemoryError {
    /// The error's message; addresses are written in hexadecimal with `0x`.
    pub fn message(&self) -> (r: String)
        ensures
            r@ == memory_error_text(*self),
    {
        let mut out = String::new();
        match self {
            MemoryError::ProcessNotFound { name } => {
                push_str(&mut out, "پروسس '");
                push_str(&mut out, name.as_str());
                push_str(&mut out, "' پیدا نشد");
            },
            MemoryError::OpenProcessFailed { pid } => {
                push_str(&mut out, "OpenProcess برای PID=");
                let t = u64_to_string(*pid as u64);
                push_str(&mut out, t.as_str());
                push_str(&mut out, " ناموفق — Run as Administrator");
            },
            MemoryError::ModuleNotFound { name } => {
                push_str(&mut out, "ماژول '");
                push_str(&mut out, name.as_str());
                push_str(&mut out, "' لود نشده — وارد match شو");
            },
            MemoryError::ReadFailed { address } => {
                push_str(&mut out, "خواندن در ");
                let t = hex_string(*address as u64);
                push_str(&mut out, t.as_str());
                push_str(&mut out, " ناموفق");
            },
            MemoryError::WriteFailed { address } => {
                push_str(&mut out, "نوشتن در ");
                let t = hex_string(*address as u64);
                push_str(&mut out, t.as_str());
                push_str(&mut out, " ناموفق");
            },
            MemoryError::ChainBroken { step, address } => {
                push_str(&mut out, "chain در گام ");
                let t = u64_to_string(*step as u64);
                push_str(&mut out, t.as_str());
                push_str(&mut out, " شکست (آدرس ");
                let h = hex_string(*address as u64);
                push_str(&mut out, h.as_str());
                push_str(&mut out, ")");
            },
            MemoryError::InvalidAddress { address } => {
                push_str(&mut out, "آدرس نامعتبر: ");
                let t = hex_string(*address as u64);
                push_str(&mut out, t.as_str());
            },
        }
        assert(out@ =~= memory_error_text(*self));
        out
    }
}

impl AppError {
    /// The error's message.
    pub fn message(&self) -> (r: String)
        ensures
            r@ == app_error_text(*self),
    {
        let mut out = String::new();
        match self {
            AppError::Config(m) => {
                push_str(&mut out, "پیکربندی: ");
                push_str(&mut out, m.as_str());
            },
            AppError::Memory(m) => {
                push_str(&mut out, "حافظه: ");
                let t = m.message();
                push_str(&mut out, t.as_str());
            },
        }
        assert(out@ =~= app_error_text(*self));
        out
    }
}

} // verus!
