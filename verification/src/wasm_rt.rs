//! The contract between the kernel and a WebAssembly application.
//!
//! An application exports `memory`, `handle_request(method_ptr,
//! method_len, path_ptr, path_len, body_ptr, body_len) -> i32` and
//! `get_response_ptr() -> i32`. The kernel writes each request into the
//! second 64 KiB page of the application's memory (the method at 65536,
//! at most 256 bytes; the path at 65792, at most 1024 bytes; the body at
//! 66816, at most 32768 bytes) and copies the response out of it.
//!
//! The host functions it offers (`host.log`, `host.get_feed`,
//! `host.file_read`, `host.file_write`, `host.file_list`) read their
//! arguments out of that memory and copy results back into it; the
//! functions here are their bounds arithmetic. A pointer or length that
//! the application passes as a negative `i32` reads as a 64-bit unsigned
//! integer, as a cast to `usize` does on the kernel's target.

use vstd::prelude::*;
use vstd::slice::slice_subrange;
use vstd::utf8::valid_utf8;
use vstd::string::StringSliceAdditionalSpecFns;
use crate::bytes::{splice, copy_into};
use crate::text::{utf8_str, append_bytes};

verus! {

/// The largest module the kernel accepts, in bytes.
pub const MAX_WASM_BYTES: usize = 1048576;
/// The most pages an exported memory may start with.
pub const MAX_WASM_MEMORY_PAGES: u64 = 16;
/// The fuel each request may burn.
pub const FUEL_PER_REQUEST: u64 = 100_000_000;

pub const METHOD_OFF: usize = 65536;
pub const METHOD_MAX: usize = 256;
pub const PATH_OFF: usize = 65792;
pub const PATH_MAX: usize = 1024;
pub const BODY_OFF: usize = 66816;
pub const BODY_MAX: usize = 32768;

/// The size of the kernel's 64-bit address space.
pub const ADDR_SPACE: u128 = 0x1_0000_0000_0000_0000;

/// What the kernel keeps for an application's host functions: the
/// latest feed, which `host.get_feed` hands out.
pub struct HostState {
    pub feed_cache: Vec<u8>,
}

impl HostState {
    /// A state with no feed yet.
    pub fn new() -> (s: Self)
        ensures
            s.feed_cache@ == Seq::<u8>::empty(),
    {
        HostState { feed_cache: Vec::new() }
    }

    /// Replaces the feed.
    pub fn update_feed(&mut self, data: Vec<u8>)
        ensures
            final(self).feed_cache@ == data@,
    {
        self.feed_cache = data;
    }
}

// ─── Accepting a module ─────────────────────────────────────────────

/// What wasmi makes of `bytes` under a configuration that meters fuel:
/// `None` where it refuses the module (malformed, invalid, or beyond
/// what it can compile), else one item per export, in the order in which
/// `Module::exports` walks them (by name), the minimum page count for an
/// exported memory and `None` for any other export.
pub uninterp spec fn wasm_exports(bytes: Seq<u8>) -> Option<Seq<Option<u64>>>;

/// A compiled module, `wasmi::Module`, carried from compiling to
/// instantiating.
#[verifier::external_type_specification]
#[verifier::external_body]
pub struct ExModule(wasmi::Module);

/// A module that wasmi compiled, with the bytes it was compiled from.
pub struct CompiledModule {
    module: wasmi::Module,
    source: Ghost<Seq<u8>>,
}

impl CompiledModule {
    /// The bytes the module was compiled from.
    pub closed spec fn source(&self) -> Seq<u8> {
        self.source@
    }

    /// The compiled module, to be instantiated.
    pub fn module(&self) -> &wasmi::Module {
        &self.module
    }

    /// The compiled module, handed over to be instantiated.
    pub fn into_module(self) -> wasmi::Module {
        self.module
    }
}

/// Builds a fuel-metering `wasmi::Engine`, compiles `bytes` with
/// `wasmi::Module::new`, and walks `Module::exports`.
///
/// Trusted: the module that comes back is the one wasmi compiled from
/// `bytes`, and the exports are `wasm_exports` of the bytes, which is a
/// function of the bytes alone (compiling is deterministic); what wasmi
/// accepts, and what the compiled module holds, are not stated here.
#[verifier::external_body]
fn compile_module(bytes: &[u8]) -> (r: Option<(CompiledModule, Vec<Option<u64>>)>)
    ensures
        match r {
            Some(c) => c.0.source() == bytes@ && wasm_exports(bytes@) == Some(c.1@),
            None => wasm_exports(bytes@) is None,
        },
{
    let engine = wasmi::Engine::new(&*wasmi::Config::default().consume_fuel(true));
    let module = wasmi::Module::new(&engine, bytes).ok()?;
    let mut out: Vec<Option<u64>> = Vec::new();
    for e in module.exports() {
        out.push(match e.ty() {
            wasmi::ExternType::Memory(mt) => Some(mt.minimum()),
            wasmi::ExternType::Global(_) => None,
            wasmi::ExternType::Table(_) => None,
            wasmi::ExternType::Func(_) => None,
        });
    }
    Some((CompiledModule { module, source: Ghost(bytes@) }, out))
}

/// Whether every exported memory starts with at most 16 pages.
pub open spec fn memories_within_limit(exports: Seq<Option<u64>>) -> bool {
    forall|i: int|
        0 <= i < exports.len() ==> (#[trigger] exports[i] matches Some(p) ==> p
            <= MAX_WASM_MEMORY_PAGES)
}

/// Whether every exported memory in `exports` starts with at most 16
/// pages.
pub fn memory_within_limit(exports: &[Option<u64>]) -> (r: bool)
    ensures
        r == memories_within_limit(exports@),
{
    let mut i: usize = 0;
    while i < exports.len()
        invariant
            i <= exports@.len(),
            forall|j: int|
                0 <= j < i ==> (#[trigger] exports@[j] matches Some(p) ==> p
                    <= MAX_WASM_MEMORY_PAGES),
        decreases exports@.len() - i,
    {
        if let Some(p) = exports[i] {
            if p > MAX_WASM_MEMORY_PAGES {
                assert(!(exports@[i as int] matches Some(p) ==> p <= MAX_WASM_MEMORY_PAGES));
                return false;
            }
        }
        i = i + 1;
    }
    true
}

/// The kernel's verdict on a module.
#[derive(PartialEq, Eq, Structural, Debug, Clone, Copy)]
pub enum ModuleVerdict {
    /// Over 1 MiB.
    TooLarge,
    /// Refused by wasmi.
    Malformed,
    /// An exported memory starts with more than 16 pages.
    MemoryTooLarge,
    Accepted,
}

/// The verdict on a module whose compilation gave `exports`.
pub open spec fn verdict_of(len: nat, exports: Option<Seq<Option<u64>>>) -> ModuleVerdict {
    if len > MAX_WASM_BYTES {
        ModuleVerdict::TooLarge
    } else {
        match exports {
            None => ModuleVerdict::Malformed,
            Some(e) => if memories_within_limit(e) {
                ModuleVerdict::Accepted
            } else {
                ModuleVerdict::MemoryTooLarge
            },
        }
    }
}

/// Checks a module before it is instantiated: its size, then whether
/// wasmi compiles it, then the memories it exports. An accepted module
/// comes back compiled from `bytes`, to be instantiated; a refused one
/// comes back as the verdict on it.
pub fn load_module(bytes: &[u8]) -> (r: Result<CompiledModule, ModuleVerdict>)
    ensures
        match r {
            Ok(c) => c.source() == bytes@ && verdict_of(bytes@.len(), wasm_exports(bytes@))
                == ModuleVerdict::Accepted,
            Err(v) => v == verdict_of(bytes@.len(), wasm_exports(bytes@)) && v
                != ModuleVerdict::Accepted,
        },
{
    if bytes.len() > MAX_WASM_BYTES {
        return Err(ModuleVerdict::TooLarge);
    }
    match compile_module(bytes) {
        None => Err(ModuleVerdict::Malformed),
        Some((module, e)) => if memory_within_limit(e.as_slice()) {
            Ok(module)
        } else {
            Err(ModuleVerdict::MemoryTooLarge)
        },
    }
}

/// The verdict on a module: its size, then whether wasmi compiles it, then
/// the memories it exports.
pub fn check_module(bytes: &[u8]) -> (v: ModuleVerdict)
    ensures
        v == verdict_of(bytes@.len(), wasm_exports(bytes@)),
        bytes@.len() > MAX_WASM_BYTES ==> v == ModuleVerdict::TooLarge,
{
    match load_module(bytes) {
        Ok(_) => ModuleVerdict::Accepted,
        Err(v) => v,
    }
}

// ─── Requests and responses ─────────────────────────────────────────

pub open spec fn clamp(len: nat, max: nat) -> nat {
    if len <= max {
        len
    } else {
        max
    }
}

fn clamp_len(len: usize, max: usize) -> (r: usize)
    ensures
        r == clamp(len as nat, max as nat),
{
    if len <= max {
        len
    } else {
        max
    }
}

/// The arguments of `handle_request` for a request whose parts have these
/// lengths: each part's offset and its length cut to its room.
pub fn request_args(method_len: usize, path_len: usize, body_len: usize) -> (r: (
    i32,
    i32,
    i32,
    i32,
    i32,
    i32,
))
    ensures
        r.0 == METHOD_OFF,
        r.1 == clamp(method_len as nat, METHOD_MAX as nat),
        r.2 == PATH_OFF,
        r.3 == clamp(path_len as nat, PATH_MAX as nat),
        r.4 == BODY_OFF,
        r.5 == clamp(body_len as nat, BODY_MAX as nat),
{
    let ml = clamp_len(method_len, METHOD_MAX);
    let pl = clamp_len(path_len, PATH_MAX);
    let bl = clamp_len(body_len, BODY_MAX);
    (65536i32, ml as i32, 65792i32, pl as i32, 66816i32, bl as i32)
}

/// The application's memory after a request is written into it.
pub open spec fn with_request(mem: Seq<u8>, method: Seq<u8>, path: Seq<u8>, body: Seq<u8>) -> Seq<u8> {
    let m = method.take(clamp(method.len(), METHOD_MAX as nat) as int);
    let p = path.take(clamp(path.len(), PATH_MAX as nat) as int);
    let b = body.take(clamp(body.len(), BODY_MAX as nat) as int);
    splice(splice(splice(mem, METHOD_OFF as int, m), PATH_OFF as int, p), BODY_OFF as int, b)
}

/// Writes a request into the application's memory, each part cut to its
/// room.
pub fn write_request(mem: &mut [u8], method: &[u8], path: &[u8], body: &[u8])
    requires
        BODY_OFF + clamp(body@.len(), BODY_MAX as nat) <= old(mem)@.len(),
    ensures
        final(mem)@ == with_request(old(mem)@, method@, path@, body@),
{
    let ml = clamp_len(method.len(), METHOD_MAX);
    let pl = clamp_len(path.len(), PATH_MAX);
    let bl = clamp_len(body.len(), BODY_MAX);
    let m = slice_subrange(method, 0, ml);
    let p = slice_subrange(path, 0, pl);
    let b = slice_subrange(body, 0, bl);
    assert(m@ =~= method@.take(ml as int));
    assert(p@ =~= path@.take(pl as int));
    assert(b@ =~= body@.take(bl as int));
    copy_into(mem, METHOD_OFF, m);
    copy_into(mem, PATH_OFF, p);
    copy_into(mem, BODY_OFF, b);
}

/// What the application reads back at the request's offsets is what was
/// written, each part cut to its room, and the rest of memory is as it
/// was.
pub proof fn lemma_request_readback(mem: Seq<u8>, method: Seq<u8>, path: Seq<u8>, body: Seq<u8>)
    requires
        BODY_OFF + clamp(body.len(), BODY_MAX as nat) <= mem.len(),
    ensures
        ({
            let m = with_request(mem, method, path, body);
            let ml = clamp(method.len(), METHOD_MAX as nat) as int;
            let pl = clamp(path.len(), PATH_MAX as nat) as int;
            let bl = clamp(body.len(), BODY_MAX as nat) as int;
            &&& m.len() == mem.len()
            &&& m.subrange(METHOD_OFF as int, METHOD_OFF + ml) == method.take(ml)
            &&& m.subrange(PATH_OFF as int, PATH_OFF + pl) == path.take(pl)
            &&& m.subrange(BODY_OFF as int, BODY_OFF + bl) == body.take(bl)
            &&& forall|k: int|
                0 <= k < mem.len() && !(METHOD_OFF <= k < METHOD_OFF + ml) && !(PATH_OFF <= k
                    < PATH_OFF + pl) && !(BODY_OFF <= k < BODY_OFF + bl) ==> #[trigger] m[k]
                    == mem[k]
        }),
{
    let m = with_request(mem, method, path, body);
    let ml = clamp(method.len(), METHOD_MAX as nat) as int;
    let pl = clamp(path.len(), PATH_MAX as nat) as int;
    let bl = clamp(body.len(), BODY_MAX as nat) as int;
    assert(m.subrange(METHOD_OFF as int, METHOD_OFF + ml) =~= method.take(ml));
    assert(m.subrange(PATH_OFF as int, PATH_OFF + pl) =~= path.take(pl));
    assert(m.subrange(BODY_OFF as int, BODY_OFF + bl) =~= body.take(bl));
}

/// The address that an `i32` pointer or length reads as.
pub open spec fn addr(v: i32) -> int {
    if v >= 0 {
        v as int
    } else {
        v + ADDR_SPACE
    }
}

/// `addr(v)` as a `u64`.
fn addr_of(v: i32) -> (r: u64)
    ensures
        r == addr(v),
{
    if v >= 0 {
        v as u64
    } else {
        let neg: u64 = (-(v as i64)) as u64;
        u64::MAX - neg + 1
    }
}

/// The response that `handle_request` announced with a positive length
/// `resp_len` at `resp_ptr`: the bytes there, or `None` where they run
/// past the end of memory.
pub open spec fn response_at(mem: Seq<u8>, resp_ptr: i32, resp_len: i32) -> Option<Seq<u8>> {
    let start = addr(resp_ptr);
    if start + resp_len <= mem.len() {
        Some(mem.subrange(start, start + resp_len))
    } else {
        None
    }
}

/// Copies the response out of the application's memory.
pub fn response_bytes(mem: &[u8], resp_ptr: i32, resp_len: i32) -> (r: Option<Vec<u8>>)
    requires
        resp_len > 0,
        addr(resp_ptr) + resp_len < ADDR_SPACE,
    ensures
        match r {
            Some(v) => response_at(mem@, resp_ptr, resp_len) == Some(v@),
            None => response_at(mem@, resp_ptr, resp_len) is None,
        },
{
    let start: u64 = addr_of(resp_ptr);
    let end: u64 = start + resp_len as u64;
    if end > mem.len() as u64 {
        return None;
    }
    let s = slice_subrange(mem, start as usize, end as usize);
    let mut out: Vec<u8> = Vec::new();
    append_bytes(&mut out, s);
    assert(out@ =~= mem@.subrange(start as int, end as int));
    Some(out)
}

// ─── Host functions ─────────────────────────────────────────────────

/// Whether reading `len` bytes at `ptr` out of a memory of `n` bytes, cut
/// at its end, stays defined: the end does not wrap and the start lies in
/// the memory.
pub open spec fn readable(n: nat, ptr: i32, len: i32) -> bool {
    &&& addr(ptr) + addr(len) < ADDR_SPACE
    &&& addr(ptr) <= n
}

/// The bytes that a host function reads for `(ptr, len)`: from `ptr` to
/// `ptr + len`, cut at the end of memory.
pub open spec fn read_range(mem: Seq<u8>, ptr: i32, len: i32) -> Seq<u8> {
    let end = addr(ptr) + addr(len);
    mem.subrange(addr(ptr), if end <= mem.len() { end } else { mem.len() as int })
}

/// The bytes at `(ptr, len)` in the application's memory, cut at its end.
pub fn memory_slice(mem: &[u8], ptr: i32, len: i32) -> (r: &[u8])
    requires
        readable(mem@.len(), ptr, len),
    ensures
        r@ == read_range(mem@, ptr, len),
{
    let n = mem.len();
    let start: u64 = addr_of(ptr);
    let l: u64 = addr_of(len);
    let end: u64 = if start + l <= n as u64 {
        start + l
    } else {
        n as u64
    };
    slice_subrange(mem, start as usize, end as usize)
}

/// The text at `(ptr, len)` in the application's memory, cut at its end;
/// `None` where it is not UTF-8.
pub fn memory_str(mem: &[u8], ptr: i32, len: i32) -> (r: Option<&str>)
    requires
        readable(mem@.len(), ptr, len),
    ensures
        r is Some <==> valid_utf8(read_range(mem@, ptr, len)),
        r matches Some(s) ==> s.spec_bytes() == read_range(mem@, ptr, len),
{
    utf8_str(memory_slice(mem, ptr, len))
}

/// How many of `len` result bytes a host function copies when the
/// application offers room for `out_max`.
pub open spec fn copy_len(len: nat, out_max: i32) -> int {
    if len <= addr(out_max) {
        len as int
    } else {
        addr(out_max)
    }
}

/// Whether copying `len` result bytes to `out_ptr` stays defined: the end
/// of the copy does not wrap.
pub open spec fn copyable(len: nat, out_ptr: i32, out_max: i32) -> bool {
    addr(out_ptr) + copy_len(len, out_max) < ADDR_SPACE
}

/// Whether the copy fits in the memory.
pub open spec fn copy_fits(n: nat, len: nat, out_ptr: i32, out_max: i32) -> bool {
    addr(out_ptr) + copy_len(len, out_max) <= n
}

/// Copies a host function's result `data` into the application's memory
/// at `out_ptr`, at most `out_max` bytes of it. Returns the number of
/// bytes copied (as an `i32`), or -1, with memory untouched, where they do
/// not fit.
pub fn copy_to_memory(mem: &mut [u8], data: &[u8], out_ptr: i32, out_max: i32) -> (r: i32)
    requires
        copyable(data@.len(), out_ptr, out_max),
    ensures
        copy_fits(old(mem)@.len(), data@.len(), out_ptr, out_max) ==> {
            &&& final(mem)@ == splice(
                old(mem)@,
                addr(out_ptr),
                data@.take(copy_len(data@.len(), out_max)),
            )
            &&& r == copy_len(data@.len(), out_max) as i32
        },
        !copy_fits(old(mem)@.len(), data@.len(), out_ptr, out_max) ==> {
            &&& final(mem)@ == old(mem)@
            &&& r == -1
        },
{
    let n = mem.len();
    let max: u64 = addr_of(out_max);
    let len: u64 = if (data.len() as u64) <= max {
        data.len() as u64
    } else {
        max
    };
    let start: u64 = addr_of(out_ptr);
    if start + len > n as u64 {
        return -1;
    }
    let part = slice_subrange(data, 0, len as usize);
    assert(part@ =~= data@.take(len as int));
    copy_into(mem, start as usize, part);
    len as i32
}

/// `host.get_feed(out_ptr, out_max)`: copies the latest feed into the
/// application's memory. Returns 0 when there is no feed, -1 when the
/// module exports no memory (`exported` is false) or the feed does not
/// fit, else the number of bytes copied.
pub fn get_feed(state: &HostState, mem: &mut [u8], exported: bool, out_ptr: i32, out_max: i32) -> (r: i32)
    requires
        state.feed_cache@.len() > 0 && exported ==> copyable(state.feed_cache@.len(), out_ptr, out_max),
    ensures
        state.feed_cache@.len() == 0 ==> r == 0 && final(mem)@ == old(mem)@,
        state.feed_cache@.len() > 0 && !exported ==> r == -1 && final(mem)@ == old(mem)@,
        state.feed_cache@.len() > 0 && exported ==> {
            let feed = state.feed_cache@;
            if copy_fits(old(mem)@.len(), feed.len(), out_ptr, out_max) {
                &&& final(mem)@ == splice(
                    old(mem)@,
                    addr(out_ptr),
                    feed.take(copy_len(feed.len(), out_max)),
                )
                &&& r == copy_len(feed.len(), out_max) as i32
            } else {
                final(mem)@ == old(mem)@ && r == -1
            }
        },
{
    if state.feed_cache.len() == 0 {
        return 0;
    }
    if !exported {
        return -1;
    }
    copy_to_memory(mem, state.feed_cache.as_slice(), out_ptr, out_max)
}

/// Whether a host function may read `(ptr, len)` out of a memory of `n`
/// bytes: see `readable`.
pub fn read_defined(n: usize, ptr: i32, len: i32) -> (r: bool)
    ensures
        r == readable(n as nat, ptr, len),
{
    let p: u64 = addr_of(ptr);
    let l: u64 = addr_of(len);
    l <= u64::MAX - p && p <= n as u64
}

/// Whether a host function may copy `len` result bytes to `out_ptr`:
/// see `copyable`.
pub fn copy_defined(len: usize, out_ptr: i32, out_max: i32) -> (r: bool)
    ensures
        r == copyable(len as nat, out_ptr, out_max),
{
    let p: u64 = addr_of(out_ptr);
    let max: u64 = addr_of(out_max);
    let c: u64 = if (len as u64) <= max {
        len as u64
    } else {
        max
    };
    c <= u64::MAX - p
}

/// Whether a response announced at `(resp_ptr, resp_len)` may be copied
/// out: see `response_bytes`.
pub fn response_defined(resp_ptr: i32, resp_len: i32) -> (r: bool)
    ensures
        r == (resp_len > 0 && addr(resp_ptr) + resp_len < ADDR_SPACE),
{
    if resp_len <= 0 {
        return false;
    }
    let p: u64 = addr_of(resp_ptr);
    (resp_len as u64) <= u64::MAX - p
}

} // verus!
