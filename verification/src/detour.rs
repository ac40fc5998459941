//! Hooks in machine code.
//!
//! A hook replaces the first instructions of a function by a jump into a block
//! that is allocated nearby, because the jump reaches no further than two
//! gigabytes. The block holds what the hook does and a trampoline: the
//! instructions that were replaced, and a jump back behind them.
//!
//! A capturing hook counts the calls and keeps the first argument, in slots of the
//! block that lie behind its code. A far hook jumps on to code elsewhere.
use vstd::prelude::*;

use crate::bytes;
use crate::log::Log;
use crate::memory;
use crate::snapshot;
use crate::snapshot::{Need, Snapshot};
use crate::text;

verus! {

/// The size of the block.
pub const ALLOC_SIZE: usize = 0x100;

/// The most bytes that a hook replaces.
pub const MAX_LEN: usize = 16;

/// Where a capturing hook counts the calls.
pub const CAP_COUNT_OFF: usize = 0x18;

/// Where it keeps the first argument.
pub const CAP_SAVED_OFF: usize = 0x20;

/// Where it keeps the address of its trampoline.
pub const CAP_SLOT_OFF: usize = 0x28;

/// Where its trampoline stands.
pub const CAP_TRAMP_OFF: usize = 0x30;

/// Where a far hook keeps the address of the code that it jumps to.
pub const FAR_SLOT_OFF: usize = 0x08;

/// Where its trampoline stands.
pub const FAR_TRAMP_OFF: usize = 0x10;

/// The end of a capturing hook's code.
pub const CAP_CODE_LEN: usize = 0x14;

/// The blocks that were allocated and not freed, oldest first.
pub struct AllocRegistry {
    allocs: Vec<usize>,
}

impl View for AllocRegistry {
    type V = Seq<usize>;

    closed spec fn view(&self) -> Seq<usize> {
        self.allocs@
    }
}

impl AllocRegistry {
    pub fn new() -> (r: AllocRegistry)
        ensures
            r@ == Seq::<usize>::empty(),
    {
        AllocRegistry { allocs: Vec::new() }
    }

    /// Records a block. None is ever removed.
    pub fn record_alloc(&mut self, p: usize)
        ensures
            final(self)@ == old(self)@.push(p),
    {
        self.allocs.push(p);
    }
}

/// All blocks that were not freed.
pub fn near_allocs(registry: &AllocRegistry) -> (r: Vec<usize>)
    ensures
        r@ == registry@,
{
    let mut out: Vec<usize> = Vec::new();
    let mut i: usize = 0;
    while i < registry.allocs.len()
        invariant
            i <= registry.allocs.len(),
            out@ == registry@.take(i as int),
        decreases registry.allocs.len() - i,
    {
        out.push(registry.allocs[i]);
        assert(out@ == registry@.take(i + 1));
        i += 1;
    }
    assert(registry@.take(i as int) == registry@);
    out
}

/// How many blocks were not freed.
pub fn near_alloc_count(registry: &AllocRegistry) -> (r: usize)
    ensures
        r == registry@.len(),
{
    registry.allocs.len()
}

/// The page of an address.
pub open spec fn page_of(target: int) -> int {
    target - target % 0x1000
}

/// Where the block is tried to be allocated, one place after the other: every
/// megabyte up to a gigabyte above the target's page, then below it.
pub open spec fn hint(target: int, k: int) -> Option<int> {
    if 0 <= k < 1023 {
        Some(page_of(target) + (k + 1) * 0x100000)
    } else if 1023 <= k < 2046 && page_of(target) - (k - 1022) * 0x100000 >= 0x10000 {
        Some(page_of(target) - (k - 1022) * 0x100000)
    } else {
        None
    }
}

/// The `k`-th place at which the block is tried to be allocated.
pub fn near_hint(target: usize, k: usize) -> (r: Option<usize>)
    requires
        target + 0x3FF0_0000 <= usize::MAX,
    ensures
        match r {
            Some(h) => hint(target as int, k as int) == Some(h as int),
            None => hint(target as int, k as int) is None,
        },
{
    let page: usize = target - target % 0x1000;
    if k < 1023 {
        Some(page + (k + 1) * 0x100000)
    } else if k < 2046 {
        let h: usize = page.saturating_sub((k - 1022) * 0x100000);
        if h < 0x10000 {
            None
        } else {
            Some(h)
        }
    } else {
        None
    }
}

/// Once a place is too low, so are all that follow.
pub proof fn lemma_hints_end(target: int, k: int, j: int)
    requires
        0 <= k <= j,
        hint(target, k) is None,
    ensures
        hint(target, j) is None,
{
}

/// Whether an address lies in a module.
pub open spec fn in_module(target: usize, base: u64, size: usize) -> bool {
    base <= target && target < base + size
}

/// Whether a target lies in a module.
pub fn validate_target(target: usize, expected_base: u64, expected_size: usize) -> (r: bool)
    requires
        target >= expected_base ==> expected_base + expected_size <= u64::MAX,
    ensures
        r == in_module(target, expected_base, expected_size),
{
    (target as u64) >= expected_base && (target as u64) < expected_base + expected_size as u64
}

/// Lower-case hexadecimal digits.
pub fn hex16(b: &[u8]) -> (r: String)
    ensures
        r@ == bytes::hex_pairs(b@, false),
{
    bytes::hex_pairs_of(b, false)
}

/// A line about a target.
pub open spec fn target_line(what: Seq<char>, target: usize) -> Seq<char> {
    "[detour] "@ + what + " target=0x"@ + text::hex_upper(target as int)
}

fn line_about(what: &str, target: usize) -> (r: String)
    ensures
        r@ == target_line(what@, target),
{
    let mut s = text::cat3("[detour] ", what, " target=0x");
    s.append(text::hex_of(target as u64).as_str());
    s
}

/// Where a target should lie.
pub open spec fn range_text(range: Option<(u64, usize)>) -> Seq<char> {
    match range {
        Some((base, size)) => "range=0x"@ + text::hex_upper(base as int) + "-0x"@ + text::hex_upper(
            base + size,
        ),
        None => "module not loaded"@,
    }
}

/// Whether a target lies in a module that may not be loaded.
pub open spec fn is_within(target: usize, range: Option<(u64, usize)>) -> bool {
    match range {
        Some((base, size)) => in_module(target, base, size),
        None => false,
    }
}

pub open spec fn preflight_line(
    target: usize,
    module: Seq<char>,
    range: Option<(u64, usize)>,
) -> Seq<char> {
    target_line("PREFLIGHT FAIL"@, target) + " module="@ + module + " "@ + range_text(range)
}

/// What a check of a target adds to the log.
pub open spec fn preflight_log(
    target: usize,
    module: Seq<char>,
    range: Option<(u64, usize)>,
) -> Seq<Seq<char>> {
    if is_within(target, range) {
        seq![]
    } else {
        seq![preflight_line(target, module, range)]
    }
}

pub open spec fn range_fits(range: Option<(u64, usize)>) -> bool {
    range matches Some(r) ==> r.0 + r.1 <= u64::MAX
}

/// Checks that a target lies in its module, and says so where it does not; nothing
/// may be installed then.
pub fn preflight(target: usize, module: &str, range: Option<(u64, usize)>, log: &mut Log) -> (r:
    bool)
    requires
        range_fits(range),
    ensures
        r == is_within(target, range),
        final(log)@ == old(log)@ + preflight_log(target, module@, range),
{
    let ok = match range {
        Some((base, size)) => validate_target(target, base, size),
        None => false,
    };
    if ok {
        assert(log@ == old(log)@ + preflight_log(target, module@, range));
        return true;
    }
    let place = match range {
        Some((base, size)) => {
            let mut s = text::cat3("range=0x", text::hex_of(base).as_str(), "-0x");
            s.append(text::hex_of(base + size as u64).as_str());
            s
        },
        None => text::text_of("module not loaded"),
    };
    let mut s = line_about("PREFLIGHT FAIL", target);
    s.append(" module=");
    s.append(module);
    s.append(" ");
    s.append(place.as_str());
    log.say(s);
    assert(log@ == old(log)@ + preflight_log(target, module@, range));
    false
}

/// The value of the first bytes at an address.
pub open spec fn value_at(k: snapshot::Known, addr: int, len: usize) -> Result<int, Need> {
    match snapshot::bytes_at(k, addr as usize, len) {
        Ok(b) => Ok(bytes::le_value(b)),
        Err(n) => Err(n),
    }
}

/// The range of the module at `base`, read from its header: the size that the
/// header gives for the image. Nothing is found where the header is not one of a
/// 32- or 64-bit image.
pub open spec fn image_range(k: snapshot::Known, base: usize) -> Result<
    Option<(u64, usize)>,
    Need,
> {
    match value_at(k, base + 0x3C, 4) {
        Err(n) => Err(n),
        Ok(e) => if e == 0 || e > 0x1000 {
            Ok(None)
        } else {
            match value_at(k, base + e, 4) {
                Err(n) => Err(n),
                Ok(sig) => if sig != 0x4550 {
                    Ok(None)
                } else {
                    match value_at(k, base + e + 0x18, 2) {
                        Err(n) => Err(n),
                        Ok(magic) => if magic != 0x10B && magic != 0x20B {
                            Ok(None)
                        } else {
                            match value_at(k, base + e + 0x18 + 0x38, 4) {
                                Err(n) => Err(n),
                                Ok(size) => if size == 0 {
                                    Ok(None)
                                } else {
                                    Ok(Some((base as u64, size as usize)))
                                },
                            }
                        },
                    }
                },
            }
        },
    }
}

fn value32(snap: &Snapshot, addr: usize) -> (r: Result<u32, Need>)
    ensures
        match r {
            Ok(v) => value_at(snap@, addr as int, 4) == Ok::<int, Need>(v as int),
            Err(n) => value_at(snap@, addr as int, 4) == Err::<int, Need>(n),
        },
{
    match snap.read(addr, 4) {
        Ok(b) => {
            assert(b@.subrange(0, 4) == b@);
            Ok(bytes::u32_at(b.as_slice(), 0))
        },
        Err(n) => Err(n),
    }
}

fn value16(snap: &Snapshot, addr: usize) -> (r: Result<u32, Need>)
    ensures
        match r {
            Ok(v) => value_at(snap@, addr as int, 2) == Ok::<int, Need>(v as int),
            Err(n) => value_at(snap@, addr as int, 2) == Err::<int, Need>(n),
        },
{
    match snap.read(addr, 2) {
        Ok(b) => {
            proof {
                reveal_with_fuel(bytes::le_value, 3);
            }
            Ok(b[0] as u32 + b[1] as u32 * 256)
        },
        Err(n) => Err(n),
    }
}

/// The range of a loaded module: where it begins, and its size.
pub fn module_range(base: Option<usize>, snap: &Snapshot) -> (r: Result<
    Option<(u64, usize)>,
    Need,
>)
    requires
        base matches Some(b) ==> b + 0x2000 <= usize::MAX,
    ensures
        r == (match base {
            Some(b) => image_range(snap@, b),
            None => Ok(None),
        }),
{
    let b: usize = match base {
        Some(b) => b,
        None => {
            return Ok(None);
        },
    };
    let e: u32 = match value32(snap, b + 0x3C) {
        Ok(v) => v,
        Err(n) => {
            return Err(n);
        },
    };
    if e == 0 || e > 0x1000 {
        return Ok(None);
    }
    let pe: usize = b + e as usize;
    match value32(snap, pe) {
        Ok(v) => if v != 0x4550 {
            return Ok(None);
        },
        Err(n) => {
            return Err(n);
        },
    }
    match value16(snap, pe + 0x18) {
        Ok(v) => if v != 0x10B && v != 0x20B {
            return Ok(None);
        },
        Err(n) => {
            return Err(n);
        },
    }
    match value32(snap, pe + 0x18 + 0x38) {
        Ok(v) => if v == 0 {
            Ok(None)
        } else {
            Ok(Some((b as u64, v as usize)))
        },
        Err(n) => Err(n),
    }
}

/// Something to be done to the memory of the process.
pub enum Op {
    /// Allocate a block at an address; the reply is where, or zero.
    Alloc(usize),
    /// Record an allocated block.
    Record(usize),
    /// Read bytes; the reply is what they are.
    Read(usize, usize),
    Write(usize, Vec<u8>),
    /// Flush the instruction cache.
    Flush(usize, usize),
    /// Change the protection; the reply is the protection before, if it succeeded.
    Protect(usize, usize, u32),
    /// Store into the slot in which the far code finds the trampoline.
    Publish(u64),
    Say(String),
}

/// The content of an [`Op`].
pub ghost enum Deed {
    Alloc(usize),
    Record(usize),
    Read(usize, usize),
    Write(usize, Seq<u8>),
    Flush(usize, usize),
    Protect(usize, usize, u32),
    Publish(u64),
    Say(Seq<char>),
}

impl View for Op {
    type V = Deed;

    open spec fn view(&self) -> Deed {
        match self {
            Op::Alloc(h) => Deed::Alloc(*h),
            Op::Record(p) => Deed::Record(*p),
            Op::Read(a, n) => Deed::Read(*a, *n),
            Op::Write(a, b) => Deed::Write(*a, b@),
            Op::Flush(a, n) => Deed::Flush(*a, *n),
            Op::Protect(a, n, p) => Deed::Protect(*a, *n, *p),
            Op::Publish(v) => Deed::Publish(*v),
            Op::Say(s) => Deed::Say(s@),
        }
    }
}

pub open spec fn deeds(v: Seq<Op>) -> Seq<Deed> {
    v.map_values(|o: Op| o@)
}

fn op(ops: &mut Vec<Op>, o: Op)
    ensures
        deeds(final(ops)@) == deeds(old(ops)@).push(o@),
{
    let ghost before = deeds(ops@);
    let ghost d = o@;
    ops.push(o);
    assert(deeds(ops@) == before.push(d));
}

fn no_ops() -> (r: Vec<Op>)
    ensures
        deeds(r@) == Seq::<Deed>::empty(),
{
    let r: Vec<Op> = Vec::new();
    assert(deeds(r@) == Seq::<Deed>::empty());
    r
}

/// The reply to the last thing that was to be done.
pub enum Reply {
    Addr(usize),
    Bytes(Vec<u8>),
    Protect(Option<u32>),
}

/// An installed hook.
pub struct Hook {
    target: usize,
    len: usize,
    near: usize,
    is_capture: bool,
    orig: Vec<u8>,
}

/// The content of a [`Hook`].
pub ghost struct Hooked {
    pub target: usize,
    pub len: usize,
    pub near: usize,
    pub is_capture: bool,
    pub orig: Seq<u8>,
}

impl View for Hook {
    type V = Hooked;

    closed spec fn view(&self) -> Hooked {
        Hooked {
            target: self.target,
            len: self.len,
            near: self.near,
            is_capture: self.is_capture,
            orig: self.orig@,
        }
    }
}

/// Whether this can be a hook: it replaces five to sixteen bytes, and knows them, and
/// it has a block.
pub open spec fn is_hook(h: Hooked) -> bool {
    5 <= h.len <= MAX_LEN && h.orig.len() == h.len && h.target + MAX_LEN <= usize::MAX && 0 < h.near
        && h.near + ALLOC_SIZE <= usize::MAX
}

impl Hook {
    #[verifier::type_invariant]
    spec fn valid(self) -> bool {
        is_hook(self@)
    }

    /// Where the block is.
    pub fn near_addr(&self) -> (r: usize)
        ensures
            r == self@.near,
            r != 0,
    {
        proof {
            use_type_invariant(self);
        }
        self.near
    }

    /// The first argument of the last call, from the bytes of the block.
    pub fn saved(&self, block: &[u8]) -> (r: u64)
        requires
            block@.len() >= CAP_SLOT_OFF,
        ensures
            r == bytes::le_value(block@.subrange(CAP_SAVED_OFF as int, CAP_SAVED_OFF + 8)),
    {
        bytes::u64_at(block, CAP_SAVED_OFF)
    }

    /// How often the function was called, from the bytes of the block. A far hook
    /// does not count.
    pub fn counts(&self, block: &[u8]) -> (r: u64)
        requires
            block@.len() >= CAP_SAVED_OFF,
        ensures
            r == (if self@.is_capture {
                bytes::le_value(block@.subrange(CAP_COUNT_OFF as int, CAP_COUNT_OFF + 8))
            } else {
                0
            }),
    {
        if !self.is_capture {
            return 0;
        }
        bytes::u64_at(block, CAP_COUNT_OFF)
    }
}

/// A jump at `from`, five bytes long, to `to`.
pub open spec fn jump(from: int, to: int) -> Seq<u8> {
    seq![0xE9u8] + bytes::le_bytes(to - (from + 5), 4)
}

/// What a 32-bit displacement stands for.
pub open spec fn signed32(v: int) -> int {
    if v >= 0x8000_0000 {
        v - 0x1_0000_0000
    } else {
        v
    }
}

/// Where a jump at `from` leads.
pub open spec fn jump_target(from: int, b: Seq<u8>) -> int {
    from + 5 + signed32(bytes::le_value(b.subrange(1, 5)))
}

/// Whether a displacement fits into 32 bits.
pub open spec fn reaches(from: int, to: int) -> bool {
    -0x8000_0000 <= to - (from + 5) < 0x8000_0000
}

/// A jump leads where it should, if that is within reach.
pub proof fn lemma_jump_lands(from: int, to: int)
    requires
        reaches(from, to),
    ensures
        jump(from, to).len() == 5,
        jump_target(from, jump(from, to)) == to,
{
    let d = to - (from + 5);
    let v = if d < 0 {
        d + 0x1_0000_0000
    } else {
        d
    };
    lemma_le_bytes_mod(d, -1);
    assert(vstd::arithmetic::power::pow(256, 4) == 0x1_0000_0000) by {
        reveal_with_fuel(vstd::arithmetic::power::pow, 5);
    }
    bytes::lemma_le_round_trip(v, 4);
    assert(bytes::le_bytes(v, 4) == bytes::le_bytes(d, 4));
    assert(jump(from, to).subrange(1, 5) == bytes::le_bytes(d, 4));
}

pub open spec fn nops(n: int) -> Seq<u8> {
    Seq::new(n as nat, |i: int| 0x90u8)
}

/// What a hook writes over its target: a jump to the block, then filling up to
/// whole instructions.
pub open spec fn patch(target: usize, near: usize, len: usize) -> Seq<u8> {
    jump(target as int, near as int) + nops(len - 5)
}

/// The code of a capturing block: count the call, keep the first argument, jump to
/// the trampoline.
pub open spec fn capture_code() -> Seq<u8> {
    seq![
        0x48u8, 0xFF, 0x05, 0x11, 0, 0, 0,
        0x48, 0x89, 0x0D, 0x12, 0, 0, 0,
        0xFF, 0x25, 0x14, 0, 0, 0,
    ]
}

/// The code of a far block: jump where the slot says.
pub open spec fn far_code() -> Seq<u8> {
    seq![0xFFu8, 0x25, 2, 0, 0, 0]
}

pub open spec fn tramp_off(capture: bool) -> usize {
    if capture {
        CAP_TRAMP_OFF
    } else {
        FAR_TRAMP_OFF
    }
}

/// A trampoline at `tramp`: the replaced instructions, and a jump back behind them.
pub open spec fn trampoline(target: usize, tramp: int, orig: Seq<u8>) -> Seq<u8> {
    orig + jump(tramp + orig.len(), target + orig.len())
}

/// What is written into the block.
pub open spec fn block_deeds(
    target: usize,
    near: usize,
    capture: bool,
    stub: u64,
    orig: Seq<u8>,
) -> Seq<Deed> {
    let tramp = (near + tramp_off(capture)) as usize;
    if capture {
        seq![
            Deed::Write(near, capture_code()),
            Deed::Write((near + CAP_COUNT_OFF) as usize, bytes::le_bytes(0, 8)),
            Deed::Write((near + CAP_SLOT_OFF) as usize, bytes::le_bytes(tramp as int, 8)),
            Deed::Write(tramp, trampoline(target, tramp as int, orig)),
        ]
    } else {
        seq![
            Deed::Write(near, far_code()),
            Deed::Write((near + FAR_SLOT_OFF) as usize, bytes::le_bytes(stub as int, 8)),
            Deed::Write(tramp, trampoline(target, tramp as int, orig)),
        ]
    }
}

/// In a capturing block each instruction addresses its slot, the slots lie behind
/// the code and apart, and the longest trampoline fits behind them.
pub proof fn lemma_capture_layout()
    ensures
        capture_code().len() == CAP_CODE_LEN,
        7 + bytes::le_value(capture_code().subrange(3, 7)) == CAP_COUNT_OFF,
        14 + bytes::le_value(capture_code().subrange(10, 14)) == CAP_SAVED_OFF,
        20 + bytes::le_value(capture_code().subrange(16, 20)) == CAP_SLOT_OFF,
        CAP_CODE_LEN <= CAP_COUNT_OFF,
        CAP_COUNT_OFF + 8 <= CAP_SAVED_OFF,
        CAP_SAVED_OFF + 8 <= CAP_SLOT_OFF,
        CAP_SLOT_OFF + 8 <= CAP_TRAMP_OFF,
        CAP_TRAMP_OFF + MAX_LEN + 5 <= ALLOC_SIZE,
{
    reveal_with_fuel(bytes::le_value, 5);
    let c = capture_code();
    assert(c.subrange(3, 7) == seq![0x11u8, 0, 0, 0]);
    assert(c.subrange(10, 14) == seq![0x12u8, 0, 0, 0]);
    assert(c.subrange(16, 20) == seq![0x14u8, 0, 0, 0]);
    lemma_le4(0x11);
    lemma_le4(0x12);
    lemma_le4(0x14);
}

proof fn lemma_le4(b: u8)
    ensures
        bytes::le_value(seq![b, 0u8, 0u8, 0u8]) == b,
{
    reveal_with_fuel(bytes::le_value, 5);
    let s = seq![b, 0u8, 0u8, 0u8];
    assert(s.drop_first() == seq![0u8, 0u8, 0u8]);
    assert(s.drop_first().drop_first() == seq![0u8, 0u8]);
    assert(s.drop_first().drop_first().drop_first() == seq![0u8]);
}

/// In a far block the instruction addresses its slot, which lies behind the code,
/// and the longest trampoline fits behind it.
pub proof fn lemma_far_layout()
    ensures
        6 + bytes::le_value(far_code().subrange(2, 6)) == FAR_SLOT_OFF,
        far_code().len() <= FAR_SLOT_OFF,
        FAR_SLOT_OFF + 8 <= FAR_TRAMP_OFF,
        FAR_TRAMP_OFF + MAX_LEN + 5 <= ALLOC_SIZE,
{
    assert(far_code().subrange(2, 6) == seq![2u8, 0, 0, 0]);
    lemma_le4(2);
}

/// A block that was allocated at a place that was tried, or up to 64 kilobytes
/// below it, is within reach, in both directions.
pub proof fn lemma_hint_in_reach(target: int, k: int, near: int, len: int, off: int)
    requires
        0 <= target,
        hint(target, k) matches Some(h) && h - 0x10000 < near <= h,
        5 <= len <= MAX_LEN,
        0 <= off <= CAP_TRAMP_OFF,
    ensures
        reaches(target, near),
        reaches(near + off + len, target + len),
{
}

/// How far an installation has come: what was asked last.
#[derive(Clone, Copy, PartialEq, Eq, Debug, Structural)]
pub enum Phase {
    /// A block was asked for.
    Probing,
    /// The bytes at the target were asked for.
    Reading,
    /// The target was asked to be made writable.
    Unprotecting,
    /// The target was patched, and its protection asked to be put back.
    Reprotecting,
    /// The patched bytes were asked for.
    Checking,
    /// They were wrong, and the target was asked to be made writable again.
    RollingBack,
    /// The replaced bytes were put back, and the protection asked to be.
    RollbackReprotecting,
}

/// An installation under way.
pub struct Install {
    target: usize,
    len: usize,
    capture: bool,
    stub: u64,
    has_slot: bool,
    phase: Phase,
    k: usize,
    near: usize,
    orig: Vec<u8>,
}

/// The content of an [`Install`].
pub ghost struct Installing {
    pub target: usize,
    pub len: usize,
    pub capture: bool,
    pub stub: u64,
    pub has_slot: bool,
    pub phase: Phase,
    pub k: usize,
    pub near: usize,
    pub orig: Seq<u8>,
}

impl View for Install {
    type V = Installing;

    closed spec fn view(&self) -> Installing {
        Installing {
            target: self.target,
            len: self.len,
            capture: self.capture,
            stub: self.stub,
            has_slot: self.has_slot,
            phase: self.phase,
            k: self.k,
            near: self.near,
            orig: self.orig@,
        }
    }
}

/// Whether the bytes at the target are known.
pub open spec fn has_read(p: Phase) -> bool {
    p != Phase::Probing && p != Phase::Reading
}

pub open spec fn is_installing(i: Installing) -> bool {
    &&& 5 <= i.len <= MAX_LEN
    &&& i.target + 0x3FF0_0000 <= usize::MAX
    &&& i.k < 2046
    &&& i.near + ALLOC_SIZE <= usize::MAX
    &&& i.phase != Phase::Probing ==> i.near != 0
    &&& has_read(i.phase) ==> i.orig.len() == i.len
}

/// Whether this is a reply to what was asked last.
pub open spec fn fits(i: Installing, r: Reply) -> bool {
    match i.phase {
        Phase::Probing => r matches Reply::Addr(p) && p + ALLOC_SIZE <= usize::MAX,
        Phase::Reading => r matches Reply::Bytes(b) && b@.len() == i.len,
        Phase::Checking => r matches Reply::Bytes(b) && b@.len() == i.len,
        _ => r is Protect,
    }
}

/// How an installation goes on.
pub ghost enum Then {
    More(Installing),
    Done(Option<Hooked>),
}

/// How an installation goes on.
pub enum Next {
    /// It wants a reply to the last thing to be done.
    More(Install),
    Done(Option<Hook>),
}

impl View for Next {
    type V = Then;

    open spec fn view(&self) -> Then {
        match self {
            Next::More(i) => Then::More(i@),
            Next::Done(Some(h)) => Then::Done(Some(h@)),
            Next::Done(None) => Then::Done(None),
        }
    }
}

/// Whether the caller keeps a slot for the trampoline.
pub open spec fn publishes(i: Installing) -> bool {
    !i.capture && i.has_slot
}

pub open spec fn publish(i: Installing, v: int) -> Seq<Deed> {
    if publishes(i) {
        seq![Deed::Publish(v as u64)]
    } else {
        seq![]
    }
}

pub open spec fn tramp_of(i: Installing) -> int {
    i.near + tramp_off(i.capture)
}

pub open spec fn patch_of(i: Installing) -> Seq<u8> {
    patch(i.target, i.near, i.len)
}

pub open spec fn hook_of(i: Installing) -> Hooked {
    Hooked { target: i.target, len: i.len, near: i.near, is_capture: i.capture, orig: i.orig }
}

pub open spec fn installed_line(i: Installing) -> Seq<char> {
    target_line("installed"@, i.target) + " len="@ + text::dec(i.len as int) + " near=0x"@
        + text::hex_upper(i.near as int) + " orig="@ + bytes::hex_pairs(i.orig, false) + " patch="@
        + bytes::hex_pairs(patch_of(i), false) + " tramp=0x"@ + text::hex_upper(tramp_of(i))
}

/// What was wanted and what was found instead.
pub open spec fn want_got(want: Seq<u8>, got: Seq<u8>) -> Seq<char> {
    " want="@ + bytes::hex_pairs(want, false) + " got="@ + bytes::hex_pairs(got, false)
}

pub open spec fn say_if(cond: bool, line: Seq<char>) -> Seq<Deed> {
    if cond {
        seq![Deed::Say(line)]
    } else {
        seq![]
    }
}

/// What is done on a reply, and how the installation goes on.
pub open spec fn install_turn(i: Installing, r: Reply) -> (Seq<Deed>, Then) {
    match i.phase {
        Phase::Probing => {
            let p = r->Addr_0;
            if p != 0 {
                (
                    seq![Deed::Record(p), Deed::Read(i.target, i.len)],
                    Then::More(Installing { phase: Phase::Reading, near: p, ..i }),
                )
            } else {
                match hint(i.target as int, i.k + 1) {
                    Some(h) => (
                        seq![Deed::Alloc(h as usize)],
                        Then::More(Installing { k: (i.k + 1) as usize, ..i }),
                    ),
                    None => (seq![], Then::Done(None)),
                }
            }
        },
        Phase::Reading => {
            let n = Installing { phase: Phase::Unprotecting, orig: r->Bytes_0@, ..i };
            (
                block_deeds(n.target, n.near, n.capture, n.stub, n.orig) + seq![
                    Deed::Flush(n.near, ALLOC_SIZE),
                ] + publish(n, tramp_of(n)) + seq![
                    Deed::Protect(n.target, n.len, memory::PAGE_EXECUTE_READWRITE),
                ],
                Then::More(n),
            )
        },
        Phase::Unprotecting => match r->Protect_0 {
            Some(old) => (
                seq![Deed::Write(i.target, patch_of(i)), Deed::Protect(i.target, i.len, old)],
                Then::More(Installing { phase: Phase::Reprotecting, ..i }),
            ),
            None => (
                publish(i, 0) + seq![
                    Deed::Say(target_line("VirtualProtect RWX FAILED"@, i.target)),
                ],
                Then::Done(None),
            ),
        },
        Phase::Reprotecting => (
            say_if(
                r->Protect_0 is None,
                target_line("VirtualProtect RESTORE FAILED"@, i.target),
            ) + seq![Deed::Flush(i.target, i.len), Deed::Read(i.target, i.len)],
            Then::More(Installing { phase: Phase::Checking, ..i }),
        ),
        Phase::Checking => if r->Bytes_0@ == patch_of(i) {
            (seq![Deed::Say(installed_line(i))], Then::Done(Some(hook_of(i))))
        } else {
            (
                seq![
                    Deed::Say(
                        target_line("PATCH VERIFY FAILED"@, i.target) + want_got(
                            patch_of(i),
                            r->Bytes_0@,
                        ),
                    ),
                    Deed::Protect(i.target, i.len, memory::PAGE_EXECUTE_READWRITE),
                ],
                Then::More(Installing { phase: Phase::RollingBack, ..i }),
            )
        },
        Phase::RollingBack => match r->Protect_0 {
            Some(old) => (
                seq![Deed::Write(i.target, i.orig), Deed::Protect(i.target, i.len, old)],
                Then::More(Installing { phase: Phase::RollbackReprotecting, ..i }),
            ),
            None => (
                seq![Deed::Say(target_line("ROLLBACK VirtualProtect FAILED"@, i.target))] + publish(
                    i,
                    0,
                ),
                Then::Done(None),
            ),
        },
        Phase::RollbackReprotecting => (
            say_if(
                r->Protect_0 is None,
                target_line("ROLLBACK PROTECT RESTORE FAILED"@, i.target),
            ) + seq![Deed::Flush(i.target, i.len)] + publish(i, 0),
            Then::Done(None),
        ),
    }
}

/// What is done first.
pub open spec fn install_start(
    target: usize,
    len: usize,
    capture: bool,
    stub: u64,
    has_slot: bool,
) -> (Seq<Deed>, Then) {
    if 5 <= len <= MAX_LEN {
        (
            seq![Deed::Alloc(hint(target as int, 0)->0 as usize)],
            Then::More(
                Installing {
                    target,
                    len,
                    capture,
                    stub,
                    has_slot,
                    phase: Phase::Probing,
                    k: 0,
                    near: 0,
                    orig: seq![],
                },
            ),
        )
    } else {
        (seq![], Then::Done(None))
    }
}

/// The four bytes of the displacement from behind a jump at `from` to `to`.
fn jump_bytes(from: usize, to: usize) -> (r: Vec<u8>)
    requires
        from + 5 <= usize::MAX,
    ensures
        r@ == jump(from as int, to as int),
{
    let d: u64 = (to as u64).wrapping_sub(from as u64 + 5);
    let low: u32 = (d % 0x1_0000_0000) as u32;
    let mut v: Vec<u8> = Vec::new();
    v.push(0xE9);
    let mut rel = bytes::u32_bytes(low);
    v.append(&mut rel);
    proof {
        let x = to - (from + 5);
        lemma_le_bytes_mod(x, x / 0x1_0000_0000);
        if x < 0 {
            assert(d == x + 0x1_0000_0000_0000_0000);
            assert(d as int % 0x1_0000_0000 == x % 0x1_0000_0000);
        }
        assert(low as int == x - 0x1_0000_0000 * (x / 0x1_0000_0000));
        assert(v@ == jump(from as int, to as int));
    }
    v
}

proof fn lemma_le_bytes_4(v: int)
    ensures
        bytes::le_bytes(v, 4) == seq![
            (v % 256) as u8,
            (v / 256 % 256) as u8,
            (v / 256 / 256 % 256) as u8,
            (v / 256 / 256 / 256 % 256) as u8,
        ],
{
    reveal_with_fuel(bytes::le_bytes, 5);
}

/// Four bytes hold a number modulo 2^32.
proof fn lemma_le_bytes_mod(v: int, m: int)
    ensures
        bytes::le_bytes(v - 0x1_0000_0000 * m, 4) == bytes::le_bytes(v, 4),
{
    let w = v - 0x1_0000_0000 * m;
    lemma_le_bytes_4(v);
    lemma_le_bytes_4(w);
    let v1 = v / 256;
    let w1 = w / 256;
    assert(w1 == v1 - 0x100_0000 * m);
    let v2 = v1 / 256;
    let w2 = w1 / 256;
    assert(w2 == v2 - 0x1_0000 * m);
    let v3 = v2 / 256;
    let w3 = w2 / 256;
    assert(w3 == v3 - 0x100 * m);
    assert(w % 256 == v % 256 && w1 % 256 == v1 % 256 && w2 % 256 == v2 % 256 && w3 % 256 == v3
        % 256);
}

fn patch_bytes(target: usize, near: usize, len: usize) -> (r: Vec<u8>)
    requires
        5 <= len <= MAX_LEN,
        target + 5 <= usize::MAX,
    ensures
        r@ == patch(target, near, len),
{
    let mut v = jump_bytes(target, near);
    let ghost j = v@;
    let mut n: usize = 5;
    while n < len
        invariant
            5 <= n <= len,
            v@ == j + nops(n - 5),
        decreases len - n,
    {
        v.push(0x90);
        n += 1;
        assert(v@ == j + nops(n - 5));
    }
    v
}

fn trampoline_bytes(target: usize, tramp: usize, orig: &Vec<u8>) -> (r: Vec<u8>)
    requires
        orig@.len() <= MAX_LEN,
        tramp + MAX_LEN + 5 <= usize::MAX,
        target + MAX_LEN <= usize::MAX,
    ensures
        r@ == trampoline(target, tramp as int, orig@),
{
    let mut v = bytes::copy_of(orig.as_slice());
    let mut j = jump_bytes(tramp + orig.len(), target + orig.len());
    v.append(&mut j);
    v
}

fn capture_bytes() -> (r: Vec<u8>)
    ensures
        r@ == capture_code(),
{
    let v: Vec<u8> = vec![
        0x48, 0xFF, 0x05, 0x11, 0, 0, 0,
        0x48, 0x89, 0x0D, 0x12, 0, 0, 0,
        0xFF, 0x25, 0x14, 0, 0, 0,
    ];
    assert(v@ == capture_code());
    v
}

fn far_bytes() -> (r: Vec<u8>)
    ensures
        r@ == far_code(),
{
    let v: Vec<u8> = vec![0xFF, 0x25, 2, 0, 0, 0];
    assert(v@ == far_code());
    v
}

fn want_got_text(want: &[u8], got: &[u8]) -> (r: String)
    ensures
        r@ == want_got(want@, got@),
{
    let mut s = text::cat3(" want=", hex16(want).as_str(), " got=");
    s.append(hex16(got).as_str());
    s
}

impl Install {
    #[verifier::type_invariant]
    spec fn valid(self) -> bool {
        is_installing(self@)
    }

    fn write_block(&self, ops: &mut Vec<Op>)
        requires
            has_read(self@.phase),
        ensures
            deeds(final(ops)@) == deeds(old(ops)@) + block_deeds(
                self@.target,
                self@.near,
                self@.capture,
                self@.stub,
                self@.orig,
            ),
    {
        proof {
            use_type_invariant(self);
        }
        let ghost before = deeds(ops@);
        if self.capture {
            let tramp: usize = self.near + CAP_TRAMP_OFF;
            op(ops, Op::Write(self.near, capture_bytes()));
            op(ops, Op::Write(self.near + CAP_COUNT_OFF, bytes::u64_bytes(0)));
            op(ops, Op::Write(self.near + CAP_SLOT_OFF, bytes::u64_bytes(tramp as u64)));
            op(ops, Op::Write(tramp, trampoline_bytes(self.target, tramp, &self.orig)));
        } else {
            let tramp: usize = self.near + FAR_TRAMP_OFF;
            op(ops, Op::Write(self.near, far_bytes()));
            op(ops, Op::Write(self.near + FAR_SLOT_OFF, bytes::u64_bytes(self.stub)));
            op(ops, Op::Write(tramp, trampoline_bytes(self.target, tramp, &self.orig)));
        }
        assert(deeds(ops@) == before + block_deeds(
            self@.target,
            self@.near,
            self@.capture,
            self@.stub,
            self@.orig,
        ));
    }

    fn publish(&self, ops: &mut Vec<Op>, v: u64)
        ensures
            deeds(final(ops)@) == deeds(old(ops)@) + publish(self@, v as int),
    {
        if !self.capture && self.has_slot {
            op(ops, Op::Publish(v));
        }
        assert(deeds(ops@) == deeds(old(ops)@) + publish(self@, v as int));
    }

    fn say_installed(&self, ops: &mut Vec<Op>)
        requires
            has_read(self@.phase),
        ensures
            deeds(final(ops)@) == deeds(old(ops)@).push(Deed::Say(installed_line(self@))),
    {
        proof {
            use_type_invariant(self);
        }
        let patch = patch_bytes(self.target, self.near, self.len);
        let off: usize = if self.capture {
            CAP_TRAMP_OFF
        } else {
            FAR_TRAMP_OFF
        };
        let mut s = line_about("installed", self.target);
        s.append(" len=");
        s.append(text::dec_of(self.len as u64).as_str());
        s.append(" near=0x");
        s.append(text::hex_of(self.near as u64).as_str());
        s.append(" orig=");
        s.append(hex16(self.orig.as_slice()).as_str());
        s.append(" patch=");
        s.append(hex16(patch.as_slice()).as_str());
        s.append(" tramp=0x");
        s.append(text::hex_of((self.near + off) as u64).as_str());
        op(ops, Op::Say(s));
    }
}

/// Begins an installation.
pub fn install_common(
    target: usize,
    len: usize,
    capture: bool,
    far_stub: u64,
    has_slot: bool,
) -> (r: (Vec<Op>, Next))
    requires
        target + 0x3FF0_0000 <= usize::MAX,
    ensures
        (deeds(r.0@), r.1@) == install_start(target, len, capture, far_stub, has_slot),
{
    let mut ops = no_ops();
    if !(5 <= len && len <= MAX_LEN) {
        return (ops, Next::Done(None));
    }
    match near_hint(target, 0) {
        Some(h) => {
            op(&mut ops, Op::Alloc(h));
        },
        None => {},
    }
    assert(deeds(ops@) == seq![Deed::Alloc(hint(target as int, 0)->0 as usize)]);
    let i = Install {
        target,
        len,
        capture,
        stub: far_stub,
        has_slot,
        phase: Phase::Probing,
        k: 0,
        near: 0,
        orig: Vec::new(),
    };
    (ops, Next::More(i))
}

/// Begins to install a hook that captures the first argument.
pub fn install_capture(target: usize, len: usize) -> (r: (Vec<Op>, Next))
    requires
        target + 0x3FF0_0000 <= usize::MAX,
    ensures
        (deeds(r.0@), r.1@) == install_start(target, len, true, 0, false),
{
    install_common(target, len, true, 0, false)
}

/// Begins to install a hook that jumps to code elsewhere. Where that code finds the
/// trampoline in a slot, the slot is filled before the target is patched, and
/// cleared if that fails.
pub fn install_far(target: usize, len: usize, far_stub: u64, has_slot: bool) -> (r: (
    Vec<Op>,
    Next,
))
    requires
        target + 0x3FF0_0000 <= usize::MAX,
    ensures
        (deeds(r.0@), r.1@) == install_start(target, len, false, far_stub, has_slot),
{
    install_common(target, len, false, far_stub, has_slot)
}

impl Install {
    /// Takes the reply to what was asked last.
    pub fn step(self, reply: Reply) -> (r: (Vec<Op>, Next))
        requires
            fits(self@, reply),
        ensures
            (deeds(r.0@), r.1@) == install_turn(self@, reply),
    {
        proof {
            use_type_invariant(&self);
        }
        let ghost i = self@;
        let mut ops = no_ops();
        let next = match self.phase {
            Phase::Probing => self.probed(reply, &mut ops),
            Phase::Reading => self.read(reply, &mut ops),
            Phase::Unprotecting => self.unprotected(reply, &mut ops),
            Phase::Reprotecting => {
                match reply {
                    Reply::Protect(None) => {
                        op(
                            &mut ops,
                            Op::Say(line_about("VirtualProtect RESTORE FAILED", self.target)),
                        );
                    },
                    _ => {},
                }
                op(&mut ops, Op::Flush(self.target, self.len));
                op(&mut ops, Op::Read(self.target, self.len));
                Next::More(Install { phase: Phase::Checking, ..self })
            },
            Phase::Checking => self.checked(reply, &mut ops),
            Phase::RollingBack => self.rolled_back(reply, &mut ops),
            Phase::RollbackReprotecting => {
                match reply {
                    Reply::Protect(None) => {
                        op(
                            &mut ops,
                            Op::Say(line_about("ROLLBACK PROTECT RESTORE FAILED", self.target)),
                        );
                    },
                    _ => {},
                }
                op(&mut ops, Op::Flush(self.target, self.len));
                self.publish(&mut ops, 0);
                Next::Done(None)
            },
        };
        assert(deeds(ops@) == install_turn(i, reply).0);
        (ops, next)
    }

    fn probed(self, reply: Reply, ops: &mut Vec<Op>) -> (r: Next)
        requires
            self@.phase == Phase::Probing,
            fits(self@, reply),
            deeds(old(ops)@) == Seq::<Deed>::empty(),
        ensures
            deeds(final(ops)@) =~= install_turn(self@, reply).0,
            r@ == install_turn(self@, reply).1,
    {
        proof {
            use_type_invariant(&self);
        }
        let p: usize = match reply {
            Reply::Addr(p) => p,
            _ => 0,
        };
        if p != 0 {
            op(ops, Op::Record(p));
            op(ops, Op::Read(self.target, self.len));
            return Next::More(Install { phase: Phase::Reading, near: p, ..self });
        }
        match near_hint(self.target, self.k + 1) {
            Some(h) => {
                op(ops, Op::Alloc(h));
                Next::More(Install { k: self.k + 1, ..self })
            },
            None => Next::Done(None),
        }
    }

    fn read(self, reply: Reply, ops: &mut Vec<Op>) -> (r: Next)
        requires
            self@.phase == Phase::Reading,
            fits(self@, reply),
            deeds(old(ops)@) == Seq::<Deed>::empty(),
        ensures
            deeds(final(ops)@) =~= install_turn(self@, reply).0,
            r@ == install_turn(self@, reply).1,
    {
        proof {
            use_type_invariant(&self);
        }
        let orig = match reply {
            Reply::Bytes(b) => b,
            _ => Vec::new(),
        };
        let off: usize = if self.capture {
            CAP_TRAMP_OFF
        } else {
            FAR_TRAMP_OFF
        };
        let n = Install { phase: Phase::Unprotecting, orig, ..self };
        n.write_block(ops);
        op(ops, Op::Flush(n.near, ALLOC_SIZE));
        n.publish(ops, (n.near + off) as u64);
        op(ops, Op::Protect(n.target, n.len, memory::PAGE_EXECUTE_READWRITE));
        Next::More(n)
    }

    fn unprotected(self, reply: Reply, ops: &mut Vec<Op>) -> (r: Next)
        requires
            self@.phase == Phase::Unprotecting,
            fits(self@, reply),
            deeds(old(ops)@) == Seq::<Deed>::empty(),
        ensures
            deeds(final(ops)@) =~= install_turn(self@, reply).0,
            r@ == install_turn(self@, reply).1,
    {
        proof {
            use_type_invariant(&self);
        }
        match reply {
            Reply::Protect(Some(old_protect)) => {
                op(ops, Op::Write(self.target, patch_bytes(self.target, self.near, self.len)));
                op(ops, Op::Protect(self.target, self.len, old_protect));
                Next::More(Install { phase: Phase::Reprotecting, ..self })
            },
            _ => {
                self.publish(ops, 0);
                op(ops, Op::Say(line_about("VirtualProtect RWX FAILED", self.target)));
                Next::Done(None)
            },
        }
    }

    fn checked(self, reply: Reply, ops: &mut Vec<Op>) -> (r: Next)
        requires
            self@.phase == Phase::Checking,
            fits(self@, reply),
            deeds(old(ops)@) == Seq::<Deed>::empty(),
        ensures
            deeds(final(ops)@) =~= install_turn(self@, reply).0,
            r@ == install_turn(self@, reply).1,
    {
        proof {
            use_type_invariant(&self);
        }
        let check = match reply {
            Reply::Bytes(b) => b,
            _ => Vec::new(),
        };
        let patch = patch_bytes(self.target, self.near, self.len);
        if bytes::same_bytes(check.as_slice(), patch.as_slice()) {
            self.say_installed(ops);
            let h = Hook {
                target: self.target,
                len: self.len,
                near: self.near,
                is_capture: self.capture,
                orig: self.orig,
            };
            return Next::Done(Some(h));
        }
        let s = text::cat2(
            line_about("PATCH VERIFY FAILED", self.target).as_str(),
            want_got_text(patch.as_slice(), check.as_slice()).as_str(),
        );
        op(ops, Op::Say(s));
        op(ops, Op::Protect(self.target, self.len, memory::PAGE_EXECUTE_READWRITE));
        Next::More(Install { phase: Phase::RollingBack, ..self })
    }

    fn rolled_back(self, reply: Reply, ops: &mut Vec<Op>) -> (r: Next)
        requires
            self@.phase == Phase::RollingBack,
            fits(self@, reply),
            deeds(old(ops)@) == Seq::<Deed>::empty(),
        ensures
            deeds(final(ops)@) =~= install_turn(self@, reply).0,
            r@ == install_turn(self@, reply).1,
    {
        proof {
            use_type_invariant(&self);
        }
        match reply {
            Reply::Protect(Some(old_protect)) => {
                op(ops, Op::Write(self.target, bytes::copy_of(self.orig.as_slice())));
                op(ops, Op::Protect(self.target, self.len, old_protect));
                Next::More(Install { phase: Phase::RollbackReprotecting, ..self })
            },
            _ => {
                op(ops, Op::Say(line_about("ROLLBACK VirtualProtect FAILED", self.target)));
                self.publish(ops, 0);
                Next::Done(None)
            },
        }
    }
}

/// How an installation that begins with checks goes on.
pub enum Start {
    /// The installation is under way.
    Install(Vec<Op>, Next),
    /// It is over, and this is its result.
    Done(bool),
}

/// What a check of the bytes at a target adds to the log.
pub open spec fn mismatch_line(
    who: Seq<char>,
    name: Seq<char>,
    want: Seq<u8>,
    got: Seq<u8>,
) -> Seq<char> {
    who + name + " signature mismatch"@ + want_got(want, got)
}

/// How the checks before an installation came out, and what they add to the log.
pub ghost enum Cleared {
    /// The bytes at the target are not known yet.
    Wants(Need),
    Refused(Seq<Seq<char>>),
    Clear,
}

/// The checks before an installation: the target lies in its module, and holds the
/// instructions that are expected. It is read only where it lies in its module.
pub open spec fn cleared(
    who: Seq<char>,
    target: usize,
    expected: Seq<u8>,
    name: Seq<char>,
    module: Seq<char>,
    range: Option<(u64, usize)>,
    k: snapshot::Known,
) -> Cleared {
    if !is_within(target, range) {
        Cleared::Refused(seq![preflight_line(target, module, range)])
    } else {
        match snapshot::bytes_at(k, target, expected.len() as usize) {
            Err(n) => Cleared::Wants(n),
            Ok(actual) => if actual == expected {
                Cleared::Clear
            } else {
                Cleared::Refused(seq![mismatch_line(who, name, expected, actual)])
            },
        }
    }
}

/// Checks a target. On a need nothing is added to the log.
pub(crate) fn clear(
    who: &str,
    target: usize,
    expected: &[u8],
    name: &str,
    module: &str,
    range: Option<(u64, usize)>,
    snap: &Snapshot,
    log: &mut Log,
) -> (r: Result<bool, Need>)
    requires
        range_fits(range),
    ensures
        match cleared(who@, target, expected@, name@, module@, range, snap@) {
            Cleared::Wants(n) => r == Err::<bool, Need>(n) && final(log)@ == old(log)@,
            Cleared::Refused(lines) => r == Ok::<bool, Need>(false) && final(log)@ == old(log)@
                + lines,
            Cleared::Clear => r == Ok::<bool, Need>(true) && final(log)@ == old(log)@,
        },
{
    if !preflight(target, module, range, log) {
        return Ok(false);
    }
    assert(log@ == old(log)@);
    match snap.read(target, expected.len()) {
        Ok(actual) => {
            if bytes::same_bytes(actual.as_slice(), expected) {
                return Ok(true);
            }
            let mut s = text::cat3(who, name, " signature mismatch");
            s.append(want_got_text(expected, actual.as_slice()).as_str());
            log.say(s);
            assert(log@ == old(log)@ + seq![mismatch_line(who@, name@, expected@, actual@)]);
            Ok(false)
        },
        Err(n) => Err(n),
    }
}

/// Begins to install a capturing hook over instructions that are checked first.
/// Nothing comes of it where a check fails.
pub fn install_capture_checked(
    target: usize,
    expected: &[u8],
    name: &str,
    module: &str,
    range: Option<(u64, usize)>,
    snap: &Snapshot,
    log: &mut Log,
) -> (r: Result<Option<(Vec<Op>, Next)>, Need>)
    requires
        range_fits(range),
        target + 0x3FF0_0000 <= usize::MAX,
    ensures
        target == 0 ==> (r matches Ok(None)) && final(log)@ == old(log)@,
        target != 0 ==> match cleared(
            "[detour] "@,
            target,
            expected@,
            name@,
            module@,
            range,
            snap@,
        ) {
            Cleared::Wants(n) => r matches Err(m) && m == n && final(log)@ == old(log)@,
            Cleared::Refused(lines) => r matches Ok(None) && final(log)@ == old(log)@ + lines,
            Cleared::Clear => r matches Ok(Some(s)) && (deeds(s.0@), s.1@) == install_start(
                target,
                expected@.len() as usize,
                true,
                0,
                false,
            ) && final(log)@ == old(log)@,
        },
{
    if target == 0 {
        return Ok(None);
    }
    match clear("[detour] ", target, expected, name, module, range, snap, log) {
        Ok(ok) => if ok {
            Ok(Some(install_capture(target, expected.len())))
        } else {
            Ok(None)
        },
        Err(n) => Err(n),
    }
}

/// How far the removal of a hook has come.
#[derive(Clone, Copy, PartialEq, Eq, Debug, Structural)]
pub enum RestorePhase {
    /// The target was asked to be made writable.
    Unprotecting,
    /// The replaced bytes were put back, and the protection asked to be.
    Reprotecting,
    /// The bytes at the target were asked for.
    Checking,
}

/// How the removal of a hook goes on.
#[derive(Clone, Copy, PartialEq, Eq, Debug, Structural)]
pub enum RestoreNext {
    /// It wants a reply to the last thing to be done.
    More(RestorePhase),
    /// Whether the replaced bytes are back.
    Done(bool),
}

pub open spec fn restore_fits(h: Hooked, p: RestorePhase, r: Reply) -> bool {
    match p {
        RestorePhase::Checking => r matches Reply::Bytes(b) && b@.len() == h.len,
        _ => r is Protect,
    }
}

/// What is done on a reply, and how the removal goes on.
pub open spec fn restore_turn(h: Hooked, p: RestorePhase, r: Reply) -> (Seq<Deed>, RestoreNext) {
    match p {
        RestorePhase::Unprotecting => match r->Protect_0 {
            Some(old) => (
                seq![Deed::Write(h.target, h.orig), Deed::Protect(h.target, h.len, old)],
                RestoreNext::More(RestorePhase::Reprotecting),
            ),
            None => (
                seq![Deed::Say(target_line("restore VirtualProtect FAILED"@, h.target))],
                RestoreNext::Done(false),
            ),
        },
        RestorePhase::Reprotecting => (
            say_if(r->Protect_0 is None, target_line("restore protection FAILED"@, h.target))
                + seq![Deed::Flush(h.target, h.len), Deed::Read(h.target, h.len)],
            RestoreNext::More(RestorePhase::Checking),
        ),
        RestorePhase::Checking => if r->Bytes_0@ == h.orig {
            (
                seq![
                    Deed::Say(target_line("RESTORE VERIFY OK"@, h.target)),
                    Deed::Say(target_line("restored"@, h.target)),
                ],
                RestoreNext::Done(true),
            )
        } else {
            (
                seq![
                    Deed::Say(
                        target_line("RESTORE VERIFY FAIL"@, h.target) + want_got(
                            h.orig,
                            r->Bytes_0@,
                        ),
                    ),
                ],
                RestoreNext::Done(false),
            )
        },
    }
}

impl Hook {
    /// Begins to put the replaced bytes back.
    pub fn restore(&self) -> (r: (Vec<Op>, RestorePhase))
        ensures
            deeds(r.0@) == seq![
                Deed::Protect(self@.target, self@.len, memory::PAGE_EXECUTE_READWRITE),
            ],
            r.1 == RestorePhase::Unprotecting,
    {
        let mut ops = no_ops();
        op(&mut ops, Op::Protect(self.target, self.len, memory::PAGE_EXECUTE_READWRITE));
        assert(deeds(ops@) == seq![
            Deed::Protect(self@.target, self@.len, memory::PAGE_EXECUTE_READWRITE),
        ]);
        (ops, RestorePhase::Unprotecting)
    }

    /// Takes the reply to what was asked last.
    pub fn restore_step(&self, phase: RestorePhase, reply: Reply) -> (r: (Vec<Op>, RestoreNext))
        requires
            restore_fits(self@, phase, reply),
        ensures
            (deeds(r.0@), r.1) == restore_turn(self@, phase, reply),
    {
        let mut ops = no_ops();
        let next = match phase {
            RestorePhase::Unprotecting => match reply {
                Reply::Protect(Some(old_protect)) => {
                    op(&mut ops, Op::Write(self.target, bytes::copy_of(self.orig.as_slice())));
                    op(&mut ops, Op::Protect(self.target, self.len, old_protect));
                    RestoreNext::More(RestorePhase::Reprotecting)
                },
                _ => {
                    op(
                        &mut ops,
                        Op::Say(line_about("restore VirtualProtect FAILED", self.target)),
                    );
                    RestoreNext::Done(false)
                },
            },
            RestorePhase::Reprotecting => {
                match reply {
                    Reply::Protect(None) => {
                        op(
                            &mut ops,
                            Op::Say(line_about("restore protection FAILED", self.target)),
                        );
                    },
                    _ => {},
                }
                op(&mut ops, Op::Flush(self.target, self.len));
                op(&mut ops, Op::Read(self.target, self.len));
                RestoreNext::More(RestorePhase::Checking)
            },
            RestorePhase::Checking => {
                let check = match &reply {
                    Reply::Bytes(b) => bytes::copy_of(b.as_slice()),
                    _ => Vec::new(),
                };
                if bytes::same_bytes(check.as_slice(), self.orig.as_slice()) {
                    op(&mut ops, Op::Say(line_about("RESTORE VERIFY OK", self.target)));
                    op(&mut ops, Op::Say(line_about("restored", self.target)));
                    RestoreNext::Done(true)
                } else {
                    let s = text::cat2(
                        line_about("RESTORE VERIFY FAIL", self.target).as_str(),
                        want_got_text(self.orig.as_slice(), check.as_slice()).as_str(),
                    );
                    op(&mut ops, Op::Say(s));
                    RestoreNext::Done(false)
                }
            },
        };
        assert(deeds(ops@) == restore_turn(self@, phase, reply).0);
        (ops, next)
    }
}

/// Memory, and the slot in which far code finds the trampoline.
pub ghost struct World {
    pub mem: spec_fn(int) -> u8,
    pub slot: u64,
}

/// The world after something was done.
pub open spec fn after(w: World, d: Deed) -> World {
    match d {
        Deed::Write(a, b) => World {
            mem: |x: int|
                if a <= x < a + b.len() {
                    b[x - a]
                } else {
                    (w.mem)(x)
                },
            ..w
        },
        Deed::Publish(v) => World { slot: v, ..w },
        _ => w,
    }
}

pub open spec fn after_all(w: World, d: Seq<Deed>) -> World
    decreases d.len(),
{
    if d.len() == 0 {
        w
    } else {
        after(after_all(w, d.drop_last()), d.last())
    }
}

/// The `n` bytes from `a` on.
pub open spec fn content(w: World, a: usize, n: usize) -> Seq<u8> {
    Seq::new(n as nat, |x: int| (w.mem)(a + x))
}

/// Whether a block and a target do not overlap.
pub open spec fn apart(near: usize, target: usize, len: usize) -> bool {
    near + ALLOC_SIZE <= target || target + len <= near
}

/// Whether something leaves the bytes at the target as they are.
pub open spec fn spares(d: Deed, target: usize, len: usize) -> bool {
    d matches Deed::Write(a, b) ==> a + b.len() <= target || target + len <= a
}

proof fn lemma_after_concat(w: World, a: Seq<Deed>, b: Seq<Deed>)
    ensures
        after_all(w, a + b) == after_all(after_all(w, a), b),
    decreases b.len(),
{
    if b.len() == 0 {
        assert(a + b == a);
    } else {
        assert((a + b).drop_last() == a + b.drop_last());
        lemma_after_concat(w, a, b.drop_last());
    }
}

proof fn lemma_spared(w: World, d: Seq<Deed>, target: usize, len: usize)
    requires
        forall|x: int| 0 <= x < d.len() ==> spares(#[trigger] d[x], target, len),
    ensures
        content(after_all(w, d), target, len) == content(w, target, len),
    decreases d.len(),
{
    if d.len() > 0 {
        assert forall|x: int| 0 <= x < d.drop_last().len() implies spares(
            #[trigger] d.drop_last()[x],
            target,
            len,
        ) by {
            assert(d[x] == d.drop_last()[x]);
        }
        lemma_spared(w, d.drop_last(), target, len);
        let v = after_all(w, d.drop_last());
        assert(spares(d[d.len() - 1], target, len));
        assert(content(after(v, d.last()), target, len) == content(v, target, len));
    }
}

proof fn lemma_after_two(w: World, a: Deed, b: Deed)
    ensures
        after_all(w, seq![a, b]) == after(after(w, a), b),
{
    reveal_with_fuel(after_all, 3);
    assert(seq![a, b].drop_last() == seq![a]);
    assert(seq![a].drop_last() == Seq::<Deed>::empty());
}

/// What holds of the world while a hook is installed over `orig`: the target holds
/// what it held before, or the patch, and the slot leads to the trampoline
/// whenever the patch is in place.
pub open spec fn in_step(i: Installing, w: World, orig: Seq<u8>) -> bool {
    let here = content(w, i.target, i.len);
    &&& i.phase != Phase::Probing ==> apart(i.near, i.target, i.len)
    &&& has_read(i.phase) ==> i.orig == orig
    &&& has_read(i.phase) && publishes(i) ==> w.slot == tramp_of(i)
    &&& match i.phase {
        Phase::Reprotecting => here == patch_of(i),
        Phase::Checking => here == patch_of(i),
        Phase::RollingBack => here == patch_of(i),
        _ => here == orig,
    }
}

/// Whether a reply is true: a block lies apart from the target, and the bytes to be
/// replaced are those that are there.
pub open spec fn is_true(i: Installing, w: World, r: Reply) -> bool {
    match i.phase {
        Phase::Probing => r->Addr_0 != 0 ==> apart(r->Addr_0, i.target, i.len),
        Phase::Reading => r->Bytes_0@ == content(w, i.target, i.len),
        _ => true,
    }
}

proof fn lemma_patch_len(i: Installing)
    requires
        is_installing(i),
    ensures
        patch_of(i).len() == i.len,
{
    lemma_le_bytes_4(i.near - (i.target + 5));
}

/// A hook is installed entirely or not at all: an installation that comes to
/// nothing leaves the target as it was and the slot cleared, unless the target
/// could not be made writable to take the patch back; one that succeeds leaves the
/// patch at the target, and its hook knows what was there. While the patch is in
/// place the slot leads to the trampoline.
pub proof fn lemma_install_all_or_nothing(i: Installing, r: Reply, w: World, orig: Seq<u8>)
    requires
        is_installing(i),
        fits(i, r),
        is_true(i, w, r),
        in_step(i, w, orig),
        orig.len() == i.len,
    ensures
        ({
            let (d, next) = install_turn(i, r);
            let v = after_all(w, d);
            match next {
                Then::More(n) => in_step(n, v, orig) && is_installing(n),
                Then::Done(Some(h)) => {
                    &&& is_hook(h)
                    &&& h.orig == orig
                    &&& content(v, h.target, h.len) == patch(h.target, h.near, h.len)
                    &&& publishes(i) ==> v.slot == tramp_of(i)
                },
                Then::Done(None) => {
                    &&& content(v, i.target, i.len) == orig || i.phase == Phase::RollingBack
                        && r->Protect_0 is None
                    &&& publishes(i) && has_read(i.phase) ==> v.slot == 0
                },
            }
        }),
{
    let (d, next) = install_turn(i, r);
    lemma_patch_len(i);
    match i.phase {
        Phase::Probing => {
            lemma_spared(w, d, i.target, i.len);
            if r->Addr_0 != 0 {
                lemma_after_two(w, d[0], d[1]);
            }
        },
        Phase::Reading => {
            lemma_reading(i, r, w);
        },
        Phase::Unprotecting => {
            match r->Protect_0 {
                Some(old_protect) => {
                    lemma_after_two(w, d[0], d[1]);
                    let v = after_all(w, d);
                    assert(content(v, i.target, i.len) == patch_of(i));
                },
                None => {
                    lemma_spared(w, d, i.target, i.len);
                    lemma_after_concat(
                        w,
                        publish(i, 0),
                        seq![Deed::Say(target_line("VirtualProtect RWX FAILED"@, i.target))],
                    );
                    lemma_published(w, i, 0);
                    lemma_quiet(
                        after_all(w, publish(i, 0)),
                        seq![Deed::Say(target_line("VirtualProtect RWX FAILED"@, i.target))],
                    );
                },
            }
        },
        Phase::Reprotecting => {
            lemma_quiet(w, d);
        },
        Phase::Checking => {
            lemma_quiet(w, d);
        },
        Phase::RollingBack => {
            match r->Protect_0 {
                Some(old_protect) => {
                    lemma_after_two(w, d[0], d[1]);
                    let v = after_all(w, d);
                    assert(content(v, i.target, i.len) == i.orig);
                },
                None => {
                    let a = seq![
                        Deed::Say(target_line("ROLLBACK VirtualProtect FAILED"@, i.target)),
                    ];
                    lemma_after_concat(w, a, publish(i, 0));
                    lemma_quiet(w, a);
                    lemma_published(w, i, 0);
                },
            }
        },
        Phase::RollbackReprotecting => {
            let a = say_if(
                r->Protect_0 is None,
                target_line("ROLLBACK PROTECT RESTORE FAILED"@, i.target),
            ) + seq![Deed::Flush(i.target, i.len)];
            lemma_after_concat(w, a, publish(i, 0));
            lemma_quiet(w, a);
            lemma_published(w, i, 0);
        },
    }
}

/// What neither writes nor publishes leaves the world as it is.
proof fn lemma_quiet(w: World, d: Seq<Deed>)
    requires
        forall|x: int|
            0 <= x < d.len() ==> !((#[trigger] d[x]) is Write) && !(d[x] is Publish),
    ensures
        after_all(w, d) == w,
    decreases d.len(),
{
    if d.len() > 0 {
        assert forall|x: int| 0 <= x < d.drop_last().len() implies !((
        #[trigger] d.drop_last()[x]) is Write) && !(d.drop_last()[x] is Publish) by {
            assert(d[x] == d.drop_last()[x]);
        }
        lemma_quiet(w, d.drop_last());
        assert(!(d[d.len() - 1] is Write));
    }
}

proof fn lemma_published(w: World, i: Installing, v: int)
    requires
        0 <= v <= u64::MAX,
    ensures
        after_all(w, publish(i, v)).mem == w.mem,
        publishes(i) ==> after_all(w, publish(i, v)).slot == v,
        !publishes(i) ==> after_all(w, publish(i, v)).slot == w.slot,
{
    reveal_with_fuel(after_all, 2);
    if publishes(i) {
        assert(publish(i, v).drop_last() == Seq::<Deed>::empty());
    }
}

proof fn lemma_reading(i: Installing, r: Reply, w: World)
    requires
        is_installing(i),
        i.phase == Phase::Reading,
        fits(i, r),
        apart(i.near, i.target, i.len),
    ensures
        ({
            let (d, next) = install_turn(i, r);
            let v = after_all(w, d);
            &&& content(v, i.target, i.len) == content(w, i.target, i.len)
            &&& publishes(i) ==> v.slot == tramp_of(i)
        }),
{
    let n = Installing { phase: Phase::Unprotecting, orig: r->Bytes_0@, ..i };
    let block = block_deeds(n.target, n.near, n.capture, n.stub, n.orig);
    let flush = seq![Deed::Flush(n.near, ALLOC_SIZE)];
    let protect = seq![Deed::Protect(n.target, n.len, memory::PAGE_EXECUTE_READWRITE)];
    let (d, next) = install_turn(i, r);
    let tramp = tramp_of(n);
    bytes::lemma_le_round_trip(0, 8);
    bytes::lemma_le_round_trip(tramp, 8);
    bytes::lemma_le_round_trip(n.stub as int, 8);
    lemma_le_bytes_4(n.target + n.orig.len() - (tramp + n.orig.len() + 5));
    assert(trampoline(n.target, tramp, n.orig).len() == n.len + 5);
    assert forall|x: int| 0 <= x < d.len() implies spares(
        #[trigger] d[x],
        i.target,
        i.len,
    ) by {
        if x < block.len() {
            assert(d[x] == block[x]);
        }
    }
    lemma_spared(w, d, i.target, i.len);
    lemma_after_concat(w, block + flush + publish(n, tramp), protect);
    lemma_after_concat(w, block + flush, publish(n, tramp));
    lemma_published(after_all(w, block + flush), n, tramp);
    lemma_quiet(after_all(after_all(w, block + flush), publish(n, tramp)), protect);
}

/// Once the replaced bytes were put back, the target holds what it held before the
/// hook was installed; nothing that follows changes it.
pub proof fn lemma_restore_undoes_install(h: Hooked, p: RestorePhase, r: Reply, w: World)
    requires
        is_hook(h),
        restore_fits(h, p, r),
        p != RestorePhase::Unprotecting ==> content(w, h.target, h.len) == h.orig,
    ensures
        ({
            let (d, next) = restore_turn(h, p, r);
            let v = after_all(w, d);
            &&& next matches RestoreNext::More(_) ==> content(v, h.target, h.len) == h.orig
            &&& next == RestoreNext::Done(true) ==> content(v, h.target, h.len) == h.orig
        }),
{
    let (d, next) = restore_turn(h, p, r);
    match p {
        RestorePhase::Unprotecting => {
            if r->Protect_0 is Some {
                lemma_after_two(w, d[0], d[1]);
                assert(content(after_all(w, d), h.target, h.len) == h.orig);
            }
        },
        _ => {
            lemma_quiet(w, d);
        },
    }
}

/// The patch jumps to the block, and the trampoline jumps back behind the replaced
/// instructions, wherever the block is within reach.
pub proof fn lemma_hook_jumps(target: usize, near: usize, len: usize, off: int, orig: Seq<u8>)
    requires
        5 <= len <= MAX_LEN,
        orig.len() == len,
        reaches(target as int, near as int),
        reaches(near + off + len, target + len),
    ensures
        jump_target(target as int, patch(target, near, len)) == near,
        ({
            let t = trampoline(target, near + off, orig);
            &&& t.take(len as int) == orig
            &&& jump_target(near + off + len, t.skip(len as int)) == target + len
        }),
{
    lemma_jump_lands(target as int, near as int);
    let j = jump(target as int, near as int);
    assert(patch(target, near, len).subrange(1, 5) == j.subrange(1, 5));
    lemma_jump_lands(near + off + len, target + len);
    let t = trampoline(target, near + off, orig);
    assert(t.take(len as int) == orig);
    assert(t.skip(len as int) == jump(near + off + len, target + len));
}

/// The places that are tried lie a megabyte apart: upward from the page of the target, 1023
/// of them, then downward from it, as long as they do not fall below 64 kilobytes.
pub proof fn lemma_hints_step(target: int, k: int)
    requires
        0 <= target,
    ensures
        hint(target, 0) == Some(target - target % 0x1000 + 0x100000),
        0 <= k < 1022 ==> hint(target, k + 1) == Some(hint(target, k)->0 + 0x100000),
        1023 <= k < 2046 ==> (hint(target, k) is Some <==> target - target % 0x1000 - (k - 1022)
            * 0x100000 >= 0x10000),
        1023 <= k < 2046 && hint(target, k) is Some ==> hint(target, k)->0 == target - target
            % 0x1000 - (k - 1022) * 0x100000,
        k < 0 || k >= 2046 ==> hint(target, k) is None,
{
}

/// A target is within a module where it lies from its base on and before its end; without a
/// module it is not.
pub proof fn lemma_within(target: usize, base: u64, size: usize)
    ensures
        is_within(target, Some((base, size))) <==> !(target < base || target >= base + size),
        !is_within(target, None),
{
}

/// The size of a module is read from its headers: the offset at 0x3C leads to the signature
/// `PE`, the magic number of the optional header stands 0x18 behind it, that of 32 or of 64
/// bits, and the size 0x50 behind it. A module without these, or of no size, has no range.
pub proof fn lemma_image_is_read(
    k: snapshot::Known,
    base: usize,
    e: int,
    sig: int,
    magic: int,
    size: int,
)
    requires
        base + 0x2000 <= usize::MAX,
        value_at(k, base + 0x3C, 4) == Ok::<int, Need>(e),
        value_at(k, base + e, 4) == Ok::<int, Need>(sig),
        value_at(k, base + e + 0x18, 2) == Ok::<int, Need>(magic),
        value_at(k, base + e + 0x50, 4) == Ok::<int, Need>(size),
        0 <= size <= usize::MAX,
    ensures
        ({
            let good = e != 0 && e <= 0x1000 && sig == 0x4550 && (magic == 0x10B || magic == 0x20B)
                && size != 0;
            &&& good ==> image_range(k, base) == Ok::<Option<(u64, usize)>, Need>(
                Some((base as u64, size as usize)),
            )
            &&& !good ==> image_range(k, base) == Ok::<Option<(u64, usize)>, Need>(None)
        }),
{
    assert(base + e + 0x18 + 0x38 == base + e + 0x50);
}

/// A value in memory is that of its bytes, the least first.
pub proof fn lemma_value_is_read(k: snapshot::Known, addr: usize, v: u32)
    ensures
        snapshot::bytes_at(k, addr, 4) == Ok::<Seq<u8>, Need>(bytes::le_bytes(v as int, 4))
            ==> value_at(k, addr as int, 4) == Ok::<int, Need>(v as int),
        snapshot::bytes_at(k, addr, 4) is Err ==> value_at(k, addr as int, 4) is Err,
{
    bytes::lemma_words_read_back(v, 0);
}

/// The machine code: a jump is the byte E9 and a distance, a patch a jump and single-byte
/// fillers to its end; the capturing block counts with `inc`, keeps rcx with `mov` and goes
/// on with `jmp`, each relative to itself; the far block goes on with `jmp` alone.
pub proof fn lemma_machine_code(from: int, to: int, target: usize, near: usize, len: usize, i: int)
    requires
        5 <= len <= 16,
        5 <= i < len,
    ensures
        jump(from, to).len() == 5,
        jump(from, to)[0] == 0xE9,
        patch(target, near, len).len() == len,
        patch(target, near, len).take(5) == jump(target as int, near as int),
        patch(target, near, len)[i] == 0x90,
        capture_code().subrange(0, 3) == seq![0x48u8, 0xFF, 0x05],
        capture_code().subrange(7, 10) == seq![0x48u8, 0x89, 0x0D],
        capture_code().subrange(14, 16) == seq![0xFFu8, 0x25],
        far_code().subrange(0, 2) == seq![0xFFu8, 0x25],
{
    lemma_le_bytes_4(to - (from + 5));
    lemma_le_bytes_4(near - (target + 5));
    assert(patch(target, near, len).take(5) =~= jump(target as int, near as int));
    assert(capture_code().subrange(0, 3) =~= seq![0x48u8, 0xFF, 0x05]);
    assert(capture_code().subrange(7, 10) =~= seq![0x48u8, 0x89, 0x0D]);
    assert(capture_code().subrange(14, 16) =~= seq![0xFFu8, 0x25]);
    assert(far_code().subrange(0, 2) =~= seq![0xFFu8, 0x25]);
}

proof fn lemma_written_stays(w: World, a: usize, b: Seq<u8>, rest: Seq<Deed>)
    requires
        forall|x: int| 0 <= x < rest.len() ==> spares(#[trigger] rest[x], a, b.len() as usize),
        b.len() <= usize::MAX,
    ensures
        content(after_all(w, seq![Deed::Write(a, b)] + rest), a, b.len() as usize) == b,
{
    let first = seq![Deed::Write(a, b)];
    lemma_after_concat(w, first, rest);
    reveal_with_fuel(after_all, 2);
    assert(first.drop_last() == Seq::<Deed>::empty());
    let v = after_all(w, first);
    assert(v == after(w, Deed::Write(a, b)));
    assert(content(v, a, b.len() as usize) =~= b);
    lemma_spared(v, rest, a, b.len() as usize);
}

/// What a block holds once it is written. A capturing block begins with its code, has a
/// count of zero at 0x18, the address of its trampoline at 0x28, and that trampoline at
/// 0x30; a far one begins with its code, has the far function at 0x08 and the trampoline at
/// 0x10.
pub proof fn lemma_block_holds(
    w: World,
    target: usize,
    near: usize,
    capture: bool,
    stub: u64,
    orig: Seq<u8>,
)
    requires
        5 <= orig.len() <= 16,
        near + 0x100 <= usize::MAX,
    ensures
        ({
            let v = after_all(w, block_deeds(target, near, capture, stub, orig));
            let n = (orig.len() + 5) as usize;
            &&& capture ==> content(v, near, 20) == capture_code() && content(
                v,
                (near + 0x18) as usize,
                8,
            ) == bytes::le_bytes(0, 8) && content(v, (near + 0x28) as usize, 8) == bytes::le_bytes(
                near + 0x30,
                8,
            ) && content(v, (near + 0x30) as usize, n) == trampoline(target, near + 0x30, orig)
            &&& !capture ==> content(v, near, 6) == far_code() && content(
                v,
                (near + 8) as usize,
                8,
            ) == bytes::le_bytes(stub as int, 8) && content(v, (near + 0x10) as usize, n)
                == trampoline(target, near + 0x10, orig)
        }),
{
    let d = block_deeds(target, near, capture, stub, orig);
    let tramp = (near + tramp_off(capture)) as usize;
    let t = trampoline(target, tramp as int, orig);
    bytes::lemma_le_round_trip(0, 8);
    bytes::lemma_le_round_trip(tramp as int, 8);
    bytes::lemma_le_round_trip(stub as int, 8);
    lemma_le_bytes_4(target + orig.len() - (tramp + orig.len() + 5));
    assert(t.len() == orig.len() + 5);
    if capture {
        let zero = bytes::le_bytes(0, 8);
        let slot = bytes::le_bytes(tramp as int, 8);
        let d1 = d.skip(1);
        let d2 = d.skip(2);
        let d3 = d.skip(3);
        let w1 = after(w, d[0]);
        let w2 = after(w1, d[1]);
        let w3 = after(w2, d[2]);
        lemma_in_turn(w, d);
        lemma_in_turn(w1, d1);
        lemma_in_turn(w2, d2);
        assert(d1.skip(1) =~= d2);
        assert(d2.skip(1) =~= d3);
        assert(d =~= seq![Deed::Write(near, capture_code())] + d1);
        lemma_written_stays(w, near, capture_code(), d1);
        assert(d1 =~= seq![Deed::Write((near + 0x18) as usize, zero)] + d2);
        lemma_written_stays(w1, (near + 0x18) as usize, zero, d2);
        assert(d2 =~= seq![Deed::Write((near + 0x28) as usize, slot)] + d3);
        lemma_written_stays(w2, (near + 0x28) as usize, slot, d3);
        assert(d3 =~= seq![Deed::Write(tramp, t)] + Seq::<Deed>::empty());
        lemma_written_stays(w3, tramp, t, Seq::<Deed>::empty());
    } else {
        let far = bytes::le_bytes(stub as int, 8);
        let d1 = d.skip(1);
        let d2 = d.skip(2);
        let w1 = after(w, d[0]);
        let w2 = after(w1, d[1]);
        lemma_in_turn(w, d);
        lemma_in_turn(w1, d1);
        assert(d1.skip(1) =~= d2);
        assert(d =~= seq![Deed::Write(near, far_code())] + d1);
        lemma_written_stays(w, near, far_code(), d1);
        assert(d1 =~= seq![Deed::Write((near + 8) as usize, far)] + d2);
        lemma_written_stays(w1, (near + 8) as usize, far, d2);
        assert(d2 =~= seq![Deed::Write(tramp, t)] + Seq::<Deed>::empty());
        lemma_written_stays(w2, tramp, t, Seq::<Deed>::empty());
    }
}

proof fn lemma_in_turn(w: World, d: Seq<Deed>)
    requires
        d.len() > 0,
    ensures
        after_all(w, d) == after_all(after(w, d[0]), d.skip(1)),
{
    let first = seq![d[0]];
    assert(d =~= first + d.skip(1));
    lemma_after_concat(w, first, d.skip(1));
    reveal_with_fuel(after_all, 2);
    assert(first.drop_last() == Seq::<Deed>::empty());
}

/// The target is written to only while it is writable, and gets its own protection back:
/// each write to it comes with a change of its protection to what that was, and follows
/// one to 0x40 that succeeded. No other turn writes to it.
pub proof fn lemma_protection_is_put_back(i: Installing, r: Reply, x: int)
    requires
        is_installing(i),
        fits(i, r),
        i.phase != Phase::Probing ==> apart(i.near, i.target, i.len),
        0 <= x < install_turn(i, r).0.len(),
    ensures
        ({
            let d = install_turn(i, r).0;
            &&& !spares(d[x], i.target, i.len) ==> r is Protect && r->Protect_0 is Some && x + 1
                < d.len() && d[x + 1] == Deed::Protect(i.target, i.len, r->Protect_0->0) && (i.phase
                == Phase::Unprotecting || i.phase == Phase::RollingBack)
            &&& i.phase == Phase::Reading ==> d.last() == Deed::Protect(i.target, i.len, 0x40)
        }),
        forall|v: Vec<u8>|
            i.phase == Phase::Checking && r == Reply::Bytes(v) ==> (install_turn(i, r).1 == Then::Done(
                Some(
                    Hooked {
                        target: i.target,
                        len: i.len,
                        near: i.near,
                        is_capture: i.capture,
                        orig: i.orig,
                    },
                ),
            ) <==> #[trigger] v@ == patch(i.target, i.near, i.len)),
{
    let d = install_turn(i, r).0;
    if i.phase == Phase::Reading {
        let n = Installing { phase: Phase::Unprotecting, orig: r->Bytes_0@, ..i };
        let block = block_deeds(n.target, n.near, n.capture, n.stub, n.orig);
        let tramp = tramp_of(n);
        bytes::lemma_le_round_trip(0, 8);
        bytes::lemma_le_round_trip(tramp, 8);
        bytes::lemma_le_round_trip(n.stub as int, 8);
        lemma_le_bytes_4(n.target + n.orig.len() - (tramp + n.orig.len() + 5));
        assert(trampoline(n.target, tramp, n.orig).len() == n.len + 5);
        if x < block.len() {
            assert(d[x] == block[x]);
        }
    } else if i.phase == Phase::Checking {
        lemma_patch_len(i);
    }
}

/// Looking for a block goes on until one is had: a block that was had is recorded and used,
/// without one the next place is tried, and without a further place nothing is installed.
pub proof fn lemma_block_is_looked_for(i: Installing, p: usize)
    requires
        is_installing(i),
        i.phase == Phase::Probing,
    ensures
        ({
            let (d, next) = install_turn(i, Reply::Addr(p));
            &&& p != 0 ==> d.contains(Deed::Record(p)) && d.contains(Deed::Read(i.target, i.len))
                && next == Then::More(Installing { phase: Phase::Reading, near: p, ..i })
            &&& p == 0 && hint(i.target as int, i.k + 1) is Some ==> d == seq![
                Deed::Alloc(hint(i.target as int, i.k + 1)->0 as usize),
            ] && next == Then::More(Installing { k: (i.k + 1) as usize, ..i })
            &&& p == 0 && hint(i.target as int, i.k + 1) is None ==> d.len() == 0 && next
                == Then::Done(None)
        }),
{
    let d = install_turn(i, Reply::Addr(p)).0;
    if p != 0 {
        assert(d[0] == Deed::Record(p));
        assert(d[1] == Deed::Read(i.target, i.len));
    }
}

/// A hook of 5 to 16 bytes begins with the first place that is tried; one of another length
/// is not installed.
pub proof fn lemma_install_begins(
    target: usize,
    len: usize,
    capture: bool,
    stub: u64,
    has_slot: bool,
)
    requires
        target + 0x3FF0_0000 <= usize::MAX,
    ensures
        ({
            let (d, next) = install_start(target, len, capture, stub, has_slot);
            &&& len < 5 || len > 16 ==> d.len() == 0 && next == Then::Done(None)
            &&& 5 <= len <= 16 ==> d == seq![
                Deed::Alloc((target - target % 0x1000 + 0x100000) as usize),
            ] && next is More && next->More_0.target == target && next->More_0.len == len
                && next->More_0.capture == capture && next->More_0.stub == stub
                && next->More_0.has_slot == has_slot && next->More_0.phase == Phase::Probing
                && next->More_0.k == 0
        }),
{
}

/// A hook is taken back where the target was made writable and the bytes that it replaced
/// are there in the end: only then is it said to be.
pub proof fn lemma_restore_goes(h: Hooked, v: Vec<u8>, old: u32)
    ensures
        ({
            let (d, next) = restore_turn(
                h,
                RestorePhase::Unprotecting,
                Reply::Protect(Some(old)),
            );
            &&& d == seq![Deed::Write(h.target, h.orig), Deed::Protect(h.target, h.len, old)]
            &&& next == RestoreNext::More(RestorePhase::Reprotecting)
        }),
        restore_turn(h, RestorePhase::Unprotecting, Reply::Protect(None)).1 == RestoreNext::Done(
            false,
        ),
        restore_turn(h, RestorePhase::Checking, Reply::Bytes(v)).1 == RestoreNext::Done(
            v@ == h.orig,
        ),
        restore_turn(h, RestorePhase::Reprotecting, Reply::Protect(Some(old))).1
            == RestoreNext::More(RestorePhase::Checking),
        restore_turn(h, RestorePhase::Reprotecting, Reply::Protect(None)).1 == RestoreNext::More(
            RestorePhase::Checking,
        ),
{
}

/// A place is clear where it lies in the module and holds the bytes that are expected; bytes
/// that are not known are asked for, and anything else is refused with one line.
pub proof fn lemma_cleared(
    who: Seq<char>,
    target: usize,
    expected: Seq<u8>,
    name: Seq<char>,
    module: Seq<char>,
    base: u64,
    size: usize,
    k: snapshot::Known,
)
    requires
        expected.len() <= usize::MAX,
    ensures
        ({
            let r = cleared(who, target, expected, name, module, Some((base, size)), k);
            let inside = base <= target < base + size;
            let b = snapshot::bytes_at(k, target, expected.len() as usize);
            &&& r is Clear <==> inside && b == Ok::<Seq<u8>, Need>(expected)
            &&& r is Wants <==> inside && b is Err
            &&& r is Refused <==> !inside || b is Ok && b->Ok_0 != expected
            &&& r is Refused ==> r->Refused_0.len() == 1
        }),
        cleared(who, target, expected, name, module, None, k) is Refused,
{
}

/// What is told of a hook that was installed: where it is, how long, its block, the bytes it
/// replaced, the patch, and the trampoline.
pub proof fn lemma_installed_is_told(i: Installing)
    ensures
        ({
            let s = installed_line(i);
            &&& text::contains(s, " target=0x"@ + text::numeral(i.target as int, 16, true) + " "@)
            &&& text::contains(s, " len="@ + text::numeral(i.len as int, 10, false) + " "@)
            &&& text::contains(s, " near=0x"@ + text::numeral(i.near as int, 16, true) + " "@)
            &&& text::contains(s, " orig="@ + bytes::hex_pairs(i.orig, false) + " "@)
            &&& text::contains(
                s,
                " patch="@ + bytes::hex_pairs(patch(i.target, i.near, i.len), false) + " "@,
            )
            &&& text::contains(
                s,
                " tramp=0x"@ + text::numeral(
                    i.near + (if i.capture {
                        0x30int
                    } else {
                        0x10
                    }),
                    16,
                    true,
                ),
            )
        }),
{
    let s = installed_line(i);
    let a = text::hex_upper(i.target as int);
    let b = text::dec(i.len as int);
    let c = text::hex_upper(i.near as int);
    let d = bytes::hex_pairs(i.orig, false);
    let e = bytes::hex_pairs(patch_of(i), false);
    let g = text::hex_upper(tramp_of(i));
    reveal_strlit(" len=");
    reveal_strlit(" near=0x");
    reveal_strlit(" orig=");
    reveal_strlit(" patch=");
    reveal_strlit(" tramp=0x");
    let p0 = "[detour] "@ + "installed"@;
    let p1 = p0 + " target=0x"@ + a;
    let p2 = p1 + " len="@ + b;
    let p3 = p2 + " near=0x"@ + c;
    let p4 = p3 + " orig="@ + d;
    let p5 = p4 + " patch="@ + e;
    let p6 = p5 + " tramp=0x"@ + g;
    let t6 = Seq::<char>::empty();
    let t5 = " tramp=0x"@ + (g + t6);
    let t4 = " patch="@ + (e + t5);
    let t3 = " orig="@ + (d + t4);
    let t2 = " near=0x"@ + (c + t3);
    let t1 = " len="@ + (b + t2);
    let t0 = " target=0x"@ + (a + t1);
    assert(s == p6);
    assert(s =~= s + t6);
    text::lemma_regroup(p5, " tramp=0x"@, g, t6);
    text::lemma_regroup(p4, " patch="@, e, t5);
    text::lemma_regroup(p3, " orig="@, d, t4);
    text::lemma_regroup(p2, " near=0x"@, c, t3);
    text::lemma_regroup(p1, " len="@, b, t2);
    text::lemma_regroup(p0, " target=0x"@, a, t1);
    text::lemma_told(s, p0, " target=0x"@, a, t1);
    text::lemma_told(s, p1, " len="@, b, t2);
    text::lemma_told(s, p2, " near=0x"@, c, t3);
    text::lemma_told(s, p3, " orig="@, d, t4);
    text::lemma_told(s, p4, " patch="@, e, t5);
    assert(s =~= p5 + (" tramp=0x"@ + g) + t6);
    text::lemma_occurs_between(p5, " tramp=0x"@ + g, t6);
}

/// What is told of a place that is refused: the range of the module, from its base to its
/// end, or that there is none; what was expected, and what was found.
pub proof fn lemma_refusal_is_told(
    base: u64,
    size: usize,
    who: Seq<char>,
    name: Seq<char>,
    want: Seq<u8>,
    got: Seq<u8>,
)
    ensures
        range_text(Some((base, size))) == "range=0x"@ + text::numeral(base as int, 16, true)
            + "-0x"@ + text::numeral(base + size, 16, true),
        range_text(None) == "module not loaded"@,
        mismatch_line(who, name, want, got) == who + name + " signature mismatch"@ + (" want="@
            + bytes::hex_pairs(want, false) + " got="@ + bytes::hex_pairs(got, false)),
{
}

/// What goes wrong with a protection is told, and what goes right is not; only a hook
/// through far code with a slot publishes its trampoline, and takes it back when it comes to
/// nothing.
pub proof fn lemma_troubles_are_told(i: Installing, old: u32)
    ensures
        i.phase == Phase::Reprotecting ==> {
            let bad = install_turn(i, Reply::Protect(None)).0;
            let good = install_turn(i, Reply::Protect(Some(old))).0;
            &&& bad.len() == 3 && bad[0] is Say
            &&& good == seq![Deed::Flush(i.target, i.len), Deed::Read(i.target, i.len)]
        },
        i.phase == Phase::RollbackReprotecting ==> {
            let bad = install_turn(i, Reply::Protect(None)).0;
            let good = install_turn(i, Reply::Protect(Some(old))).0;
            &&& bad[0] is Say
            &&& good[0] == Deed::Flush(i.target, i.len)
            &&& good.contains(Deed::Publish(0)) <==> !i.capture && i.has_slot
        },
        i.phase == Phase::Unprotecting ==> {
            let bad = install_turn(i, Reply::Protect(None)).0;
            &&& bad.last() is Say
            &&& bad.contains(Deed::Publish(0)) <==> !i.capture && i.has_slot
        },
{
    if i.phase == Phase::RollbackReprotecting {
        let good = install_turn(i, Reply::Protect(Some(old))).0;
        assert(good =~= seq![Deed::Flush(i.target, i.len)] + publish(i, 0));
        if publishes(i) {
            assert(good[1] == Deed::Publish(0));
        }
    }
    if i.phase == Phase::Unprotecting {
        let bad = install_turn(i, Reply::Protect(None)).0;
        if publishes(i) {
            assert(bad[0] == Deed::Publish(0));
        }
    }
    if i.phase == Phase::Reprotecting {
        let good = install_turn(i, Reply::Protect(Some(old))).0;
        assert(good =~= seq![Deed::Flush(i.target, i.len), Deed::Read(i.target, i.len)]);
    }
}

/// What is to be done is what it says: each stands for the deed of its own name, with the
/// same content.
pub proof fn lemma_ops_are_deeds(
    a: usize,
    n: usize,
    p: u32,
    w: u64,
    b: Vec<u8>,
    s: String,
    v: Seq<Op>,
    i: int,
)
    requires
        0 <= i < v.len(),
    ensures
        Op::Alloc(a)@ == Deed::Alloc(a),
        Op::Record(a)@ == Deed::Record(a),
        Op::Read(a, n)@ == Deed::Read(a, n),
        Op::Write(a, b)@ == Deed::Write(a, b@),
        Op::Flush(a, n)@ == Deed::Flush(a, n),
        Op::Protect(a, n, p)@ == Deed::Protect(a, n, p),
        Op::Publish(w)@ == Deed::Publish(w),
        Op::Say(s)@ == Deed::Say(s@),
        deeds(v).len() == v.len(),
        deeds(v)[i] == v[i]@,
{
}

/// A place outside its module is told with its address, the module and its range; one within
/// it is not told.
pub proof fn lemma_preflight_is_told(
    what: Seq<char>,
    target: usize,
    module: Seq<char>,
    base: u64,
    size: usize,
)
    ensures
        target_line(what, target) == "[detour] "@ + what + " target=0x"@ + text::numeral(
            target as int,
            16,
            true,
        ),
        base <= target < base + size ==> preflight_log(target, module, Some((base, size))).len()
            == 0,
        target < base || target >= base + size ==> preflight_log(
            target,
            module,
            Some((base, size)),
        ) == seq![
            "[detour] "@ + "PREFLIGHT FAIL"@ + " target=0x"@ + text::numeral(target as int, 16, true)
                + " module="@ + module + " "@ + range_text(Some((base, size))),
        ],
        preflight_log(target, module, None) == seq![
            "[detour] "@ + "PREFLIGHT FAIL"@ + " target=0x"@ + text::numeral(target as int, 16, true)
                + " module="@ + module + " "@ + "module not loaded"@,
        ],
{
}

} // verus!
