//! Processes, modules and the regions of a process's memory.
use vstd::prelude::*;

use crate::bytes;
use crate::text;

verus! {

/// The state of memory that is backed by storage.
pub const MEM_COMMIT: u32 = 0x1000;

/// The type of memory that belongs to one process alone.
pub const MEM_PRIVATE: u32 = 0x20000;

pub const PAGE_READONLY: u32 = 0x02;

pub const PAGE_READWRITE: u32 = 0x04;

pub const PAGE_WRITECOPY: u32 = 0x08;

pub const PAGE_EXECUTE_READ: u32 = 0x20;

pub const PAGE_EXECUTE_READWRITE: u32 = 0x40;

pub const PAGE_EXECUTE_WRITECOPY: u32 = 0x80;

/// The flag of a guard page, which must not be touched.
pub const PAGE_GUARD: u32 = 0x100;

/// What `String::from_utf16_lossy` makes of code units.
pub uninterp spec fn utf16_lossy(units: Seq<u16>) -> Seq<char>;

/// Whether no code unit is half of a pair.
pub open spec fn unpaired(units: Seq<u16>) -> bool {
    forall|i: int| 0 <= i < units.len() ==> #[trigger] units[i] < 0xD800 || units[i] >= 0xE000
}

/// The characters whose numbers the code units are.
pub open spec fn unit_chars(units: Seq<u16>) -> Seq<char> {
    units.map_values(|u: u16| u as char)
}

/// The text of code units. It rests on `String::from_utf16_lossy` only where they are
/// not all characters of their own.
pub open spec fn unit_text(units: Seq<u16>) -> Seq<char> {
    if unpaired(units) {
        unit_chars(units)
    } else {
        utf16_lossy(units)
    }
}

/// `String::from_utf16_lossy`: a function of the code units alone. A code unit that
/// is not half of a pair stands for the character with its number. How it marks what
/// is invalid is left to it.
#[verifier::external_body]
fn utf16_text(units: &[u16]) -> (r: String)
    ensures
        r@ == utf16_lossy(units@),
        unpaired(units@) ==> r@ == unit_chars(units@),
{
    String::from_utf16_lossy(units)
}

/// What `str::to_lowercase` makes of a text.
pub uninterp spec fn lowercase(s: Seq<char>) -> Seq<char>;

/// Whether a text is of ASCII characters.
pub open spec fn is_ascii(s: Seq<char>) -> bool {
    forall|i: int| 0 <= i < s.len() ==> #[trigger] s[i] < '\u{80}'
}

/// A text in lower case. It rests on `str::to_lowercase` only where the text is not
/// of ASCII characters.
pub open spec fn lowered(s: Seq<char>) -> Seq<char> {
    if is_ascii(s) {
        text::ascii_lower_all(s)
    } else {
        lowercase(s)
    }
}

/// `str::to_lowercase`: a function of the text alone. Of ASCII characters it lowers
/// the letters and keeps the rest.
#[verifier::external_body]
fn lowercase_text(s: &str) -> (r: String)
    ensures
        r@ == lowercase(s@),
        is_ascii(s@) ==> r@ == text::ascii_lower_all(s@),
{
    s.to_lowercase()
}

/// A text without the null characters at its end.
pub open spec fn without_nulls(s: Seq<char>) -> Seq<char>
    decreases s.len(),
{
    if s.len() != 0 && s.last() == '\0' {
        without_nulls(s.drop_last())
    } else {
        s
    }
}

fn strip_nulls(s: &str) -> (r: String)
    ensures
        r@ == without_nulls(s@),
{
    let v = text::chars_of(s);
    let mut n: usize = v.len();
    assert(v@.take(n as int) == v@);
    while n > 0 && v[n - 1] == '\0'
        invariant
            n <= v.len(),
            without_nulls(v@.take(n as int)) == without_nulls(v@),
        decreases n,
    {
        assert(v@.take(n as int).drop_last() == v@.take(n - 1));
        n -= 1;
    }
    assert(v@.take(n as int) == v@.subrange(0, n as int));
    text::string_of(vstd::slice::slice_subrange(v.as_slice(), 0, n))
}

/// Whether the text of an entry's buffer, which null characters fill up, is a name.
/// Case does not matter.
pub open spec fn is_name(entry: Seq<char>, name: Seq<char>) -> bool {
    lowered(without_nulls(entry)) == lowered(name)
}

/// An entry of a list of processes or modules: the code units of its name, and its
/// process number or base address.
pub struct Entry {
    pub name: Vec<u16>,
    pub value: u64,
}

/// The value of the first entry, from `i` on, with a name.
pub open spec fn entry_named(entries: Seq<Entry>, name: Seq<char>, i: int) -> Option<u64>
    decreases entries.len() - i,
{
    if i >= entries.len() {
        None
    } else if is_name(unit_text(entries[i].name@), name) {
        Some(entries[i].value)
    } else {
        entry_named(entries, name, i + 1)
    }
}

/// Compares the text of an entry's buffer with a name.
pub fn same_name(entry: &str, name: &str) -> (r: bool)
    ensures
        r == is_name(entry@, name@),
{
    let a = lowercase_text(strip_nulls(entry).as_str());
    let b = lowercase_text(name);
    a == b
}

/// Looks for a process or module by name. Case does not matter.
pub fn find_by_name(entries: &Vec<Entry>, name: &str) -> (r: Option<u64>)
    ensures
        r == entry_named(entries@, name@, 0),
{
    let mut i: usize = 0;
    while i < entries.len()
        invariant
            i <= entries.len(),
            entry_named(entries@, name@, 0) == entry_named(entries@, name@, i as int),
        decreases entries.len() - i,
    {
        let entry = utf16_text(entries[i].name.as_slice());
        if same_name(entry.as_str(), name) {
            return Some(entries[i].value);
        }
        i += 1;
    }
    None
}

/// What the system says of the region around an address.
#[derive(Clone, Copy, Debug)]
pub struct MemInfo {
    pub base: usize,
    pub size: usize,
    pub state: u32,
    pub protect: u32,
    pub kind: u32,
}

/// A region: base, size, protection and type.
#[derive(Clone, Copy, PartialEq, Eq, Debug, Structural)]
pub struct Region {
    pub base: u64,
    pub size: usize,
    pub protect: u32,
    pub kind: u32,
}

/// The protections that allow reading.
pub open spec fn is_readable(protect: u32) -> bool {
    protect == PAGE_READONLY || protect == PAGE_READWRITE || protect == PAGE_WRITECOPY || protect
        == PAGE_EXECUTE_READ || protect == PAGE_EXECUTE_READWRITE || protect
        == PAGE_EXECUTE_WRITECOPY
}

/// Tells whether a protection allows reading.
pub fn readable_protection(protect: u32) -> (r: bool)
    ensures
        r == is_readable(protect),
{
    protect == PAGE_READONLY || protect == PAGE_READWRITE || protect == PAGE_WRITECOPY || protect
        == PAGE_EXECUTE_READ || protect == PAGE_EXECUTE_READWRITE || protect
        == PAGE_EXECUTE_WRITECOPY
}

/// The region that a reply describes, where it is committed, is no guard page, and its
/// protection allows reading. Of the protection the flags are left out.
pub open spec fn region_of(m: MemInfo) -> Option<Region> {
    let protect = m.protect & 0xFF;
    if m.state == MEM_COMMIT && m.protect & PAGE_GUARD == 0 && is_readable(protect) {
        Some(Region { base: m.base as u64, size: m.size, protect, kind: m.kind })
    } else {
        None
    }
}

/// A walk through the memory of a process: the address to ask about next, and the
/// regions found.
pub struct RegionWalk {
    pub addr: usize,
    pub regions: Vec<Region>,
}

impl RegionWalk {
    pub fn new() -> (r: RegionWalk)
        ensures
            r.addr == 0,
            r.regions@ == Seq::<Region>::empty(),
    {
        RegionWalk { addr: 0, regions: Vec::new() }
    }

    /// Takes the reply for the current address, and tells whether the walk goes
    /// on, at a higher address.
    pub fn step(&mut self, reply: MemInfo) -> (r: bool)
        requires
            reply.base + reply.size <= usize::MAX,
        ensures
            final(self).regions@ == old(self).regions@ + bytes::opt_seq(region_of(reply)),
            r == (reply.base + reply.size > old(self).addr),
            final(self).addr == (if r {
                (reply.base + reply.size) as usize
            } else {
                old(self).addr
            }),
    {
        let protect: u32 = reply.protect & 0xFF;
        if reply.state == MEM_COMMIT && reply.protect & PAGE_GUARD == 0 && readable_protection(
            protect,
        ) {
            self.regions.push(
                Region { base: reply.base as u64, size: reply.size, protect, kind: reply.kind },
            );
        }
        assert(self.regions@ == old(self).regions@ + bytes::opt_seq(region_of(reply)));
        let next: usize = reply.base + reply.size;
        if next <= self.addr {
            return false;
        }
        self.addr = next;
        true
    }
}

/// Whether regions stand in order of their addresses, without overlap, below `end`.
pub open spec fn ascending(regions: Seq<Region>, end: int) -> bool {
    &&& forall|i: int, j: int|
        0 <= i < j < regions.len() ==> (#[trigger] regions[i]).base + regions[i].size <= (
        #[trigger] regions[j]).base
    &&& forall|i: int|
        0 <= i < regions.len() ==> (#[trigger] regions[i]).base + regions[i].size <= end
}

/// A walk whose replies begin where it asked lists the regions in order of their
/// addresses, without overlap.
pub proof fn lemma_walk_ascends(regions: Seq<Region>, addr: usize, reply: MemInfo)
    requires
        ascending(regions, addr as int),
        addr <= reply.base,
        reply.base + reply.size <= usize::MAX,
    ensures
        ascending(
            regions + bytes::opt_seq(region_of(reply)),
            reply.base + reply.size,
        ),
{
    let all = regions + bytes::opt_seq(region_of(reply));
    assert forall|i: int| 0 <= i < regions.len() implies #[trigger] all[i] == regions[i] by {}
}

/// The regions of the heap among some regions: base and size.
pub open spec fn heap_of(regions: Seq<Region>) -> Seq<(u64, usize)> {
    regions.filter(|r: Region| r.kind == MEM_PRIVATE).map_values(|r: Region| (r.base, r.size))
}

/// The regions of the heap.
pub fn heap_regions(regions: &Vec<Region>) -> (r: Vec<(u64, usize)>)
    ensures
        r@ == heap_of(regions@),
{
    let ghost p = |r: Region| r.kind == MEM_PRIVATE;
    let ghost f = |r: Region| (r.base, r.size);
    let mut out: Vec<(u64, usize)> = Vec::new();
    let mut i: usize = 0;
    proof {
        reveal(Seq::filter);
        assert(regions@.take(0).filter(p).map_values(f) == out@);
    }
    while i < regions.len()
        invariant
            i <= regions.len(),
            p == (|r: Region| r.kind == MEM_PRIVATE),
            f == (|r: Region| (r.base, r.size)),
            out@ == regions@.take(i as int).filter(p).map_values(f),
        decreases regions.len() - i,
    {
        let ghost before = regions@.take(i as int);
        let r = regions[i];
        proof {
            assert(regions@.take(i + 1) == before.push(r));
            before.lemma_filter_push(r, p);
        }
        if r.kind == MEM_PRIVATE {
            out.push((r.base, r.size));
            assert(out@ == before.filter(p).push(r).map_values(f));
        }
        i += 1;
    }
    assert(regions@.take(i as int) == regions@);
    out
}

/// The most that is read of the heap at once.
pub const CHUNK: usize = 0x400000;

/// The parts in which a region is read, from an offset on: address and length.
pub open spec fn chunks_of(base: u64, size: usize, off: int) -> Seq<(u64, usize)>
    decreases size - off,
{
    if off >= size {
        seq![]
    } else {
        let n = if size - off < CHUNK {
            size - off
        } else {
            CHUNK as int
        };
        seq![((base + off) as u64, n as usize)] + chunks_of(base, size, off + n)
    }
}

pub open spec fn all_chunks(regions: Seq<(u64, usize)>) -> Seq<(u64, usize)>
    decreases regions.len(),
{
    if regions.len() == 0 {
        seq![]
    } else {
        all_chunks(regions.drop_last()) + chunks_of(regions.last().0, regions.last().1, 0)
    }
}

/// The bytes in some parts.
pub open spec fn total(chunks: Seq<(u64, usize)>) -> int
    decreases chunks.len(),
{
    if chunks.len() == 0 {
        0
    } else {
        chunks[0].1 + total(chunks.drop_first())
    }
}

/// The parts of a region follow on one another without gap or overlap, none is
/// empty or too long, and together they are the region.
pub proof fn lemma_chunks_cover(base: u64, size: usize, off: int)
    requires
        0 <= off <= size,
        base + size <= u64::MAX,
    ensures
        ({
            let c = chunks_of(base, size, off);
            &&& total(c) == size - off
            &&& c.len() > 0 ==> c[0].0 == base + off
            &&& forall|i: int| 0 <= i < c.len() ==> 0 < (#[trigger] c[i]).1 <= CHUNK
            &&& forall|i: int, j: int|
                0 <= i < c.len() && j == i + 1 && j < c.len() ==> (#[trigger] c[j]).0 == (
                #[trigger] c[i]).0 + c[i].1
        }),
    decreases size - off,
{
    if off < size {
        let n = if size - off < CHUNK {
            size - off
        } else {
            CHUNK as int
        };
        lemma_chunks_cover(base, size, off + n);
        let rest = chunks_of(base, size, off + n);
        let c = chunks_of(base, size, off);
        assert(c.drop_first() == rest);
        assert forall|i: int| 0 <= i < c.len() implies 0 < (#[trigger] c[i]).1 <= CHUNK by {
            if i > 0 {
                assert(c[i] == rest[i - 1]);
            }
        }
        assert forall|i: int, j: int|
            0 <= i < c.len() && j == i + 1 && j < c.len() implies (#[trigger] c[j]).0 == (
        #[trigger] c[i]).0 + c[i].1 by {
            assert(c[j] == rest[j - 1]);
            if i > 0 {
                assert(c[i] == rest[i - 1]);
            }
        }
    }
}

/// Lists the parts in which the heap is read.
pub fn heap_chunks(regions: &Vec<(u64, usize)>) -> (r: Vec<(u64, usize)>)
    requires
        forall|i: int|
            0 <= i < regions.len() ==> (#[trigger] regions@[i]).0 + regions@[i].1 <= u64::MAX,
    ensures
        r@ == all_chunks(regions@),
{
    let mut out: Vec<(u64, usize)> = Vec::new();
    let mut i: usize = 0;
    while i < regions.len()
        invariant
            i <= regions.len(),
            forall|i: int|
                0 <= i < regions.len() ==> (#[trigger] regions@[i]).0 + regions@[i].1 <= u64::MAX,
            out@ == all_chunks(regions@.take(i as int)),
        decreases regions.len() - i,
    {
        let (base, size) = regions[i];
        let ghost before = out@;
        proof {
            assert(regions@.take(i + 1).drop_last() == regions@.take(i as int));
            assert(regions@.take(i + 1).last() == (base, size));
        }
        let mut off: usize = 0;
        while off < size
            invariant
                off <= size,
                base + size <= u64::MAX,
                out@ + chunks_of(base, size, off as int) == before + chunks_of(base, size, 0),
            decreases size - off,
        {
            let n: usize = if size - off < CHUNK {
                size - off
            } else {
                CHUNK
            };
            let ghost now = out@;
            out.push((base + off as u64, n));
            assert(out@ + chunks_of(base, size, off + n) == now + (seq![
                ((base + off) as u64, n),
            ] + chunks_of(base, size, off + n)));
            off += n;
        }
        assert(out@ + Seq::<(u64, usize)>::empty() == out@);
        i += 1;
    }
    assert(regions@.take(i as int) == regions@);
    out
}

/// Whether a block holds nothing but zeros, and is skipped.
pub fn is_blank(data: &[u8]) -> (r: bool)
    ensures
        r == (forall|i: int| 0 <= i < data@.len() ==> data@[i] == 0),
{
    let mut i: usize = 0;
    while i < data.len()
        invariant
            i <= data.len(),
            forall|k: int| 0 <= k < i ==> data@[k] == 0,
        decreases data.len() - i,
    {
        if data[i] != 0 {
            assert(data@[i as int] != 0);
            return false;
        }
        i += 1;
    }
    true
}

/// The 32-bit value in memory that was read.
pub fn read_u32(bytes: Option<Vec<u8>>) -> (r: Option<u32>)
    requires
        bytes matches Some(b) ==> b@.len() >= 4,
    ensures
        match bytes {
            Some(b) => r matches Some(v) && v == bytes::le_value(b@.take(4)),
            None => r is None,
        },
{
    match bytes {
        Some(b) => {
            let v: u32 = bytes::u32_at(b.as_slice(), 0);
            assert(b@.subrange(0, 4) == b@.take(4));
            Some(v)
        },
        None => None,
    }
}

/// The 64-bit value in memory that was read.
pub fn read_u64(bytes: Option<Vec<u8>>) -> (r: Option<u64>)
    requires
        bytes matches Some(b) ==> b@.len() == 8,
    ensures
        match bytes {
            Some(b) => r matches Some(v) && v == bytes::le_value(b@),
            None => r is None,
        },
{
    match bytes {
        Some(b) => {
            let v: u64 = bytes::u64_at(b.as_slice(), 0);
            assert(b@.subrange(0, 8) == b@);
            Some(v)
        },
        None => None,
    }
}

/// How many of some writes succeeded.
pub open spec fn successes(results: Seq<bool>) -> int
    decreases results.len(),
{
    if results.len() == 0 {
        0
    } else {
        successes(results.drop_last()) + if results.last() {
            1int
        } else {
            0
        }
    }
}

/// Counts the writes that succeeded.
pub fn count_written(results: &Vec<bool>) -> (r: usize)
    ensures
        r == successes(results@),
{
    let mut n: usize = 0;
    let mut i: usize = 0;
    while i < results.len()
        invariant
            i <= results.len(),
            n <= i,
            n == successes(results@.take(i as int)),
        decreases results.len() - i,
    {
        assert(results@.take(i + 1).drop_last() == results@.take(i as int));
        if results[i] {
            n += 1;
        }
        i += 1;
    }
    assert(results@.take(i as int) == results@);
    n
}

/// A region is kept where it can be read: it is committed, 0x1000, is no guard page, and
/// the low byte of its protection is one of the six that allow reading. It is kept with its
/// place, its size and its kind.
pub proof fn lemma_region_is_kept(m: MemInfo)
    ensures
        ({
            let p = m.protect & 0xFF;
            let keep = m.state == 0x1000 && m.protect & 0x100 == 0 && (p == 2 || p == 4 || p == 8
                || p == 0x20 || p == 0x40 || p == 0x80);
            &&& region_of(m) is Some <==> keep
            &&& keep ==> region_of(m)->0.base == m.base && region_of(m)->0.size == m.size
                && region_of(m)->0.kind == m.kind && region_of(m)->0.protect == p
        }),
{
}

/// The heap is the private regions, 0x20000, in order, and nothing else.
pub proof fn lemma_heap_is_private(regions: Seq<Region>, i: int)
    requires
        0 <= i < regions.len(),
    ensures
        regions[i].kind == 0x20000 ==> heap_of(regions).contains((regions[i].base, regions[i].size)),
        forall|j: int|
            0 <= j < heap_of(regions).len() ==> exists|k: int|
                0 <= k < regions.len() && (#[trigger] regions[k]).kind == 0x20000
                    && #[trigger] heap_of(regions)[j] == (regions[k].base, regions[k].size),
        regions.last().kind == 0x20000 ==> heap_of(regions) == heap_of(regions.drop_last()).push(
            (regions.last().base, regions.last().size),
        ),
        regions.last().kind != 0x20000 ==> heap_of(regions) == heap_of(regions.drop_last()),
{
    let f = |r: Region| r.kind == MEM_PRIVATE;
    let g = |r: Region| (r.base, r.size);
    let kept = regions.filter(f);
    let heap = heap_of(regions);
    if regions[i].kind == 0x20000 {
        assert(f(regions[i]));
        regions.lemma_filter_contains(f, i);
        assert(kept.contains(regions[i]));
        let j = kept.index_of(regions[i]);
        assert(heap[j] == (regions[i].base, regions[i].size));
    }
    assert forall|j: int| 0 <= j < heap.len() implies exists|k: int|
        0 <= k < regions.len() && (#[trigger] regions[k]).kind == 0x20000 && #[trigger] heap[j] == (
        regions[k].base,
        regions[k].size,
    ) by {
        regions.lemma_filter_pred(f, j);
        assert(kept.contains(kept[j]));
        regions.lemma_filter_contains_rev(f, kept[j]);
        let k = regions.index_of(kept[j]);
        assert(regions[k].kind == 0x20000);
    }
    let t = regions.drop_last();
    assert(regions =~= t.push(regions.last()));
    t.lemma_filter_push(regions.last(), f);
    if f(regions.last()) {
        assert(heap =~= heap_of(t).push((regions.last().base, regions.last().size)));
    } else {
        assert(heap =~= heap_of(t));
    }
}

/// An entry is found by its name: the first whose name, without the zeros at its end, is the
/// wanted one but for the case of ASCII letters. Where none is, nothing is found.
pub proof fn lemma_found_by_name(entries: Seq<Entry>, name: Seq<char>, from: int, i: int)
    requires
        0 <= from <= i <= entries.len(),
        forall|j: int| from <= j < i ==> !is_name(unit_text((#[trigger] entries[j]).name@), name),
        i < entries.len() ==> is_name(unit_text(entries[i].name@), name),
    ensures
        i < entries.len() ==> entry_named(entries, name, from) == Some(entries[i].value),
        i == entries.len() ==> entry_named(entries, name, from) is None,
    decreases i - from,
{
    if from < i {
        assert(!is_name(unit_text(entries[from].name@), name));
        lemma_found_by_name(entries, name, from + 1, i);
    }
}

/// Names are the same whatever the case of their ASCII letters, and with any zeros behind
/// the one of an entry; two ASCII names that differ otherwise are not.
pub proof fn lemma_same_name(a: Seq<char>, b: Seq<char>, zeros: Seq<char>)
    requires
        is_ascii(a),
        is_ascii(b),
        a.len() > 0 ==> a.last() != '\0',
        forall|i: int| 0 <= i < zeros.len() ==> #[trigger] zeros[i] == '\0',
    ensures
        is_name(a + zeros, b) <==> a.len() == b.len() && forall|i: int|
            0 <= i < a.len() ==> text::ascii_lower(#[trigger] a[i]) == text::ascii_lower(b[i]),
    decreases zeros.len(),
{
    let s = a + zeros;
    if zeros.len() > 0 {
        assert(zeros[zeros.len() - 1] == '\0');
        assert(s.last() == '\0');
        assert(s.drop_last() =~= a + zeros.drop_last());
        lemma_same_name(a, b, zeros.drop_last());
    } else {
        assert(s =~= a);
        let x = text::ascii_lower_all(a);
        let y = text::ascii_lower_all(b);
        if a.len() == b.len() && forall|i: int|
            0 <= i < a.len() ==> text::ascii_lower(#[trigger] a[i]) == text::ascii_lower(b[i]) {
            assert(x =~= y);
        }
        if x == y {
            assert(x.len() == a.len() && y.len() == b.len());
            assert forall|i: int| 0 <= i < a.len() implies text::ascii_lower(#[trigger] a[i])
                == text::ascii_lower(b[i]) by {
                assert(x[i] == y[i]);
            }
        }
    }
}

/// The blocks of the heap cover it: each address of a region lies in one of its blocks, and
/// no block has more than four megabytes.
pub proof fn lemma_chunks_reach(base: u64, size: usize, off: int, x: int)
    requires
        0 <= off <= x < size,
        base + size <= u64::MAX,
    ensures
        exists|i: int|
            0 <= i < chunks_of(base, size, off).len() && (#[trigger] chunks_of(base, size, off)[i]).0
                <= base + x < chunks_of(base, size, off)[i].0 + chunks_of(base, size, off)[i].1
                && chunks_of(base, size, off)[i].1 <= 0x400000,
    decreases size - off,
{
    let n = if size - off < 0x400000 {
        size - off
    } else {
        0x400000
    };
    let all = chunks_of(base, size, off);
    assert(all[0] == ((base + off) as u64, n as usize));
    if x >= off + n {
        lemma_chunks_reach(base, size, off + n, x);
        let rest = chunks_of(base, size, off + n);
        let i = choose|i: int|
            0 <= i < rest.len() && (#[trigger] rest[i]).0 <= base + x < rest[i].0 + rest[i].1
                && rest[i].1 <= 0x400000;
        assert(all[i + 1] == rest[i]);
    } else {
        assert(all[0].0 <= base + x < all[0].0 + all[0].1);
    }
}

/// The blocks of several regions are those of each, one region after the other.
pub proof fn lemma_chunks_of_each(regions: Seq<(u64, usize)>, r: (u64, usize))
    ensures
        all_chunks(regions.push(r)) == all_chunks(regions) + chunks_of(r.0, r.1, 0),
        all_chunks(Seq::<(u64, usize)>::empty()).len() == 0,
{
    assert(regions.push(r).drop_last() =~= regions);
}

/// Writes are counted one by one: a success counts one, a failure nothing.
pub proof fn lemma_successes(results: Seq<bool>, last: bool)
    ensures
        successes(results.push(last)) == successes(results) + (if last {
            1int
        } else {
            0
        }),
        successes(Seq::<bool>::empty()) == 0,
        0 <= successes(results) <= results.len(),
        (forall|i: int| 0 <= i < results.len() ==> results[i]) ==> successes(results)
            == results.len(),
    decreases results.len(),
{
    assert(results.push(last).drop_last() =~= results);
    if results.len() > 0 {
        let t = results.drop_last();
        lemma_successes(t, results.last());
        assert(results =~= t.push(results.last()));
        if forall|i: int| 0 <= i < results.len() ==> results[i] {
            assert forall|i: int| 0 <= i < t.len() implies t[i] by {
                assert(results[i]);
            }
            assert(results[results.len() - 1]);
        }
    }
}

/// Units that are no halves of a pair are characters, one for one.
pub proof fn lemma_units_are_chars(units: Seq<u16>, i: int)
    requires
        0 <= i < units.len(),
        forall|k: int|
            0 <= k < units.len() ==> !(0xD800 <= #[trigger] units[k] <= 0xDFFF),
    ensures
        unit_text(units).len() == units.len(),
        unit_text(units)[i] as u32 == units[i],
{
    assert(!(0xD800 <= units[i] <= 0xDFFF));
    assert forall|k: int| 0 <= k < units.len() implies #[trigger] units[k] < 0xD800 || units[k]
        >= 0xE000 by {
        assert(!(0xD800 <= units[k] <= 0xDFFF));
    }
    lemma_unit_char(units[i]);
}

proof fn lemma_unit_char(u: u16)
    requires
        !(0xD800 <= u <= 0xDFFF),
    ensures
        (u as char) as u32 == u,
{
}

} // verus!
