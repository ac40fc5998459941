//! What is known of a process's memory.
//!
//! Code that follows pointers does not touch memory itself. It works on a
//! snapshot, and where the snapshot lacks something it says what it needs; the
//! caller looks it up, adds it and tries again.
use vstd::prelude::*;
use vstd::slice::slice_subrange;

use crate::bytes;
use crate::memory;
use crate::memory::MemInfo;

verus! {

/// Something that is not known yet.
#[derive(Clone, Copy, PartialEq, Eq, Debug, Structural)]
pub enum Need {
    /// What the system says of the region around an address.
    Query(usize),
    /// The bytes from an address on, as many as the number says.
    Bytes(usize, usize),
    /// The bytes from an address on, up to the first zero or as many as a string
    /// may have.
    Text(usize),
}

/// What was looked up, oldest first.
pub struct Snapshot {
    queries: Vec<(usize, Option<MemInfo>)>,
    bytes: Vec<(usize, Vec<u8>)>,
    texts: Vec<(usize, Vec<u8>)>,
}

/// The content of a [`Snapshot`].
pub ghost struct Known {
    pub queries: Seq<(usize, Option<MemInfo>)>,
    pub bytes: Seq<(usize, Seq<u8>)>,
    pub texts: Seq<(usize, Seq<u8>)>,
}

pub open spec fn block_views(v: Seq<(usize, Vec<u8>)>) -> Seq<(usize, Seq<u8>)> {
    v.map_values(|p: (usize, Vec<u8>)| (p.0, p.1@))
}

impl View for Snapshot {
    type V = Known;

    closed spec fn view(&self) -> Known {
        Known {
            queries: self.queries@,
            bytes: block_views(self.bytes@),
            texts: block_views(self.texts@),
        }
    }
}

/// The reply recorded for an address, from entry `i` on; the system may have had
/// nothing to say of it.
pub open spec fn reply_from(
    v: Seq<(usize, Option<MemInfo>)>,
    addr: usize,
    i: int,
) -> Option<Option<MemInfo>>
    decreases v.len() - i,
{
    if i >= v.len() {
        None
    } else if v[i].0 == addr {
        Some(v[i].1)
    } else {
        reply_from(v, addr, i + 1)
    }
}

/// Whether a block holds `len` bytes from `addr` on.
pub open spec fn holds(block: (usize, Seq<u8>), addr: usize, len: usize) -> bool {
    block.0 <= addr && addr + len <= block.0 + block.1.len()
}

/// The bytes from `addr` on in the first block, from block `i` on, that has them.
pub open spec fn bytes_from(
    v: Seq<(usize, Seq<u8>)>,
    addr: usize,
    len: usize,
    i: int,
) -> Option<Seq<u8>>
    decreases v.len() - i,
{
    if i >= v.len() {
        None
    } else if holds(v[i], addr, len) {
        Some(v[i].1.subrange(addr - v[i].0, addr - v[i].0 + len))
    } else {
        bytes_from(v, addr, len, i + 1)
    }
}

pub open spec fn text_from(v: Seq<(usize, Seq<u8>)>, addr: usize, i: int) -> Option<Seq<u8>>
    decreases v.len() - i,
{
    if i >= v.len() {
        None
    } else if v[i].0 == addr {
        Some(v[i].1)
    } else {
        text_from(v, addr, i + 1)
    }
}

/// What the system says of an address.
pub open spec fn reply_at(k: Known, addr: usize) -> Result<Option<MemInfo>, Need> {
    match reply_from(k.queries, addr, 0) {
        Some(r) => Ok(r),
        None => Err(Need::Query(addr)),
    }
}

/// The bytes at an address.
pub open spec fn bytes_at(k: Known, addr: usize, len: usize) -> Result<Seq<u8>, Need> {
    match bytes_from(k.bytes, addr, len, 0) {
        Some(b) => Ok(b),
        None => Err(Need::Bytes(addr, len)),
    }
}

/// The bytes of a string at an address.
pub open spec fn text_at(k: Known, addr: usize) -> Result<Seq<u8>, Need> {
    match text_from(k.texts, addr, 0) {
        Some(b) => Ok(b),
        None => Err(Need::Text(addr)),
    }
}

pub open spec fn view_bytes(r: Result<Vec<u8>, Need>) -> Result<Seq<u8>, Need> {
    match r {
        Ok(v) => Ok(v@),
        Err(n) => Err(n),
    }
}

impl Snapshot {
    pub fn new() -> (r: Snapshot)
        ensures
            r@ == (Known { queries: seq![], bytes: seq![], texts: seq![] }),
    {
        let r = Snapshot { queries: Vec::new(), bytes: Vec::new(), texts: Vec::new() };
        assert(r@.bytes == Seq::<(usize, Seq<u8>)>::empty());
        assert(r@.texts == Seq::<(usize, Seq<u8>)>::empty());
        r
    }

    pub fn add_reply(&mut self, addr: usize, reply: Option<MemInfo>)
        ensures
            final(self)@ == (Known { queries: old(self)@.queries.push((addr, reply)), ..old(self)@
            }),
    {
        self.queries.push((addr, reply));
    }

    pub fn add_bytes(&mut self, addr: usize, data: Vec<u8>)
        ensures
            final(self)@ == (Known { bytes: old(self)@.bytes.push((addr, data@)), ..old(self)@ }),
    {
        let ghost before = self@.bytes;
        let ghost d = data@;
        self.bytes.push((addr, data));
        assert(self@.bytes == before.push((addr, d)));
    }

    pub fn add_text(&mut self, addr: usize, data: Vec<u8>)
        ensures
            final(self)@ == (Known { texts: old(self)@.texts.push((addr, data@)), ..old(self)@ }),
    {
        let ghost before = self@.texts;
        let ghost d = data@;
        self.texts.push((addr, data));
        assert(self@.texts == before.push((addr, d)));
    }

    /// What the system says of an address.
    pub fn reply(&self, addr: usize) -> (r: Result<Option<MemInfo>, Need>)
        ensures
            r == reply_at(self@, addr),
    {
        let mut i: usize = 0;
        while i < self.queries.len()
            invariant
                i <= self.queries.len(),
                reply_from(self@.queries, addr, 0) == reply_from(self@.queries, addr, i as int),
            decreases self.queries.len() - i,
        {
            if self.queries[i].0 == addr {
                return Ok(self.queries[i].1);
            }
            i += 1;
        }
        Err(Need::Query(addr))
    }

    /// The bytes at an address.
    pub fn read(&self, addr: usize, len: usize) -> (r: Result<Vec<u8>, Need>)
        ensures
            view_bytes(r) == bytes_at(self@, addr, len),
            r matches Ok(v) ==> v@.len() == len,
    {
        let ghost v = self@.bytes;
        let mut i: usize = 0;
        while i < self.bytes.len()
            invariant
                i <= self.bytes.len(),
                v == self@.bytes,
                bytes_from(v, addr, len, 0) == bytes_from(v, addr, len, i as int),
            decreases self.bytes.len() - i,
        {
            let b = &self.bytes[i];
            assert(v[i as int] == (b.0, b.1@));
            if b.0 <= addr && addr - b.0 <= b.1.len() && len <= b.1.len() - (addr - b.0) {
                let at: usize = addr - b.0;
                let part = slice_subrange(b.1.as_slice(), at, at + len);
                return Ok(bytes::copy_of(part));
            }
            i += 1;
        }
        Err(Need::Bytes(addr, len))
    }

    /// The bytes of a string at an address.
    pub fn text(&self, addr: usize) -> (r: Result<Vec<u8>, Need>)
        ensures
            view_bytes(r) == text_at(self@, addr),
    {
        let ghost v = self@.texts;
        let mut i: usize = 0;
        while i < self.texts.len()
            invariant
                i <= self.texts.len(),
                v == self@.texts,
                text_from(v, addr, 0) == text_from(v, addr, i as int),
            decreases self.texts.len() - i,
        {
            let b = &self.texts[i];
            assert(v[i as int] == (b.0, b.1@));
            if b.0 == addr {
                return Ok(bytes::copy_of(b.1.as_slice()));
            }
            i += 1;
        }
        Err(Need::Text(addr))
    }
}

/// Whether a snapshot answers a need.
pub open spec fn answers(k: Known, need: Need) -> bool {
    match need {
        Need::Query(a) => reply_at(k, a) is Ok,
        Need::Bytes(a, n) => bytes_at(k, a, n) is Ok,
        Need::Text(a) => text_at(k, a) is Ok,
    }
}

proof fn lemma_reply_pushed(
    v: Seq<(usize, Option<MemInfo>)>,
    x: (usize, Option<MemInfo>),
    a: usize,
    i: int,
)
    requires
        0 <= i <= v.len(),
    ensures
        reply_from(v, a, i) is Some ==> reply_from(v.push(x), a, i) == reply_from(v, a, i),
        a == x.0 ==> reply_from(v.push(x), a, i) is Some,
    decreases v.len() - i,
{
    if i < v.len() {
        lemma_reply_pushed(v, x, a, i + 1);
    }
}

proof fn lemma_bytes_pushed(
    v: Seq<(usize, Seq<u8>)>,
    x: (usize, Seq<u8>),
    a: usize,
    n: usize,
    i: int,
)
    requires
        0 <= i <= v.len(),
    ensures
        bytes_from(v, a, n, i) is Some ==> bytes_from(v.push(x), a, n, i) == bytes_from(v, a, n, i),
        holds(x, a, n) ==> bytes_from(v.push(x), a, n, i) is Some,
    decreases v.len() - i,
{
    if i < v.len() {
        lemma_bytes_pushed(v, x, a, n, i + 1);
    }
}

proof fn lemma_text_pushed(v: Seq<(usize, Seq<u8>)>, x: (usize, Seq<u8>), a: usize, i: int)
    requires
        0 <= i <= v.len(),
    ensures
        text_from(v, a, i) is Some ==> text_from(v.push(x), a, i) == text_from(v, a, i),
        a == x.0 ==> text_from(v.push(x), a, i) is Some,
    decreases v.len() - i,
{
    if i < v.len() {
        lemma_text_pushed(v, x, a, i + 1);
    }
}

/// Once looked up, a need is answered.
pub proof fn lemma_looked_up(k: Known, addr: usize, reply: Option<MemInfo>, data: Seq<u8>)
    ensures
        answers(Known { queries: k.queries.push((addr, reply)), ..k }, Need::Query(addr)),
        answers(Known { texts: k.texts.push((addr, data)), ..k }, Need::Text(addr)),
        data.len() <= usize::MAX ==> answers(
            Known { bytes: k.bytes.push((addr, data)), ..k },
            Need::Bytes(addr, data.len() as usize),
        ),
{
    lemma_reply_pushed(k.queries, (addr, reply), addr, 0);
    lemma_text_pushed(k.texts, (addr, data), addr, 0);
    lemma_bytes_pushed(k.bytes, (addr, data), addr, data.len() as usize, 0);
}

/// What was known stays known, as it was, when more is looked up.
pub proof fn lemma_stays_known(
    k: Known,
    x: (usize, Option<MemInfo>),
    y: (usize, Seq<u8>),
    z: (usize, Seq<u8>),
    a: usize,
    n: usize,
)
    ensures
        ({
            let more = Known {
                queries: k.queries.push(x),
                bytes: k.bytes.push(y),
                texts: k.texts.push(z),
            };
            &&& reply_at(k, a) is Ok ==> reply_at(more, a) == reply_at(k, a)
            &&& bytes_at(k, a, n) is Ok ==> bytes_at(more, a, n) == bytes_at(k, a, n)
            &&& text_at(k, a) is Ok ==> text_at(more, a) == text_at(k, a)
        }),
{
    lemma_reply_pushed(k.queries, x, a, 0);
    lemma_bytes_pushed(k.bytes, y, a, n, 0);
    lemma_text_pushed(k.texts, z, a, 0);
}

/// Whether a region, of which the system says `m`, lets `len` bytes be read from
/// `p` on: it is committed, its protection allows reading, and it holds them all.
pub open spec fn lets_read(m: MemInfo, p: usize, len: usize) -> bool {
    &&& m.state == memory::MEM_COMMIT
    &&& memory::is_readable(m.protect)
    &&& m.base <= p
    &&& p + len <= m.base + m.size <= usize::MAX
}

/// Whether `len` bytes can be read from `p` on.
pub open spec fn readable(k: Known, p: usize, len: usize) -> Result<bool, Need> {
    if len == 0 {
        Ok(true)
    } else {
        match reply_at(k, p) {
            Err(n) => Err(n),
            Ok(None) => Ok(false),
            Ok(Some(m)) => Ok(lets_read(m, p, len)),
        }
    }
}

/// Whether what the system says of an address lets memory be read there.
pub fn range_readable(reply: Option<MemInfo>, p: usize, len: usize) -> (r: bool)
    ensures
        r == (len == 0 || (reply matches Some(m) && lets_read(m, p, len))),
{
    if len == 0 {
        return true;
    }
    let m = match reply {
        Some(m) => m,
        None => {
            return false;
        },
    };
    if m.state != memory::MEM_COMMIT {
        return false;
    }
    let ok = memory::readable_protection(m.protect);
    let end: usize = match p.checked_add(len) {
        Some(e) => e,
        None => {
            return false;
        },
    };
    let region_end: usize = match m.base.checked_add(m.size) {
        Some(e) => e,
        None => {
            return false;
        },
    };
    ok && p >= m.base && end <= region_end
}

/// Whether `len` bytes can be read from `p` on.
pub fn mem_readable(p: usize, len: usize, snap: &Snapshot) -> (r: Result<bool, Need>)
    ensures
        r == readable(snap@, p, len),
{
    if len == 0 {
        return Ok(true);
    }
    match snap.reply(p) {
        Ok(m) => Ok(range_readable(m, p, len)),
        Err(n) => Err(n),
    }
}

/// Whether a slot is backed by storage.
pub fn mem_committed(reply: Option<MemInfo>) -> (r: bool)
    ensures
        r == (reply matches Some(m) && m.state == memory::MEM_COMMIT),
{
    match reply {
        Some(m) => m.state == memory::MEM_COMMIT,
        None => false,
    }
}

/// Whether a pointer may be followed: it is not null, does not lie in the lowest
/// pages, and its target can be read.
pub open spec fn safe(p: u64, readable: bool) -> bool {
    p >= 0x10000 && readable
}

pub fn ptr_safe(p: u64, readable: bool) -> (r: bool)
    ensures
        r == safe(p, readable),
{
    p != 0 && p >= 0x10000 && readable
}

/// Whether what is known agrees with a memory and with what the system says of it.
pub open spec fn agrees(
    k: Known,
    mem: spec_fn(int) -> u8,
    says: spec_fn(usize) -> Option<MemInfo>,
) -> bool {
    &&& forall|i: int, j: int|
        0 <= i < k.bytes.len() && 0 <= j < k.bytes[i].1.len() ==> #[trigger] k.bytes[i].1[j] == mem(
            k.bytes[i].0 + j,
        )
    &&& forall|i: int| 0 <= i < k.queries.len() ==> (#[trigger] k.queries[i]).1 == says(
            k.queries[i].0,
        )
}

proof fn lemma_bytes_from(
    v: Seq<(usize, Seq<u8>)>,
    mem: spec_fn(int) -> u8,
    addr: usize,
    len: usize,
    from: int,
)
    requires
        0 <= from,
        forall|i: int, j: int|
            0 <= i < v.len() && 0 <= j < v[i].1.len() ==> #[trigger] v[i].1[j] == mem(v[i].0 + j),
    ensures
        match bytes_from(v, addr, len, from) {
            Some(b) => b.len() == len && forall|j: int|
                0 <= j < len ==> #[trigger] b[j] == mem(addr + j),
            None => forall|i: int|
                from <= i < v.len() ==> !((#[trigger] v[i]).0 <= addr && addr + len <= v[i].0
                    + v[i].1.len()),
        },
    decreases v.len() - from,
{
    if from < v.len() {
        if holds(v[from], addr, len) {
            let b = bytes_from(v, addr, len, from)->0;
            let d = addr - v[from].0;
            assert forall|j: int| 0 <= j < len implies #[trigger] b[j] == mem(addr + j) by {
                assert(b[j] == v[from].1[d + j]);
                assert(v[from].0 + (d + j) == addr + j);
            }
        } else {
            lemma_bytes_from(v, mem, addr, len, from + 1);
        }
    }
}

proof fn lemma_reply_from(
    v: Seq<(usize, Option<MemInfo>)>,
    says: spec_fn(usize) -> Option<MemInfo>,
    addr: usize,
    from: int,
)
    requires
        0 <= from,
        forall|i: int| 0 <= i < v.len() ==> (#[trigger] v[i]).1 == says(v[i].0),
    ensures
        match reply_from(v, addr, from) {
            Some(r) => r == says(addr),
            None => forall|i: int| from <= i < v.len() ==> (#[trigger] v[i]).0 != addr,
        },
    decreases v.len() - from,
{
    if from < v.len() && v[from].0 != addr {
        lemma_reply_from(v, says, addr, from + 1);
    }
}

/// What is looked up is what the memory holds: bytes that are known are the bytes at those
/// addresses, and they are known wherever one block covers them; what the system said of
/// an address is known once it was asked. What is not known is asked for, just so.
pub proof fn lemma_known_is_memory(
    k: Known,
    mem: spec_fn(int) -> u8,
    says: spec_fn(usize) -> Option<MemInfo>,
    addr: usize,
    len: usize,
    i: int,
)
    requires
        agrees(k, mem, says),
    ensures
        match bytes_at(k, addr, len) {
            Ok(b) => b.len() == len && forall|j: int|
                0 <= j < len ==> #[trigger] b[j] == mem(addr + j),
            Err(n) => n == Need::Bytes(addr, len),
        },
        0 <= i < k.bytes.len() && k.bytes[i].0 <= addr && addr + len <= k.bytes[i].0
            + k.bytes[i].1.len() ==> bytes_at(k, addr, len) is Ok,
        match reply_at(k, addr) {
            Ok(r) => r == says(addr),
            Err(n) => n == Need::Query(addr),
        },
        0 <= i < k.queries.len() && k.queries[i].0 == addr ==> reply_at(k, addr) is Ok,
{
    lemma_bytes_from(k.bytes, mem, addr, len, 0);
    lemma_reply_from(k.queries, says, addr, 0);
}

/// A string is known once it was read, as the first reading gave it.
pub proof fn lemma_known_text(k: Known, addr: usize, i: int)
    requires
        0 <= i < k.texts.len(),
        k.texts[i].0 == addr,
        forall|j: int| 0 <= j < i ==> (#[trigger] k.texts[j]).0 != addr,
    ensures
        text_at(k, addr) == Ok::<Seq<u8>, Need>(k.texts[i].1),
{
    lemma_text_from(k.texts, addr, 0, i);
}

proof fn lemma_text_from(v: Seq<(usize, Seq<u8>)>, addr: usize, from: int, i: int)
    requires
        0 <= from <= i < v.len(),
        v[i].0 == addr,
        forall|j: int| from <= j < i ==> (#[trigger] v[j]).0 != addr,
    ensures
        text_from(v, addr, from) == Some(v[i].1),
    decreases i - from,
{
    if from < i {
        assert(v[from].0 != addr);
        lemma_text_from(v, addr, from + 1, i);
    }
}

/// Memory may be read where the system says so: the whole range lies in one region that is
/// committed, 0x1000, and whose protection is one of the six that allow reading. Where the
/// system says nothing it may not, and of nothing at all it always may.
pub proof fn lemma_readable(k: Known, p: usize, len: usize)
    ensures
        len == 0 ==> readable(k, p, len) == Ok::<bool, Need>(true),
        len > 0 && reply_at(k, p) is Err ==> readable(k, p, len) is Err,
        len > 0 && reply_at(k, p) is Ok && reply_at(k, p)->Ok_0 is None ==> readable(k, p, len)
            == Ok::<bool, Need>(false),
        len > 0 && reply_at(k, p) is Ok && reply_at(k, p)->Ok_0 is Some ==> readable(k, p, len)
            == Ok::<bool, Need>(
            {
                let m = reply_at(k, p)->Ok_0->0;
                &&& m.state == 0x1000
                &&& m.protect == 2 || m.protect == 4 || m.protect == 8 || m.protect == 0x20
                    || m.protect == 0x40 || m.protect == 0x80
                &&& m.base <= p
                &&& p + len <= m.base + m.size
                &&& m.base + m.size <= usize::MAX
            },
        ),
        forall|r: bool| p <= u64::MAX ==> #[trigger] safe(p as u64, r) == (r && p >= 0x10000),
{
}

/// A string that was not read yet is asked for.
pub proof fn lemma_unknown_text(k: Known, addr: usize)
    ensures
        text_at(k, addr) is Err ==> text_at(k, addr) == Err::<Seq<u8>, Need>(Need::Text(addr)),
{
}

/// Bytes that were looked up are read as they stand.
pub proof fn lemma_view_bytes(v: Vec<u8>, n: Need)
    ensures
        view_bytes(Ok(v)) == Ok::<Seq<u8>, Need>(v@),
        view_bytes(Err(n)) == Err::<Seq<u8>, Need>(n),
{
}

} // verus!
