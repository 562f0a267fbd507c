use vstd::layout::{layout_of_primitives, size_of};
use vstd::prelude::*;
use vstd::utf8::encode_utf8;
use crate::error::BufferError;
use crate::text::views;

verus! {

broadcast use layout_of_primitives;

/// The region that a caller has handed over, as the packer sees it: the address of
/// its first byte, its bytes, how many of them are written, and the byte order of
/// the machine.
pub struct BufferView {
    pub base: int,
    pub data: Seq<u8>,
    pub offset: int,
    pub big_endian: bool,
}

impl BufferView {
    /// The write offset lies in the region, and the region in the address space.
    pub open spec fn wf(self) -> bool {
        &&& 0 <= self.offset <= self.data.len()
        &&& 0 <= self.base
        &&& self.base + self.data.len() <= usize::MAX
    }
}

/// `data` with `bytes` in the place of what it held from `at` on.
pub open spec fn overwrite(data: Seq<u8>, at: int, bytes: Seq<u8>) -> Seq<u8> {
    data.take(at) + bytes + data.skip(at + bytes.len())
}

/// The bytes of a C string: the text in UTF-8, and a NUL byte.
pub open spec fn c_string(s: Seq<char>) -> Seq<u8> {
    encode_utf8(s).push(0u8)
}

/// The region after `bytes` are written at `at`, which is the new start of what is
/// free or lies beyond it; nothing where they do not fit.
pub open spec fn put_bytes(b: BufferView, at: int, bytes: Seq<u8>) -> Option<BufferView> {
    if at + bytes.len() > b.data.len() {
        None
    } else {
        Some(
            BufferView { data: overwrite(b.data, at, bytes), offset: at + bytes.len(), ..b },
        )
    }
}

/// The region after a string is written at the write offset.
pub open spec fn put_string(b: BufferView, s: Seq<char>) -> Option<BufferView> {
    put_bytes(b, b.offset, c_string(s))
}

/// The number of bytes of a pointer.
pub open spec fn pointer_size() -> nat {
    size_of::<usize>()
}

/// The first multiple of `step` that is not below `offset`.
pub open spec fn align_up(offset: int, step: int) -> int {
    if offset % step == 0 {
        offset
    } else {
        offset + (step - offset % step)
    }
}

/// The `width` low bytes of `v`, the lowest first.
pub open spec fn le_bytes(v: nat, width: nat) -> Seq<u8>
    decreases width,
{
    if width == 0 {
        Seq::empty()
    } else {
        seq![(v % 256) as u8] + le_bytes(v / 256, (width - 1) as nat)
    }
}

/// An address as it lies in memory.
pub open spec fn pointer_bytes(v: usize, big_endian: bool) -> Seq<u8> {
    if big_endian {
        le_bytes(v as nat, pointer_size()).reverse()
    } else {
        le_bytes(v as nat, pointer_size())
    }
}

/// The addresses as they lie in memory, one after the other.
pub open spec fn pointer_run(ptrs: Seq<usize>, big_endian: bool) -> Seq<u8>
    decreases ptrs.len(),
{
    if ptrs.len() == 0 {
        Seq::empty()
    } else {
        pointer_run(ptrs.drop_last(), big_endian) + pointer_bytes(ptrs.last(), big_endian)
    }
}

/// A pointer array: the addresses, and a null pointer that ends them.
pub open spec fn pointer_array(ptrs: Seq<usize>, big_endian: bool) -> Seq<u8> {
    pointer_run(ptrs, big_endian) + pointer_bytes(0, big_endian)
}

/// The region after a pointer array is written at the first place from the write
/// offset on that is aligned for a pointer. What lies between stays as it is.
pub open spec fn put_pointers(b: BufferView, ptrs: Seq<usize>) -> Option<BufferView> {
    put_bytes(b, align_up(b.offset, pointer_size() as int), pointer_array(ptrs, b.big_endian))
}

/// The region after the strings are written one after the other, as far as they
/// fit, and the addresses of those that did.
pub open spec fn put_strings(b: BufferView, ss: Seq<Seq<char>>) -> (BufferView, Seq<usize>)
    decreases ss.len(),
{
    if ss.len() == 0 {
        (b, Seq::empty())
    } else {
        let (mid, addrs) = put_strings(b, ss.drop_last());
        if addrs.len() < ss.len() - 1 {
            (mid, addrs)
        } else {
            match put_string(mid, ss.last()) {
                Some(next) => (next, addrs.push((mid.base + mid.offset) as usize)),
                None => (mid, addrs),
            }
        }
    }
}

/// Writing never leaves the region, and leaves it as it was from the new write
/// offset on: what does not fit is not written at all.
pub proof fn lemma_put_bytes_safe(b: BufferView, at: int, bytes: Seq<u8>)
    requires
        b.wf(),
        b.offset <= at,
    ensures
        put_bytes(b, at, bytes) is None <==> at + bytes.len() > b.data.len(),
        match put_bytes(b, at, bytes) {
            None => true,
            Some(a) => {
                &&& a.wf()
                &&& a.base == b.base
                &&& a.data.len() == b.data.len()
                &&& b.offset <= a.offset
                &&& forall|i: int| 0 <= i < at ==> a.data[i] == b.data[i]
                &&& forall|i: int| a.offset <= i < a.data.len() ==> a.data[i] == b.data[i]
                &&& a.data.subrange(at, a.offset) == bytes
            },
        },
{
    if at + bytes.len() <= b.data.len() {
        let a = put_bytes(b, at, bytes).unwrap();
        assert(a.data.subrange(at, a.offset) =~= bytes);
    }
}

/// The packer of a caller's buffer: it lays C strings and pointer arrays out in the
/// region, one after the other, and never writes beyond it.
///
/// The bytes are gathered here; whoever owns the real region copies the written
/// bytes, `written()`, to its start.
pub struct Buffer {
    base: usize,
    data: Vec<u8>,
    offset: usize,
    big_endian: bool,
}

impl View for Buffer {
    type V = BufferView;

    closed spec fn view(&self) -> BufferView {
        BufferView {
            base: self.base as int,
            data: self.data@,
            offset: self.offset as int,
            big_endian: self.big_endian,
        }
    }
}

/// The low bytes of `v`, the lowest first.
fn le_bytes_of(v: usize, width: usize) -> (r: Vec<u8>)
    ensures
        r@ == le_bytes(v as nat, width as nat),
{
    let mut out: Vec<u8> = Vec::new();
    let mut x: usize = v;
    let mut i: usize = 0;
    assert(out@ + le_bytes(x as nat, width as nat) =~= le_bytes(v as nat, width as nat));
    while i < width
        invariant
            i <= width,
            out@ + le_bytes(x as nat, (width - i) as nat) == le_bytes(v as nat, width as nat),
        decreases width - i,
    {
        let ghost before = out@;
        let ghost rest = le_bytes((x / 256) as nat, (width - i - 1) as nat);
        out.push((x % 256) as u8);
        assert(out@ + rest =~= before + (seq![(x % 256) as u8] + rest));
        x = x / 256;
        i += 1;
    }
    assert(out@ + Seq::<u8>::empty() =~= out@);
    out
}

/// The bytes in the opposite order.
fn reversed(v: &Vec<u8>) -> (r: Vec<u8>)
    ensures
        r@ == v@.reverse(),
{
    let n = v.len();
    let mut out: Vec<u8> = Vec::new();
    let mut i: usize = 0;
    while i < n
        invariant
            i <= n,
            n == v.len(),
            out.len() == i,
            forall|j: int| 0 <= j < i ==> out@[j] == v@[n - 1 - j],
        decreases n - i,
    {
        out.push(v[n - 1 - i]);
        i += 1;
    }
    assert(out@ =~= v@.reverse());
    out
}

/// An address as it lies in memory.
pub fn pointer_bytes_of(v: usize, big_endian: bool) -> (r: Vec<u8>)
    ensures
        r@ == pointer_bytes(v, big_endian),
{
    let le = le_bytes_of(v, core::mem::size_of::<usize>());
    if big_endian {
        reversed(&le)
    } else {
        le
    }
}

impl Buffer {
    /// The packer of the region of `buflen` bytes at the address `base`, with nothing
    /// written yet. The bytes count as zero until they are written.
    pub fn new(base: usize, buflen: usize, big_endian: bool) -> (r: Buffer)
        requires
            base + buflen <= usize::MAX,
        ensures
            r@.wf(),
            r@.base == base,
            r@.offset == 0,
            r@.big_endian == big_endian,
            r@.data.len() == buflen,
            forall|i: int| 0 <= i < buflen ==> r@.data[i] == 0,
    {
        let mut data: Vec<u8> = Vec::new();
        let mut i: usize = 0;
        while i < buflen
            invariant
                i <= buflen,
                data.len() == i,
                forall|j: int| 0 <= j < i ==> data@[j] == 0,
            decreases buflen - i,
        {
            data.push(0u8);
            i += 1;
        }
        Buffer { base, data, offset: 0, big_endian }
    }

    /// The address of the region's first byte.
    pub fn base(&self) -> (r: usize)
        ensures
            r == self@.base,
    {
        self.base
    }

    /// The number of bytes of the region.
    pub fn capacity(&self) -> (r: usize)
        ensures
            r == self@.data.len(),
    {
        self.data.len()
    }

    /// The write offset: the number of bytes from the start of the region that are
    /// written or passed over.
    pub fn offset(&self) -> (r: usize)
        ensures
            r == self@.offset,
    {
        self.offset
    }

    /// The bytes from the start of the region up to the write offset.
    pub fn written(&self) -> (r: Vec<u8>)
        requires
            self@.wf(),
        ensures
            r@ == self@.data.take(self@.offset),
    {
        let mut out: Vec<u8> = Vec::new();
        let mut i: usize = 0;
        while i < self.offset
            invariant
                i <= self.offset <= self.data.len(),
                out@ == self.data@.take(i as int),
            decreases self.offset - i,
        {
            out.push(self.data[i]);
            assert(out@ =~= self.data@.take(i + 1));
            i += 1;
        }
        out
    }

    /// Writes `bytes` at `at` and moves the write offset behind them.
    fn put(&mut self, at: usize, bytes: &Vec<u8>)
        requires
            old(self)@.wf(),
            old(self)@.offset <= at,
            at + bytes.len() <= old(self)@.data.len(),
        ensures
            final(self)@.wf(),
            Some(final(self)@) == put_bytes(old(self)@, at as int, bytes@),
    {
        let n = bytes.len();
        let ghost data0 = self.data@;
        let mut i: usize = 0;
        assert(self.data@ =~= overwrite(data0, at as int, bytes@.take(0)));
        while i < n
            invariant
                i <= n,
                n == bytes.len(),
                at + n <= data0.len(),
                self.data@ == overwrite(data0, at as int, bytes@.take(i as int)),
                self.base == old(self).base,
                self.offset == old(self).offset,
                self.big_endian == old(self).big_endian,
                self.offset <= self.data.len(),
                self.base + self.data.len() <= usize::MAX,
            decreases n - i,
        {
            self.data.set(at + i, bytes[i]);
            assert(self.data@ =~= overwrite(data0, at as int, bytes@.take(i + 1)));
            i += 1;
        }
        assert(bytes@.take(n as int) =~= bytes@);
        self.offset = at + n;
    }

    /// Writes `s` and a NUL byte at the write offset and gives the address of the
    /// first byte; where the two do not fit, nothing is written.
    pub fn write_string(&mut self, s: &str) -> (r: Result<usize, BufferError>)
        requires
            old(self)@.wf(),
        ensures
            final(self)@.wf(),
            match put_string(old(self)@, s@) {
                Some(b) => final(self)@ == b && r == Ok::<usize, BufferError>(
                    (old(self)@.base + old(self)@.offset) as usize,
                ),
                None => final(self)@ == old(self)@ && r == Err::<usize, BufferError>(
                    BufferError::OutOfSpace,
                ),
            },
    {
        let mut bytes = s.as_bytes_vec();
        if bytes.len() >= self.data.len() - self.offset {
            return Err(BufferError::OutOfSpace);
        }
        bytes.push(0u8);
        let at = self.offset;
        self.put(at, &bytes);
        Ok(self.base + at)
    }

    /// Writes the addresses and a null pointer behind them at the first place from
    /// the write offset on that is aligned for a pointer, and gives the address of
    /// that place; where they do not fit, nothing is written.
    pub fn add_pointers(&mut self, ptrs: &Vec<usize>) -> (r: Result<usize, BufferError>)
        requires
            old(self)@.wf(),
        ensures
            final(self)@.wf(),
            match put_pointers(old(self)@, ptrs@) {
                Some(b) => final(self)@ == b && r == Ok::<usize, BufferError>(
                    (old(self)@.base + align_up(old(self)@.offset, pointer_size() as int)) as usize,
                ),
                None => final(self)@ == old(self)@ && r == Err::<usize, BufferError>(
                    BufferError::OutOfSpace,
                ),
            },
    {
        let step = core::mem::size_of::<usize>();
        assert(step == 4 || step == 8);
        let rem = self.offset % step;
        let pad = if rem == 0 {
            0
        } else {
            step - rem
        };
        let mut bytes: Vec<u8> = Vec::new();
        let mut i: usize = 0;
        assert(ptrs@.take(0) =~= Seq::empty());
        while i < ptrs.len()
            invariant
                i <= ptrs.len(),
                bytes@ == pointer_run(ptrs@.take(i as int), self.big_endian),
            decreases ptrs.len() - i,
        {
            let mut one = pointer_bytes_of(ptrs[i], self.big_endian);
            assert(ptrs@.take(i + 1).drop_last() =~= ptrs@.take(i as int));
            assert(ptrs@.take(i + 1).last() == ptrs@[i as int]);
            bytes.append(&mut one);
            i += 1;
        }
        assert(ptrs@.take(ptrs.len() as int) =~= ptrs@);
        let mut null = pointer_bytes_of(0, self.big_endian);
        bytes.append(&mut null);
        if pad > self.data.len() - self.offset {
            return Err(BufferError::OutOfSpace);
        }
        let at = self.offset + pad;
        if bytes.len() > self.data.len() - at {
            return Err(BufferError::OutOfSpace);
        }
        self.put(at, &bytes);
        Ok(self.base + at)
    }

    /// Writes the strings one after the other, as far as they fit, and gives the
    /// addresses of those that did.
    pub fn write_strings(&mut self, ss: &Vec<String>) -> (ptrs: Vec<usize>)
        requires
            old(self)@.wf(),
        ensures
            final(self)@.wf(),
            (final(self)@, ptrs@) == put_strings(old(self)@, views(ss@)),
    {
        let ghost texts = views(ss@);
        let ghost b0 = self@;
        let mut ptrs: Vec<usize> = Vec::new();
        let mut i: usize = 0;
        assert(texts.take(0) =~= Seq::empty());
        while i < ss.len()
            invariant
                i <= ss.len(),
                texts == views(ss@),
                b0 == old(self)@,
                self@.wf(),
                put_strings(b0, texts.take(i as int)) == (self@, ptrs@),
                ptrs.len() == i,
            decreases ss.len() - i,
        {
            assert(texts.take(i + 1).drop_last() =~= texts.take(i as int));
            assert(texts.take(i + 1).last() == ss@[i as int]@);
            match self.write_string(ss[i].as_str()) {
                Ok(addr) => {
                    ptrs.push(addr);
                },
                Err(e) => {
                    proof {
                        lemma_put_strings_stuck(b0, texts, i as int);
                    }
                    return ptrs;
                },
            }
            i += 1;
        }
        assert(texts.take(ss.len() as int) =~= texts);
        ptrs
    }

    /// Writes the strings one after the other and then the array of their addresses,
    /// and gives the address of the array. Where something does not fit, what was
    /// written before it stays.
    pub fn write_vecstr(&mut self, ss: &Vec<String>) -> (r: Result<usize, BufferError>)
        requires
            old(self)@.wf(),
        ensures
            final(self)@.wf(),
            match put_vecstr(old(self)@, views(ss@)) {
                (b, Some(addr)) => final(self)@ == b && r == Ok::<usize, BufferError>(addr),
                (b, None) => final(self)@ == b && r == Err::<usize, BufferError>(
                    BufferError::OutOfSpace,
                ),
            },
    {
        let ptrs = self.write_strings(ss);
        if ptrs.len() < ss.len() {
            return Err(BufferError::OutOfSpace);
        }
        proof {
            lemma_put_strings_safe(old(self)@, views(ss@));
        }
        self.add_pointers(&ptrs)
    }
}

/// The region after the strings and then the array of their addresses are written,
/// as far as they fit, and the address of the array where all of it did.
pub open spec fn put_vecstr(b: BufferView, ss: Seq<Seq<char>>) -> (BufferView, Option<usize>) {
    let (mid, addrs) = put_strings(b, ss);
    if addrs.len() < ss.len() {
        (mid, None)
    } else {
        match put_pointers(mid, addrs) {
            Some(next) => (
                next,
                Some((mid.base + align_up(mid.offset, pointer_size() as int)) as usize),
            ),
            None => (mid, None),
        }
    }
}

/// The bytes that the strings take as C strings, all together.
pub open spec fn total_size(ss: Seq<Seq<char>>) -> nat
    decreases ss.len(),
{
    if ss.len() == 0 {
        0
    } else {
        total_size(ss.drop_last()) + c_string(ss.last()).len()
    }
}

/// Writing strings never leaves the region and leaves it as it was from the new
/// write offset on; all of them are written where they fit together, and else the
/// first that does not fit, and those behind it, are not written at all. The
/// addresses handed out lie in the region.
pub proof fn lemma_put_strings_safe(b: BufferView, ss: Seq<Seq<char>>)
    requires
        b.wf(),
    ensures
        put_strings(b, ss).0.wf(),
        put_strings(b, ss).0.base == b.base,
        put_strings(b, ss).0.big_endian == b.big_endian,
        put_strings(b, ss).0.data.len() == b.data.len(),
        b.offset <= put_strings(b, ss).0.offset,
        forall|i: int|
            put_strings(b, ss).0.offset <= i < b.data.len() ==> put_strings(b, ss).0.data[i]
                == b.data[i],
        forall|i: int| 0 <= i < b.offset ==> put_strings(b, ss).0.data[i] == b.data[i],
        put_strings(b, ss).1.len() <= ss.len(),
        put_strings(b, ss).1.len() == ss.len() <==> b.offset + total_size(ss) <= b.data.len(),
        put_strings(b, ss).1.len() == ss.len() ==> put_strings(b, ss).0.offset == b.offset
            + total_size(ss),
        forall|k: int|
            0 <= k < put_strings(b, ss).1.len() ==> b.base + b.offset <= #[trigger] put_strings(
                b,
                ss,
            ).1[k] < b.base + put_strings(b, ss).0.offset,
    decreases ss.len(),
{
    if ss.len() > 0 {
        let front = ss.drop_last();
        lemma_put_strings_safe(b, front);
        let (mid, addrs) = put_strings(b, front);
        if addrs.len() == front.len() {
            lemma_put_bytes_safe(mid, mid.offset, c_string(ss.last()));
        }
    }
}

/// Writing strings leaves the base and the byte order alone.
pub proof fn lemma_put_strings_base(b: BufferView, ss: Seq<Seq<char>>)
    ensures
        put_strings(b, ss).0.base == b.base,
        put_strings(b, ss).0.big_endian == b.big_endian,
        put_strings(b, ss).1.len() <= ss.len(),
    decreases ss.len(),
{
    if ss.len() > 0 {
        lemma_put_strings_base(b, ss.drop_last());
    }
}

/// Where the string at `k` does not fit behind those before it, none of the
/// later ones is written either.
pub proof fn lemma_put_strings_stuck(b: BufferView, ss: Seq<Seq<char>>, k: int)
    requires
        0 <= k < ss.len(),
        put_strings(b, ss.take(k)).1.len() == k,
        put_string(put_strings(b, ss.take(k)).0, ss[k]) is None,
    ensures
        put_strings(b, ss) == put_strings(b, ss.take(k)),
        put_strings(b, ss).1.len() < ss.len(),
    decreases ss.len(),
{
    if k == ss.len() - 1 {
        assert(ss.drop_last() =~= ss.take(k));
    } else {
        let front = ss.drop_last();
        assert(front.take(k) =~= ss.take(k));
        lemma_put_strings_stuck(b, front, k);
    }
}

} // verus!
