use vstd::prelude::*;

verus! {

/// Size of a linear memory page: 64 KiB.
pub const PAGE_SIZE: usize = 65536;

/// Largest size linear memory may grow to: 2 GiB.
pub const MAX_MEMORY_BYTES: u64 = 2147483648;

/// Linear memory: a byte array made of whole pages.
pub struct Memory {
    data: Vec<u8>,
    /// Each page is `PAGE_SIZE` bytes.
    page_count: u32,
}

/// `before` with `bytes` written over it from `offset` on.
pub open spec fn written(before: Seq<u8>, offset: int, bytes: Seq<u8>) -> Seq<u8> {
    before.subrange(0, offset) + bytes + before.subrange(offset + bytes.len(), before.len() as int)
}

impl Memory {
    /// Well-formed: the contents are exactly the pages.
    pub closed spec fn wf(&self) -> bool {
        self.data@.len() == self.page_count * PAGE_SIZE
    }

    /// The memory's contents.
    pub closed spec fn bytes(&self) -> Seq<u8> {
        self.data@
    }

    /// The memory's size in pages.
    pub closed spec fn pages(&self) -> nat {
        self.page_count as nat
    }

    /// A zeroed memory of `initial_pages` pages.
    pub fn new(initial_pages: u32) -> (m: Self)
        requires
            initial_pages * PAGE_SIZE <= usize::MAX,
        ensures
            m.wf(),
            m.pages() == initial_pages,
            m.bytes() == Seq::new((initial_pages * PAGE_SIZE) as nat, |i: int| 0u8),
    {
        let n: usize = initial_pages as usize * PAGE_SIZE;
        let data: Vec<u8> = vec![0; n];
        assert(data@ =~= Seq::new(n as nat, |i: int| 0u8));
        Self { data, page_count: initial_pages }
    }

    /// The `len` bytes starting at `offset`.
    pub fn read_bytes(&self, offset: usize, len: usize) -> (r: &[u8])
        requires
            offset + len <= self.bytes().len(),
        ensures
            r@ == self.bytes().subrange(offset as int, offset + len),
    {
        let s = self.data.as_slice();
        let _n = s.len();
        &s[offset..offset + len]
    }

    /// Writes `bytes` starting at `offset`.
    pub fn write_bytes(&mut self, offset: usize, bytes: &[u8])
        requires
            old(self).wf(),
            offset + bytes@.len() <= old(self).bytes().len(),
        ensures
            final(self).wf(),
            final(self).pages() == old(self).pages(),
            final(self).bytes() == written(old(self).bytes(), offset as int, bytes@),
    {
        let ghost before = self.data@;
        let n = self.data.len();
        let mut k: usize = 0;
        while k < bytes.len()
            invariant
                0 <= k <= bytes@.len(),
                offset + bytes@.len() <= before.len(),
                n == before.len(),
                self.page_count == old(self).page_count,
                self.data@.len() == before.len(),
                forall|m: int|
                    0 <= m < before.len() ==> #[trigger] self.data@[m] == if offset <= m < offset + k {
                        bytes@[m - offset]
                    } else {
                        before[m]
                    },
            decreases bytes@.len() - k,
        {
            self.data.set(offset + k, bytes[k]);
            k = k + 1;
        }
        assert(self.data@ =~= written(before, offset as int, bytes@));
    }

    /// The size in pages.
    pub fn size_pages(&self) -> (n: u32)
        requires
            self.wf(),
        ensures
            n == self.pages(),
            self.bytes().len() == n * PAGE_SIZE,
    {
        self.page_count
    }

    /// Grows memory by `pages` pages of zeros. Fails, changing nothing, if
    /// the new size would exceed 2 GiB (real Wasm allows 4 GiB; 2 GiB keeps
    /// offsets simple).
    pub fn grow(&mut self, pages: u32) -> (r: Result<(), &'static str>)
        requires
            old(self).wf(),
        ensures
            final(self).wf(),
            ((old(self).pages() + pages) * PAGE_SIZE > MAX_MEMORY_BYTES) <==> r is Err,
            r is Err ==> final(self).bytes() == old(self).bytes() && final(self).pages() == old(self).pages(),
            r matches Err(msg) ==> msg@ == "Memory size exceeds 2 GiB"@,
            r is Ok ==> {
                &&& final(self).pages() == old(self).pages() + pages
                &&& final(self).bytes() == old(self).bytes() + Seq::new(
                    (pages * PAGE_SIZE) as nat,
                    |i: int| 0u8,
                )
            },
    {
        let new_size: u64 = (self.page_count as u64 + pages as u64) * 65536;
        if new_size > MAX_MEMORY_BYTES {
            return Err("Memory size exceeds 2 GiB");
        }
        let ghost before = self.data@;
        self.data.resize(new_size as usize, 0);
        self.page_count = self.page_count + pages;
        assert(self.data@ =~= before + Seq::new((pages * PAGE_SIZE) as nat, |i: int| 0u8));
        Ok(())
    }
}

/// Reading back the bytes just written gives them: after `write_bytes(offset,
/// b)`, `read_bytes(offset, b.len())` is `b`.
pub proof fn law_read_after_write(before: Seq<u8>, offset: int, b: Seq<u8>)
    requires
        0 <= offset,
        offset + b.len() <= before.len(),
    ensures
        written(before, offset, b).len() == before.len(),
        written(before, offset, b).subrange(offset, offset + b.len()) == b,
{
    assert(written(before, offset, b).subrange(offset, offset + b.len()) =~= b);
}

/// A write changes no byte outside the range written.
pub proof fn law_write_is_local(before: Seq<u8>, offset: int, b: Seq<u8>, i: int)
    requires
        0 <= offset,
        offset + b.len() <= before.len(),
        0 <= i < before.len(),
        i < offset || offset + b.len() <= i,
    ensures
        written(before, offset, b)[i] == before[i],
{
}

/// Growing keeps every byte that was there and adds zeros: what was read
/// before growing is read the same after.
pub proof fn law_grow_keeps_contents(before: Seq<u8>, added: nat, offset: int, len: int)
    requires
        0 <= offset,
        0 <= len,
        offset + len <= before.len(),
    ensures
        (before + Seq::new(added, |i: int| 0u8)).subrange(offset, offset + len) == before.subrange(offset, offset + len),
{
    assert((before + Seq::new(added, |i: int| 0u8)).subrange(offset, offset + len) =~= before.subrange(offset, offset + len));
}

} // verus!
