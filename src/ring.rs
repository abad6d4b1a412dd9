//! The ring-buffer byte sink of one real-time transfer channel: the target
//! writes at the tail, the debugger reads from the head.

use vstd::prelude::*;

verus! {

/// A write found too little free space; nothing was written.
#[derive(Clone, Copy, Debug, PartialEq, Eq, Structural)]
pub struct OutputFull;

/// The storage slot of the `j`-th pending byte, for a head at `head` and a
/// storage of `cap` bytes (`head < cap`, `j < cap`).
pub open spec fn slot(head: int, j: int, cap: int) -> int {
    if head + j < cap {
        head + j
    } else {
        head + j - cap
    }
}

/// A fixed-capacity ring buffer of bytes.
pub struct RingOutput {
    storage: Vec<u8>,
    head: usize,
    len: usize,
}

impl RingOutput {
    /// The bytes written and not yet read, oldest first.
    pub closed spec fn view(&self) -> Seq<u8> {
        Seq::new(
            self.len as nat,
            |j: int| self.storage@[slot(self.head as int, j, self.storage@.len() as int)],
        )
    }

    /// The number of bytes the buffer holds at most.
    pub closed spec fn spec_capacity(&self) -> nat {
        self.storage@.len()
    }

    pub closed spec fn wf(&self) -> bool {
        &&& self.storage@.len() > 0
        &&& self.head < self.storage@.len()
        &&& self.len <= self.storage@.len()
    }

    /// An empty buffer of `capacity` bytes.
    pub fn new(capacity: usize) -> (r: RingOutput)
        requires
            capacity > 0,
        ensures
            r.wf(),
            r@ == Seq::<u8>::empty(),
            r.spec_capacity() == capacity,
    {
        let mut storage: Vec<u8> = Vec::new();
        let mut i: usize = 0;
        while i < capacity
            invariant
                i <= capacity,
                storage@.len() == i,
            decreases capacity - i,
        {
            storage.push(0u8);
            i = i + 1;
        }
        let r = RingOutput { storage, head: 0, len: 0 };
        assert(r@ =~= Seq::<u8>::empty());
        r
    }

    /// The number of bytes the buffer holds at most.
    pub fn capacity(&self) -> (n: usize)
        requires
            self.wf(),
        ensures
            n == self.spec_capacity(),
    {
        self.storage.len()
    }

    /// The number of bytes written and not yet read.
    pub fn pending_len(&self) -> (n: usize)
        requires
            self.wf(),
        ensures
            n == self@.len(),
            n <= self.spec_capacity(),
    {
        self.len
    }

    /// Writes all of `bytes` at the tail, or nothing where they do not fit.
    pub fn write(&mut self, bytes: &[u8]) -> (r: Result<(), OutputFull>)
        requires
            old(self).wf(),
        ensures
            final(self).wf(),
            final(self).spec_capacity() == old(self).spec_capacity(),
            r is Ok <==> old(self)@.len() + bytes@.len() <= old(self).spec_capacity(),
            r is Ok ==> final(self)@ == old(self)@ + bytes@,
            r is Err ==> final(self)@ == old(self)@,
    {
        let cap = self.storage.len();
        if bytes.len() > cap - self.len {
            return Err(OutputFull);
        }
        let ghost start = self@;
        let mut i: usize = 0;
        while i < bytes.len()
            invariant
                self.wf(),
                self.storage@.len() == cap,
                i <= bytes@.len(),
                self.len + bytes@.len() - i <= cap,
                self@ == start + bytes@.subrange(0, i as int),
            decreases bytes@.len() - i,
        {
            let tail = if self.len < cap - self.head {
                self.head + self.len
            } else {
                self.len - (cap - self.head)
            };
            let ghost before = self@;
            self.storage.set(tail, bytes[i]);
            self.len = self.len + 1;
            assert(self@ =~= before.push(bytes@[i as int]));
            assert(bytes@.subrange(0, i + 1) =~= bytes@.subrange(0, i as int).push(bytes@[i as int]));
            i = i + 1;
        }
        assert(bytes@.subrange(0, bytes@.len() as int) =~= bytes@);
        Ok(())
    }

    /// Writes one byte at the tail, where there is room for it.
    pub fn push_byte(&mut self, b: u8)
        requires
            old(self).wf(),
            old(self)@.len() < old(self).spec_capacity(),
        ensures
            final(self).wf(),
            final(self).spec_capacity() == old(self).spec_capacity(),
            final(self)@ == old(self)@.push(b),
    {
        let cap = self.storage.len();
        let tail = if self.len < cap - self.head {
            self.head + self.len
        } else {
            self.len - (cap - self.head)
        };
        let ghost before = self@;
        self.storage.set(tail, b);
        self.len = self.len + 1;
        assert(self@ =~= before.push(b));
    }

    /// Reads up to `max` bytes from the head, oldest first.
    pub fn read(&mut self, max: usize) -> (r: Vec<u8>)
        requires
            old(self).wf(),
        ensures
            final(self).wf(),
            final(self).spec_capacity() == old(self).spec_capacity(),
            r@.len() == if max < old(self)@.len() { max as nat } else { old(self)@.len() },
            old(self)@ == r@ + final(self)@,
    {
        let ghost start = self@;
        let cap = self.storage.len();
        let mut out: Vec<u8> = Vec::new();
        while out.len() < max && self.len > 0
            invariant
                self.wf(),
                self.storage@.len() == cap,
                out@.len() <= max,
                start == out@ + self@,
                out@.len() + self@.len() == start.len(),
            decreases self.len,
        {
            let ghost before = self@;
            out.push(self.storage[self.head]);
            self.head = if self.head + 1 < cap {
                self.head + 1
            } else {
                0
            };
            self.len = self.len - 1;
            assert(self@ =~= before.drop_first());
            assert(start =~= out@ + self@);
        }
        out
    }
}

} // verus!
