//! A circular byte buffer of fixed capacity.
//!
//! The live bytes run from `begin` to `end`, both inclusive, and wrap past the
//! end of the backing storage when `end < begin`. An empty buffer is marked by
//! a flag of its own; one byte of the storage always stays unused while the
//! buffer holds data.

use crate::util::{copy_from_slice, ptr_diff};
use vstd::prelude::*;

verus! {

/// Bytes that a buffer of capacity `cap` holding `used` bytes can still take.
pub open spec fn free_of(cap: nat, used: nat) -> nat {
    if cap == 0 || used + 1 > cap {
        0
    } else {
        (cap - 1 - used) as nat
    }
}

/// The contents after `push`: the bytes are appended if they fit, else dropped.
pub open spec fn pushed(cap: nat, held: Seq<u8>, bs: Seq<u8>) -> Seq<u8> {
    if bs.len() > free_of(cap, held.len()) {
        held
    } else {
        held + bs
    }
}

/// The bytes that `pop` hands out when asked for `n`: the first `n`, or none
/// when fewer are held.
pub open spec fn popped(held: Seq<u8>, n: nat) -> Seq<u8> {
    if n > held.len() {
        Seq::empty()
    } else {
        held.subrange(0, n as int)
    }
}

/// The contents after `pop` or `skip` of `n` bytes.
pub open spec fn remaining(held: Seq<u8>, n: nat) -> Seq<u8> {
    if n > held.len() {
        held
    } else {
        held.subrange(n as int, held.len() as int)
    }
}

/// The buffer: storage of fixed size, and the place of the bytes held in it.
#[derive(Debug)]
pub struct Ringbuffer {
    buf: Vec<u8>,
    begin: usize,
    end: usize,
    live: bool,
}

impl View for Ringbuffer {
    type V = Seq<u8>;

    /// The bytes held, oldest first.
    closed spec fn view(&self) -> Seq<u8> {
        Seq::new(self.used(), |i: int| self.buf@[self.phys(i)])
    }
}

impl Ringbuffer {
    /// Size of the backing storage.
    pub closed spec fn cap(&self) -> nat {
        self.buf@.len()
    }

    /// The cursors are consistent with the storage and one byte is spare.
    pub closed spec fn wf(&self) -> bool {
        if self.live {
            &&& self.begin < self.buf@.len()
            &&& self.end < self.buf@.len()
            &&& self.end >= self.begin ==> self.end - self.begin + 1 < self.buf@.len()
            &&& self.end < self.begin ==> self.begin - self.end >= 2
        } else {
            self.begin == 0 && self.end == 0
        }
    }

    spec fn used(&self) -> nat {
        if !self.live {
            0
        } else if self.end >= self.begin {
            (self.end - self.begin + 1) as nat
        } else {
            (self.buf@.len() - (self.begin - self.end) + 1) as nat
        }
    }

    spec fn phys(&self, i: int) -> int {
        if self.begin + i < self.buf@.len() {
            self.begin + i
        } else {
            self.begin + i - self.buf@.len()
        }
    }

    /// A buffer that holds data has a spare byte: held and free bytes add up
    /// to the capacity less one. An empty buffer offers the same amount.
    pub proof fn lemma_slack(&self)
        requires
            self.wf(),
        ensures
            self@.len() > 0 ==> self@.len() + free_of(self.cap(), self@.len()) == self.cap() - 1,
            self.cap() > 0 ==> self@.len() + free_of(self.cap(), self@.len()) == self.cap() - 1,
            self.cap() == 0 ==> self@.len() == 0,
    {
    }

    /// An empty buffer over `capacity` zeroed bytes of storage.
    pub fn new(capacity: usize) -> (r: Ringbuffer)
        ensures
            r.wf(),
            r.cap() == capacity,
            r@ == Seq::<u8>::empty(),
    {
        let r = Ringbuffer { buf: vec![0u8; capacity], begin: 0, end: 0, live: false };
        assert(r@ =~= Seq::<u8>::empty());
        r
    }

    /// Size of the backing storage.
    pub fn capacity(&self) -> (c: usize)
        ensures
            c == self.cap(),
    {
        self.buf.len()
    }

    /// Number of bytes that `push` would still accept.
    pub fn free_space(&self) -> (n: usize)
        requires
            self.wf(),
        ensures
            n == free_of(self.cap(), self@.len()),
    {
        let cap = self.buf.len();
        if cap == 0 {
            0
        } else {
            cap - 1 - self.data_size()
        }
    }

    /// Number of bytes held.
    pub fn data_size(&self) -> (n: usize)
        requires
            self.wf(),
        ensures
            n == self@.len(),
    {
        let cap = self.buf.len();
        if !self.live {
            0
        } else if self.end >= self.begin {
            ptr_diff(self.end, self.begin) + 1
        } else {
            cap - ptr_diff(self.begin, self.end) + 1
        }
    }

    /// Number of bytes of storage from the index `at` to the end.
    fn to_end_from(&self, at: usize) -> (n: usize)
        requires
            at <= self.cap(),
        ensures
            n == self.cap() - at,
    {
        ptr_diff(self.buf.len(), at)
    }

    /// Forgets all bytes held.
    pub fn clear(&mut self)
        ensures
            final(self).wf(),
            final(self).cap() == old(self).cap(),
            final(self)@ == Seq::<u8>::empty(),
    {
        self.begin = 0;
        self.end = 0;
        self.live = false;
        assert(self@ =~= Seq::<u8>::empty());
    }

    /// Appends `bs`, or does nothing when `bs` is longer than the free space.
    ///
    /// The copy is made in one piece, or in two when it crosses the end of the
    /// storage.
    pub fn push(&mut self, bs: &[u8])
        requires
            old(self).wf(),
        ensures
            final(self).wf(),
            final(self).cap() == old(self).cap(),
            final(self)@ == pushed(old(self).cap(), old(self)@, bs@),
    {
        let n = bs.len();
        if n > self.free_space() {
            return ;
        }
        if n == 0 {
            assert(self@ + bs@ =~= self@);
            return ;
        }
        let cap = self.buf.len();
        let ghost held = self@;
        let ghost before = *self;
        let w: usize = if !self.live {
            0
        } else if self.end + 1 == cap {
            0
        } else {
            self.end + 1
        };
        if !self.live {
            self.begin = 0;
        }
        let to_end = self.to_end_from(w);
        if n <= to_end {
            copy_from_slice(self.buf.as_mut_slice(), w, bs);
            self.end = w + n - 1;
        } else {
            let (xs, ys) = bs.split_at(to_end);
            copy_from_slice(self.buf.as_mut_slice(), w, xs);
            copy_from_slice(self.buf.as_mut_slice(), 0, ys);
            self.end = n - to_end - 1;
        }
        self.live = true;
        proof {
            let m = held.len() as int;
            assert(self.used() == m + n);
            assert forall|i: int| 0 <= i < m + n implies #[trigger] self@[i] == (held + bs@)[i] by {
                if i < m {
                    assert(held[i] == before.buf@[before.phys(i)]);
                    assert(self.phys(i) == before.phys(i));
                } else {
                    let k = i - m;
                    if n <= to_end {
                        assert(self.phys(i) == w + k);
                    } else if k < to_end {
                        assert(self.phys(i) == w + k);
                        assert(bs@.subrange(0, to_end as int)[k] == bs@[k]);
                    } else {
                        assert(self.phys(i) == k - to_end);
                        assert(bs@.subrange(to_end as int, n as int)[k - to_end] == bs@[k]);
                    }
                }
            }
            assert(self@ =~= held + bs@);
        }
    }

    /// Takes `size` bytes off the front and writes them to the front of `dst`,
    /// or does nothing when fewer than `size` bytes are held.
    pub fn pop_raw(&mut self, dst: &mut [u8], size: usize)
        requires
            old(self).wf(),
            size <= old(dst)@.len(),
        ensures
            final(self).wf(),
            final(self).cap() == old(self).cap(),
            final(self)@ == remaining(old(self)@, size as nat),
            final(dst)@ == popped(old(self)@, size as nat) + old(dst)@.subrange(
                popped(old(self)@, size as nat).len() as int,
                old(dst)@.len() as int,
            ),
    {
        if self.data_size() < size {
            assert(dst@ =~= Seq::<u8>::empty() + dst@.subrange(0, dst@.len() as int));
            return ;
        }
        self.peek(dst, size);
        self.skip(size);
    }

    /// Copies the first `size` bytes held to the front of `dst`.
    fn peek(&self, dst: &mut [u8], size: usize)
        requires
            self.wf(),
            size <= old(dst)@.len(),
            size <= self@.len(),
        ensures
            final(dst)@ == self@.subrange(0, size as int) + old(dst)@.subrange(
                size as int,
                old(dst)@.len() as int,
            ),
    {
        if size == 0 {
            assert(dst@ =~= self@.subrange(0, 0) + dst@.subrange(0, dst@.len() as int));
            return ;
        }
        let cap = self.buf.len();
        let to_end = self.to_end_from(self.begin);
        if size <= to_end {
            let src = vstd::slice::slice_subrange(self.buf.as_slice(), self.begin, self.begin + size);
            copy_from_slice(dst, 0, src);
            assert forall|i: int| 0 <= i < size implies self@[i] == #[trigger] src@[i] by {
                assert(self.phys(i) == self.begin + i);
            }
        } else {
            let xs = vstd::slice::slice_subrange(self.buf.as_slice(), self.begin, cap);
            let ys = vstd::slice::slice_subrange(self.buf.as_slice(), 0, size - to_end);
            copy_from_slice(dst, 0, xs);
            copy_from_slice(dst, to_end, ys);
            assert forall|i: int| 0 <= i < to_end implies self@[i] == #[trigger] xs@[i] by {
                assert(self.phys(i) == self.begin + i);
            }
            assert forall|i: int| to_end <= i < size implies self@[i] == #[trigger] ys@[i - to_end] by {
                assert(self.phys(i) == i - to_end);
            }
        }
        assert(dst@ =~= self@.subrange(0, size as int) + old(dst)@.subrange(
            size as int,
            old(dst)@.len() as int,
        ));
    }

    /// Discards `n` bytes from the front, or does nothing when fewer are held.
    pub fn skip(&mut self, n: usize)
        requires
            old(self).wf(),
        ensures
            final(self).wf(),
            final(self).cap() == old(self).cap(),
            final(self)@ == remaining(old(self)@, n as nat),
    {
        let held = self.data_size();
        if held < n {
            return ;
        }
        if n == 0 {
            assert(self@ =~= self@.subrange(0, self@.len() as int));
            return ;
        }
        if held == n {
            self.clear();
            assert(self@ =~= old(self)@.subrange(n as int, old(self)@.len() as int));
            return ;
        }
        let cap = self.buf.len();
        let to_end = self.to_end_from(self.begin);
        let ghost before = *self;
        if n < to_end {
            self.begin = self.begin + n;
        } else {
            self.begin = n - to_end;
        }
        proof {
            assert(self.used() == held - n);
            assert forall|i: int| 0 <= i < held - n implies #[trigger] self@[i] == old(self)@[i + n] by {
                assert(self.phys(i) == before.phys(i + n));
            }
            assert(self@ =~= old(self)@.subrange(n as int, old(self)@.len() as int));
        }
    }

    /// Takes as many bytes off the front as `bs` is long and fills `bs` with
    /// them, or does nothing when fewer are held.
    pub fn pop(&mut self, bs: &mut [u8])
        requires
            old(self).wf(),
        ensures
            final(self).wf(),
            final(self).cap() == old(self).cap(),
            final(self)@ == remaining(old(self)@, old(bs)@.len()),
            old(bs)@.len() <= old(self)@.len() ==> final(bs)@ == popped(old(self)@, old(bs)@.len()),
            old(bs)@.len() > old(self)@.len() ==> final(bs)@ == old(bs)@,
    {
        let n = bs.len();
        self.pop_raw(bs, n);
        assert(old(bs)@.len() <= old(self)@.len() ==> bs@ =~= popped(old(self)@, old(bs)@.len()));
        assert(old(bs)@.len() > old(self)@.len() ==> bs@ =~= old(bs)@);
    }

    /// Fills `bs` with the bytes at the front without taking them off, or does
    /// nothing when fewer than `bs` is long are held.
    pub fn read(&self, bs: &mut [u8])
        requires
            self.wf(),
        ensures
            old(bs)@.len() <= self@.len() ==> final(bs)@ == popped(self@, old(bs)@.len()),
            old(bs)@.len() > self@.len() ==> final(bs)@ == old(bs)@,
    {
        let n = bs.len();
        if self.data_size() < n {
            return ;
        }
        self.peek(bs, n);
        assert(bs@ =~= popped(self@, old(bs)@.len()));
    }

    /// Appends what a source delivered: the first bytes of `delivered`, as
    /// many as the free space takes. Returns how many were appended.
    pub fn push_from_file(&mut self, delivered: &[u8]) -> (n: usize)
        requires
            old(self).wf(),
        ensures
            final(self).wf(),
            final(self).cap() == old(self).cap(),
            n == if delivered@.len() <= free_of(old(self).cap(), old(self)@.len()) {
                delivered@.len()
            } else {
                free_of(old(self).cap(), old(self)@.len())
            },
            final(self)@ == old(self)@ + delivered@.subrange(0, n as int),
    {
        let free = self.free_space();
        let n = if delivered.len() <= free {
            delivered.len()
        } else {
            free
        };
        let taken = vstd::slice::slice_subrange(delivered, 0, n);
        self.push(taken);
        n
    }
}

/// Bytes come out in the order they went in: after a push that fits, popping
/// what was held before and then as many bytes as were pushed hands out
/// exactly the bytes pushed.
pub proof fn lemma_fifo(cap: nat, held: Seq<u8>, bs: Seq<u8>)
    requires
        bs.len() <= free_of(cap, held.len()),
    ensures
        popped(pushed(cap, held, bs), held.len()) == held,
        popped(remaining(pushed(cap, held, bs), held.len()), bs.len()) == bs,
        remaining(remaining(pushed(cap, held, bs), held.len()), bs.len()) == Seq::<u8>::empty(),
{
    let all = pushed(cap, held, bs);
    assert(all =~= held + bs);
    assert(popped(all, held.len()) =~= held);
    assert(remaining(all, held.len()) =~= bs);
    assert(popped(bs, bs.len()) =~= bs);
    assert(remaining(bs, bs.len()) =~= Seq::<u8>::empty());
}

} // verus!
