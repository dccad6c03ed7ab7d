use vstd::prelude::*;

verus! {

/// Capacity of the window when the caller does not choose one.
pub const DEFAULT_CAPACITY: usize = 10000;

/// A bounded window over the bytes that the last underlying read produced.
///
/// Abstractly the buffer is the sequence of bytes it has received from the
/// source, split into the part already handed out (`delivered`) and the part
/// still waiting in the window (`unread`).
pub struct TailBuffer {
    data: Vec<u8>,
    pos: usize,
    cap: usize,
    received: Ghost<Seq<u8>>,
    delivered: Ghost<Seq<u8>>,
}

impl TailBuffer {
    /// Bytes in the window that nobody has consumed yet.
    pub closed spec fn unread(&self) -> Seq<u8> {
        self.data@.skip(self.pos as int)
    }

    /// Every byte the source has produced into this buffer, in order.
    pub closed spec fn received(&self) -> Seq<u8> {
        self.received@
    }

    /// Every byte this buffer has handed out, in order.
    pub closed spec fn delivered(&self) -> Seq<u8> {
        self.delivered@
    }

    /// The largest number of bytes one underlying read may place in the window.
    pub closed spec fn capacity(&self) -> nat {
        self.cap as nat
    }

    pub closed spec fn wf(&self) -> bool {
        &&& 0 < self.cap
        &&& self.pos <= self.data@.len() <= self.cap
        &&& self.received@ == self.delivered@ + self.unread()
    }

    /// The byte accounting of a well-formed buffer: what was handed out,
    /// followed by what still waits in the window, is exactly what the source
    /// produced, with nothing lost, repeated or reordered. Once the window is
    /// exhausted, every byte received has been handed out.
    pub proof fn lemma_no_data_loss(&self)
        requires
            self.wf(),
        ensures
            self.delivered() + self.unread() == self.received(),
            self.unread().len() == 0 ==> self.delivered() == self.received(),
            self.unread().len() <= self.capacity(),
    {
        if self.unread().len() == 0 {
            assert(self.delivered() + self.unread() =~= self.delivered());
        }
    }

    /// Successive holders of the buffer see disjoint, adjacent ranges of the
    /// stream: what was handed out between two states `a` and `b`, and then
    /// between `b` and `c`, are the consecutive slices of the received bytes
    /// that start where the previous one ended.
    pub proof fn lemma_disjoint_ranges(a: &Self, b: &Self, c: &Self, x: Seq<u8>, y: Seq<u8>)
        requires
            a.wf(),
            b.wf(),
            c.wf(),
            a.received().is_prefix_of(b.received()),
            b.received().is_prefix_of(c.received()),
            b.delivered() == a.delivered() + x,
            c.delivered() == b.delivered() + y,
        ensures
            x == c.received().subrange(
                a.delivered().len() as int,
                b.delivered().len() as int,
            ),
            y == c.received().subrange(
                b.delivered().len() as int,
                c.delivered().len() as int,
            ),
    {
        let ra = a.delivered().len() as int;
        let rb = b.delivered().len() as int;
        let rc = c.delivered().len() as int;
        assert(b.received() =~= c.received().take(b.received().len() as int));
        assert(b.delivered() =~= b.received().take(rb));
        assert(c.delivered() =~= c.received().take(rc));
        assert(x =~= b.delivered().subrange(ra, rb));
        assert(y =~= c.delivered().subrange(rb, rc));
    }

    /// An empty buffer whose underlying reads fill at most `cap` bytes.
    pub fn new(cap: usize) -> (b: Self)
        requires
            cap > 0,
        ensures
            b.wf(),
            b.capacity() == cap,
            b.unread() == Seq::<u8>::empty(),
            b.received() == Seq::<u8>::empty(),
            b.delivered() == Seq::<u8>::empty(),
    {
        let b = TailBuffer {
            data: Vec::new(),
            pos: 0,
            cap,
            received: Ghost(Seq::empty()),
            delivered: Ghost(Seq::empty()),
        };
        assert(b.unread() =~= Seq::<u8>::empty());
        assert(b.received@ =~= b.delivered@ + b.unread());
        b
    }

    pub fn window_capacity(&self) -> (r: usize)
        requires
            self.wf(),
        ensures
            r == self.capacity(),
    {
        self.cap
    }

    /// Number of unread bytes in the window.
    pub fn available(&self) -> (r: usize)
        requires
            self.wf(),
        ensures
            r == self.unread().len(),
    {
        self.data.len() - self.pos
    }

    /// True when the window is exhausted, so the next fill must read the source.
    pub fn needs_fill(&self) -> (r: bool)
        requires
            self.wf(),
        ensures
            r == (self.unread().len() == 0),
    {
        self.pos == self.data.len()
    }

    /// True when a read of `want` bytes should bypass the window and go
    /// straight to the source: the window is empty and the request is at
    /// least as large as the window could hold.
    pub fn reads_directly(&self, want: usize) -> (r: bool)
        requires
            self.wf(),
        ensures
            r == (self.unread().len() == 0 && want >= self.capacity()),
    {
        self.pos == self.data.len() && want >= self.cap
    }

    /// The unread part of the window.
    pub fn window(&self) -> (r: &[u8])
        requires
            self.wf(),
        ensures
            r@ == self.unread(),
    {
        vstd::slice::slice_subrange(self.data.as_slice(), self.pos, self.data.len())
    }

    /// Installs the bytes of one underlying read as the new window. The old
    /// window must be exhausted; its consumed prefix is discarded.
    pub fn refill(&mut self, chunk: Vec<u8>)
        requires
            old(self).wf(),
            old(self).unread().len() == 0,
            chunk@.len() <= old(self).capacity(),
        ensures
            final(self).wf(),
            final(self).capacity() == old(self).capacity(),
            final(self).unread() == chunk@,
            final(self).received() == old(self).received() + chunk@,
            final(self).delivered() == old(self).delivered(),
    {
        let ghost bytes = chunk@;
        self.received = Ghost(self.received@ + bytes);
        self.data = chunk;
        self.pos = 0;
        assert(self.unread() =~= bytes);
        assert(old(self).unread() =~= Seq::<u8>::empty());
        assert(old(self).received@ =~= old(self).delivered@);
    }

    /// Marks `n` bytes of the window as used, or all of them if fewer are
    /// left.
    pub fn consume(&mut self, n: usize)
        requires
            old(self).wf(),
        ensures
            final(self).wf(),
            final(self).capacity() == old(self).capacity(),
            final(self).received() == old(self).received(),
            ({
                let k = if n <= old(self).unread().len() {
                    n as int
                } else {
                    old(self).unread().len() as int
                };
                &&& final(self).unread() == old(self).unread().skip(k)
                &&& final(self).delivered() == old(self).delivered() + old(self).unread().take(k)
            }),
    {
        let avail = self.data.len() - self.pos;
        let k = if n <= avail {
            n
        } else {
            avail
        };
        let ghost w = self.unread();
        self.delivered = Ghost(self.delivered@ + w.take(k as int));
        self.pos = self.pos + k;
        assert(self.unread() =~= w.skip(k as int));
        assert(w =~= w.take(k as int) + w.skip(k as int));
        assert(self.received@ =~= self.delivered@ + self.unread());
    }

    /// Moves up to `max` unread bytes to the end of `out`, returning how many
    /// were moved.
    pub fn drain_into(&mut self, out: &mut Vec<u8>, max: usize) -> (n: usize)
        requires
            old(self).wf(),
        ensures
            final(self).wf(),
            final(self).capacity() == old(self).capacity(),
            final(self).received() == old(self).received(),
            n == if max <= old(self).unread().len() {
                max as int
            } else {
                old(self).unread().len() as int
            },
            final(out)@ == old(out)@ + old(self).unread().take(n as int),
            final(self).unread() == old(self).unread().skip(n as int),
            final(self).delivered() == old(self).delivered() + old(self).unread().take(n as int),
    {
        let avail = self.data.len() - self.pos;
        let n = if max <= avail {
            max
        } else {
            avail
        };
        let ghost w = self.unread();
        let ghost out0 = out@;
        let mut i: usize = 0;
        while i < n
            invariant
                self.wf(),
                self.unread() == w,
                i <= n <= w.len(),
                out@ == out0 + w.take(i as int),
            decreases n - i,
        {
            out.push(self.data[self.pos + i]);
            assert(w.take(i as int + 1) =~= w.take(i as int).push(w[i as int]));
            i = i + 1;
        }
        self.consume(n);
        n
    }
}

/// The bytes of `parts`, one part after another.
pub open spec fn concat_all(parts: Seq<Seq<u8>>) -> Seq<u8>
    decreases parts.len(),
{
    if parts.len() == 0 {
        Seq::empty()
    } else {
        concat_all(parts.drop_last()) + parts.last()
    }
}

/// No data is lost across calls: when a buffer starts empty and goes
/// through the states `states`, each call handing out `outs[j]`, then all
/// that was handed out, in order, is a prefix of the bytes the source
/// produced, and all of them once a call finds the window exhausted.
pub proof fn lemma_no_data_loss_across_calls(states: Seq<TailBuffer>, outs: Seq<Seq<u8>>)
    requires
        states.len() == outs.len() + 1,
        forall|j: int| 0 <= j < states.len() ==> (#[trigger] states[j]).wf(),
        forall|j: int|
            0 <= j < outs.len() ==> (#[trigger] states[j + 1]).delivered() == states[j].delivered()
                + outs[j],
        states[0].delivered() == Seq::<u8>::empty(),
    ensures
        concat_all(outs) == states.last().delivered(),
        concat_all(outs).is_prefix_of(states.last().received()),
        states.last().unread().len() == 0 ==> concat_all(outs) == states.last().received(),
    decreases outs.len(),
{
    let last = states.last();
    if outs.len() == 0 {
        assert(concat_all(outs) =~= Seq::<u8>::empty());
    } else {
        let n = outs.len() - 1;
        let ss = states.drop_last();
        let os = outs.drop_last();
        assert forall|j: int| 0 <= j < ss.len() implies (#[trigger] ss[j]).wf() by {
            assert(ss[j] == states[j]);
        }
        assert forall|j: int| 0 <= j < os.len() implies (#[trigger] ss[j + 1]).delivered()
            == ss[j].delivered() + os[j] by {
            assert(ss[j + 1] == states[j + 1]);
            assert(ss[j] == states[j]);
            assert(os[j] == outs[j]);
        }
        lemma_no_data_loss_across_calls(ss, os);
        assert(ss.last() == states[n]);
        assert(states[n + 1].delivered() == states[n].delivered() + outs[n]);
        assert(last == states[n + 1]);
    }
    last.lemma_no_data_loss();
    assert(last.received().take(last.delivered().len() as int) =~= last.delivered());
}

} // verus!
