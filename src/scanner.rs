use vstd::prelude::*;
use crate::buffer::TailBuffer;

verus! {

/// No byte of `s` is the delimiter `d`.
pub open spec fn no_delim(s: Seq<u8>, d: u8) -> bool {
    forall|j: int| 0 <= j < s.len() ==> s[j] != d
}

/// `k` bytes of the window `w` form the longest prefix a record may take from
/// it: up to and including the first delimiter, or all of `w` if it holds none.
pub open spec fn record_prefix_len(w: Seq<u8>, d: u8, k: int) -> bool {
    if no_delim(w, d) {
        k == w.len()
    } else {
        &&& 0 < k <= w.len()
        &&& w[k - 1] == d
        &&& no_delim(w.take(k - 1), d)
    }
}

/// Relies on memchr::memchr: the index of the first occurrence of `needle`,
/// or `None` when `haystack` does not hold it.
#[verifier::external_body]
fn find_byte(needle: u8, haystack: &[u8]) -> (r: Option<usize>)
    ensures
        match r {
            Some(i) => i < haystack@.len() && haystack@[i as int] == needle && no_delim(
                haystack@.take(i as int),
                needle,
            ),
            None => no_delim(haystack@, needle),
        },
{
    memchr::memchr(needle, haystack)
}

/// A record never splits at a delimiter: what one scan takes from a window
/// either ends with the delimiter and holds no other, or holds none and is
/// the whole window, which the source had no more to follow right then.
pub proof fn lemma_record_ends_at_delimiter(w: Seq<u8>, d: u8, k: int)
    requires
        record_prefix_len(w, d, k),
        k > 0,
    ensures
        (w.take(k).last() == d && no_delim(w.take(k).drop_last(), d)) || (no_delim(w.take(k), d)
            && k == w.len()),
{
    if no_delim(w, d) {
        assert(w.take(k) =~= w);
    } else {
        assert(w.take(k).drop_last() =~= w.take(k - 1));
    }
}

/// An empty read is no end of stream: a scan takes nothing exactly when the
/// window is empty, so once the source produces new bytes the next scan
/// hands at least one of them out.
pub proof fn lemma_progress_on_new_data(w: Seq<u8>, d: u8, k: int)
    requires
        record_prefix_len(w, d, k),
    ensures
        (k == 0) <==> (w.len() == 0),
        0 <= k <= w.len(),
{
}

/// What one step of a record scan decided.
#[derive(PartialEq, Eq, Structural, Clone, Copy, Debug)]
pub enum ScanStep {
    /// The window was used up without a delimiter: refill it and step again.
    Again(usize),
    /// The call is over: a delimiter was found, or the source had nothing
    /// new. Holds the number of bytes appended over the whole call.
    Finished(usize),
}

impl ScanStep {
    pub open spec fn total(self) -> usize {
        match self {
            ScanStep::Again(t) => t,
            ScanStep::Finished(t) => t,
        }
    }
}

impl TailBuffer {
    /// One step of reading a `delim`-terminated record into `buf`, on a
    /// window that has just been filled. `read` counts the bytes this call
    /// has appended in earlier steps.
    ///
    /// An empty window means the source has nothing new right now: the call
    /// finishes successfully and nothing moves. Otherwise the bytes up to and
    /// including the first delimiter are moved to `buf` and the call finishes;
    /// without a delimiter the whole window is moved and the caller refills
    /// and steps again.
    pub fn scan_step(&mut self, delim: u8, buf: &mut Vec<u8>, read: usize) -> (r: ScanStep)
        requires
            old(self).wf(),
            read <= old(buf)@.len(),
        ensures
            final(self).wf(),
            final(self).capacity() == old(self).capacity(),
            final(self).received() == old(self).received(),
            read <= r.total() <= final(buf)@.len(),
            ({
                let w = old(self).unread();
                let k = r.total() - read;
                &&& record_prefix_len(w, delim, k)
                &&& final(buf)@ == old(buf)@ + w.take(k)
                &&& final(self).unread() == w.skip(k)
                &&& final(self).delivered() == old(self).delivered() + w.take(k)
                &&& (r is Again <==> (w.len() > 0 && no_delim(w, delim)))
            }),
    {
        let ghost w = self.unread();
        let (done, used) = {
            let available = self.window();
            if available.len() == 0 {
                (true, 0)
            } else {
                match find_byte(delim, available) {
                    Some(i) => {
                        let rec = vstd::slice::slice_subrange(available, 0, i + 1);
                        buf.extend_from_slice(rec);
                        assert(available@.take(i + 1) =~= available@.subrange(0, i + 1));
                        (true, i + 1)
                    },
                    None => {
                        buf.extend_from_slice(available);
                        assert(available@.take(available@.len() as int) =~= available@);
                        (false, available.len())
                    },
                }
            }
        };
        assert(buf@ =~= old(buf)@ + w.take(used as int));
        if used == 0 {
            assert(w.take(0) =~= Seq::<u8>::empty());
            assert(w.skip(0) =~= w);
        }
        self.consume(used);
        // The length of `buf` fits in a usize, and so does the running count.
        let len = buf.len();
        assert(read + used <= len);
        let total = read + used;
        if done {
            ScanStep::Finished(total)
        } else {
            ScanStep::Again(total)
        }
    }
}

} // verus!
