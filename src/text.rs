use vstd::prelude::*;
use vstd::string::StringExecFns;

verus! {

/// The text that `b` encodes when it is well-formed UTF-8, and `None`
/// otherwise.
pub uninterp spec fn utf8_text(b: Seq<u8>) -> Option<Seq<char>>;

/// Relies on std::str::from_utf8: it accepts exactly the well-formed UTF-8
/// byte sequences, decoding them to their text, and the empty sequence to
/// the empty text.
#[verifier::external_body]
fn decode_utf8(b: &[u8]) -> (r: Option<&str>)
    ensures
        r is Some <==> utf8_text(b@) is Some,
        r is Some ==> utf8_text(b@) == Some(r.unwrap()@),
        b@.len() == 0 ==> r is Some && r.unwrap()@.len() == 0,
{
    std::str::from_utf8(b).ok()
}

/// Why an append of read bytes to a text accumulator failed.
pub enum AppendError<E> {
    /// The read itself failed; the error is passed on.
    Read(E),
    /// The bytes read are not well-formed UTF-8, whatever the read reported.
    InvalidData,
}

/// The accumulator after appending `bytes`: their text when they decode,
/// the accumulator unchanged when they do not.
pub open spec fn append_text(start: Seq<char>, bytes: Seq<u8>) -> Seq<char> {
    match utf8_text(bytes) {
        Some(t) => start + t,
        None => start,
    }
}

/// The accumulator after a series of appends, one per element of `parts`.
pub open spec fn text_after(start: Seq<char>, parts: Seq<Seq<u8>>) -> Seq<char>
    decreases parts.len(),
{
    if parts.len() == 0 {
        start
    } else {
        append_text(text_after(start, parts.drop_last()), parts.last())
    }
}

/// The texts of `parts` one after another, each assumed to decode.
pub open spec fn joined_text(parts: Seq<Seq<u8>>) -> Seq<char>
    decreases parts.len(),
{
    if parts.len() == 0 {
        Seq::empty()
    } else {
        joined_text(parts.drop_last()) + utf8_text(parts.last()).unwrap()
    }
}

/// Appends the bytes that one read added, `bytes`, to the text accumulator
/// `buf`, given the read's own outcome `ret`.
///
/// Well-formed bytes are appended and the read's outcome is returned. Bytes
/// that are not UTF-8 leave `buf` exactly as it was, and the call fails with
/// `InvalidData` in place of the read's outcome, whatever that was. No bytes
/// append nothing and pass the read's outcome on.
pub fn append_to_string<E>(buf: &mut String, bytes: &[u8], ret: Result<usize, E>) -> (r: Result<
    usize,
    AppendError<E>,
>)
    ensures
        final(buf)@ == append_text(old(buf)@, bytes@),
        utf8_text(bytes@) is None ==> r matches Err(AppendError::InvalidData),
        utf8_text(bytes@) is Some ==> match ret {
            Ok(n) => r == Ok::<usize, AppendError<E>>(n),
            Err(e) => r == Err::<usize, AppendError<E>>(AppendError::Read(e)),
        },
        bytes@.len() == 0 ==> utf8_text(bytes@) == Some(Seq::<char>::empty()) && final(buf)@
            == old(buf)@,
{
    match decode_utf8(bytes) {
        Some(s) => {
            buf.append(s);
            assert(bytes@.len() == 0 ==> buf@ =~= old(buf)@);
            match ret {
                Ok(n) => Ok(n),
                Err(e) => Err(AppendError::Read(e)),
            }
        },
        None => Err(AppendError::InvalidData),
    }
}

/// Text appends are atomic: after appends that all decode, followed by one
/// that does not, the accumulator holds its first content and the texts of
/// the good appends, and nothing of the bad one.
pub proof fn lemma_utf8_atomicity(start: Seq<char>, good: Seq<Seq<u8>>, bad: Seq<u8>)
    requires
        forall|i: int| 0 <= i < good.len() ==> (#[trigger] utf8_text(good[i])) is Some,
        utf8_text(bad) is None,
    ensures
        text_after(start, good.push(bad)) == start + joined_text(good),
{
    assert(good.push(bad).drop_last() =~= good);
    lemma_good_appends(start, good);
}

/// Appends that all decode leave the accumulator as its first content
/// followed by their texts.
pub proof fn lemma_good_appends(start: Seq<char>, good: Seq<Seq<u8>>)
    requires
        forall|i: int| 0 <= i < good.len() ==> (#[trigger] utf8_text(good[i])) is Some,
    ensures
        text_after(start, good) == start + joined_text(good),
    decreases good.len(),
{
    if good.len() == 0 {
        assert(start + Seq::<char>::empty() =~= start);
    } else {
        let rest = good.drop_last();
        assert forall|i: int| 0 <= i < rest.len() implies (#[trigger] utf8_text(rest[i])) is Some by {
            assert(rest[i] == good[i]);
        }
        lemma_good_appends(start, rest);
        assert(utf8_text(good[good.len() - 1]) is Some);
        assert((start + joined_text(rest)) + utf8_text(good.last()).unwrap() =~= start + (
        joined_text(rest) + utf8_text(good.last()).unwrap()));
    }
}

} // verus!
