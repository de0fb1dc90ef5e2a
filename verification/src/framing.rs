//! Cutting a byte stream into newline-terminated records.
//!
//! The stream arrives in chunks of any size. A record is complete once its
//! terminating newline has arrived; what follows the last newline waits for
//! the next chunk.

use vstd::prelude::*;
use crate::text::views_of;

verus! {

/// The byte that ends a record.
pub const NEWLINE: u8 = 10;

/// Whether `bytes` is free of newlines.
pub open spec fn no_newline(bytes: Seq<u8>) -> bool {
    forall|i: int| 0 <= i < bytes.len() ==> bytes[i] != NEWLINE
}

/// The complete records of a stream, in order of arrival, each without its
/// newline.
pub open spec fn records(stream: Seq<u8>) -> Seq<Seq<u8>>
    decreases stream.len(),
{
    if stream.len() == 0 {
        Seq::empty()
    } else if stream.last() == NEWLINE {
        records(stream.drop_last()).push(remainder(stream.drop_last()))
    } else {
        records(stream.drop_last())
    }
}

/// What follows the last newline of a stream: the beginning of a record that
/// is not complete yet.
pub open spec fn remainder(stream: Seq<u8>) -> Seq<u8>
    decreases stream.len(),
{
    if stream.len() == 0 {
        Seq::empty()
    } else if stream.last() == NEWLINE {
        Seq::empty()
    } else {
        remainder(stream.drop_last()).push(stream.last())
    }
}

/// The stream that a list of records makes: each record followed by a
/// newline.
pub open spec fn join_records(lines: Seq<Seq<u8>>) -> Seq<u8>
    decreases lines.len(),
{
    if lines.len() == 0 {
        Seq::empty()
    } else {
        join_records(lines.drop_last()) + lines.last().push(NEWLINE)
    }
}

/// Neither a record nor the remainder holds a newline.
pub proof fn lemma_framing_no_newline(stream: Seq<u8>)
    ensures
        no_newline(remainder(stream)),
        forall|k: int| 0 <= k < records(stream).len() ==> no_newline(#[trigger] records(stream)[k]),
    decreases stream.len(),
{
    if stream.len() > 0 {
        let before = stream.drop_last();
        lemma_framing_no_newline(before);
        assert forall|k: int| 0 <= k < records(stream).len() implies no_newline(
            #[trigger] records(stream)[k],
        ) by {
            if k < records(before).len() {
                assert(records(stream)[k] == records(before)[k]);
            } else {
                assert(records(stream)[k] == remainder(before));
            }
        }
    }
}

/// Framing loses no byte and adds none: the records, each with its newline,
/// followed by the remainder are the stream.
pub proof fn lemma_framing_rebuilds(stream: Seq<u8>)
    ensures
        join_records(records(stream)) + remainder(stream) == stream,
    decreases stream.len(),
{
    if stream.len() > 0 {
        let before = stream.drop_last();
        lemma_framing_rebuilds(before);
        if stream.last() == NEWLINE {
            let lines = records(stream);
            assert(lines.drop_last() =~= records(before));
            assert(lines.last() == remainder(before));
            assert(join_records(lines) + remainder(stream) =~= (join_records(records(before))
                + remainder(before)).push(NEWLINE));
            assert(before.push(NEWLINE) =~= stream);
        } else {
            assert(join_records(records(stream)) + remainder(stream) =~= (join_records(
                records(before),
            ) + remainder(before)).push(stream.last()));
            assert(before.push(stream.last()) =~= stream);
        }
    } else {
        assert(join_records(records(stream)) + remainder(stream) =~= stream);
    }
}

/// A stream without a newline holds no record and is its own remainder.
pub proof fn lemma_framing_of_partial(stream: Seq<u8>)
    requires
        no_newline(stream),
    ensures
        records(stream) == Seq::<Seq<u8>>::empty(),
        remainder(stream) == stream,
    decreases stream.len(),
{
    if stream.len() > 0 {
        lemma_framing_of_partial(stream.drop_last());
        assert(stream.drop_last().push(stream.last()) =~= stream);
    } else {
        assert(remainder(stream) =~= stream);
    }
}

/// Where a stream is cut into two chunks makes no difference: the records of
/// the whole are those of the first chunk followed by those that the second
/// chunk completes, and the same bytes are left waiting.
pub proof fn lemma_framing_split(first: Seq<u8>, second: Seq<u8>)
    ensures
        records(first + second) == records(first) + records(remainder(first) + second),
        remainder(first + second) == remainder(remainder(first) + second),
    decreases second.len(),
{
    let whole = first + second;
    let tail = remainder(first) + second;
    if second.len() == 0 {
        lemma_framing_no_newline(first);
        lemma_framing_of_partial(remainder(first));
        assert(whole =~= first);
        assert(tail =~= remainder(first));
        assert(records(first) + records(tail) =~= records(first));
    } else {
        let shorter = second.drop_last();
        lemma_framing_split(first, shorter);
        assert(whole.drop_last() =~= first + shorter);
        assert(tail.drop_last() =~= remainder(first) + shorter);
        assert(whole.last() == second.last());
        assert(tail.last() == second.last());
        if second.last() == NEWLINE {
            assert(records(whole) =~= records(first) + records(tail));
        }
    }
}

/// The bytes of a record that is not complete yet.
pub struct LineBuffer {
    pending: Vec<u8>,
}

impl View for LineBuffer {
    type V = Seq<u8>;

    closed spec fn view(&self) -> Seq<u8> {
        self.pending@
    }
}

impl LineBuffer {
    #[verifier::type_invariant]
    spec fn holds_no_newline(self) -> bool {
        no_newline(self.pending@)
    }

    /// A buffer in which nothing waits.
    pub fn new() -> (buffer: LineBuffer)
        ensures
            buffer@ == Seq::<u8>::empty(),
    {
        LineBuffer { pending: Vec::new() }
    }

    /// How many bytes wait for their newline.
    pub fn len(&self) -> (n: usize)
        ensures
            n == self@.len(),
    {
        self.pending.len()
    }

    /// Drops what waits.
    pub fn clear(&mut self)
        ensures
            final(self)@ == Seq::<u8>::empty(),
    {
        self.pending = Vec::new();
    }

    /// Takes in a chunk and hands out the records that it completes.
    ///
    /// The stream so far is what waited before followed by the chunk. Its
    /// complete records come back in order, each without its newline; what
    /// follows its last newline waits on.
    pub fn feed(&mut self, chunk: &[u8]) -> (complete: Vec<Vec<u8>>)
        ensures
            views_of(complete@) == records(old(self)@ + chunk@),
            final(self)@ == remainder(old(self)@ + chunk@),
    {
        proof {
            use_type_invariant(&*self);
        }
        let ghost waiting = self.pending@;
        let mut current: Vec<u8> = Vec::new();
        core::mem::swap(&mut self.pending, &mut current);
        let mut complete: Vec<Vec<u8>> = Vec::new();
        proof {
            lemma_framing_of_partial(waiting);
            assert(waiting + chunk@.take(0) =~= waiting);
            assert(views_of(complete@) =~= records(waiting));
        }
        let mut i: usize = 0;
        while i < chunk.len()
            invariant
                i <= chunk.len(),
                current@ == remainder(waiting + chunk@.take(i as int)),
                views_of(complete@) == records(waiting + chunk@.take(i as int)),
            decreases chunk.len() - i,
        {
            let byte = chunk[i];
            let ghost before = waiting + chunk@.take(i as int);
            let ghost after = waiting + chunk@.take(i + 1);
            let ghost lines = complete@;
            proof {
                assert(after.drop_last() =~= before);
                assert(after.last() == byte);
            }
            if byte == NEWLINE {
                let mut record: Vec<u8> = Vec::new();
                core::mem::swap(&mut current, &mut record);
                complete.push(record);
                proof {
                    assert(views_of(complete@) =~= views_of(lines).push(remainder(before)));
                }
            } else {
                current.push(byte);
            }
            i += 1;
        }
        proof {
            assert(chunk@.take(chunk@.len() as int) =~= chunk@);
            lemma_framing_no_newline(waiting + chunk@);
        }
        self.pending = current;
        complete
    }
}

} // verus!
