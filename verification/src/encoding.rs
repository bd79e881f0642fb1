//! Bounded text: JSON written chunk by chunk within a limit.

use vstd::prelude::*;
use vstd::utf8::{encode_utf8, valid_utf8};
use crate::model::{Error, ErrorView};

verus! {

/// A byte sink that refuses to grow past a limit.
#[derive(Debug)]
pub struct Bounded {
    pub bytes: Vec<u8>,
    pub limit: usize,
    pub overflow: bool,
}

/// What a sink holds after one more chunk, which is written whole or refused.
pub open spec fn extended(before: Seq<u8>, chunk: Seq<u8>, limit: nat) -> Seq<u8> {
    if before.len() + chunk.len() > limit {
        before
    } else {
        before + chunk
    }
}

/// What a sink holds after a series of chunks.
pub open spec fn held(chunks: Seq<Seq<u8>>, limit: nat) -> Seq<u8>
    decreases chunks.len(),
{
    if chunks.len() == 0 {
        Seq::empty()
    } else {
        extended(held(chunks.drop_last(), limit), chunks.last(), limit)
    }
}

/// How an encoder ended that wrote into a sink.
#[derive(Debug, Clone, Copy, PartialEq, Eq, Structural)]
pub enum Encoded {
    Complete,
    Failed,
}

/// Reads bytes as text with `String::from_utf8`. The claim is that valid UTF-8 gives the text
/// that the bytes encode.
#[verifier::external_body]
fn text_of(bytes: Vec<u8>) -> (text: String)
    requires
        valid_utf8(bytes@),
    ensures
        encode_utf8(text@) == bytes@,
{
    String::from_utf8(bytes).expect("JSON is UTF-8")
}

/// The text of an encoding that was written whole, or the reason why there is none.
pub open spec fn encoding_fault(overflow: bool, encoded: Encoded) -> Option<ErrorView> {
    match encoded {
        Encoded::Complete => None,
        Encoded::Failed => Some(
            ErrorView::OutputUnavailable(
                if overflow {
                    "size_limit"@
                } else {
                    "encoding_failed"@
                },
            ),
        ),
    }
}

impl Bounded {
    pub open spec fn wf(&self) -> bool {
        self.bytes@.len() <= self.limit
    }

    pub fn new(limit: usize) -> (sink: Self)
        ensures
            sink.wf(),
            sink.bytes@ == held(Seq::empty(), limit as nat),
            sink.limit == limit,
            !sink.overflow,
    {
        let sink = Bounded { bytes: Vec::new(), limit, overflow: false };
        assert(sink.bytes@ =~= held(Seq::empty(), limit as nat));
        sink
    }

    /// Writes a chunk whole, or refuses it and notes the overflow.
    pub fn write(&mut self, chunk: &[u8]) -> (written: Option<usize>)
        requires
            old(self).wf(),
        ensures
            final(self).wf(),
            final(self).limit == old(self).limit,
            final(self).bytes@ == extended(old(self).bytes@, chunk@, old(self).limit as nat),
            written is None <==> old(self).bytes@.len() + chunk@.len() > old(self).limit,
            written matches Some(n) ==> n == chunk@.len(),
            final(self).overflow == (old(self).overflow || written is None),
    {
        if chunk.len() > self.limit - self.bytes.len() {
            self.overflow = true;
            return None;
        }
        self.bytes.extend_from_slice(chunk);
        assert(self.bytes@ =~= old(self).bytes@ + chunk@);
        Some(chunk.len())
    }

    /// The text that was written, or why there is none.
    pub fn into_text(self, encoded: Encoded) -> (text: Result<String, Error>)
        requires
            self.wf(),
            encoded is Complete ==> valid_utf8(self.bytes@),
        ensures
            text is Ok <==> encoding_fault(self.overflow, encoded) is None,
            text matches Ok(s) ==> encode_utf8(s@) == self.bytes@ && encode_utf8(s@).len()
                <= self.limit,
            text matches Err(e) ==> encoding_fault(self.overflow, encoded) == Some(e@),
    {
        match encoded {
            Encoded::Complete => Ok(text_of(self.bytes)),
            Encoded::Failed => Err(
                Error::OutputUnavailable(
                    if self.overflow {
                        "size_limit".to_string()
                    } else {
                        "encoding_failed".to_string()
                    },
                ),
            ),
        }
    }
}

/// Adding chunks never takes bytes away, and a sink never holds more than its limit.
pub proof fn sink_stays_within_limit(chunks: Seq<Seq<u8>>, limit: nat)
    ensures
        held(chunks, limit).len() <= limit,
        chunks.len() > 0 ==> held(chunks.drop_last(), limit).is_prefix_of(held(chunks, limit)),
    decreases chunks.len(),
{
    if chunks.len() > 0 {
        sink_stays_within_limit(chunks.drop_last(), limit);
        let before = held(chunks.drop_last(), limit);
        assert(before.is_prefix_of(before + chunks.last()));
    }
}

/// The bytes of all chunks in a row.
pub open spec fn joined_chunks(chunks: Seq<Seq<u8>>) -> Seq<u8>
    decreases chunks.len(),
{
    if chunks.len() == 0 {
        Seq::empty()
    } else {
        joined_chunks(chunks.drop_last()) + chunks.last()
    }
}

/// Within the limit nothing is lost: a sink holds every chunk that was written, in order.
pub proof fn sink_keeps_all_within_limit(chunks: Seq<Seq<u8>>, limit: nat)
    requires
        joined_chunks(chunks).len() <= limit,
    ensures
        held(chunks, limit) == joined_chunks(chunks),
    decreases chunks.len(),
{
    if chunks.len() > 0 {
        sink_keeps_all_within_limit(chunks.drop_last(), limit);
    }
}

} // verus!
