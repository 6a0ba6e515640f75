//! The ingestion side: one TCP connection's streaming state, the lenient
//! UTF-8 decoding discipline applied to every chunk, and the decision taken
//! on each read outcome.
//!
//! The caller owns the socket and the file: it reads chunks, feeds each read
//! outcome to [`IngestionSession::handle_event`], and appends the returned
//! bytes to the session's file under the storage lock.

use vstd::prelude::*;

use vstd::utf8::{valid_utf8, valid_utf8_concat};

verus! {

/// What `String::from_utf8_lossy` hands back for the given bytes, re-encoded
/// as UTF-8 bytes: invalid sequences become replacement characters.
pub uninterp spec fn lossy_of(bytes: Seq<u8>) -> Seq<u8>;

/// Relies on `String::from_utf8_lossy`: its documentation promises that
/// valid UTF-8 input is returned unchanged, and the result, being a string,
/// is itself valid UTF-8. The result depends on the bytes alone.
#[verifier::external_body]
fn lossy_to_bytes(bytes: &[u8]) -> (r: Vec<u8>)
    ensures
        r@ == lossy_of(bytes@),
        valid_utf8(bytes@) ==> r@ == bytes@,
        valid_utf8(r@),
{
    String::from_utf8_lossy(bytes).into_owned().into_bytes()
}

/// One observation of the ingestion socket.
pub enum ReadEvent {
    /// The read returned these bytes; an empty read means the peer closed
    /// the connection cleanly.
    Received(Vec<u8>),
    /// The idle timeout elapsed with no data.
    TimedOut,
    /// Any other read error.
    Failed,
}

/// What the caller must do next with the session.
pub enum IngestStep {
    /// Append these bytes to the session's file and keep reading.
    Append(Vec<u8>),
    /// Close the session; the file keeps what was written so far.
    Stop,
}

/// The bytes the session's file holds after receiving exactly these chunks:
/// each decoded leniently, in order.
pub open spec fn session_stored(chunks: Seq<Seq<u8>>) -> Seq<u8>
    decreases chunks.len(),
{
    if chunks.len() == 0 {
        Seq::empty()
    } else {
        session_stored(chunks.drop_last()) + lossy_of(chunks.last())
    }
}

/// The whole payload one connection sent: its chunks concatenated.
pub open spec fn concat_chunks(chunks: Seq<Seq<u8>>) -> Seq<u8>
    decreases chunks.len(),
{
    if chunks.len() == 0 {
        Seq::empty()
    } else {
        concat_chunks(chunks.drop_last()) + chunks.last()
    }
}

/// One TCP connection's worth of streaming state: the assigned filename and
/// a model of every byte appended to its file so far.
pub struct IngestionSession {
    /// The file's name inside the storage directory.
    pub filename: Vec<u8>,
    /// Model of the file's contents: the bytes appended so far, in order.
    pub stored: Ghost<Seq<u8>>,
}

impl IngestionSession {
    /// Opens a session for a freshly named, initially empty file.
    pub fn new(filename: Vec<u8>) -> (s: Self)
        ensures
            s.filename@ == filename@,
            s.stored@ == Seq::<u8>::empty(),
    {
        IngestionSession { filename, stored: Ghost(Seq::empty()) }
    }

    /// Decodes one received chunk leniently and records its append. The
    /// returned bytes are what the caller must write to the file.
    pub fn ingest_chunk(&mut self, chunk: &[u8]) -> (out: Vec<u8>)
        ensures
            out@ == lossy_of(chunk@),
            valid_utf8(chunk@) ==> out@ == chunk@,
            valid_utf8(out@),
            final(self).stored@ == old(self).stored@ + out@,
            valid_utf8(old(self).stored@) ==> valid_utf8(final(self).stored@),
            final(self).filename == old(self).filename,
    {
        let out = lossy_to_bytes(chunk);
        proof {
            if valid_utf8(self.stored@) {
                valid_utf8_concat(self.stored@, out@);
            }
            self.stored@ = self.stored@ + out@;
        }
        out
    }

    /// Decides one read outcome the way the ingestion handler's loop does:
    /// data is decoded and appended; a clean close, a timeout or a failed
    /// read stops the session with the file kept as it is.
    pub fn handle_event(&mut self, event: ReadEvent) -> (step: IngestStep)
        ensures
            final(self).filename == old(self).filename,
            valid_utf8(old(self).stored@) ==> valid_utf8(final(self).stored@),
            match event {
                ReadEvent::Received(b) => if b@.len() > 0 {
                    step matches IngestStep::Append(out) && out@ == lossy_of(b@)
                        && final(self).stored@ == old(self).stored@ + lossy_of(b@)
                        && (valid_utf8(b@) ==> final(self).stored@ == old(self).stored@ + b@)
                } else {
                    step matches IngestStep::Stop && final(self).stored@ == old(self).stored@
                },
                _ => step matches IngestStep::Stop && final(self).stored@ == old(self).stored@,
            },
    {
        match event {
            ReadEvent::Received(b) => {
                if b.len() > 0 {
                    let out = self.ingest_chunk(b.as_slice());
                    IngestStep::Append(out)
                } else {
                    IngestStep::Stop
                }
            },
            ReadEvent::TimedOut => IngestStep::Stop,
            ReadEvent::Failed => IngestStep::Stop,
        }
    }

    /// Runs a whole session over the chunks one connection delivered before
    /// closing. The file ends up with the lenient decoding of each chunk, in
    /// order; and whenever every chunk is valid UTF-8 on its own — in
    /// particular when the payload arrives split only at character
    /// boundaries — the file is byte-for-byte the payload that was sent.
    pub fn ingest_all(&mut self, chunks: &Vec<Vec<u8>>)
        ensures
            final(self).filename == old(self).filename,
            valid_utf8(old(self).stored@) ==> valid_utf8(final(self).stored@),
            final(self).stored@ == old(self).stored@ + session_stored(chunks.deep_view()),
            (forall|i: int| 0 <= i < chunks@.len() ==> valid_utf8(chunks.deep_view()[i]))
                ==> final(self).stored@ == old(self).stored@ + concat_chunks(chunks.deep_view()),
    {
        let ghost dv = chunks.deep_view();
        let mut i: usize = 0;
        proof {
            assert(session_stored(dv.take(0)) =~= Seq::<u8>::empty());
            assert(concat_chunks(dv.take(0)) =~= Seq::<u8>::empty());
            assert(self.stored@ =~= old(self).stored@ + session_stored(dv.take(0)));
        }
        while i < chunks.len()
            invariant
                i <= chunks@.len(),
                dv == chunks.deep_view(),
                dv.len() == chunks@.len(),
                self.filename == old(self).filename,
                valid_utf8(old(self).stored@) ==> valid_utf8(self.stored@),
                self.stored@ == old(self).stored@ + session_stored(dv.take(i as int)),
                (forall|j: int| 0 <= j < i ==> valid_utf8(dv[j])) ==> self.stored@ == old(
                    self,
                ).stored@ + concat_chunks(dv.take(i as int)),
            decreases chunks@.len() - i,
        {
            proof {
                assert(dv[i as int] == chunks@[i as int].deep_view());
                assert(chunks@[i as int].deep_view() =~= chunks@[i as int]@);
            }
            let _ = self.ingest_chunk(chunks[i].as_slice());
            proof {
                assert(dv.take(i + 1 as int).drop_last() =~= dv.take(i as int));
                assert(dv.take(i + 1 as int).last() == dv[i as int]);
                assert(self.stored@ =~= old(self).stored@ + session_stored(dv.take(i + 1 as int)));
                if forall|j: int| 0 <= j < i + 1 ==> valid_utf8(dv[j]) {
                    assert(valid_utf8(dv[i as int]));
                    assert(self.stored@ =~= old(self).stored@ + concat_chunks(
                        dv.take(i + 1 as int),
                    ));
                }
            }
            i += 1;
        }
        proof {
            assert(dv.take(chunks@.len() as int) =~= dv);
        }
    }
}

} // verus!
