//! The download pipeline's accounting: bytes streamed to disk are counted
//! and hashed, and every stage reports itself as a server-sent event.  The
//! network and the file are the caller's; the session guarantees that the
//! digest finally reported is the digest of exactly the bytes handed over.

use vstd::prelude::*;

use crate::sse::{sse_event, sse_frame};
use crate::text::{ascii, dec_digits, lit, u64_to_dec};
use crate::trusted::{base64_nopad, base64_nopad_of, hasher_fed, sha512_of, Sha512Hasher};

verus! {

/// One download in progress: how much has arrived and a running digest of
/// it.
pub struct DownloadSession {
    hasher: Sha512Hasher,
    bytes: u64,
    written: Ghost<Seq<u8>>,
}

impl DownloadSession {
    /// The bytes handed to the session so far, in order.
    pub closed spec fn written(self) -> Seq<u8> {
        self.written@
    }

    /// The session's books balance: the digest has seen exactly the bytes
    /// handed over, and the counter is their number.
    pub closed spec fn wf(self) -> bool {
        &&& hasher_fed(self.hasher) == self.written@
        &&& self.bytes == self.written@.len()
    }

    /// Opens the books for a fresh download.
    pub fn start() -> (s: DownloadSession)
        ensures
            s.wf(),
            s.written() == Seq::<u8>::empty(),
    {
        DownloadSession {
            hasher: Sha512Hasher::new(),
            bytes: 0,
            written: Ghost(Seq::empty()),
        }
    }

    /// Accounts one chunk that has been written to the destination file
    /// and returns the progress event to stream: the cumulative byte
    /// count.
    pub fn feed_chunk(&mut self, chunk: &[u8]) -> (ev: Vec<u8>)
        requires
            old(self).wf(),
            old(self).written().len() + chunk@.len() <= u64::MAX,
        ensures
            final(self).wf(),
            final(self).written() == old(self).written() + chunk@,
            ev@ == sse_frame(
                ascii("updateProgress0"@),
                dec_digits(old(self).written().len() + chunk@.len()),
            ),
    {
        proof {
            reveal_strlit("updateProgress0");
        }
        self.hasher.update(chunk);
        self.bytes = self.bytes + chunk.len() as u64;
        proof {
            self.written@ = self.written@ + chunk@;
        }
        let event = lit("updateProgress0");
        let data = u64_to_dec(self.bytes);
        sse_event(event.as_slice(), data.as_slice())
    }

    /// The event that announces unpacking, streamed after the file is
    /// flushed.
    pub fn unpacking_event() -> (ev: Vec<u8>)
        ensures
            ev@ == sse_frame(ascii("updateUnpacking0"@), Seq::<u8>::empty()),
    {
        proof {
            reveal_strlit("updateUnpacking0");
        }
        let event = lit("updateUnpacking0");
        let data: Vec<u8> = Vec::new();
        let ev = sse_event(event.as_slice(), data.as_slice());
        proof {
            assert(data@ =~= Seq::<u8>::empty());
        }
        ev
    }

    /// Closes the books: the final event carries, base64-encoded without
    /// padding, the SHA-512 of exactly the bytes the session accounted.
    pub fn finish(self) -> (ev: Vec<u8>)
        requires
            self.wf(),
        ensures
            ev@ == sse_frame(
                ascii("updateDone0"@),
                base64_nopad_of(sha512_of(self.written())),
            ),
    {
        proof {
            reveal_strlit("updateDone0");
        }
        let digest = self.hasher.finalize();
        let encoded = base64_nopad(digest.as_slice());
        let event = lit("updateDone0");
        sse_event(event.as_slice(), encoded.as_slice())
    }
}

} // verus!
