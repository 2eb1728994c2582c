//! Server-sent-event framing: the one-way stream format the launcher uses
//! for progress reports and key events.

use vstd::prelude::*;

use crate::text::{ascii, lit, push_all};

verus! {

/// The exact frame an event named `event` with payload `data` occupies on
/// the wire.
pub open spec fn sse_frame(event: Seq<u8>, data: Seq<u8>) -> Seq<u8> {
    ascii("event: "@) + event + ascii("\r\ndata: "@) + data + ascii("\r\n\r\n"@)
}

/// Frames one server-sent event.
pub fn sse_event(event: &[u8], data: &[u8]) -> (r: Vec<u8>)
    ensures
        r@ == sse_frame(event@, data@),
{
    proof {
        reveal_strlit("event: ");
        reveal_strlit("\r\ndata: ");
        reveal_strlit("\r\n\r\n");
    }
    let mut r = lit("event: ");
    push_all(&mut r, event);
    let mid = lit("\r\ndata: ");
    push_all(&mut r, mid.as_slice());
    push_all(&mut r, data);
    let tail = lit("\r\n\r\n");
    push_all(&mut r, tail.as_slice());
    proof {
        assert(r@ =~= sse_frame(event@, data@));
    }
    r
}

} // verus!
