//! One step of serving a connection: from the bytes read so far to what to do next.
use vstd::prelude::*;
use crate::framing::{frame_request, framed_as, Frame};
use crate::handler::{handled, HostnameHandler};
use crate::request::HttpRequest;
use crate::response::{wire_bytes, HttpResponse};

verus! {

/// What to do next with a connection.
pub enum Step {
    /// Read more bytes and take the step again.
    ReadMore,
    /// Close the connection without writing anything.
    Close,
    /// Write these bytes, then close the connection.
    Respond(Vec<u8>),
}

/// Takes one step on a connection whose bytes so far are `buf`; `closed` says that
/// the peer has closed it. The registry is consulted, and changed, only once a whole
/// request has arrived; a connection that is abandoned gets no answer and leaves the
/// registry as it was.
pub fn serve_step(handler: &mut HostnameHandler, buf: &Vec<u8>, closed: bool) -> (r: Step)
    ensures
        framed_as(buf@, closed, Frame::Incomplete) ==> r is ReadMore && final(handler)@ == old(
            handler,
        )@,
        framed_as(buf@, closed, Frame::Abandoned) ==> r is Close && final(handler)@ == old(
            handler,
        )@,
        r is ReadMore ==> framed_as(buf@, closed, Frame::Incomplete),
        r is Close ==> framed_as(buf@, closed, Frame::Abandoned),
        r matches Step::Respond(b) ==> exists|q: HttpRequest, resp: HttpResponse|
            framed_as(buf@, closed, Frame::Complete(q)) && handled(
                old(handler)@,
                final(handler)@,
                &q,
                &resp,
            ) && b@ == wire_bytes(&resp),
{
    match frame_request(buf, closed) {
        Frame::Incomplete => Step::ReadMore,
        Frame::Abandoned => Step::Close,
        Frame::Complete(q) => {
            let resp = handler.handle_request(&q);
            let b = resp.to_bytes();
            assert(framed_as(buf@, closed, Frame::Complete(q)) && handled(
                old(handler)@,
                handler@,
                &q,
                &resp,
            ) && b@ == wire_bytes(&resp));
            Step::Respond(b)
        },
    }
}

} // verus!
