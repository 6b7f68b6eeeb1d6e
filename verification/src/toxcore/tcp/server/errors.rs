//! Why the relay refuses a packet or a request.

use vstd::prelude::*;

verus! {

/// Why the relay refuses a packet or a request.
#[derive(Clone, Copy, Debug, PartialEq, Eq, Structural)]
pub enum Error {
    /// The packet is one that a client must not send, or a field of it has a
    /// value that it must not have. The connection it came over is to be
    /// closed.
    ProtocolViolation,
    /// The packet is from a key that is not connected.
    UnknownSender,
    /// The request names a key or an address that is not connected.
    UnknownTarget,
    /// The queue that a packet had to go into is closed.
    SinkClosed,
}

/// What handing a packet to a queue comes to where the loss of the packet
/// is an error: nothing if the queue took the packet, and
/// [`Error::SinkClosed`] if it did not.
pub open spec fn strict(delivered: bool) -> Result<(), Error> {
    if delivered {
        Ok(())
    } else {
        Err(Error::SinkClosed)
    }
}

/// Computes [`strict`].
pub fn delivery(delivered: bool) -> (r: Result<(), Error>)
    ensures
        r == strict(delivered),
{
    if delivered {
        Ok(())
    } else {
        Err(Error::SinkClosed)
    }
}

} // verus!
