//! Forwarding of the bound upstream channel: each read's bytes go to the
//! host's output, exactly and in order, until a read or a write fails.

use vstd::prelude::*;
use vstd::slice::slice_subrange;

verus! {

/// The size of the buffer that each read fills at most.
pub const READ_BUFFER_LEN: usize = 1024;

/// Why forwarding stopped.
#[derive(Clone, Copy, Debug, PartialEq, Eq, Structural)]
pub enum PumpError {
    /// Reading from the channel failed.
    ReadFailed,
    /// Writing to the host's output failed.
    WriteFailed,
}

/// The forwarding loop's state: the bytes handed out so far, and whether it
/// has stopped.
pub struct StreamPump {
    stopped: bool,
    forwarded: Ghost<Seq<u8>>,
}

impl StreamPump {
    /// Every byte handed out to be written, in order.
    pub closed spec fn forwarded(&self) -> Seq<u8> {
        self.forwarded@
    }

    /// Whether a failure has ended forwarding.
    pub closed spec fn stopped(&self) -> bool {
        self.stopped
    }

    /// A pump that has forwarded nothing yet.
    pub fn new() -> (r: StreamPump)
        ensures
            r.forwarded() == Seq::<u8>::empty(),
            !r.stopped(),
    {
        StreamPump { stopped: false, forwarded: Ghost(Seq::empty()) }
    }

    /// Whether a failure has ended forwarding.
    pub fn is_stopped(&self) -> (b: bool)
        ensures
            b == self.stopped(),
    {
        self.stopped
    }

    /// Takes the result of one read into `buf`: `Some(count)` for `count`
    /// bytes read (zero included), `None` for a failed read. Gives the bytes
    /// to write, the first `count` of `buf`, or `ReadFailed`, which stops.
    pub fn on_read<'a>(&mut self, buf: &'a [u8], read: Option<usize>) -> (r: Result<&'a [u8], PumpError>)
        requires
            !old(self).stopped(),
            read matches Some(count) ==> count <= buf@.len(),
        ensures
            read matches Some(count) ==> {
                &&& r matches Ok(chunk) && chunk@ == buf@.subrange(0, count as int)
                &&& final(self).forwarded() == old(self).forwarded() + buf@.subrange(0, count as int)
                &&& !final(self).stopped()
            },
            read is None ==> {
                &&& r == Err::<&[u8], PumpError>(PumpError::ReadFailed)
                &&& final(self).forwarded() == old(self).forwarded()
                &&& final(self).stopped()
            },
    {
        match read {
            Some(count) => {
                let chunk = slice_subrange(buf, 0, count);
                self.forwarded = Ghost(self.forwarded@ + chunk@);
                Ok(chunk)
            },
            None => {
                self.stopped = true;
                Err(PumpError::ReadFailed)
            },
        }
    }

    /// Takes the result of writing a chunk: a failed write stops forwarding
    /// with `WriteFailed`.
    pub fn on_write(&mut self, written: bool) -> (r: Result<(), PumpError>)
        requires
            !old(self).stopped(),
        ensures
            final(self).forwarded() == old(self).forwarded(),
            final(self).stopped() == !written,
            r == if written {
                Ok::<(), PumpError>(())
            } else {
                Err(PumpError::WriteFailed)
            },
    {
        if written {
            Ok(())
        } else {
            self.stopped = true;
            Err(PumpError::WriteFailed)
        }
    }
}

} // verus!
