//! The buffering of the byte-stream adapter over a QCP connection: reads are
//! served from the last message received, writes are gathered and handed to
//! the connection as one message once 64 KiB have accumulated or on flush.

use crate::qcp::link::slice_range;
use crate::text::extend_bytes;
use vstd::prelude::*;

verus! {

/// Writes are sent as a message once this many bytes are buffered.
pub const FLUSH_THRESHOLD: usize = 65536;

/// The read and write buffers of a stream.
pub struct StreamBuffers {
    pub read_buf: Vec<u8>,
    pub write_buf: Vec<u8>,
}

impl StreamBuffers {
    pub fn new() -> (b: StreamBuffers)
        ensures
            b.read_buf@ == Seq::<u8>::empty(),
            b.write_buf@ == Seq::<u8>::empty(),
    {
        StreamBuffers { read_buf: Vec::new(), write_buf: Vec::new() }
    }

    /// Whether the next read needs a new message.
    pub fn needs_message(&self) -> (b: bool)
        ensures
            b == (self.read_buf@.len() == 0),
    {
        self.read_buf.len() == 0
    }

    /// Stores a received message for reading.
    pub fn put_message(&mut self, data: Vec<u8>)
        ensures
            final(self).read_buf@ == old(self).read_buf@ + data@,
            final(self).write_buf@ == old(self).write_buf@,
    {
        extend_bytes(&mut self.read_buf, data.as_slice());
    }

    /// Takes up to `room` bytes from the front of the read buffer.
    pub fn read(&mut self, room: usize) -> (out: Vec<u8>)
        ensures
            out@ == old(self).read_buf@.take(
                if room <= old(self).read_buf@.len() {
                    room as int
                } else {
                    old(self).read_buf@.len() as int
                },
            ),
            final(self).read_buf@ == old(self).read_buf@.skip(out@.len() as int),
            final(self).write_buf@ == old(self).write_buf@,
    {
        let n = if room <= self.read_buf.len() {
            room
        } else {
            self.read_buf.len()
        };
        let mut out: Vec<u8> = Vec::new();
        extend_bytes(&mut out, slice_range(self.read_buf.as_slice(), 0, n));
        let mut rest: Vec<u8> = Vec::new();
        extend_bytes(&mut rest, slice_range(self.read_buf.as_slice(), n, self.read_buf.len()));
        self.read_buf = rest;
        proof {
            assert(out@ =~= old(self).read_buf@.take(n as int));
            assert(self.read_buf@ =~= old(self).read_buf@.skip(n as int));
        }
        out
    }

    /// Buffers `buf`; once the threshold is reached the whole buffer is
    /// returned to be sent as one message, and the buffer is emptied.
    pub fn write(&mut self, buf: &[u8]) -> (out: Option<Vec<u8>>)
        ensures
            old(self).write_buf@.len() + buf@.len() >= FLUSH_THRESHOLD ==> (out matches Some(m)
                && m@ == old(self).write_buf@ + buf@ && final(self).write_buf@.len() == 0),
            old(self).write_buf@.len() + buf@.len() < FLUSH_THRESHOLD ==> (out is None
                && final(self).write_buf@ == old(self).write_buf@ + buf@),
            final(self).read_buf@ == old(self).read_buf@,
    {
        extend_bytes(&mut self.write_buf, buf);
        if self.write_buf.len() >= FLUSH_THRESHOLD {
            let mut data: Vec<u8> = Vec::new();
            std::mem::swap(&mut data, &mut self.write_buf);
            Some(data)
        } else {
            None
        }
    }

    /// Hands out whatever is buffered for writing, if anything.
    pub fn flush(&mut self) -> (out: Option<Vec<u8>>)
        ensures
            old(self).write_buf@.len() == 0 ==> out is None,
            old(self).write_buf@.len() > 0 ==> (out matches Some(m) && m@ == old(self).write_buf@),
            final(self).write_buf@.len() == 0,
            final(self).read_buf@ == old(self).read_buf@,
    {
        if self.write_buf.len() == 0 {
            None
        } else {
            let mut data: Vec<u8> = Vec::new();
            std::mem::swap(&mut data, &mut self.write_buf);
            Some(data)
        }
    }
}

} // verus!
