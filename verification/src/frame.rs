//! Inbound frame assembly: bytes arriving from the serial link are
//! accumulated until a CRLF terminator, which yields one complete frame with
//! the terminator discarded.  Accumulation beyond the fixed capacity is a
//! fatal overflow, never a silent drop.

use vstd::prelude::*;

verus! {

/// Capacity of the frame accumulator, sized to the largest expected frame.
pub const FRAME_CAPACITY: usize = 2048;

#[derive(Debug, PartialEq, Eq, Structural, Clone, Copy)]
pub enum FrameError {
    /// The accumulator is full and no terminator has arrived.
    CapacityExceeded,
}

/// Whether `s` contains the CRLF terminator anywhere.
pub open spec fn has_crlf(s: Seq<u8>) -> bool {
    exists|i: int| 0 <= i < s.len() - 1 && s[i] == 13 && #[trigger] s[i + 1] == 10
}

/// Accumulates serial bytes until a CRLF terminator completes a frame.
pub struct FrameAccumulator {
    buf: Vec<u8>,
}

impl View for FrameAccumulator {
    type V = Seq<u8>;

    /// The bytes accumulated so far, always free of the terminator.
    closed spec fn view(&self) -> Seq<u8> {
        self.buf@
    }
}

impl FrameAccumulator {
    /// The buffer never exceeds its capacity and never holds a terminator:
    /// a terminator completes a frame the moment it arrives.
    pub open spec fn wf(&self) -> bool {
        &&& self@.len() <= FRAME_CAPACITY
        &&& !has_crlf(self@)
    }

    pub fn new() -> (a: FrameAccumulator)
        ensures
            a.wf(),
            a@ == Seq::<u8>::empty(),
    {
        FrameAccumulator { buf: Vec::new() }
    }

    /// Feed one byte.  When the byte completes a CRLF, the frame before the
    /// terminator is returned and the accumulator is cleared; when the
    /// accumulator is already full, the byte is refused as a fatal overflow
    /// and the state is unchanged.
    pub fn push_byte(&mut self, b: u8) -> (r: Result<Option<Vec<u8>>, FrameError>)
        requires
            old(self).wf(),
        ensures
            final(self).wf(),
            match r {
                Err(e) => e == FrameError::CapacityExceeded && old(self)@.len() == FRAME_CAPACITY
                    && final(self)@ == old(self)@,
                Ok(out) => old(self)@.len() < FRAME_CAPACITY && match out {
                    Some(frame) => b == 10 && old(self)@.len() >= 1 && old(self)@.last() == 13
                        && frame@ == old(self)@.drop_last() && final(self)@ == Seq::<u8>::empty(),
                    None => !(b == 10 && old(self)@.len() >= 1 && old(self)@.last() == 13)
                        && final(self)@ == old(self)@.push(b),
                },
            },
    {
        if self.buf.len() >= FRAME_CAPACITY {
            return Err(FrameError::CapacityExceeded);
        }
        let n = self.buf.len();
        if b == 10 && n >= 1 && self.buf[n - 1] == 13 {
            let mut frame = Vec::new();
            core::mem::swap(&mut frame, &mut self.buf);
            frame.pop();
            proof {
                assert(frame@ =~= old(self)@.drop_last());
            }
            return Ok(Some(frame));
        }
        let ghost b0 = self.buf@;
        self.buf.push(b);
        proof {
            let s = self.buf@;
            assert(!has_crlf(s)) by {
                assert(forall|i: int| 0 <= i < b0.len() ==> s[i] == #[trigger] b0[i]);
                if has_crlf(s) {
                    let i = choose|i: int|
                        0 <= i < s.len() - 1 && s[i] == 13 && #[trigger] s[i + 1] == 10;
                    if i < b0.len() - 1 {
                        assert(b0[i] == 13 && b0[i + 1] == 10);
                    } else {
                        assert(i == b0.len() - 1);
                        assert(b0.last() == 13 && b == 10);
                    }
                }
            }
        }
        Ok(None)
    }
}

} // verus!
