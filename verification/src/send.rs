//! Sliding-window sender.
//!
//! The machine holds up to `windowsize` built DATA frames.  The caller
//! feeds it source blocks (`feed_block`), hands incoming ACK packets in
//! (`ack_packet`), and asks it what to do next (`next`); the machine never
//! touches a socket, a file or a clock.

use vstd::prelude::*;
use vstd::seq_lib::lemma_flatten_concat;
use crate::codec::{
    spec_build_data, spec_parse_opcode_raw, spec_u16_at, Opcode, PacketBuilder, PacketParser,
};
use crate::consts::{ACK_LEN, RESEND_TIMEOUT_MS, RETRY_COUNT};
use crate::ring::{
    lemma_ring_add_assoc, ring_add, ring_diff, spec_ring_add, spec_ring_diff,
};
use crate::timer::{spec_elapsed_over, OneshotTimer};

verus! {

/// What the caller should do after a `next` step.
#[derive(Clone, Copy, Debug, PartialEq, Eq, Structural)]
pub enum SendAction {
    /// Transmit every frame of the queue, in order.
    SendBuffer,
    /// Nothing to do; wait for the next ACK or clock tick.
    NoOp,
    /// Retries are exhausted: the transfer failed.
    Timeout,
    /// The final block is acknowledged: the transfer is complete.
    End,
}

/// The payload carried by each built frame.
pub open spec fn spec_payloads(bufs: Seq<Vec<u8>>) -> Seq<Seq<u8>> {
    Seq::new(bufs.len(), |i: int| bufs[i]@.skip(4))
}

/// The sliding-window sender.
pub struct SendStateMachine {
    pub windowsize: usize,
    pub blksize: usize,
    /// The outstanding DATA frames; position `i` carries block
    /// `acked + i + 1` (mod 2^16).
    pub bufs: Vec<Vec<u8>>,
    /// The last block number the peer has acknowledged.
    pub acked: u16,
    /// Whether an ACK advanced the window since the last emission.
    pub new_acked: bool,
    /// Whether the source has signalled its end with a short block.
    pub is_reader_end: bool,
    /// Whether the transfer is complete.
    pub is_end: bool,
    pub timeout: OneshotTimer,
    pub retry: usize,
    /// How many payload bytes were taken from the source.
    pub data_read: usize,
    /// Every payload byte taken from the source, in order.
    pub read_bytes: Ghost<Seq<u8>>,
    /// The prefix of `read_bytes` the peer has acknowledged.
    pub acked_bytes: Ghost<Seq<u8>>,
}

impl SendStateMachine {
    /// Each queued frame is a DATA frame for its window position, full
    /// except possibly the last once the source has ended.
    pub open spec fn frames_wf(self) -> bool {
        forall|i: int|
            0 <= i < self.bufs@.len() ==> {
                &&& (#[trigger] self.bufs@[i])@.len() >= 4
                &&& self.bufs@[i]@ == spec_build_data(
                    spec_ring_add(self.acked, i + 1),
                    self.bufs@[i]@.skip(4),
                )
                &&& self.bufs@[i]@.len() <= 4 + self.blksize
                &&& (i < self.bufs@.len() - 1 ==> self.bufs@[i]@.len() == 4 + self.blksize)
                &&& (!self.is_reader_end ==> self.bufs@[i]@.len() == 4 + self.blksize)
            }
    }

    /// The machine's invariant.
    pub open spec fn wf(self) -> bool {
        &&& 1 <= self.blksize <= 65464
        &&& 1 <= self.windowsize <= 65535
        &&& self.bufs@.len() <= self.windowsize
        &&& self.frames_wf()
        &&& self.acked_bytes@ + spec_payloads(self.bufs@).flatten() == self.read_bytes@
        &&& self.data_read == self.read_bytes@.len()
        &&& self.retry <= RETRY_COUNT
        &&& (self.is_end ==> self.is_reader_end && self.bufs@.len() == 0)
    }

    /// A fresh sender: nothing read, nothing acknowledged.
    pub fn new(blksize: usize, windowsize: usize) -> (r: SendStateMachine)
        requires
            1 <= blksize <= 65464,
            1 <= windowsize <= 65535,
        ensures
            r.wf(),
            r.blksize == blksize,
            r.windowsize == windowsize,
            r.bufs@.len() == 0,
            r.acked == 0,
            r.new_acked,
            !r.is_reader_end,
            !r.is_end,
            r.retry == RETRY_COUNT,
            r.data_read == 0,
            r.read_bytes@ == Seq::<u8>::empty(),
            r.acked_bytes@ == Seq::<u8>::empty(),
            r.timeout.start.is_none(),
            r.timeout.timeout == RESEND_TIMEOUT_MS,
    {
        let r = SendStateMachine {
            windowsize,
            blksize,
            bufs: Vec::new(),
            acked: 0,
            new_acked: true,
            is_reader_end: false,
            is_end: false,
            timeout: OneshotTimer::new(RESEND_TIMEOUT_MS),
            retry: RETRY_COUNT,
            data_read: 0,
            read_bytes: Ghost(Seq::empty()),
            acked_bytes: Ghost(Seq::empty()),
        };
        proof {
            assert(spec_payloads(r.bufs@) =~= Seq::<Seq<u8>>::empty());
            assert(r.acked_bytes@ + spec_payloads(r.bufs@).flatten() =~= Seq::<u8>::empty());
        }
        r
    }

    /// How many frames are queued.
    pub fn fill_level(&self) -> (r: usize)
        ensures
            r == self.bufs@.len(),
    {
        self.bufs.len()
    }

    /// The queued frames, in transmission order.
    pub fn send_data(&self) -> (r: &Vec<Vec<u8>>)
        ensures
            r@ == self.bufs@,
    {
        &self.bufs
    }

    /// How many payload bytes were taken from the source.
    pub fn read_len(&self) -> (r: usize)
        ensures
            r == self.data_read,
    {
        self.data_read
    }

    /// Whether the machine wants another source block before stepping.
    pub fn needs_block(&self) -> (r: bool)
        ensures
            r == (!self.is_end && !self.is_reader_end && self.bufs@.len() < self.windowsize),
    {
        !self.is_end && !self.is_reader_end && self.bufs.len() < self.windowsize
    }

    /// Queue one source block as the next DATA frame.  A short block
    /// (fewer than `blksize` bytes, possibly none) marks the source
    /// exhausted; the frame still enters the queue as the final block.
    pub fn feed_block(&mut self, block: Vec<u8>)
        requires
            old(self).wf(),
            !old(self).is_end,
            !old(self).is_reader_end,
            old(self).bufs@.len() < old(self).windowsize,
            block@.len() <= old(self).blksize,
            old(self).data_read + block@.len() <= usize::MAX,
        ensures
            final(self).wf(),
            final(self).windowsize == old(self).windowsize,
            final(self).blksize == old(self).blksize,
            final(self).acked == old(self).acked,
            final(self).new_acked == old(self).new_acked,
            final(self).is_end == old(self).is_end,
            final(self).timeout == old(self).timeout,
            final(self).retry == old(self).retry,
            final(self).bufs@.len() == old(self).bufs@.len() + 1,
            final(self).bufs@ =~= old(self).bufs@.push(final(self).bufs@.last()),
            final(self).bufs@.last()@ == spec_build_data(
                spec_ring_add(old(self).acked, old(self).bufs@.len() as int + 1),
                block@,
            ),
            final(self).is_reader_end == (block@.len() < old(self).blksize),
            final(self).read_bytes@ == old(self).read_bytes@ + block@,
            final(self).acked_bytes@ == old(self).acked_bytes@,
            final(self).data_read == old(self).data_read + block@.len(),
    {
        let next_pos = self.bufs.len() + 1;
        assert(next_pos <= 65535);
        let blknum = ring_add(self.acked, next_pos as u16);
        let frame = PacketBuilder::new().opcode(Opcode::Data).number16(blknum).raw_data(
            block.as_slice(),
        ).into_vec();
        proof {
            assert(frame@ =~= spec_build_data(blknum, block@));
            assert(frame@.skip(4) =~= block@);
        }
        if block.len() < self.blksize {
            self.is_reader_end = true;
        }
        self.data_read = self.data_read + block.len();
        let ghost old_read = self.read_bytes@;
        self.read_bytes = Ghost(self.read_bytes@ + block@);
        let ghost bufs0 = self.bufs@;
        self.bufs.push(frame);
        proof {
            assert(spec_payloads(self.bufs@) =~= spec_payloads(bufs0).push(block@));
            spec_payloads(bufs0).lemma_flatten_push(block@);
            assert(self.acked_bytes@ + spec_payloads(self.bufs@).flatten() =~= (
            self.acked_bytes@ + spec_payloads(bufs0).flatten()) + block@);
        }
    }

    /// How the state after an accepted or ignored ACK relates to the state
    /// before it.  A block number outside the window, or beyond what was
    /// ever sent, changes nothing.
    pub open spec fn spec_ack_rel(pre: Self, post: Self, blknum: u16) -> bool {
        let d = spec_ring_diff(pre.acked, blknum);
        if d > pre.windowsize || d > pre.bufs@.len() {
            post == pre
        } else {
            &&& post.bufs@ == pre.bufs@.subrange(d, pre.bufs@.len() as int)
            &&& post.acked == spec_ring_add(pre.acked, d)
            &&& post.acked_bytes@ == pre.acked_bytes@ + spec_payloads(
                pre.bufs@.subrange(0, d),
            ).flatten()
            &&& post.read_bytes@ == pre.read_bytes@
            &&& post.new_acked == (pre.new_acked || d > 0)
            &&& post.is_end == (pre.is_end || (pre.is_reader_end && pre.bufs@.len() == d))
            &&& post.windowsize == pre.windowsize
            &&& post.blksize == pre.blksize
            &&& post.is_reader_end == pre.is_reader_end
            &&& post.data_read == pre.data_read
            &&& (post.new_acked ==> post.retry == RETRY_COUNT && post.timeout.start.is_none()
                && post.timeout.timeout == pre.timeout.timeout)
            &&& (!post.new_acked ==> post.retry == pre.retry && post.timeout == pre.timeout)
        }
    }

    /// Advance the window to an acknowledged block number.  Ignores block
    /// numbers outside the window (duplicates and spurious ACKs).  On
    /// progress, resets the retransmit timer and the retry budget.
    pub fn ack(&mut self, blknum: u16)
        requires
            old(self).wf(),
        ensures
            final(self).wf(),
            Self::spec_ack_rel(*old(self), *final(self), blknum),
    {
        let diff = ring_diff(self.acked, blknum);

        if diff > self.windowsize || diff > self.bufs.len() {
            return;
        }

        let ghost pre = *self;
        let tail = self.bufs.split_off(diff);
        let ghost popped = self.bufs@;
        self.bufs = tail;
        self.acked = ring_add(self.acked, diff as u16);
        let ghost d = diff as int;
        self.acked_bytes = Ghost(self.acked_bytes@ + spec_payloads(pre.bufs@.subrange(0, d)).flatten());
        if diff > 0 {
            self.new_acked = true;
        }

        if self.is_reader_end && self.bufs.len() == 0 {
            self.is_end = true;
        }

        if self.new_acked {
            self.timeout.reset();
            self.retry = RETRY_COUNT;
        }

        proof {
            assert(popped =~= pre.bufs@.subrange(0, d));
            assert(self.bufs@ =~= pre.bufs@.subrange(d, pre.bufs@.len() as int));
            // The whole queue's payloads split at the acknowledged point.
            assert(spec_payloads(pre.bufs@) =~= spec_payloads(pre.bufs@.subrange(0, d))
                + spec_payloads(pre.bufs@.subrange(d, pre.bufs@.len() as int)));
            lemma_flatten_concat(
                spec_payloads(pre.bufs@.subrange(0, d)),
                spec_payloads(pre.bufs@.subrange(d, pre.bufs@.len() as int)),
            );
            assert(self.acked_bytes@ + spec_payloads(self.bufs@).flatten()
                =~= pre.acked_bytes@ + spec_payloads(pre.bufs@).flatten());
            // Remaining frames keep their window positions relative to the
            // advanced acknowledgement point.
            assert forall|i: int| 0 <= i < self.bufs@.len() implies {
                &&& (#[trigger] self.bufs@[i])@.len() >= 4
                &&& self.bufs@[i]@ == spec_build_data(
                    spec_ring_add(self.acked, i + 1),
                    self.bufs@[i]@.skip(4),
                )
                &&& self.bufs@[i]@.len() <= 4 + self.blksize
                &&& (i < self.bufs@.len() - 1 ==> self.bufs@[i]@.len() == 4 + self.blksize)
                &&& (!self.is_reader_end ==> self.bufs@[i]@.len() == 4 + self.blksize)
            } by {
                assert(self.bufs@[i] == pre.bufs@[d + i]);
                lemma_ring_add_assoc(pre.acked, d, i + 1);
            }
        }
    }

    /// Feed one received packet in as a possible ACK.  Anything but a
    /// well-formed 4-byte ACK changes nothing.
    pub fn ack_packet(&mut self, frame: &[u8])
        requires
            old(self).wf(),
        ensures
            final(self).wf(),
            if frame@.len() == ACK_LEN && spec_parse_opcode_raw(frame@) == Some(Opcode::Ack) {
                Self::spec_ack_rel(*old(self), *final(self), spec_u16_at(frame@, 2))
            } else {
                *final(self) == *old(self)
            },
    {
        let mut pp = PacketParser::new(frame);

        if frame.len() != ACK_LEN || !pp.opcode_expect(Opcode::Ack) {
            return;
        }

        if let Some(num) = pp.number16() {
            proof {
                assert(frame@.subrange(2, frame@.len() as int)[0] == frame@[2]);
                assert(frame@.subrange(2, frame@.len() as int)[1] == frame@[3]);
            }
            self.ack(num);
        }
    }

    /// Decide the next action.  The caller feeds blocks first (see
    /// `needs_block`) and passes the current time in milliseconds.
    pub fn next(&mut self, now_ms: u64) -> (r: SendAction)
        requires
            old(self).wf(),
        ensures
            final(self).wf(),
            final(self).windowsize == old(self).windowsize,
            final(self).blksize == old(self).blksize,
            final(self).bufs@ == old(self).bufs@,
            final(self).acked == old(self).acked,
            final(self).is_reader_end == old(self).is_reader_end,
            final(self).is_end == old(self).is_end,
            final(self).data_read == old(self).data_read,
            final(self).read_bytes@ == old(self).read_bytes@,
            final(self).acked_bytes@ == old(self).acked_bytes@,
            final(self).timeout.timeout == old(self).timeout.timeout,
            !old(self).is_end ==> !final(self).new_acked,
            old(self).is_end ==> r == SendAction::End && *final(self) == *old(self),
            !old(self).is_end && old(self).new_acked ==> r == SendAction::SendBuffer && final(self).retry == old(self).retry && final(self).timeout == old(self).timeout,
            !old(self).is_end && !old(self).new_acked ==> match old(self).timeout.start {
                None => r == SendAction::NoOp && final(self).retry == old(self).retry && final(self).timeout.start == Some(now_ms),
                Some(t) => {
                    if !spec_elapsed_over(t, old(self).timeout.timeout, now_ms) {
                        r == SendAction::NoOp && *final(self) == *old(self)
                    } else if old(self).retry == 0 {
                        r == SendAction::Timeout && *final(self) == *old(self)
                    } else {
                        r == SendAction::SendBuffer && final(self).retry == old(self).retry - 1
                            && final(self).timeout.start == Some(now_ms)
                    }
                },
            },
    {
        if self.is_end {
            return SendAction::End;
        }

        if self.new_acked {
            self.new_acked = false;
            return SendAction::SendBuffer;
        }

        if self.timeout.is_timeout(now_ms) {
            if self.retry == 0 {
                return SendAction::Timeout;
            } else {
                self.retry = self.retry - 1;
                self.timeout.explicit_start(now_ms);
                return SendAction::SendBuffer;
            }
        }

        SendAction::NoOp
    }
}

/// On the wire, the queued DATA frames carry a contiguous run of block
/// numbers starting right after the acknowledged block: frame `i` is a
/// DATA frame for block `acked + i + 1` (mod 2^16).
pub proof fn lemma_window_contiguous(m: SendStateMachine)
    requires
        m.wf(),
    ensures
        forall|i: int|
            0 <= i < m.bufs@.len() ==> spec_parse_opcode_raw((#[trigger] m.bufs@[i])@) == Some(
                Opcode::Data,
            ),
        forall|i: int|
            0 <= i < m.bufs@.len() ==> spec_u16_at((#[trigger] m.bufs@[i])@, 2) == spec_ring_add(
                m.acked,
                i + 1,
            ),
{
    assert forall|i: int|
        0 <= i < m.bufs@.len() implies spec_parse_opcode_raw((#[trigger] m.bufs@[i])@) == Some(
        Opcode::Data,
    ) && spec_u16_at(m.bufs@[i]@, 2) == spec_ring_add(m.acked, i + 1) by {
        let s = m.bufs@[i]@;
        let blk = spec_ring_add(m.acked, i + 1);
        assert(s == crate::codec::spec_build_data(blk, s.skip(4)));
        assert(s[0] == 0 && s[1] == 3);
        assert(s[2] == blk / 256 && s[3] == blk % 256);
        assert((0 as int) * 256 + 3 == 3);
        assert((blk / 256) * 256 + blk % 256 == blk) by (nonlinear_arith);
    }
}

/// The windowed send queue alone, without the retransmit machinery: for
/// callers that drive timing themselves.
pub struct WindowBuffer {
    pub inner: SendStateMachine,
}

impl WindowBuffer {
    /// The machine's invariant.
    pub open spec fn wf(self) -> bool {
        self.inner.wf()
    }

    /// A fresh window over an unread source.
    pub fn new(blksize: usize, windowsize: usize) -> (r: WindowBuffer)
        requires
            1 <= blksize <= 65464,
            1 <= windowsize <= 65535,
        ensures
            r.wf(),
            r.inner.blksize == blksize,
            r.inner.windowsize == windowsize,
            r.inner.bufs@.len() == 0,
            r.inner.acked == 0,
            !r.inner.is_reader_end,
            !r.inner.is_end,
            r.inner.read_bytes@ == Seq::<u8>::empty(),
            r.inner.acked_bytes@ == Seq::<u8>::empty(),
    {
        WindowBuffer { inner: SendStateMachine::new(blksize, windowsize) }
    }

    /// How many frames are queued.
    pub fn fill_level(&self) -> (r: usize)
        ensures
            r == self.inner.bufs@.len(),
    {
        self.inner.fill_level()
    }

    /// The queued frames, in transmission order.
    pub fn send_data(&self) -> (r: &Vec<Vec<u8>>)
        ensures
            r@ == self.inner.bufs@,
    {
        self.inner.send_data()
    }

    /// Whether the window wants another source block.
    pub fn needs_block(&self) -> (r: bool)
        ensures
            r == (!self.inner.is_end && !self.inner.is_reader_end && self.inner.bufs@.len()
                < self.inner.windowsize),
    {
        self.inner.needs_block()
    }

    /// Queue one source block as the next DATA frame.
    pub fn feed_block(&mut self, block: Vec<u8>)
        requires
            old(self).wf(),
            !old(self).inner.is_end,
            !old(self).inner.is_reader_end,
            old(self).inner.bufs@.len() < old(self).inner.windowsize,
            block@.len() <= old(self).inner.blksize,
            old(self).inner.data_read + block@.len() <= usize::MAX,
        ensures
            final(self).wf(),
            final(self).inner.bufs@.len() == old(self).inner.bufs@.len() + 1,
            final(self).inner.bufs@.last()@ == crate::codec::spec_build_data(
                spec_ring_add(old(self).inner.acked, old(self).inner.bufs@.len() as int + 1),
                block@,
            ),
            final(self).inner.is_reader_end == (block@.len() < old(self).inner.blksize),
            final(self).inner.read_bytes@ == old(self).inner.read_bytes@ + block@,
            final(self).inner.acked == old(self).inner.acked,
    {
        self.inner.feed_block(block);
    }

    /// Whether the transfer is complete: the source ended and everything
    /// is acknowledged.
    pub fn next(&self) -> (r: bool)
        ensures
            r == self.inner.is_end,
    {
        self.inner.is_end
    }

    /// Advance the window to an acknowledged block number; the result
    /// says whether any frame was retired.
    pub fn ack(&mut self, blknum: u16) -> (r: bool)
        requires
            old(self).wf(),
        ensures
            final(self).wf(),
            SendStateMachine::spec_ack_rel(old(self).inner, final(self).inner, blknum),
            r == {
                let d = spec_ring_diff(old(self).inner.acked, blknum);
                0 < d <= old(self).inner.windowsize && d <= old(self).inner.bufs@.len()
            },
    {
        let diff = ring_diff(self.inner.acked, blknum);
        let progressed = diff > 0 && diff <= self.inner.windowsize && diff
            <= self.inner.bufs.len();
        self.inner.ack(blknum);
        progressed
    }
}

} // verus!
