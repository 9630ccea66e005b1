//! Sliding-window receiver.
//!
//! The machine ingests DATA frames (`insert_frame`), orders them by block
//! number in a fixed window of slots, and on `sync` flushes completed
//! window prefixes to its sink buffer and says which ACK to emit.  The
//! caller drains the sink (`take_sink`) and passes the current time in;
//! the machine never touches a socket, a file or a clock.

use vstd::prelude::*;
use crate::codec::{spec_parse_opcode_raw, spec_u16_at, Opcode, PacketParser};
use crate::consts::{RECV_ACK_TIMEOUT_MS, RECV_TIMEOUT_MS};
use crate::ring::{ring_add, ring_diff, spec_ring_add, spec_ring_diff};
use crate::timer::OneshotTimer;

verus! {

/// How many leading window slots are ready to flush: the filled prefix,
/// cut just after the first short payload if one appears in it.
pub open spec fn spec_ready_count(bufs: Seq<Option<Vec<u8>>>, blksize: int) -> int
    decreases bufs.len(),
{
    if bufs.len() == 0 {
        0
    } else {
        match bufs[0] {
            None => 0,
            Some(p) => if p@.len() < blksize {
                1
            } else {
                1 + spec_ready_count(bufs.skip(1), blksize)
            },
        }
    }
}

/// Whether the ready prefix ends with a short payload: the transfer's
/// final block has arrived.
pub open spec fn spec_ready_last_short(bufs: Seq<Option<Vec<u8>>>, blksize: int) -> bool
    decreases bufs.len(),
{
    if bufs.len() == 0 {
        false
    } else {
        match bufs[0] {
            None => false,
            Some(p) => p@.len() < blksize || spec_ready_last_short(bufs.skip(1), blksize),
        }
    }
}

/// The bytes the ready prefix delivers, in block order.
pub open spec fn spec_ready_bytes(bufs: Seq<Option<Vec<u8>>>, blksize: int) -> Seq<u8>
    decreases bufs.len(),
{
    if bufs.len() == 0 {
        Seq::empty()
    } else {
        match bufs[0] {
            None => Seq::empty(),
            Some(p) => if p@.len() < blksize {
                p@
            } else {
                p@ + spec_ready_bytes(bufs.skip(1), blksize)
            },
        }
    }
}

/// The ready count never exceeds the window, and every ready slot is
/// filled.
pub proof fn lemma_ready_count_bounds(bufs: Seq<Option<Vec<u8>>>, blksize: int)
    ensures
        0 <= spec_ready_count(bufs, blksize) <= bufs.len(),
        forall|j: int|
            0 <= j < spec_ready_count(bufs, blksize) ==> (#[trigger] bufs[j]).is_some(),
    decreases bufs.len(),
{
    if bufs.len() > 0 {
        match bufs[0] {
            None => (),
            Some(p) => {
                lemma_ready_count_bounds(bufs.skip(1), blksize);
                assert forall|j: int|
                    0 <= j < spec_ready_count(bufs, blksize) implies (#[trigger] bufs[j]).is_some()
                by {
                    if j > 0 {
                        assert(bufs.skip(1)[j - 1].is_some());
                    }
                }
            },
        }
    }
}


/// The bytes of the first `k` window slots, all of which must be filled.
pub open spec fn spec_slots_bytes(bufs: Seq<Option<Vec<u8>>>, k: int) -> Seq<u8>
    decreases k,
{
    if k <= 0 {
        Seq::empty()
    } else {
        spec_slots_bytes(bufs, k - 1) + bufs[k - 1].unwrap()@
    }
}

/// Taking `k + 1` leading slots is taking the first and then `k` of the
/// shifted window.
pub proof fn lemma_slots_shift(bufs: Seq<Option<Vec<u8>>>, k: int)
    requires
        0 <= k,
        k + 1 <= bufs.len(),
    ensures
        spec_slots_bytes(bufs, k + 1) == bufs[0].unwrap()@ + spec_slots_bytes(bufs.skip(1), k),
    decreases k,
{
    if k == 0 {
        assert(spec_slots_bytes(bufs, 0) =~= Seq::<u8>::empty());
        assert(spec_slots_bytes(bufs.skip(1), 0) =~= Seq::<u8>::empty());
        assert(spec_slots_bytes(bufs, 1) == spec_slots_bytes(bufs, 0) + bufs[0].unwrap()@);
        assert(spec_slots_bytes(bufs, 1) =~= bufs[0].unwrap()@ + spec_slots_bytes(
            bufs.skip(1),
            0,
        ));
    } else {
        lemma_slots_shift(bufs, k - 1);
        assert(bufs.skip(1)[k - 1] == bufs[k]);
        assert(spec_slots_bytes(bufs, k + 1) == spec_slots_bytes(bufs, k) + bufs[k].unwrap()@);
        assert((bufs[0].unwrap()@ + spec_slots_bytes(bufs.skip(1), k - 1)) + bufs[k].unwrap()@
            =~= bufs[0].unwrap()@ + spec_slots_bytes(bufs.skip(1), k));
    }
}

/// The ready prefix's bytes are the bytes of its slots, taken in order.
pub proof fn lemma_ready_bytes_as_slots(bufs: Seq<Option<Vec<u8>>>, blksize: int)
    ensures
        spec_ready_bytes(bufs, blksize) == spec_slots_bytes(
            bufs,
            spec_ready_count(bufs, blksize),
        ),
    decreases bufs.len(),
{
    if bufs.len() == 0 {
    } else {
        match bufs[0] {
            None => (),
            Some(p) => {
                if p@.len() < blksize {
                    assert(spec_slots_bytes(bufs, 0) =~= Seq::<u8>::empty());
                    assert(spec_slots_bytes(bufs, 1) =~= p@);
                } else {
                    lemma_ready_bytes_as_slots(bufs.skip(1), blksize);
                    lemma_ready_count_bounds(bufs.skip(1), blksize);
                    lemma_slots_shift(bufs, spec_ready_count(bufs.skip(1), blksize));
                }
            },
        }
    }
}

/// The sliding-window receiver.
pub struct RecvStateMachine {
    pub windowsize: usize,
    pub blksize: usize,
    /// Window slots; slot `i` holds the payload of block
    /// `acked + i + 1` (mod 2^16), once that frame has arrived.
    pub bufs: Vec<Option<Vec<u8>>>,
    /// The last block number acknowledged.
    pub acked: u16,
    /// Whether the transfer is over.
    pub is_end: bool,
    /// Whether it ended by inactivity instead of a final block.
    pub is_timeout: bool,
    /// The overall inactivity timer.
    pub timeout: OneshotTimer,
    /// When the last ACK left, while the final block is still out.
    pub lost_ack_timeout: Option<u64>,
    /// Delivered bytes the caller has not collected yet.
    pub sink: Vec<u8>,
    /// Bytes the caller has collected from the sink.
    pub drained: Ghost<Seq<u8>>,
    /// Every byte delivered to the sink, in block order.
    pub delivered: Ghost<Seq<u8>>,
}

impl RecvStateMachine {
    /// The machine's invariant.
    pub open spec fn wf(self) -> bool {
        &&& 1 <= self.blksize <= 65464
        &&& 1 <= self.windowsize <= 65535
        &&& self.bufs@.len() == self.windowsize
        &&& self.delivered@ == self.drained@ + self.sink@
    }

    /// A fresh receiver: an empty window, nothing delivered.
    pub fn new(blksize: usize, windowsize: usize) -> (r: RecvStateMachine)
        requires
            1 <= blksize <= 65464,
            1 <= windowsize <= 65535,
        ensures
            r.wf(),
            r.blksize == blksize,
            r.windowsize == windowsize,
            r.bufs@.len() == windowsize,
            forall|i: int| 0 <= i < windowsize ==> (#[trigger] r.bufs@[i]).is_none(),
            r.acked == 0,
            !r.is_end,
            !r.is_timeout,
            r.timeout.start.is_none(),
            r.timeout.timeout == RECV_TIMEOUT_MS,
            r.lost_ack_timeout.is_none(),
            r.sink@ == Seq::<u8>::empty(),
            r.drained@ == Seq::<u8>::empty(),
            r.delivered@ == Seq::<u8>::empty(),
    {
        let mut bufs: Vec<Option<Vec<u8>>> = Vec::new();
        let mut i: usize = 0;
        while i < windowsize
            invariant
                i <= windowsize,
                bufs@.len() == i,
                forall|j: int| 0 <= j < i ==> (#[trigger] bufs@[j]).is_none(),
            decreases windowsize - i,
        {
            bufs.push(None);
            i = i + 1;
        }
        let r = RecvStateMachine {
            windowsize,
            blksize,
            bufs,
            acked: 0,
            is_end: false,
            is_timeout: false,
            timeout: OneshotTimer::new(RECV_TIMEOUT_MS),
            lost_ack_timeout: None,
            sink: Vec::new(),
            drained: Ghost(Seq::empty()),
            delivered: Ghost(Seq::empty()),
        };
        proof {
            assert(r.delivered@ =~= r.drained@ + r.sink@);
        }
        r
    }

    /// Whether the transfer is over.
    pub fn is_end(&self) -> (r: bool)
        ensures
            r == self.is_end,
    {
        self.is_end
    }

    /// Whether the transfer ended by inactivity.
    pub fn is_timeout(&self) -> (r: bool)
        ensures
            r == (self.is_end && self.is_timeout),
    {
        self.is_end && self.is_timeout
    }

    /// Collect the bytes delivered since the last collection.
    pub fn take_sink(&mut self) -> (r: Vec<u8>)
        requires
            old(self).wf(),
        ensures
            final(self).wf(),
            r@ == old(self).sink@,
            final(self).sink@ == Seq::<u8>::empty(),
            final(self).drained@ == old(self).drained@ + r@,
            final(self).delivered@ == old(self).delivered@,
            final(self).bufs@ == old(self).bufs@,
            final(self).acked == old(self).acked,
            final(self).is_end == old(self).is_end,
            final(self).is_timeout == old(self).is_timeout,
            final(self).timeout == old(self).timeout,
            final(self).lost_ack_timeout == old(self).lost_ack_timeout,
            final(self).windowsize == old(self).windowsize,
            final(self).blksize == old(self).blksize,
    {
        let mut out: Vec<u8> = Vec::new();
        core::mem::swap(&mut out, &mut self.sink);
        self.drained = Ghost(self.drained@ + out@);
        proof {
            assert(final(self).delivered@ =~= final(self).drained@ + final(self).sink@);
        }
        out
    }

    /// Record that the caller has just emitted an ACK on this session
    /// (the initial ACK of a write request): if it is lost and no flush
    /// follows, `sync` re-emits it after the lost-ACK interval.
    pub fn note_ack_sent(&mut self, now_ms: u64)
        requires
            old(self).wf(),
        ensures
            final(self).wf(),
            final(self).lost_ack_timeout == Some(now_ms),
            final(self).bufs@ == old(self).bufs@,
            final(self).acked == old(self).acked,
            final(self).is_end == old(self).is_end,
            final(self).is_timeout == old(self).is_timeout,
            final(self).timeout == old(self).timeout,
            final(self).sink@ == old(self).sink@,
            final(self).drained@ == old(self).drained@,
            final(self).delivered@ == old(self).delivered@,
            final(self).windowsize == old(self).windowsize,
            final(self).blksize == old(self).blksize,
    {
        self.lost_ack_timeout = Some(now_ms);
    }

    /// Whether `insert_frame` would accept this datagram: a DATA frame for
    /// a window slot that is still empty.
    pub open spec fn spec_accepts(self, data: Seq<u8>) -> bool {
        &&& spec_parse_opcode_raw(data) == Some(Opcode::Data)
        &&& data.len() >= 4
        &&& 1 <= spec_ring_diff(self.acked, spec_u16_at(data, 2)) <= self.windowsize
        &&& self.bufs@[spec_ring_diff(self.acked, spec_u16_at(data, 2)) - 1].is_none()
    }

    /// Ingest one datagram.  A non-DATA or malformed packet, a block
    /// number outside the window (distance 0 or more than `windowsize`
    /// ahead), or a duplicate of an already-buffered block changes no
    /// slot; an accepted frame fills its slot and restarts the inactivity
    /// timer.  The lost-ACK timer runs from the last emitted ACK and is
    /// not touched here.
    pub fn insert_frame(&mut self, data: &[u8], now_ms: u64)
        requires
            old(self).wf(),
        ensures
            final(self).wf(),
            final(self).windowsize == old(self).windowsize,
            final(self).blksize == old(self).blksize,
            final(self).acked == old(self).acked,
            final(self).is_end == old(self).is_end,
            final(self).is_timeout == old(self).is_timeout,
            final(self).sink@ == old(self).sink@,
            final(self).drained@ == old(self).drained@,
            final(self).delivered@ == old(self).delivered@,
            final(self).timeout.timeout == old(self).timeout.timeout,
            final(self).lost_ack_timeout == old(self).lost_ack_timeout,
            if old(self).spec_accepts(data@) {
                &&& final(self).bufs@ == old(self).bufs@.update(
                    spec_ring_diff(old(self).acked, spec_u16_at(data@, 2)) - 1,
                    Some(final(self).bufs@[spec_ring_diff(old(self).acked, spec_u16_at(data@, 2))
                        - 1].unwrap()),
                )
                &&& final(self).bufs@[spec_ring_diff(old(self).acked, spec_u16_at(data@, 2))
                    - 1].unwrap()@ == data@.skip(4)
                &&& final(self).timeout.start == Some(now_ms)
            } else {
                &&& final(self).bufs@ == old(self).bufs@
                &&& final(self).timeout.start == (if old(self).timeout.start.is_none() {
                    Some(now_ms)
                } else {
                    old(self).timeout.start
                })
            },
    {
        // Arm the overall inactivity timer on first contact.
        let _ = self.timeout.is_timeout(now_ms);

        let mut pp = PacketParser::new(data);
        if !pp.opcode_expect(Opcode::Data) {
            return;
        }
        let blocknr = match pp.number16() {
            Some(blocknr) => blocknr,
            None => {
                return;
            },
        };
        proof {
            assert(data@.subrange(2, data@.len() as int)[0] == data@[2]);
            assert(data@.subrange(2, data@.len() as int)[1] == data@[3]);
        }
        let payload = pp.remaining_bytes();

        let diff = ring_diff(self.acked, blocknr);
        if diff > self.windowsize || diff == 0 {
            return;
        }
        let idx = diff - 1;

        let slot_filled = vstd::std_specs::vec::vec_index(&self.bufs, idx).is_some();
        if slot_filled {
            return;
        }

        let owned = vstd::slice::slice_to_vec(payload);
        proof {
            assert(owned@ =~= data@.skip(4));
        }
        self.bufs.set(idx, Some(owned));
        self.timeout.explicit_start(now_ms);
    }


    /// Whether a re-emitted ACK is due: one was sent, no new frame arrived
    /// since, and more than the lost-ACK interval has passed.
    pub open spec fn spec_reack_due(self, now_ms: u64) -> bool {
        self.lost_ack_timeout matches Some(t) && now_ms > t + RECV_ACK_TIMEOUT_MS
    }

    /// Whether the overall inactivity timer has run out.
    pub open spec fn spec_overall_fired(self, now_ms: u64) -> bool {
        self.timeout.start matches Some(t) && now_ms > t + self.timeout.timeout
    }

    /// Whether the window is due to flush: it is complete, or its ready
    /// prefix ends with the transfer's final short block.
    pub open spec fn spec_flush_due(self) -> bool {
        spec_ready_count(self.bufs@, self.blksize as int) == self.windowsize
            || spec_ready_last_short(self.bufs@, self.blksize as int)
    }

    /// Step the flush and timeout logic; the result is the block number to
    /// acknowledge, if an ACK is due now.
    ///
    /// Exactly one ACK is emitted per completed window (or final short
    /// prefix), when its bytes move to the sink; besides those, only the
    /// lost-ACK rule re-emits the last ACK, at most once per
    /// `RECV_ACK_TIMEOUT_MS`.  When the inactivity timer runs out with no
    /// flush due, the transfer ends with a timeout and no further ACK.
    pub fn sync(&mut self, now_ms: u64) -> (r: Option<u16>)
        requires
            old(self).wf(),
        ensures
            final(self).wf(),
            final(self).windowsize == old(self).windowsize,
            final(self).blksize == old(self).blksize,
            final(self).drained@ == old(self).drained@,
            final(self).timeout.timeout == old(self).timeout.timeout,
            old(self).is_end ==> r.is_none() && *final(self) == *old(self),
            !old(self).is_end ==> final(self).timeout.start == (if old(
                self,
            ).timeout.start.is_none() {
                Some(now_ms)
            } else {
                old(self).timeout.start
            }),
            !old(self).is_end && old(self).spec_reack_due(now_ms) ==> {
                &&& r == Some(old(self).acked)
                &&& final(self).lost_ack_timeout == Some(now_ms)
                &&& final(self).bufs@ == old(self).bufs@
                &&& final(self).acked == old(self).acked
                &&& final(self).sink@ == old(self).sink@
                &&& final(self).delivered@ == old(self).delivered@
                &&& final(self).is_end == old(self).is_end
                &&& final(self).is_timeout == old(self).is_timeout
            },
            !old(self).is_end && !old(self).spec_reack_due(now_ms) && !old(self).spec_flush_due()
                ==> {
                &&& r.is_none()
                &&& final(self).bufs@ == old(self).bufs@
                &&& final(self).acked == old(self).acked
                &&& final(self).sink@ == old(self).sink@
                &&& final(self).delivered@ == old(self).delivered@
                &&& final(self).lost_ack_timeout == old(self).lost_ack_timeout
                &&& final(self).is_end == old(self).spec_overall_fired(now_ms)
                &&& final(self).is_timeout == (old(self).is_timeout || old(
                    self,
                ).spec_overall_fired(now_ms))
            },
            !old(self).is_end && !old(self).spec_reack_due(now_ms) && old(self).spec_flush_due()
                ==> {
                let ready = spec_ready_count(old(self).bufs@, old(self).blksize as int);
                let last = spec_ready_last_short(old(self).bufs@, old(self).blksize as int);
                &&& r == Some(spec_ring_add(old(self).acked, ready))
                &&& final(self).acked == spec_ring_add(old(self).acked, ready)
                &&& final(self).sink@ == old(self).sink@ + spec_ready_bytes(
                    old(self).bufs@,
                    old(self).blksize as int,
                )
                &&& final(self).delivered@ == old(self).delivered@ + spec_ready_bytes(
                    old(self).bufs@,
                    old(self).blksize as int,
                )
                &&& final(self).is_end == last
                &&& final(self).is_timeout == old(self).is_timeout
                &&& final(self).bufs@.len() == old(self).windowsize
                &&& (forall|i: int|
                    0 <= i < old(self).windowsize - ready ==> final(self).bufs@[i] == old(
                        self,
                    ).bufs@[ready + i])
                &&& (forall|i: int|
                    old(self).windowsize - ready <= i < old(self).windowsize ==> (
                    #[trigger] final(self).bufs@[i]).is_none())
                &&& final(self).lost_ack_timeout == (if last {
                    old(self).lost_ack_timeout
                } else {
                    Some(now_ms)
                })
            },
    {
        if self.is_end {
            return None;
        }

        let (ready_blocks, is_last) = self.is_complete();
        let flush = ready_blocks == self.windowsize || is_last;
        let fired = self.timeout.is_timeout(now_ms);

        if let Some(t) = self.lost_ack_timeout {
            if now_ms > t && now_ms - t > RECV_ACK_TIMEOUT_MS {
                self.lost_ack_timeout = Some(now_ms);
                return Some(self.acked);
            }
        }

        if !flush {
            if fired {
                self.is_timeout = true;
                self.is_end = true;
            }
            return None;
        }

        proof {
            lemma_ready_count_bounds(self.bufs@, self.blksize as int);
            lemma_ready_bytes_as_slots(self.bufs@, self.blksize as int);
        }
        let ghost bufs0 = self.bufs@;
        let ghost sink0 = self.sink@;

        // Move the ready payloads to the sink, in block order.
        let mut k: usize = 0;
        while k < ready_blocks
            invariant
                k <= ready_blocks,
                self.bufs@ == bufs0,
                ready_blocks <= bufs0.len(),
                forall|j: int| 0 <= j < ready_blocks ==> (#[trigger] bufs0[j]).is_some(),
                self.sink@ == sink0 + spec_slots_bytes(bufs0, k as int),
                self.windowsize == old(self).windowsize,
                self.blksize == old(self).blksize,
                self.drained@ == old(self).drained@,
                self.delivered@ == old(self).delivered@,
                self.acked == old(self).acked,
                self.is_end == old(self).is_end,
                self.is_timeout == old(self).is_timeout,
                self.lost_ack_timeout == old(self).lost_ack_timeout,
                self.timeout.timeout == old(self).timeout.timeout,
                self.timeout.start == (if old(self).timeout.start.is_none() {
                    Some(now_ms)
                } else {
                    old(self).timeout.start
                }),
            decreases ready_blocks - k,
        {
            let ghost sink_before = self.sink@;
            match vstd::std_specs::vec::vec_index(&self.bufs, k) {
                Some(p) => {
                    let ghost pv = p@;
                    self.sink.extend_from_slice(p.as_slice());
                    proof {
                        assert(spec_slots_bytes(bufs0, k as int + 1) == spec_slots_bytes(
                            bufs0,
                            k as int,
                        ) + bufs0[k as int].unwrap()@);
                        assert(self.sink@ =~= sink0 + spec_slots_bytes(bufs0, k as int + 1));
                    }
                },
                None => {
                    proof {
                        assert(bufs0[k as int].is_some());
                    }
                    unreached()
                },
            }
            k = k + 1;
        }

        // Shift the window left by the flushed count; fresh slots are empty.
        let tail = self.bufs.split_off(ready_blocks);
        self.bufs = tail;
        while self.bufs.len() < self.windowsize
            invariant
                self.bufs@.len() <= self.windowsize,
                self.bufs@.len() >= bufs0.len() - ready_blocks,
                bufs0.len() == self.windowsize,
                ready_blocks <= bufs0.len(),
                forall|i: int|
                    0 <= i < bufs0.len() - ready_blocks ==> self.bufs@[i] == bufs0[ready_blocks
                        + i],
                forall|i: int|
                    bufs0.len() - ready_blocks <= i < self.bufs@.len() ==> (
                    #[trigger] self.bufs@[i]).is_none(),
                self.windowsize == old(self).windowsize,
                self.blksize == old(self).blksize,
                self.sink@ == sink0 + spec_slots_bytes(bufs0, ready_blocks as int),
                self.drained@ == old(self).drained@,
                self.delivered@ == old(self).delivered@,
                self.acked == old(self).acked,
                self.is_end == old(self).is_end,
                self.is_timeout == old(self).is_timeout,
                self.lost_ack_timeout == old(self).lost_ack_timeout,
                self.timeout.timeout == old(self).timeout.timeout,
                self.timeout.start == (if old(self).timeout.start.is_none() {
                    Some(now_ms)
                } else {
                    old(self).timeout.start
                }),
            decreases self.windowsize - self.bufs@.len(),
        {
            self.bufs.push(None);
        }

        self.delivered = Ghost(self.delivered@ + spec_slots_bytes(bufs0, ready_blocks as int));
        proof {
            assert(self.delivered@ =~= self.drained@ + self.sink@);
        }

        assert(ready_blocks <= 65535);
        self.acked = ring_add(self.acked, ready_blocks as u16);
        self.is_end = is_last;

        if !self.is_end {
            self.lost_ack_timeout = Some(now_ms);
        }

        Some(self.acked)
    }

    /// The length and finality of the ready prefix of the window.
    fn is_complete(&self) -> (r: (usize, bool))
        requires
            self.wf(),
        ensures
            r.0 == spec_ready_count(self.bufs@, self.blksize as int),
            r.1 == spec_ready_last_short(self.bufs@, self.blksize as int),
            0 <= r.0 <= self.bufs@.len(),
    {
        proof {
            lemma_ready_count_bounds(self.bufs@, self.blksize as int);
        }
        let n = self.bufs.len();
        assert(self.bufs@.skip(0) =~= self.bufs@);
        let mut i: usize = 0;
        while i < n
            invariant
                i <= n,
                n == self.bufs@.len(),
                spec_ready_count(self.bufs@, self.blksize as int) == i + spec_ready_count(
                    self.bufs@.skip(i as int),
                    self.blksize as int,
                ),
                spec_ready_last_short(self.bufs@, self.blksize as int) == spec_ready_last_short(
                    self.bufs@.skip(i as int),
                    self.blksize as int,
                ),
            decreases n - i,
        {
            let ghost tail = self.bufs@.skip(i as int);
            proof {
                assert(tail[0] == self.bufs@[i as int]);
                assert(tail.skip(1) =~= self.bufs@.skip(i as int + 1));
            }
            match vstd::std_specs::vec::vec_index(&self.bufs, i) {
                None => {
                    proof {
                        lemma_ready_count_bounds(tail, self.blksize as int);
                    }
                    return (i, false);
                },
                Some(p) => {
                    if p.len() < self.blksize {
                        return (i + 1, true);
                    }
                },
            }
            i = i + 1;
        }
        proof {
            assert(self.bufs@.skip(n as int) =~= Seq::<Option<Vec<u8>>>::empty());
        }
        (n, false)
    }
}

/// A buffered block is never accepted again: once a DATA frame has
/// filled its window slot, a duplicate with the same block number is
/// rejected by `insert_frame` and rewrites nothing.
pub proof fn lemma_duplicate_data_rejected(
    pre: RecvStateMachine,
    post: RecvStateMachine,
    data: Seq<u8>,
)
    requires
        pre.wf(),
        pre.spec_accepts(data),
        post.acked == pre.acked,
        post.windowsize == pre.windowsize,
        post.bufs@ == pre.bufs@.update(
            spec_ring_diff(pre.acked, spec_u16_at(data, 2)) - 1,
            Some(post.bufs@[spec_ring_diff(pre.acked, spec_u16_at(data, 2)) - 1].unwrap()),
        ),
    ensures
        !post.spec_accepts(data),
{
    let d = spec_ring_diff(pre.acked, spec_u16_at(data, 2));
    assert(post.bufs@[d - 1].is_some());
}

} // verus!
