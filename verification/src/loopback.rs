//! A verified in-memory transfer: the sender's windows feed the receiver
//! over a lossless in-order channel, and the bytes come out unchanged.

use vstd::prelude::*;
use vstd::slice::{slice_subrange, slice_to_vec};
use crate::recv::{
    lemma_slots_shift, spec_ready_bytes, spec_ready_count, spec_ready_last_short,
    spec_slots_bytes, RecvStateMachine,
};
use crate::ring::{lemma_ring_diff_of_add, spec_ring_add, spec_ring_diff};
use crate::send::{spec_payloads, SendStateMachine};

verus! {

/// A freshly loaded window reads back exactly its `k` filled slots: all
/// full but possibly the last, everything after them empty.
proof fn lemma_window_ready(s: Seq<Option<Vec<u8>>>, blksize: int, k: int)
    requires
        1 <= k <= s.len(),
        forall|i: int| 0 <= i < k ==> (#[trigger] s[i]).is_some(),
        forall|i: int| 0 <= i < k - 1 ==> (#[trigger] s[i]).unwrap()@.len() == blksize,
        s[k - 1].unwrap()@.len() <= blksize,
        s[k - 1].unwrap()@.len() == blksize ==> k == s.len(),
        forall|i: int| k <= i < s.len() ==> (#[trigger] s[i]).is_none(),
    ensures
        spec_ready_count(s, blksize) == k,
        spec_ready_last_short(s, blksize) == (s[k - 1].unwrap()@.len() < blksize),
        spec_ready_bytes(s, blksize) == spec_slots_bytes(s, k),
    decreases k,
{
    let p0 = s[0].unwrap()@;
    if k == 1 {
        if p0.len() < blksize {
            assert(spec_slots_bytes(s, 0) =~= Seq::<u8>::empty());
            assert(spec_slots_bytes(s, 1) =~= p0);
        } else {
            assert(s.len() == 1);
            assert(s.skip(1) =~= Seq::<Option<Vec<u8>>>::empty());
            assert(spec_ready_count(s.skip(1), blksize) == 0);
            assert(!spec_ready_last_short(s.skip(1), blksize));
            assert(spec_ready_bytes(s.skip(1), blksize) == Seq::<u8>::empty());
            assert(spec_slots_bytes(s, 0) =~= Seq::<u8>::empty());
            assert(spec_slots_bytes(s, 1) =~= p0 + Seq::<u8>::empty());
            assert(spec_ready_bytes(s, blksize) =~= spec_slots_bytes(s, 1));
        }
    } else {
        let t = s.skip(1);
        assert forall|i: int| 0 <= i < k - 1 implies (#[trigger] t[i]).is_some() by {
            assert(t[i] == s[i + 1]);
        }
        assert forall|i: int| 0 <= i < k - 2 implies (#[trigger] t[i]).unwrap()@.len()
            == blksize by {
            assert(t[i] == s[i + 1]);
        }
        assert(t[k - 2] == s[k - 1]);
        assert forall|i: int| k - 1 <= i < t.len() implies (#[trigger] t[i]).is_none() by {
            assert(t[i] == s[i + 1]);
        }
        lemma_window_ready(t, blksize, k - 1);
        assert(p0.len() == blksize);
        lemma_slots_shift(s, k - 1);
        assert(spec_ready_bytes(s, blksize) == p0 + spec_ready_bytes(t, blksize));
    }
}

/// The slot bytes of `k` filled slots are the flattening of the payload
/// list they mirror.
proof fn lemma_slots_eq_flatten(s: Seq<Option<Vec<u8>>>, ps: Seq<Seq<u8>>, k: int)
    requires
        0 <= k <= s.len(),
        ps.len() == k,
        forall|i: int| 0 <= i < k ==> (#[trigger] s[i]).is_some() && s[i].unwrap()@ == ps[i],
    ensures
        spec_slots_bytes(s, k) == ps.flatten_alt(),
    decreases k,
{
    if k > 0 {
        assert forall|i: int| 0 <= i < k - 1 implies (#[trigger] s[i]).is_some() && s[i].unwrap()@
            == ps.drop_last()[i] by {
            assert(ps.drop_last()[i] == ps[i]);
        }
        lemma_slots_eq_flatten(s, ps.drop_last(), k - 1);
        assert(spec_slots_bytes(s, k) == spec_slots_bytes(s, k - 1) + s[k - 1].unwrap()@);
        assert(ps.flatten_alt() == ps.drop_last().flatten_alt() + ps.last());
    }
}

/// The final block of a stream whose length is an exact multiple of the
/// block size is empty: a file of length `k * blksize` terminates with a
/// zero-length final DATA frame.
pub proof fn lemma_final_block_empty(blksize: int, prior: int, blocklen: int)
    requires
        blksize >= 1,
        prior % blksize == 0,
        (prior + blocklen) % blksize == 0,
        0 <= blocklen < blksize,
    ensures
        blocklen == 0,
{
    vstd::arithmetic::div_mod::lemma_add_mod_noop(prior, blocklen, blksize);
    assert(blocklen % blksize == blocklen) by {
        vstd::arithmetic::div_mod::lemma_small_mod(blocklen as nat, blksize as nat);
    }
}

/// Carry a byte stream through both engines over a lossless in-order
/// channel: every window the sender builds is handed frame by frame to
/// the receiver, and the ACK the receiver emits retires it.  The receiver
/// delivers exactly the bytes the sender read, for every `blksize` and
/// `windowsize`, however often the block numbers wrap.
pub fn loopback_transfer(data: &[u8], blksize: usize, windowsize: usize) -> (out: Vec<u8>)
    requires
        1 <= blksize <= 65464,
        1 <= windowsize <= 65535,
    ensures
        out@ == data@,
{
    let n = data.len();
    let mut sender = SendStateMachine::new(blksize, windowsize);
    let mut receiver = RecvStateMachine::new(blksize, windowsize);
    let mut off: usize = 0;

    proof {
        assert(data@.subrange(0, 0) =~= Seq::<u8>::empty());
    }
    loop
        invariant_except_break
            sender.acked == receiver.acked,
            sender.bufs@.len() == 0,
            !sender.is_reader_end,
            !sender.is_end,
            forall|i: int| 0 <= i < windowsize ==> (#[trigger] receiver.bufs@[i]).is_none(),
            !receiver.is_end,
            !receiver.is_timeout,
            receiver.lost_ack_timeout.is_none() || receiver.lost_ack_timeout == Some(0u64),
        invariant
            sender.wf(),
            receiver.wf(),
            sender.blksize == blksize,
            sender.windowsize == windowsize,
            receiver.blksize == blksize,
            receiver.windowsize == windowsize,
            1 <= blksize <= 65464,
            1 <= windowsize <= 65535,
            n == data@.len(),
            off <= n,
            sender.read_bytes@ == data@.subrange(0, off as int),
            sender.acked_bytes@ == sender.read_bytes@,
            receiver.drained@ == Seq::<u8>::empty(),
            receiver.sink@ == sender.acked_bytes@,
        ensures
            receiver.wf(),
            receiver.drained@ == Seq::<u8>::empty(),
            receiver.sink@ == data@,
        decreases n - off,
    {
        let ghost off0 = off as int;

        // Load the sender's window from the stream: full blocks until the
        // window is full, a short (possibly empty) final block at the end
        // of the stream.
        while sender.needs_block()
            invariant
                sender.wf(),
                sender.blksize == blksize,
                sender.windowsize == windowsize,
                1 <= blksize <= 65464,
                n == data@.len(),
                off <= n,
                !sender.is_end,
                sender.acked == receiver.acked,
                sender.read_bytes@ == data@.subrange(0, off as int),
                sender.acked_bytes@ == data@.subrange(0, off0),
                sender.is_reader_end ==> off == n,
                sender.is_reader_end ==> sender.bufs@.len() >= 1 && sender.bufs@.last()@.len() < 4
                    + blksize,
                !sender.is_reader_end ==> off == off0 + sender.bufs@.len() * blksize,
            decreases windowsize - sender.bufs@.len(),
        {
            let remaining = n - off;
            let take = if remaining < blksize {
                remaining
            } else {
                blksize
            };
            let block = slice_to_vec(slice_subrange(data, off, off + take));
            let ghost len_before = sender.bufs@.len() as int;
            sender.feed_block(block);
            proof {
                assert(data@.subrange(0, off as int) + data@.subrange(
                    off as int,
                    off as int + take as int,
                ) =~= data@.subrange(0, off as int + take as int));
                if take == blksize {
                    assert((len_before + 1) * blksize == len_before * blksize + blksize)
                        by (nonlinear_arith);
                }
            }
            off = off + take;
        }

        let ghost sbufs = sender.bufs@;
        let ghost k = sbufs.len() as int;
        let ghost ps = spec_payloads(sbufs);
        let ghost a0 = sender.acked;
        proof {
            assert(k >= 1);
            assert(!sender.is_reader_end ==> k == windowsize);
        }

        // Hand every frame of the window to the receiver, in order.
        let num_frames = sender.fill_level();
        let mut i: usize = 0;
        while i < num_frames
            invariant
                receiver.wf(),
                receiver.blksize == blksize,
                receiver.windowsize == windowsize,
                1 <= windowsize <= 65535,
                receiver.acked == a0,
                sender.wf(),
                sender.acked == a0,
                sender.bufs@ == sbufs,
                sender.blksize == blksize,
                sender.windowsize == windowsize,
                num_frames == k,
                k == sbufs.len(),
                1 <= k <= windowsize,
                ps == spec_payloads(sbufs),
                i <= num_frames,
                forall|j: int|
                    0 <= j < i ==> (#[trigger] receiver.bufs@[j]).is_some()
                        && receiver.bufs@[j].unwrap()@ == ps[j],
                forall|j: int|
                    i <= j < windowsize ==> (#[trigger] receiver.bufs@[j]).is_none(),
                !receiver.is_end,
                !receiver.is_timeout,
                receiver.sink@ == sender.acked_bytes@,
                receiver.drained@ == Seq::<u8>::empty(),
                receiver.lost_ack_timeout.is_none() || receiver.lost_ack_timeout == Some(0u64),
            decreases num_frames - i,
        {
            let frames = sender.send_data();
            let f = vstd::std_specs::vec::vec_index(frames, i);
            proof {
                let blk = spec_ring_add(a0, i + 1);
                assert(f@ == crate::codec::spec_build_data(blk, f@.skip(4)));
                assert(f@[0] == 0 && f@[1] == 3);
                assert(f@[2] == blk / 256 && f@[3] == blk % 256);
                assert((0 as int) * 256 + 3 == 3);
                assert((blk / 256) * 256 + blk % 256 == blk) by (nonlinear_arith);
                assert(crate::codec::spec_u16_at(f@, 2) == blk);
                lemma_ring_diff_of_add(a0, i + 1);
                assert(spec_ring_diff(a0, blk) == i + 1);
                assert(receiver.bufs@[i as int].is_none());
                assert(receiver.spec_accepts(f@));
            }
            let ghost ri = i as int;
            receiver.insert_frame(f.as_slice(), 0);
            proof {
                assert(receiver.bufs@[ri].unwrap()@ == ps[ri]);
            }
            i = i + 1;
        }

        // The receiver's window now mirrors the sender's: it flushes it
        // whole and acknowledges its last block.
        proof {
            assert forall|j: int| 0 <= j < k - 1 implies (#[trigger] receiver.bufs@[j]).unwrap()@.len()
                == blksize by {
                assert(sbufs[j]@.len() == 4 + blksize);
                assert(ps[j] == sbufs[j]@.skip(4));
            }
            assert(receiver.bufs@[k - 1].unwrap()@.len() <= blksize) by {
                assert(ps[k - 1] == sbufs[k - 1]@.skip(4));
            }
            if receiver.bufs@[k - 1].unwrap()@.len() == blksize {
                assert(sbufs[k - 1]@.len() == 4 + blksize);
                assert(sender.is_reader_end ==> sbufs.last()@.len() < 4 + blksize);
                assert(!sender.is_reader_end);
                assert(k == windowsize);
            }
            lemma_window_ready(receiver.bufs@, blksize as int, k);
            lemma_slots_eq_flatten(receiver.bufs@, ps, k);
            ps.lemma_flatten_and_flatten_alt_are_equivalent();
            assert(spec_ready_bytes(receiver.bufs@, blksize as int) == ps.flatten());
            assert(receiver.spec_flush_due());
            assert(!receiver.spec_reack_due(0));
        }
        let ghost rbufs = receiver.bufs@;
        let ghost last_short = spec_ready_last_short(rbufs, blksize as int);
        let ack = receiver.sync(0);
        proof {
            assert(ack == Some(spec_ring_add(a0, k)));
            assert(receiver.sink@ == sender.acked_bytes@ + ps.flatten());
            assert(receiver.is_end == last_short);
            assert(last_short == (rbufs[k - 1].unwrap()@.len() < blksize));
            assert(forall|j: int|
                0 <= j < windowsize ==> (#[trigger] receiver.bufs@[j]).is_none());
        }
        let acknum = match ack {
            Some(acknum) => acknum,
            None => {
                proof {
                    assert(false);
                }
                0
            },
        };

        // The ACK retires the whole window at the sender.
        proof {
            lemma_ring_diff_of_add(a0, k);
            assert(spec_ring_diff(a0, acknum) == k);
        }
        sender.ack(acknum);
        proof {
            assert(sender.bufs@ =~= sbufs.subrange(k, k));
            assert(sender.bufs@.len() == 0);
            assert(spec_payloads(sbufs.subrange(0, k)) =~= ps);
            assert(sender.acked_bytes@ == data@.subrange(0, off0) + ps.flatten());
            assert(sender.acked_bytes@ == sender.read_bytes@) by {
                assert(spec_payloads(sbufs).flatten() == ps.flatten());
            }
            assert(sender.is_end == sender.is_reader_end);
            assert(receiver.sink@ == sender.acked_bytes@);
        }

        if sender.is_end {
            proof {
                assert(off == n);
                assert(data@.subrange(0, n as int) =~= data@);
                assert(receiver.is_end == last_short);
            }
            break;
        }
        proof {
            // The sender goes on, so the final short block is still out:
            // the receiver flushed a full window and waits for more.
            assert(!sender.is_reader_end);
            assert(!last_short) by {
                assert(rbufs[k - 1].unwrap()@.len() == blksize ==> !last_short);
                assert(ps[k - 1] == sbufs[k - 1]@.skip(4));
                assert(sbufs[k - 1]@.len() == 4 + blksize);
            }
            assert(!receiver.is_end);
            assert(off > off0) by {
                assert(k * blksize >= 1) by (nonlinear_arith)
                    requires
                        k >= 1,
                        blksize >= 1,
                ;
            }
        }
    }

    let out = receiver.take_sink();
    proof {
        assert(out@ == data@);
    }
    out
}

/// Uploading a byte stream and downloading it back yields the stream,
/// for any pair of negotiated parameters on each leg.
pub fn upload_then_download(
    data: &[u8],
    up_blksize: usize,
    up_windowsize: usize,
    down_blksize: usize,
    down_windowsize: usize,
) -> (out: Vec<u8>)
    requires
        1 <= up_blksize <= 65464,
        1 <= up_windowsize <= 65535,
        1 <= down_blksize <= 65464,
        1 <= down_windowsize <= 65535,
    ensures
        out@ == data@,
{
    let stored = loopback_transfer(data, up_blksize, up_windowsize);
    loopback_transfer(stored.as_slice(), down_blksize, down_windowsize)
}

} // verus!
