//! Wire codec: packet opcodes, a cursor parser and a packet builder.
//!
//! All packets begin with a 2-byte big-endian opcode.  Strings on the wire
//! are NUL-terminated byte sequences; numbers are 16-bit big-endian.

use vstd::prelude::*;
use vstd::slice::{slice_index_get, slice_subrange};
use crate::consts::OPCODE_LEN;

verus! {

broadcast use vstd::slice::group_slice_axioms;

/// The six packet kinds of the protocol.
#[derive(Clone, Copy, Debug, PartialEq, Eq, Structural)]
pub enum Opcode {
    Read,
    Write,
    Data,
    Ack,
    Error,
    Oack,
}

/// The wire number of each opcode.
pub open spec fn spec_opcode_num(op: Opcode) -> u16 {
    match op {
        Opcode::Read => 1,
        Opcode::Write => 2,
        Opcode::Data => 3,
        Opcode::Ack => 4,
        Opcode::Error => 5,
        Opcode::Oack => 6,
    }
}

/// Which opcode a wire number decodes to, if any.
pub open spec fn spec_parse_opcode(raw: u16) -> Option<Opcode> {
    if raw == 1 {
        Some(Opcode::Read)
    } else if raw == 2 {
        Some(Opcode::Write)
    } else if raw == 3 {
        Some(Opcode::Data)
    } else if raw == 4 {
        Some(Opcode::Ack)
    } else if raw == 5 {
        Some(Opcode::Error)
    } else if raw == 6 {
        Some(Opcode::Oack)
    } else {
        None
    }
}

/// A 16-bit number as its two big-endian bytes.
pub open spec fn spec_be16(n: u16) -> Seq<u8> {
    seq![(n / 256) as u8, (n % 256) as u8]
}

/// The 16-bit big-endian number held at offset `i` of `s`.
pub open spec fn spec_u16_at(s: Seq<u8>, i: int) -> u16
    recommends
        0 <= i,
        i + 2 <= s.len(),
{
    ((s[i] as int) * 256 + (s[i + 1] as int)) as u16
}

/// The opcode a byte sequence begins with, if its first two bytes decode
/// to one.
pub open spec fn spec_parse_opcode_raw(s: Seq<u8>) -> Option<Opcode> {
    if s.len() >= 2 {
        spec_parse_opcode(spec_u16_at(s, 0))
    } else {
        None
    }
}

impl Opcode {
    /// The opcode's 2-byte big-endian wire form.
    pub fn raw(self) -> (r: [u8; OPCODE_LEN])
        ensures
            r@ == spec_be16(spec_opcode_num(self)),
    {
        let n: u16 = self.num();
        let r: [u8; OPCODE_LEN] = [(n / 256) as u8, (n % 256) as u8];
        assert(r@ =~= spec_be16(spec_opcode_num(self)));
        r
    }

    /// The opcode's wire number.
    pub fn num(self) -> (r: u16)
        ensures
            r == spec_opcode_num(self),
    {
        match self {
            Opcode::Read => 1,
            Opcode::Write => 2,
            Opcode::Data => 3,
            Opcode::Ack => 4,
            Opcode::Error => 5,
            Opcode::Oack => 6,
        }
    }
}

/// Decode a wire number to an opcode.
pub fn parse_opcode(raw: u16) -> (r: Option<Opcode>)
    ensures
        r == spec_parse_opcode(raw),
{
    if raw == 1 {
        Some(Opcode::Read)
    } else if raw == 2 {
        Some(Opcode::Write)
    } else if raw == 3 {
        Some(Opcode::Data)
    } else if raw == 4 {
        Some(Opcode::Ack)
    } else if raw == 5 {
        Some(Opcode::Error)
    } else if raw == 6 {
        Some(Opcode::Oack)
    } else {
        None
    }
}

/// Read a big-endian 16-bit number from the front of a byte slice.
pub fn raw_to_num(data: &[u8]) -> (r: Option<u16>)
    ensures
        data@.len() >= 2 ==> r == Some(spec_u16_at(data@, 0)),
        data@.len() < 2 ==> r.is_none(),
{
    if data.len() < 2 {
        return None;
    }
    let hi = *slice_index_get(data, 0);
    let lo = *slice_index_get(data, 1);
    Some((hi as u16) * 256 + (lo as u16))
}

/// Decode the opcode at the front of a byte slice.
pub fn parse_opcode_raw(data: &[u8]) -> (r: Option<Opcode>)
    ensures
        r == spec_parse_opcode_raw(data@),
{
    let num = match raw_to_num(data) {
        Some(num) => num,
        None => {
            return None;
        },
    };
    parse_opcode(num)
}

/// Position of the first NUL byte of `s`, if it holds one.
pub open spec fn spec_nul_pos(s: Seq<u8>) -> Option<int>
    decreases s.len(),
{
    if s.len() == 0 {
        None
    } else if s[0] == 0 {
        Some(0)
    } else {
        match spec_nul_pos(s.skip(1)) {
            Some(i) => Some(i + 1),
            None => None,
        }
    }
}

/// A NUL at `i` with none before it is the first NUL.
pub proof fn lemma_nul_pos_at(s: Seq<u8>, i: int)
    requires
        0 <= i < s.len(),
        s[i] == 0,
        forall|j: int| 0 <= j < i ==> s[j] != 0,
    ensures
        spec_nul_pos(s) == Some(i),
    decreases i,
{
    if i > 0 {
        lemma_nul_pos_at(s.skip(1), i - 1);
    }
}

/// A sequence without NUL bytes has no first NUL.
pub proof fn lemma_nul_pos_none(s: Seq<u8>)
    requires
        forall|j: int| 0 <= j < s.len() ==> s[j] != 0,
    ensures
        spec_nul_pos(s).is_none(),
    decreases s.len(),
{
    if s.len() > 0 {
        lemma_nul_pos_none(s.skip(1));
    }
}

/// What holds of the first NUL position: it is in bounds, it is a NUL, and
/// nothing before it is one.
pub proof fn lemma_nul_pos_props(s: Seq<u8>, i: int)
    requires
        spec_nul_pos(s) == Some(i),
    ensures
        0 <= i < s.len(),
        s[i] == 0,
        forall|j: int| 0 <= j < i ==> s[j] != 0,
    decreases s.len(),
{
    if s.len() > 0 && s[0] != 0 {
        lemma_nul_pos_props(s.skip(1), i - 1);
        assert forall|j: int| 0 <= j < i implies s[j] != 0 by {
            if j > 0 {
                assert(s.skip(1)[j - 1] != 0);
            }
        }
    }
}

/// Split a byte sequence into NUL-terminated fields.  `None` when the tail
/// is not terminated.
pub open spec fn spec_parse_fields(s: Seq<u8>) -> Option<Seq<Seq<u8>>>
    decreases s.len(),
    via spec_parse_fields_decreases
{
    if s.len() == 0 {
        Some(Seq::empty())
    } else {
        match spec_nul_pos(s) {
            None => None,
            Some(i) => match spec_parse_fields(s.skip(i + 1)) {
                None => None,
                Some(fields) => Some(seq![s.take(i)] + fields),
            },
        }
    }
}

#[via_fn]
proof fn spec_parse_fields_decreases(s: Seq<u8>) {
    if s.len() > 0 {
        match spec_nul_pos(s) {
            Some(i) => lemma_nul_pos_props(s, i),
            None => (),
        }
    }
}

/// The views of a sequence of byte vectors.
pub open spec fn fields_view(v: Seq<Vec<u8>>) -> Seq<Seq<u8>> {
    Seq::new(v.len(), |i: int| v[i]@)
}

/// The views of a sequence of byte-vector pairs.
pub open spec fn pairs_view(v: Seq<(Vec<u8>, Vec<u8>)>) -> Seq<(Seq<u8>, Seq<u8>)> {
    Seq::new(v.len(), |i: int| (v[i].0@, v[i].1@))
}

/// Adjacent fields taken two at a time as `(name, value)` pairs.
pub open spec fn spec_pair_up(fields: Seq<Seq<u8>>) -> Seq<(Seq<u8>, Seq<u8>)>
    recommends
        fields.len() % 2 == 0,
{
    Seq::new((fields.len() / 2) as nat, |i: int| (fields[2 * i], fields[2 * i + 1]))
}

/// A cursor over a received datagram.
pub struct PacketParser<'a> {
    pub buf: &'a [u8],
    pub pos: usize,
}

impl<'a> PacketParser<'a> {
    /// The cursor never passes the end of the buffer.
    pub open spec fn wf(self) -> bool {
        self.pos <= self.buf@.len()
    }

    /// The bytes not yet consumed.
    pub open spec fn rest(self) -> Seq<u8> {
        self.buf@.subrange(self.pos as int, self.buf@.len() as int)
    }

    /// Start a cursor at the front of `buf`.
    pub fn new(buf: &'a [u8]) -> (r: Self)
        ensures
            r.buf@ == buf@,
            r.pos == 0,
            r.wf(),
            r.rest() == buf@,
    {
        let r = PacketParser { buf, pos: 0 };
        assert(r.rest() =~= buf@);
        r
    }

    /// The bytes not yet consumed, as a slice.
    pub fn remaining_bytes(&self) -> (r: &'a [u8])
        requires
            self.wf(),
        ensures
            r@ == self.rest(),
    {
        slice_subrange(self.buf, self.pos, self.buf.len())
    }

    /// Whether any bytes are left.
    pub fn has_bytes(&self) -> (r: bool)
        requires
            self.wf(),
        ensures
            r == (self.rest().len() > 0),
    {
        self.pos < self.buf.len()
    }

    /// Consume the 2-byte opcode, if the front bytes decode to one.
    pub fn opcode(&mut self) -> (r: Option<Opcode>)
        requires
            old(self).wf(),
        ensures
            final(self).buf@ == old(self).buf@,
            final(self).wf(),
            r == spec_parse_opcode_raw(old(self).rest()),
            r.is_some() ==> final(self).pos == old(self).pos + OPCODE_LEN,
            r.is_none() ==> final(self).pos == old(self).pos,
    {
        let result = parse_opcode_raw(self.remaining_bytes());
        if result.is_some() {
            let len = self.buf.len();
            assert(self.pos + OPCODE_LEN <= len);
            self.pos = self.pos + OPCODE_LEN;
        }
        result
    }

    /// Consume the opcode and test it against an expected one.
    pub fn opcode_expect(&mut self, opcode: Opcode) -> (r: bool)
        requires
            old(self).wf(),
        ensures
            final(self).buf@ == old(self).buf@,
            final(self).wf(),
            r == (spec_parse_opcode_raw(old(self).rest()) == Some(opcode)),
            spec_parse_opcode_raw(old(self).rest()).is_some() ==> final(self).pos == old(self).pos + OPCODE_LEN,
            spec_parse_opcode_raw(old(self).rest()).is_none() ==> final(self).pos == old(self).pos,
    {
        if let Some(parsed) = self.opcode() {
            parsed == opcode
        } else {
            false
        }
    }

    /// Consume a big-endian 16-bit number, if two bytes are left.
    pub fn number16(&mut self) -> (r: Option<u16>)
        requires
            old(self).wf(),
        ensures
            final(self).buf@ == old(self).buf@,
            final(self).wf(),
            old(self).rest().len() >= 2 ==> r == Some(spec_u16_at(old(self).rest(), 0))
                && final(self).pos == old(self).pos + 2,
            old(self).rest().len() < 2 ==> r.is_none() && final(self).pos == old(self).pos,
    {
        let data = self.remaining_bytes();
        if let Some(num) = raw_to_num(data) {
            let len = self.buf.len();
            assert(self.pos + 2 <= len);
            self.pos = self.pos + 2;
            Some(num)
        } else {
            None
        }
    }

    /// Consume a 16-bit number and test it against an expected one.
    pub fn number16_expected(&mut self, num: u16) -> (r: bool)
        requires
            old(self).wf(),
        ensures
            final(self).buf@ == old(self).buf@,
            final(self).wf(),
            r == (old(self).rest().len() >= 2 && spec_u16_at(old(self).rest(), 0) == num),
    {
        if let Some(x) = self.number16() {
            x == num
        } else {
            false
        }
    }

    /// Test whether the remaining bytes begin with `expect_data`, consuming
    /// them when they do and `consume` is set.
    pub fn raw_expect(&mut self, expect_data: &[u8], consume: bool) -> (r: bool)
        requires
            old(self).wf(),
        ensures
            final(self).buf@ == old(self).buf@,
            final(self).wf(),
            r == (expect_data@.len() <= old(self).rest().len() && old(self).rest().subrange(
                0,
                expect_data@.len() as int,
            ) == expect_data@),
            final(self).pos == if r && consume {
                old(self).pos + expect_data@.len()
            } else {
                old(self).pos as int
            },
    {
        let n = expect_data.len();
        if n > self.buf.len() - self.pos {
            return false;
        }
        let mut i: usize = 0;
        while i < n
            invariant
                0 <= i <= n,
                self == old(self),
                self.wf(),
                n <= self.rest().len(),
                n == expect_data@.len(),
                forall|j: int| 0 <= j < i ==> self.rest()[j] == expect_data@[j],
            decreases n - i,
        {
            let len = self.buf.len();
            assert(self.pos + i < len);
            if *slice_index_get(self.buf, self.pos + i) != *slice_index_get(expect_data, i) {
                assert(self.rest()[i as int] != expect_data@[i as int]);
                assert(self.rest().subrange(0, n as int) != expect_data@);
                return false;
            }
            i = i + 1;
        }
        assert(self.rest().subrange(0, n as int) =~= expect_data@);
        if consume {
            self.pos = self.pos + n;
        }
        true
    }

    /// Consume one NUL-terminated string, when a NUL is left; the returned
    /// bytes do not include the terminator.
    pub fn string_with_separator(&mut self) -> (r: Option<Vec<u8>>)
        requires
            old(self).wf(),
        ensures
            final(self).buf@ == old(self).buf@,
            final(self).wf(),
            match r {
                Some(v) => {
                    &&& spec_nul_pos(old(self).rest()) == Some(v@.len() as int)
                    &&& v@ == old(self).rest().subrange(0, v@.len() as int)
                    &&& final(self).pos == old(self).pos + v@.len() + 1
                },
                None => {
                    &&& spec_nul_pos(old(self).rest()).is_none()
                    &&& final(self).pos == old(self).pos
                },
            },
    {
        let ghost orig_rest = self.rest();
        let len = self.buf.len();
        let mut read_data: Vec<u8> = Vec::new();
        let mut i: usize = 0;
        while self.pos + i < len
            invariant
                self == old(self),
                self.wf(),
                len == self.buf@.len(),
                orig_rest == self.rest(),
                self.pos + i <= len,
                i == read_data@.len(),
                read_data@ == orig_rest.subrange(0, i as int),
                forall|j: int| 0 <= j < i ==> orig_rest[j] != 0,
            decreases len - self.pos - i,
        {
            let b = *slice_index_get(self.buf, self.pos + i);
            assert(b == orig_rest[i as int]);
            if b == 0 {
                proof {
                    lemma_nul_pos_at(orig_rest, i as int);
                }
                self.pos = self.pos + i + 1;
                return Some(read_data);
            }
            read_data.push(b);
            i = i + 1;
            assert(read_data@ =~= orig_rest.subrange(0, i as int));
        }
        proof {
            assert(forall|j: int| 0 <= j < orig_rest.len() ==> orig_rest[j] != 0);
            lemma_nul_pos_none(orig_rest);
        }
        None
    }

    /// Read `(name, value)` option pairs from the remaining bytes, without
    /// consuming them.  Every field must be NUL-terminated and the field
    /// count must be even.
    pub fn extended_options(&mut self) -> (r: Result<Vec<(Vec<u8>, Vec<u8>)>, ()>)
        requires
            old(self).wf(),
        ensures
            *final(self) == *old(self),
            match r {
                Ok(v) => spec_parse_fields(old(self).rest()) matches Some(fs) && fs.len() % 2 == 0
                    && pairs_view(v@) == spec_pair_up(fs),
                Err(_) => !(spec_parse_fields(old(self).rest()) matches Some(fs) && fs.len() % 2
                    == 0),
            },
    {
        let ghost orig_rest = old(self).rest();
        let mut p = PacketParser { buf: self.buf, pos: self.pos };
        assert(p.rest() == orig_rest);
        let mut fields: Vec<Vec<u8>> = Vec::new();
        loop
            invariant
                p.wf(),
                p.buf@ == self.buf@,
                orig_rest == old(self).rest(),
                match spec_parse_fields(p.rest()) {
                    Some(f2) => spec_parse_fields(orig_rest) == Some(fields_view(fields@) + f2),
                    None => spec_parse_fields(orig_rest).is_none(),
                },
            ensures
                spec_parse_fields(orig_rest) == Some(fields_view(fields@)),
            decreases p.buf@.len() - p.pos,
        {
            if !p.has_bytes() {
                assert(p.rest() =~= Seq::<u8>::empty());
                assert(spec_parse_fields(p.rest()) == Some(Seq::<Seq<u8>>::empty()));
                assert(fields_view(fields@) + Seq::<Seq<u8>>::empty() =~= fields_view(fields@));
                break;
            }
            let ghost before = p.rest();
            match p.string_with_separator() {
                Some(f) => {
                    proof {
                        lemma_nul_pos_props(before, f@.len() as int);
                        assert(p.rest() =~= before.subrange(
                            f@.len() as int + 1,
                            before.len() as int,
                        ));
                        assert(spec_parse_fields(before) == match spec_parse_fields(p.rest()) {
                            Some(fr) => Some(seq![f@] + fr),
                            None => None::<Seq<Seq<u8>>>,
                        });
                    }
                    let ghost fields_before = fields@;
                    fields.push(f);
                    proof {
                        match spec_parse_fields(p.rest()) {
                            Some(f2) => {
                                assert(fields_view(fields_before) + (seq![f@] + f2)
                                    =~= fields_view(fields@) + f2);
                            },
                            None => (),
                        }
                    }
                },
                None => {
                    assert(before.len() > 0);
                    assert(spec_parse_fields(before).is_none());
                    assert(spec_parse_fields(orig_rest).is_none());
                    return Err(());
                },
            }
        }
        // All fields read: pair them up.
        let ghost all_fields = fields_view(fields@);
        assert(all_fields.len() == fields@.len());
        if fields.len() % 2 != 0 {
            return Err(());
        }
        let mut pairs: Vec<(Vec<u8>, Vec<u8>)> = Vec::new();
        let total = fields.len();
        while fields.len() > 0
            invariant
                fields@.len() % 2 == 0,
                total == pairs@.len() * 2 + fields@.len(),
                all_fields.len() == total,
                fields_view(fields@) == all_fields.subrange(
                    2 * (pairs@.len() as int),
                    total as int,
                ),
                forall|k: int| 0 <= k < pairs@.len() ==> #[trigger] pairs@[k].0@ == all_fields[2
                    * k] && pairs@[k].1@ == all_fields[2 * k + 1],
            decreases fields@.len(),
        {
            let ghost fields0 = fields@;
            let ghost pairs0 = pairs@;
            let ghost np = pairs@.len() as int;
            let a = fields.remove(0);
            let b = fields.remove(0);
            let ghost av = a@;
            let ghost bv = b@;
            proof {
                assert(av == fields_view(fields0)[0]);
                assert(fields_view(fields0)[0] == all_fields.subrange(2 * np, total as int)[0]);
                assert(av == all_fields[2 * np]);
                assert(bv == fields0.remove(0)[0]@);
                assert(bv == fields_view(fields0)[1]);
                assert(bv == all_fields[2 * np + 1]);
            }
            pairs.push((a, b));
            proof {
                assert forall|k: int| 0 <= k < fields@.len() implies fields@[k] == fields0[k
                    + 2] by {
                    assert(fields@[k] == fields0.remove(0).remove(0)[k]);
                    assert(fields0.remove(0).remove(0)[k] == fields0.remove(0)[k + 1]);
                }
                assert forall|k: int| 0 <= k < fields@.len() implies fields_view(fields@)[k]
                    == all_fields.subrange(2 * (pairs@.len() as int), total as int)[k] by {
                    assert(fields@[k] == fields0[k + 2]);
                    assert(fields_view(fields0)[k + 2] == all_fields.subrange(
                        2 * np,
                        total as int,
                    )[k + 2]);
                    assert(fields_view(fields0)[k + 2] == all_fields[2 * np + k + 2]);
                }
                assert(fields_view(fields@) =~= all_fields.subrange(
                    2 * (pairs@.len() as int),
                    total as int,
                ));
                assert forall|k: int| 0 <= k < pairs@.len() implies #[trigger] pairs@[k].0@
                    == all_fields[2 * k] && pairs@[k].1@ == all_fields[2 * k + 1] by {
                    if k < np {
                        assert(pairs@[k] == pairs0[k]);
                    } else {
                        assert(pairs@[k].0@ == av && pairs@[k].1@ == bv);
                    }
                }
            }
        }
        proof {
            assert(pairs_view(pairs@) =~= spec_pair_up(all_fields));
        }
        Ok(pairs)
    }

    /// Consume one NUL separator byte, if one is next.
    pub fn separator(&mut self) -> (r: bool)
        requires
            old(self).wf(),
        ensures
            final(self).buf@ == old(self).buf@,
            final(self).wf(),
            r == (old(self).rest().len() > 0 && old(self).rest()[0] == 0),
            final(self).pos == if r {
                old(self).pos + 1
            } else {
                old(self).pos as int
            },
    {
        if self.pos < self.buf.len() && *slice_index_get(self.buf, self.pos) == 0 {
            self.pos = self.pos + 1;
            true
        } else {
            false
        }
    }
}

/// `DATA` packet layout: opcode, block number, payload.
pub open spec fn spec_build_data(blk: u16, payload: Seq<u8>) -> Seq<u8> {
    spec_be16(3) + spec_be16(blk) + payload
}

/// `ACK` packet layout: opcode and block number, exactly 4 bytes.
pub open spec fn spec_build_ack(blk: u16) -> Seq<u8> {
    spec_be16(4) + spec_be16(blk)
}

/// `ERROR` packet layout: opcode, error code, NUL-terminated message.
pub open spec fn spec_build_error(code: u16, msg: Seq<u8>) -> Seq<u8> {
    spec_be16(5) + spec_be16(code) + msg + seq![0u8]
}

/// Option pairs flattened to `name NUL value NUL` on the wire.
pub open spec fn spec_options_bytes(opts: Seq<(Seq<u8>, Seq<u8>)>) -> Seq<u8>
    decreases opts.len(),
{
    if opts.len() == 0 {
        Seq::empty()
    } else {
        opts[0].0 + seq![0u8] + opts[0].1 + seq![0u8] + spec_options_bytes(opts.skip(1))
    }
}

/// `OACK` packet layout: opcode and option pairs.
pub open spec fn spec_build_oack(opts: Seq<(Seq<u8>, Seq<u8>)>) -> Seq<u8> {
    spec_be16(6) + spec_options_bytes(opts)
}

/// Request packet layout: opcode, filename, mode, option pairs.
pub open spec fn spec_build_req(
    op: u16,
    filename: Seq<u8>,
    mode: Seq<u8>,
    opts: Seq<(Seq<u8>, Seq<u8>)>,
) -> Seq<u8> {
    spec_be16(op) + filename + seq![0u8] + mode + seq![0u8] + spec_options_bytes(opts)
}

/// Builds a packet by appending fields to an owned byte buffer.
pub struct PacketBuilder {
    buf: Vec<u8>,
}

impl View for PacketBuilder {
    type V = Seq<u8>;

    closed spec fn view(&self) -> Seq<u8> {
        self.buf@
    }
}

impl PacketBuilder {
    /// Start with an empty buffer.
    pub fn new() -> (r: Self)
        ensures
            r@ == Seq::<u8>::empty(),
    {
        PacketBuilder { buf: Vec::new() }
    }

    /// Append the 2-byte opcode.
    pub fn opcode(self, opcode: Opcode) -> (r: Self)
        ensures
            r@ == self@ + spec_be16(spec_opcode_num(opcode)),
    {
        let mut buf = self.buf;
        let n = opcode.num();
        buf.push((n / 256) as u8);
        buf.push((n % 256) as u8);
        assert(buf@ =~= self@ + spec_be16(spec_opcode_num(opcode)));
        PacketBuilder { buf }
    }

    /// Append one NUL separator byte.
    pub fn separator(self) -> (r: Self)
        ensures
            r@ == self@ + seq![0u8],
    {
        let mut buf = self.buf;
        buf.push(0);
        assert(buf@ =~= self@ + seq![0u8]);
        PacketBuilder { buf }
    }

    /// Append a string's bytes, without a terminator.
    pub fn str(self, txt: &[u8]) -> (r: Self)
        ensures
            r@ == self@ + txt@,
    {
        self.raw_data(txt)
    }

    /// Append a 16-bit number, big-endian.
    pub fn number16(self, num: u16) -> (r: Self)
        ensures
            r@ == self@ + spec_be16(num),
    {
        let mut buf = self.buf;
        buf.push((num / 256) as u8);
        buf.push((num % 256) as u8);
        assert(buf@ =~= self@ + spec_be16(num));
        PacketBuilder { buf }
    }

    /// Append raw bytes.
    pub fn raw_data(self, data: &[u8]) -> (r: Self)
        ensures
            r@ == self@ + data@,
    {
        let mut buf = self.buf;
        let mut i: usize = 0;
        let n = data.len();
        while i < n
            invariant
                i <= n,
                n == data@.len(),
                buf@ == self@ + data@.subrange(0, i as int),
            decreases n - i,
        {
            buf.push(*slice_index_get(data, i));
            i = i + 1;
            assert(buf@ =~= self@ + data@.subrange(0, i as int));
        }
        assert(data@.subrange(0, n as int) =~= data@);
        PacketBuilder { buf }
    }

    /// The bytes built so far.
    pub fn as_bytes(&self) -> (r: &[u8])
        ensures
            r@ == self@,
    {
        self.buf.as_slice()
    }

    /// Hand the built packet out as an owned buffer.
    pub fn into_vec(self) -> (r: Vec<u8>)
        ensures
            r@ == self@,
    {
        self.buf
    }
}

/// Whether `data` is a DATA frame whose block number lies in
/// `[start, start + len)`.
pub fn check_datablock(data: &[u8], start: u16, len: u16) -> (r: bool)
    requires
        start + len <= u16::MAX,
    ensures
        r == (spec_parse_opcode_raw(data@) == Some(Opcode::Data) && data@.len() >= 4 && start
            <= spec_u16_at(data@, 2) < start + len),
{
    let mut parser = PacketParser::new(data);

    if !parser.opcode_expect(Opcode::Data) {
        return false;
    }

    let block_num = if let Some(block_num) = parser.number16() {
        block_num
    } else {
        return false;
    };
    assert(parser.buf@.subrange(2, parser.buf@.len() as int)[0] == parser.buf@[2]);
    assert(parser.buf@.subrange(2, parser.buf@.len() as int)[1] == parser.buf@[3]);

    start <= block_num && block_num < start + len
}

/// Split everything after the opcode into NUL-terminated entries.  `None`
/// when the packet is too short or the last entry is unterminated.
pub fn parse_entries(data: &[u8]) -> (r: Option<Vec<Vec<u8>>>)
    ensures
        match r {
            Some(v) => data@.len() > OPCODE_LEN + 1 && spec_parse_fields(
                data@.skip(OPCODE_LEN as int),
            ) == Some(fields_view(v@)),
            None => data@.len() <= OPCODE_LEN + 1 || spec_parse_fields(
                data@.skip(OPCODE_LEN as int),
            ).is_none(),
        },
{
    if data.len() <= OPCODE_LEN + 1 {
        return None;
    }

    let mut parser = PacketParser { buf: data, pos: OPCODE_LEN };
    let ghost tail = data@.skip(OPCODE_LEN as int);
    assert(parser.rest() =~= tail);
    let mut ret: Vec<Vec<u8>> = Vec::new();
    loop
        invariant
            parser.wf(),
            parser.buf@ == data@,
            tail == data@.skip(OPCODE_LEN as int),
            match spec_parse_fields(parser.rest()) {
                Some(f2) => spec_parse_fields(tail) == Some(fields_view(ret@) + f2),
                None => spec_parse_fields(tail).is_none(),
            },
        ensures
            spec_parse_fields(tail) == Some(fields_view(ret@)),
        decreases parser.buf@.len() - parser.pos,
    {
        if !parser.has_bytes() {
            assert(parser.rest() =~= Seq::<u8>::empty());
            assert(spec_parse_fields(parser.rest()) == Some(Seq::<Seq<u8>>::empty()));
            assert(fields_view(ret@) + Seq::<Seq<u8>>::empty() =~= fields_view(ret@));
            break;
        }
        let ghost before = parser.rest();
        match parser.string_with_separator() {
            Some(f) => {
                proof {
                    lemma_nul_pos_props(before, f@.len() as int);
                    assert(parser.rest() =~= before.subrange(
                        f@.len() as int + 1,
                        before.len() as int,
                    ));
                    assert(spec_parse_fields(before) == match spec_parse_fields(parser.rest()) {
                        Some(fr) => Some(seq![f@] + fr),
                        None => None::<Seq<Seq<u8>>>,
                    });
                }
                let ghost ret_before = ret@;
                ret.push(f);
                proof {
                    match spec_parse_fields(parser.rest()) {
                        Some(f2) => {
                            assert(fields_view(ret_before) + (seq![f@] + f2) =~= fields_view(ret@)
                                + f2);
                        },
                        None => (),
                    }
                }
            },
            None => {
                assert(spec_parse_fields(before).is_none());
                return None;
            },
        }
    }
    Some(ret)
}

} // verus!
