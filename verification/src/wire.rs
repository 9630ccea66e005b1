//! The wire model: every packet as a value, its exact byte layout, and
//! the law that parsing a built packet gives the packet back.

use vstd::prelude::*;
use crate::codec::{
    spec_be16, spec_build_ack, spec_build_data, spec_build_error, spec_build_oack, spec_build_req,
    spec_nul_pos, spec_options_bytes, spec_pair_up, spec_parse_fields, spec_parse_opcode,
    spec_parse_opcode_raw, spec_opcode_num, spec_u16_at, Opcode,
};
use crate::codec::lemma_nul_pos_at;
use crate::session::spec_parse_request;
use crate::types::{
    spec_error_from_u16, spec_error_num, spec_lower, spec_mode_bytes, spec_mode_from,
    spec_parse_error_packet, ErrorNumber, TransferMode,
};

verus! {

/// A packet of the protocol, as a value.
pub enum SpecPacket {
    /// A DATA frame: a block number and its payload.
    Data { blk: u16, payload: Seq<u8> },
    /// An ACK for a block number.
    Ack { blk: u16 },
    /// An ERROR: a code and a message.
    Error { code: ErrorNumber, msg: Seq<u8> },
    /// An RRQ or WRQ: filename, transfer mode and option pairs.
    Req { op: Opcode, filename: Seq<u8>, mode: TransferMode, options: Seq<(Seq<u8>, Seq<u8>)> },
    /// An OACK echoing accepted option pairs.
    Oack { options: Seq<(Seq<u8>, Seq<u8>)> },
}

/// Whether a byte sequence is free of NUL bytes: fields on the wire are
/// NUL-terminated, so their content must not hold one.
pub open spec fn spec_no_nul(s: Seq<u8>) -> bool {
    forall|i: int| 0 <= i < s.len() ==> #[trigger] s[i] != 0
}

/// Whether every option name and value is free of NUL bytes.
pub open spec fn spec_options_no_nul(opts: Seq<(Seq<u8>, Seq<u8>)>) -> bool {
    forall|i: int|
        0 <= i < opts.len() ==> spec_no_nul((#[trigger] opts[i]).0) && spec_no_nul(opts[i].1)
}

/// Which packet values can stand on the wire at all: string fields hold
/// no NUL, a request is a read or write request, an error code is one of
/// the eight.
pub open spec fn spec_wf_packet(p: SpecPacket) -> bool {
    match p {
        SpecPacket::Data { .. } => true,
        SpecPacket::Ack { .. } => true,
        SpecPacket::Error { msg, .. } => spec_no_nul(msg),
        SpecPacket::Req { op, filename, mode: _, options } => (op == Opcode::Read || op
            == Opcode::Write) && spec_no_nul(filename) && spec_options_no_nul(options),
        SpecPacket::Oack { options } => spec_options_no_nul(options),
    }
}

/// The exact bytes each packet takes on the wire.
pub open spec fn spec_build_packet(p: SpecPacket) -> Seq<u8> {
    match p {
        SpecPacket::Data { blk, payload } => spec_build_data(blk, payload),
        SpecPacket::Ack { blk } => spec_build_ack(blk),
        SpecPacket::Error { code, msg } => spec_build_error(spec_error_num(code), msg),
        SpecPacket::Req { op, filename, mode, options } => spec_build_req(
            spec_opcode_num(op),
            filename,
            spec_mode_bytes(mode),
            options,
        ),
        SpecPacket::Oack { options } => spec_build_oack(options),
    }
}

/// The option pairs flattened to the field sequence they occupy on the
/// wire: name, value, name, value.
pub open spec fn spec_fields_of(opts: Seq<(Seq<u8>, Seq<u8>)>) -> Seq<Seq<u8>> {
    Seq::new(
        2 * opts.len(),
        |i: int|
            if i % 2 == 0 {
                opts[i / 2].0
            } else {
                opts[i / 2].1
            },
    )
}

/// What a datagram decodes to, if it is a well-formed packet.
pub open spec fn spec_parse_packet(s: Seq<u8>) -> Option<SpecPacket> {
    match spec_parse_opcode_raw(s) {
        None => None,
        Some(Opcode::Data) => if s.len() >= 4 {
            Some(SpecPacket::Data { blk: spec_u16_at(s, 2), payload: s.skip(4) })
        } else {
            None
        },
        Some(Opcode::Ack) => if s.len() == 4 {
            Some(SpecPacket::Ack { blk: spec_u16_at(s, 2) })
        } else {
            None
        },
        Some(Opcode::Error) => match spec_parse_error_packet(s) {
            Some((code, msg)) => Some(SpecPacket::Error { code, msg }),
            None => None,
        },
        Some(Opcode::Oack) => match spec_parse_fields(s.skip(2)) {
            Some(fields) => if fields.len() % 2 == 0 {
                Some(SpecPacket::Oack { options: spec_pair_up(fields) })
            } else {
                None
            },
            None => None,
        },
        Some(_) => match spec_parse_request(s) {
            Some((op, filename, mode, rest)) => match spec_parse_fields(rest) {
                Some(fields) => if fields.len() % 2 == 0 {
                    Some(
                        SpecPacket::Req {
                            op,
                            filename,
                            mode,
                            options: spec_pair_up(fields),
                        },
                    )
                } else {
                    None
                },
                None => None,
            },
            None => None,
        },
    }
}

/// The two big-endian bytes written for `n` read back as `n`, at any
/// offset.
proof fn lemma_u16_field(s: Seq<u8>, i: int, n: u16)
    requires
        0 <= i,
        i + 2 <= s.len(),
        s[i] == n / 256,
        s[i + 1] == n % 256,
    ensures
        spec_u16_at(s, i) == n,
{
    assert((n / 256) * 256 + n % 256 == n) by (nonlinear_arith);
}

/// Every known error code survives its wire number.
proof fn lemma_error_code_roundtrip(code: ErrorNumber)
    ensures
        spec_error_from_u16(spec_error_num(code)) == Some(code),
{
}

/// No transfer-mode token holds a NUL, each is its own lower-case fold,
/// and the three are distinct: a token decodes back to its mode.
proof fn lemma_mode_roundtrip(mode: TransferMode)
    ensures
        spec_no_nul(spec_mode_bytes(mode)),
        spec_mode_from(spec_mode_bytes(mode)) == Some(mode),
{
    assert(spec_lower(spec_mode_bytes(TransferMode::Netascii)) =~= spec_mode_bytes(
        TransferMode::Netascii,
    ));
    assert(spec_lower(spec_mode_bytes(TransferMode::Octet)) =~= spec_mode_bytes(
        TransferMode::Octet,
    ));
    assert(spec_lower(spec_mode_bytes(TransferMode::Mail)) =~= spec_mode_bytes(TransferMode::Mail));
}

/// Flattened option bytes split back into their fields.
proof fn lemma_options_fields(opts: Seq<(Seq<u8>, Seq<u8>)>)
    requires
        spec_options_no_nul(opts),
    ensures
        spec_parse_fields(spec_options_bytes(opts)) == Some(spec_fields_of(opts)),
    decreases opts.len(),
{
    if opts.len() == 0 {
        assert(spec_fields_of(opts) =~= Seq::<Seq<u8>>::empty());
        assert(spec_options_bytes(opts).len() == 0);
    } else {
        let name = opts[0].0;
        let value = opts[0].1;
        let tail_bytes = spec_options_bytes(opts.skip(1));
        let s = spec_options_bytes(opts);
        assert(s == name + seq![0u8] + value + seq![0u8] + tail_bytes);

        lemma_options_fields(opts.skip(1));

        // The first field is the name.
        assert(spec_no_nul(name) && spec_no_nul(value));
        assert(s[name.len() as int] == 0);
        assert forall|j: int| 0 <= j < name.len() implies s[j] != 0 by {
            assert(s[j] == name[j]);
        }
        lemma_nul_pos_at(s, name.len() as int);
        assert(s.take(name.len() as int) =~= name);
        let s1 = s.skip(name.len() as int + 1);
        assert(s1 =~= value + seq![0u8] + tail_bytes);

        // The second field is the value.
        assert(s1[value.len() as int] == 0);
        assert forall|j: int| 0 <= j < value.len() implies s1[j] != 0 by {
            assert(s1[j] == value[j]);
        }
        lemma_nul_pos_at(s1, value.len() as int);
        assert(s1.take(value.len() as int) =~= value);
        assert(s1.skip(value.len() as int + 1) =~= tail_bytes);

        assert(s.len() > 0);
        assert(spec_parse_fields(s1) == Some(seq![value] + spec_fields_of(opts.skip(1))));
        assert(spec_parse_fields(s) == Some(
            seq![name] + (seq![value] + spec_fields_of(opts.skip(1))),
        ));
        assert(seq![name] + (seq![value] + spec_fields_of(opts.skip(1))) =~= spec_fields_of(opts))
            by {
            assert forall|i: int|
                0 <= i < spec_fields_of(opts).len() implies spec_fields_of(opts)[i] == (seq![name]
                + (seq![value] + spec_fields_of(opts.skip(1))))[i] by {
                if i >= 2 {
                    assert(spec_fields_of(opts.skip(1))[i - 2] == (if (i - 2) % 2 == 0 {
                        opts.skip(1)[(i - 2) / 2].0
                    } else {
                        opts.skip(1)[(i - 2) / 2].1
                    }));
                    assert(opts.skip(1)[(i - 2) / 2] == opts[i / 2]);
                }
            }
        }
    }
}

/// Pairing the flattened fields gives the pairs back.
proof fn lemma_pair_up_fields(opts: Seq<(Seq<u8>, Seq<u8>)>)
    ensures
        spec_fields_of(opts).len() % 2 == 0,
        spec_pair_up(spec_fields_of(opts)) == opts,
{
    assert(spec_pair_up(spec_fields_of(opts)) =~= opts);
}

/// Parsing a built packet yields the packet: the wire codec loses
/// nothing.
#[verifier::rlimit(60)]
pub proof fn lemma_parse_build_roundtrip(p: SpecPacket)
    requires
        spec_wf_packet(p),
    ensures
        spec_parse_packet(spec_build_packet(p)) == Some(p),
{
    let s = spec_build_packet(p);
    match p {
        SpecPacket::Data { blk, payload } => {
            assert(s == spec_be16(3) + spec_be16(blk) + payload);
            assert(s[0] == 0 && s[1] == 3);
            lemma_u16_field(s, 0, 3);
            assert(spec_parse_opcode_raw(s) == Some(Opcode::Data));
            assert(s[2] == blk / 256 && s[3] == blk % 256);
            lemma_u16_field(s, 2, blk);
            assert(s.skip(4) =~= payload);
        },
        SpecPacket::Ack { blk } => {
            assert(s == spec_be16(4) + spec_be16(blk));
            assert(s[0] == 0 && s[1] == 4);
            lemma_u16_field(s, 0, 4);
            assert(spec_parse_opcode_raw(s) == Some(Opcode::Ack));
            assert(s[2] == blk / 256 && s[3] == blk % 256);
            lemma_u16_field(s, 2, blk);
            assert(s.len() == 4);
        },
        SpecPacket::Error { code, msg } => {
            let num = spec_error_num(code);
            assert(s == spec_be16(5) + spec_be16(num) + msg + seq![0u8]);
            assert(s[0] == 0 && s[1] == 5);
            lemma_u16_field(s, 0, 5);
            assert(spec_parse_opcode_raw(s) == Some(Opcode::Error));
            assert(s[2] == num / 256 && s[3] == num % 256);
            lemma_u16_field(s, 2, num);
            lemma_error_code_roundtrip(code);
            let m = s.skip(4);
            assert(m =~= msg + seq![0u8]);
            assert(m[msg.len() as int] == 0);
            assert forall|j: int| 0 <= j < msg.len() implies m[j] != 0 by {
                assert(m[j] == msg[j]);
            }
            lemma_nul_pos_at(m, msg.len() as int);
            assert(m.take(msg.len() as int) =~= msg);
            assert(s.len() >= 4);
            assert(spec_parse_error_packet(s) == Some((code, msg)));
        },
        SpecPacket::Req { op, filename, mode, options } => {
            let num = spec_opcode_num(op);
            let mode_bytes = spec_mode_bytes(mode);
            let opt_bytes = spec_options_bytes(options);
            assert(s == spec_be16(num) + filename + seq![0u8] + mode_bytes + seq![0u8]
                + opt_bytes);
            assert(s[0] == 0 && s[1] == num) by {
                assert(num < 256);
            }
            lemma_u16_field(s, 0, num);
            assert(spec_parse_opcode(num) == Some(op));
            assert(spec_parse_opcode_raw(s) == Some(op));

            lemma_mode_roundtrip(mode);

            let t = s.skip(2);
            assert(t =~= filename + seq![0u8] + mode_bytes + seq![0u8] + opt_bytes);
            assert(t[filename.len() as int] == 0);
            assert forall|j: int| 0 <= j < filename.len() implies t[j] != 0 by {
                assert(t[j] == filename[j]);
            }
            lemma_nul_pos_at(t, filename.len() as int);
            assert(t.take(filename.len() as int) =~= filename);

            let u = t.skip(filename.len() as int + 1);
            assert(u =~= mode_bytes + seq![0u8] + opt_bytes);
            assert(u[mode_bytes.len() as int] == 0);
            assert forall|j: int| 0 <= j < mode_bytes.len() implies u[j] != 0 by {
                assert(u[j] == mode_bytes[j]);
            }
            lemma_nul_pos_at(u, mode_bytes.len() as int);
            assert(u.take(mode_bytes.len() as int) =~= mode_bytes);

            let rest = u.skip(mode_bytes.len() as int + 1);
            assert(rest =~= opt_bytes);
            assert(spec_parse_request(s) == Some((op, filename, mode, rest)));

            lemma_options_fields(options);
            lemma_pair_up_fields(options);
            assert(op != Opcode::Data && op != Opcode::Ack && op != Opcode::Error && op
                != Opcode::Oack);
        },
        SpecPacket::Oack { options } => {
            assert(s == spec_be16(6) + spec_options_bytes(options));
            assert(s[0] == 0 && s[1] == 6);
            lemma_u16_field(s, 0, 6);
            assert(spec_parse_opcode_raw(s) == Some(Opcode::Oack));
            assert(s.skip(2) =~= spec_options_bytes(options));
            lemma_options_fields(options);
            lemma_pair_up_fields(options);
        },
    }
}

} // verus!
