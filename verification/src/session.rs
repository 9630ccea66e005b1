//! Per-session decision logic of the server.
//!
//! Everything here is a pure decision over bytes and settings: parsing the
//! initial request, the path sandbox, the write-mode checks, and building
//! the reply packets.  Sockets, files and the lock-table mutex stay with
//! the caller.

use vstd::prelude::*;
use vstd::slice::slice_index_get;
use crate::codec::{
    spec_build_ack, spec_build_error, spec_build_oack, spec_build_req, spec_nul_pos,
    spec_options_bytes, spec_parse_fields, spec_parse_opcode_raw, spec_pair_up, Opcode,
    PacketBuilder, PacketParser,
};
use crate::consts::{DEFAULT_BLOCKSIZE, DEFAULT_WINDOWSIZE, MAX_BLOCKSIZE, MIN_BLOCKSIZE};
use crate::options::{
    blksize_name, filter_extended_options, spec_blksize_name, spec_filter_options,
    spec_u16_dec_bytes, spec_windowsize_name, u16_to_dec, windowsize_name, ExtendedOptions,
};
use crate::types::{
    spec_error_num, spec_mode_bytes, spec_mode_from, ErrorNumber, ErrorResponse, TransferMode,
};

verus! {

/// Whether writing is allowed, and to which files.
#[derive(Clone, Copy, Debug, PartialEq, Eq, Structural)]
pub enum WriteMode {
    /// No upload is accepted.
    Disabled,
    /// Only files that do not exist yet may be uploaded.
    WriteNew,
    /// Existing files may be overwritten.
    WriteOverwrite,
}

/// The server's per-session settings: the sandbox root, the write policy,
/// and the negotiated transfer parameters.
pub struct ServerSettings {
    pub root_dir: Vec<u8>,
    pub write_mode: WriteMode,
    pub blocksize: usize,
    pub windowsize: usize,
}

/// What the initial packet of a session asks for.
#[derive(Debug)]
pub struct ParsedRequest {
    pub opcode: Opcode,
    pub filename: Vec<u8>,
}

/// The bytes of the fallback error text `unknown`.
pub open spec fn spec_unknown_text() -> Seq<u8> {
    seq![117u8, 110, 107, 110, 111, 119, 110]
}

/// The bytes of the parse-error text `invalid opcode`.
pub open spec fn spec_invalid_opcode_text() -> Seq<u8> {
    seq![105u8, 110, 118, 97, 108, 105, 100, 32, 111, 112, 99, 111, 100, 101]
}

/// The bytes of the parse-error text `invalid filename`.
pub open spec fn spec_invalid_filename_text() -> Seq<u8> {
    seq![105u8, 110, 118, 97, 108, 105, 100, 32, 102, 105, 108, 101, 110, 97, 109, 101]
}

/// The bytes of the parse-error text `invalid mode`.
pub open spec fn spec_invalid_mode_text() -> Seq<u8> {
    seq![105u8, 110, 118, 97, 108, 105, 100, 32, 109, 111, 100, 101]
}

/// The error text `invalid opcode` as owned bytes.
fn invalid_opcode_text() -> (r: Vec<u8>)
    ensures
        r@ == spec_invalid_opcode_text(),
{
    let mut v: Vec<u8> = Vec::new();
    v.push(105);
    v.push(110);
    v.push(118);
    v.push(97);
    v.push(108);
    v.push(105);
    v.push(100);
    v.push(32);
    v.push(111);
    v.push(112);
    v.push(99);
    v.push(111);
    v.push(100);
    v.push(101);
    assert(v@ =~= spec_invalid_opcode_text());
    v
}

/// The error text `invalid filename` as owned bytes.
fn invalid_filename_text() -> (r: Vec<u8>)
    ensures
        r@ == spec_invalid_filename_text(),
{
    let mut v: Vec<u8> = Vec::new();
    v.push(105);
    v.push(110);
    v.push(118);
    v.push(97);
    v.push(108);
    v.push(105);
    v.push(100);
    v.push(32);
    v.push(102);
    v.push(105);
    v.push(108);
    v.push(101);
    v.push(110);
    v.push(97);
    v.push(109);
    v.push(101);
    assert(v@ =~= spec_invalid_filename_text());
    v
}

/// The error text `invalid mode` as owned bytes.
fn invalid_mode_text() -> (r: Vec<u8>)
    ensures
        r@ == spec_invalid_mode_text(),
{
    let mut v: Vec<u8> = Vec::new();
    v.push(105);
    v.push(110);
    v.push(118);
    v.push(97);
    v.push(108);
    v.push(105);
    v.push(100);
    v.push(32);
    v.push(109);
    v.push(111);
    v.push(100);
    v.push(101);
    assert(v@ =~= spec_invalid_mode_text());
    v
}

/// The error text `unknown` as owned bytes.
fn unknown_text() -> (r: Vec<u8>)
    ensures
        r@ == spec_unknown_text(),
{
    let mut v: Vec<u8> = Vec::new();
    v.push(117);
    v.push(110);
    v.push(107);
    v.push(110);
    v.push(111);
    v.push(119);
    v.push(110);
    assert(v@ =~= spec_unknown_text());
    v
}

/// What a request packet decodes to: its opcode, filename, transfer mode
/// and the option bytes after them.
pub open spec fn spec_parse_request(s: Seq<u8>) -> Option<(Opcode, Seq<u8>, TransferMode, Seq<u8>)> {
    match spec_parse_opcode_raw(s) {
        None => None,
        Some(op) => {
            let t = s.skip(2);
            match spec_nul_pos(t) {
                None => None,
                Some(i) => {
                    let filename = t.take(i);
                    let u = t.skip(i + 1);
                    match spec_nul_pos(u) {
                        None => None,
                        Some(j) => match spec_mode_from(u.take(j)) {
                            None => None,
                            Some(m) => Some((op, filename, m, u.skip(j + 1))),
                        },
                    }
                },
            }
        },
    }
}

/// The option values a request carries, after the server's acceptance
/// policy: `blksize` clamped into `MIN_BLOCKSIZE ..= MAX_BLOCKSIZE`,
/// `windowsize` taken as given (it is at least 1 whenever present).
/// `None` when the option bytes are malformed or a recognized value fails
/// to parse; the session then keeps its defaults.
pub open spec fn spec_request_options(rest: Seq<u8>) -> Option<(int, int)> {
    match spec_parse_fields(rest) {
        None => None,
        Some(fields) => if fields.len() % 2 != 0 {
            None
        } else {
            match spec_filter_options(spec_pair_up(fields)) {
                None => None,
                Some((b, w, unk)) => Some(
                    (
                        if b < MIN_BLOCKSIZE {
                            MIN_BLOCKSIZE as int
                        } else if b > MAX_BLOCKSIZE {
                            MAX_BLOCKSIZE as int
                        } else {
                            b as int
                        },
                        if w < 1 {
                            DEFAULT_WINDOWSIZE as int
                        } else {
                            w as int
                        },
                    ),
                ),
            }
        },
    }
}

/// Parse a session's initial packet and adopt its options into the
/// session settings.  Malformed options are ignored (the defaults stay);
/// a malformed opcode, filename or mode rejects the request.
pub fn parsed_request(settings: &mut ServerSettings, data: &[u8]) -> (r: Result<
    ParsedRequest,
    ErrorResponse,
>)
    ensures
        final(settings).root_dir@ == old(settings).root_dir@,
        final(settings).write_mode == old(settings).write_mode,
        match r {
            Ok(pr) => {
                &&& spec_parse_request(data@) matches Some((op, fname, _m, rest)) && pr.opcode
                    == op && pr.filename@ == fname && (match spec_request_options(rest) {
                    Some((b, w)) => final(settings).blocksize == b && final(settings).windowsize
                        == w,
                    None => final(settings).blocksize == old(settings).blocksize && final(settings).windowsize == old(settings).windowsize,
                })
            },
            Err(er) => {
                &&& spec_parse_request(data@).is_none()
                &&& final(settings).blocksize == old(settings).blocksize
                &&& final(settings).windowsize == old(settings).windowsize
                &&& er.number == ErrorNumber::NotDefined
                &&& (er.msg matches Some(m) && m@ == (if spec_parse_opcode_raw(data@).is_none() {
                    spec_invalid_opcode_text()
                } else if spec_nul_pos(data@.skip(2)).is_none() {
                    spec_invalid_filename_text()
                } else {
                    spec_invalid_mode_text()
                }))
            },
        },
{
    let mut parser = PacketParser::new(data);

    let opcode = if let Some(opcode) = parser.opcode() {
        opcode
    } else {
        return Err(ErrorResponse::new_custom(invalid_opcode_text()));
    };

    let ghost t = data@.skip(2);
    assert(parser.rest() =~= t);

    let filename = if let Some(filename) = parser.string_with_separator() {
        filename
    } else {
        return Err(ErrorResponse::new_custom(invalid_filename_text()));
    };
    proof {
        assert(filename@ == t.take(filename@.len() as int));
    }

    let ghost u = t.skip(filename@.len() as int + 1);
    assert(parser.rest() =~= u);

    let mode_token = if let Some(mode_token) = parser.string_with_separator() {
        mode_token
    } else {
        return Err(ErrorResponse::new_custom(invalid_mode_text()));
    };
    proof {
        assert(mode_token@ == u.take(mode_token@.len() as int));
    }

    let _mode = if let Some(mode) = TransferMode::from_bytes(mode_token.as_slice()) {
        mode
    } else {
        return Err(ErrorResponse::new_custom(invalid_mode_text()));
    };

    let ghost rest = u.skip(mode_token@.len() as int + 1);
    assert(parser.rest() =~= rest);

    match parser.extended_options() {
        Ok(recv_pairs) => {
            match filter_extended_options(&recv_pairs) {
                Ok((options, _other)) => {
                    settings.blocksize = clamp_blocksize(options.blksize);
                    settings.windowsize = accept_windowsize(options.windowsize);
                },
                Err(_) => {
                    // Recognized option with a malformed value: ignored.
                },
            }
        },
        Err(_) => {
            // Malformed option list: ignored.
        },
    }

    Ok(ParsedRequest { opcode, filename })
}

/// The server's `blksize` acceptance policy: clamp into
/// `MIN_BLOCKSIZE ..= MAX_BLOCKSIZE`.
pub fn clamp_blocksize(b: u16) -> (r: usize)
    ensures
        r == if b < MIN_BLOCKSIZE {
            MIN_BLOCKSIZE as int
        } else if b > MAX_BLOCKSIZE {
            MAX_BLOCKSIZE as int
        } else {
            b as int
        },
        MIN_BLOCKSIZE <= r <= MAX_BLOCKSIZE,
{
    if (b as usize) < MIN_BLOCKSIZE {
        MIN_BLOCKSIZE
    } else if (b as usize) > MAX_BLOCKSIZE {
        MAX_BLOCKSIZE
    } else {
        b as usize
    }
}

/// The server's `windowsize` acceptance policy: any value of at least 1,
/// as given; 0 falls back to the default.
pub fn accept_windowsize(w: u16) -> (r: usize)
    ensures
        r == if w < 1 {
            DEFAULT_WINDOWSIZE as int
        } else {
            w as int
        },
        1 <= r <= 65535,
{
    if w < 1 {
        DEFAULT_WINDOWSIZE
    } else {
        w as usize
    }
}

/// Whether a relative path holds a `..` component.
pub open spec fn spec_has_dotdot(s: Seq<u8>) -> bool {
    exists|i: int|
        0 <= i && i + 2 <= s.len() && #[trigger] s[i] == 46 && s[i + 1] == 46 && (i == 0 || s[i
            - 1] == 47) && (i + 2 == s.len() || s[i + 2] == 47)
}

/// The sandbox join: an absolute request replaces the root (and then
/// fails the prefix check), anything else goes below the root with a
/// separator between.
pub open spec fn spec_join(root: Seq<u8>, rel: Seq<u8>) -> Seq<u8> {
    if rel.len() > 0 && rel[0] == 47 {
        rel
    } else if root.len() > 0 && root.last() == 47 {
        root + rel
    } else {
        root + seq![47u8] + rel
    }
}

/// Whether `s` textually starts with `p`.
pub open spec fn spec_starts_with(s: Seq<u8>, p: Seq<u8>) -> bool {
    p.len() <= s.len() && s.subrange(0, p.len() as int) == p
}

/// Resolve a requested filename below the sandbox root.  The request is
/// rejected with `FileNotFound` exactly when it carries a `..` component
/// or the joined path does not textually start with the root: no accepted
/// path lies outside the root after the textual prefix check.
pub fn get_file_path(root_dir: &[u8], path_relative: &[u8]) -> (r: Result<Vec<u8>, ErrorResponse>)
    ensures
        match r {
            Ok(p) => {
                &&& !spec_has_dotdot(path_relative@)
                &&& p@ == spec_join(root_dir@, path_relative@)
                &&& spec_starts_with(p@, root_dir@)
            },
            Err(er) => {
                &&& spec_has_dotdot(path_relative@) || !spec_starts_with(
                    spec_join(root_dir@, path_relative@),
                    root_dir@,
                )
                &&& er.number == ErrorNumber::FileNotFound
                &&& er.msg.is_none()
            },
        },
{
    if has_dotdot(path_relative) {
        return Err(ErrorResponse::from(ErrorNumber::FileNotFound));
    }

    let mut full: Vec<u8> = Vec::new();
    let n = path_relative.len();
    let rooted = n > 0 && *slice_index_get(path_relative, 0) == 47;
    if !rooted {
        full.extend_from_slice(root_dir);
        let rn = root_dir.len();
        if !(rn > 0 && *slice_index_get(root_dir, rn - 1) == 47) {
            full.push(47);
        }
    }
    full.extend_from_slice(path_relative);
    proof {
        assert(full@ =~= spec_join(root_dir@, path_relative@));
    }

    // The textual prefix check.
    let mut parser = PacketParser::new(full.as_slice());
    if parser.raw_expect(root_dir, false) {
        proof {
            assert(parser.rest() =~= full@);
        }
        Ok(full)
    } else {
        proof {
            assert(parser.rest() =~= full@);
        }
        Err(ErrorResponse::from(ErrorNumber::FileNotFound))
    }
}

/// Whether a path holds a `..` component.
pub fn has_dotdot(path: &[u8]) -> (r: bool)
    ensures
        r == spec_has_dotdot(path@),
{
    let n = path.len();
    if n < 2 {
        assert(!spec_has_dotdot(path@));
        return false;
    }
    let mut i: usize = 0;
    while i <= n - 2
        invariant
            n >= 2,
            i <= n,
            n == path@.len(),
            forall|k: int|
                0 <= k < i ==> !(k + 2 <= path@.len() && #[trigger] path@[k] == 46 && path@[k + 1]
                    == 46 && (k == 0 || path@[k - 1] == 47) && (k + 2 == path@.len() || path@[k
                    + 2] == 47)),
        decreases n - i,
    {
        let c0 = *slice_index_get(path, i);
        let c1 = *slice_index_get(path, i + 1);
        let before_ok = i == 0 || *slice_index_get(path, i - 1) == 47;
        let after_ok = i + 2 == n || *slice_index_get(path, i + 2) == 47;
        if c0 == 46 && c1 == 46 && before_ok && after_ok {
            assert(spec_has_dotdot(path@));
            return true;
        }
        i = i + 1;
    }
    assert(!spec_has_dotdot(path@));
    false
}

/// The upload admission decision: writing may be disabled outright, and
/// an existing file may only be replaced when overwriting is allowed.
pub fn open_upload_precheck(write_mode: WriteMode, file_exists: bool) -> (r: Result<
    (),
    ErrorResponse,
>)
    ensures
        match r {
            Ok(_) => write_mode != WriteMode::Disabled && (!file_exists || write_mode
                == WriteMode::WriteOverwrite),
            Err(er) => {
                &&& er.msg.is_none()
                &&& (write_mode == WriteMode::Disabled ==> er.number
                    == ErrorNumber::AccessViolation)
                &&& (write_mode != WriteMode::Disabled ==> file_exists && write_mode
                    != WriteMode::WriteOverwrite && er.number == ErrorNumber::FileAlreadyExists)
            },
        },
        r.is_ok() <==> (write_mode != WriteMode::Disabled && (!file_exists || write_mode
            == WriteMode::WriteOverwrite)),
{
    if write_mode == WriteMode::Disabled {
        return Err(ErrorResponse::from(ErrorNumber::AccessViolation));
    }

    if file_exists && write_mode != WriteMode::WriteOverwrite {
        return Err(ErrorResponse::from(ErrorNumber::FileAlreadyExists));
    }

    Ok(())
}

/// The option pairs the server echoes in an OACK: each negotiated value
/// that differs from its default, rendered in decimal.
pub open spec fn spec_oack_pairs(blocksize: int, windowsize: int) -> Seq<(Seq<u8>, Seq<u8>)> {
    let blk: Seq<(Seq<u8>, Seq<u8>)> = if blocksize != DEFAULT_BLOCKSIZE {
        seq![(spec_blksize_name(), spec_u16_dec_bytes(blocksize))]
    } else {
        Seq::empty()
    };
    let win: Seq<(Seq<u8>, Seq<u8>)> = if windowsize != DEFAULT_WINDOWSIZE {
        seq![(spec_windowsize_name(), spec_u16_dec_bytes(windowsize))]
    } else {
        Seq::empty()
    };
    blk + win
}

/// Build the OACK for the accepted option values, or nothing when both
/// stayed at their defaults (then no OACK is sent).
pub fn build_oack_packet(blocksize: usize, windowsize: usize) -> (r: Option<Vec<u8>>)
    requires
        blocksize <= 65535,
        windowsize <= 65535,
    ensures
        match r {
            Some(v) => (blocksize != DEFAULT_BLOCKSIZE || windowsize != DEFAULT_WINDOWSIZE) && v@
                == spec_build_oack(spec_oack_pairs(blocksize as int, windowsize as int)),
            None => blocksize == DEFAULT_BLOCKSIZE && windowsize == DEFAULT_WINDOWSIZE,
        },
{
    let mut builder = PacketBuilder::new().opcode(Opcode::Oack);
    let mut is_oack = false;

    if blocksize != DEFAULT_BLOCKSIZE {
        let name = blksize_name();
        let val = u16_to_dec(blocksize as u16);
        builder = builder.str(name.as_slice()).separator().str(val.as_slice()).separator();
        is_oack = true;
    }
    if windowsize != DEFAULT_WINDOWSIZE {
        let name = windowsize_name();
        let val = u16_to_dec(windowsize as u16);
        builder = builder.str(name.as_slice()).separator().str(val.as_slice()).separator();
        is_oack = true;
    }

    if !is_oack {
        return None;
    }
    proof {
        lemma_options_bytes_small(spec_oack_pairs(blocksize as int, windowsize as int));
        assert(builder@ =~= spec_build_oack(spec_oack_pairs(blocksize as int, windowsize as int)));
    }
    Some(builder.into_vec())
}

/// The wire bytes of zero, one or two option pairs, written out.
proof fn lemma_options_bytes_small(opts: Seq<(Seq<u8>, Seq<u8>)>)
    ensures
        opts.len() == 0 ==> spec_options_bytes(opts) == Seq::<u8>::empty(),
        opts.len() == 1 ==> spec_options_bytes(opts) =~= opts[0].0 + seq![0u8] + opts[0].1 + seq![
            0u8,
        ],
        opts.len() == 2 ==> spec_options_bytes(opts) =~= opts[0].0 + seq![0u8] + opts[0].1 + seq![
            0u8,
        ] + opts[1].0 + seq![0u8] + opts[1].1 + seq![0u8],
{
    if opts.len() == 1 {
        assert(opts.skip(1) =~= Seq::<(Seq<u8>, Seq<u8>)>::empty());
        assert(spec_options_bytes(opts.skip(1)) == Seq::<u8>::empty());
    }
    if opts.len() == 2 {
        assert(opts.skip(1).skip(1) =~= Seq::<(Seq<u8>, Seq<u8>)>::empty());
        assert(spec_options_bytes(opts.skip(1).skip(1)) == Seq::<u8>::empty());
        assert(opts.skip(1)[0] == opts[1]);
        assert(opts.skip(1).skip(1) == opts.skip(1).skip(1));
        assert(spec_options_bytes(opts.skip(1)) =~= opts[1].0 + seq![0u8] + opts[1].1 + seq![
            0u8,
        ]);
    }
}

/// Build an ERROR packet: the code, then the message or `unknown` when
/// the error carries none.
pub fn build_error_packet(error: &ErrorResponse) -> (r: Vec<u8>)
    ensures
        r@ == spec_build_error(
            spec_error_num(error.number),
            match error.msg {
                Some(m) => m@,
                None => spec_unknown_text(),
            },
        ),
{
    let builder = PacketBuilder::new().opcode(Opcode::Error).number16(error.number.num());
    let builder = match &error.msg {
        Some(m) => builder.str(m.as_slice()),
        None => {
            let u = unknown_text();
            builder.str(u.as_slice())
        },
    };
    let builder = builder.separator();
    proof {
        assert(builder@ =~= spec_build_error(
            spec_error_num(error.number),
            match error.msg {
                Some(m) => m@,
                None => spec_unknown_text(),
            },
        ));
    }
    builder.into_vec()
}

/// Build an ACK packet for a block number.
pub fn build_ack_packet(blocknr: u16) -> (r: Vec<u8>)
    ensures
        r@ == spec_build_ack(blocknr),
{
    let builder = PacketBuilder::new().opcode(Opcode::Ack).number16(blocknr);
    proof {
        assert(builder@ =~= spec_build_ack(blocknr));
    }
    builder.into_vec()
}

/// The option pairs a client request carries: each requested value that
/// differs from its default.
pub open spec fn spec_client_option_pairs(blksize: int, windowsize: int) -> Seq<
    (Seq<u8>, Seq<u8>),
> {
    spec_oack_pairs(blksize, windowsize)
}

/// Build the initial RRQ or WRQ: the filename, the `octet` mode, and each
/// non-default option appended.
pub fn build_request_packet(opcode: Opcode, filename: &[u8], blksize: usize, windowsize: usize) -> (r:
    Vec<u8>)
    requires
        blksize <= 65535,
        windowsize <= 65535,
    ensures
        r@ == spec_build_req(
            crate::codec::spec_opcode_num(opcode),
            filename@,
            spec_mode_bytes(TransferMode::Octet),
            spec_client_option_pairs(blksize as int, windowsize as int),
        ),
{
    let mut pkg = PacketBuilder::new().opcode(opcode).str(filename).separator().transfer_mode(
        TransferMode::Octet,
    );

    if blksize != DEFAULT_BLOCKSIZE {
        let name = blksize_name();
        let val = u16_to_dec(blksize as u16);
        pkg = pkg.separator().str(name.as_slice()).separator().str(val.as_slice());
    }
    if windowsize != DEFAULT_WINDOWSIZE {
        let name = windowsize_name();
        let val = u16_to_dec(windowsize as u16);
        pkg = pkg.separator().str(name.as_slice()).separator().str(val.as_slice());
    }

    pkg = pkg.separator();
    proof {
        lemma_options_bytes_small(
            spec_client_option_pairs(blksize as int, windowsize as int),
        );
        assert(pkg@ =~= spec_build_req(
            crate::codec::spec_opcode_num(opcode),
            filename@,
            spec_mode_bytes(TransferMode::Octet),
            spec_client_option_pairs(blksize as int, windowsize as int),
        ));
    }
    pkg.into_vec()
}

/// What a client does with a packet awaited as an OACK: adopt the
/// confirmed option values, or treat anything else as the transfer's
/// first packet.
pub fn parse_oack_options(data: &[u8]) -> (r: Option<ExtendedOptions>)
    ensures
        match r {
            Some(opts) => {
                &&& spec_parse_opcode_raw(data@) == Some(Opcode::Oack)
                &&& spec_parse_fields(data@.skip(2)) matches Some(fields) && fields.len() % 2 == 0
                    && (spec_filter_options(spec_pair_up(fields)) matches Some((b, w, _unk))
                    && opts.blksize == b && opts.windowsize == w)
            },
            None => spec_parse_opcode_raw(data@) != Some(Opcode::Oack) || !(spec_parse_fields(
                data@.skip(2),
            ) matches Some(fields) && fields.len() % 2 == 0 && spec_filter_options(
                spec_pair_up(fields),
            ).is_some()),
        },
{
    let mut pp = PacketParser::new(data);
    if !pp.opcode_expect(Opcode::Oack) {
        return None;
    }
    assert(pp.rest() =~= data@.skip(2));
    match pp.extended_options() {
        Ok(pairs) => {
            match filter_extended_options(&pairs) {
                Ok((options, _other)) => Some(options),
                Err(_) => None,
            }
        },
        Err(_) => None,
    }
}

} // verus!
