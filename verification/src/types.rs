//! Protocol value types: error codes, error responses and transfer modes.

use vstd::prelude::*;
use vstd::slice::slice_index_get;
use crate::codec::{
    spec_parse_opcode_raw, spec_u16_at, spec_nul_pos, Opcode, PacketParser, PacketBuilder,
};

verus! {

/// The eight protocol error codes.
#[derive(Clone, Copy, Debug, PartialEq, Eq, Structural)]
pub enum ErrorNumber {
    NotDefined,
    FileNotFound,
    AccessViolation,
    DiskFull,
    IllegalOperation,
    UnknownTransferID,
    FileAlreadyExists,
    NoSuchUser,
}

/// The wire number of each error code.
pub open spec fn spec_error_num(e: ErrorNumber) -> u16 {
    match e {
        ErrorNumber::NotDefined => 0,
        ErrorNumber::FileNotFound => 1,
        ErrorNumber::AccessViolation => 2,
        ErrorNumber::DiskFull => 3,
        ErrorNumber::IllegalOperation => 4,
        ErrorNumber::UnknownTransferID => 5,
        ErrorNumber::FileAlreadyExists => 6,
        ErrorNumber::NoSuchUser => 7,
    }
}

/// Which error code a wire number decodes to, if any.
pub open spec fn spec_error_from_u16(raw: u16) -> Option<ErrorNumber> {
    if raw == 0 {
        Some(ErrorNumber::NotDefined)
    } else if raw == 1 {
        Some(ErrorNumber::FileNotFound)
    } else if raw == 2 {
        Some(ErrorNumber::AccessViolation)
    } else if raw == 3 {
        Some(ErrorNumber::DiskFull)
    } else if raw == 4 {
        Some(ErrorNumber::IllegalOperation)
    } else if raw == 5 {
        Some(ErrorNumber::UnknownTransferID)
    } else if raw == 6 {
        Some(ErrorNumber::FileAlreadyExists)
    } else if raw == 7 {
        Some(ErrorNumber::NoSuchUser)
    } else {
        None
    }
}

impl ErrorNumber {
    /// The error code's wire number.
    pub fn num(self) -> (r: u16)
        ensures
            r == spec_error_num(self),
    {
        match self {
            ErrorNumber::NotDefined => 0,
            ErrorNumber::FileNotFound => 1,
            ErrorNumber::AccessViolation => 2,
            ErrorNumber::DiskFull => 3,
            ErrorNumber::IllegalOperation => 4,
            ErrorNumber::UnknownTransferID => 5,
            ErrorNumber::FileAlreadyExists => 6,
            ErrorNumber::NoSuchUser => 7,
        }
    }

    /// Decode a wire number to an error code.
    pub fn from_u16(raw: u16) -> (r: Option<ErrorNumber>)
        ensures
            r == spec_error_from_u16(raw),
    {
        if raw == 0 {
            Some(ErrorNumber::NotDefined)
        } else if raw == 1 {
            Some(ErrorNumber::FileNotFound)
        } else if raw == 2 {
            Some(ErrorNumber::AccessViolation)
        } else if raw == 3 {
            Some(ErrorNumber::DiskFull)
        } else if raw == 4 {
            Some(ErrorNumber::IllegalOperation)
        } else if raw == 5 {
            Some(ErrorNumber::UnknownTransferID)
        } else if raw == 6 {
            Some(ErrorNumber::FileAlreadyExists)
        } else if raw == 7 {
            Some(ErrorNumber::NoSuchUser)
        } else {
            None
        }
    }
}

/// A protocol error as sent to or received from the peer: a code, and an
/// optional free-form message that overrides the code's standard text.
#[derive(Debug)]
pub struct ErrorResponse {
    pub number: ErrorNumber,
    pub msg: Option<Vec<u8>>,
}

impl ErrorResponse {
    /// A catch-all error that carries a custom message.
    pub fn new_custom(msg: Vec<u8>) -> (r: ErrorResponse)
        ensures
            r.number == ErrorNumber::NotDefined,
            r.msg matches Some(m) && m@ == msg@,
    {
        ErrorResponse { number: ErrorNumber::NotDefined, msg: Some(msg) }
    }
}

impl From<ErrorNumber> for ErrorResponse {
    /// An error that carries only its code.
    fn from(number: ErrorNumber) -> (r: Self) {
        ErrorResponse { number, msg: None }
    }
}

impl vstd::std_specs::convert::FromSpecImpl<ErrorNumber> for ErrorResponse {
    open spec fn obeys_from_spec() -> bool {
        true
    }

    open spec fn from_spec(number: ErrorNumber) -> Self {
        ErrorResponse { number, msg: None }
    }
}

/// The three transfer modes of the protocol; `netascii` and `mail` are
/// accepted syntactically and treated as `octet`.
#[derive(Clone, Copy, Debug, PartialEq, Eq, Structural)]
pub enum TransferMode {
    Netascii,
    Octet,
    Mail,
}

/// The mode's token on the wire, lower case.
pub open spec fn spec_mode_bytes(m: TransferMode) -> Seq<u8> {
    match m {
        TransferMode::Netascii => seq![110u8, 101, 116, 97, 115, 99, 105, 105],  // "netascii"
        TransferMode::Octet => seq![111u8, 99, 116, 101, 116],  // "octet"
        TransferMode::Mail => seq![109u8, 97, 105, 108],  // "mail"
    }
}

/// ASCII upper-case letters folded to lower case.
pub open spec fn spec_lower(s: Seq<u8>) -> Seq<u8> {
    Seq::new(
        s.len(),
        |i: int|
            if 65 <= s[i] <= 90 {
                (s[i] + 32) as u8
            } else {
                s[i]
            },
    )
}

/// The mode a token decodes to: the comparison ignores ASCII case.
pub open spec fn spec_mode_from(s: Seq<u8>) -> Option<TransferMode> {
    if spec_lower(s) == spec_mode_bytes(TransferMode::Netascii) {
        Some(TransferMode::Netascii)
    } else if spec_lower(s) == spec_mode_bytes(TransferMode::Octet) {
        Some(TransferMode::Octet)
    } else if spec_lower(s) == spec_mode_bytes(TransferMode::Mail) {
        Some(TransferMode::Mail)
    } else {
        None
    }
}

/// Whether two byte slices hold the same bytes.
pub fn bytes_eq(a: &[u8], b: &[u8]) -> (r: bool)
    ensures
        r == (a@ == b@),
{
    if a.len() != b.len() {
        assert(a@ != b@);
        return false;
    }
    let n = a.len();
    let mut i: usize = 0;
    while i < n
        invariant
            i <= n,
            n == a@.len() == b@.len(),
            forall|j: int| 0 <= j < i ==> a@[j] == b@[j],
        decreases n - i,
    {
        if *slice_index_get(a, i) != *slice_index_get(b, i) {
            assert(a@[i as int] != b@[i as int]);
            return false;
        }
        i = i + 1;
    }
    proof {
        assert(a@ =~= b@);
    }
    true
}

/// A copy of `s` with ASCII upper-case letters folded to lower case.
pub fn to_lower(s: &[u8]) -> (r: Vec<u8>)
    ensures
        r@ == spec_lower(s@),
{
    let n = s.len();
    let mut v: Vec<u8> = Vec::new();
    let mut i: usize = 0;
    while i < n
        invariant
            i <= n,
            n == s@.len(),
            v@ == spec_lower(s@).subrange(0, i as int),
        decreases n - i,
    {
        let b = *slice_index_get(s, i);
        if 65 <= b && b <= 90 {
            v.push(b + 32);
        } else {
            v.push(b);
        }
        i = i + 1;
        assert(v@ =~= spec_lower(s@).subrange(0, i as int));
    }
    assert(spec_lower(s@).subrange(0, n as int) =~= spec_lower(s@));
    v
}

impl TransferMode {
    /// The mode's token as owned bytes.
    pub fn to_bytes(self) -> (r: Vec<u8>)
        ensures
            r@ == spec_mode_bytes(self),
    {
        let mut v: Vec<u8> = Vec::new();
        match self {
            TransferMode::Netascii => {
                v.push(110);
                v.push(101);
                v.push(116);
                v.push(97);
                v.push(115);
                v.push(99);
                v.push(105);
                v.push(105);
            },
            TransferMode::Octet => {
                v.push(111);
                v.push(99);
                v.push(116);
                v.push(101);
                v.push(116);
            },
            TransferMode::Mail => {
                v.push(109);
                v.push(97);
                v.push(105);
                v.push(108);
            },
        }
        assert(v@ =~= spec_mode_bytes(self));
        v
    }

    /// Decode a mode token, ignoring ASCII case.
    pub fn from_bytes(s: &[u8]) -> (r: Option<TransferMode>)
        ensures
            r == spec_mode_from(s@),
    {
        let lowered = to_lower(s);
        let netascii = TransferMode::Netascii.to_bytes();
        let octet = TransferMode::Octet.to_bytes();
        let mail = TransferMode::Mail.to_bytes();
        if bytes_eq(lowered.as_slice(), netascii.as_slice()) {
            Some(TransferMode::Netascii)
        } else if bytes_eq(lowered.as_slice(), octet.as_slice()) {
            Some(TransferMode::Octet)
        } else if bytes_eq(lowered.as_slice(), mail.as_slice()) {
            Some(TransferMode::Mail)
        } else {
            None
        }
    }
}

impl PacketBuilder {
    /// Append a transfer mode's token.
    pub fn transfer_mode(self, mode: TransferMode) -> (r: Self)
        ensures
            r@ == self@ + spec_mode_bytes(mode),
    {
        let v = mode.to_bytes();
        self.str(v.as_slice())
    }
}

/// What an ERROR packet decodes to: the code when known, else `NotDefined`;
/// and the message, the bytes before the first NUL of the message field, or
/// empty when the field is missing or unterminated.
pub open spec fn spec_parse_error_packet(s: Seq<u8>) -> Option<(ErrorNumber, Seq<u8>)> {
    if spec_parse_opcode_raw(s) != Some(Opcode::Error) {
        None
    } else if s.len() < 4 {
        Some((ErrorNumber::NotDefined, Seq::empty()))
    } else {
        let num = match spec_error_from_u16(spec_u16_at(s, 2)) {
            Some(n) => n,
            None => ErrorNumber::NotDefined,
        };
        let m = s.skip(4);
        let msg = match spec_nul_pos(m) {
            Some(i) => m.take(i),
            None => Seq::empty(),
        };
        Some((num, msg))
    }
}

impl<'a> PacketParser<'a> {
    /// Decode an ERROR packet: `None` when the buffer does not start with
    /// the ERROR opcode, otherwise the code and its message.  An unknown or
    /// missing code becomes `NotDefined`; the message stays as received.
    pub fn parse_error(&mut self) -> (r: Option<ErrorResponse>)
        requires
            old(self).wf(),
            old(self).pos == 0,
        ensures
            final(self).buf@ == old(self).buf@,
            final(self).wf(),
            match r {
                Some(er) => spec_parse_error_packet(old(self).buf@) matches Some((n, m))
                    && er.number == n && (er.msg matches Some(v) && v@ == m),
                None => spec_parse_error_packet(old(self).buf@).is_none(),
            },
    {
        let ghost whole = self.buf@;
        assert(self.rest() =~= whole);
        if !self.opcode_expect(Opcode::Error) {
            return None;
        }

        let num = match self.number16() {
            Some(raw) => {
                assert(self.buf@.subrange(2, self.buf@.len() as int)[0] == self.buf@[2]);
                assert(self.buf@.subrange(2, self.buf@.len() as int)[1] == self.buf@[3]);
                match ErrorNumber::from_u16(raw) {
                    Some(n) => n,
                    None => ErrorNumber::NotDefined,
                }
            },
            None => {
                return Some(ErrorResponse::new_custom(Vec::new()));
            },
        };

        let ghost mfield = whole.skip(4);
        assert(self.rest() =~= mfield);
        let msg = match self.string_with_separator() {
            Some(m) => m,
            None => Vec::new(),
        };

        Some(ErrorResponse { number: num, msg: Some(msg) })
    }
}

} // verus!
