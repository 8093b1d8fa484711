//! The SOCKS5 messages that the front-end exchanges with a client.
//!
//! A client opens with a greeting, `[5, n, method * n]`, and is answered
//! with `[5, method]`. It then sends a request,
//! `[5, command, 0, address type, host, port]`, and is answered with a reply,
//! `[5, status, 0, address type, bound host, bound port]`. Only the method
//! "no authentication" and the command `CONNECT` are served.
//!
//! The functions here work on the bytes read so far. `greeting_needed` and
//! `request_needed` tell a reader how many more bytes to fetch; `read_greeting`
//! and `read_request` judge a complete message; `rejection` gives the bytes
//! owed to a client that is turned away.

use vstd::prelude::*;
use crate::address::{Address, AddressError, AddressView, address_len, parse_address};
use crate::address::{lemma_address_roundtrip, lemma_parsed_address};

verus! {

/// The protocol version byte.
pub const VERSION: u8 = 5;

/// The method "no authentication".
pub const METHOD_NONE: u8 = 0;

/// The method byte that refuses every method offered.
pub const METHOD_UNACCEPTABLE: u8 = 0xFF;

/// The command `CONNECT`.
pub const CMD_CONNECT: u8 = 1;

/// Reply status: the connection was made.
pub const STATUS_SUCCESS: u8 = 0;

/// Reply status: general failure.
pub const STATUS_GENERAL_FAILURE: u8 = 1;

/// Reply status: the target refused the connection.
pub const STATUS_CONNECTION_REFUSED: u8 = 5;

/// Reply status: the command is not served.
pub const STATUS_COMMAND_NOT_SUPPORTED: u8 = 7;

/// Why a client is turned away during the handshake.
#[derive(Clone, Copy, Debug, PartialEq, Eq, Structural)]
pub enum Socks5Error {
    /// The message ends before it is complete.
    Truncated,
    /// The version byte is not 5.
    UnsupportedVersion,
    /// The greeting does not offer "no authentication".
    UnsupportedAuth,
    /// The address type is none of IPv4, domain name and IPv6.
    UnsupportedAddressType,
    /// The domain name is not UTF-8.
    InvalidDomain,
    /// The command is not `CONNECT`.
    CommandNotSupported,
}

/// Why a session could not be opened to its target.
#[derive(Clone, Copy, Debug, PartialEq, Eq, Structural)]
pub enum OpenFailure {
    /// The target could not be reached or refused the connection.
    ConnectFailed,
    /// Anything else went wrong while dialing.
    Other,
}

impl OpenFailure {
    /// The reply status that tells a client of this failure.
    pub open spec fn status(self) -> u8 {
        match self {
            OpenFailure::ConnectFailed => STATUS_CONNECTION_REFUSED,
            OpenFailure::Other => STATUS_GENERAL_FAILURE,
        }
    }

    /// The failure that a status byte tells of: a refused connection for
    /// status 5, a general failure for every other byte.
    pub open spec fn of_status(status: u8) -> OpenFailure {
        if status == STATUS_CONNECTION_REFUSED {
            OpenFailure::ConnectFailed
        } else {
            OpenFailure::Other
        }
    }

    /// The reply status that tells a client of this failure.
    pub fn to_status(self) -> (s: u8)
        ensures
            s == self.status(),
    {
        match self {
            OpenFailure::ConnectFailed => STATUS_CONNECTION_REFUSED,
            OpenFailure::Other => STATUS_GENERAL_FAILURE,
        }
    }

    /// The failure that a status byte tells of.
    pub fn from_status(status: u8) -> (f: OpenFailure)
        ensures
            f == Self::of_status(status),
    {
        if status == STATUS_CONNECTION_REFUSED {
            OpenFailure::ConnectFailed
        } else {
            OpenFailure::Other
        }
    }
}

/// A failure is found again from its status.
pub proof fn lemma_failure_status_roundtrip(f: OpenFailure)
    ensures
        OpenFailure::of_status(f.status()) == f,
{
}

/// How many more bytes a reader must fetch before the greeting in `bytes`
/// can be judged; zero when it is complete.
pub open spec fn greeting_needed_spec(bytes: Seq<u8>) -> Result<nat, Socks5Error> {
    if bytes.len() < 2 {
        Ok((2 - bytes.len()) as nat)
    } else if bytes[0] != VERSION {
        Err(Socks5Error::UnsupportedVersion)
    } else if bytes.len() < 2 + bytes[1] {
        Ok((2 + bytes[1] - bytes.len()) as nat)
    } else {
        Ok(0nat)
    }
}

/// The length of the greeting at the start of `bytes`, if it is one that
/// offers "no authentication"; else why the client is turned away.
pub open spec fn parse_greeting(bytes: Seq<u8>) -> Result<nat, Socks5Error> {
    if bytes.len() < 2 {
        Err(Socks5Error::Truncated)
    } else if bytes[0] != VERSION {
        Err(Socks5Error::UnsupportedVersion)
    } else if bytes.len() < 2 + bytes[1] {
        Err(Socks5Error::Truncated)
    } else if !bytes.subrange(2, 2 + bytes[1]).contains(METHOD_NONE) {
        Err(Socks5Error::UnsupportedAuth)
    } else {
        Ok((2 + bytes[1]) as nat)
    }
}

/// How many more bytes a reader must fetch before the request in `bytes`
/// can be judged, as far as the bytes read so far tell; zero when it is
/// complete.
pub open spec fn request_needed_spec(bytes: Seq<u8>) -> Result<nat, Socks5Error> {
    if bytes.len() < 4 {
        Ok((4 - bytes.len()) as nat)
    } else if bytes[0] != VERSION {
        Err(Socks5Error::UnsupportedVersion)
    } else {
        match address_len(bytes.subrange(3, bytes.len() as int)) {
            Err(_) => Err(Socks5Error::UnsupportedAddressType),
            Ok(None) => Ok(1nat),
            Ok(Some(n)) => if bytes.len() < 3 + n {
                Ok((3 + n - bytes.len()) as nat)
            } else {
                Ok(0nat)
            },
        }
    }
}

/// The target that the request at the start of `bytes` names and the length
/// of the request, or why the client is turned away. The address is judged
/// before the command.
pub open spec fn parse_request(bytes: Seq<u8>) -> Result<(AddressView, nat), Socks5Error> {
    if bytes.len() < 4 {
        Err(Socks5Error::Truncated)
    } else if bytes[0] != VERSION {
        Err(Socks5Error::UnsupportedVersion)
    } else {
        match parse_address(bytes.subrange(3, bytes.len() as int)) {
            Err(AddressError::Truncated) => Err(Socks5Error::Truncated),
            Err(AddressError::UnsupportedType) => Err(Socks5Error::UnsupportedAddressType),
            Err(AddressError::InvalidDomain) => Err(Socks5Error::InvalidDomain),
            Ok((target, n)) => if bytes[1] != CMD_CONNECT {
                Err(Socks5Error::CommandNotSupported)
            } else {
                Ok((target, 3 + n))
            },
        }
    }
}

/// The answer to a greeting that was accepted.
pub open spec fn method_reply() -> Seq<u8> {
    seq![VERSION, METHOD_NONE]
}

/// A reply with the given status and bound address.
pub open spec fn reply_bytes(status: u8, bound: AddressView) -> Seq<u8> {
    seq![VERSION, status, 0u8] + bound.encoding()
}

/// What is written to a client that is turned away, before the connection
/// is closed: the refusal of its methods, a reply that the command is not
/// served, or nothing.
pub open spec fn rejection_bytes(e: Socks5Error) -> Seq<u8> {
    match e {
        Socks5Error::UnsupportedAuth => seq![VERSION, METHOD_UNACCEPTABLE],
        Socks5Error::CommandNotSupported => reply_bytes(
            STATUS_COMMAND_NOT_SUPPORTED,
            AddressView::unspecified(),
        ),
        _ => Seq::<u8>::empty(),
    }
}

/// The status and bound address of the reply at the start of `bytes`, and
/// its length; `None` where `bytes` does not start with a reply.
pub open spec fn parse_reply(bytes: Seq<u8>) -> Option<(u8, AddressView, nat)> {
    if bytes.len() < 4 || bytes[0] != VERSION || bytes[2] != 0 {
        None
    } else {
        match parse_address(bytes.subrange(3, bytes.len() as int)) {
            Err(_) => None,
            Ok((bound, n)) => Some((bytes[1], bound, 3 + n)),
        }
    }
}

/// Tells a reader how many more bytes of greeting to fetch.
pub fn greeting_needed(bytes: &[u8]) -> (r: Result<usize, Socks5Error>)
    ensures
        match r {
            Ok(n) => greeting_needed_spec(bytes@) == Ok::<nat, Socks5Error>(n as nat),
            Err(e) => greeting_needed_spec(bytes@) == Err::<nat, Socks5Error>(e),
        },
{
    let len: usize = bytes.len();
    if len < 2 {
        Ok(2 - len)
    } else if bytes[0] != VERSION {
        Err(Socks5Error::UnsupportedVersion)
    } else {
        let total: usize = 2 + bytes[1] as usize;
        if len < total {
            Ok(total - len)
        } else {
            Ok(0)
        }
    }
}

/// Judges a greeting: `Ok` with its length where it offers
/// "no authentication", which `method_reply_bytes` answers.
pub fn read_greeting(bytes: &[u8]) -> (r: Result<usize, Socks5Error>)
    ensures
        match r {
            Ok(n) => parse_greeting(bytes@) == Ok::<nat, Socks5Error>(n as nat),
            Err(e) => parse_greeting(bytes@) == Err::<nat, Socks5Error>(e),
        },
{
    let len: usize = bytes.len();
    if len < 2 {
        return Err(Socks5Error::Truncated);
    }
    if bytes[0] != VERSION {
        return Err(Socks5Error::UnsupportedVersion);
    }
    let total: usize = 2 + bytes[1] as usize;
    if len < total {
        return Err(Socks5Error::Truncated);
    }
    let ghost methods = bytes@.subrange(2, total as int);
    let mut i: usize = 2;
    while i < total
        invariant
            2 <= i <= total <= bytes@.len(),
            bytes@[0] == VERSION,
            total == 2 + bytes@[1],
            methods == bytes@.subrange(2, total as int),
            forall|j: int| 0 <= j < i - 2 ==> methods[j] != METHOD_NONE,
        decreases total - i,
    {
        if bytes[i] == METHOD_NONE {
            assert(methods[i - 2] == METHOD_NONE);
            return Ok(total);
        }
        i += 1;
    }
    Err(Socks5Error::UnsupportedAuth)
}

/// Tells a reader how many more bytes of request to fetch.
pub fn request_needed(bytes: &[u8]) -> (r: Result<usize, Socks5Error>)
    ensures
        match r {
            Ok(n) => request_needed_spec(bytes@) == Ok::<nat, Socks5Error>(n as nat),
            Err(e) => request_needed_spec(bytes@) == Err::<nat, Socks5Error>(e),
        },
{
    let len: usize = bytes.len();
    if len < 4 {
        return Ok(4 - len);
    }
    if bytes[0] != VERSION {
        return Err(Socks5Error::UnsupportedVersion);
    }
    let atyp: u8 = bytes[3];
    let total: usize = if atyp == crate::address::ATYP_V4 {
        10
    } else if atyp == crate::address::ATYP_V6 {
        22
    } else if atyp == crate::address::ATYP_DOMAIN {
        if len < 5 {
            return Ok(1);
        }
        7 + bytes[4] as usize
    } else {
        return Err(Socks5Error::UnsupportedAddressType);
    };
    if len < total {
        Ok(total - len)
    } else {
        Ok(0)
    }
}

/// Judges a request: `Ok` with the target and the length of the request
/// where it is a `CONNECT` to a well-formed address.
pub fn read_request(bytes: &[u8]) -> (r: Result<(Address, usize), Socks5Error>)
    ensures
        match r {
            Ok((target, n)) => parse_request(bytes@) == Ok::<(AddressView, nat), Socks5Error>(
                (target@, n as nat),
            ) && target@.wf(),
            Err(e) => parse_request(bytes@) == Err::<(AddressView, nat), Socks5Error>(e),
        },
{
    let len: usize = bytes.len();
    if len < 4 {
        return Err(Socks5Error::Truncated);
    }
    if bytes[0] != VERSION {
        return Err(Socks5Error::UnsupportedVersion);
    }
    let tail = crate::wire::copy_range(bytes, 3, len);
    match Address::decode(tail.as_slice()) {
        Err(AddressError::Truncated) => Err(Socks5Error::Truncated),
        Err(AddressError::UnsupportedType) => Err(Socks5Error::UnsupportedAddressType),
        Err(AddressError::InvalidDomain) => Err(Socks5Error::InvalidDomain),
        Ok((target, n)) => {
            if bytes[1] != CMD_CONNECT {
                Err(Socks5Error::CommandNotSupported)
            } else {
                proof {
                    lemma_parsed_address(tail@);
                }
                Ok((target, 3 + n))
            }
        },
    }
}

/// The answer to a greeting that was accepted: `[5, 0]`.
pub fn method_reply_bytes() -> (out: Vec<u8>)
    ensures
        out@ == method_reply(),
{
    let mut out: Vec<u8> = Vec::new();
    out.push(VERSION);
    out.push(METHOD_NONE);
    out
}

/// A reply with the given status and bound address.
pub fn encode_reply(status: u8, bound: &Address) -> (out: Vec<u8>)
    requires
        bound@.wf(),
    ensures
        out@ == reply_bytes(status, bound@),
{
    let mut out: Vec<u8> = Vec::new();
    out.push(VERSION);
    out.push(status);
    out.push(0u8);
    bound.write_to(&mut out);
    out
}

/// The reply that tells a client that its target was reached through
/// `bound`.
pub fn success_reply(bound: &Address) -> (out: Vec<u8>)
    requires
        bound@.wf(),
    ensures
        out@ == reply_bytes(STATUS_SUCCESS, bound@),
{
    encode_reply(STATUS_SUCCESS, bound)
}

/// The reply that tells a client that its target was not reached: the
/// status of the failure and the address `0.0.0.0:0`.
pub fn failure_reply(reason: OpenFailure) -> (out: Vec<u8>)
    ensures
        out@ == reply_bytes(reason.status(), AddressView::unspecified()),
{
    let none = Address::unspecified();
    encode_reply(reason.to_status(), &none)
}

/// What to write to a client that is turned away with `e`, before closing
/// the connection; empty where nothing is owed.
pub fn rejection(e: Socks5Error) -> (out: Vec<u8>)
    ensures
        out@ == rejection_bytes(e),
{
    match e {
        Socks5Error::UnsupportedAuth => {
            let mut out: Vec<u8> = Vec::new();
            out.push(VERSION);
            out.push(METHOD_UNACCEPTABLE);
            out
        },
        Socks5Error::CommandNotSupported => {
            let none = Address::unspecified();
            encode_reply(STATUS_COMMAND_NOT_SUPPORTED, &none)
        },
        _ => Vec::new(),
    }
}

/// Reads a reply: its status, its bound address and its length.
pub fn decode_reply(bytes: &[u8]) -> (r: Option<(u8, Address, usize)>)
    ensures
        match r {
            Some((status, bound, n)) => parse_reply(bytes@) == Some((status, bound@, n as nat))
                && bound@.wf(),
            None => parse_reply(bytes@) is None,
        },
{
    let len: usize = bytes.len();
    if len < 4 || bytes[0] != VERSION || bytes[2] != 0 {
        return None;
    }
    let tail = crate::wire::copy_range(bytes, 3, len);
    match Address::decode(tail.as_slice()) {
        Err(_) => None,
        Ok((bound, n)) => {
            proof {
                lemma_parsed_address(tail@);
            }
            Some((bytes[1], bound, 3 + n))
        },
    }
}

/// Every reply that is written for a well-formed bound address reads back
/// as a reply with that status and that address: what the client receives
/// is syntactically valid.
pub proof fn lemma_reply_is_valid(status: u8, bound: AddressView)
    requires
        bound.wf(),
    ensures
        parse_reply(reply_bytes(status, bound)) == Some(
            (status, bound, reply_bytes(status, bound).len()),
        ),
{
    let bytes = reply_bytes(status, bound);
    lemma_address_roundtrip(bound, Seq::<u8>::empty());
    assert(bytes.subrange(3, bytes.len() as int) =~= bound.encoding() + Seq::<u8>::empty());
}

/// A request for `CONNECT` to a well-formed target reads back as that
/// target, whatever follows it.
pub proof fn lemma_connect_request(target: AddressView, rest: Seq<u8>)
    requires
        target.wf(),
    ensures
        parse_request(seq![VERSION, CMD_CONNECT, 0u8] + target.encoding() + rest) == Ok::<
            (AddressView, nat),
            Socks5Error,
        >((target, 3 + target.encoding().len())),
{
    let bytes = seq![VERSION, CMD_CONNECT, 0u8] + target.encoding() + rest;
    lemma_address_roundtrip(target, rest);
    assert(bytes.subrange(3, bytes.len() as int) =~= target.encoding() + rest);
}

/// Once `request_needed_spec` asks for no more bytes, the request is not
/// judged truncated; and what it refuses, `parse_request` refuses for the
/// same reason.
pub proof fn lemma_request_needed(bytes: Seq<u8>)
    ensures
        request_needed_spec(bytes) == Ok::<nat, Socks5Error>(0nat) ==> parse_request(bytes)
            != Err::<(AddressView, nat), Socks5Error>(Socks5Error::Truncated),
        request_needed_spec(bytes) matches Err(e) ==> parse_request(bytes) == Err::<
            (AddressView, nat),
            Socks5Error,
        >(e),
        request_needed_spec(bytes) matches Ok(n) ==> n > 0 ==> parse_request(bytes) == Err::<
            (AddressView, nat),
            Socks5Error,
        >(Socks5Error::Truncated),
{
}

/// Once `greeting_needed_spec` asks for no more bytes, the greeting is not
/// judged truncated; while it asks for more, the greeting is.
pub proof fn lemma_greeting_needed(bytes: Seq<u8>)
    ensures
        greeting_needed_spec(bytes) == Ok::<nat, Socks5Error>(0nat) ==> parse_greeting(bytes)
            != Err::<nat, Socks5Error>(Socks5Error::Truncated),
        greeting_needed_spec(bytes) matches Err(e) ==> parse_greeting(bytes) == Err::<
            nat,
            Socks5Error,
        >(e),
        greeting_needed_spec(bytes) matches Ok(n) ==> n > 0 ==> parse_greeting(bytes) == Err::<
            nat,
            Socks5Error,
        >(Socks5Error::Truncated),
{
}

} // verus!
