//! Network addresses as the protocol carries them.
//!
//! An address is a host and a port. On the wire it is one byte of address
//! type, the host in the form that the type calls for, and the port in two
//! bytes, most significant first. SOCKS5 requests and replies use this form,
//! and so do the payloads of the tunnel's `Open` and `OpenAck` frames.

use vstd::prelude::*;
use vstd::utf8::valid_utf8;
use crate::wire::{append, be16, copy_range, from_be16, get_be16, put_be16};
use crate::wire::{lemma_be16_bytes, lemma_be16_roundtrip};

verus! {

/// Address type byte of an IPv4 host.
pub const ATYP_V4: u8 = 1;

/// Address type byte of a domain name.
pub const ATYP_DOMAIN: u8 = 3;

/// Address type byte of an IPv6 host.
pub const ATYP_V6: u8 = 4;

/// The longest domain name that the one-byte length can announce.
pub const MAX_DOMAIN_LEN: usize = 255;

/// A host: an IP address or a name.
#[derive(Clone, Debug, PartialEq, Eq)]
pub enum Host {
    /// The four bytes of an IPv4 address.
    V4([u8; 4]),
    /// A domain name in UTF-8, at most 255 bytes long.
    Domain(Vec<u8>),
    /// The sixteen bytes of an IPv6 address.
    V6([u8; 16]),
}

/// A host as a mathematical value.
pub enum HostView {
    V4(Seq<u8>),
    Domain(Seq<u8>),
    V6(Seq<u8>),
}

impl View for Host {
    type V = HostView;

    open spec fn view(&self) -> HostView {
        match self {
            Host::V4(a) => HostView::V4(a@),
            Host::Domain(d) => HostView::Domain(d@),
            Host::V6(a) => HostView::V6(a@),
        }
    }
}

impl HostView {
    /// The host has the shape of its variant: four bytes, sixteen bytes, or
    /// a name in UTF-8 that a one-byte length can announce.
    pub open spec fn wf(self) -> bool {
        match self {
            HostView::V4(a) => a.len() == 4,
            HostView::Domain(d) => d.len() <= MAX_DOMAIN_LEN && valid_utf8(d),
            HostView::V6(a) => a.len() == 16,
        }
    }

    /// The host on the wire: the address type, then the host.
    pub open spec fn encoding(self) -> Seq<u8> {
        match self {
            HostView::V4(a) => seq![ATYP_V4] + a,
            HostView::Domain(d) => seq![ATYP_DOMAIN, d.len() as u8] + d,
            HostView::V6(a) => seq![ATYP_V6] + a,
        }
    }
}

/// A host and a port: the target of a session, or the address that was
/// bound to reach it.
#[derive(Clone, Debug, PartialEq, Eq)]
pub struct Address {
    pub host: Host,
    pub port: u16,
}

/// An address as a mathematical value.
pub struct AddressView {
    pub host: HostView,
    pub port: u16,
}

impl View for Address {
    type V = AddressView;

    open spec fn view(&self) -> AddressView {
        AddressView { host: self.host@, port: self.port }
    }
}

impl AddressView {
    /// The host is well formed.
    pub open spec fn wf(self) -> bool {
        self.host.wf()
    }

    /// The address on the wire: the host, then the port.
    pub open spec fn encoding(self) -> Seq<u8> {
        self.host.encoding() + be16(self.port)
    }

    /// The address `0.0.0.0:0`, which stands for "none" in replies.
    pub open spec fn unspecified() -> AddressView {
        AddressView { host: HostView::V4(seq![0u8, 0u8, 0u8, 0u8]), port: 0 }
    }
}

/// Why a byte string does not start with an address.
#[derive(Clone, Copy, Debug, PartialEq, Eq, Structural)]
pub enum AddressError {
    /// The bytes end before the address does.
    Truncated,
    /// The address type is none of IPv4, domain name and IPv6.
    UnsupportedType,
    /// The domain name is not UTF-8.
    InvalidDomain,
}

/// The number of bytes that the address at the start of `bytes` takes, as far
/// as the bytes read so far tell: `Ok(None)` while the type byte, or the
/// length byte of a domain name, is still missing.
pub open spec fn address_len(bytes: Seq<u8>) -> Result<Option<nat>, AddressError> {
    if bytes.len() < 1 {
        Ok(None)
    } else if bytes[0] == ATYP_V4 {
        Ok(Some(7nat))
    } else if bytes[0] == ATYP_V6 {
        Ok(Some(19nat))
    } else if bytes[0] == ATYP_DOMAIN {
        if bytes.len() < 2 {
            Ok(None)
        } else {
            Ok(Some((4 + bytes[1]) as nat))
        }
    } else {
        Err(AddressError::UnsupportedType)
    }
}

/// The address at the start of `bytes` and the number of bytes it takes, or
/// why there is none.
pub open spec fn parse_address(bytes: Seq<u8>) -> Result<(AddressView, nat), AddressError> {
    match address_len(bytes) {
        Err(e) => Err(e),
        Ok(None) => Err(AddressError::Truncated),
        Ok(Some(n)) => if bytes.len() < n {
            Err(AddressError::Truncated)
        } else {
            let port = from_be16(bytes.subrange(n - 2, n as int));
            if bytes[0] == ATYP_DOMAIN {
                let name = bytes.subrange(2, n - 2);
                if valid_utf8(name) {
                    Ok((AddressView { host: HostView::Domain(name), port }, n))
                } else {
                    Err(AddressError::InvalidDomain)
                }
            } else if bytes[0] == ATYP_V4 {
                Ok((AddressView { host: HostView::V4(bytes.subrange(1, 5)), port }, n))
            } else {
                Ok((AddressView { host: HostView::V6(bytes.subrange(1, 17)), port }, n))
            }
        },
    }
}

/// Whether `bytes` is UTF-8, as `core::str::from_utf8` judges it: that
/// function returns `Ok` exactly for the byte strings that are valid UTF-8.
#[verifier::external_body]
fn is_utf8(bytes: &[u8]) -> (ok: bool)
    ensures
        ok == valid_utf8(bytes@),
{
    core::str::from_utf8(bytes).is_ok()
}

impl Host {
    /// A domain name, if `name` is UTF-8 of at most 255 bytes.
    pub fn domain(name: &[u8]) -> (h: Option<Host>)
        ensures
            h is Some <==> name@.len() <= MAX_DOMAIN_LEN && valid_utf8(name@),
            h is Some ==> h->0@ == HostView::Domain(name@),
    {
        if name.len() <= MAX_DOMAIN_LEN && is_utf8(name) {
            let copy = copy_range(name, 0, name.len());
            assert(copy@ =~= name@);
            Some(Host::Domain(copy))
        } else {
            None
        }
    }

    /// Whether the host has the shape of its variant. A domain name built by
    /// hand may be too long or not UTF-8.
    pub fn is_valid(&self) -> (ok: bool)
        ensures
            ok == self@.wf(),
    {
        match self {
            Host::V4(_) => true,
            Host::Domain(d) => d.len() <= MAX_DOMAIN_LEN && is_utf8(d.as_slice()),
            Host::V6(_) => true,
        }
    }
}

impl Host {
    /// A copy of the host.
    pub fn duplicate(&self) -> (h: Host)
        ensures
            h@ == self@,
    {
        match self {
            Host::V4(a) => Host::V4(*a),
            Host::Domain(d) => {
                let copy = copy_range(d.as_slice(), 0, d.len());
                assert(copy@ =~= d@);
                Host::Domain(copy)
            },
            Host::V6(a) => Host::V6(*a),
        }
    }
}

impl Address {
    /// A copy of the address.
    pub fn duplicate(&self) -> (a: Address)
        ensures
            a@ == self@,
    {
        Address { host: self.host.duplicate(), port: self.port }
    }

    /// The address `0.0.0.0:0`.
    pub fn unspecified() -> (a: Address)
        ensures
            a@ == AddressView::unspecified(),
            a@.wf(),
    {
        let a = Address { host: Host::V4([0u8, 0u8, 0u8, 0u8]), port: 0 };
        a
    }

    /// Whether the address can be written in the wire form.
    pub fn is_valid(&self) -> (ok: bool)
        ensures
            ok == self@.wf(),
    {
        self.host.is_valid()
    }

    /// Appends the wire form of the address to `out`.
    pub fn write_to(&self, out: &mut Vec<u8>)
        requires
            self@.wf(),
        ensures
            final(out)@ == old(out)@ + self@.encoding(),
    {
        match &self.host {
            Host::V4(a) => {
                out.push(ATYP_V4);
                append(out, a.as_slice());
            },
            Host::Domain(d) => {
                out.push(ATYP_DOMAIN);
                out.push(d.len() as u8);
                append(out, d.as_slice());
            },
            Host::V6(a) => {
                out.push(ATYP_V6);
                append(out, a.as_slice());
            },
        }
        put_be16(out, self.port);
    }

    /// The wire form of the address.
    pub fn encode(&self) -> (out: Vec<u8>)
        requires
            self@.wf(),
        ensures
            out@ == self@.encoding(),
    {
        let mut out: Vec<u8> = Vec::new();
        self.write_to(&mut out);
        out
    }

    /// Reads the address at the start of `bytes` and says how many bytes it
    /// took.
    pub fn decode(bytes: &[u8]) -> (r: Result<(Address, usize), AddressError>)
        ensures
            match r {
                Ok((a, used)) => parse_address(bytes@) == Ok::<(AddressView, nat), AddressError>(
                    (a@, used as nat),
                ) && a@.wf(),
                Err(e) => parse_address(bytes@) == Err::<(AddressView, nat), AddressError>(e),
            },
    {
        let len: usize = bytes.len();
        if len < 1 {
            return Err(AddressError::Truncated);
        }
        let atyp: u8 = bytes[0];
        if atyp == ATYP_V4 {
            if len < 7 {
                return Err(AddressError::Truncated);
            }
            let a: [u8; 4] = [bytes[1], bytes[2], bytes[3], bytes[4]];
            let port: u16 = get_be16(bytes, 5);
            assert(a@ =~= bytes@.subrange(1, 5));
            Ok((Address { host: Host::V4(a), port }, 7))
        } else if atyp == ATYP_V6 {
            if len < 19 {
                return Err(AddressError::Truncated);
            }
            let a: [u8; 16] = [
                bytes[1],
                bytes[2],
                bytes[3],
                bytes[4],
                bytes[5],
                bytes[6],
                bytes[7],
                bytes[8],
                bytes[9],
                bytes[10],
                bytes[11],
                bytes[12],
                bytes[13],
                bytes[14],
                bytes[15],
                bytes[16],
            ];
            let port: u16 = get_be16(bytes, 17);
            assert(a@ =~= bytes@.subrange(1, 17));
            Ok((Address { host: Host::V6(a), port }, 19))
        } else if atyp == ATYP_DOMAIN {
            if len < 2 {
                return Err(AddressError::Truncated);
            }
            let n: usize = bytes[1] as usize;
            if len < n + 4 {
                return Err(AddressError::Truncated);
            }
            let name = copy_range(bytes, 2, n + 2);
            let port: u16 = get_be16(bytes, n + 2);
            if is_utf8(name.as_slice()) {
                Ok((Address { host: Host::Domain(name), port }, n + 4))
            } else {
                Err(AddressError::InvalidDomain)
            }
        } else {
            Err(AddressError::UnsupportedType)
        }
    }
}

/// An address that was written is read back, whatever follows it: the same
/// address, and exactly the bytes of its wire form consumed.
pub proof fn lemma_address_roundtrip(a: AddressView, rest: Seq<u8>)
    requires
        a.wf(),
    ensures
        parse_address(a.encoding() + rest) == Ok::<(AddressView, nat), AddressError>(
            (a, a.encoding().len()),
        ),
{
    let bytes = a.encoding() + rest;
    let n = a.encoding().len();
    lemma_be16_roundtrip(a.port);
    match a.host {
        HostView::V4(h) => {
            assert(bytes.subrange(1, 5) =~= h);
        },
        HostView::Domain(d) => {
            assert(bytes.subrange(2, n - 2) =~= d);
        },
        HostView::V6(h) => {
            assert(bytes.subrange(1, 17) =~= h);
        },
    }
}

/// What `parse_address` accepts is well formed, and writing it gives back
/// the bytes that were read.
pub proof fn lemma_parsed_address(bytes: Seq<u8>)
    requires
        parse_address(bytes) is Ok,
    ensures
        parse_address(bytes)->Ok_0.0.wf(),
        parse_address(bytes)->Ok_0.1 <= bytes.len(),
        parse_address(bytes)->Ok_0.0.encoding() == bytes.subrange(
            0,
            parse_address(bytes)->Ok_0.1 as int,
        ),
{
    let n = parse_address(bytes)->Ok_0.1;
    lemma_be16_bytes(bytes.subrange(n - 2, n as int));
}

} // verus!
