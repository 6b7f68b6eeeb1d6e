//! Internet addresses as plain bytes.

use vstd::prelude::*;
use vstd::std_specs::cmp::PartialEqSpecImpl;
use crate::toxcore::binary_io::{
    be_u16, be_u16_bytes, lemma_u16_round_trip, needed, read_be_u16, write_be_u16, write_slice,
    Parsed, ParseError, Needed, ErrorKind,
};
use crate::toxcore::crypto_core::{array_of, lemma_array_of, read_array16, read_array4, same_bytes};

verus! {

/// An IP address: the four bytes of an IPv4 address or the sixteen bytes of
/// an IPv6 address, in network order.
#[derive(Clone, Copy, Debug)]
pub enum IpAddr {
    /// An IPv4 address.
    V4([u8; 4]),
    /// An IPv6 address.
    V6([u8; 16]),
}

impl IpAddr {
    /// Whether this is an IPv4 address.
    pub fn is_ipv4(&self) -> (v4: bool)
        ensures
            v4 == (*self is V4),
    {
        match self {
            IpAddr::V4(_) => true,
            IpAddr::V6(_) => false,
        }
    }

    /// The bytes of the address: four or sixteen.
    pub open spec fn octets(self) -> Seq<u8> {
        match self {
            IpAddr::V4(a) => a@,
            IpAddr::V6(a) => a@,
        }
    }
}

impl PartialEq for IpAddr {
    fn eq(&self, other: &IpAddr) -> (same: bool) {
        match (self, other) {
            (IpAddr::V4(a), IpAddr::V4(b)) => {
                let same = same_bytes(a.as_slice(), b.as_slice());
                proof {
                    if same {
                        assert(*a =~= *b);
                    }
                }
                same
            },
            (IpAddr::V6(a), IpAddr::V6(b)) => {
                let same = same_bytes(a.as_slice(), b.as_slice());
                proof {
                    if same {
                        assert(*a =~= *b);
                    }
                }
                same
            },
            _ => false,
        }
    }
}

impl Eq for IpAddr {}

impl PartialEqSpecImpl for IpAddr {
    open spec fn obeys_eq_spec() -> bool {
        true
    }

    open spec fn eq_spec(&self, other: &IpAddr) -> bool {
        *self == *other
    }
}

/// An IP address with a port.
#[derive(Clone, Copy, Debug)]
pub struct SocketAddr {
    /// The address.
    pub ip: IpAddr,
    /// The port.
    pub port: u16,
}

impl SocketAddr {
    /// The address `ip` with the port `port`.
    pub fn new(ip: IpAddr, port: u16) -> (saddr: SocketAddr)
        ensures
            saddr == (SocketAddr { ip, port }),
    {
        SocketAddr { ip, port }
    }
}

impl PartialEq for SocketAddr {
    fn eq(&self, other: &SocketAddr) -> (same: bool) {
        self.ip == other.ip && self.port == other.port
    }
}

impl Eq for SocketAddr {}

impl PartialEqSpecImpl for SocketAddr {
    open spec fn obeys_eq_spec() -> bool {
        true
    }

    open spec fn eq_spec(&self, other: &SocketAddr) -> bool {
        *self == *other
    }
}

/// The bytes of an address and a port: a selector byte, `v4` before an IPv4
/// address and `v6` before an IPv6 address, the bytes of the address, and the
/// port, high byte first.
pub open spec fn ip_port_bytes(v4: u8, v6: u8, ip: IpAddr, port: u16) -> Seq<u8> {
    seq![if ip is V4 { v4 } else { v6 }] + ip.octets() + be_u16_bytes(port)
}

/// The address and port at the start of `b`, whose selector byte is `v4` or
/// `v6`. Any other selector is a [`ErrorKind::Switch`] error.
pub open spec fn ip_port_parsed(v4: u8, v6: u8, b: Seq<u8>) -> Parsed<(IpAddr, u16)> {
    if b.len() < 1 {
        Err(ParseError::Incomplete(needed(1)))
    } else if b[0] == v4 {
        if b.len() < 5 {
            Err(ParseError::Incomplete(needed(5)))
        } else if b.len() < 7 {
            Err(ParseError::Incomplete(needed(7)))
        } else {
            Ok(((IpAddr::V4(array_of::<4>(b.subrange(1, 5))), be_u16(b.skip(5)) as u16), 7))
        }
    } else if b[0] == v6 {
        if b.len() < 17 {
            Err(ParseError::Incomplete(needed(17)))
        } else if b.len() < 19 {
            Err(ParseError::Incomplete(needed(19)))
        } else {
            Ok(((IpAddr::V6(array_of::<16>(b.subrange(1, 17))), be_u16(b.skip(17)) as u16), 19))
        }
    } else {
        Err(ParseError::Error(ErrorKind::Switch))
    }
}

/// An address and a port are read back from their bytes, whatever follows.
pub proof fn lemma_ip_port_round_trip(v4: u8, v6: u8, ip: IpAddr, port: u16, rest: Seq<u8>)
    requires
        v4 != v6,
    ensures
        ip_port_parsed(v4, v6, ip_port_bytes(v4, v6, ip, port) + rest) == Ok::<
            ((IpAddr, u16), int),
            ParseError,
        >(((ip, port), ip_port_bytes(v4, v6, ip, port).len() as int)),
{
    let b = ip_port_bytes(v4, v6, ip, port) + rest;
    match ip {
        IpAddr::V4(a) => {
            assert(b.subrange(1, 5) =~= a@);
            assert(b.skip(5) =~= be_u16_bytes(port) + rest);
            lemma_array_of::<4>(a);
        },
        IpAddr::V6(a) => {
            assert(b.subrange(1, 17) =~= a@);
            assert(b.skip(17) =~= be_u16_bytes(port) + rest);
            lemma_array_of::<16>(a);
        },
    }
    lemma_u16_round_trip(port, rest);
}

/// Reads an address and a port from the start of `input`.
pub fn read_ip_port(v4: u8, v6: u8, input: &[u8]) -> (r: Result<(IpAddr, u16, usize), ParseError>)
    ensures
        match r {
            Ok((ip, port, n)) => ip_port_parsed(v4, v6, input@) == Ok::<
                ((IpAddr, u16), int),
                ParseError,
            >(((ip, port), n as int)) && n <= input@.len(),
            Err(e) => ip_port_parsed(v4, v6, input@) == Err::<((IpAddr, u16), int), ParseError>(e),
        },
{
    let len = input.len();
    if len < 1 {
        return Err(ParseError::Incomplete(Needed::Size(1)));
    }
    if input[0] == v4 {
        if len < 5 {
            return Err(ParseError::Incomplete(Needed::Size(5)));
        }
        if len < 7 {
            return Err(ParseError::Incomplete(Needed::Size(7)));
        }
        let a = read_array4(input, 1);
        let port = read_be_u16(input, 5);
        proof {
            lemma_array_of::<4>(a);
        }
        Ok((IpAddr::V4(a), port, 7))
    } else if input[0] == v6 {
        if len < 17 {
            return Err(ParseError::Incomplete(Needed::Size(17)));
        }
        if len < 19 {
            return Err(ParseError::Incomplete(Needed::Size(19)));
        }
        let a = read_array16(input, 1);
        let port = read_be_u16(input, 17);
        proof {
            lemma_array_of::<16>(a);
        }
        Ok((IpAddr::V6(a), port, 19))
    } else {
        Err(ParseError::Error(ErrorKind::Switch))
    }
}

/// Appends the bytes of an address and a port.
pub fn write_ip_port(v4: u8, v6: u8, ip: &IpAddr, port: u16, buf: &mut Vec<u8>)
    ensures
        final(buf)@ == old(buf)@ + ip_port_bytes(v4, v6, *ip, port),
{
    match ip {
        IpAddr::V4(a) => {
            buf.push(v4);
            write_slice(buf, a.as_slice());
        },
        IpAddr::V6(a) => {
            buf.push(v6);
            write_slice(buf, a.as_slice());
        },
    }
    write_be_u16(buf, port);
    assert(buf@ =~= old(buf)@ + ip_port_bytes(v4, v6, *ip, port));
}

} // verus!
