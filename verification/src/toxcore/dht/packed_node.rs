//! The compact encoding of a DHT node.

use vstd::prelude::*;
use crate::toxcore::addr::{
    ip_port_bytes, ip_port_parsed, lemma_ip_port_round_trip, read_ip_port, write_ip_port,
    SocketAddr,
};
use crate::toxcore::binary_io::{
    needed, write_slice, EncodeError, FromBytes, Item, Needed, ParseError, ParseResult, Parsed,
    ToBytes,
};
use crate::toxcore::crypto_core::{array_of, lemma_array_of, read_array32, PublicKey};

verus! {

/// The selector byte of a node reached over UDP at an IPv4 address.
pub const UDP_IPV4: u8 = 2;

/// The selector byte of a node reached over UDP at an IPv6 address.
pub const UDP_IPV6: u8 = 10;

/// A DHT node: where it is reached over UDP, and its key.
///
/// Serialized form:
///
/// Length  | Contents
/// ------- | --------
/// `1`     | `2` for an IPv4 address, `10` for an IPv6 address
/// `4\|16` | the address
/// `2`     | the port, high byte first
/// `32`    | the public key
#[derive(Clone, Copy, Debug, PartialEq, Eq)]
pub struct PackedNode {
    /// Socket address of the node.
    pub saddr: SocketAddr,
    /// Public key of the node.
    pub pk: PublicKey,
}

impl View for PackedNode {
    type V = PackedNode;

    open spec fn view(&self) -> PackedNode {
        *self
    }
}

impl PackedNode {
    /// The node with the key `pk` at the address `saddr`.
    pub fn new(saddr: SocketAddr, pk: &PublicKey) -> (node: PackedNode)
        ensures
            node == (PackedNode { saddr, pk: *pk }),
    {
        PackedNode { saddr, pk: *pk }
    }

    /// The number of bytes of the encoding: 39 or 51.
    pub open spec fn spec_len(self) -> int {
        if self.saddr.ip is V4 {
            39
        } else {
            51
        }
    }

    /// A node is read back from its bytes, whatever follows them.
    pub proof fn lemma_round_trip(self, rest: Seq<u8>)
        ensures
            Self::spec_from_bytes(Self::spec_to_bytes(self) + rest) == Ok::<
                (PackedNode, int),
                ParseError,
            >((self, self.spec_len())),
            Self::spec_to_bytes(self).len() == self.spec_len(),
    {
        let head = ip_port_bytes(UDP_IPV4, UDP_IPV6, self.saddr.ip, self.saddr.port);
        let b = Self::spec_to_bytes(self) + rest;
        assert(b =~= head + (self.pk.0@ + rest));
        lemma_ip_port_round_trip(
            UDP_IPV4,
            UDP_IPV6,
            self.saddr.ip,
            self.saddr.port,
            self.pk.0@ + rest,
        );
        let n = head.len() as int;
        assert(b.subrange(n, n + 32) =~= self.pk.0@);
        lemma_array_of::<32>(self.pk.0);
    }
}

impl FromBytes for PackedNode {
    open spec fn spec_from_bytes(input: Seq<u8>) -> Parsed<PackedNode> {
        match ip_port_parsed(UDP_IPV4, UDP_IPV6, input) {
            Err(e) => Err(e),
            Ok(((ip, port), n)) => if input.len() < n + 32 {
                Err(ParseError::Incomplete(needed(n + 32)))
            } else {
                Ok(
                    (
                        PackedNode {
                            saddr: SocketAddr { ip, port },
                            pk: PublicKey(array_of::<32>(input.subrange(n, n + 32))),
                        },
                        n + 32,
                    ),
                )
            },
        }
    }

    fn from_bytes(input: &[u8]) -> (r: ParseResult<PackedNode>) {
        match read_ip_port(UDP_IPV4, UDP_IPV6, input) {
            Err(e) => Err(e),
            Ok((ip, port, n)) => {
                if input.len() - n < 32 {
                    return Err(ParseError::Incomplete(Needed::Size(n + 32)));
                }
                let key = read_array32(input, n);
                proof {
                    lemma_array_of::<32>(key);
                }
                Ok((PackedNode { saddr: SocketAddr { ip, port }, pk: PublicKey(key) }, n + 32))
            },
        }
    }
}

impl ToBytes for PackedNode {
    open spec fn encodable(v: PackedNode) -> bool {
        true
    }

    open spec fn spec_to_bytes(v: PackedNode) -> Seq<u8> {
        ip_port_bytes(UDP_IPV4, UDP_IPV6, v.saddr.ip, v.saddr.port) + v.pk.0@
    }

    fn to_bytes(&self, buf: &mut Vec<u8>) -> (r: Result<(), EncodeError>) {
        write_ip_port(UDP_IPV4, UDP_IPV6, &self.saddr.ip, self.saddr.port, buf);
        write_slice(buf, self.pk.0.as_slice());
        assert(buf@ =~= old(buf)@ + Self::spec_to_bytes(*self));
        Ok(())
    }
}

impl Item for PackedNode {
    open spec fn spec_item(input: Seq<u8>) -> Parsed<PackedNode> {
        Self::spec_from_bytes(input)
    }

    fn read_item(input: &[u8]) -> (r: ParseResult<PackedNode>) {
        Self::from_bytes(input)
    }

    proof fn lemma_item_round_trip(v: PackedNode, rest: Seq<u8>) {
        v.lemma_round_trip(rest);
    }
}

} // verus!
