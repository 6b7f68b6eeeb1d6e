//! The sections that list nodes reached over TCP or UDP.

use vstd::prelude::*;
use crate::toxcore::addr::{
    ip_port_bytes, ip_port_parsed, lemma_ip_port_round_trip, read_ip_port, write_ip_port, IpAddr,
};
use crate::toxcore::binary_io::{
    after, all_encodable, concat, lemma_many0_round_trip, many0, needed, read_many0, shift_error,
    views, write_items, write_slice, EncodeError, ErrorKind, FromBytes, Item, Needed, ParseError,
    ParseResult, Parsed, ToBytes,
};
use crate::toxcore::crypto_core::{array_of, lemma_array_of, read_array32, PublicKey};
use crate::toxcore::onion::ProtocolType;
use crate::toxcore::state_format::sections::{
    check_section_head, lemma_section_head, section_head, section_head_error, write_section_head,
};

verus! {

/// An address, a port and a transport as the state format writes them: a
/// selector byte, the address and the port, high byte first.
///
/// Selector | Transport and address
/// -------- | ---------------------
/// `2`      | UDP, IPv4
/// `10`     | UDP, IPv6
/// `130`    | TCP, IPv4
/// `138`    | TCP, IPv6
#[derive(Clone, Copy, Debug, Eq, PartialEq)]
pub struct OldIpPort {
    /// Type of protocol
    pub protocol: ProtocolType,
    /// IP address
    pub ip_addr: IpAddr,
    /// Port number
    pub port: u16,
}

impl View for OldIpPort {
    type V = OldIpPort;

    open spec fn view(&self) -> OldIpPort {
        *self
    }
}

impl OldIpPort {
    /// The selector byte of a transport and an address family.
    pub open spec fn spec_ip_type(protocol: ProtocolType, v4: bool) -> u8 {
        match protocol {
            ProtocolType::UDP => if v4 {
                2
            } else {
                10
            },
            ProtocolType::TCP => if v4 {
                130
            } else {
                138
            },
        }
    }

    /// Get IP Type byte.
    pub fn ip_type(&self) -> (selector: u8)
        ensures
            selector == Self::spec_ip_type(self.protocol, self.ip_addr is V4),
    {
        if self.ip_addr.is_ipv4() {
            match self.protocol {
                ProtocolType::UDP => 2,
                ProtocolType::TCP => 130,
            }
        } else {
            match self.protocol {
                ProtocolType::UDP => 10,
                ProtocolType::TCP => 138,
            }
        }
    }

    /// The number of bytes of the encoding: 7 or 19.
    pub open spec fn spec_len(self) -> int {
        if self.ip_addr is V4 {
            7
        } else {
            19
        }
    }

    /// The value is read back from its bytes, whatever follows them.
    pub proof fn lemma_round_trip(self, rest: Seq<u8>)
        ensures
            Self::spec_from_bytes(Self::spec_to_bytes(self) + rest) == Ok::<
                (OldIpPort, int),
                ParseError,
            >((self, self.spec_len())),
            Self::spec_to_bytes(self).len() == self.spec_len(),
    {
        match self.protocol {
            ProtocolType::UDP => {
                lemma_ip_port_round_trip(2, 10, self.ip_addr, self.port, rest);
            },
            ProtocolType::TCP => {
                lemma_ip_port_round_trip(130, 138, self.ip_addr, self.port, rest);
                let b = Self::spec_to_bytes(self) + rest;
                assert(b[0] == 130 || b[0] == 138);
            },
        }
    }
}

impl FromBytes for OldIpPort {
    open spec fn spec_from_bytes(input: Seq<u8>) -> Parsed<OldIpPort> {
        match ip_port_parsed(2, 10, input) {
            Ok(((ip_addr, port), n)) => Ok(
                (OldIpPort { protocol: ProtocolType::UDP, ip_addr, port }, n),
            ),
            Err(ParseError::Error(_)) => match ip_port_parsed(130, 138, input) {
                Ok(((ip_addr, port), n)) => Ok(
                    (OldIpPort { protocol: ProtocolType::TCP, ip_addr, port }, n),
                ),
                Err(ParseError::Error(_)) => Err(ParseError::Error(ErrorKind::Alt)),
                Err(e) => Err(e),
            },
            Err(e) => Err(e),
        }
    }

    fn from_bytes(input: &[u8]) -> (r: ParseResult<OldIpPort>) {
        match read_ip_port(2, 10, input) {
            Ok((ip_addr, port, n)) => Ok(
                (OldIpPort { protocol: ProtocolType::UDP, ip_addr, port }, n),
            ),
            Err(ParseError::Error(_)) => match read_ip_port(130, 138, input) {
                Ok((ip_addr, port, n)) => Ok(
                    (OldIpPort { protocol: ProtocolType::TCP, ip_addr, port }, n),
                ),
                Err(ParseError::Error(_)) => Err(ParseError::Error(ErrorKind::Alt)),
                Err(e) => Err(e),
            },
            Err(e) => Err(e),
        }
    }
}

impl ToBytes for OldIpPort {
    open spec fn encodable(v: OldIpPort) -> bool {
        true
    }

    open spec fn spec_to_bytes(v: OldIpPort) -> Seq<u8> {
        ip_port_bytes(
            Self::spec_ip_type(v.protocol, true),
            Self::spec_ip_type(v.protocol, false),
            v.ip_addr,
            v.port,
        )
    }

    fn to_bytes(&self, buf: &mut Vec<u8>) -> (r: Result<(), EncodeError>) {
        match self.protocol {
            ProtocolType::UDP => write_ip_port(2, 10, &self.ip_addr, self.port, buf),
            ProtocolType::TCP => write_ip_port(130, 138, &self.ip_addr, self.port, buf),
        }
        Ok(())
    }
}

// ---------------------------------------------------------------------

/// A node reached over TCP or UDP: its address and its key.
///
/// Serialized form: the [`OldIpPort`] and the 32 bytes of the public key.
#[derive(Clone, Copy, Debug, Eq, PartialEq)]
pub struct TcpUdpPackedNode {
    /// Where the node is reached.
    pub ip_port: OldIpPort,
    /// Public key of the node.
    pub pk: PublicKey,
}

impl View for TcpUdpPackedNode {
    type V = TcpUdpPackedNode;

    open spec fn view(&self) -> TcpUdpPackedNode {
        *self
    }
}

impl TcpUdpPackedNode {
    /// The node is read back from its bytes, whatever follows them.
    pub proof fn lemma_round_trip(self, rest: Seq<u8>)
        ensures
            Self::spec_from_bytes(Self::spec_to_bytes(self) + rest) == Ok::<
                (TcpUdpPackedNode, int),
                ParseError,
            >((self, self.ip_port.spec_len() + 32)),
            Self::spec_to_bytes(self).len() == self.ip_port.spec_len() + 32,
    {
        let head = OldIpPort::spec_to_bytes(self.ip_port);
        let b = Self::spec_to_bytes(self) + rest;
        assert(b =~= head + (self.pk.0@ + rest));
        self.ip_port.lemma_round_trip(self.pk.0@ + rest);
        let n = head.len() as int;
        assert(b.subrange(n, n + 32) =~= self.pk.0@);
        lemma_array_of::<32>(self.pk.0);
    }
}

impl FromBytes for TcpUdpPackedNode {
    open spec fn spec_from_bytes(input: Seq<u8>) -> Parsed<TcpUdpPackedNode> {
        match OldIpPort::spec_from_bytes(input) {
            Err(e) => Err(e),
            Ok((ip_port, n)) => if input.len() < n + 32 {
                Err(ParseError::Incomplete(needed(n + 32)))
            } else {
                Ok(
                    (
                        TcpUdpPackedNode {
                            ip_port,
                            pk: PublicKey(array_of::<32>(input.subrange(n, n + 32))),
                        },
                        n + 32,
                    ),
                )
            },
        }
    }

    fn from_bytes(input: &[u8]) -> (r: ParseResult<TcpUdpPackedNode>) {
        match OldIpPort::from_bytes(input) {
            Err(e) => Err(e),
            Ok((ip_port, n)) => {
                assert(n == 7 || n == 19);
                if input.len() - n < 32 {
                    return Err(ParseError::Incomplete(Needed::Size(n + 32)));
                }
                let key = read_array32(input, n);
                proof {
                    lemma_array_of::<32>(key);
                }
                Ok((TcpUdpPackedNode { ip_port, pk: PublicKey(key) }, n + 32))
            },
        }
    }
}

impl ToBytes for TcpUdpPackedNode {
    open spec fn encodable(v: TcpUdpPackedNode) -> bool {
        true
    }

    open spec fn spec_to_bytes(v: TcpUdpPackedNode) -> Seq<u8> {
        OldIpPort::spec_to_bytes(v.ip_port) + v.pk.0@
    }

    fn to_bytes(&self, buf: &mut Vec<u8>) -> (r: Result<(), EncodeError>) {
        let head = self.ip_port.to_bytes(buf);
        write_slice(buf, self.pk.0.as_slice());
        assert(buf@ =~= old(buf)@ + Self::spec_to_bytes(*self));
        Ok(())
    }
}

impl Item for TcpUdpPackedNode {
    open spec fn spec_item(input: Seq<u8>) -> Parsed<TcpUdpPackedNode> {
        Self::spec_from_bytes(input)
    }

    fn read_item(input: &[u8]) -> (r: ParseResult<TcpUdpPackedNode>) {
        Self::from_bytes(input)
    }

    proof fn lemma_item_round_trip(v: TcpUdpPackedNode, rest: Seq<u8>) {
        v.lemma_round_trip(rest);
    }
}

// ---------------------------------------------------------------------

/// The bytes of a section of the type `id` whose payload is the nodes `v`,
/// one after another.
pub open spec fn node_list_bytes(id: u8, v: Seq<TcpUdpPackedNode>) -> Seq<u8> {
    section_head(id) + concat::<TcpUdpPackedNode>(v)
}

/// The nodes of a section of the type `id`, read to the end of the input or
/// up to bytes that are no node.
pub open spec fn node_list_parsed(id: u8, input: Seq<u8>) -> Parsed<Seq<TcpUdpPackedNode>> {
    match section_head_error(input, id) {
        Some(e) => Err(e),
        None => after(4, many0::<TcpUdpPackedNode>(input.skip(4))),
    }
}

/// A list of nodes is read back from its bytes.
pub proof fn lemma_node_list_round_trip(id: u8, v: Seq<TcpUdpPackedNode>)
    ensures
        node_list_parsed(id, node_list_bytes(id, v)) == Ok::<
            (Seq<TcpUdpPackedNode>, int),
            ParseError,
        >((v, node_list_bytes(id, v).len() as int)),
{
    let nodes = concat::<TcpUdpPackedNode>(v);
    lemma_section_head(id, nodes);
    assert(node_list_bytes(id, v).skip(4) =~= nodes);
    assert(all_encodable::<TcpUdpPackedNode>(v));
    lemma_many0_round_trip::<TcpUdpPackedNode>(v);
}

/// Reads the nodes of a section of the type `id`.
pub fn read_node_list(id: u8, input: &[u8]) -> (r: Result<
    (Vec<TcpUdpPackedNode>, usize),
    ParseError,
>)
    ensures
        match r {
            Ok((nodes, n)) => node_list_parsed(id, input@) == Ok::<
                (Seq<TcpUdpPackedNode>, int),
                ParseError,
            >((views(nodes@), n as int)) && n <= input@.len(),
            Err(e) => node_list_parsed(id, input@) == Err::<
                (Seq<TcpUdpPackedNode>, int),
                ParseError,
            >(e),
        },
{
    if let Some(e) = check_section_head(input, id) {
        return Err(e);
    }
    let region = vstd::slice::slice_subrange(input, 4, input.len());
    assert(region@ =~= input@.skip(4));
    match read_many0::<TcpUdpPackedNode>(region) {
        Ok((nodes, n)) => Ok((nodes, n + 4)),
        Err(e) => Err(shift_error(e, 4)),
    }
}

/// Appends the bytes of a section of the type `id` with the nodes `nodes`.
pub fn write_node_list(id: u8, nodes: &Vec<TcpUdpPackedNode>, buf: &mut Vec<u8>)
    ensures
        final(buf)@ == old(buf)@ + node_list_bytes(id, views(nodes@)),
{
    write_section_head(buf, id);
    let written = write_items::<TcpUdpPackedNode>(nodes, buf);
    assert(all_encodable::<TcpUdpPackedNode>(views(nodes@)));
    assert(buf@ =~= old(buf)@ + node_list_bytes(id, views(nodes@)));
}

/// The section of the TCP relays: the payload is their nodes, one after
/// another.
#[derive(Clone, Debug, Default, Eq, PartialEq)]
pub struct TcpRelays(pub Vec<TcpUdpPackedNode>);

impl View for TcpRelays {
    type V = Seq<TcpUdpPackedNode>;

    open spec fn view(&self) -> Seq<TcpUdpPackedNode> {
        views(self.0@)
    }
}

impl TcpRelays {
    /// The section is read back from its bytes.
    pub proof fn lemma_round_trip(v: Seq<TcpUdpPackedNode>)
        ensures
            Self::spec_from_bytes(Self::spec_to_bytes(v)) == Ok::<
                (Seq<TcpUdpPackedNode>, int),
                ParseError,
            >((v, Self::spec_to_bytes(v).len() as int)),
    {
        lemma_node_list_round_trip(0x0a, v);
    }
}

impl FromBytes for TcpRelays {
    open spec fn spec_from_bytes(input: Seq<u8>) -> Parsed<Seq<TcpUdpPackedNode>> {
        node_list_parsed(0x0a, input)
    }

    fn from_bytes(input: &[u8]) -> (r: ParseResult<TcpRelays>) {
        match read_node_list(0x0a, input) {
            Ok((nodes, n)) => Ok((TcpRelays(nodes), n)),
            Err(e) => Err(e),
        }
    }
}

impl ToBytes for TcpRelays {
    open spec fn encodable(v: Seq<TcpUdpPackedNode>) -> bool {
        true
    }

    open spec fn spec_to_bytes(v: Seq<TcpUdpPackedNode>) -> Seq<u8> {
        node_list_bytes(0x0a, v)
    }

    fn to_bytes(&self, buf: &mut Vec<u8>) -> (r: Result<(), EncodeError>) {
        write_node_list(0x0a, &self.0, buf);
        Ok(())
    }
}

/// The section of the nodes that onion paths start at: the payload is the
/// nodes, one after another.
#[derive(Clone, Debug, Default, Eq, PartialEq)]
pub struct PathNodes(pub Vec<TcpUdpPackedNode>);

impl View for PathNodes {
    type V = Seq<TcpUdpPackedNode>;

    open spec fn view(&self) -> Seq<TcpUdpPackedNode> {
        views(self.0@)
    }
}

impl PathNodes {
    /// The section is read back from its bytes.
    pub proof fn lemma_round_trip(v: Seq<TcpUdpPackedNode>)
        ensures
            Self::spec_from_bytes(Self::spec_to_bytes(v)) == Ok::<
                (Seq<TcpUdpPackedNode>, int),
                ParseError,
            >((v, Self::spec_to_bytes(v).len() as int)),
    {
        lemma_node_list_round_trip(0x0b, v);
    }
}

impl FromBytes for PathNodes {
    open spec fn spec_from_bytes(input: Seq<u8>) -> Parsed<Seq<TcpUdpPackedNode>> {
        node_list_parsed(0x0b, input)
    }

    fn from_bytes(input: &[u8]) -> (r: ParseResult<PathNodes>) {
        match read_node_list(0x0b, input) {
            Ok((nodes, n)) => Ok((PathNodes(nodes), n)),
            Err(e) => Err(e),
        }
    }
}

impl ToBytes for PathNodes {
    open spec fn encodable(v: Seq<TcpUdpPackedNode>) -> bool {
        true
    }

    open spec fn spec_to_bytes(v: Seq<TcpUdpPackedNode>) -> Seq<u8> {
        node_list_bytes(0x0b, v)
    }

    fn to_bytes(&self, buf: &mut Vec<u8>) -> (r: Result<(), EncodeError>) {
        write_node_list(0x0b, &self.0, buf);
        Ok(())
    }
}

} // verus!
