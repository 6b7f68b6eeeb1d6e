//! The section of the DHT nodes.

use vstd::prelude::*;
use crate::toxcore::binary_io::{
    all_encodable, concat, le_u16, le_u16_bytes, le_u32, le_u32_bytes, lemma_many0_round_trip,
    lemma_le_at, many0, needed, read_le_u16, read_le_u32,
    read_many0, shifted, shift_error, views, write_items, write_le_u16, write_le_u32, write_slice,
    EncodeError, ErrorKind, FromBytes, Needed, ParseError, ParseResult, Parsed, ToBytes,
};
use crate::toxcore::dht::packed_node::PackedNode;
use crate::toxcore::state_format::sections::{
    check_section_head, lemma_section_head, section_head, section_head_error, write_section_head,
};

verus! {

/// The number that opens the payload of the DHT section.
pub const DHT_MAGICAL: u32 = 0x0159_000d;

/// The type of the one kind of DHT subsection: a list of nodes.
pub const DHT_SECTION_TYPE: u16 = 0x0004;

/// The number that follows the type of a DHT subsection.
pub const DHT_2ND_MAGICAL: u16 = 0x11ce;

/// The section of the DHT nodes. Default is empty, no nodes.
///
/// Payload: [`DHT_MAGICAL`] in four bytes, the number of bytes that the
/// nodes take in four bytes, [`DHT_SECTION_TYPE`] in two bytes,
/// [`DHT_2ND_MAGICAL`] in two bytes, all low byte first, and the nodes, one
/// after another.
#[derive(Clone, Debug, Default, Eq, PartialEq)]
pub struct DhtState(pub Vec<PackedNode>);

impl View for DhtState {
    type V = Seq<PackedNode>;

    open spec fn view(&self) -> Seq<PackedNode> {
        views(self.0@)
    }
}

impl DhtState {
    /// The bytes before the nodes, for nodes that take `n` bytes.
    pub open spec fn spec_prefix(n: u32) -> Seq<u8> {
        section_head(0x02) + le_u32_bytes(DHT_MAGICAL) + le_u32_bytes(n) + le_u16_bytes(
            DHT_SECTION_TYPE,
        ) + le_u16_bytes(DHT_2ND_MAGICAL)
    }

    /// The numbers before the nodes are read from where they stand.
    proof fn lemma_prefix(n: u32, tail: Seq<u8>)
        ensures
            ({
                let b = Self::spec_prefix(n) + tail;
                &&& Self::spec_prefix(n).len() == 16
                &&& section_head_error(b, 0x02) is None
                &&& le_u32(b.skip(4)) == DHT_MAGICAL
                &&& le_u32(b.skip(8)) == n
                &&& le_u16(b.skip(12)) == DHT_SECTION_TYPE
                &&& le_u16(b.skip(14)) == DHT_2ND_MAGICAL
                &&& b.skip(16) == tail
            }),
    {
        let b = Self::spec_prefix(n) + tail;
        let head = section_head(0x02);
        let f1 = le_u32_bytes(DHT_MAGICAL);
        let f2 = le_u32_bytes(n);
        let f3 = le_u16_bytes(DHT_SECTION_TYPE);
        let f4 = le_u16_bytes(DHT_2ND_MAGICAL);
        assert(section_head_error(b, 0x02) is None) by {
            assert(b =~= head + (f1 + f2 + f3 + f4 + tail));
            lemma_section_head(0x02, f1 + f2 + f3 + f4 + tail);
        }
        assert(le_u32(b.skip(4)) == DHT_MAGICAL) by {
            assert(b.subrange(4, 8) =~= f1);
            lemma_le_at(b, 4, 0, DHT_MAGICAL, 0);
        }
        assert(le_u32(b.skip(8)) == n) by {
            assert(b.subrange(8, 12) =~= f2);
            lemma_le_at(b, 8, 0, n, 0);
        }
        assert(le_u16(b.skip(12)) == DHT_SECTION_TYPE) by {
            assert(b.subrange(12, 14) =~= f3);
            lemma_le_at(b, 12, DHT_SECTION_TYPE, 0, 0);
        }
        assert(le_u16(b.skip(14)) == DHT_2ND_MAGICAL) by {
            assert(b.subrange(14, 16) =~= f4);
            lemma_le_at(b, 14, DHT_2ND_MAGICAL, 0, 0);
        }
        assert(b.skip(16) =~= tail);
    }

    /// The section is read back from its bytes, whatever follows them.
    pub proof fn lemma_round_trip(v: Seq<PackedNode>, rest: Seq<u8>)
        requires
            Self::encodable(v),
        ensures
            Self::spec_from_bytes(Self::spec_to_bytes(v) + rest) == Ok::<
                (Seq<PackedNode>, int),
                ParseError,
            >((v, Self::spec_to_bytes(v).len() as int)),
            Self::spec_to_bytes(v).len() == 16 + concat::<PackedNode>(v).len(),
    {
        let nodes = concat::<PackedNode>(v);
        let n = nodes.len() as u32;
        let b = Self::spec_to_bytes(v) + rest;
        Self::lemma_prefix(n, nodes + rest);
        assert(b =~= Self::spec_prefix(n) + (nodes + rest));
        assert(b.subrange(16, 16 + n) =~= b.skip(16).take(n as int));
        assert((nodes + rest).take(n as int) =~= nodes);
        assert(all_encodable::<PackedNode>(v));
        lemma_many0_round_trip::<PackedNode>(v);
    }
}

impl FromBytes for DhtState {
    open spec fn spec_from_bytes(input: Seq<u8>) -> Parsed<Seq<PackedNode>> {
        match section_head_error(input, 0x02) {
            Some(e) => Err(e),
            None => if input.len() < 8 {
                Err(ParseError::Incomplete(needed(8)))
            } else if le_u32(input.skip(4)) != DHT_MAGICAL {
                Err(ParseError::Error(ErrorKind::Verify))
            } else if input.len() < 12 {
                Err(ParseError::Incomplete(needed(12)))
            } else if input.len() < 14 {
                Err(ParseError::Incomplete(needed(14)))
            } else if le_u16(input.skip(12)) != DHT_SECTION_TYPE {
                Err(ParseError::Error(ErrorKind::Verify))
            } else if input.len() < 16 {
                Err(ParseError::Incomplete(needed(16)))
            } else if le_u16(input.skip(14)) != DHT_2ND_MAGICAL {
                Err(ParseError::Error(ErrorKind::Verify))
            } else {
                let n = le_u32(input.skip(8));
                if input.len() < 16 + n {
                    Err(ParseError::Incomplete(needed(16 + n)))
                } else {
                    match many0::<PackedNode>(input.subrange(16, 16 + n)) {
                        Ok((nodes, _)) => Ok((nodes, 16 + n)),
                        Err(e) => Err(shifted(e, 16)),
                    }
                }
            },
        }
    }

    fn from_bytes(input: &[u8]) -> (r: ParseResult<DhtState>) {
        if let Some(e) = check_section_head(input, 0x02) {
            return Err(e);
        }
        let len = input.len();
        if len < 8 {
            return Err(ParseError::Incomplete(Needed::Size(8)));
        }
        if read_le_u32(input, 4) != DHT_MAGICAL {
            return Err(ParseError::Error(ErrorKind::Verify));
        }
        if len < 12 {
            return Err(ParseError::Incomplete(Needed::Size(12)));
        }
        let n = read_le_u32(input, 8) as usize;
        if len < 14 {
            return Err(ParseError::Incomplete(Needed::Size(14)));
        }
        if read_le_u16(input, 12) != DHT_SECTION_TYPE {
            return Err(ParseError::Error(ErrorKind::Verify));
        }
        if len < 16 {
            return Err(ParseError::Incomplete(Needed::Size(16)));
        }
        if read_le_u16(input, 14) != DHT_2ND_MAGICAL {
            return Err(ParseError::Error(ErrorKind::Verify));
        }
        if len - 16 < n {
            return Err(
                ParseError::Incomplete(
                    match n.checked_add(16) {
                        Some(total) => Needed::Size(total),
                        None => Needed::Unknown,
                    },
                ),
            );
        }
        let region = vstd::slice::slice_subrange(input, 16, 16 + n);
        match read_many0::<PackedNode>(region) {
            Ok((nodes, _)) => Ok((DhtState(nodes), 16 + n)),
            Err(e) => Err(shift_error(e, 16)),
        }
    }
}

impl ToBytes for DhtState {
    open spec fn encodable(v: Seq<PackedNode>) -> bool {
        concat::<PackedNode>(v).len() <= u32::MAX
    }

    open spec fn spec_to_bytes(v: Seq<PackedNode>) -> Seq<u8> {
        Self::spec_prefix(concat::<PackedNode>(v).len() as u32) + concat::<PackedNode>(v)
    }

    fn to_bytes(&self, buf: &mut Vec<u8>) -> (r: Result<(), EncodeError>) {
        let mut nodes: Vec<u8> = Vec::new();
        let written = write_items::<PackedNode>(&self.0, &mut nodes);
        assert(all_encodable::<PackedNode>(views(self.0@)));
        assert(nodes@ =~= concat::<PackedNode>(self@));
        if nodes.len() > u32::MAX as usize {
            return Err(EncodeError::TooLong);
        }
        write_section_head(buf, 0x02);
        write_le_u32(buf, DHT_MAGICAL);
        write_le_u32(buf, nodes.len() as u32);
        write_le_u16(buf, DHT_SECTION_TYPE);
        write_le_u16(buf, DHT_2ND_MAGICAL);
        write_slice(buf, nodes.as_slice());
        assert(buf@ =~= old(buf)@ + Self::spec_to_bytes(self@));
        Ok(())
    }
}

} // verus!
