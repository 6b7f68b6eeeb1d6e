//! Serialize or deserialize states of tox daemon.
//!
//! When the daemon starts, it reads the nodes of its DHT close list from a
//! saved state, and it may write them to one from time to time.

use vstd::prelude::*;
use crate::toxcore::binary_io::{
    concat, copy_range, views, ErrorKind, FromBytes, Needed, ParseError, ToBytes,
};
use crate::toxcore::dht::packed_node::PackedNode;
use crate::toxcore::state_format::dht_state::DhtState;

verus! {

/// Error that can happen when calling `deserialize_old` of DhtState.
#[derive(Clone, Debug, PartialEq, Eq)]
pub enum DeserializeOldError {
    /// Error indicates that DhtState object can't be parsed.
    DeserializeError {
        /// Parsing error
        error: ErrorKind,
        /// DhtState object serialized data
        data: Vec<u8>,
    },
    /// Error indicates that more data is needed to parse serialized DhtState
    /// object.
    IncompleteData {
        /// Required data size to be parsed
        needed: Needed,
        /// DhtState object serialized data
        data: Vec<u8>,
    },
}

/// Serialize or deserialize states of DHT close lists
#[derive(Clone, Debug)]
pub struct DaemonState;

/// The number of bytes that the nodes of a full close list take with the
/// head of their section: 255 buckets of 8 nodes of at most 32 + 19 bytes.
pub const DHT_STATE_BUFFER_SIZE: usize = (32 + 19) * 8 * 255;

/// A list of nodes takes at most 51 bytes for each node, so that 2039 nodes,
/// which is one less than the close list can hold, fit the buffer.
pub proof fn lemma_nodes_len(nodes: Seq<PackedNode>)
    ensures
        concat::<PackedNode>(nodes).len() <= 51 * nodes.len(),
        nodes.len() <= 2039 ==> 16 + concat::<PackedNode>(nodes).len() <= DHT_STATE_BUFFER_SIZE,
    decreases nodes.len(),
{
    if nodes.len() > 0 {
        lemma_nodes_len(nodes.drop_last());
        nodes.last().lemma_round_trip(Seq::empty());
    }
}

/// The bytes of a list of nodes with one more node are those of the list
/// and those of the node, 39 or 51.
pub proof fn lemma_nodes_len_push(nodes: Seq<PackedNode>, i: int)
    requires
        0 <= i < nodes.len(),
    ensures
        concat::<PackedNode>(nodes.take(i + 1)).len() == concat::<PackedNode>(nodes.take(i)).len()
            + nodes[i].spec_len(),
{
    let upto = nodes.take(i + 1);
    assert(upto.drop_last() =~= nodes.take(i));
    assert(upto.last() == nodes[i]);
    nodes[i].lemma_round_trip(Seq::empty());
}

impl DaemonState {
    /// Whether the nodes fit the buffer of [`DHT_STATE_BUFFER_SIZE`] bytes
    /// with the 16 bytes before them, which is what
    /// [`DaemonState::serialize_old`] asks for.
    pub fn fits_buffer(nodes: &Vec<PackedNode>) -> (ok: bool)
        ensures
            ok == (16 + concat::<PackedNode>(views(nodes@)).len() <= DHT_STATE_BUFFER_SIZE),
    {
        let ghost all = views(nodes@);
        let mut total: u128 = 0;
        let mut i: usize = 0;
        assert(all.take(0) =~= Seq::<PackedNode>::empty());
        while i < nodes.len()
            invariant
                i <= nodes@.len(),
                all == views(nodes@),
                total == concat::<PackedNode>(all.take(i as int)).len(),
                total <= 51 * i,
            decreases nodes@.len() - i,
        {
            proof {
                lemma_nodes_len_push(all, i as int);
            }
            let size: u128 = if nodes[i].saddr.ip.is_ipv4() {
                39
            } else {
                51
            };
            total = total + size;
            i += 1;
        }
        assert(all.take(i as int) =~= all);
        total + 16 <= DHT_STATE_BUFFER_SIZE as u128
    }

    /// Serialize DHT states, old means that the format of seriaization is old
    /// version.
    ///
    /// The nodes of the close list are written as a [`DhtState`] section
    /// without its length. They have to fit the buffer of
    /// [`DHT_STATE_BUFFER_SIZE`] bytes with the 16 bytes before them, which
    /// the nodes of a close list always do.
    pub fn serialize_old(nodes: Vec<PackedNode>) -> (bytes: Vec<u8>)
        requires
            16 + concat::<PackedNode>(views(nodes@)).len() <= DHT_STATE_BUFFER_SIZE,
        ensures
            bytes@ == DhtState::spec_to_bytes(views(nodes@)),
    {
        let state = DhtState(nodes);
        let mut buf: Vec<u8> = Vec::new();
        let written = state.to_bytes(&mut buf);
        assert(buf@ =~= DhtState::spec_to_bytes(views(nodes@)));
        buf
    }

    /// Deserialize DHT close list, old means that the format of
    /// deserialization is old version.
    ///
    /// Gives the nodes of a [`DhtState`] section without its length, to each
    /// of which a `NodesRequest` is to be sent so that the close list fills
    /// again. Where the bytes are no such section, the error holds the
    /// reason and a copy of the bytes.
    pub fn deserialize_old(serialized_data: &[u8]) -> (r: Result<
        Vec<PackedNode>,
        DeserializeOldError,
    >)
        ensures
            match r {
                Ok(nodes) => DhtState::spec_from_bytes(serialized_data@) matches Ok((found, _))
                    && views(nodes@) == found,
                Err(DeserializeOldError::IncompleteData { needed, data }) => {
                    &&& DhtState::spec_from_bytes(serialized_data@) == Err::<
                        (Seq<PackedNode>, int),
                        ParseError,
                    >(ParseError::Incomplete(needed))
                    &&& data@ == serialized_data@
                },
                Err(DeserializeOldError::DeserializeError { error, data }) => {
                    &&& DhtState::spec_from_bytes(serialized_data@) == Err::<
                        (Seq<PackedNode>, int),
                        ParseError,
                    >(ParseError::Error(error))
                    &&& data@ == serialized_data@
                },
            },
    {
        match DhtState::from_bytes(serialized_data) {
            Ok((DhtState(nodes), _)) => Ok(nodes),
            Err(ParseError::Incomplete(needed)) => {
                let data = copy_range(serialized_data, 0, serialized_data.len());
                assert(data@ =~= serialized_data@);
                Err(DeserializeOldError::IncompleteData { needed, data })
            },
            Err(ParseError::Error(error)) => {
                let data = copy_range(serialized_data, 0, serialized_data.len());
                assert(data@ =~= serialized_data@);
                Err(DeserializeOldError::DeserializeError { error, data })
            },
        }
    }
}

} // verus!
