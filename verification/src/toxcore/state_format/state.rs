//! Sections of any type, and the state file made of them.

use vstd::prelude::*;
use crate::toxcore::binary_io::{
    after, all_encodable, check_tag, concat, le_u32, le_u32_bytes, lemma_le_at,
    lemma_many0_round_trip, many0, needed, read_le_u32, read_many0, shifted, shift_error,
    tag_error, views, write_items, write_le_u32, write_slice, EncodeError, ErrorKind, FromBytes,
    Item, Needed, ParseError, ParseResult, Parsed, ToBytes,
};
use crate::toxcore::dht::packed_node::PackedNode;
use crate::toxcore::state_format::dht_state::DhtState;
use crate::toxcore::state_format::friends::{FriendStateView, Friends};
use crate::toxcore::state_format::relays::{PathNodes, TcpRelays, TcpUdpPackedNode};
use crate::toxcore::state_format::sections::{
    lemma_section_head, section_head, Eof, Name, NospamKeys, StatusMsg, UserStatus,
};

verus! {

/// What a [`Section`] holds.
pub enum SectionView {
    /// One's own `NoSpam` and keys.
    NospamKeys(NospamKeys),
    /// The DHT nodes.
    DhtState(Seq<PackedNode>),
    /// The friends.
    Friends(Seq<FriendStateView>),
    /// One's own name.
    Name(Seq<u8>),
    /// One's own status message.
    StatusMsg(Seq<u8>),
    /// One's own user status.
    UserStatus(UserStatus),
    /// The TCP relays.
    TcpRelays(Seq<TcpUdpPackedNode>),
    /// The nodes that onion paths start at.
    PathNodes(Seq<TcpUdpPackedNode>),
    /// The end of the file.
    Eof(Eof),
}

/// Sections of state format.
///
/// Type     | Section
/// -------- | -------
/// `0x0001` | [`NospamKeys`]
/// `0x0002` | [`DhtState`]
/// `0x0003` | [`Friends`]
/// `0x0004` | [`Name`]
/// `0x0005` | [`StatusMsg`]
/// `0x0006` | [`UserStatus`]
/// `0x000A` | [`TcpRelays`]
/// `0x000B` | [`PathNodes`]
/// `0x00FF` | [`Eof`]
#[derive(Clone, Debug, Eq, PartialEq)]
pub enum Section {
    /// Section for one's own `NoSpam`, public and secret keys.
    NospamKeys(NospamKeys),
    /// Section for DHT-related data.
    DhtState(DhtState),
    /// Section for friends data.
    Friends(Friends),
    /// Section for one's own name.
    Name(Name),
    /// Section for one's own status message.
    StatusMsg(StatusMsg),
    /// Section for one's own user status.
    UserStatus(UserStatus),
    /// Section for a list of TCP relays.
    TcpRelays(TcpRelays),
    /// Section for a list of path nodes for onion routing.
    PathNodes(PathNodes),
    /// End of file.
    Eof(Eof),
}

impl View for Section {
    type V = SectionView;

    open spec fn view(&self) -> SectionView {
        match self {
            Section::NospamKeys(p) => SectionView::NospamKeys(p@),
            Section::DhtState(p) => SectionView::DhtState(p@),
            Section::Friends(p) => SectionView::Friends(p@),
            Section::Name(p) => SectionView::Name(p@),
            Section::StatusMsg(p) => SectionView::StatusMsg(p@),
            Section::UserStatus(p) => SectionView::UserStatus(p@),
            Section::TcpRelays(p) => SectionView::TcpRelays(p@),
            Section::PathNodes(p) => SectionView::PathNodes(p@),
            Section::Eof(p) => SectionView::Eof(p@),
        }
    }
}

/// The result `p` unless it is an error of the bytes, and `q` then.
pub open spec fn or_else<V>(p: Parsed<V>, q: Parsed<V>) -> Parsed<V> {
    match p {
        Err(ParseError::Error(_)) => q,
        _ => p,
    }
}

/// The result `p` with its value made a section by `wrap`.
pub open spec fn wrapped<V>(p: Parsed<V>, wrap: spec_fn(V) -> SectionView) -> Parsed<SectionView> {
    match p {
        Ok((v, n)) => Ok((wrap(v), n)),
        Err(e) => Err(e),
    }
}

/// A section without its length. The types are tried in the order of their
/// numbers; bytes that none of them accepts are an [`ErrorKind::Alt`] error.
#[verifier::opaque]
pub open spec fn any_section(input: Seq<u8>) -> Parsed<SectionView> {
    or_else(
        wrapped(NospamKeys::spec_from_bytes(input), |p| SectionView::NospamKeys(p)),
        or_else(
            wrapped(DhtState::spec_from_bytes(input), |p| SectionView::DhtState(p)),
            or_else(
                wrapped(Friends::spec_from_bytes(input), |p| SectionView::Friends(p)),
                or_else(
                    wrapped(Name::spec_from_bytes(input), |p| SectionView::Name(p)),
                    or_else(
                        wrapped(
                            StatusMsg::spec_from_bytes(input),
                            |p| SectionView::StatusMsg(p),
                        ),
                        or_else(
                            wrapped(
                                UserStatus::spec_from_bytes(input),
                                |p| SectionView::UserStatus(p),
                            ),
                            or_else(
                                wrapped(
                                    TcpRelays::spec_from_bytes(input),
                                    |p| SectionView::TcpRelays(p),
                                ),
                                or_else(
                                    wrapped(
                                        PathNodes::spec_from_bytes(input),
                                        |p| SectionView::PathNodes(p),
                                    ),
                                    or_else(
                                        wrapped(
                                            Eof::spec_from_bytes(input),
                                            |p| SectionView::Eof(p),
                                        ),
                                        Err(ParseError::Error(ErrorKind::Alt)),
                                    ),
                                ),
                            ),
                        ),
                    ),
                ),
            ),
        ),
    )
}

impl Section {
    /// Whether the content of the section has an encoding.
    pub open spec fn body_encodable(v: SectionView) -> bool {
        match v {
            SectionView::NospamKeys(p) => NospamKeys::encodable(p),
            SectionView::DhtState(p) => DhtState::encodable(p),
            SectionView::Friends(p) => Friends::encodable(p),
            SectionView::Name(p) => Name::encodable(p),
            SectionView::StatusMsg(p) => StatusMsg::encodable(p),
            SectionView::UserStatus(p) => UserStatus::encodable(p),
            SectionView::TcpRelays(p) => TcpRelays::encodable(p),
            SectionView::PathNodes(p) => PathNodes::encodable(p),
            SectionView::Eof(p) => Eof::encodable(p),
        }
    }

    /// The section without its length: type, magic and payload.
    pub open spec fn spec_body(v: SectionView) -> Seq<u8> {
        match v {
            SectionView::NospamKeys(p) => NospamKeys::spec_to_bytes(p),
            SectionView::DhtState(p) => DhtState::spec_to_bytes(p),
            SectionView::Friends(p) => Friends::spec_to_bytes(p),
            SectionView::Name(p) => Name::spec_to_bytes(p),
            SectionView::StatusMsg(p) => StatusMsg::spec_to_bytes(p),
            SectionView::UserStatus(p) => UserStatus::spec_to_bytes(p),
            SectionView::TcpRelays(p) => TcpRelays::spec_to_bytes(p),
            SectionView::PathNodes(p) => PathNodes::spec_to_bytes(p),
            SectionView::Eof(p) => Eof::spec_to_bytes(p),
        }
    }

    /// The type of the section.
    pub open spec fn spec_id(v: SectionView) -> u8 {
        match v {
            SectionView::NospamKeys(_) => 0x01,
            SectionView::DhtState(_) => 0x02,
            SectionView::Friends(_) => 0x03,
            SectionView::Name(_) => 0x04,
            SectionView::StatusMsg(_) => 0x05,
            SectionView::UserStatus(_) => 0x06,
            SectionView::TcpRelays(_) => 0x0a,
            SectionView::PathNodes(_) => 0x0b,
            SectionView::Eof(_) => 0xff,
        }
    }

    /// The body of a section starts with its type and the section magic.
    pub proof fn lemma_body_head(v: SectionView)
        ensures
            Self::spec_body(v).len() >= 4,
            Self::spec_body(v) == section_head(Self::spec_id(v)) + Self::spec_body(v).skip(4),
    {
        let body = Self::spec_body(v);
        assert(body =~= section_head(Self::spec_id(v)) + body.skip(4));
    }

    /// A section without its length is read back from its bytes.
    pub proof fn lemma_body_round_trip(v: SectionView)
        requires
            Self::body_encodable(v),
        ensures
            Self::spec_from_bytes(Self::spec_body(v)) == Ok::<(SectionView, int), ParseError>(
                (v, Self::spec_body(v).len() as int),
            ),
    {
        reveal(any_section);
        let body = Self::spec_body(v);
        Self::lemma_body_head(v);
        lemma_section_head(Self::spec_id(v), body.skip(4));
        assert(body + Seq::<u8>::empty() =~= body);
        let none = Seq::<u8>::empty();
        match v {
            SectionView::NospamKeys(p) => {
                p.lemma_round_trip(none);
            },
            SectionView::DhtState(p) => {
                DhtState::lemma_round_trip(p, none);
            },
            SectionView::Friends(p) => {
                Friends::lemma_round_trip(p);
            },
            SectionView::Name(p) => {
                Name::lemma_round_trip(p);
            },
            SectionView::StatusMsg(p) => {
                StatusMsg::lemma_round_trip(p);
            },
            SectionView::UserStatus(p) => {
                p.lemma_round_trip(none);
            },
            SectionView::TcpRelays(p) => {
                TcpRelays::lemma_round_trip(p);
            },
            SectionView::PathNodes(p) => {
                PathNodes::lemma_round_trip(p);
            },
            SectionView::Eof(p) => {
                p.lemma_round_trip(none);
            },
        }
    }
}

impl FromBytes for Section {
    /// A section without its length, see [`any_section`].
    open spec fn spec_from_bytes(input: Seq<u8>) -> Parsed<SectionView> {
        any_section(input)
    }

    fn from_bytes(input: &[u8]) -> (r: ParseResult<Section>) {
        reveal(any_section);
        match NospamKeys::from_bytes(input) {
            Ok((p, n)) => {
                return Ok((Section::NospamKeys(p), n));
            },
            Err(ParseError::Error(_)) => {},
            Err(e) => {
                return Err(e);
            },
        }
        match DhtState::from_bytes(input) {
            Ok((p, n)) => {
                return Ok((Section::DhtState(p), n));
            },
            Err(ParseError::Error(_)) => {},
            Err(e) => {
                return Err(e);
            },
        }
        match Friends::from_bytes(input) {
            Ok((p, n)) => {
                return Ok((Section::Friends(p), n));
            },
            Err(ParseError::Error(_)) => {},
            Err(e) => {
                return Err(e);
            },
        }
        match Name::from_bytes(input) {
            Ok((p, n)) => {
                return Ok((Section::Name(p), n));
            },
            Err(ParseError::Error(_)) => {},
            Err(e) => {
                return Err(e);
            },
        }
        match StatusMsg::from_bytes(input) {
            Ok((p, n)) => {
                return Ok((Section::StatusMsg(p), n));
            },
            Err(ParseError::Error(_)) => {},
            Err(e) => {
                return Err(e);
            },
        }
        match UserStatus::from_bytes(input) {
            Ok((p, n)) => {
                return Ok((Section::UserStatus(p), n));
            },
            Err(ParseError::Error(_)) => {},
            Err(e) => {
                return Err(e);
            },
        }
        match TcpRelays::from_bytes(input) {
            Ok((p, n)) => {
                return Ok((Section::TcpRelays(p), n));
            },
            Err(ParseError::Error(_)) => {},
            Err(e) => {
                return Err(e);
            },
        }
        match PathNodes::from_bytes(input) {
            Ok((p, n)) => {
                return Ok((Section::PathNodes(p), n));
            },
            Err(ParseError::Error(_)) => {},
            Err(e) => {
                return Err(e);
            },
        }
        match Eof::from_bytes(input) {
            Ok((p, n)) => {
                return Ok((Section::Eof(p), n));
            },
            Err(ParseError::Error(_)) => {},
            Err(e) => {
                return Err(e);
            },
        }
        Err(ParseError::Error(ErrorKind::Alt))
    }
}

impl ToBytes for Section {
    /// The content has an encoding, and the length of the payload fits the
    /// four bytes of the length field.
    open spec fn encodable(v: SectionView) -> bool {
        Self::body_encodable(v) && Self::spec_body(v).len() - 4 <= u32::MAX
    }

    /// The length of the payload in four bytes, low byte first, then type,
    /// magic and payload.
    open spec fn spec_to_bytes(v: SectionView) -> Seq<u8> {
        le_u32_bytes((Self::spec_body(v).len() - 4) as u32) + Self::spec_body(v)
    }

    fn to_bytes(&self, buf: &mut Vec<u8>) -> (r: Result<(), EncodeError>) {
        let mut body: Vec<u8> = Vec::new();
        let inner = match self {
            Section::NospamKeys(p) => p.to_bytes(&mut body),
            Section::DhtState(p) => p.to_bytes(&mut body),
            Section::Friends(p) => p.to_bytes(&mut body),
            Section::Name(p) => p.to_bytes(&mut body),
            Section::StatusMsg(p) => p.to_bytes(&mut body),
            Section::UserStatus(p) => p.to_bytes(&mut body),
            Section::TcpRelays(p) => p.to_bytes(&mut body),
            Section::PathNodes(p) => p.to_bytes(&mut body),
            Section::Eof(p) => p.to_bytes(&mut body),
        };
        if inner.is_err() {
            return Err(EncodeError::TooLong);
        }
        proof {
            Self::lemma_body_head(self@);
        }
        assert(body@ =~= Self::spec_body(self@));
        let payload = body.len() - 4;
        if payload > u32::MAX as usize {
            return Err(EncodeError::TooLong);
        }
        write_le_u32(buf, payload as u32);
        write_slice(buf, body.as_slice());
        Ok(())
    }
}

impl Item for Section {
    /// A section with its length: four bytes of length, low byte first, then
    /// four bytes more than the length says, read as a section. Bytes of the
    /// section that its type does not read are passed over.
    open spec fn spec_item(input: Seq<u8>) -> Parsed<SectionView> {
        if input.len() < 4 {
            Err(ParseError::Incomplete(needed(4)))
        } else {
            let total = le_u32(input) + 4;
            if input.len() < 4 + total {
                Err(ParseError::Incomplete(needed(4 + total)))
            } else {
                match Self::spec_from_bytes(input.subrange(4, 4 + total)) {
                    Ok((v, _)) => Ok((v, 4 + total)),
                    Err(e) => Err(shifted(e, 4)),
                }
            }
        }
    }

    fn read_item(input: &[u8]) -> (r: ParseResult<Section>) {
        let len = input.len();
        if len < 4 {
            return Err(ParseError::Incomplete(Needed::Size(4)));
        }
        assert(input@.skip(0) =~= input@);
        let payload = read_le_u32(input, 0) as usize;
        if len - 4 < 4 || len - 8 < payload {
            return Err(
                ParseError::Incomplete(
                    match payload.checked_add(8) {
                        Some(all) => Needed::Size(all),
                        None => Needed::Unknown,
                    },
                ),
            );
        }
        let region = vstd::slice::slice_subrange(input, 4, payload + 8);
        match Self::from_bytes(region) {
            Ok((section, _)) => Ok((section, payload + 8)),
            Err(e) => Err(shift_error(e, 4)),
        }
    }

    proof fn lemma_item_round_trip(v: SectionView, rest: Seq<u8>) {
        let body = Self::spec_body(v);
        Self::lemma_body_head(v);
        let payload = (body.len() - 4) as u32;
        let b = Self::spec_to_bytes(v) + rest;
        assert(b.subrange(0, 4) =~= le_u32_bytes(payload));
        lemma_le_at(b, 0, 0, payload, 0);
        assert(b.skip(0) =~= b);
        assert(b.subrange(4, 4 + body.len() as int) =~= body);
        Self::lemma_body_round_trip(v);
    }
}

// ---------------------------------------------------------------------

/// The four zero bytes that a state file starts with.
pub open spec fn state_zeros() -> Seq<u8> {
    seq![0u8, 0u8, 0u8, 0u8]
}

/// The magic bytes of a state file.
pub open spec fn state_magic() -> Seq<u8> {
    seq![0x1fu8, 0x1bu8, 0xedu8, 0x15u8]
}

/// Tox State sections. Use to manage `.tox` save files.
///
/// Serialized form: four zero bytes, the magic bytes `1F 1B ED 15`, and the
/// sections with their lengths, one after another. The order of the sections
/// is kept and a type may occur more than once.
#[derive(Clone, Debug, Eq, PartialEq)]
pub struct State {
    /// The sections, in the order of the file.
    pub sections: Vec<Section>,
}

impl View for State {
    type V = Seq<SectionView>;

    open spec fn view(&self) -> Seq<SectionView> {
        views(self.sections@)
    }
}

impl State {
    /// A state is read back from its bytes.
    pub proof fn lemma_round_trip(v: Seq<SectionView>)
        requires
            Self::encodable(v),
        ensures
            Self::spec_from_bytes(Self::spec_to_bytes(v)) == Ok::<
                (Seq<SectionView>, int),
                ParseError,
            >((v, Self::spec_to_bytes(v).len() as int)),
    {
        let sections = concat::<Section>(v);
        let b = Self::spec_to_bytes(v);
        assert(b.take(4) =~= state_zeros().take(4));
        assert(b.skip(4).take(4) =~= state_magic().take(4));
        assert(b.skip(8) =~= sections);
        lemma_many0_round_trip::<Section>(v);
    }
}

impl FromBytes for State {
    /// Files that do not start with the four zero bytes and the magic bytes
    /// are rejected. Reading stops at the end of the input and before bytes
    /// that are no section, which stay unread; it fails where a section is
    /// cut short.
    open spec fn spec_from_bytes(input: Seq<u8>) -> Parsed<Seq<SectionView>> {
        match tag_error(input, state_zeros()) {
            Some(e) => Err(e),
            None => match tag_error(input.skip(4), state_magic()) {
                Some(e) => Err(shifted(e, 4)),
                None => after(8, many0::<Section>(input.skip(8))),
            },
        }
    }

    fn from_bytes(input: &[u8]) -> (r: ParseResult<State>) {
        let zeros = [0u8, 0u8, 0u8, 0u8];
        assert(zeros@ =~= state_zeros());
        assert(input@.skip(0) =~= input@);
        if let Some(e) = check_tag(input, 0, zeros.as_slice()) {
            return Err(e);
        }
        let magic = [0x1fu8, 0x1bu8, 0xedu8, 0x15u8];
        assert(magic@ =~= state_magic());
        if let Some(e) = check_tag(input, 4, magic.as_slice()) {
            return Err(shift_error(e, 4));
        }
        let region = vstd::slice::slice_subrange(input, 8, input.len());
        assert(region@ =~= input@.skip(8));
        match read_many0::<Section>(region) {
            Ok((sections, n)) => Ok((State { sections }, n + 8)),
            Err(e) => Err(shift_error(e, 8)),
        }
    }
}

impl ToBytes for State {
    open spec fn encodable(v: Seq<SectionView>) -> bool {
        all_encodable::<Section>(v)
    }

    open spec fn spec_to_bytes(v: Seq<SectionView>) -> Seq<u8> {
        state_zeros() + state_magic() + concat::<Section>(v)
    }

    fn to_bytes(&self, buf: &mut Vec<u8>) -> (r: Result<(), EncodeError>) {
        let mut sections: Vec<u8> = Vec::new();
        match write_items::<Section>(&self.sections, &mut sections) {
            Err(e) => Err(e),
            Ok(()) => {
                assert(sections@ =~= concat::<Section>(self@));
                let head = [0u8, 0u8, 0u8, 0u8, 0x1fu8, 0x1bu8, 0xedu8, 0x15u8];
                assert(head@ =~= state_zeros() + state_magic());
                write_slice(buf, head.as_slice());
                write_slice(buf, sections.as_slice());
                assert(buf@ =~= old(buf)@ + Self::spec_to_bytes(self@));
                Ok(())
            },
        }
    }
}

} // verus!
