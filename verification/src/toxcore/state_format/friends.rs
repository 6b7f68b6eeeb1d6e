//! The section of the friends: fixed-width records, one per friend.

use vstd::prelude::*;
use crate::toxcore::binary_io::{
    after, all_encodable, be_u16, be_u16_bytes, concat, copy_range, le_u64, le_u64_bytes,
    lemma_be_at, lemma_le_at, lemma_many0_round_trip, many0, needed, read_be_u16, read_le_u64,
    read_many0, shift_error, views, write_be_u16, write_items, write_le_u64, write_slice,
    write_zeros, EncodeError, ErrorKind, FromBytes, Item, Needed, ParseError, ParseResult, Parsed,
    ToBytes,
};
use crate::toxcore::crypto_core::{array_of, lemma_array_of, read_array32, read_array4, PublicKey};
use crate::toxcore::state_format::sections::{
    check_section_head, lemma_section_head, section_head, section_head_error, write_section_head,
    Name, StatusMsg, UserWorkingStatus, NAME_LEN, STATUS_MSG_LEN,
};
use crate::toxcore::toxid::NoSpam;

verus! {

/// Length in bytes of the message of a friend request in a friend record.
pub const REQUEST_MSG_LEN: usize = 1024;

/// Number of bytes of a serialized [`FriendState`].
pub const FRIENDSTATEBYTES: usize = 2216;

/// Friend state status. Used by [`FriendState`].
#[derive(Copy, Clone, Debug, Eq, PartialEq, Structural)]
pub enum FriendStatus {
    /// Not a friend.
    NotFriend,
    /// Friend was added.
    Added,
    /// Friend request was sent to the friend.
    FrSent,
    /// Friend confirmed.
    Confirmed,
    /// Friend has come online.
    Online,
}

impl FriendStatus {
    /// The byte that stands for the status: 0 to 4.
    pub open spec fn spec_byte(self) -> u8 {
        match self {
            FriendStatus::NotFriend => 0,
            FriendStatus::Added => 1,
            FriendStatus::FrSent => 2,
            FriendStatus::Confirmed => 3,
            FriendStatus::Online => 4,
        }
    }

    /// The status that the byte `b` stands for, if it stands for one.
    pub open spec fn spec_from_byte(b: u8) -> Option<FriendStatus> {
        if b == 0 {
            Some(FriendStatus::NotFriend)
        } else if b == 1 {
            Some(FriendStatus::Added)
        } else if b == 2 {
            Some(FriendStatus::FrSent)
        } else if b == 3 {
            Some(FriendStatus::Confirmed)
        } else if b == 4 {
            Some(FriendStatus::Online)
        } else {
            None
        }
    }

    /// Computes [`Self::spec_byte`].
    pub fn to_byte(self) -> (b: u8)
        ensures
            b == self.spec_byte(),
            Self::spec_from_byte(b) == Some(self),
    {
        match self {
            FriendStatus::NotFriend => 0,
            FriendStatus::Added => 1,
            FriendStatus::FrSent => 2,
            FriendStatus::Confirmed => 3,
            FriendStatus::Online => 4,
        }
    }

    /// Computes [`Self::spec_from_byte`].
    pub fn from_byte(b: u8) -> (status: Option<FriendStatus>)
        ensures
            status == Self::spec_from_byte(b),
    {
        if b == 0 {
            Some(FriendStatus::NotFriend)
        } else if b == 1 {
            Some(FriendStatus::Added)
        } else if b == 2 {
            Some(FriendStatus::FrSent)
        } else if b == 3 {
            Some(FriendStatus::Confirmed)
        } else if b == 4 {
            Some(FriendStatus::Online)
        } else {
            None
        }
    }
}

/// The bytes `s` in a field of `n` bytes: `s`, then zero bytes up to `n`.
pub open spec fn padded(s: Seq<u8>, n: int) -> Seq<u8> {
    Seq::new(
        n as nat,
        |i: int|
            if i < s.len() {
                s[i]
            } else {
                0u8
            },
    )
}

/// Appends `bytes` in a field of `n` bytes.
pub fn write_padded(buf: &mut Vec<u8>, bytes: &[u8], n: usize)
    requires
        bytes@.len() <= n,
    ensures
        final(buf)@ == old(buf)@ + padded(bytes@, n as int),
{
    write_slice(buf, bytes);
    write_zeros(buf, n - bytes.len());
    assert(buf@ =~= old(buf)@ + padded(bytes@, n as int));
}

/// What a [`FriendState`] holds.
pub struct FriendStateView {
    /// Whether the peer is a friend yet.
    pub friend_status: FriendStatus,
    /// The long-term key of the friend.
    pub pk: PublicKey,
    /// The message of the friend request.
    pub fr_msg: Seq<u8>,
    /// The name of the friend.
    pub name: Seq<u8>,
    /// The status message of the friend.
    pub status_msg: Seq<u8>,
    /// The user status of the friend.
    pub user_status: UserWorkingStatus,
    /// The `NoSpam` that the friend request goes with.
    pub nospam: NoSpam,
    /// When the friend was last seen online.
    pub last_seen: u64,
}

/// The state of one friend.
///
/// The strings (friend request message, name, status message) are bytes
/// that may or may not be UTF-8.
///
/// Serialized form, 2216 bytes:
///
/// Offset | Size | Field
/// ------ | ---- | -----
/// 0      | 1    | status, 0 to 4
/// 1      | 32   | public key
/// 33     | 1024 | friend request message, zero-padded
/// 1057   | 1    | padding
/// 1058   | 2    | length of the message, high byte first, at most 1024
/// 1060   | 128  | name, zero-padded
/// 1188   | 2    | length of the name, high byte first, at most 128
/// 1190   | 1007 | status message, zero-padded
/// 2197   | 1    | padding
/// 2198   | 2    | length of the status message, high byte first, at most 1007
/// 2200   | 1    | user status, 0 to 2
/// 2201   | 3    | padding
/// 2204   | 4    | `NoSpam`
/// 2208   | 8    | last seen, low byte first
#[derive(Clone, Debug, Eq, PartialEq)]
pub struct FriendState {
    /// Whether the peer is a friend yet.
    pub friend_status: FriendStatus,
    /// The long-term key of the friend.
    pub pk: PublicKey,
    /// Friend request message that is being sent to friend.
    pub fr_msg: Vec<u8>,
    /// Friend's name.
    pub name: Name,
    /// The status message of the friend.
    pub status_msg: StatusMsg,
    /// The user status of the friend.
    pub user_status: UserWorkingStatus,
    /// The `NoSpam` that the friend request goes with.
    pub nospam: NoSpam,
    /// Time when friend was last seen online.
    pub last_seen: u64,
}

impl View for FriendState {
    type V = FriendStateView;

    open spec fn view(&self) -> FriendStateView {
        FriendStateView {
            friend_status: self.friend_status,
            pk: self.pk,
            fr_msg: self.fr_msg@,
            name: self.name@,
            status_msg: self.status_msg@,
            user_status: self.user_status,
            nospam: self.nospam,
            last_seen: self.last_seen,
        }
    }
}

impl FriendState {
    /// The first 1060 bytes of a record: status, key and request message.
    pub open spec fn spec_first_part(v: FriendStateView) -> Seq<u8> {
        seq![v.friend_status.spec_byte()] + v.pk.0@ + padded(v.fr_msg, 1024) + seq![0u8]
            + be_u16_bytes(v.fr_msg.len() as u16)
    }

    /// The bytes 1060 to 2200 of a record: name and status message.
    pub open spec fn spec_second_part(v: FriendStateView) -> Seq<u8> {
        padded(v.name, 128) + be_u16_bytes(v.name.len() as u16) + padded(v.status_msg, 1007)
            + seq![0u8] + be_u16_bytes(v.status_msg.len() as u16)
    }

    /// The last 16 bytes of a record: user status, `NoSpam` and last seen.
    pub open spec fn spec_third_part(v: FriendStateView) -> Seq<u8> {
        seq![v.user_status.spec_byte(), 0u8, 0u8, 0u8] + v.nospam.0@ + le_u64_bytes(v.last_seen)
    }

    /// Appends the first 1060 bytes of the record.
    fn write_first_part(&self, buf: &mut Vec<u8>)
        requires
            self.fr_msg@.len() <= 1024,
        ensures
            final(buf)@ == old(buf)@ + Self::spec_first_part(self@),
    {
        buf.push(self.friend_status.to_byte());
        write_slice(buf, self.pk.0.as_slice());
        write_padded(buf, self.fr_msg.as_slice(), REQUEST_MSG_LEN);
        buf.push(0);
        write_be_u16(buf, self.fr_msg.len() as u16);
        assert(buf@ =~= old(buf)@ + Self::spec_first_part(self@));
    }

    /// Appends the bytes 1060 to 2200 of the record.
    fn write_second_part(&self, buf: &mut Vec<u8>)
        requires
            self.name@.len() <= 128,
            self.status_msg@.len() <= 1007,
        ensures
            final(buf)@ == old(buf)@ + Self::spec_second_part(self@),
    {
        write_padded(buf, self.name.0.as_slice(), NAME_LEN);
        write_be_u16(buf, self.name.0.len() as u16);
        write_padded(buf, self.status_msg.0.as_slice(), STATUS_MSG_LEN);
        buf.push(0);
        write_be_u16(buf, self.status_msg.0.len() as u16);
        assert(buf@ =~= old(buf)@ + Self::spec_second_part(self@));
    }

    /// Appends the last 16 bytes of the record.
    fn write_third_part(&self, buf: &mut Vec<u8>)
        ensures
            final(buf)@ == old(buf)@ + Self::spec_third_part(self@),
    {
        buf.push(self.user_status.to_byte());
        buf.push(0);
        buf.push(0);
        buf.push(0);
        write_slice(buf, self.nospam.0.as_slice());
        write_le_u64(buf, self.last_seen);
        assert(buf@ =~= old(buf)@ + Self::spec_third_part(self@));
    }

    /// A record is read back from its bytes, whatever follows them.
    pub proof fn lemma_round_trip(v: FriendStateView, rest: Seq<u8>)
        requires
            Self::encodable(v),
        ensures
            Self::spec_from_bytes(Self::spec_to_bytes(v) + rest) == Ok::<
                (FriendStateView, int),
                ParseError,
            >((v, 2216)),
            Self::spec_to_bytes(v).len() == 2216,
    {
        let first = Self::spec_first_part(v);
        let second = Self::spec_second_part(v);
        let third = Self::spec_third_part(v);
        let b = Self::spec_to_bytes(v) + rest;
        assert(first.len() == 1060);
        assert(second.len() == 1140);
        assert(third.len() == 16);
        assert(b.subrange(0, 1060) =~= first);
        assert(b.subrange(1060, 2200) =~= second);
        assert(b.subrange(2200, 2216) =~= third);
        assert(b[0] == v.friend_status.spec_byte()) by {
            assert(b[0] == first[0]);
        }
        assert(b.subrange(1, 33) =~= v.pk.0@) by {
            assert(b.subrange(1, 33) =~= first.subrange(1, 33));
        }
        lemma_array_of::<32>(v.pk.0);
        let fr_len = v.fr_msg.len() as int;
        let name_len = v.name.len() as int;
        let msg_len = v.status_msg.len() as int;
        assert(b.subrange(33, 33 + fr_len) =~= v.fr_msg) by {
            assert(b.subrange(33, 33 + fr_len) =~= first.subrange(33, 33 + fr_len));
        }
        assert(be_u16(b.skip(1058)) == fr_len) by {
            assert(b.subrange(1058, 1060) =~= first.subrange(1058, 1060));
            assert(first.subrange(1058, 1060) =~= be_u16_bytes(fr_len as u16));
            lemma_be_at(b, 1058, fr_len as u16);
        }
        assert(b.subrange(1060, 1060 + name_len) =~= v.name) by {
            assert(b.subrange(1060, 1060 + name_len) =~= second.subrange(0, name_len));
        }
        assert(be_u16(b.skip(1188)) == name_len) by {
            assert(b.subrange(1188, 1190) =~= second.subrange(128, 130));
            assert(second.subrange(128, 130) =~= be_u16_bytes(name_len as u16));
            lemma_be_at(b, 1188, name_len as u16);
        }
        assert(b.subrange(1190, 1190 + msg_len) =~= v.status_msg) by {
            assert(b.subrange(1190, 1190 + msg_len) =~= second.subrange(130, 130 + msg_len));
        }
        assert(be_u16(b.skip(2198)) == msg_len) by {
            assert(b.subrange(2198, 2200) =~= second.subrange(1138, 1140));
            assert(second.subrange(1138, 1140) =~= be_u16_bytes(msg_len as u16));
            lemma_be_at(b, 2198, msg_len as u16);
        }
        assert(b[2200] == v.user_status.spec_byte()) by {
            assert(b[2200] == third[0]);
        }
        assert(b.subrange(2204, 2208) =~= v.nospam.0@) by {
            assert(b.subrange(2204, 2208) =~= third.subrange(4, 8));
        }
        lemma_array_of::<4>(v.nospam.0);
        assert(le_u64(b.skip(2208)) == v.last_seen) by {
            assert(b.subrange(2208, 2216) =~= third.subrange(8, 16));
            assert(third.subrange(8, 16) =~= le_u64_bytes(v.last_seen));
            lemma_le_at(b, 2208, 0, 0, v.last_seen);
        }
    }
}

impl FromBytes for FriendState {
    open spec fn spec_from_bytes(input: Seq<u8>) -> Parsed<FriendStateView> {
        if input.len() < 1 {
            Err(ParseError::Incomplete(needed(1)))
        } else if FriendStatus::spec_from_byte(input[0]) is None {
            Err(ParseError::Error(ErrorKind::Switch))
        } else if input.len() < 33 {
            Err(ParseError::Incomplete(needed(33)))
        } else if input.len() < 1057 {
            Err(ParseError::Incomplete(needed(1057)))
        } else if input.len() < 1058 {
            Err(ParseError::Incomplete(needed(1058)))
        } else if input.len() < 1060 {
            Err(ParseError::Incomplete(needed(1060)))
        } else if be_u16(input.skip(1058)) > 1024 {
            Err(ParseError::Error(ErrorKind::Verify))
        } else if input.len() < 1188 {
            Err(ParseError::Incomplete(needed(1188)))
        } else if input.len() < 1190 {
            Err(ParseError::Incomplete(needed(1190)))
        } else if be_u16(input.skip(1188)) > 128 {
            Err(ParseError::Error(ErrorKind::Verify))
        } else if input.len() < 2197 {
            Err(ParseError::Incomplete(needed(2197)))
        } else if input.len() < 2198 {
            Err(ParseError::Incomplete(needed(2198)))
        } else if input.len() < 2200 {
            Err(ParseError::Incomplete(needed(2200)))
        } else if be_u16(input.skip(2198)) > 1007 {
            Err(ParseError::Error(ErrorKind::Verify))
        } else if input.len() < 2201 {
            Err(ParseError::Incomplete(needed(2201)))
        } else if UserWorkingStatus::spec_from_byte(input[2200]) is None {
            Err(ParseError::Error(ErrorKind::Switch))
        } else if input.len() < 2204 {
            Err(ParseError::Incomplete(needed(2204)))
        } else if input.len() < 2208 {
            Err(ParseError::Incomplete(needed(2208)))
        } else if input.len() < 2216 {
            Err(ParseError::Incomplete(needed(2216)))
        } else {
            Ok(
                (
                    FriendStateView {
                        friend_status: FriendStatus::spec_from_byte(input[0])->0,
                        pk: PublicKey(array_of::<32>(input.subrange(1, 33))),
                        fr_msg: input.subrange(33, 33 + be_u16(input.skip(1058))),
                        name: input.subrange(1060, 1060 + be_u16(input.skip(1188))),
                        status_msg: input.subrange(1190, 1190 + be_u16(input.skip(2198))),
                        user_status: UserWorkingStatus::spec_from_byte(input[2200])->0,
                        nospam: NoSpam(array_of::<4>(input.subrange(2204, 2208))),
                        last_seen: le_u64(input.skip(2208)) as u64,
                    },
                    2216,
                ),
            )
        }
    }

    fn from_bytes(input: &[u8]) -> (r: ParseResult<FriendState>) {
        let len = input.len();
        if len < 1 {
            return Err(ParseError::Incomplete(Needed::Size(1)));
        }
        let friend_status = match FriendStatus::from_byte(input[0]) {
            Some(status) => status,
            None => {
                return Err(ParseError::Error(ErrorKind::Switch));
            },
        };
        if len < 33 {
            return Err(ParseError::Incomplete(Needed::Size(33)));
        }
        if len < 1057 {
            return Err(ParseError::Incomplete(Needed::Size(1057)));
        }
        if len < 1058 {
            return Err(ParseError::Incomplete(Needed::Size(1058)));
        }
        if len < 1060 {
            return Err(ParseError::Incomplete(Needed::Size(1060)));
        }
        let fr_msg_len = read_be_u16(input, 1058) as usize;
        if fr_msg_len > REQUEST_MSG_LEN {
            return Err(ParseError::Error(ErrorKind::Verify));
        }
        if len < 1188 {
            return Err(ParseError::Incomplete(Needed::Size(1188)));
        }
        if len < 1190 {
            return Err(ParseError::Incomplete(Needed::Size(1190)));
        }
        let name_len = read_be_u16(input, 1188) as usize;
        if name_len > NAME_LEN {
            return Err(ParseError::Error(ErrorKind::Verify));
        }
        if len < 2197 {
            return Err(ParseError::Incomplete(Needed::Size(2197)));
        }
        if len < 2198 {
            return Err(ParseError::Incomplete(Needed::Size(2198)));
        }
        if len < 2200 {
            return Err(ParseError::Incomplete(Needed::Size(2200)));
        }
        let status_msg_len = read_be_u16(input, 2198) as usize;
        if status_msg_len > STATUS_MSG_LEN {
            return Err(ParseError::Error(ErrorKind::Verify));
        }
        if len < 2201 {
            return Err(ParseError::Incomplete(Needed::Size(2201)));
        }
        let user_status = match UserWorkingStatus::from_byte(input[2200]) {
            Some(status) => status,
            None => {
                return Err(ParseError::Error(ErrorKind::Switch));
            },
        };
        if len < 2204 {
            return Err(ParseError::Incomplete(Needed::Size(2204)));
        }
        if len < 2208 {
            return Err(ParseError::Incomplete(Needed::Size(2208)));
        }
        if len < 2216 {
            return Err(ParseError::Incomplete(Needed::Size(2216)));
        }
        let pk = read_array32(input, 1);
        let nospam = read_array4(input, 2204);
        proof {
            lemma_array_of::<32>(pk);
            lemma_array_of::<4>(nospam);
        }
        let friend = FriendState {
            friend_status,
            pk: PublicKey(pk),
            fr_msg: copy_range(input, 33, 33 + fr_msg_len),
            name: Name(copy_range(input, 1060, 1060 + name_len)),
            status_msg: StatusMsg(copy_range(input, 1190, 1190 + status_msg_len)),
            user_status,
            nospam: NoSpam(nospam),
            last_seen: read_le_u64(input, 2208),
        };
        Ok((friend, 2216))
    }
}

impl ToBytes for FriendState {
    open spec fn encodable(v: FriendStateView) -> bool {
        &&& v.fr_msg.len() <= 1024
        &&& v.name.len() <= 128
        &&& v.status_msg.len() <= 1007
    }

    open spec fn spec_to_bytes(v: FriendStateView) -> Seq<u8> {
        Self::spec_first_part(v) + Self::spec_second_part(v) + Self::spec_third_part(v)
    }

    fn to_bytes(&self, buf: &mut Vec<u8>) -> (r: Result<(), EncodeError>) {
        if self.fr_msg.len() > REQUEST_MSG_LEN || self.name.0.len() > NAME_LEN
            || self.status_msg.0.len() > STATUS_MSG_LEN {
            return Err(EncodeError::TooLong);
        }
        self.write_first_part(buf);
        self.write_second_part(buf);
        self.write_third_part(buf);
        assert(buf@ =~= old(buf)@ + Self::spec_to_bytes(self@));
        Ok(())
    }
}

impl Item for FriendState {
    open spec fn spec_item(input: Seq<u8>) -> Parsed<FriendStateView> {
        if input.len() < 2216 {
            Err(ParseError::Incomplete(needed(2216)))
        } else {
            match Self::spec_from_bytes(input.take(2216)) {
                Ok((v, _)) => Ok((v, 2216)),
                Err(e) => Err(e),
            }
        }
    }

    fn read_item(input: &[u8]) -> (r: ParseResult<FriendState>) {
        if input.len() < FRIENDSTATEBYTES {
            return Err(ParseError::Incomplete(Needed::Size(FRIENDSTATEBYTES)));
        }
        let record = vstd::slice::slice_subrange(input, 0, FRIENDSTATEBYTES);
        assert(record@ =~= input@.take(2216));
        match Self::from_bytes(record) {
            Ok((friend, _)) => Ok((friend, FRIENDSTATEBYTES)),
            Err(e) => Err(e),
        }
    }

    proof fn lemma_item_round_trip(v: FriendStateView, rest: Seq<u8>) {
        Self::lemma_round_trip(v, Seq::empty());
        assert((Self::spec_to_bytes(v) + rest).take(2216) =~= Self::spec_to_bytes(v)
            + Seq::<u8>::empty());
    }
}

// ---------------------------------------------------------------------

/// The section of the friends: the payload is their records, one after
/// another.
#[derive(Clone, Debug, Default, Eq, PartialEq)]
pub struct Friends(pub Vec<FriendState>);

impl View for Friends {
    type V = Seq<FriendStateView>;

    open spec fn view(&self) -> Seq<FriendStateView> {
        views(self.0@)
    }
}

impl Friends {
    /// The section is read back from its bytes.
    pub proof fn lemma_round_trip(v: Seq<FriendStateView>)
        requires
            Self::encodable(v),
        ensures
            Self::spec_from_bytes(Self::spec_to_bytes(v)) == Ok::<
                (Seq<FriendStateView>, int),
                ParseError,
            >((v, Self::spec_to_bytes(v).len() as int)),
    {
        let records = concat::<FriendState>(v);
        lemma_section_head(0x03, records);
        assert(Self::spec_to_bytes(v).skip(4) =~= records);
        lemma_many0_round_trip::<FriendState>(v);
    }
}

impl FromBytes for Friends {
    open spec fn spec_from_bytes(input: Seq<u8>) -> Parsed<Seq<FriendStateView>> {
        match section_head_error(input, 0x03) {
            Some(e) => Err(e),
            None => after(4, many0::<FriendState>(input.skip(4))),
        }
    }

    fn from_bytes(input: &[u8]) -> (r: ParseResult<Friends>) {
        if let Some(e) = check_section_head(input, 0x03) {
            return Err(e);
        }
        let region = vstd::slice::slice_subrange(input, 4, input.len());
        assert(region@ =~= input@.skip(4));
        match read_many0::<FriendState>(region) {
            Ok((friends, n)) => Ok((Friends(friends), n + 4)),
            Err(e) => Err(shift_error(e, 4)),
        }
    }
}

impl ToBytes for Friends {
    open spec fn encodable(v: Seq<FriendStateView>) -> bool {
        all_encodable::<FriendState>(v)
    }

    open spec fn spec_to_bytes(v: Seq<FriendStateView>) -> Seq<u8> {
        section_head(0x03) + concat::<FriendState>(v)
    }

    fn to_bytes(&self, buf: &mut Vec<u8>) -> (r: Result<(), EncodeError>) {
        let mut records: Vec<u8> = Vec::new();
        match write_items::<FriendState>(&self.0, &mut records) {
            Err(e) => Err(e),
            Ok(()) => {
                assert(records@ =~= concat::<FriendState>(self@));
                write_section_head(buf, 0x03);
                write_slice(buf, records.as_slice());
                assert(buf@ =~= old(buf)@ + Self::spec_to_bytes(self@));
                Ok(())
            },
        }
    }
}

} // verus!
