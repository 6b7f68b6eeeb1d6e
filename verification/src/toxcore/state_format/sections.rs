//! The sections whose payload is a fixed record or a plain byte string.

use vstd::prelude::*;
use crate::toxcore::binary_io::{
    check_tag, copy_range, needed, shifted, shift_error, tag_error, write_slice, EncodeError,
    ErrorKind, FromBytes, Needed, ParseError, ParseResult, Parsed, ToBytes,
};
use crate::toxcore::crypto_core::{
    array_of, lemma_array_of, read_array32, read_array4, PublicKey, SecretKey, PUBLICKEYBYTES,
    SECRETKEYBYTES,
};
use crate::toxcore::toxid::{NoSpam, NOSPAMBYTES};

verus! {

/// The two bytes that follow the type of every section.
pub open spec fn section_magic() -> Seq<u8> {
    seq![0xceu8, 0x01u8]
}

/// The four bytes that open the body of a section of the type `id`.
pub open spec fn section_head(id: u8) -> Seq<u8> {
    seq![id, 0u8, 0xceu8, 0x01u8]
}

/// What is wrong with `b` where the type `id` and the section magic are
/// expected at its start, if anything. The type is looked at before the
/// magic.
pub open spec fn section_head_error(b: Seq<u8>, id: u8) -> Option<ParseError> {
    match tag_error(b, seq![id, 0u8]) {
        Some(e) => Some(e),
        None => match tag_error(b.skip(2), section_magic()) {
            Some(e) => Some(shifted(e, 2)),
            None => None,
        },
    }
}

/// The head of a section is accepted where it stands.
pub proof fn lemma_section_head(id: u8, rest: Seq<u8>)
    ensures
        section_head_error(section_head(id) + rest, id) is None,
        forall|other: u8|
            other != id ==> #[trigger] section_head_error(section_head(id) + rest, other) == Some(
                ParseError::Error(ErrorKind::Tag),
            ),
{
    let b = section_head(id) + rest;
    assert(b.take(2) =~= seq![id, 0u8].take(2));
    assert(b.skip(2).take(2) =~= section_magic().take(2));
    assert forall|other: u8| other != id implies #[trigger] section_head_error(b, other) == Some(
        ParseError::Error(ErrorKind::Tag),
    ) by {
        assert(b.take(2)[0] != seq![other, 0u8].take(2)[0]);
    }
}

/// Looks for the type `id` and the section magic at the start of `input`.
pub fn check_section_head(input: &[u8], id: u8) -> (e: Option<ParseError>)
    ensures
        e == section_head_error(input@, id),
        e is None ==> input@.len() >= 4,
{
    let tag = [id, 0u8];
    assert(tag@ =~= seq![id, 0u8]);
    match check_tag(input, 0, tag.as_slice()) {
        Some(e) => {
            assert(input@.skip(0) =~= input@);
            Some(e)
        },
        None => {
            assert(input@.skip(0) =~= input@);
            let magic = [0xceu8, 0x01u8];
            assert(magic@ =~= section_magic());
            match check_tag(input, 2, magic.as_slice()) {
                Some(e) => Some(shift_error(e, 2)),
                None => None,
            }
        },
    }
}

/// Appends the type `id` and the section magic.
pub fn write_section_head(buf: &mut Vec<u8>, id: u8)
    ensures
        final(buf)@ == old(buf)@ + section_head(id),
{
    buf.push(id);
    buf.push(0);
    buf.push(0xce);
    buf.push(0x01);
    assert(buf@ =~= old(buf)@ + section_head(id));
}

// ---------------------------------------------------------------------

/// Number of bytes of the payload of a [`NospamKeys`] section.
pub const NOSPAMKEYSBYTES: usize = NOSPAMBYTES + PUBLICKEYBYTES + SECRETKEYBYTES;

/// The section of one's own `NoSpam` and long-term keys.
///
/// Payload: `NoSpam` (4 bytes), public key (32 bytes), secret key (32 bytes).
#[derive(Clone, Debug, Eq, PartialEq)]
pub struct NospamKeys {
    /// Own `NoSpam`.
    pub nospam: NoSpam,
    /// Own `PublicKey`.
    pub pk: PublicKey,
    /// Own `SecretKey`.
    pub sk: SecretKey,
}

impl View for NospamKeys {
    type V = NospamKeys;

    open spec fn view(&self) -> NospamKeys {
        *self
    }
}

impl NospamKeys {
    /// The section is read back from its bytes, whatever follows them.
    pub proof fn lemma_round_trip(self, rest: Seq<u8>)
        ensures
            Self::spec_from_bytes(Self::spec_to_bytes(self) + rest) == Ok::<
                (NospamKeys, int),
                ParseError,
            >((self, 72)),
            Self::spec_to_bytes(self).len() == 72,
    {
        let b = Self::spec_to_bytes(self) + rest;
        assert(b =~= section_head(0x01) + (self.nospam.0@ + self.pk.0@ + self.sk.0@ + rest));
        lemma_section_head(0x01, self.nospam.0@ + self.pk.0@ + self.sk.0@ + rest);
        assert(b.subrange(4, 8) =~= self.nospam.0@);
        assert(b.subrange(8, 40) =~= self.pk.0@);
        assert(b.subrange(40, 72) =~= self.sk.0@);
        lemma_array_of::<4>(self.nospam.0);
        lemma_array_of::<32>(self.pk.0);
        lemma_array_of::<32>(self.sk.0);
    }
}

impl FromBytes for NospamKeys {
    open spec fn spec_from_bytes(input: Seq<u8>) -> Parsed<NospamKeys> {
        match section_head_error(input, 0x01) {
            Some(e) => Err(e),
            None => if input.len() < 8 {
                Err(ParseError::Incomplete(needed(8)))
            } else if input.len() < 40 {
                Err(ParseError::Incomplete(needed(40)))
            } else if input.len() < 72 {
                Err(ParseError::Incomplete(needed(72)))
            } else {
                Ok(
                    (
                        NospamKeys {
                            nospam: NoSpam(array_of::<4>(input.subrange(4, 8))),
                            pk: PublicKey(array_of::<32>(input.subrange(8, 40))),
                            sk: SecretKey(array_of::<32>(input.subrange(40, 72))),
                        },
                        72,
                    ),
                )
            },
        }
    }

    fn from_bytes(input: &[u8]) -> (r: ParseResult<NospamKeys>) {
        if let Some(e) = check_section_head(input, 0x01) {
            return Err(e);
        }
        let len = input.len();
        if len < 8 {
            return Err(ParseError::Incomplete(Needed::Size(8)));
        }
        if len < 40 {
            return Err(ParseError::Incomplete(Needed::Size(40)));
        }
        if len < 72 {
            return Err(ParseError::Incomplete(Needed::Size(72)));
        }
        let nospam = read_array4(input, 4);
        let pk = read_array32(input, 8);
        let sk = read_array32(input, 40);
        proof {
            lemma_array_of::<4>(nospam);
            lemma_array_of::<32>(pk);
            lemma_array_of::<32>(sk);
        }
        Ok((NospamKeys { nospam: NoSpam(nospam), pk: PublicKey(pk), sk: SecretKey(sk) }, 72))
    }
}

impl ToBytes for NospamKeys {
    open spec fn encodable(v: NospamKeys) -> bool {
        true
    }

    open spec fn spec_to_bytes(v: NospamKeys) -> Seq<u8> {
        section_head(0x01) + v.nospam.0@ + v.pk.0@ + v.sk.0@
    }

    fn to_bytes(&self, buf: &mut Vec<u8>) -> (r: Result<(), EncodeError>) {
        write_section_head(buf, 0x01);
        write_slice(buf, self.nospam.0.as_slice());
        write_slice(buf, self.pk.0.as_slice());
        write_slice(buf, self.sk.0.as_slice());
        assert(buf@ =~= old(buf)@ + Self::spec_to_bytes(*self));
        Ok(())
    }
}

// ---------------------------------------------------------------------

/// Length in bytes of a name in a friend record.
pub const NAME_LEN: usize = 128;

/// The section of one's own name: the payload is the name, to the end of the
/// section.
#[derive(Clone, Debug, Default, Eq, PartialEq)]
pub struct Name(pub Vec<u8>);

impl View for Name {
    type V = Seq<u8>;

    open spec fn view(&self) -> Seq<u8> {
        self.0@
    }
}

impl Name {
    /// The section is read back from its bytes.
    pub proof fn lemma_round_trip(v: Seq<u8>)
        ensures
            Self::spec_from_bytes(Self::spec_to_bytes(v)) == Ok::<(Seq<u8>, int), ParseError>(
                (v, (v.len() + 4) as int),
            ),
            Self::spec_to_bytes(v).len() == v.len() + 4,
    {
        lemma_section_head(0x04, v);
        assert((section_head(0x04) + v).skip(4) =~= v);
    }
}

impl FromBytes for Name {
    open spec fn spec_from_bytes(input: Seq<u8>) -> Parsed<Seq<u8>> {
        match section_head_error(input, 0x04) {
            Some(e) => Err(e),
            None => Ok((input.skip(4), input.len() as int)),
        }
    }

    fn from_bytes(input: &[u8]) -> (r: ParseResult<Name>) {
        if let Some(e) = check_section_head(input, 0x04) {
            return Err(e);
        }
        let name = copy_range(input, 4, input.len());
        assert(name@ =~= input@.skip(4));
        Ok((Name(name), input.len()))
    }
}

impl ToBytes for Name {
    open spec fn encodable(v: Seq<u8>) -> bool {
        true
    }

    open spec fn spec_to_bytes(v: Seq<u8>) -> Seq<u8> {
        section_head(0x04) + v
    }

    fn to_bytes(&self, buf: &mut Vec<u8>) -> (r: Result<(), EncodeError>) {
        write_section_head(buf, 0x04);
        write_slice(buf, self.0.as_slice());
        assert(buf@ =~= old(buf)@ + Self::spec_to_bytes(self@));
        Ok(())
    }
}

// ---------------------------------------------------------------------

/// Length in bytes of a status message in a friend record.
pub const STATUS_MSG_LEN: usize = 1007;

/// The section of one's own status message: the payload is the message, to
/// the end of the section.
#[derive(Clone, Debug, Default, Eq, PartialEq)]
pub struct StatusMsg(pub Vec<u8>);

impl View for StatusMsg {
    type V = Seq<u8>;

    open spec fn view(&self) -> Seq<u8> {
        self.0@
    }
}

impl StatusMsg {
    /// The section is read back from its bytes.
    pub proof fn lemma_round_trip(v: Seq<u8>)
        ensures
            Self::spec_from_bytes(Self::spec_to_bytes(v)) == Ok::<(Seq<u8>, int), ParseError>(
                (v, (v.len() + 4) as int),
            ),
            Self::spec_to_bytes(v).len() == v.len() + 4,
    {
        lemma_section_head(0x05, v);
        assert((section_head(0x05) + v).skip(4) =~= v);
    }
}

impl FromBytes for StatusMsg {
    open spec fn spec_from_bytes(input: Seq<u8>) -> Parsed<Seq<u8>> {
        match section_head_error(input, 0x05) {
            Some(e) => Err(e),
            None => Ok((input.skip(4), input.len() as int)),
        }
    }

    fn from_bytes(input: &[u8]) -> (r: ParseResult<StatusMsg>) {
        if let Some(e) = check_section_head(input, 0x05) {
            return Err(e);
        }
        let msg = copy_range(input, 4, input.len());
        assert(msg@ =~= input@.skip(4));
        Ok((StatusMsg(msg), input.len()))
    }
}

impl ToBytes for StatusMsg {
    open spec fn encodable(v: Seq<u8>) -> bool {
        true
    }

    open spec fn spec_to_bytes(v: Seq<u8>) -> Seq<u8> {
        section_head(0x05) + v
    }

    fn to_bytes(&self, buf: &mut Vec<u8>) -> (r: Result<(), EncodeError>) {
        write_section_head(buf, 0x05);
        write_slice(buf, self.0.as_slice());
        assert(buf@ =~= old(buf)@ + Self::spec_to_bytes(self@));
        Ok(())
    }
}

// ---------------------------------------------------------------------

/// User status. Used for both own and friend statuses.
#[derive(Clone, Copy, Debug, Eq, PartialEq, Structural)]
pub enum UserWorkingStatus {
    /// User is `Online`.
    Online,
    /// User is `Away`.
    Away,
    /// User is `Busy`.
    Busy,
}

impl Default for UserWorkingStatus {
    /// Returns `UserWorkingStatus::Online`.
    fn default() -> (status: UserWorkingStatus)
        ensures
            status == UserWorkingStatus::Online,
    {
        UserWorkingStatus::Online
    }
}

impl UserWorkingStatus {
    /// The byte that stands for the status: 0, 1 or 2.
    pub open spec fn spec_byte(self) -> u8 {
        match self {
            UserWorkingStatus::Online => 0,
            UserWorkingStatus::Away => 1,
            UserWorkingStatus::Busy => 2,
        }
    }

    /// The status that the byte `b` stands for, if it stands for one.
    pub open spec fn spec_from_byte(b: u8) -> Option<UserWorkingStatus> {
        if b == 0 {
            Some(UserWorkingStatus::Online)
        } else if b == 1 {
            Some(UserWorkingStatus::Away)
        } else if b == 2 {
            Some(UserWorkingStatus::Busy)
        } else {
            None
        }
    }

    /// Computes [`Self::spec_byte`].
    pub fn to_byte(self) -> (b: u8)
        ensures
            b == self.spec_byte(),
            Self::spec_from_byte(b) == Some(self),
    {
        match self {
            UserWorkingStatus::Online => 0,
            UserWorkingStatus::Away => 1,
            UserWorkingStatus::Busy => 2,
        }
    }

    /// Computes [`Self::spec_from_byte`].
    pub fn from_byte(b: u8) -> (status: Option<UserWorkingStatus>)
        ensures
            status == Self::spec_from_byte(b),
    {
        if b == 0 {
            Some(UserWorkingStatus::Online)
        } else if b == 1 {
            Some(UserWorkingStatus::Away)
        } else if b == 2 {
            Some(UserWorkingStatus::Busy)
        } else {
            None
        }
    }
}

/// Length in bytes of the payload of a [`UserStatus`] section.
pub const USER_STATUS_LEN: usize = 1;

/// The section of one's own user status: the payload is one byte, 0, 1 or 2.
#[derive(Clone, Copy, Debug, Eq, PartialEq)]
pub struct UserStatus(pub UserWorkingStatus);

impl Default for UserStatus {
    /// The status `Online`.
    fn default() -> (status: UserStatus)
        ensures
            status == UserStatus(UserWorkingStatus::Online),
    {
        UserStatus(UserWorkingStatus::Online)
    }
}

impl View for UserStatus {
    type V = UserStatus;

    open spec fn view(&self) -> UserStatus {
        *self
    }
}

impl UserStatus {
    /// The section is read back from its bytes, whatever follows them.
    pub proof fn lemma_round_trip(self, rest: Seq<u8>)
        ensures
            Self::spec_from_bytes(Self::spec_to_bytes(self) + rest) == Ok::<
                (UserStatus, int),
                ParseError,
            >((self, 5)),
            Self::spec_to_bytes(self).len() == 5,
    {
        let b = Self::spec_to_bytes(self) + rest;
        assert(b =~= section_head(0x06) + (seq![self.0.spec_byte()] + rest));
        lemma_section_head(0x06, seq![self.0.spec_byte()] + rest);
    }
}

impl FromBytes for UserStatus {
    open spec fn spec_from_bytes(input: Seq<u8>) -> Parsed<UserStatus> {
        match section_head_error(input, 0x06) {
            Some(e) => Err(e),
            None => if input.len() < 5 {
                Err(ParseError::Incomplete(needed(5)))
            } else {
                match UserWorkingStatus::spec_from_byte(input[4]) {
                    Some(status) => Ok((UserStatus(status), 5)),
                    None => Err(ParseError::Error(ErrorKind::Switch)),
                }
            },
        }
    }

    fn from_bytes(input: &[u8]) -> (r: ParseResult<UserStatus>) {
        if let Some(e) = check_section_head(input, 0x06) {
            return Err(e);
        }
        if input.len() < 5 {
            return Err(ParseError::Incomplete(Needed::Size(5)));
        }
        match UserWorkingStatus::from_byte(input[4]) {
            Some(status) => Ok((UserStatus(status), 5)),
            None => Err(ParseError::Error(ErrorKind::Switch)),
        }
    }
}

impl ToBytes for UserStatus {
    open spec fn encodable(v: UserStatus) -> bool {
        true
    }

    open spec fn spec_to_bytes(v: UserStatus) -> Seq<u8> {
        section_head(0x06) + seq![v.0.spec_byte()]
    }

    fn to_bytes(&self, buf: &mut Vec<u8>) -> (r: Result<(), EncodeError>) {
        write_section_head(buf, 0x06);
        buf.push(self.0.to_byte());
        assert(buf@ =~= old(buf)@ + Self::spec_to_bytes(*self));
        Ok(())
    }
}

// ---------------------------------------------------------------------

/// The section that ends a state file. It has no payload.
#[derive(Clone, Copy, Debug, Default, Eq, PartialEq)]
pub struct Eof;

impl View for Eof {
    type V = Eof;

    open spec fn view(&self) -> Eof {
        *self
    }
}

impl Eof {
    /// The section is read back from its bytes, whatever follows them.
    pub proof fn lemma_round_trip(self, rest: Seq<u8>)
        ensures
            Self::spec_from_bytes(Self::spec_to_bytes(self) + rest) == Ok::<(Eof, int), ParseError>(
                (self, 4),
            ),
            Self::spec_to_bytes(self).len() == 4,
    {
        lemma_section_head(0xff, rest);
    }
}

impl FromBytes for Eof {
    open spec fn spec_from_bytes(input: Seq<u8>) -> Parsed<Eof> {
        match section_head_error(input, 0xff) {
            Some(e) => Err(e),
            None => Ok((Eof, 4)),
        }
    }

    fn from_bytes(input: &[u8]) -> (r: ParseResult<Eof>) {
        if let Some(e) = check_section_head(input, 0xff) {
            return Err(e);
        }
        Ok((Eof, 4))
    }
}

impl ToBytes for Eof {
    open spec fn encodable(v: Eof) -> bool {
        true
    }

    open spec fn spec_to_bytes(v: Eof) -> Seq<u8> {
        section_head(0xff)
    }

    fn to_bytes(&self, buf: &mut Vec<u8>) -> (r: Result<(), EncodeError>) {
        write_section_head(buf, 0xff);
        Ok(())
    }
}

} // verus!
