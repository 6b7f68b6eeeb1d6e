//! The Tox ID: a long-term public key, a `NoSpam` and their checksum.

use vstd::prelude::*;
use crate::toxcore::crypto_core::{random_u64, PublicKey, PUBLICKEYBYTES};

verus! {

/// Number of bytes that a [`NoSpam`] has.
pub const NOSPAMBYTES: usize = 4;

/// Number of bytes of a serialized [`ToxId`].
pub const TOXIDBYTES: usize = PUBLICKEYBYTES + NOSPAMBYTES + 2;

/// The number that tells friend requests from peers who know the whole Tox ID
/// from those of peers who only know the long-term public key.
#[derive(Clone, Copy, Debug, Eq, PartialEq)]
pub struct NoSpam(pub [u8; 4]);

impl View for NoSpam {
    type V = NoSpam;

    open spec fn view(&self) -> NoSpam {
        *self
    }
}

impl core::ops::Deref for NoSpam {
    type Target = [u8; 4];

    /// The four bytes of the `NoSpam`.
    fn deref(&self) -> (bytes: &[u8; 4])
        ensures
            *bytes == self.0,
    {
        &self.0
    }
}

/// The upper-case hexadecimal digit for `n`, which is under 16.
pub open spec fn hex_digit(n: u8) -> char {
    if n < 10 {
        (48 + n) as char
    } else {
        (55 + n) as char
    }
}

/// The bytes `bytes` in upper-case hexadecimal digits, two for each byte.
pub open spec fn spec_hex(bytes: Seq<u8>) -> Seq<char> {
    Seq::new(
        2 * bytes.len(),
        |i: int|
            if i % 2 == 0 {
                hex_digit(bytes[i / 2] / 16)
            } else {
                hex_digit(bytes[i / 2] % 16)
            },
    )
}

/// Writes four bytes with `format!` and `{:02X}` for each, which std gives
/// as two upper-case hexadecimal digits, the high one first.
#[verifier::external_body]
fn format_upper_hex(bytes: &[u8; 4]) -> (text: String)
    ensures
        text@ == spec_hex(bytes@),
{
    format!("{:02X}{:02X}{:02X}{:02X}", bytes[0], bytes[1], bytes[2], bytes[3])
}

impl NoSpam {
    /// The `NoSpam` as text: eight upper-case hexadecimal digits.
    pub fn to_hex(&self) -> (text: String)
        ensures
            text@ == spec_hex(self.0@),
    {
        format_upper_hex(&self.0)
    }

    /// A `NoSpam` of random bytes.
    pub fn new() -> NoSpam {
        NoSpam::from_draw(random_u64())
    }

    /// The `NoSpam` made of the four low bytes of `draw`, lowest first.
    pub fn from_draw(draw: u64) -> (nospam: NoSpam)
        ensures
            nospam.0@ == seq![
                (draw % 256) as u8,
                (draw / 256 % 256) as u8,
                (draw / 65536 % 256) as u8,
                (draw / 16777216 % 256) as u8,
            ],
    {
        let bytes = [
            (draw % 256) as u8,
            (draw / 256 % 256) as u8,
            (draw / 65536 % 256) as u8,
            (draw / 16777216 % 256) as u8,
        ];
        assert(bytes@ =~= seq![
            (draw % 256) as u8,
            (draw / 256 % 256) as u8,
            (draw / 65536 % 256) as u8,
            (draw / 16777216 % 256) as u8,
        ]);
        NoSpam(bytes)
    }

    /// The `NoSpam` that the first four bytes of `bytes` hold, if there are
    /// four.
    pub fn from_bytes(bytes: &[u8]) -> (nospam: Option<NoSpam>)
        ensures
            bytes@.len() < 4 ==> nospam is None,
            bytes@.len() >= 4 ==> (nospam matches Some(found) && found.0@ == bytes@.take(4)),
    {
        if bytes.len() < NOSPAMBYTES {
            return None;
        }
        let out = [bytes[0], bytes[1], bytes[2], bytes[3]];
        assert(out@ =~= bytes@.take(4));
        Some(NoSpam(out))
    }
}

/// The checksum of the pairs of `bytes`: its first byte is the XOR of the
/// bytes at even places, its second byte the XOR of those at odd places.
pub open spec fn xor_pairs(bytes: Seq<u8>) -> (u8, u8)
    decreases bytes.len(),
{
    if bytes.len() < 2 {
        (0u8, 0u8)
    } else {
        let (even, odd) = xor_pairs(bytes.take(bytes.len() - 2));
        (even ^ bytes[bytes.len() - 2], odd ^ bytes[bytes.len() - 1])
    }
}

/// The checksum of a public key and a `NoSpam`.
pub open spec fn spec_checksum(pk: PublicKey, nospam: NoSpam) -> Seq<u8> {
    let (even, odd) = xor_pairs(pk.0@ + nospam.0@);
    seq![even, odd]
}

/// What a [`ToxId`] holds.
pub struct ToxIdView {
    /// The long-term public key.
    pub pk: PublicKey,
    /// The `NoSpam`.
    pub nospam: NoSpam,
    /// The checksum.
    pub checksum: Seq<u8>,
}

/// `Tox ID`.
///
/// Length | Contents
/// ------ | --------
/// 32     | long term PublicKey
/// 4      | NoSpam
/// 2      | Checksum
#[derive(Clone, Copy, Debug, Eq, PartialEq)]
pub struct ToxId {
    /// Long-term `PublicKey`.
    pub pk: PublicKey,
    /// `NoSpam`.
    nospam: NoSpam,
    checksum: [u8; 2],
}

impl View for ToxId {
    type V = ToxIdView;

    closed spec fn view(&self) -> ToxIdView {
        ToxIdView { pk: self.pk, nospam: self.nospam, checksum: self.checksum@ }
    }
}

impl ToxId {
    /// Whether the checksum is that of the key and the `NoSpam`. Every
    /// `ToxId` that this module makes is valid.
    pub open spec fn valid(&self) -> bool {
        self@.checksum == spec_checksum(self@.pk, self@.nospam)
    }

    /// Checksum of `PublicKey` and `NoSpam`.
    pub fn checksum(pk: &PublicKey, nospam: &NoSpam) -> (sum: [u8; 2])
        ensures
            sum@ == spec_checksum(*pk, *nospam),
    {
        let mut bytes: Vec<u8> = Vec::with_capacity(TOXIDBYTES - 2);
        bytes.extend_from_slice(pk.0.as_slice());
        bytes.extend_from_slice(nospam.0.as_slice());
        assert(bytes@ =~= pk.0@ + nospam.0@);
        let mut even: u8 = 0;
        let mut odd: u8 = 0;
        let mut i: usize = 0;
        assert(bytes@.take(0).len() == 0);
        while i < 36
            invariant
                i <= 36,
                i % 2 == 0,
                bytes@.len() == 36,
                (even, odd) == xor_pairs(bytes@.take(i as int)),
            decreases 36 - i,
        {
            even = even ^ bytes[i];
            odd = odd ^ bytes[i + 1];
            i += 2;
            assert(bytes@.take(i as int).take(i - 2) =~= bytes@.take(i - 2));
        }
        assert(bytes@.take(36) =~= bytes@);
        let sum = [even, odd];
        assert(sum@ =~= spec_checksum(*pk, *nospam));
        sum
    }

    /// The `ToxId` of the key `pk` with the `NoSpam` `nospam`.
    pub fn with_nospam(pk: PublicKey, nospam: NoSpam) -> (id: ToxId)
        ensures
            id@.pk == pk,
            id@.nospam == nospam,
            id.valid(),
    {
        ToxId { pk, nospam, checksum: Self::checksum(&pk, &nospam) }
    }

    /// Create new `ToxId` with a random `NoSpam`.
    pub fn new(pk: PublicKey) -> (id: ToxId)
        ensures
            id@.pk == pk,
            id.valid(),
    {
        Self::with_nospam(pk, NoSpam::new())
    }

    /// Change `NoSpam`. If provided, change to provided value. If not
    /// provided (`None`), generate random `NoSpam`. The key stays and the
    /// checksum follows.
    pub fn new_nospam(&mut self, nospam: Option<NoSpam>)
        ensures
            final(self)@.pk == old(self)@.pk,
            nospam matches Some(given) ==> final(self)@.nospam == given,
            final(self).valid(),
    {
        if let Some(nospam) = nospam {
            self.nospam = nospam;
        } else {
            self.nospam = NoSpam::new();
        }
        self.checksum = Self::checksum(&self.pk, &self.nospam);
    }
}

} // verus!
