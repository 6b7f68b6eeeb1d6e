//! Keys and nonces as plain bytes, and the random draws the library makes.

use vstd::prelude::*;
use vstd::std_specs::cmp::PartialEqSpecImpl;

verus! {

/// Number of bytes of a [`PublicKey`].
pub const PUBLICKEYBYTES: usize = 32;

/// Number of bytes of a [`SecretKey`].
pub const SECRETKEYBYTES: usize = 32;

/// Number of bytes of a [`Nonce`].
pub const NONCEBYTES: usize = 24;

/// Whether two byte strings hold the same bytes.
pub fn same_bytes(a: &[u8], b: &[u8]) -> (same: bool)
    ensures
        same == (a@ == b@),
{
    if a.len() != b.len() {
        return false;
    }
    let mut i: usize = 0;
    while i < a.len()
        invariant
            i <= a@.len(),
            a@.len() == b@.len(),
            forall|k: int| 0 <= k < i ==> a@[k] == b@[k],
        decreases a@.len() - i,
    {
        if a[i] != b[i] {
            return false;
        }
        i += 1;
    }
    assert(a@ =~= b@);
    true
}

/// The identity of a peer: 32 opaque bytes, compared byte by byte.
#[derive(Clone, Copy, Debug)]
pub struct PublicKey(pub [u8; 32]);

impl PartialEq for PublicKey {
    fn eq(&self, other: &PublicKey) -> (same: bool) {
        let same = same_bytes(self.0.as_slice(), other.0.as_slice());
        proof {
            if same {
                assert(self.0 =~= other.0);
            }
        }
        same
    }
}

impl Eq for PublicKey {}

impl View for PublicKey {
    type V = PublicKey;

    open spec fn view(&self) -> PublicKey {
        *self
    }
}

impl PartialEqSpecImpl for PublicKey {
    open spec fn obeys_eq_spec() -> bool {
        true
    }

    open spec fn eq_spec(&self, other: &PublicKey) -> bool {
        *self == *other
    }
}

/// The array that holds the bytes `s`.
pub open spec fn array_of<const N: usize>(s: Seq<u8>) -> [u8; N] {
    choose|a: [u8; N]| a@ == s
}

/// An array is the array that holds its bytes.
pub proof fn lemma_array_of<const N: usize>(a: [u8; N])
    ensures
        array_of::<N>(a@) == a,
{
    let b = array_of::<N>(a@);
    assert(b@ == a@);
    assert(b =~= a);
}

/// A secret key: 32 opaque bytes.
#[derive(Clone, Copy, Debug, PartialEq, Eq)]
pub struct SecretKey(pub [u8; 32]);

/// A nonce: 24 opaque bytes.
#[derive(Clone, Copy, Debug, PartialEq, Eq)]
pub struct Nonce(pub [u8; 24]);

/// The four bytes of `input` at `pos`.
pub fn read_array4(input: &[u8], pos: usize) -> (out: [u8; 4])
    requires
        pos + 4 <= input@.len(),
    ensures
        out@ == input@.subrange(pos as int, pos + 4),
{
    let out = [input[pos], input[pos + 1], input[pos + 2], input[pos + 3]];
    assert(out@ =~= input@.subrange(pos as int, pos + 4));
    out
}

/// The sixteen bytes of `input` at `pos`.
pub fn read_array16(input: &[u8], pos: usize) -> (out: [u8; 16])
    requires
        pos + 16 <= input@.len(),
    ensures
        out@ == input@.subrange(pos as int, pos + 16),
{
    let len = input.len();
    let mut out = [0u8; 16];
    let mut i: usize = 0;
    while i < 16
        invariant
            i <= 16,
            pos + 16 <= input@.len() <= usize::MAX,
            forall|k: int| 0 <= k < i ==> out@[k] == input@[pos + k],
        decreases 16 - i,
    {
        out[i] = input[pos + i];
        i += 1;
    }
    assert(out@ =~= input@.subrange(pos as int, pos + 16));
    out
}

/// The thirty-two bytes of `input` at `pos`.
pub fn read_array32(input: &[u8], pos: usize) -> (out: [u8; 32])
    requires
        pos + 32 <= input@.len(),
    ensures
        out@ == input@.subrange(pos as int, pos + 32),
{
    let len = input.len();
    let mut out = [0u8; 32];
    let mut i: usize = 0;
    while i < 32
        invariant
            i <= 32,
            pos + 32 <= input@.len() <= usize::MAX,
            forall|k: int| 0 <= k < i ==> out@[k] == input@[pos + k],
        decreases 32 - i,
    {
        out[i] = input[pos + i];
        i += 1;
    }
    assert(out@ =~= input@.subrange(pos as int, pos + 32));
    out
}

/// Draws 64 random bits by `rand::random::<u64>()`, which reads the
/// generator of the calling thread. Nothing is claimed of the value drawn.
/// `rand` panics in three places on the way, none of which an argument
/// selects: where the system has no randomness to seed the generator of a
/// thread with on its first draw, where it has none when the generator is
/// seeded anew after it gave out its share of bytes or after a fork, and
/// where the system refuses the handler that tells the generator of a fork.
#[verifier::external_body]
pub(crate) fn random_u64() -> u64 {
    rand::random::<u64>()
}

/// The id of a ping that the draw `draw` gives: the draw itself, and 1 in
/// place of 0, which is no id.
pub fn nonzero_ping_id(draw: u64) -> (id: u64)
    ensures
        id != 0,
        id == if draw == 0 {
            1
        } else {
            draw
        },
{
    if draw == 0 {
        1
    } else {
        draw
    }
}

/// A random id for a ping; never 0.
pub fn gen_ping_id() -> (id: u64)
    ensures
        id != 0,
{
    nonzero_ping_id(random_u64())
}

} // verus!
