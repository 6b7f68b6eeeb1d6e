//! Reading and writing the integers, tags and repeated items that every
//! binary layout of the library is made of.
//!
//! A parser looks at a byte string from its first byte on and either is done
//! with a value after some number of bytes, or needs more bytes than there
//! are, or finds bytes that cannot stand where they stand. Parsers in a row
//! add what the earlier ones used to what a later one needs, so the size an
//! incomplete parse reports counts from the start of the whole input.

use vstd::prelude::*;

verus! {

/// How many bytes a parser was short of.
#[derive(Clone, Copy, Debug, PartialEq, Eq, Structural)]
pub enum Needed {
    /// More bytes, in a number that does not fit a `usize`.
    Unknown,
    /// The input must be at least this long for the parse to go on.
    Size(usize),
}

/// Which rule the bytes broke.
#[derive(Clone, Copy, Debug, PartialEq, Eq, Structural)]
pub enum ErrorKind {
    /// Fixed bytes were expected and others were found.
    Tag,
    /// A number was read that is out of its range.
    Verify,
    /// A selector byte has a value that selects nothing.
    Switch,
    /// None of the alternatives accepts the bytes.
    Alt,
}

/// Why a parse gave no value.
#[derive(Clone, Copy, Debug, PartialEq, Eq, Structural)]
pub enum ParseError {
    /// The input ended too early.
    Incomplete(Needed),
    /// The input cannot be what the parser reads.
    Error(ErrorKind),
}

/// Why a value has no encoding.
#[derive(Clone, Copy, Debug, PartialEq, Eq, Structural)]
pub enum EncodeError {
    /// A byte string or a list is longer than its length field can say.
    TooLong,
}

/// What a parse of a byte string comes to: the value and the number of bytes
/// it took, or the reason there is none.
pub type Parsed<V> = Result<(V, int), ParseError>;

/// What an executable parser hands back.
pub type ParseResult<T> = Result<(T, usize), ParseError>;

/// The size `n` as a parser reports it.
pub open spec fn needed(n: int) -> Needed {
    if 0 <= n <= usize::MAX {
        Needed::Size(n as usize)
    } else {
        Needed::Unknown
    }
}

/// The error `e` of a parser that started `by` bytes into the input, as the
/// parser of the whole input reports it.
pub open spec fn shifted(e: ParseError, by: int) -> ParseError {
    match e {
        ParseError::Incomplete(Needed::Size(n)) => ParseError::Incomplete(needed(n + by)),
        _ => e,
    }
}

/// The result `p` of a parser that started `by` bytes into the input, as the
/// parser of the whole input reports it.
pub open spec fn after<V>(by: int, p: Parsed<V>) -> Parsed<V> {
    match p {
        Ok((v, n)) => Ok((v, n + by)),
        Err(e) => Err(shifted(e, by)),
    }
}

/// Whether an executable result says what the specification says.
pub open spec fn agrees<T: View>(r: ParseResult<T>, p: Parsed<T::V>) -> bool {
    match r {
        Ok((v, n)) => p == Ok::<(T::V, int), ParseError>((v@, n as int)),
        Err(e) => p == Err::<(T::V, int), ParseError>(e),
    }
}

/// Computes [`shifted`].
pub fn shift_error(e: ParseError, by: usize) -> (r: ParseError)
    ensures
        r == shifted(e, by as int),
{
    match e {
        ParseError::Incomplete(Needed::Size(n)) => match n.checked_add(by) {
            Some(total) => ParseError::Incomplete(Needed::Size(total)),
            None => ParseError::Incomplete(Needed::Unknown),
        },
        _ => e,
    }
}

/// A value that can be read from bytes.
pub trait FromBytes: View + Sized {
    /// What the bytes `input` hold, read from their start.
    spec fn spec_from_bytes(input: Seq<u8>) -> Parsed<Self::V>;

    /// Reads a value from the start of `input`; gives it with the number of
    /// bytes read.
    fn from_bytes(input: &[u8]) -> (r: ParseResult<Self>)
        ensures
            agrees(r, Self::spec_from_bytes(input@)),
            r matches Ok((_, n)) ==> n <= input@.len(),
    ;
}

/// A value that can be written as bytes.
pub trait ToBytes: View {
    /// Whether the value has an encoding.
    spec fn encodable(v: Self::V) -> bool;

    /// The encoding of a value that has one.
    spec fn spec_to_bytes(v: Self::V) -> Seq<u8>;

    /// Appends the encoding of `self` to `buf`, or leaves `buf` as it is
    /// where there is none.
    fn to_bytes(&self, buf: &mut Vec<u8>) -> (r: Result<(), EncodeError>)
        ensures
            r is Ok <==> Self::encodable(self@),
            r is Ok ==> final(buf)@ == old(buf)@ + Self::spec_to_bytes(self@),
            r is Err ==> final(buf)@ == old(buf)@,
            r matches Err(e) ==> e == EncodeError::TooLong,
    ;
}

/// The views of the items of a list, in order.
pub open spec fn views<T: View>(items: Seq<T>) -> Seq<T::V> {
    items.map_values(|t: T| t@)
}


/// The number that two bytes hold, low byte first.
pub open spec fn le_u16(b: Seq<u8>) -> int
    recommends
        b.len() >= 2,
{
    b[0] + 256 * b[1]
}

/// The number that two bytes hold, high byte first.
pub open spec fn be_u16(b: Seq<u8>) -> int
    recommends
        b.len() >= 2,
{
    256 * b[0] + b[1]
}

/// The number that four bytes hold, low byte first.
pub open spec fn le_u32(b: Seq<u8>) -> int
    recommends
        b.len() >= 4,
{
    b[0] + 256 * b[1] + 65536 * b[2] + 16777216 * b[3]
}

/// The number that eight bytes hold, low byte first.
pub open spec fn le_u64(b: Seq<u8>) -> int
    recommends
        b.len() >= 8,
{
    le_u32(b) + 4294967296 * le_u32(b.skip(4))
}

/// The two bytes of `x`, low byte first.
pub open spec fn le_u16_bytes(x: u16) -> Seq<u8> {
    seq![(x % 256) as u8, (x / 256) as u8]
}

/// The two bytes of `x`, high byte first.
pub open spec fn be_u16_bytes(x: u16) -> Seq<u8> {
    seq![(x / 256) as u8, (x % 256) as u8]
}

/// The four bytes of `x`, low byte first.
pub open spec fn le_u32_bytes(x: u32) -> Seq<u8> {
    seq![
        (x % 256) as u8,
        (x / 256 % 256) as u8,
        (x / 256 / 256 % 256) as u8,
        (x / 256 / 256 / 256) as u8,
    ]
}

/// The eight bytes of `x`, low byte first.
pub open spec fn le_u64_bytes(x: u64) -> Seq<u8> {
    le_u32_bytes((x % 4294967296) as u32) + le_u32_bytes((x / 4294967296) as u32)
}

/// Reading back two written bytes gives the number, whatever follows them.
pub proof fn lemma_u16_round_trip(x: u16, rest: Seq<u8>)
    ensures
        le_u16(le_u16_bytes(x) + rest) == x,
        be_u16(be_u16_bytes(x) + rest) == x,
{
}

/// Reading back four written bytes gives the number, whatever follows them.
pub proof fn lemma_u32_round_trip(x: u32, rest: Seq<u8>)
    ensures
        le_u32(le_u32_bytes(x) + rest) == x,
{
    let q1 = x / 256;
    let q2 = q1 / 256;
    let q3 = q2 / 256;
    assert(x == 256 * q1 + x % 256);
    assert(q1 == 256 * q2 + q1 % 256);
    assert(q2 == 256 * q3 + q2 % 256);
    assert(q3 < 256);
    let b = le_u32_bytes(x) + rest;
    assert(b[0] == x % 256 && b[1] == q1 % 256 && b[2] == q2 % 256 && b[3] == q3);
}

/// Reading back eight written bytes gives the number, whatever follows them.
pub proof fn lemma_u64_round_trip(x: u64, rest: Seq<u8>)
    ensures
        le_u64(le_u64_bytes(x) + rest) == x,
{
    let lo = (x % 4294967296) as u32;
    let hi = (x / 4294967296) as u32;
    let b = le_u64_bytes(x) + rest;
    assert(b =~= le_u32_bytes(lo) + (le_u32_bytes(hi) + rest));
    assert(b.skip(4) =~= le_u32_bytes(hi) + rest);
    lemma_u32_round_trip(lo, le_u32_bytes(hi) + rest);
    lemma_u32_round_trip(hi, rest);
}

/// A number that stands at `at` in `b`, low byte first, is read from there.
pub proof fn lemma_le_at(b: Seq<u8>, at: int, x16: u16, x32: u32, x64: u64)
    requires
        0 <= at <= b.len(),
    ensures
        at + 2 <= b.len() && b.subrange(at, at + 2) == le_u16_bytes(x16) ==> le_u16(b.skip(at))
            == x16,
        at + 4 <= b.len() && b.subrange(at, at + 4) == le_u32_bytes(x32) ==> le_u32(b.skip(at))
            == x32,
        at + 8 <= b.len() && b.subrange(at, at + 8) == le_u64_bytes(x64) ==> le_u64(b.skip(at))
            == x64,
{
    if at + 2 <= b.len() && b.subrange(at, at + 2) == le_u16_bytes(x16) {
        assert(b.skip(at) =~= b.subrange(at, at + 2) + b.skip(at + 2));
        lemma_u16_round_trip(x16, b.skip(at + 2));
    }
    if at + 4 <= b.len() && b.subrange(at, at + 4) == le_u32_bytes(x32) {
        assert(b.skip(at) =~= b.subrange(at, at + 4) + b.skip(at + 4));
        lemma_u32_round_trip(x32, b.skip(at + 4));
    }
    if at + 8 <= b.len() && b.subrange(at, at + 8) == le_u64_bytes(x64) {
        assert(b.skip(at) =~= b.subrange(at, at + 8) + b.skip(at + 8));
        lemma_u64_round_trip(x64, b.skip(at + 8));
    }
}

/// A number that stands at `at` in `b`, high byte first, is read from there.
pub proof fn lemma_be_at(b: Seq<u8>, at: int, x: u16)
    requires
        0 <= at,
        at + 2 <= b.len(),
        b.subrange(at, at + 2) == be_u16_bytes(x),
    ensures
        be_u16(b.skip(at)) == x,
{
    assert(b.skip(at) =~= b.subrange(at, at + 2) + b.skip(at + 2));
    lemma_u16_round_trip(x, b.skip(at + 2));
}

/// Reads two bytes at `pos`, low byte first.
pub fn read_le_u16(input: &[u8], pos: usize) -> (x: u16)
    requires
        pos + 2 <= input@.len(),
    ensures
        x == le_u16(input@.skip(pos as int)),
{
    (input[pos] as u16) + 256 * (input[pos + 1] as u16)
}

/// Reads two bytes at `pos`, high byte first.
pub fn read_be_u16(input: &[u8], pos: usize) -> (x: u16)
    requires
        pos + 2 <= input@.len(),
    ensures
        x == be_u16(input@.skip(pos as int)),
{
    256 * (input[pos] as u16) + (input[pos + 1] as u16)
}

/// Reads four bytes at `pos`, low byte first.
pub fn read_le_u32(input: &[u8], pos: usize) -> (x: u32)
    requires
        pos + 4 <= input@.len(),
    ensures
        x == le_u32(input@.skip(pos as int)),
{
    (input[pos] as u32) + 256 * (input[pos + 1] as u32) + 65536 * (input[pos + 2] as u32)
        + 16777216 * (input[pos + 3] as u32)
}

/// Reads eight bytes at `pos`, low byte first.
pub fn read_le_u64(input: &[u8], pos: usize) -> (x: u64)
    requires
        pos + 8 <= input@.len(),
    ensures
        x == le_u64(input@.skip(pos as int)),
{
    let len = input.len();
    let lo = read_le_u32(input, pos);
    let hi = read_le_u32(input, pos + 4);
    assert(input@.skip(pos as int).skip(4) =~= input@.skip(pos + 4));
    (lo as u64) + 4294967296 * (hi as u64)
}

/// Appends the two bytes of `x`, low byte first.
pub fn write_le_u16(buf: &mut Vec<u8>, x: u16)
    ensures
        final(buf)@ == old(buf)@ + le_u16_bytes(x),
{
    buf.push((x % 256) as u8);
    buf.push((x / 256) as u8);
    assert(buf@ =~= old(buf)@ + le_u16_bytes(x));
}

/// Appends the two bytes of `x`, high byte first.
pub fn write_be_u16(buf: &mut Vec<u8>, x: u16)
    ensures
        final(buf)@ == old(buf)@ + be_u16_bytes(x),
{
    buf.push((x / 256) as u8);
    buf.push((x % 256) as u8);
    assert(buf@ =~= old(buf)@ + be_u16_bytes(x));
}

/// Appends the four bytes of `x`, low byte first.
pub fn write_le_u32(buf: &mut Vec<u8>, x: u32)
    ensures
        final(buf)@ == old(buf)@ + le_u32_bytes(x),
{
    buf.push((x % 256) as u8);
    buf.push((x / 256 % 256) as u8);
    buf.push((x / 256 / 256 % 256) as u8);
    buf.push((x / 256 / 256 / 256) as u8);
    assert(buf@ =~= old(buf)@ + le_u32_bytes(x));
}

/// Appends the eight bytes of `x`, low byte first.
pub fn write_le_u64(buf: &mut Vec<u8>, x: u64)
    ensures
        final(buf)@ == old(buf)@ + le_u64_bytes(x),
{
    write_le_u32(buf, (x % 4294967296) as u32);
    write_le_u32(buf, (x / 4294967296) as u32);
    assert(buf@ =~= old(buf)@ + le_u64_bytes(x));
}

/// Appends `bytes`.
pub fn write_slice(buf: &mut Vec<u8>, bytes: &[u8])
    ensures
        final(buf)@ == old(buf)@ + bytes@,
{
    buf.extend_from_slice(bytes);
}

/// Appends `n` zero bytes.
pub fn write_zeros(buf: &mut Vec<u8>, n: usize)
    ensures
        final(buf)@ == old(buf)@ + Seq::new(n as nat, |i: int| 0u8),
{
    let mut i: usize = 0;
    while i < n
        invariant
            i <= n,
            buf@ == old(buf)@ + Seq::new(i as nat, |k: int| 0u8),
        decreases n - i,
    {
        buf.push(0);
        i += 1;
        assert(buf@ =~= old(buf)@ + Seq::new(i as nat, |k: int| 0u8));
    }
}

/// What is wrong with `b` where the fixed bytes `tag` are expected at its
/// start, if anything: bytes that differ from the tag come before a short
/// input.
pub open spec fn tag_error(b: Seq<u8>, tag: Seq<u8>) -> Option<ParseError> {
    let m = if b.len() < tag.len() {
        b.len() as int
    } else {
        tag.len() as int
    };
    if b.take(m) != tag.take(m) {
        Some(ParseError::Error(ErrorKind::Tag))
    } else if m < tag.len() {
        Some(ParseError::Incomplete(needed(tag.len() as int)))
    } else {
        None
    }
}

/// Compares the bytes of `input` from `pos` on with `tag`.
pub fn check_tag(input: &[u8], pos: usize, tag: &[u8]) -> (e: Option<ParseError>)
    requires
        pos <= input@.len(),
    ensures
        e == tag_error(input@.skip(pos as int), tag@),
        e is None ==> pos + tag@.len() <= input@.len(),
{
    let avail = input.len() - pos;
    let m = if avail < tag.len() {
        avail
    } else {
        tag.len()
    };
    let ghost b = input@.skip(pos as int);
    let mut i: usize = 0;
    while i < m
        invariant
            i <= m,
            m <= tag@.len(),
            pos + m <= input@.len() <= usize::MAX,
            b == input@.skip(pos as int),
            forall|k: int| 0 <= k < i ==> b[k] == tag@[k],
        decreases m - i,
    {
        if input[pos + i] != tag[i] {
            assert(b.take(m as int)[i as int] != tag@.take(m as int)[i as int]);
            return Some(ParseError::Error(ErrorKind::Tag));
        }
        i += 1;
    }
    assert(b.take(m as int) =~= tag@.take(m as int));
    if m < tag.len() {
        Some(ParseError::Incomplete(Needed::Size(tag.len())))
    } else {
        None
    }
}

/// A copy of the bytes of `input` from `from` up to `to`.
pub fn copy_range(input: &[u8], from: usize, to: usize) -> (out: Vec<u8>)
    requires
        from <= to <= input@.len(),
    ensures
        out@ == input@.subrange(from as int, to as int),
{
    let mut out: Vec<u8> = Vec::new();
    let mut i: usize = from;
    while i < to
        invariant
            from <= i <= to <= input@.len(),
            out@ == input@.subrange(from as int, i as int),
        decreases to - i,
    {
        out.push(input[i]);
        i += 1;
        assert(out@ =~= input@.subrange(from as int, i as int));
    }
    out
}

// ---------------------------------------------------------------------
// Lists

/// A value that stands in lists: written one after another, and read back
/// one after another.
pub trait Item: ToBytes + Sized {
    /// What the bytes `input` hold, read from their start, where a list item
    /// is expected.
    spec fn spec_item(input: Seq<u8>) -> Parsed<Self::V>;

    /// Reads one list item from the start of `input`; gives it with the
    /// number of bytes read, which is never zero.
    fn read_item(input: &[u8]) -> (r: ParseResult<Self>)
        ensures
            agrees(r, Self::spec_item(input@)),
            r matches Ok((_, n)) ==> 0 < n <= input@.len(),
    ;

    /// An item is read back from its bytes, whatever follows them.
    proof fn lemma_item_round_trip(v: Self::V, rest: Seq<u8>)
        requires
            Self::encodable(v),
        ensures
            Self::spec_to_bytes(v).len() > 0,
            Self::spec_item(Self::spec_to_bytes(v) + rest) == Ok::<(Self::V, int), ParseError>(
                (v, Self::spec_to_bytes(v).len() as int),
            ),
    ;
}

/// The items read from `b` one after another. Reading stops at the end of
/// the input and before bytes that are rejected as an item, which stay
/// unread; it fails where an item finds the input short.
pub open spec fn many0<T: Item>(b: Seq<u8>) -> Parsed<Seq<T::V>>
    decreases b.len(),
{
    if b.len() == 0 {
        Ok((Seq::empty(), 0))
    } else {
        match T::spec_item(b) {
            Err(ParseError::Error(_)) => Ok((Seq::empty(), 0)),
            Err(e) => Err(e),
            Ok((v, n)) => if 0 < n <= b.len() {
                after(n, with_front(seq![v], many0::<T>(b.skip(n))))
            } else {
                Ok((Seq::empty(), 0))
            },
        }
    }
}

/// The list that `p` gives, with the items `vs` put in front of it.
pub open spec fn with_front<V>(vs: Seq<V>, p: Parsed<Seq<V>>) -> Parsed<Seq<V>> {
    match p {
        Ok((ws, n)) => Ok((vs + ws, n)),
        Err(e) => Err(e),
    }
}

/// The encodings of `items`, one after another.
pub open spec fn concat<T: ToBytes>(items: Seq<T::V>) -> Seq<u8>
    decreases items.len(),
{
    if items.len() == 0 {
        Seq::empty()
    } else {
        concat::<T>(items.drop_last()) + T::spec_to_bytes(items.last())
    }
}

/// Whether every item of the list has an encoding.
pub open spec fn all_encodable<T: ToBytes>(items: Seq<T::V>) -> bool {
    forall|i: int| 0 <= i < items.len() ==> T::encodable(#[trigger] items[i])
}

/// Shifting an error twice is shifting it once by the sum.
pub proof fn lemma_shifted_twice(e: ParseError, a: int, b: int)
    requires
        0 <= a,
        0 <= b,
    ensures
        shifted(shifted(e, a), b) == shifted(e, a + b),
{
}

/// One more item read: what [`many0`] gives from `pos` on is the item at
/// `pos` and what it gives behind that item.
pub proof fn lemma_many0_step<T: Item>(b: Seq<u8>, front: Seq<T::V>, pos: int, v: T::V, n: int)
    requires
        0 <= pos < b.len(),
        T::spec_item(b.skip(pos)) == Ok::<(T::V, int), ParseError>((v, n)),
        0 < n <= b.len() - pos,
    ensures
        after(pos, with_front(front, many0::<T>(b.skip(pos)))) == after(
            pos + n,
            with_front(front.push(v), many0::<T>(b.skip(pos + n))),
        ),
{
    let here = b.skip(pos);
    assert(here.skip(n) =~= b.skip(pos + n));
    let tail = many0::<T>(b.skip(pos + n));
    match tail {
        Ok((ws, m)) => {
            assert(front + (seq![v] + ws) =~= front.push(v) + ws);
        },
        Err(e) => {
            lemma_shifted_twice(e, n, pos);
        },
    }
}

/// The encoding of a list that starts with `v` starts with the encoding of
/// `v`.
pub proof fn lemma_concat_first<T: ToBytes>(items: Seq<T::V>)
    requires
        items.len() > 0,
    ensures
        concat::<T>(items) == T::spec_to_bytes(items[0]) + concat::<T>(items.skip(1)),
    decreases items.len(),
{
    if items.len() == 1 {
        assert(items.drop_last() =~= Seq::<T::V>::empty());
        assert(items.skip(1) =~= Seq::<T::V>::empty());
        assert(concat::<T>(items.drop_last()) =~= Seq::<u8>::empty());
        assert(concat::<T>(items.skip(1)) =~= Seq::<u8>::empty());
        assert(concat::<T>(items) =~= T::spec_to_bytes(items[0]) + concat::<T>(items.skip(1)));
    } else {
        let init = items.drop_last();
        lemma_concat_first::<T>(init);
        assert(init.skip(1) =~= items.skip(1).drop_last());
        assert(items.skip(1).last() == items.last());
        assert(init[0] == items[0]);
        assert(concat::<T>(items) =~= T::spec_to_bytes(items[0]) + concat::<T>(items.skip(1)));
    }
}

/// Items written one after another are read back one after another.
pub proof fn lemma_many0_round_trip<T: Item>(items: Seq<T::V>)
    requires
        all_encodable::<T>(items),
    ensures
        many0::<T>(concat::<T>(items)) == Ok::<(Seq<T::V>, int), ParseError>(
            (items, concat::<T>(items).len() as int),
        ),
    decreases items.len(),
{
    if items.len() == 0 {
        assert(items =~= Seq::<T::V>::empty());
    } else {
        let v = items[0];
        let tail = items.skip(1);
        assert forall|i: int| 0 <= i < tail.len() implies T::encodable(#[trigger] tail[i]) by {
            assert(tail[i] == items[i + 1]);
        }
        lemma_many0_round_trip::<T>(tail);
        lemma_concat_first::<T>(items);
        T::lemma_item_round_trip(v, concat::<T>(tail));
        let all = concat::<T>(items);
        assert(all.skip(T::spec_to_bytes(v).len() as int) =~= concat::<T>(tail));
        assert(seq![v] + tail =~= items);
    }
}

/// Reads list items from `input` one after another.
pub fn read_many0<T: Item>(input: &[u8]) -> (r: Result<(Vec<T>, usize), ParseError>)
    ensures
        match r {
            Ok((items, n)) => many0::<T>(input@) == Ok::<(Seq<T::V>, int), ParseError>(
                (views(items@), n as int),
            ) && n <= input@.len(),
            Err(e) => many0::<T>(input@) == Err::<(Seq<T::V>, int), ParseError>(e),
        },
{
    let len = input.len();
    let mut items: Vec<T> = Vec::new();
    let mut pos: usize = 0;
    assert(views(items@) =~= Seq::<T::V>::empty());
    assert(input@.skip(0) =~= input@);
    proof {
        if let Ok((ws, m)) = many0::<T>(input@) {
            assert(Seq::<T::V>::empty() + ws =~= ws);
        }
    }
    loop
        invariant
            pos <= len == input@.len(),
            many0::<T>(input@) == after(
                pos as int,
                with_front(views(items@), many0::<T>(input@.skip(pos as int))),
            ),
        decreases len - pos,
    {
        if pos == len {
            assert(views(items@) + Seq::<T::V>::empty() =~= views(items@));
            return Ok((items, pos));
        }
        let here = vstd::slice::slice_subrange(input, pos, len);
        assert(here@ =~= input@.skip(pos as int));
        match T::read_item(here) {
            Err(ParseError::Error(_)) => {
                assert(views(items@) + Seq::<T::V>::empty() =~= views(items@));
                return Ok((items, pos));
            },
            Err(e) => {
                return Err(shift_error(e, pos));
            },
            Ok((v, n)) => {
                proof {
                    lemma_many0_step::<T>(input@, views(items@), pos as int, v@, n as int);
                    assert(views(items@.push(v)) =~= views(items@).push(v@));
                }
                items.push(v);
                pos = pos + n;
            },
        }
    }
}

/// Appends the encodings of `items` one after another, or leaves `buf` as it
/// is where one of them has none.
pub fn write_items<T: ToBytes>(items: &Vec<T>, buf: &mut Vec<u8>) -> (r: Result<(), EncodeError>)
    ensures
        r is Ok <==> all_encodable::<T>(views(items@)),
        r is Ok ==> final(buf)@ == old(buf)@ + concat::<T>(views(items@)),
        r is Err ==> final(buf)@ == old(buf)@,
        r matches Err(e) ==> e == EncodeError::TooLong,
{
    let start = buf.len();
    let mut i: usize = 0;
    assert(views(items@).take(0) =~= Seq::<T::V>::empty());
    assert(buf@ =~= old(buf)@ + concat::<T>(views(items@).take(0)));
    while i < items.len()
        invariant
            i <= items@.len(),
            start == old(buf)@.len(),
            buf@ == old(buf)@ + concat::<T>(views(items@).take(i as int)),
            forall|k: int| 0 <= k < i ==> T::encodable(#[trigger] views(items@)[k]),
        decreases items@.len() - i,
    {
        let ghost before = buf@;
        match items[i].to_bytes(buf) {
            Ok(()) => {
                proof {
                    let done = views(items@).take(i as int);
                    let next = views(items@).take(i + 1);
                    assert(next.drop_last() =~= done);
                    assert(next.last() == items@[i as int]@);
                    assert(buf@ =~= old(buf)@ + concat::<T>(next));
                }
            },
            Err(e) => {
                assert(!T::encodable(views(items@)[i as int]));
                buf.truncate(start);
                assert(buf@ =~= old(buf)@);
                return Err(EncodeError::TooLong);
            },
        }
        i += 1;
    }
    assert(views(items@).take(i as int) =~= views(items@));
    Ok(())
}

} // verus!
