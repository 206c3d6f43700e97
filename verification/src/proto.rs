//! The messages of the VSS API, and their protobuf encoding. The tags are those
//! of `vss.proto`.
use vstd::prelude::*;
use vstd::utf8::*;
use crate::outside::{
    decode_varint, encode_varint, skip_field, skipped_field, text_from_utf8, varint, varint_from,
};
use crate::manifest::optional_text;
use crate::text::{begins_with, chars_of, copy_bytes, decimal, decimal_text, string_of};

verus! {

// ---------------------------------------------------------------------------
// Fields
// ---------------------------------------------------------------------------

/// Why bytes are no message.
#[derive(Debug, Clone, PartialEq, Eq)]
pub struct ProtoError {
    /// The fields that it is in, the innermost first.
    pub places: String,
    /// What is wrong.
    pub description: String,
}

/// A [`ProtoError`] in mathematical terms.
#[verifier::ext_equal]
pub struct ProtoErrorView {
    /// See [`ProtoError::places`].
    pub places: Seq<char>,
    /// See [`ProtoError::description`].
    pub description: Seq<char>,
}

impl View for ProtoError {
    type V = ProtoErrorView;

    open spec fn view(&self) -> ProtoErrorView {
        ProtoErrorView { places: self.places@, description: self.description@ }
    }
}

/// What every error begins with in words.
pub const PROTO_ERROR: &'static str = "failed to decode Protobuf message: ";

/// A [`ProtoError`] in words.
pub open spec fn proto_error_text(e: ProtoErrorView) -> Seq<char> {
    PROTO_ERROR@ + e.places + e.description
}

/// An error that is in no field.
pub open spec fn fault(description: Seq<char>) -> ProtoErrorView {
    ProtoErrorView { places: Seq::empty(), description }
}

/// The name of a field of a message, as errors give it.
pub open spec fn place(message: Seq<char>, field: Seq<char>) -> Seq<char> {
    message + "."@ + field + ": "@
}

/// An error that is in a field.
pub open spec fn placed(e: ProtoErrorView, message: Seq<char>, field: Seq<char>) -> ProtoErrorView {
    ProtoErrorView { places: e.places + place(message, field), ..e }
}

impl ProtoError {
    /// The error in words.
    pub fn to_string(&self) -> (s: String)
        ensures
            s@ == proto_error_text(self@),
    {
        let mut s = PROTO_ERROR.to_owned();
        s.append(self.places.as_str());
        s.append(self.description.as_str());
        s
    }

    /// An error that is in no field.
    fn of(description: &str) -> (e: ProtoError)
        ensures
            e@ == fault(description@),
    {
        let e = ProtoError { places: String::new(), description: description.to_owned() };
        assert(e.places@ =~= Seq::<char>::empty());
        e
    }

    /// The error as one that is in a field.
    fn at(self, message: &str, field: &str) -> (e: ProtoError)
        ensures
            e@ == placed(self@, message@, field@),
    {
        let mut places = self.places;
        places.append(message);
        places.append(".");
        places.append(field);
        places.append(": ");
        assert(places@ =~= self.places@ + place(message@, field@));
        ProtoError { places, description: self.description }
    }
}

/// The wire type of a number.
pub const WIRE_VARINT: u8 = 0;

/// The wire type of bytes with their length.
pub const WIRE_BYTES: u8 = 2;

/// The wire type of the start of a group.
pub const WIRE_GROUP: u8 = 3;

/// The wire type of the end of a group.
pub const WIRE_GROUP_END: u8 = 4;

/// The tag of a group around an unknown field.
pub const GROUP_TAG: u32 = 1;

/// The largest wire type.
pub const WIRE_MAX: u8 = 5;

/// The name of a wire type.
pub open spec fn wire_name(wire: u8) -> Seq<char> {
    if wire == 0 {
        "Varint"@
    } else if wire == 1 {
        "SixtyFourBit"@
    } else if wire == 2 {
        "LengthDelimited"@
    } else if wire == 3 {
        "StartGroup"@
    } else if wire == 4 {
        "EndGroup"@
    } else {
        "ThirtyTwoBit"@
    }
}

fn wire_text(wire: u8) -> (s: &'static str)
    ensures
        s@ == wire_name(wire),
{
    if wire == 0 {
        "Varint"
    } else if wire == 1 {
        "SixtyFourBit"
    } else if wire == 2 {
        "LengthDelimited"
    } else if wire == 3 {
        "StartGroup"
    } else if wire == 4 {
        "EndGroup"
    } else {
        "ThirtyTwoBit"
    }
}

/// The error of a field that has another wire type than its message says.
pub open spec fn wrong_wire(actual: u8, expected: u8) -> ProtoErrorView {
    fault("invalid wire type: "@ + wire_name(actual) + " (expected "@ + wire_name(expected) + ")"@)
}

fn wrong_wire_error(actual: u8, expected: u8) -> (e: ProtoError)
    ensures
        e@ == wrong_wire(actual, expected),
{
    let mut s = "invalid wire type: ".to_owned();
    s.append(wire_text(actual));
    s.append(" (expected ");
    s.append(wire_text(expected));
    s.append(")");
    ProtoError::of(s.as_str())
}

/// The bytes from an unknown field on, inside one group more that does not end.
pub open spec fn open_group(wire: u8, tag: u32, bytes: Seq<u8>) -> Seq<u8> {
    varint(tag as nat * 8 + wire as nat) + bytes
}

/// The bytes of an unknown field inside one group more.
pub open spec fn grouped_field(wire: u8, tag: u32, body: Seq<u8>) -> Seq<u8> {
    open_group(wire, tag, body) + varint(GROUP_TAG as nat * 8 + WIRE_GROUP_END as nat)
}

/// What skipping a field told, as an error.
pub open spec fn skip_fault(told: Seq<char>) -> ProtoErrorView {
    fault(told.skip(PROTO_ERROR@.len() as int))
}

/// What is left behind an unknown field, of a message by itself or of one inside another.
/// Groups nest up to a limit, and a message inside another is one level of it: what it
/// skips could be skipped inside one group more, and what is told of a field that cannot
/// be skipped is what comes first there.
pub open spec fn passed_field(wire: u8, tag: u32, bytes: Seq<u8>, nested: bool) -> Result<
    Seq<u8>,
    ProtoErrorView,
> {
    match skipped_field(wire, tag, bytes) {
        Err(told) => if nested && wire == WIRE_GROUP {
            match skipped_field(WIRE_GROUP, GROUP_TAG, open_group(wire, tag, bytes)) {
                Err(first) => Err(skip_fault(first)),
                Ok(_) => Err(skip_fault(told)),
            }
        } else {
            Err(skip_fault(told))
        },
        Ok(rest) => if nested && wire == WIRE_GROUP {
            match skipped_field(
                WIRE_GROUP,
                GROUP_TAG,
                grouped_field(wire, tag, bytes.take(bytes.len() - rest.len())),
            ) {
                Err(told) => Err(skip_fault(told)),
                Ok(_) => Ok(rest),
            }
        } else {
            Ok(rest)
        },
    }
}

/// A message with an unknown field passed over.
pub open spec fn passed<M>(m: M, wire: u8, tag: u32, bytes: Seq<u8>, nested: bool) -> Result<
    (M, Seq<u8>),
    ProtoErrorView,
> {
    match passed_field(wire, tag, bytes, nested) {
        Ok(rest) => Ok((m, rest)),
        Err(e) => Err(e),
    }
}

/// The key of the field that bytes start with: its tag, its wire type, and what follows.
pub open spec fn key_in(bytes: Seq<u8>) -> Result<(u32, u8, Seq<u8>), ProtoErrorView> {
    match varint_from(bytes, 0) {
        None => Err(fault("invalid varint"@)),
        Some((key, len)) => if key > u32::MAX {
            Err(fault("invalid key value: "@ + decimal(key)))
        } else if key % 8 > WIRE_MAX {
            Err(fault("invalid wire type value: "@ + decimal(key % 8)))
        } else if key / 8 == 0 {
            Err(fault("invalid tag value: 0"@))
        } else {
            Ok(((key / 8) as u32, (key % 8) as u8, bytes.skip(len as int)))
        },
    }
}

/// The number of a field of a wire type, and what follows it.
pub open spec fn number_in(wire: u8, bytes: Seq<u8>) -> Result<(u64, Seq<u8>), ProtoErrorView> {
    if wire != WIRE_VARINT {
        Err(wrong_wire(wire, WIRE_VARINT))
    } else {
        match varint_from(bytes, 0) {
            None => Err(fault("invalid varint"@)),
            Some((n, len)) => Ok((n as u64, bytes.skip(len as int))),
        }
    }
}

/// How many bytes a field of a wire type has, and what follows their number.
pub open spec fn length_in(wire: u8, bytes: Seq<u8>) -> Result<(nat, Seq<u8>), ProtoErrorView> {
    if wire != WIRE_BYTES {
        Err(wrong_wire(wire, WIRE_BYTES))
    } else {
        match varint_from(bytes, 0) {
            None => Err(fault("invalid varint"@)),
            Some((n, len)) => {
                let body = bytes.skip(len as int);
                if n > body.len() {
                    Err(fault("buffer underflow"@))
                } else {
                    Ok((n, body))
                }
            },
        }
    }
}

/// The bytes of a field of a wire type, and what follows them.
pub open spec fn bytes_in(wire: u8, bytes: Seq<u8>) -> Result<(Seq<u8>, Seq<u8>), ProtoErrorView> {
    match length_in(wire, bytes) {
        Err(e) => Err(e),
        Ok((n, body)) => Ok((body.take(n as int), body.skip(n as int))),
    }
}

/// The text of a field of a wire type, and what follows it.
pub open spec fn text_in(wire: u8, bytes: Seq<u8>) -> Result<(Seq<char>, Seq<u8>), ProtoErrorView> {
    match bytes_in(wire, bytes) {
        Err(e) => Err(e),
        Ok((b, rest)) => if valid_utf8(b) {
            Ok((decode_utf8(b), rest))
        } else {
            Err(fault("invalid string value: data is not UTF-8 encoded"@))
        },
    }
}

/// A number has at least one byte, no more than there are, and 64 bits.
proof fn lemma_varint_from_bounds(bytes: Seq<u8>, count: nat)
    ensures
        varint_from(bytes, count) matches Some((n, len)) ==> 1 <= len <= bytes.len() && n
            < varint_bound(count),
    decreases bytes.len(),
{
    if bytes.len() > 0 {
        lemma_varint_from_bounds(bytes.drop_first(), count + 1);
        if count < 9 {
            assert(varint_bound(count) == 128 * varint_bound(count + 1));
            assert(varint_bound(count + 1) >= 2) by {
                lemma_varint_bound_least(count + 1);
            }
        }
    }
}

/// What a number behind `count` bytes of it is under.
spec fn varint_bound(count: nat) -> nat
    decreases 10 - count,
{
    if count >= 9 {
        2
    } else {
        128 * varint_bound(count + 1)
    }
}

proof fn lemma_varint_bound_least(count: nat)
    ensures
        varint_bound(count) >= 2,
    decreases 10 - count,
{
    if count < 9 {
        lemma_varint_bound_least(count + 1);
    }
}

/// A number of 64 bits.
proof fn lemma_varint_bound_full()
    ensures
        varint_bound(0) == u64::MAX + 1,
{
    reveal_with_fuel(varint_bound, 11);
}

/// What skipping a field told, as an error.
fn skip_error(told: String) -> (e: ProtoError)
    requires
        begins_with(told@, PROTO_ERROR@),
    ensures
        e@ == skip_fault(told@),
{
    let all = chars_of(told.as_str());
    let prefix = chars_of(PROTO_ERROR);
    let description = string_of(&all, prefix.len(), all.len());
    assert(description@ =~= told@.skip(PROTO_ERROR@.len() as int));
    ProtoError::of(description.as_str())
}

/// Skips an unknown field, of a message by itself or of one inside another.
fn pass_field(wire: u8, tag: u32, bytes: &[u8], nested: bool) -> (res: Result<&[u8], ProtoError>)
    requires
        wire <= WIRE_MAX,
        tag < 0x2000_0000,
    ensures
        match res {
            Ok(rest) => {
                &&& passed_field(wire, tag, bytes@, nested) == Ok::<Seq<u8>, ProtoErrorView>(rest@)
                &&& rest@.len() <= bytes@.len()
            },
            Err(e) => passed_field(wire, tag, bytes@, nested) == Err::<Seq<u8>, ProtoErrorView>(e@),
        },
{
    match skip_field(wire, tag, bytes) {
        Err(told) => {
            if nested && wire == WIRE_GROUP {
                let mut opened: Vec<u8> = Vec::new();
                encode_varint(tag as u64 * 8 + wire as u64, &mut opened);
                opened.extend_from_slice(bytes);
                assert(opened@ =~= open_group(wire, tag, bytes@));
                match skip_field(WIRE_GROUP, GROUP_TAG, &opened) {
                    Err(first) => {
                        return Err(skip_error(first));
                    },
                    Ok(_) => {},
                }
            }
            Err(skip_error(told))
        },
        Ok(rest) => {
            if nested && wire == WIRE_GROUP {
                let len: usize = bytes.len() - rest.len();
                let mut grouped: Vec<u8> = Vec::new();
                encode_varint(tag as u64 * 8 + wire as u64, &mut grouped);
                grouped.extend_from_slice(&bytes[0..len]);
                encode_varint(GROUP_TAG as u64 * 8 + WIRE_GROUP_END as u64, &mut grouped);
                assert(bytes@.subrange(0, len as int) =~= bytes@.take(len as int));
                assert(grouped@ =~= grouped_field(wire, tag, bytes@.take(len as int)));
                match skip_field(WIRE_GROUP, GROUP_TAG, &grouped) {
                    Err(told) => {
                        return Err(skip_error(told));
                    },
                    Ok(_) => {},
                }
            }
            Ok(rest)
        },
    }
}

/// Reads the key of the field that bytes start with.
fn next_key(bytes: &[u8]) -> (res: Result<(u32, u8, &[u8]), ProtoError>)
    ensures
        match res {
            Ok((tag, wire, rest)) => {
                &&& key_in(bytes@) == Ok::<(u32, u8, Seq<u8>), ProtoErrorView>((tag, wire, rest@))
                &&& rest@.len() < bytes@.len()
                &&& 0 < tag < 0x2000_0000
                &&& wire <= WIRE_MAX
            },
            Err(e) => key_in(bytes@) == Err::<(u32, u8, Seq<u8>), ProtoErrorView>(e@),
        },
{
    proof {
        lemma_varint_from_bounds(bytes@, 0);
    }
    match decode_varint(bytes) {
        Err(_) => Err(ProtoError::of("invalid varint")),
        Ok((key, rest)) => {
            if key > 0xFFFF_FFFF {
                let mut s = "invalid key value: ".to_owned();
                s.append(decimal_text(key).as_str());
                return Err(ProtoError::of(s.as_str()));
            }
            let tag: u32 = (key / 8) as u32;
            let wire: u8 = (key % 8) as u8;
            if wire > WIRE_MAX {
                let mut s = "invalid wire type value: ".to_owned();
                s.append(decimal_text(key % 8).as_str());
                return Err(ProtoError::of(s.as_str()));
            }
            if tag == 0 {
                return Err(ProtoError::of("invalid tag value: 0"));
            }
            Ok((tag, wire, rest))
        },
    }
}

/// What the fields of bytes make of a message, each in turn, up to where so many bytes are
/// left as follow the message; and what follows it.
pub open spec fn merged_until<M>(
    merged: spec_fn(M, u32, u8, Seq<u8>) -> Result<(M, Seq<u8>), ProtoErrorView>,
    m: M,
    bytes: Seq<u8>,
    left: nat,
) -> Result<(M, Seq<u8>), ProtoErrorView>
    decreases bytes.len(),
{
    if bytes.len() < left {
        Err(fault("delimited length exceeded"@))
    } else if bytes.len() == left {
        Ok((m, bytes))
    } else {
        match key_in(bytes) {
            Err(e) => Err(e),
            Ok((tag, wire, rest)) => match merged(m, tag, wire, rest) {
                Err(e) => Err(e),
                Ok((m, rest)) => if rest.len() < bytes.len() {
                    merged_until(merged, m, rest, left)
                } else {
                    Err(fault("invalid varint"@))
                },
            },
        }
    }
}

/// A protobuf message.
pub trait Message: Sized + View {
    /// The message without fields.
    spec fn blank() -> Self::V;

    /// What a field, of a tag and a wire type, that bytes start with makes of a message, by
    /// itself or inside another, and what follows the field: a known one sets or adds what
    /// it holds, an unknown one is passed over.
    spec fn merged(m: Self::V, tag: u32, wire: u8, bytes: Seq<u8>, nested: bool) -> Result<
        (Self::V, Seq<u8>),
        ProtoErrorView,
    >;

    /// The bytes of a message: its fields in the order of their tags, those at
    /// their default left out.
    spec fn encoding(m: Self::V) -> Seq<u8>;

    /// The message without fields.
    fn empty() -> (m: Self)
        ensures
            m@ == Self::blank(),
    ;

    /// Takes a field that bytes start with into the message, and returns what follows it.
    fn merge_field<'a>(&mut self, tag: u32, wire: u8, bytes: &'a [u8], nested: bool) -> (res: Result<
        &'a [u8],
        ProtoError,
    >)
        requires
            0 < tag < 0x2000_0000,
            wire <= WIRE_MAX,
        ensures
            match res {
                Ok(rest) => {
                    &&& Self::merged(old(self)@, tag, wire, bytes@, nested) == Ok::<
                        (Self::V, Seq<u8>),
                        ProtoErrorView,
                    >((final(self)@, rest@))
                    &&& rest@.len() <= bytes@.len()
                },
                Err(e) => Self::merged(old(self)@, tag, wire, bytes@, nested) == Err::<
                    (Self::V, Seq<u8>),
                    ProtoErrorView,
                >(e@),
            },
    ;

    /// The bytes of the message.
    fn encode_to_vec(&self) -> (out: Vec<u8>)
        ensures
            out@ == Self::encoding(self@),
    ;
}

/// What the fields of bytes make of a message, by itself or inside another, up to where so
/// many bytes are left as follow it.
pub open spec fn merging<M: Message>(m: M::V, bytes: Seq<u8>, left: nat, nested: bool) -> Result<
    (M::V, Seq<u8>),
    ProtoErrorView,
> {
    merged_until(
        |m: M::V, tag: u32, wire: u8, bytes: Seq<u8>| M::merged(m, tag, wire, bytes, nested),
        m,
        bytes,
        left,
    )
}

/// What bytes are as a message.
pub open spec fn decoding<M: Message>(bytes: Seq<u8>) -> Result<M::V, ProtoErrorView> {
    match merging::<M>(M::blank(), bytes, 0, false) {
        Ok((m, _)) => Ok(m),
        Err(e) => Err(e),
    }
}

/// Takes the fields of bytes into a message, by itself or inside another, up to where so
/// many bytes are left as follow it.
fn merge_until<'a, M: Message>(m: &mut M, bytes: &'a [u8], left: usize, nested: bool) -> (res: Result<
    &'a [u8],
    ProtoError,
>)
    ensures
        match res {
            Ok(rest) => {
                &&& merging::<M>(old(m)@, bytes@, left as nat, nested) == Ok::<
                    (M::V, Seq<u8>),
                    ProtoErrorView,
                >((final(m)@, rest@))
                &&& rest@.len() == left
            },
            Err(e) => merging::<M>(old(m)@, bytes@, left as nat, nested) == Err::<
                (M::V, Seq<u8>),
                ProtoErrorView,
            >(e@),
        },
{
    let ghost f = |m: M::V, tag: u32, wire: u8, bytes: Seq<u8>|
        M::merged(m, tag, wire, bytes, nested);
    let mut rest: &[u8] = bytes;
    while rest.len() > left
        invariant
            f == (|m: M::V, tag: u32, wire: u8, bytes: Seq<u8>|
                M::merged(m, tag, wire, bytes, nested)),
            merged_until(f, m@, rest@, left as nat) == merged_until(
                f,
                old(m)@,
                bytes@,
                left as nat,
            ),
        decreases rest.len(),
    {
        match next_key(rest) {
            Err(e) => {
                return Err(e);
            },
            Ok((tag, wire, after)) => match m.merge_field(tag, wire, after, nested) {
                Err(e) => {
                    return Err(e);
                },
                Ok(after) => {
                    rest = after;
                },
            },
        }
    }
    if rest.len() < left {
        return Err(ProtoError::of("delimited length exceeded"));
    }
    Ok(rest)
}

/// Reads a message.
pub fn decode_message<M: Message>(bytes: &[u8]) -> (res: Result<M, ProtoError>)
    ensures
        match res {
            Ok(m) => decoding::<M>(bytes@) == Ok::<M::V, ProtoErrorView>(m@),
            Err(e) => decoding::<M>(bytes@) == Err::<M::V, ProtoErrorView>(e@),
        },
{
    let mut m = M::empty();
    match merge_until(&mut m, bytes, 0, false) {
        Ok(_) => Ok(m),
        Err(e) => Err(e),
    }
}

/// A number of 64 bits as the unsigned one of the same bits.
pub open spec fn unsigned(v: i64) -> u64 {
    if v >= 0 {
        v as u64
    } else {
        (v + 0x1_0000_0000_0000_0000) as u64
    }
}

/// A number of 64 bits as the signed one of the same bits.
pub open spec fn signed(n: u64) -> i64 {
    if n <= i64::MAX {
        n as i64
    } else {
        (n - 0x1_0000_0000_0000_0000) as i64
    }
}

/// The signed number of the low 32 bits.
pub open spec fn signed_low(n: u64) -> i32 {
    let low = n as int % 0x1_0000_0000;
    if low <= i32::MAX {
        low as i32
    } else {
        (low - 0x1_0000_0000) as i32
    }
}

fn to_unsigned(v: i64) -> (n: u64)
    ensures
        n == unsigned(v),
{
    if v >= 0 {
        v as u64
    } else {
        let m: u64 = (-(v + 1)) as u64;
        u64::MAX - m
    }
}

fn to_signed(n: u64) -> (v: i64)
    ensures
        v == signed(n),
{
    if n <= 0x7FFF_FFFF_FFFF_FFFF {
        n as i64
    } else {
        let m: u64 = u64::MAX - n;
        -(m as i64) - 1
    }
}

fn to_signed_low(n: u64) -> (v: i32)
    ensures
        v == signed_low(n),
{
    let low: u64 = n % 0x1_0000_0000;
    if low <= 0x7FFF_FFFF {
        low as i32
    } else {
        let m: u64 = 0xFFFF_FFFF - low;
        -(m as i32) - 1
    }
}

/// The bytes of a field with a number.
pub open spec fn number_field(tag: nat, n: u64) -> Seq<u8> {
    varint(tag * 8) + varint(n as nat)
}

/// The bytes of a field with bytes.
pub open spec fn bytes_field(tag: nat, b: Seq<u8>) -> Seq<u8> {
    varint(tag * 8 + 2) + varint(b.len()) + b
}

/// The bytes of a field with bytes; none where there are none.
pub open spec fn plain_bytes(tag: nat, b: Seq<u8>) -> Seq<u8> {
    if b.len() == 0 {
        seq![]
    } else {
        bytes_field(tag, b)
    }
}

/// The bytes of a field with a text; none where it is empty.
pub open spec fn plain_text(tag: nat, s: Seq<char>) -> Seq<u8> {
    plain_bytes(tag, encode_utf8(s))
}

/// The bytes of a field with a number; none where it is zero.
pub open spec fn plain_number(tag: nat, v: i64) -> Seq<u8> {
    if v == 0 {
        seq![]
    } else {
        number_field(tag, unsigned(v))
    }
}

/// The bytes of a field with a text that may be missing.
pub open spec fn optional_text_field(tag: nat, s: Option<Seq<char>>) -> Seq<u8> {
    match s {
        Some(s) => bytes_field(tag, encode_utf8(s)),
        None => seq![],
    }
}

/// The bytes of a field with a number that may be missing.
pub open spec fn optional_number_field(tag: nat, v: Option<i64>) -> Seq<u8> {
    match v {
        Some(v) => number_field(tag, unsigned(v)),
        None => seq![],
    }
}

/// Appends a field with a number.
fn push_number(out: &mut Vec<u8>, tag: u32, n: u64)
    requires
        tag < 0x2000_0000,
    ensures
        final(out)@ == old(out)@ + number_field(tag as nat, n),
{
    encode_varint(tag as u64 * 8, out);
    encode_varint(n, out);
    assert(out@ =~= old(out)@ + number_field(tag as nat, n));
}

/// Appends a field with bytes.
fn push_bytes(out: &mut Vec<u8>, tag: u32, b: &[u8])
    requires
        tag < 0x2000_0000,
    ensures
        final(out)@ == old(out)@ + bytes_field(tag as nat, b@),
{
    encode_varint(tag as u64 * 8 + 2, out);
    encode_varint(b.len() as u64, out);
    out.extend_from_slice(b);
    assert(out@ =~= old(out)@ + bytes_field(tag as nat, b@));
}

/// Appends a field with bytes, where there are any.
fn push_plain_bytes(out: &mut Vec<u8>, tag: u32, b: &[u8])
    requires
        tag < 0x2000_0000,
    ensures
        final(out)@ == old(out)@ + plain_bytes(tag as nat, b@),
{
    if b.len() > 0 {
        push_bytes(out, tag, b);
    }
    assert(out@ =~= old(out)@ + plain_bytes(tag as nat, b@));
}

/// Appends a field with a text, where it is not empty.
fn push_plain_text(out: &mut Vec<u8>, tag: u32, s: &str)
    requires
        tag < 0x2000_0000,
    ensures
        final(out)@ == old(out)@ + plain_text(tag as nat, s@),
{
    push_plain_bytes(out, tag, s.as_bytes());
}

/// Appends a field with a number, where it is not zero.
fn push_plain_number(out: &mut Vec<u8>, tag: u32, v: i64)
    requires
        tag < 0x2000_0000,
    ensures
        final(out)@ == old(out)@ + plain_number(tag as nat, v),
{
    if v != 0 {
        push_number(out, tag, to_unsigned(v));
    }
    assert(out@ =~= old(out)@ + plain_number(tag as nat, v));
}

/// Appends a field with a text that may be missing.
fn push_optional_text(out: &mut Vec<u8>, tag: u32, s: &Option<String>)
    requires
        tag < 0x2000_0000,
    ensures
        final(out)@ == old(out)@ + optional_text_field(tag as nat, optional_text(*s)),
{
    match s {
        Some(s) => {
            push_bytes(out, tag, s.as_str().as_bytes());
        },
        None => {},
    }
    assert(out@ =~= old(out)@ + optional_text_field(tag as nat, optional_text(*s)));
}

/// Appends a field with a number that may be missing.
fn push_optional_number(out: &mut Vec<u8>, tag: u32, v: Option<i64>)
    requires
        tag < 0x2000_0000,
    ensures
        final(out)@ == old(out)@ + optional_number_field(tag as nat, v),
{
    match v {
        Some(v) => {
            push_number(out, tag, to_unsigned(v));
        },
        None => {},
    }
    assert(out@ =~= old(out)@ + optional_number_field(tag as nat, v));
}

/// Reads the number of a field of a wire type.
fn take_number<'a>(wire: u8, bytes: &'a [u8]) -> (res: Result<(u64, &'a [u8]), ProtoError>)
    ensures
        match res {
            Ok((n, rest)) => {
                &&& number_in(wire, bytes@) == Ok::<(u64, Seq<u8>), ProtoErrorView>((n, rest@))
                &&& rest@.len() <= bytes@.len()
            },
            Err(e) => number_in(wire, bytes@) == Err::<(u64, Seq<u8>), ProtoErrorView>(e@),
        },
{
    if wire != WIRE_VARINT {
        return Err(wrong_wire_error(wire, WIRE_VARINT));
    }
    match decode_varint(bytes) {
        Err(_) => Err(ProtoError::of("invalid varint")),
        Ok((n, rest)) => Ok((n, rest)),
    }
}

/// Reads how many bytes a field of a wire type has.
fn take_length<'a>(wire: u8, bytes: &'a [u8]) -> (res: Result<(usize, &'a [u8]), ProtoError>)
    ensures
        match res {
            Ok((n, body)) => {
                &&& length_in(wire, bytes@) == Ok::<(nat, Seq<u8>), ProtoErrorView>(
                    (n as nat, body@),
                )
                &&& n <= body@.len() <= bytes@.len()
            },
            Err(e) => length_in(wire, bytes@) == Err::<(nat, Seq<u8>), ProtoErrorView>(e@),
        },
{
    if wire != WIRE_BYTES {
        return Err(wrong_wire_error(wire, WIRE_BYTES));
    }
    match decode_varint(bytes) {
        Err(_) => Err(ProtoError::of("invalid varint")),
        Ok((n, body)) => {
            let len: usize = body.len();
            if n > len as u64 {
                Err(ProtoError::of("buffer underflow"))
            } else {
                Ok((n as usize, body))
            }
        },
    }
}

/// Reads the bytes of a field of a wire type.
fn take_bytes<'a>(wire: u8, bytes: &'a [u8]) -> (res: Result<(&'a [u8], &'a [u8]), ProtoError>)
    ensures
        match res {
            Ok((b, rest)) => {
                &&& bytes_in(wire, bytes@) == Ok::<(Seq<u8>, Seq<u8>), ProtoErrorView>((b@, rest@))
                &&& rest@.len() <= bytes@.len()
            },
            Err(e) => bytes_in(wire, bytes@) == Err::<(Seq<u8>, Seq<u8>), ProtoErrorView>(e@),
        },
{
    match take_length(wire, bytes) {
        Err(e) => Err(e),
        Ok((n, body)) => {
            let len: usize = body.len();
            assert(body@.subrange(0, n as int) =~= body@.take(n as int));
            assert(body@.subrange(n as int, len as int) =~= body@.skip(n as int));
            Ok((&body[0..n], &body[n..len]))
        },
    }
}

/// Reads the text of a field of a wire type.
fn take_text<'a>(wire: u8, bytes: &'a [u8]) -> (res: Result<(String, &'a [u8]), ProtoError>)
    ensures
        match res {
            Ok((s, rest)) => {
                &&& text_in(wire, bytes@) == Ok::<(Seq<char>, Seq<u8>), ProtoErrorView>((s@, rest@))
                &&& rest@.len() <= bytes@.len()
            },
            Err(e) => text_in(wire, bytes@) == Err::<(Seq<char>, Seq<u8>), ProtoErrorView>(e@),
        },
{
    match take_bytes(wire, bytes) {
        Err(e) => Err(e),
        Ok((b, rest)) => match text_from_utf8(b) {
            Some(s) => Ok((s, rest)),
            None => Err(ProtoError::of("invalid string value: data is not UTF-8 encoded")),
        },
    }
}

// ---------------------------------------------------------------------------
// KeyValue
// ---------------------------------------------------------------------------

/// A stored value under its key.
#[derive(Debug, PartialEq)]
pub struct KeyValue {
    /// The key.
    pub key: String,
    /// Its version.
    pub version: i64,
    /// The value.
    pub value: Vec<u8>,
}

/// A [`KeyValue`] in mathematical terms.
#[verifier::ext_equal]
pub struct KeyValueView {
    /// See [`KeyValue::key`].
    pub key: Seq<char>,
    /// See [`KeyValue::version`].
    pub version: i64,
    /// See [`KeyValue::value`].
    pub value: Seq<u8>,
}

impl View for KeyValue {
    type V = KeyValueView;

    open spec fn view(&self) -> KeyValueView {
        KeyValueView {
            key: self.key@,
            version: self.version,
            value: self.value@,
        }
    }
}

impl Message for KeyValue {
    open spec fn blank() -> KeyValueView {
        KeyValueView {
            key: Seq::<char>::empty(),
            version: 0,
            value: Seq::<u8>::empty(),
        }
    }

    open spec fn merged(m: KeyValueView, tag: u32, wire: u8, bytes: Seq<u8>, nested: bool) -> Result<
        (KeyValueView, Seq<u8>),
        ProtoErrorView,
    > {
        if tag == 1 {
            match text_in(wire, bytes) {
                Ok((v, rest)) => Ok((KeyValueView { key: v, ..m }, rest)),
                Err(e) => Err(placed(e, "KeyValue"@, "key"@)),
            }
        } else if tag == 2 {
            match number_in(wire, bytes) {
                Ok((v, rest)) => Ok((KeyValueView { version: signed(v), ..m }, rest)),
                Err(e) => Err(placed(e, "KeyValue"@, "version"@)),
            }
        } else if tag == 3 {
            match bytes_in(wire, bytes) {
                Ok((v, rest)) => Ok((KeyValueView { value: v, ..m }, rest)),
                Err(e) => Err(placed(e, "KeyValue"@, "value"@)),
            }
        } else {
            passed(m, wire, tag, bytes, nested)
        }
    }

    open spec fn encoding(m: KeyValueView) -> Seq<u8> {
        plain_text(1, m.key) + plain_number(2, m.version) + plain_bytes(3, m.value)
    }

    fn empty() -> (m: KeyValue) {
        let m = KeyValue {
            key: String::new(),
            version: 0,
            value: Vec::new(),
        };
        assert(m@ =~= KeyValue::blank());
        m
    }

    fn merge_field<'a>(&mut self, tag: u32, wire: u8, bytes: &'a [u8], nested: bool) -> (res: Result<
        &'a [u8],
        ProtoError,
    >) {
        if tag == 1 {
            match take_text(wire, bytes) {
                Ok((v, rest)) => {
                    self.key = v;
                    Ok(rest)
                },
                Err(e) => Err(e.at("KeyValue", "key")),
            }
        } else if tag == 2 {
            match take_number(wire, bytes) {
                Ok((v, rest)) => {
                    self.version = to_signed(v);
                    Ok(rest)
                },
                Err(e) => Err(e.at("KeyValue", "version")),
            }
        } else if tag == 3 {
            match take_bytes(wire, bytes) {
                Ok((v, rest)) => {
                    self.value = copy_bytes(v);
                    Ok(rest)
                },
                Err(e) => Err(e.at("KeyValue", "value")),
            }
        } else {
            pass_field(wire, tag, bytes, nested)
        }
    }

    fn encode_to_vec(&self) -> (out: Vec<u8>) {
        let mut out: Vec<u8> = Vec::new();
        push_plain_text(&mut out, 1, self.key.as_str());
        push_plain_number(&mut out, 2, self.version);
        push_plain_bytes(&mut out, 3, &self.value);
        assert(out@ =~= KeyValue::encoding(self@));
        out
    }
}

impl KeyValue {
    /// Reads the message.
    pub fn decode(bytes: &[u8]) -> (res: Result<KeyValue, ProtoError>)
        ensures
            match res {
                Ok(m) => decoding::<KeyValue>(bytes@) == Ok::<KeyValueView, ProtoErrorView>(m@),
                Err(e) => decoding::<KeyValue>(bytes@) == Err::<KeyValueView, ProtoErrorView>(e@),
            },
    {
        decode_message::<KeyValue>(bytes)
    }
}

impl Clone for KeyValue {
    fn clone(&self) -> (r: KeyValue)
        ensures
            r@ == self@,
    {
        KeyValue {
            key: self.key.clone(),
            version: self.version,
            value: copy_bytes(&self.value),
        }
    }
}

/// A value that may be missing, in mathematical terms.
pub open spec fn optional_item(v: Option<KeyValue>) -> Option<KeyValueView> {
    match v {
        Some(v) => Some(v@),
        None => None,
    }
}

/// Values in mathematical terms.
pub open spec fn item_views(v: Seq<KeyValue>) -> Seq<KeyValueView> {
    v.map_values(|x: KeyValue| x@)
}

/// A value, or the one without fields.
pub open spec fn item_or_blank(v: Option<KeyValueView>) -> KeyValueView {
    match v {
        Some(v) => v,
        None => KeyValue::blank(),
    }
}

/// What a field of a wire type makes of a value inside a message, and what follows it.
pub open spec fn item_in(v: KeyValueView, wire: u8, bytes: Seq<u8>) -> Result<
    (KeyValueView, Seq<u8>),
    ProtoErrorView,
> {
    match length_in(wire, bytes) {
        Err(e) => Err(e),
        Ok((n, body)) => merging::<KeyValue>(v, body, (body.len() - n) as nat, true),
    }
}

/// Takes a field of a wire type into a value inside a message.
fn merge_item<'a>(v: &mut KeyValue, wire: u8, bytes: &'a [u8]) -> (res: Result<
    &'a [u8],
    ProtoError,
>)
    ensures
        match res {
            Ok(rest) => {
                &&& item_in(old(v)@, wire, bytes@) == Ok::<
                    (KeyValueView, Seq<u8>),
                    ProtoErrorView,
                >((final(v)@, rest@))
                &&& rest@.len() <= bytes@.len()
            },
            Err(e) => item_in(old(v)@, wire, bytes@) == Err::<
                (KeyValueView, Seq<u8>),
                ProtoErrorView,
            >(e@),
        },
{
    match take_length(wire, bytes) {
        Err(e) => Err(e),
        Ok((n, body)) => {
            let left: usize = body.len() - n;
            merge_until(v, body, left, true)
        },
    }
}

/// The bytes of a field with a value that may be missing.
pub open spec fn optional_item_field(tag: nat, v: Option<KeyValueView>) -> Seq<u8> {
    match v {
        Some(v) => bytes_field(tag, KeyValue::encoding(v)),
        None => seq![],
    }
}

/// The bytes of the fields with values, one for each.
pub open spec fn item_fields(tag: nat, v: Seq<KeyValueView>) -> Seq<u8>
    decreases v.len(),
{
    if v.len() == 0 {
        seq![]
    } else {
        bytes_field(tag, KeyValue::encoding(v[0])) + item_fields(tag, v.drop_first())
    }
}

/// A number of 32 bits that may be missing, as one of 64 bits.
pub open spec fn widened(v: Option<i32>) -> Option<i64> {
    match v {
        Some(v) => Some(v as i64),
        None => None,
    }
}

fn widen(v: Option<i32>) -> (r: Option<i64>)
    ensures
        r == widened(v),
{
    match v {
        Some(v) => Some(v as i64),
        None => None,
    }
}

/// Appends a field with a value that may be missing.
fn push_optional_item(out: &mut Vec<u8>, tag: u32, v: &Option<KeyValue>)
    requires
        tag < 0x2000_0000,
    ensures
        final(out)@ == old(out)@ + optional_item_field(tag as nat, optional_item(*v)),
{
    match v {
        Some(v) => {
            let b = v.encode_to_vec();
            push_bytes(out, tag, &b);
        },
        None => {},
    }
    assert(out@ =~= old(out)@ + optional_item_field(tag as nat, optional_item(*v)));
}

/// Appends the fields with values.
fn push_items(out: &mut Vec<u8>, tag: u32, v: &Vec<KeyValue>)
    requires
        tag < 0x2000_0000,
    ensures
        final(out)@ == old(out)@ + item_fields(tag as nat, item_views(v@)),
{
    let ghost all = item_views(v@);
    let mut i: usize = 0;
    assert(all.skip(0) =~= all);
    while i < v.len()
        invariant
            tag < 0x2000_0000,
            i <= v@.len(),
            all == item_views(v@),
            out@ + item_fields(tag as nat, all.skip(i as int)) == old(out)@ + item_fields(
                tag as nat,
                all,
            ),
        decreases v.len() - i,
    {
        let b = v[i].encode_to_vec();
        let ghost before = out@;
        push_bytes(out, tag, &b);
        proof {
            assert(all.skip(i as int).drop_first() =~= all.skip(i + 1));
            assert(before + item_fields(tag as nat, all.skip(i as int)) =~= out@ + item_fields(
                tag as nat,
                all.skip(i + 1),
            ));
        }
        i = i + 1;
    }
    assert(out@ =~= out@ + item_fields(tag as nat, all.skip(i as int)));
}

// ---------------------------------------------------------------------------
// GetObjectRequest
// ---------------------------------------------------------------------------

/// Asks for a value.
#[derive(Debug, Clone, PartialEq)]
pub struct GetObjectRequest {
    /// The store.
    pub store_id: String,
    /// The key.
    pub key: String,
}

/// A [`GetObjectRequest`] in mathematical terms.
#[verifier::ext_equal]
pub struct GetObjectRequestView {
    /// See [`GetObjectRequest::store_id`].
    pub store_id: Seq<char>,
    /// See [`GetObjectRequest::key`].
    pub key: Seq<char>,
}

impl View for GetObjectRequest {
    type V = GetObjectRequestView;

    open spec fn view(&self) -> GetObjectRequestView {
        GetObjectRequestView {
            store_id: self.store_id@,
            key: self.key@,
        }
    }
}

impl Message for GetObjectRequest {
    open spec fn blank() -> GetObjectRequestView {
        GetObjectRequestView {
            store_id: Seq::<char>::empty(),
            key: Seq::<char>::empty(),
        }
    }

    open spec fn merged(m: GetObjectRequestView, tag: u32, wire: u8, bytes: Seq<u8>, nested: bool) -> Result<
        (GetObjectRequestView, Seq<u8>),
        ProtoErrorView,
    > {
        if tag == 1 {
            match text_in(wire, bytes) {
                Ok((v, rest)) => Ok((GetObjectRequestView { store_id: v, ..m }, rest)),
                Err(e) => Err(placed(e, "GetObjectRequest"@, "store_id"@)),
            }
        } else if tag == 2 {
            match text_in(wire, bytes) {
                Ok((v, rest)) => Ok((GetObjectRequestView { key: v, ..m }, rest)),
                Err(e) => Err(placed(e, "GetObjectRequest"@, "key"@)),
            }
        } else {
            passed(m, wire, tag, bytes, nested)
        }
    }

    open spec fn encoding(m: GetObjectRequestView) -> Seq<u8> {
        plain_text(1, m.store_id) + plain_text(2, m.key)
    }

    fn empty() -> (m: GetObjectRequest) {
        let m = GetObjectRequest {
            store_id: String::new(),
            key: String::new(),
        };
        assert(m@ =~= GetObjectRequest::blank());
        m
    }

    fn merge_field<'a>(&mut self, tag: u32, wire: u8, bytes: &'a [u8], nested: bool) -> (res: Result<
        &'a [u8],
        ProtoError,
    >) {
        if tag == 1 {
            match take_text(wire, bytes) {
                Ok((v, rest)) => {
                    self.store_id = v;
                    Ok(rest)
                },
                Err(e) => Err(e.at("GetObjectRequest", "store_id")),
            }
        } else if tag == 2 {
            match take_text(wire, bytes) {
                Ok((v, rest)) => {
                    self.key = v;
                    Ok(rest)
                },
                Err(e) => Err(e.at("GetObjectRequest", "key")),
            }
        } else {
            pass_field(wire, tag, bytes, nested)
        }
    }

    fn encode_to_vec(&self) -> (out: Vec<u8>) {
        let mut out: Vec<u8> = Vec::new();
        push_plain_text(&mut out, 1, self.store_id.as_str());
        push_plain_text(&mut out, 2, self.key.as_str());
        assert(out@ =~= GetObjectRequest::encoding(self@));
        out
    }
}

impl GetObjectRequest {
    /// Reads the message.
    pub fn decode(bytes: &[u8]) -> (res: Result<GetObjectRequest, ProtoError>)
        ensures
            match res {
                Ok(m) => decoding::<GetObjectRequest>(bytes@) == Ok::<GetObjectRequestView, ProtoErrorView>(m@),
                Err(e) => decoding::<GetObjectRequest>(bytes@) == Err::<GetObjectRequestView, ProtoErrorView>(e@),
            },
    {
        decode_message::<GetObjectRequest>(bytes)
    }
}

// ---------------------------------------------------------------------------
// GetObjectResponse
// ---------------------------------------------------------------------------

/// Answers with a value.
#[derive(Debug, Clone, PartialEq)]
pub struct GetObjectResponse {
    /// The value.
    pub value: Option<KeyValue>,
}

/// A [`GetObjectResponse`] in mathematical terms.
#[verifier::ext_equal]
pub struct GetObjectResponseView {
    /// See [`GetObjectResponse::value`].
    pub value: Option<KeyValueView>,
}

impl View for GetObjectResponse {
    type V = GetObjectResponseView;

    open spec fn view(&self) -> GetObjectResponseView {
        GetObjectResponseView {
            value: optional_item(self.value),
        }
    }
}

impl Message for GetObjectResponse {
    open spec fn blank() -> GetObjectResponseView {
        GetObjectResponseView {
            value: None,
        }
    }

    open spec fn merged(m: GetObjectResponseView, tag: u32, wire: u8, bytes: Seq<u8>, nested: bool) -> Result<
        (GetObjectResponseView, Seq<u8>),
        ProtoErrorView,
    > {
        if tag == 2 {
            match item_in(item_or_blank(m.value), wire, bytes) {
                Ok((v, rest)) => Ok((GetObjectResponseView { value: Some(v), ..m }, rest)),
                Err(e) => Err(placed(e, "GetObjectResponse"@, "value"@)),
            }
        } else {
            passed(m, wire, tag, bytes, nested)
        }
    }

    open spec fn encoding(m: GetObjectResponseView) -> Seq<u8> {
        optional_item_field(2, m.value)
    }

    fn empty() -> (m: GetObjectResponse) {
        let m = GetObjectResponse {
            value: None,
        };
        assert(m@ =~= GetObjectResponse::blank());
        m
    }

    fn merge_field<'a>(&mut self, tag: u32, wire: u8, bytes: &'a [u8], nested: bool) -> (res: Result<
        &'a [u8],
        ProtoError,
    >) {
        if tag == 2 {
            let mut v = match self.value.take() {
                Some(v) => v,
                None => KeyValue::empty(),
            };
            match merge_item(&mut v, wire, bytes) {
                Ok(rest) => {
                    self.value = Some(v);
                    Ok(rest)
                },
                Err(e) => Err(e.at("GetObjectResponse", "value")),
            }
        } else {
            pass_field(wire, tag, bytes, nested)
        }
    }

    fn encode_to_vec(&self) -> (out: Vec<u8>) {
        let mut out: Vec<u8> = Vec::new();
        push_optional_item(&mut out, 2, &self.value);
        assert(out@ =~= GetObjectResponse::encoding(self@));
        out
    }
}

impl GetObjectResponse {
    /// Reads the message.
    pub fn decode(bytes: &[u8]) -> (res: Result<GetObjectResponse, ProtoError>)
        ensures
            match res {
                Ok(m) => decoding::<GetObjectResponse>(bytes@) == Ok::<GetObjectResponseView, ProtoErrorView>(m@),
                Err(e) => decoding::<GetObjectResponse>(bytes@) == Err::<GetObjectResponseView, ProtoErrorView>(e@),
            },
    {
        decode_message::<GetObjectResponse>(bytes)
    }
}

// ---------------------------------------------------------------------------
// PutObjectRequest
// ---------------------------------------------------------------------------

/// Asks to write and delete values, all or none.
#[derive(Debug, Clone, PartialEq)]
pub struct PutObjectRequest {
    /// The store.
    pub store_id: String,
    /// The version that the store must have.
    pub global_version: Option<i64>,
    /// What to write.
    pub transaction_items: Vec<KeyValue>,
    /// What to delete.
    pub delete_items: Vec<KeyValue>,
}

/// A [`PutObjectRequest`] in mathematical terms.
#[verifier::ext_equal]
pub struct PutObjectRequestView {
    /// See [`PutObjectRequest::store_id`].
    pub store_id: Seq<char>,
    /// See [`PutObjectRequest::global_version`].
    pub global_version: Option<i64>,
    /// See [`PutObjectRequest::transaction_items`].
    pub transaction_items: Seq<KeyValueView>,
    /// See [`PutObjectRequest::delete_items`].
    pub delete_items: Seq<KeyValueView>,
}

impl View for PutObjectRequest {
    type V = PutObjectRequestView;

    open spec fn view(&self) -> PutObjectRequestView {
        PutObjectRequestView {
            store_id: self.store_id@,
            global_version: self.global_version,
            transaction_items: item_views(self.transaction_items@),
            delete_items: item_views(self.delete_items@),
        }
    }
}

impl Message for PutObjectRequest {
    open spec fn blank() -> PutObjectRequestView {
        PutObjectRequestView {
            store_id: Seq::<char>::empty(),
            global_version: None,
            transaction_items: Seq::<KeyValueView>::empty(),
            delete_items: Seq::<KeyValueView>::empty(),
        }
    }

    open spec fn merged(m: PutObjectRequestView, tag: u32, wire: u8, bytes: Seq<u8>, nested: bool) -> Result<
        (PutObjectRequestView, Seq<u8>),
        ProtoErrorView,
    > {
        if tag == 1 {
            match text_in(wire, bytes) {
                Ok((v, rest)) => Ok((PutObjectRequestView { store_id: v, ..m }, rest)),
                Err(e) => Err(placed(e, "PutObjectRequest"@, "store_id"@)),
            }
        } else if tag == 2 {
            match number_in(wire, bytes) {
                Ok((v, rest)) => Ok((PutObjectRequestView { global_version: Some(signed(v)), ..m }, rest)),
                Err(e) => Err(placed(e, "PutObjectRequest"@, "global_version"@)),
            }
        } else if tag == 3 {
            match item_in(KeyValue::blank(), wire, bytes) {
                Ok((v, rest)) => Ok((PutObjectRequestView { transaction_items: m.transaction_items.push(v), ..m }, rest)),
                Err(e) => Err(placed(e, "PutObjectRequest"@, "transaction_items"@)),
            }
        } else if tag == 4 {
            match item_in(KeyValue::blank(), wire, bytes) {
                Ok((v, rest)) => Ok((PutObjectRequestView { delete_items: m.delete_items.push(v), ..m }, rest)),
                Err(e) => Err(placed(e, "PutObjectRequest"@, "delete_items"@)),
            }
        } else {
            passed(m, wire, tag, bytes, nested)
        }
    }

    open spec fn encoding(m: PutObjectRequestView) -> Seq<u8> {
        plain_text(1, m.store_id) + optional_number_field(2, m.global_version) + item_fields(3, m.transaction_items) + item_fields(4, m.delete_items)
    }

    fn empty() -> (m: PutObjectRequest) {
        let m = PutObjectRequest {
            store_id: String::new(),
            global_version: None,
            transaction_items: Vec::new(),
            delete_items: Vec::new(),
        };
        assert(m@ =~= PutObjectRequest::blank());
        m
    }

    fn merge_field<'a>(&mut self, tag: u32, wire: u8, bytes: &'a [u8], nested: bool) -> (res: Result<
        &'a [u8],
        ProtoError,
    >) {
        if tag == 1 {
            match take_text(wire, bytes) {
                Ok((v, rest)) => {
                    self.store_id = v;
                    Ok(rest)
                },
                Err(e) => Err(e.at("PutObjectRequest", "store_id")),
            }
        } else if tag == 2 {
            match take_number(wire, bytes) {
                Ok((v, rest)) => {
                    self.global_version = Some(to_signed(v));
                    Ok(rest)
                },
                Err(e) => Err(e.at("PutObjectRequest", "global_version")),
            }
        } else if tag == 3 {
            let mut v = KeyValue::empty();
            match merge_item(&mut v, wire, bytes) {
                Ok(rest) => {
                    self.transaction_items.push(v);
                    assert(self@.transaction_items =~= old(self)@.transaction_items.push(v@));
                    Ok(rest)
                },
                Err(e) => Err(e.at("PutObjectRequest", "transaction_items")),
            }
        } else if tag == 4 {
            let mut v = KeyValue::empty();
            match merge_item(&mut v, wire, bytes) {
                Ok(rest) => {
                    self.delete_items.push(v);
                    assert(self@.delete_items =~= old(self)@.delete_items.push(v@));
                    Ok(rest)
                },
                Err(e) => Err(e.at("PutObjectRequest", "delete_items")),
            }
        } else {
            pass_field(wire, tag, bytes, nested)
        }
    }

    fn encode_to_vec(&self) -> (out: Vec<u8>) {
        let mut out: Vec<u8> = Vec::new();
        push_plain_text(&mut out, 1, self.store_id.as_str());
        push_optional_number(&mut out, 2, self.global_version);
        push_items(&mut out, 3, &self.transaction_items);
        push_items(&mut out, 4, &self.delete_items);
        assert(out@ =~= PutObjectRequest::encoding(self@));
        out
    }
}

impl PutObjectRequest {
    /// Reads the message.
    pub fn decode(bytes: &[u8]) -> (res: Result<PutObjectRequest, ProtoError>)
        ensures
            match res {
                Ok(m) => decoding::<PutObjectRequest>(bytes@) == Ok::<PutObjectRequestView, ProtoErrorView>(m@),
                Err(e) => decoding::<PutObjectRequest>(bytes@) == Err::<PutObjectRequestView, ProtoErrorView>(e@),
            },
    {
        decode_message::<PutObjectRequest>(bytes)
    }
}

// ---------------------------------------------------------------------------
// PutObjectResponse
// ---------------------------------------------------------------------------

/// Answers that values were written.
#[derive(Debug, Clone, PartialEq)]
pub struct PutObjectResponse {
}

/// A [`PutObjectResponse`] in mathematical terms.
#[verifier::ext_equal]
pub struct PutObjectResponseView {
}

impl View for PutObjectResponse {
    type V = PutObjectResponseView;

    open spec fn view(&self) -> PutObjectResponseView {
        PutObjectResponseView {
        }
    }
}

impl Message for PutObjectResponse {
    open spec fn blank() -> PutObjectResponseView {
        PutObjectResponseView {
        }
    }

    open spec fn merged(m: PutObjectResponseView, tag: u32, wire: u8, bytes: Seq<u8>, nested: bool) -> Result<
        (PutObjectResponseView, Seq<u8>),
        ProtoErrorView,
    > {
        passed(m, wire, tag, bytes, nested)
    }

    open spec fn encoding(m: PutObjectResponseView) -> Seq<u8> {
        seq![]
    }

    fn empty() -> (m: PutObjectResponse) {
        let m = PutObjectResponse {
        };
        assert(m@ =~= PutObjectResponse::blank());
        m
    }

    fn merge_field<'a>(&mut self, tag: u32, wire: u8, bytes: &'a [u8], nested: bool) -> (res: Result<
        &'a [u8],
        ProtoError,
    >) {
        pass_field(wire, tag, bytes, nested)
    }

    fn encode_to_vec(&self) -> (out: Vec<u8>) {
        Vec::new()
    }
}

impl PutObjectResponse {
    /// Reads the message.
    pub fn decode(bytes: &[u8]) -> (res: Result<PutObjectResponse, ProtoError>)
        ensures
            match res {
                Ok(m) => decoding::<PutObjectResponse>(bytes@) == Ok::<PutObjectResponseView, ProtoErrorView>(m@),
                Err(e) => decoding::<PutObjectResponse>(bytes@) == Err::<PutObjectResponseView, ProtoErrorView>(e@),
            },
    {
        decode_message::<PutObjectResponse>(bytes)
    }
}

// ---------------------------------------------------------------------------
// DeleteObjectRequest
// ---------------------------------------------------------------------------

/// Asks to delete a value.
#[derive(Debug, Clone, PartialEq)]
pub struct DeleteObjectRequest {
    /// The store.
    pub store_id: String,
    /// What to delete.
    pub key_value: Option<KeyValue>,
}

/// A [`DeleteObjectRequest`] in mathematical terms.
#[verifier::ext_equal]
pub struct DeleteObjectRequestView {
    /// See [`DeleteObjectRequest::store_id`].
    pub store_id: Seq<char>,
    /// See [`DeleteObjectRequest::key_value`].
    pub key_value: Option<KeyValueView>,
}

impl View for DeleteObjectRequest {
    type V = DeleteObjectRequestView;

    open spec fn view(&self) -> DeleteObjectRequestView {
        DeleteObjectRequestView {
            store_id: self.store_id@,
            key_value: optional_item(self.key_value),
        }
    }
}

impl Message for DeleteObjectRequest {
    open spec fn blank() -> DeleteObjectRequestView {
        DeleteObjectRequestView {
            store_id: Seq::<char>::empty(),
            key_value: None,
        }
    }

    open spec fn merged(m: DeleteObjectRequestView, tag: u32, wire: u8, bytes: Seq<u8>, nested: bool) -> Result<
        (DeleteObjectRequestView, Seq<u8>),
        ProtoErrorView,
    > {
        if tag == 1 {
            match text_in(wire, bytes) {
                Ok((v, rest)) => Ok((DeleteObjectRequestView { store_id: v, ..m }, rest)),
                Err(e) => Err(placed(e, "DeleteObjectRequest"@, "store_id"@)),
            }
        } else if tag == 2 {
            match item_in(item_or_blank(m.key_value), wire, bytes) {
                Ok((v, rest)) => Ok((DeleteObjectRequestView { key_value: Some(v), ..m }, rest)),
                Err(e) => Err(placed(e, "DeleteObjectRequest"@, "key_value"@)),
            }
        } else {
            passed(m, wire, tag, bytes, nested)
        }
    }

    open spec fn encoding(m: DeleteObjectRequestView) -> Seq<u8> {
        plain_text(1, m.store_id) + optional_item_field(2, m.key_value)
    }

    fn empty() -> (m: DeleteObjectRequest) {
        let m = DeleteObjectRequest {
            store_id: String::new(),
            key_value: None,
        };
        assert(m@ =~= DeleteObjectRequest::blank());
        m
    }

    fn merge_field<'a>(&mut self, tag: u32, wire: u8, bytes: &'a [u8], nested: bool) -> (res: Result<
        &'a [u8],
        ProtoError,
    >) {
        if tag == 1 {
            match take_text(wire, bytes) {
                Ok((v, rest)) => {
                    self.store_id = v;
                    Ok(rest)
                },
                Err(e) => Err(e.at("DeleteObjectRequest", "store_id")),
            }
        } else if tag == 2 {
            let mut v = match self.key_value.take() {
                Some(v) => v,
                None => KeyValue::empty(),
            };
            match merge_item(&mut v, wire, bytes) {
                Ok(rest) => {
                    self.key_value = Some(v);
                    Ok(rest)
                },
                Err(e) => Err(e.at("DeleteObjectRequest", "key_value")),
            }
        } else {
            pass_field(wire, tag, bytes, nested)
        }
    }

    fn encode_to_vec(&self) -> (out: Vec<u8>) {
        let mut out: Vec<u8> = Vec::new();
        push_plain_text(&mut out, 1, self.store_id.as_str());
        push_optional_item(&mut out, 2, &self.key_value);
        assert(out@ =~= DeleteObjectRequest::encoding(self@));
        out
    }
}

impl DeleteObjectRequest {
    /// Reads the message.
    pub fn decode(bytes: &[u8]) -> (res: Result<DeleteObjectRequest, ProtoError>)
        ensures
            match res {
                Ok(m) => decoding::<DeleteObjectRequest>(bytes@) == Ok::<DeleteObjectRequestView, ProtoErrorView>(m@),
                Err(e) => decoding::<DeleteObjectRequest>(bytes@) == Err::<DeleteObjectRequestView, ProtoErrorView>(e@),
            },
    {
        decode_message::<DeleteObjectRequest>(bytes)
    }
}

// ---------------------------------------------------------------------------
// DeleteObjectResponse
// ---------------------------------------------------------------------------

/// Answers that a value was deleted.
#[derive(Debug, Clone, PartialEq)]
pub struct DeleteObjectResponse {
}

/// A [`DeleteObjectResponse`] in mathematical terms.
#[verifier::ext_equal]
pub struct DeleteObjectResponseView {
}

impl View for DeleteObjectResponse {
    type V = DeleteObjectResponseView;

    open spec fn view(&self) -> DeleteObjectResponseView {
        DeleteObjectResponseView {
        }
    }
}

impl Message for DeleteObjectResponse {
    open spec fn blank() -> DeleteObjectResponseView {
        DeleteObjectResponseView {
        }
    }

    open spec fn merged(m: DeleteObjectResponseView, tag: u32, wire: u8, bytes: Seq<u8>, nested: bool) -> Result<
        (DeleteObjectResponseView, Seq<u8>),
        ProtoErrorView,
    > {
        passed(m, wire, tag, bytes, nested)
    }

    open spec fn encoding(m: DeleteObjectResponseView) -> Seq<u8> {
        seq![]
    }

    fn empty() -> (m: DeleteObjectResponse) {
        let m = DeleteObjectResponse {
        };
        assert(m@ =~= DeleteObjectResponse::blank());
        m
    }

    fn merge_field<'a>(&mut self, tag: u32, wire: u8, bytes: &'a [u8], nested: bool) -> (res: Result<
        &'a [u8],
        ProtoError,
    >) {
        pass_field(wire, tag, bytes, nested)
    }

    fn encode_to_vec(&self) -> (out: Vec<u8>) {
        Vec::new()
    }
}

impl DeleteObjectResponse {
    /// Reads the message.
    pub fn decode(bytes: &[u8]) -> (res: Result<DeleteObjectResponse, ProtoError>)
        ensures
            match res {
                Ok(m) => decoding::<DeleteObjectResponse>(bytes@) == Ok::<DeleteObjectResponseView, ProtoErrorView>(m@),
                Err(e) => decoding::<DeleteObjectResponse>(bytes@) == Err::<DeleteObjectResponseView, ProtoErrorView>(e@),
            },
    {
        decode_message::<DeleteObjectResponse>(bytes)
    }
}

// ---------------------------------------------------------------------------
// ListKeyVersionsRequest
// ---------------------------------------------------------------------------

/// Asks for keys and their versions.
#[derive(Debug, Clone, PartialEq)]
pub struct ListKeyVersionsRequest {
    /// The store.
    pub store_id: String,
    /// What the keys start with.
    pub key_prefix: Option<String>,
    /// The most that one answer may hold.
    pub page_size: Option<i32>,
    /// Where the last answer ended.
    pub page_token: Option<String>,
}

/// A [`ListKeyVersionsRequest`] in mathematical terms.
#[verifier::ext_equal]
pub struct ListKeyVersionsRequestView {
    /// See [`ListKeyVersionsRequest::store_id`].
    pub store_id: Seq<char>,
    /// See [`ListKeyVersionsRequest::key_prefix`].
    pub key_prefix: Option<Seq<char>>,
    /// See [`ListKeyVersionsRequest::page_size`].
    pub page_size: Option<i32>,
    /// See [`ListKeyVersionsRequest::page_token`].
    pub page_token: Option<Seq<char>>,
}

impl View for ListKeyVersionsRequest {
    type V = ListKeyVersionsRequestView;

    open spec fn view(&self) -> ListKeyVersionsRequestView {
        ListKeyVersionsRequestView {
            store_id: self.store_id@,
            key_prefix: optional_text(self.key_prefix),
            page_size: self.page_size,
            page_token: optional_text(self.page_token),
        }
    }
}

impl Message for ListKeyVersionsRequest {
    open spec fn blank() -> ListKeyVersionsRequestView {
        ListKeyVersionsRequestView {
            store_id: Seq::<char>::empty(),
            key_prefix: None,
            page_size: None,
            page_token: None,
        }
    }

    open spec fn merged(m: ListKeyVersionsRequestView, tag: u32, wire: u8, bytes: Seq<u8>, nested: bool) -> Result<
        (ListKeyVersionsRequestView, Seq<u8>),
        ProtoErrorView,
    > {
        if tag == 1 {
            match text_in(wire, bytes) {
                Ok((v, rest)) => Ok((ListKeyVersionsRequestView { store_id: v, ..m }, rest)),
                Err(e) => Err(placed(e, "ListKeyVersionsRequest"@, "store_id"@)),
            }
        } else if tag == 2 {
            match text_in(wire, bytes) {
                Ok((v, rest)) => Ok((ListKeyVersionsRequestView { key_prefix: Some(v), ..m }, rest)),
                Err(e) => Err(placed(e, "ListKeyVersionsRequest"@, "key_prefix"@)),
            }
        } else if tag == 3 {
            match number_in(wire, bytes) {
                Ok((v, rest)) => Ok((ListKeyVersionsRequestView { page_size: Some(signed_low(v)), ..m }, rest)),
                Err(e) => Err(placed(e, "ListKeyVersionsRequest"@, "page_size"@)),
            }
        } else if tag == 4 {
            match text_in(wire, bytes) {
                Ok((v, rest)) => Ok((ListKeyVersionsRequestView { page_token: Some(v), ..m }, rest)),
                Err(e) => Err(placed(e, "ListKeyVersionsRequest"@, "page_token"@)),
            }
        } else {
            passed(m, wire, tag, bytes, nested)
        }
    }

    open spec fn encoding(m: ListKeyVersionsRequestView) -> Seq<u8> {
        plain_text(1, m.store_id) + optional_text_field(2, m.key_prefix) + optional_number_field(3, widened(m.page_size)) + optional_text_field(4, m.page_token)
    }

    fn empty() -> (m: ListKeyVersionsRequest) {
        let m = ListKeyVersionsRequest {
            store_id: String::new(),
            key_prefix: None,
            page_size: None,
            page_token: None,
        };
        assert(m@ =~= ListKeyVersionsRequest::blank());
        m
    }

    fn merge_field<'a>(&mut self, tag: u32, wire: u8, bytes: &'a [u8], nested: bool) -> (res: Result<
        &'a [u8],
        ProtoError,
    >) {
        if tag == 1 {
            match take_text(wire, bytes) {
                Ok((v, rest)) => {
                    self.store_id = v;
                    Ok(rest)
                },
                Err(e) => Err(e.at("ListKeyVersionsRequest", "store_id")),
            }
        } else if tag == 2 {
            match take_text(wire, bytes) {
                Ok((v, rest)) => {
                    self.key_prefix = Some(v);
                    Ok(rest)
                },
                Err(e) => Err(e.at("ListKeyVersionsRequest", "key_prefix")),
            }
        } else if tag == 3 {
            match take_number(wire, bytes) {
                Ok((v, rest)) => {
                    self.page_size = Some(to_signed_low(v));
                    Ok(rest)
                },
                Err(e) => Err(e.at("ListKeyVersionsRequest", "page_size")),
            }
        } else if tag == 4 {
            match take_text(wire, bytes) {
                Ok((v, rest)) => {
                    self.page_token = Some(v);
                    Ok(rest)
                },
                Err(e) => Err(e.at("ListKeyVersionsRequest", "page_token")),
            }
        } else {
            pass_field(wire, tag, bytes, nested)
        }
    }

    fn encode_to_vec(&self) -> (out: Vec<u8>) {
        let mut out: Vec<u8> = Vec::new();
        push_plain_text(&mut out, 1, self.store_id.as_str());
        push_optional_text(&mut out, 2, &self.key_prefix);
        push_optional_number(&mut out, 3, widen(self.page_size));
        push_optional_text(&mut out, 4, &self.page_token);
        assert(out@ =~= ListKeyVersionsRequest::encoding(self@));
        out
    }
}

impl ListKeyVersionsRequest {
    /// Reads the message.
    pub fn decode(bytes: &[u8]) -> (res: Result<ListKeyVersionsRequest, ProtoError>)
        ensures
            match res {
                Ok(m) => decoding::<ListKeyVersionsRequest>(bytes@) == Ok::<ListKeyVersionsRequestView, ProtoErrorView>(m@),
                Err(e) => decoding::<ListKeyVersionsRequest>(bytes@) == Err::<ListKeyVersionsRequestView, ProtoErrorView>(e@),
            },
    {
        decode_message::<ListKeyVersionsRequest>(bytes)
    }
}

// ---------------------------------------------------------------------------
// ListKeyVersionsResponse
// ---------------------------------------------------------------------------

/// Answers with keys and their versions.
#[derive(Debug, Clone, PartialEq)]
pub struct ListKeyVersionsResponse {
    /// The keys and versions.
    pub key_versions: Vec<KeyValue>,
    /// Where the answer ended; missing or empty at the end of all.
    pub next_page_token: Option<String>,
    /// The version of the store.
    pub global_version: Option<i64>,
}

/// A [`ListKeyVersionsResponse`] in mathematical terms.
#[verifier::ext_equal]
pub struct ListKeyVersionsResponseView {
    /// See [`ListKeyVersionsResponse::key_versions`].
    pub key_versions: Seq<KeyValueView>,
    /// See [`ListKeyVersionsResponse::next_page_token`].
    pub next_page_token: Option<Seq<char>>,
    /// See [`ListKeyVersionsResponse::global_version`].
    pub global_version: Option<i64>,
}

impl View for ListKeyVersionsResponse {
    type V = ListKeyVersionsResponseView;

    open spec fn view(&self) -> ListKeyVersionsResponseView {
        ListKeyVersionsResponseView {
            key_versions: item_views(self.key_versions@),
            next_page_token: optional_text(self.next_page_token),
            global_version: self.global_version,
        }
    }
}

impl Message for ListKeyVersionsResponse {
    open spec fn blank() -> ListKeyVersionsResponseView {
        ListKeyVersionsResponseView {
            key_versions: Seq::<KeyValueView>::empty(),
            next_page_token: None,
            global_version: None,
        }
    }

    open spec fn merged(m: ListKeyVersionsResponseView, tag: u32, wire: u8, bytes: Seq<u8>, nested: bool) -> Result<
        (ListKeyVersionsResponseView, Seq<u8>),
        ProtoErrorView,
    > {
        if tag == 1 {
            match item_in(KeyValue::blank(), wire, bytes) {
                Ok((v, rest)) => Ok((ListKeyVersionsResponseView { key_versions: m.key_versions.push(v), ..m }, rest)),
                Err(e) => Err(placed(e, "ListKeyVersionsResponse"@, "key_versions"@)),
            }
        } else if tag == 2 {
            match text_in(wire, bytes) {
                Ok((v, rest)) => Ok((ListKeyVersionsResponseView { next_page_token: Some(v), ..m }, rest)),
                Err(e) => Err(placed(e, "ListKeyVersionsResponse"@, "next_page_token"@)),
            }
        } else if tag == 3 {
            match number_in(wire, bytes) {
                Ok((v, rest)) => Ok((ListKeyVersionsResponseView { global_version: Some(signed(v)), ..m }, rest)),
                Err(e) => Err(placed(e, "ListKeyVersionsResponse"@, "global_version"@)),
            }
        } else {
            passed(m, wire, tag, bytes, nested)
        }
    }

    open spec fn encoding(m: ListKeyVersionsResponseView) -> Seq<u8> {
        item_fields(1, m.key_versions) + optional_text_field(2, m.next_page_token) + optional_number_field(3, m.global_version)
    }

    fn empty() -> (m: ListKeyVersionsResponse) {
        let m = ListKeyVersionsResponse {
            key_versions: Vec::new(),
            next_page_token: None,
            global_version: None,
        };
        assert(m@ =~= ListKeyVersionsResponse::blank());
        m
    }

    fn merge_field<'a>(&mut self, tag: u32, wire: u8, bytes: &'a [u8], nested: bool) -> (res: Result<
        &'a [u8],
        ProtoError,
    >) {
        if tag == 1 {
            let mut v = KeyValue::empty();
            match merge_item(&mut v, wire, bytes) {
                Ok(rest) => {
                    self.key_versions.push(v);
                    assert(self@.key_versions =~= old(self)@.key_versions.push(v@));
                    Ok(rest)
                },
                Err(e) => Err(e.at("ListKeyVersionsResponse", "key_versions")),
            }
        } else if tag == 2 {
            match take_text(wire, bytes) {
                Ok((v, rest)) => {
                    self.next_page_token = Some(v);
                    Ok(rest)
                },
                Err(e) => Err(e.at("ListKeyVersionsResponse", "next_page_token")),
            }
        } else if tag == 3 {
            match take_number(wire, bytes) {
                Ok((v, rest)) => {
                    self.global_version = Some(to_signed(v));
                    Ok(rest)
                },
                Err(e) => Err(e.at("ListKeyVersionsResponse", "global_version")),
            }
        } else {
            pass_field(wire, tag, bytes, nested)
        }
    }

    fn encode_to_vec(&self) -> (out: Vec<u8>) {
        let mut out: Vec<u8> = Vec::new();
        push_items(&mut out, 1, &self.key_versions);
        push_optional_text(&mut out, 2, &self.next_page_token);
        push_optional_number(&mut out, 3, self.global_version);
        assert(out@ =~= ListKeyVersionsResponse::encoding(self@));
        out
    }
}

impl ListKeyVersionsResponse {
    /// Reads the message.
    pub fn decode(bytes: &[u8]) -> (res: Result<ListKeyVersionsResponse, ProtoError>)
        ensures
            match res {
                Ok(m) => decoding::<ListKeyVersionsResponse>(bytes@) == Ok::<ListKeyVersionsResponseView, ProtoErrorView>(m@),
                Err(e) => decoding::<ListKeyVersionsResponse>(bytes@) == Err::<ListKeyVersionsResponseView, ProtoErrorView>(e@),
            },
    {
        decode_message::<ListKeyVersionsResponse>(bytes)
    }
}

// ---------------------------------------------------------------------------
// ErrorResponse
// ---------------------------------------------------------------------------

/// Answers that a request failed.
#[derive(Debug, Clone, PartialEq)]
pub struct ErrorResponse {
    /// Why; see [`ErrorCode`].
    pub error_code: i32,
    /// Why, in words.
    pub message: String,
}

/// A [`ErrorResponse`] in mathematical terms.
#[verifier::ext_equal]
pub struct ErrorResponseView {
    /// See [`ErrorResponse::error_code`].
    pub error_code: i32,
    /// See [`ErrorResponse::message`].
    pub message: Seq<char>,
}

impl View for ErrorResponse {
    type V = ErrorResponseView;

    open spec fn view(&self) -> ErrorResponseView {
        ErrorResponseView {
            error_code: self.error_code,
            message: self.message@,
        }
    }
}

impl Message for ErrorResponse {
    open spec fn blank() -> ErrorResponseView {
        ErrorResponseView {
            error_code: 0,
            message: Seq::<char>::empty(),
        }
    }

    open spec fn merged(m: ErrorResponseView, tag: u32, wire: u8, bytes: Seq<u8>, nested: bool) -> Result<
        (ErrorResponseView, Seq<u8>),
        ProtoErrorView,
    > {
        if tag == 1 {
            match number_in(wire, bytes) {
                Ok((v, rest)) => Ok((ErrorResponseView { error_code: signed_low(v), ..m }, rest)),
                Err(e) => Err(placed(e, "ErrorResponse"@, "error_code"@)),
            }
        } else if tag == 2 {
            match text_in(wire, bytes) {
                Ok((v, rest)) => Ok((ErrorResponseView { message: v, ..m }, rest)),
                Err(e) => Err(placed(e, "ErrorResponse"@, "message"@)),
            }
        } else {
            passed(m, wire, tag, bytes, nested)
        }
    }

    open spec fn encoding(m: ErrorResponseView) -> Seq<u8> {
        plain_number(1, m.error_code as i64) + plain_text(2, m.message)
    }

    fn empty() -> (m: ErrorResponse) {
        let m = ErrorResponse {
            error_code: 0,
            message: String::new(),
        };
        assert(m@ =~= ErrorResponse::blank());
        m
    }

    fn merge_field<'a>(&mut self, tag: u32, wire: u8, bytes: &'a [u8], nested: bool) -> (res: Result<
        &'a [u8],
        ProtoError,
    >) {
        if tag == 1 {
            match take_number(wire, bytes) {
                Ok((v, rest)) => {
                    self.error_code = to_signed_low(v);
                    Ok(rest)
                },
                Err(e) => Err(e.at("ErrorResponse", "error_code")),
            }
        } else if tag == 2 {
            match take_text(wire, bytes) {
                Ok((v, rest)) => {
                    self.message = v;
                    Ok(rest)
                },
                Err(e) => Err(e.at("ErrorResponse", "message")),
            }
        } else {
            pass_field(wire, tag, bytes, nested)
        }
    }

    fn encode_to_vec(&self) -> (out: Vec<u8>) {
        let mut out: Vec<u8> = Vec::new();
        push_plain_number(&mut out, 1, self.error_code as i64);
        push_plain_text(&mut out, 2, self.message.as_str());
        assert(out@ =~= ErrorResponse::encoding(self@));
        out
    }
}

impl ErrorResponse {
    /// Reads the message.
    pub fn decode(bytes: &[u8]) -> (res: Result<ErrorResponse, ProtoError>)
        ensures
            match res {
                Ok(m) => decoding::<ErrorResponse>(bytes@) == Ok::<ErrorResponseView, ProtoErrorView>(m@),
                Err(e) => decoding::<ErrorResponse>(bytes@) == Err::<ErrorResponseView, ProtoErrorView>(e@),
            },
    {
        decode_message::<ErrorResponse>(bytes)
    }
}

/// Why a request failed.
#[derive(Debug, Clone, Copy, PartialEq, Eq, Structural)]
pub enum ErrorCode {
    /// For no known reason.
    Unknown,
    /// A version was not the one that the store has.
    ConflictException,
    /// The request makes no sense.
    InvalidRequestException,
    /// The server failed.
    InternalServerException,
    /// There is no such key.
    NoSuchKeyException,
    /// The client may not do it.
    AuthException,
}

/// The number of an error code.
pub open spec fn code_number(code: ErrorCode) -> i32 {
    match code {
        ErrorCode::Unknown => 0,
        ErrorCode::ConflictException => 1,
        ErrorCode::InvalidRequestException => 2,
        ErrorCode::InternalServerException => 3,
        ErrorCode::NoSuchKeyException => 4,
        ErrorCode::AuthException => 5,
    }
}

impl ErrorCode {
    /// The number of the code.
    pub fn number(&self) -> (n: i32)
        ensures
            n == code_number(*self),
    {
        match self {
            ErrorCode::Unknown => 0,
            ErrorCode::ConflictException => 1,
            ErrorCode::InvalidRequestException => 2,
            ErrorCode::InternalServerException => 3,
            ErrorCode::NoSuchKeyException => 4,
            ErrorCode::AuthException => 5,
        }
    }
}

// ---------------------------------------------------------------------------
// Round trips
// ---------------------------------------------------------------------------

/// A number reads back as it was written, and what follows it is left.
proof fn lemma_varint_reads_back(n: nat, x: Seq<u8>, count: nat)
    requires
        count <= 9,
        n < varint_bound(count),
    ensures
        varint_from(varint(n) + x, count) == Some((n, varint(n).len())),
        (varint(n) + x).skip(varint(n).len() as int) == x,
    decreases n,
{
    let bytes = varint(n) + x;
    assert(bytes.skip(varint(n).len() as int) =~= x);
    if n < 128 {
        assert(bytes[0] == n);
    } else {
        assert(count < 9);
        assert(bytes[0] == (n % 128 + 128) as u8);
        assert(bytes.drop_first() =~= varint(n / 128) + x);
        lemma_varint_reads_back(n / 128, x, count + 1);
    }
}

/// The key of a field reads back.
proof fn lemma_key_reads_back(tag: u32, wire: u8, rest: Seq<u8>)
    requires
        0 < tag < 0x2000_0000,
        wire <= WIRE_MAX,
    ensures
        key_in(varint(tag as nat * 8 + wire as nat) + rest) == Ok::<
            (u32, u8, Seq<u8>),
            ProtoErrorView,
        >((tag, wire, rest)),
        varint(tag as nat * 8 + wire as nat).len() > 0,
{
    lemma_varint_bound_full();
    let key = tag as nat * 8 + wire as nat;
    lemma_varint_reads_back(key, rest, 0);
}

/// A field with a number takes a message one step on.
proof fn lemma_number_step<M>(
    f: spec_fn(M, u32, u8, Seq<u8>) -> Result<(M, Seq<u8>), ProtoErrorView>,
    before: M,
    after: M,
    tag: u32,
    n: u64,
    rest: Seq<u8>,
    left: nat,
)
    requires
        0 < tag < 0x2000_0000,
        left <= rest.len(),
        number_in(WIRE_VARINT, varint(n as nat) + rest) == Ok::<(u64, Seq<u8>), ProtoErrorView>(
            (n, rest),
        ) ==> f(before, tag, WIRE_VARINT, varint(n as nat) + rest) == Ok::<
            (M, Seq<u8>),
            ProtoErrorView,
        >((after, rest)),
    ensures
        merged_until(f, before, number_field(tag as nat, n) + rest, left) == merged_until(
            f,
            after,
            rest,
            left,
        ),
{
    lemma_varint_bound_full();
    let tail = varint(n as nat) + rest;
    assert(number_field(tag as nat, n) + rest =~= varint(tag as nat * 8 + 0) + tail);
    lemma_key_reads_back(tag, WIRE_VARINT, tail);
    lemma_varint_reads_back(n as nat, rest, 0);
}

/// The length of bytes, and the bytes, read back.
proof fn lemma_length_reads_back(b: Seq<u8>, rest: Seq<u8>)
    requires
        b.len() <= u64::MAX,
    ensures
        length_in(WIRE_BYTES, varint(b.len()) + b + rest) == Ok::<(nat, Seq<u8>), ProtoErrorView>(
            (b.len(), b + rest),
        ),
        bytes_in(WIRE_BYTES, varint(b.len()) + b + rest) == Ok::<(Seq<u8>, Seq<u8>), ProtoErrorView>(
            (b, rest),
        ),
{
    lemma_varint_bound_full();
    assert(varint(b.len()) + b + rest =~= varint(b.len()) + (b + rest));
    lemma_varint_reads_back(b.len(), b + rest, 0);
    assert((b + rest).take(b.len() as int) =~= b);
    assert((b + rest).skip(b.len() as int) =~= rest);
}

/// A field with bytes takes a message one step on.
proof fn lemma_bytes_step<M>(
    f: spec_fn(M, u32, u8, Seq<u8>) -> Result<(M, Seq<u8>), ProtoErrorView>,
    before: M,
    after: M,
    tag: u32,
    b: Seq<u8>,
    rest: Seq<u8>,
    left: nat,
)
    requires
        0 < tag < 0x2000_0000,
        b.len() <= u64::MAX,
        left <= rest.len(),
        bytes_in(WIRE_BYTES, varint(b.len()) + b + rest) == Ok::<(Seq<u8>, Seq<u8>), ProtoErrorView>(
            (b, rest),
        ) ==> f(before, tag, WIRE_BYTES, varint(b.len()) + b + rest) == Ok::<
            (M, Seq<u8>),
            ProtoErrorView,
        >((after, rest)),
    ensures
        merged_until(f, before, bytes_field(tag as nat, b) + rest, left) == merged_until(
            f,
            after,
            rest,
            left,
        ),
{
    let tail = varint(b.len()) + b + rest;
    assert(bytes_field(tag as nat, b) + rest =~= varint(tag as nat * 8 + 2) + tail);
    lemma_key_reads_back(tag, WIRE_BYTES, tail);
    lemma_length_reads_back(b, rest);
}

/// What is said of [`lemma_bytes_step`], for bytes that are left out where there
/// are none.
proof fn lemma_plain_bytes_step<M>(
    f: spec_fn(M, u32, u8, Seq<u8>) -> Result<(M, Seq<u8>), ProtoErrorView>,
    before: M,
    after: M,
    tag: u32,
    b: Seq<u8>,
    rest: Seq<u8>,
    left: nat,
)
    requires
        0 < tag < 0x2000_0000,
        b.len() <= u64::MAX,
        left <= rest.len(),
        bytes_in(WIRE_BYTES, varint(b.len()) + b + rest) == Ok::<(Seq<u8>, Seq<u8>), ProtoErrorView>(
            (b, rest),
        ) ==> f(before, tag, WIRE_BYTES, varint(b.len()) + b + rest) == Ok::<
            (M, Seq<u8>),
            ProtoErrorView,
        >((after, rest)),
        b.len() == 0 ==> before == after,
    ensures
        merged_until(f, before, plain_bytes(tag as nat, b) + rest, left) == merged_until(
            f,
            after,
            rest,
            left,
        ),
{
    if b.len() == 0 {
        assert(plain_bytes(tag as nat, b) + rest =~= rest);
    } else {
        lemma_bytes_step(f, before, after, tag, b, rest, left);
    }
}

/// What is said of [`lemma_number_step`], for a number that is left out where it
/// is zero.
proof fn lemma_plain_number_step<M>(
    f: spec_fn(M, u32, u8, Seq<u8>) -> Result<(M, Seq<u8>), ProtoErrorView>,
    before: M,
    after: M,
    tag: u32,
    v: i64,
    rest: Seq<u8>,
    left: nat,
)
    requires
        0 < tag < 0x2000_0000,
        left <= rest.len(),
        number_in(WIRE_VARINT, varint(unsigned(v) as nat) + rest) == Ok::<
            (u64, Seq<u8>),
            ProtoErrorView,
        >((unsigned(v), rest)) ==> f(
            before,
            tag,
            WIRE_VARINT,
            varint(unsigned(v) as nat) + rest,
        ) == Ok::<(M, Seq<u8>), ProtoErrorView>((after, rest)),
        v == 0 ==> before == after,
    ensures
        merged_until(f, before, plain_number(tag as nat, v) + rest, left) == merged_until(
            f,
            after,
            rest,
            left,
        ),
{
    if v == 0 {
        assert(plain_number(tag as nat, v) + rest =~= rest);
    } else {
        lemma_number_step(f, before, after, tag, unsigned(v), rest, left);
    }
}

/// What is said of [`lemma_number_step`], for a number that may be missing.
proof fn lemma_optional_number_step<M>(
    f: spec_fn(M, u32, u8, Seq<u8>) -> Result<(M, Seq<u8>), ProtoErrorView>,
    before: M,
    after: M,
    tag: u32,
    v: Option<i64>,
    rest: Seq<u8>,
    left: nat,
)
    requires
        0 < tag < 0x2000_0000,
        left <= rest.len(),
        match v {
            Some(v) => number_in(WIRE_VARINT, varint(unsigned(v) as nat) + rest) == Ok::<
                (u64, Seq<u8>),
                ProtoErrorView,
            >((unsigned(v), rest)) ==> f(
                before,
                tag,
                WIRE_VARINT,
                varint(unsigned(v) as nat) + rest,
            ) == Ok::<(M, Seq<u8>), ProtoErrorView>((after, rest)),
            None => before == after,
        },
    ensures
        merged_until(f, before, optional_number_field(tag as nat, v) + rest, left) == merged_until(
            f,
            after,
            rest,
            left,
        ),
{
    match v {
        Some(v) => {
            lemma_number_step(f, before, after, tag, unsigned(v), rest, left);
        },
        None => {
            assert(optional_number_field(tag as nat, v) + rest =~= rest);
        },
    }
}

/// What is said of [`lemma_bytes_step`], for a text that may be missing.
proof fn lemma_optional_text_step<M>(
    f: spec_fn(M, u32, u8, Seq<u8>) -> Result<(M, Seq<u8>), ProtoErrorView>,
    before: M,
    after: M,
    tag: u32,
    s: Option<Seq<char>>,
    rest: Seq<u8>,
    left: nat,
)
    requires
        0 < tag < 0x2000_0000,
        left <= rest.len(),
        match s {
            Some(s) => {
                let b = encode_utf8(s);
                &&& b.len() <= u64::MAX
                &&& bytes_in(WIRE_BYTES, varint(b.len()) + b + rest) == Ok::<
                    (Seq<u8>, Seq<u8>),
                    ProtoErrorView,
                >((b, rest)) ==> f(before, tag, WIRE_BYTES, varint(b.len()) + b + rest) == Ok::<
                    (M, Seq<u8>),
                    ProtoErrorView,
                >((after, rest))
            },
            None => before == after,
        },
    ensures
        merged_until(f, before, optional_text_field(tag as nat, s) + rest, left) == merged_until(
            f,
            after,
            rest,
            left,
        ),
{
    match s {
        Some(s) => {
            lemma_bytes_step(f, before, after, tag, encode_utf8(s), rest, left);
        },
        None => {
            assert(optional_text_field(tag as nat, s) + rest =~= rest);
        },
    }
}

/// The bytes of a text hold the text.
proof fn lemma_text_in(s: Seq<char>)
    ensures
        valid_utf8(encode_utf8(s)),
        decode_utf8(encode_utf8(s)) == s,
        encode_utf8(s).len() == 0 ==> s == Seq::<char>::empty(),
{
    encode_utf8_valid_utf8(s);
    encode_utf8_decode_utf8(s);
    if encode_utf8(s).len() == 0 {
        assert(encode_utf8(s) =~= encode_utf8(Seq::<char>::empty()));
        encode_utf8_decode_utf8(Seq::<char>::empty());
    }
}

/// A number of 64 bits keeps its value by way of the unsigned one, and so does
/// one of 32 bits.
proof fn lemma_signed_back(v: i64)
    ensures
        signed(unsigned(v)) == v,
        i32::MIN <= v <= i32::MAX ==> signed_low(unsigned(v)) == v,
{
}

/// Whether a text has a number of bytes that a protobuf message can hold.
pub open spec fn text_fits(s: Seq<char>) -> bool {
    encode_utf8(s).len() <= u64::MAX
}

/// Whether a text, where there is one, has a number of bytes that a protobuf
/// message can hold.
pub open spec fn optional_text_fits(s: Option<Seq<char>>) -> bool {
    s matches Some(s) ==> text_fits(s)
}

/// Whether a value has lengths that a protobuf message can hold, as every value in
/// memory has.
pub open spec fn item_fits(m: KeyValueView) -> bool {
    text_fits(m.key) && m.value.len() <= u64::MAX && KeyValue::encoding(m).len() <= u64::MAX
}

/// Whether all of some values have lengths that a protobuf message can hold.
pub open spec fn items_fit(v: Seq<KeyValueView>) -> bool {
    forall|i: int| 0 <= i < v.len() ==> item_fits(#[trigger] v[i])
}

/// A value reads back as it was written, by itself or inside a message, and what follows
/// it is left.
proof fn lemma_key_value_reads_back(m: KeyValueView, rest: Seq<u8>, nested: bool)
    requires
        item_fits(m),
    ensures
        merging::<KeyValue>(KeyValue::blank(), KeyValue::encoding(m) + rest, rest.len(), nested)
            == Ok::<(KeyValueView, Seq<u8>), ProtoErrorView>((m, rest)),
{
    let f = |m: KeyValueView, tag: u32, wire: u8, bytes: Seq<u8>|
        KeyValue::merged(m, tag, wire, bytes, nested);
    let left = rest.len();
    let m0 = KeyValue::blank();
    let m1 = KeyValueView { key: m.key, ..m0 };
    let m2 = KeyValueView { version: m.version, ..m1 };
    let r3 = plain_bytes(3, m.value) + rest;
    let r2 = plain_number(2, m.version) + r3;
    lemma_text_in(m.key);
    lemma_signed_back(m.version);
    assert(KeyValue::encoding(m) + rest =~= plain_text(1, m.key) + r2);
    lemma_plain_bytes_step(f, m0, m1, 1, encode_utf8(m.key), r2, left);
    lemma_plain_number_step(f, m1, m2, 2, m.version, r3, left);
    if m.value.len() == 0 {
        assert(m.value =~= Seq::<u8>::empty());
    }
    lemma_plain_bytes_step(f, m2, m, 3, m.value, rest, left);
}

/// A value inside a message reads back as it was written.
proof fn lemma_item_in(m: KeyValueView, rest: Seq<u8>)
    requires
        item_fits(m),
    ensures
        ({
            let b = KeyValue::encoding(m);
            item_in(KeyValue::blank(), WIRE_BYTES, varint(b.len()) + b + rest) == Ok::<
                (KeyValueView, Seq<u8>),
                ProtoErrorView,
            >((m, rest))
        }),
{
    let b = KeyValue::encoding(m);
    lemma_length_reads_back(b, rest);
    lemma_key_value_reads_back(m, rest, true);
}

/// A value reads back as it was written.
pub proof fn law_key_value_roundtrip(m: KeyValueView)
    requires
        item_fits(m),
    ensures
        decoding::<KeyValue>(KeyValue::encoding(m)) == Ok::<KeyValueView, ProtoErrorView>(m),
{
    let e = Seq::<u8>::empty();
    lemma_key_value_reads_back(m, e, false);
    assert(KeyValue::encoding(m) + e =~= KeyValue::encoding(m));
}

/// A request for a value reads back as it was written.
pub proof fn law_get_object_request_roundtrip(m: GetObjectRequestView)
    requires
        text_fits(m.store_id),
        text_fits(m.key),
    ensures
        decoding::<GetObjectRequest>(GetObjectRequest::encoding(m)) == Ok::<
            GetObjectRequestView,
            ProtoErrorView,
        >(m),
{
    let f = |m: GetObjectRequestView, tag: u32, wire: u8, bytes: Seq<u8>|
        GetObjectRequest::merged(m, tag, wire, bytes, false);
    let e = Seq::<u8>::empty();
    let m0 = GetObjectRequest::blank();
    let m1 = GetObjectRequestView { store_id: m.store_id, ..m0 };
    let r2 = plain_text(2, m.key) + e;
    lemma_text_in(m.store_id);
    lemma_text_in(m.key);
    assert(GetObjectRequest::encoding(m) =~= plain_text(1, m.store_id) + r2);
    lemma_plain_bytes_step(f, m0, m1, 1, encode_utf8(m.store_id), r2, 0);
    lemma_plain_bytes_step(f, m1, m, 2, encode_utf8(m.key), e, 0);
}

/// An answer with a value reads back as it was written.
pub proof fn law_get_object_response_roundtrip(m: GetObjectResponseView)
    requires
        m.value matches Some(v) ==> item_fits(v),
    ensures
        decoding::<GetObjectResponse>(GetObjectResponse::encoding(m)) == Ok::<
            GetObjectResponseView,
            ProtoErrorView,
        >(m),
{
    let f = |m: GetObjectResponseView, tag: u32, wire: u8, bytes: Seq<u8>|
        GetObjectResponse::merged(m, tag, wire, bytes, false);
    let e = Seq::<u8>::empty();
    let m0 = GetObjectResponse::blank();
    match m.value {
        Some(v) => {
            let b = KeyValue::encoding(v);
            lemma_item_in(v, e);
            assert(GetObjectResponse::encoding(m) =~= bytes_field(2, b) + e);
            lemma_bytes_step(f, m0, m, 2, b, e, 0);
        },
        None => {},
    }
}

/// A request to delete reads back as it was written.
pub proof fn law_delete_object_request_roundtrip(m: DeleteObjectRequestView)
    requires
        text_fits(m.store_id),
        m.key_value matches Some(v) ==> item_fits(v),
    ensures
        decoding::<DeleteObjectRequest>(DeleteObjectRequest::encoding(m)) == Ok::<
            DeleteObjectRequestView,
            ProtoErrorView,
        >(m),
{
    let f = |m: DeleteObjectRequestView, tag: u32, wire: u8, bytes: Seq<u8>|
        DeleteObjectRequest::merged(m, tag, wire, bytes, false);
    let e = Seq::<u8>::empty();
    let m0 = DeleteObjectRequest::blank();
    let m1 = DeleteObjectRequestView { store_id: m.store_id, ..m0 };
    let r2 = optional_item_field(2, m.key_value) + e;
    lemma_text_in(m.store_id);
    assert(DeleteObjectRequest::encoding(m) =~= plain_text(1, m.store_id) + r2);
    lemma_plain_bytes_step(f, m0, m1, 1, encode_utf8(m.store_id), r2, 0);
    match m.key_value {
        Some(v) => {
            lemma_item_in(v, e);
            lemma_bytes_step(f, m1, m, 2, KeyValue::encoding(v), e, 0);
        },
        None => {
            assert(r2 =~= e);
        },
    }
}

/// The fields with values take a message on by all of them.
proof fn lemma_items_step<M>(
    f: spec_fn(M, u32, u8, Seq<u8>) -> Result<(M, Seq<u8>), ProtoErrorView>,
    with: spec_fn(Seq<KeyValueView>) -> M,
    done: Seq<KeyValueView>,
    items: Seq<KeyValueView>,
    tag: u32,
    rest: Seq<u8>,
    left: nat,
)
    requires
        0 < tag < 0x2000_0000,
        left <= rest.len(),
        items_fit(items),
        forall|v: Seq<KeyValueView>, bytes: Seq<u8>|
            item_in(KeyValue::blank(), WIRE_BYTES, bytes) is Ok ==> #[trigger] f(
                with(v),
                tag,
                WIRE_BYTES,
                bytes,
            ) == (match item_in(KeyValue::blank(), WIRE_BYTES, bytes) {
                Ok((x, rest)) => Ok::<(M, Seq<u8>), ProtoErrorView>((with(v.push(x)), rest)),
                Err(e) => Err(e),
            }),
    ensures
        merged_until(f, with(done), item_fields(tag as nat, items) + rest, left) == merged_until(
            f,
            with(done + items),
            rest,
            left,
        ),
    decreases items.len(),
{
    if items.len() == 0 {
        assert(item_fields(tag as nat, items) + rest =~= rest);
        assert(done + items =~= done);
    } else {
        let b = KeyValue::encoding(items[0]);
        let tail = item_fields(tag as nat, items.drop_first()) + rest;
        assert(item_fits(items[0]));
        lemma_item_in(items[0], tail);
        assert(item_fields(tag as nat, items) + rest =~= bytes_field(tag as nat, b) + tail);
        lemma_bytes_step(f, with(done), with(done.push(items[0])), tag, b, tail, left);
        lemma_items_step(f, with, done.push(items[0]), items.drop_first(), tag, rest, left);
        assert(done.push(items[0]) + items.drop_first() =~= done + items);
    }
}

/// A request to write reads back as it was written.
pub proof fn law_put_object_request_roundtrip(m: PutObjectRequestView)
    requires
        text_fits(m.store_id),
        items_fit(m.transaction_items),
        items_fit(m.delete_items),
    ensures
        decoding::<PutObjectRequest>(PutObjectRequest::encoding(m)) == Ok::<
            PutObjectRequestView,
            ProtoErrorView,
        >(m),
{
    let f = |m: PutObjectRequestView, tag: u32, wire: u8, bytes: Seq<u8>|
        PutObjectRequest::merged(m, tag, wire, bytes, false);
    let e = Seq::<u8>::empty();
    let none = Seq::<KeyValueView>::empty();
    let m0 = PutObjectRequest::blank();
    let m1 = PutObjectRequestView { store_id: m.store_id, ..m0 };
    let m2 = PutObjectRequestView { global_version: m.global_version, ..m1 };
    let m3 = PutObjectRequestView { transaction_items: m.transaction_items, ..m2 };
    let r4 = item_fields(4, m.delete_items) + e;
    let r3 = item_fields(3, m.transaction_items) + r4;
    let r2 = optional_number_field(2, m.global_version) + r3;
    lemma_text_in(m.store_id);
    assert(PutObjectRequest::encoding(m) =~= plain_text(1, m.store_id) + r2);
    lemma_plain_bytes_step(f, m0, m1, 1, encode_utf8(m.store_id), r2, 0);
    if let Some(v) = m.global_version {
        lemma_signed_back(v);
    }
    lemma_optional_number_step(f, m1, m2, 2, m.global_version, r3, 0);
    let put = |v: Seq<KeyValueView>| PutObjectRequestView { transaction_items: v, ..m2 };
    lemma_items_step(f, put, none, m.transaction_items, 3, r4, 0);
    assert(put(none) == m2);
    assert(none + m.transaction_items =~= m.transaction_items);
    let del = |v: Seq<KeyValueView>| PutObjectRequestView { delete_items: v, ..m3 };
    lemma_items_step(f, del, none, m.delete_items, 4, e, 0);
    assert(del(none) == m3);
    assert(none + m.delete_items =~= m.delete_items);
}

/// A request for keys reads back as it was written.
pub proof fn law_list_request_roundtrip(m: ListKeyVersionsRequestView)
    requires
        text_fits(m.store_id),
        optional_text_fits(m.key_prefix),
        optional_text_fits(m.page_token),
    ensures
        decoding::<ListKeyVersionsRequest>(ListKeyVersionsRequest::encoding(m)) == Ok::<
            ListKeyVersionsRequestView,
            ProtoErrorView,
        >(m),
{
    let f = |m: ListKeyVersionsRequestView, tag: u32, wire: u8, bytes: Seq<u8>|
        ListKeyVersionsRequest::merged(m, tag, wire, bytes, false);
    let e = Seq::<u8>::empty();
    let m0 = ListKeyVersionsRequest::blank();
    let m1 = ListKeyVersionsRequestView { store_id: m.store_id, ..m0 };
    let m2 = ListKeyVersionsRequestView { key_prefix: m.key_prefix, ..m1 };
    let m3 = ListKeyVersionsRequestView { page_size: m.page_size, ..m2 };
    let r4 = optional_text_field(4, m.page_token) + e;
    let r3 = optional_number_field(3, widened(m.page_size)) + r4;
    let r2 = optional_text_field(2, m.key_prefix) + r3;
    lemma_text_in(m.store_id);
    assert(ListKeyVersionsRequest::encoding(m) =~= plain_text(1, m.store_id) + r2);
    lemma_plain_bytes_step(f, m0, m1, 1, encode_utf8(m.store_id), r2, 0);
    if let Some(s) = m.key_prefix {
        lemma_text_in(s);
    }
    lemma_optional_text_step(f, m1, m2, 2, m.key_prefix, r3, 0);
    if let Some(v) = m.page_size {
        lemma_signed_back(v as i64);
    }
    lemma_optional_number_step(f, m2, m3, 3, widened(m.page_size), r4, 0);
    if let Some(s) = m.page_token {
        lemma_text_in(s);
    }
    lemma_optional_text_step(f, m3, m, 4, m.page_token, e, 0);
}

/// An answer with keys reads back as it was written.
pub proof fn law_list_response_roundtrip(m: ListKeyVersionsResponseView)
    requires
        items_fit(m.key_versions),
        optional_text_fits(m.next_page_token),
    ensures
        decoding::<ListKeyVersionsResponse>(ListKeyVersionsResponse::encoding(m)) == Ok::<
            ListKeyVersionsResponseView,
            ProtoErrorView,
        >(m),
{
    let f = |m: ListKeyVersionsResponseView, tag: u32, wire: u8, bytes: Seq<u8>|
        ListKeyVersionsResponse::merged(m, tag, wire, bytes, false);
    let e = Seq::<u8>::empty();
    let none = Seq::<KeyValueView>::empty();
    let m0 = ListKeyVersionsResponse::blank();
    let m1 = ListKeyVersionsResponseView { key_versions: m.key_versions, ..m0 };
    let m2 = ListKeyVersionsResponseView { next_page_token: m.next_page_token, ..m1 };
    let r3 = optional_number_field(3, m.global_version) + e;
    let r2 = optional_text_field(2, m.next_page_token) + r3;
    assert(ListKeyVersionsResponse::encoding(m) =~= item_fields(1, m.key_versions) + r2);
    let with = |v: Seq<KeyValueView>| ListKeyVersionsResponseView { key_versions: v, ..m0 };
    lemma_items_step(f, with, none, m.key_versions, 1, r2, 0);
    assert(with(none) == m0);
    assert(none + m.key_versions =~= m.key_versions);
    if let Some(s) = m.next_page_token {
        lemma_text_in(s);
    }
    lemma_optional_text_step(f, m1, m2, 2, m.next_page_token, r3, 0);
    if let Some(v) = m.global_version {
        lemma_signed_back(v);
    }
    lemma_optional_number_step(f, m2, m, 3, m.global_version, e, 0);
}

/// An answer that a request failed reads back as it was written.
pub proof fn law_error_response_roundtrip(m: ErrorResponseView)
    requires
        text_fits(m.message),
    ensures
        decoding::<ErrorResponse>(ErrorResponse::encoding(m)) == Ok::<
            ErrorResponseView,
            ProtoErrorView,
        >(m),
{
    let f = |m: ErrorResponseView, tag: u32, wire: u8, bytes: Seq<u8>|
        ErrorResponse::merged(m, tag, wire, bytes, false);
    let e = Seq::<u8>::empty();
    let m0 = ErrorResponse::blank();
    let m1 = ErrorResponseView { error_code: m.error_code, ..m0 };
    let r2 = plain_text(2, m.message) + e;
    lemma_text_in(m.message);
    lemma_signed_back(m.error_code as i64);
    assert(ErrorResponse::encoding(m) =~= plain_number(1, m.error_code as i64) + r2);
    lemma_plain_number_step(f, m0, m1, 1, m.error_code as i64, r2, 0);
    lemma_plain_bytes_step(f, m1, m, 2, encode_utf8(m.message), e, 0);
}

/// The answers without fields are no bytes, and read back.
pub proof fn law_empty_responses_roundtrip()
    ensures
        decoding::<PutObjectResponse>(PutObjectResponse::encoding(PutObjectResponse::blank()))
            == Ok::<PutObjectResponseView, ProtoErrorView>(PutObjectResponse::blank()),
        decoding::<DeleteObjectResponse>(
            DeleteObjectResponse::encoding(DeleteObjectResponse::blank()),
        ) == Ok::<DeleteObjectResponseView, ProtoErrorView>(DeleteObjectResponse::blank()),
{
}

/// What a field is on the wire: its tag with the type of its value, and the value. Bytes have their
/// length in front of them; a number below zero is counted from the top of 64 bits. A field that
/// need not be there is left out where it is empty or zero; one that may be missing is there
/// whenever it has a value.
pub proof fn law_fields_on_the_wire(tag: nat, b: Seq<u8>, s: Seq<char>, v: i64, n: u64)
    ensures
        bytes_field(tag, b) == varint(tag * 8 + 2) + varint(b.len()) + b,
        number_field(tag, n) == varint(tag * 8) + varint(n as nat),
        b.len() == 0 ==> plain_bytes(tag, b) == Seq::<u8>::empty(),
        b.len() > 0 ==> plain_bytes(tag, b) == bytes_field(tag, b),
        plain_text(tag, s) == plain_bytes(tag, encode_utf8(s)),
        plain_number(tag, 0) == Seq::<u8>::empty(),
        v != 0 ==> plain_number(tag, v) == number_field(tag, unsigned(v)),
        optional_text_field(tag, None) == Seq::<u8>::empty(),
        optional_text_field(tag, Some(s)) == bytes_field(tag, encode_utf8(s)),
        optional_number_field(tag, None) == Seq::<u8>::empty(),
        optional_number_field(tag, Some(v)) == number_field(tag, unsigned(v)),
        v >= 0 ==> unsigned(v) == v,
        v < 0 ==> unsigned(v) == v + 0x1_0000_0000_0000_0000,
{
}

/// Values inside a message have a field each, one after the other.
pub proof fn law_items_on_the_wire(tag: nat, item: KeyValueView, items: Seq<KeyValueView>)
    ensures
        item_fields(tag, Seq::empty()) == Seq::<u8>::empty(),
        item_fields(tag, seq![item] + items) == bytes_field(tag, KeyValue::encoding(item))
            + item_fields(tag, items),
        optional_item_field(tag, None) == Seq::<u8>::empty(),
        optional_item_field(tag, Some(item)) == bytes_field(tag, KeyValue::encoding(item)),
{
    assert((seq![item] + items).drop_first() =~= items);
}

/// The fields of the messages and their tags.
pub proof fn law_messages_on_the_wire(
    item: KeyValueView,
    get: GetObjectRequestView,
    got: GetObjectResponseView,
    put: PutObjectRequestView,
    delete: DeleteObjectRequestView,
    list: ListKeyVersionsRequestView,
    listed: ListKeyVersionsResponseView,
    error: ErrorResponseView,
)
    ensures
        KeyValue::encoding(item) == plain_text(1, item.key) + plain_number(2, item.version)
            + plain_bytes(3, item.value),
        GetObjectRequest::encoding(get) == plain_text(1, get.store_id) + plain_text(2, get.key),
        GetObjectResponse::encoding(got) == optional_item_field(2, got.value),
        PutObjectRequest::encoding(put) == plain_text(1, put.store_id) + optional_number_field(
            2,
            put.global_version,
        ) + item_fields(3, put.transaction_items) + item_fields(4, put.delete_items),
        DeleteObjectRequest::encoding(delete) == plain_text(1, delete.store_id)
            + optional_item_field(2, delete.key_value),
        ListKeyVersionsRequest::encoding(list) == plain_text(1, list.store_id)
            + optional_text_field(2, list.key_prefix) + optional_number_field(
            3,
            match list.page_size {
                Some(n) => Some(n as i64),
                None => None,
            },
        ) + optional_text_field(4, list.page_token),
        ListKeyVersionsResponse::encoding(listed) == item_fields(1, listed.key_versions)
            + optional_text_field(2, listed.next_page_token) + optional_number_field(
            3,
            listed.global_version,
        ),
        ErrorResponse::encoding(error) == plain_number(1, error.error_code as i64) + plain_text(
            2,
            error.message,
        ),
        code_number(ErrorCode::Unknown) == 0,
        code_number(ErrorCode::ConflictException) == 1,
        code_number(ErrorCode::InvalidRequestException) == 2,
        code_number(ErrorCode::InternalServerException) == 3,
        code_number(ErrorCode::NoSuchKeyException) == 4,
        code_number(ErrorCode::AuthException) == 5,
{
}

/// A field that a message does not know changes nothing of it.
pub proof fn law_unknown_field_passed(
    item: KeyValueView,
    got: GetObjectResponseView,
    listed: ListKeyVersionsResponseView,
    error: ErrorResponseView,
    tag: u32,
    wire: u8,
    bytes: Seq<u8>,
    nested: bool,
)
    ensures
        tag == 0 || tag > 3 ==> (KeyValue::merged(item, tag, wire, bytes, nested) matches Ok((m, _))
            ==> m == item),
        tag != 2 ==> (GetObjectResponse::merged(got, tag, wire, bytes, nested) matches Ok((m, _))
            ==> m == got),
        tag == 0 || tag > 3 ==> (ListKeyVersionsResponse::merged(
            listed,
            tag,
            wire,
            bytes,
            nested,
        ) matches Ok((m, _)) ==> m == listed),
        tag == 0 || tag > 2 ==> (ErrorResponse::merged(
            error,
            tag,
            wire,
            bytes,
            nested,
        ) matches Ok((m, _)) ==> m == error),
{
}

} // verus!
