//! The protocol-buffer wire format: base-128 varints, and messages as
//! sequences of numbered fields.
//!
//! The spec functions define the format. Varints are read and written by
//! the `protobuf` crate, behind two trusted functions; fields and messages
//! are built on those in verified code. A group is passed over as that
//! crate passes over one in a field it does not know: up to the first key
//! that ends a group, with no group inside.

use crate::cursor::extend_bytes;
use protobuf::CodedInputStream;
use protobuf::CodedOutputStream;
use protobuf::ProtobufError;
use vstd::prelude::*;
use vstd::slice::slice_subrange;
use vstd::slice::slice_to_vec;

verus! {

/// Why bytes were refused as a protocol-buffer message.
#[derive(Clone, Copy, Debug, PartialEq, Eq, Structural)]
pub enum ProtoError {
    /// The bytes end inside a field.
    UnexpectedEof,
    /// A known field has another wire type than its schema says; or a
    /// group ends that has not started, or starts inside another.
    UnexpectedWireType,
    /// A field key has field number zero, or one of the two wire types
    /// that stand for nothing.
    IncorrectTag,
    /// A varint is cut off, or longer than ten bytes.
    IncorrectVarint,
    /// A required field is missing.
    MessageNotInitialized,
    /// A text is not UTF-8.
    InvalidText,
    /// The message is longer than a length prefix can say.
    TooLarge,
}

/// The longest payload that a log record can frame: its length is written
/// as a signed 32-bit number. The referee messages and vision packets
/// that the library holds are no longer than this.
pub const MAX_PAYLOAD_LEN: usize = 0x7fff_ffff;

/// The bytes of `v` as a varint: seven bits to a byte, the low bits first,
/// the high bit set on every byte but the last.
pub open spec fn varint_bytes(v: nat) -> Seq<u8>
    decreases v,
{
    if v < 128 {
        seq![v as u8]
    } else {
        seq![(v % 128 + 128) as u8] + varint_bytes(v / 128)
    }
}

/// The number that a varint at the start of `s` spells, read over at most
/// `limit` bytes, and how many bytes it takes. `None` where `s` ends, or the
/// limit is reached, before a byte without the high bit.
pub open spec fn varint_prefix(s: Seq<u8>, limit: nat) -> Option<(nat, nat)>
    decreases limit,
{
    if limit == 0 || s.len() == 0 {
        None
    } else if s[0] < 128 {
        Some((s[0] as nat, 1nat))
    } else {
        match varint_prefix(s.skip(1), (limit - 1) as nat) {
            Some((v, n)) => Some(((s[0] - 128 + 128 * v) as nat, n + 1)),
            None => None,
        }
    }
}

/// A varint at the start of `s` as the decoder reads it: over at most ten
/// bytes, keeping the low 64 bits of what they spell.
pub open spec fn read_varint(s: Seq<u8>) -> Option<(u64, nat)> {
    match varint_prefix(s, 10) {
        Some((v, n)) => Some(((v % 0x1_0000_0000_0000_0000) as u64, n)),
        None => None,
    }
}

/// 128 to the power of `k`.
pub open spec fn pow128(k: nat) -> nat
    decreases k,
{
    if k == 0 {
        1
    } else {
        128 * pow128((k - 1) as nat)
    }
}

/// A number below `128^k` takes at most `k` bytes as a varint.
pub proof fn lemma_varint_len(v: nat, k: nat)
    requires
        k >= 1,
        v < pow128(k),
    ensures
        1 <= varint_bytes(v).len() <= k,
    decreases k,
{
    if v >= 128 {
        assert(k >= 2) by {
            reveal_with_fuel(pow128, 2);
        }
        lemma_varint_len(v / 128, (k - 1) as nat);
    }
}

/// Every `u64` takes at most ten bytes as a varint.
pub proof fn lemma_varint_len_u64(v: u64)
    ensures
        1 <= varint_bytes(v as nat).len() <= 10,
{
    assert(pow128(10) == 0x40_0000_0000_0000_0000) by {
        reveal_with_fuel(pow128, 11);
    }
    lemma_varint_len(v as nat, 10);
}

/// Every `u32` takes at most five bytes as a varint.
pub proof fn lemma_varint_len_u32(v: u32)
    ensures
        1 <= varint_bytes(v as nat).len() <= 5,
{
    assert(pow128(5) == 0x8_0000_0000) by {
        reveal_with_fuel(pow128, 6);
    }
    lemma_varint_len(v as nat, 5);
}

/// Reading the varint of `v` gives `v` back and stops where it ends,
/// whatever follows.
pub proof fn lemma_varint_prefix(v: nat, rest: Seq<u8>, limit: nat)
    requires
        varint_bytes(v).len() <= limit,
    ensures
        varint_prefix(varint_bytes(v) + rest, limit) == Some((v, varint_bytes(v).len())),
    decreases v,
{
    let s = varint_bytes(v) + rest;
    assert(s[0] == varint_bytes(v)[0]);
    if v >= 128 {
        assert(s.skip(1) =~= varint_bytes(v / 128) + rest);
        lemma_varint_prefix(v / 128, rest, (limit - 1) as nat);
    }
}

/// Reading the varint of a `u64` gives it back, whatever follows.
pub proof fn lemma_varint_round_trip(v: u64, rest: Seq<u8>)
    ensures
        read_varint(varint_bytes(v as nat) + rest) == Some((v, varint_bytes(v as nat).len())),
{
    lemma_varint_len_u64(v);
    lemma_varint_prefix(v as nat, rest, 10);
}

/// A varint that was read takes between one and ten bytes, all of them
/// among those given.
pub proof fn lemma_varint_prefix_len(s: Seq<u8>, limit: nat)
    ensures
        varint_prefix(s, limit) matches Some((v, n)) ==> 1 <= n <= limit && n <= s.len(),
    decreases limit,
{
    if limit != 0 && s.len() != 0 && s[0] >= 128 {
        lemma_varint_prefix_len(s.skip(1), (limit - 1) as nat);
    }
}

/// What the `protobuf` crate reports when it cannot read or write.
#[verifier::external_type_specification]
#[verifier::external_body]
pub struct ExProtobufError(ProtobufError);

/// `CodedInputStream::read_raw_varint64` on a stream made of a slice by
/// `CodedInputStream::from_bytes`, and the stream's `pos` after it: the low
/// 64 bits of the varint that the slice starts with, and the number of
/// bytes read; an error exactly where no byte without the high bit is
/// found among the first ten.
#[verifier::external_body]
pub(crate) fn read_raw_varint64(bytes: &[u8]) -> (r: Result<(u64, u64), ProtobufError>)
    ensures
        r is Ok <==> read_varint(bytes@) is Some,
        r is Ok ==> r->Ok_0.0 == read_varint(bytes@)->Some_0.0,
        r is Ok ==> r->Ok_0.1 == read_varint(bytes@)->Some_0.1,
{
    let mut input = CodedInputStream::from_bytes(bytes);
    let value = input.read_raw_varint64()?;
    Ok((value, input.pos()))
}

/// `CodedOutputStream::write_raw_varint64` on a stream made of a vector by
/// `CodedOutputStream::vec`, and the stream's `flush` after it: the varint
/// of `value` is appended to the vector. Writing to a vector does not
/// fail.
#[verifier::external_body]
pub(crate) fn write_raw_varint64(out: &mut Vec<u8>, value: u64)
    ensures
        final(out)@ == old(out)@ + varint_bytes(value as nat),
{
    let mut output = CodedOutputStream::vec(out);
    let _ = output.write_raw_varint64(value);
    let _ = output.flush();
}

/// The value of one field, as the wire shows it.
#[derive(Clone, Debug, PartialEq, Eq)]
pub enum WireValue {
    /// Wire type 0.
    Varint(u64),
    /// Wire type 1: eight bytes.
    Fixed64(Vec<u8>),
    /// Wire type 2: a length and that many bytes.
    LengthDelimited(Vec<u8>),
    /// Wire type 5: four bytes.
    Fixed32(Vec<u8>),
    /// Wire type 3: a group, up to the key that ends it. What it holds is
    /// passed over and not kept, and the library writes none.
    Group,
}

/// One field of a message: its number and its value.
#[derive(Clone, Debug, PartialEq, Eq)]
pub struct WireField {
    pub number: u32,
    pub value: WireValue,
}

/// The mathematical value of a `WireValue`.
pub enum ValueSpec {
    Varint(u64),
    Fixed64(Seq<u8>),
    LengthDelimited(Seq<u8>),
    Fixed32(Seq<u8>),
    Group,
}

/// The mathematical value of a `WireField`.
pub struct FieldSpec {
    pub number: u32,
    pub value: ValueSpec,
}

impl View for WireValue {
    type V = ValueSpec;

    open spec fn view(&self) -> ValueSpec {
        match self {
            WireValue::Varint(v) => ValueSpec::Varint(*v),
            WireValue::Fixed64(b) => ValueSpec::Fixed64(b@),
            WireValue::LengthDelimited(b) => ValueSpec::LengthDelimited(b@),
            WireValue::Fixed32(b) => ValueSpec::Fixed32(b@),
            WireValue::Group => ValueSpec::Group,
        }
    }
}

impl View for WireField {
    type V = FieldSpec;

    open spec fn view(&self) -> FieldSpec {
        FieldSpec { number: self.number, value: self.value@ }
    }
}

/// The values of a sequence of fields.
pub open spec fn fields_view(fields: Seq<WireField>) -> Seq<FieldSpec> {
    fields.map_values(|f: WireField| f@)
}

impl ValueSpec {
    /// The number of the wire type.
    pub open spec fn wire_type(self) -> nat {
        match self {
            ValueSpec::Varint(_) => 0,
            ValueSpec::Fixed64(_) => 1,
            ValueSpec::LengthDelimited(_) => 2,
            ValueSpec::Fixed32(_) => 5,
            ValueSpec::Group => 3,
        }
    }

    /// The bytes that follow the key. Of a group nothing is kept, so it
    /// has none.
    pub open spec fn bytes(self) -> Seq<u8> {
        match self {
            ValueSpec::Varint(v) => varint_bytes(v as nat),
            ValueSpec::Fixed64(b) => b,
            ValueSpec::LengthDelimited(b) => varint_bytes(b.len()) + b,
            ValueSpec::Fixed32(b) => b,
            ValueSpec::Group => Seq::empty(),
        }
    }

    /// Whether the value can be written: fixed values have their width, a
    /// length fits in 32 bits, and it is no group.
    pub open spec fn wf(self) -> bool {
        match self {
            ValueSpec::Varint(_) => true,
            ValueSpec::Fixed64(b) => b.len() == 8,
            ValueSpec::LengthDelimited(b) => b.len() <= u32::MAX,
            ValueSpec::Fixed32(b) => b.len() == 4,
            ValueSpec::Group => false,
        }
    }
}

/// The largest field number.
pub const FIELD_NUMBER_MAX: u32 = 0x1fff_ffff;

impl FieldSpec {
    /// The key: field number and wire type in one number.
    pub open spec fn key(self) -> nat {
        self.number as nat * 8 + self.value.wire_type()
    }

    /// The field on the wire: its key as a varint, then its value.
    pub open spec fn bytes(self) -> Seq<u8> {
        varint_bytes(self.key()) + self.value.bytes()
    }

    /// Whether the field can be written.
    pub open spec fn wf(self) -> bool {
        1 <= self.number <= FIELD_NUMBER_MAX && self.value.wf()
    }
}

/// The key at the start of `s`: the field number, the wire type, and the
/// number of bytes that the key takes. The key is a varint of which the
/// low 32 bits count. A key with field number zero, or with one of the two
/// wire types that stand for nothing, is refused.
#[verifier::opaque]
pub open spec fn read_key(s: Seq<u8>) -> Result<(u32, nat, nat), ProtoError> {
    match read_varint(s) {
        None => Err(ProtoError::IncorrectVarint),
        Some((key, n)) => {
            let tag = key as nat % 0x1_0000_0000;
            let number = (tag / 8) as u32;
            let wire_type = tag % 8;
            if number == 0 || wire_type > 5 {
                Err(ProtoError::IncorrectTag)
            } else {
                Ok((number, wire_type, n))
            }
        },
    }
}

/// The value of wire type `wire_type` at the start of `body`, and the
/// number of bytes it takes: a varint, eight bytes, a length and that many
/// bytes, or four bytes. The two wire types of groups have no value.
#[verifier::opaque]
pub open spec fn read_value(wire_type: nat, body: Seq<u8>) -> Result<(ValueSpec, nat), ProtoError> {
    if wire_type == 0 {
        match read_varint(body) {
            None => Err(ProtoError::IncorrectVarint),
            Some((v, m)) => Ok((ValueSpec::Varint(v), m)),
        }
    } else if wire_type == 1 {
        if body.len() < 8 {
            Err(ProtoError::UnexpectedEof)
        } else {
            Ok((ValueSpec::Fixed64(body.take(8)), 8nat))
        }
    } else if wire_type == 2 {
        match read_varint(body) {
            None => Err(ProtoError::IncorrectVarint),
            Some((len, m)) => {
                let len = len as nat % 0x1_0000_0000;
                if body.len() - m < len {
                    Err(ProtoError::UnexpectedEof)
                } else {
                    Ok(
                        (
                            ValueSpec::LengthDelimited(body.subrange(m as int, (m + len) as int)),
                            m + len,
                        ),
                    )
                }
            },
        }
    } else if wire_type == 5 {
        if body.len() < 4 {
            Err(ProtoError::UnexpectedEof)
        } else {
            Ok((ValueSpec::Fixed32(body.take(4)), 4nat))
        }
    } else {
        Err(ProtoError::UnexpectedWireType)
    }
}

/// The number of bytes that the rest of a group takes, `s` starting after
/// the key that opened it: fields are passed over, up to and with the
/// first key of wire type 4, which ends the group whatever its field
/// number is. A group inside the group is refused.
pub open spec fn skip_group(s: Seq<u8>) -> Result<nat, ProtoError>
    decreases s.len(),
{
    match read_key(s) {
        Err(e) => Err(e),
        Ok((_, wire_type, n)) => if wire_type == 4 {
            Ok(n)
        } else {
            match read_value(wire_type, s.skip(n as int)) {
                Err(e) => Err(e),
                Ok((_, m)) => if 0 < n + m <= s.len() {
                    match skip_group(s.skip((n + m) as int)) {
                        Err(e) => Err(e),
                        Ok(k) => Ok(n + m + k),
                    }
                } else {
                    Err(ProtoError::UnexpectedEof)
                },
            }
        },
    }
}

/// The field at the start of `s` and the number of bytes it takes, or why
/// there is none: a key, and then the value of its wire type, or, after a
/// key of wire type 3, a group.
pub open spec fn read_field(s: Seq<u8>) -> Result<(FieldSpec, nat), ProtoError> {
    match read_key(s) {
        Err(e) => Err(e),
        Ok((number, wire_type, n)) => if wire_type == 3 {
            match skip_group(s.skip(n as int)) {
                Err(e) => Err(e),
                Ok(k) => Ok((FieldSpec { number, value: ValueSpec::Group }, n + k)),
            }
        } else {
            match read_value(wire_type, s.skip(n as int)) {
                Err(e) => Err(e),
                Ok((value, m)) => Ok((FieldSpec { number, value }, n + m)),
            }
        },
    }
}

/// The fields that `s` consists of, in order, or the error of the first
/// that cannot be read.
pub open spec fn read_fields(s: Seq<u8>) -> Result<Seq<FieldSpec>, ProtoError>
    decreases s.len(),
{
    if s.len() == 0 {
        Ok(Seq::empty())
    } else {
        match read_field(s) {
            Err(e) => Err(e),
            Ok((f, n)) => if 0 < n <= s.len() {
                match read_fields(s.skip(n as int)) {
                    Err(e) => Err(e),
                    Ok(rest) => Ok(seq![f] + rest),
                }
            } else {
                Err(ProtoError::UnexpectedEof)
            },
        }
    }
}

/// The fields of `fs` on the wire, one after the other.
pub open spec fn fields_bytes(fs: Seq<FieldSpec>) -> Seq<u8>
    decreases fs.len(),
{
    if fs.len() == 0 {
        Seq::empty()
    } else {
        fs[0].bytes() + fields_bytes(fs.skip(1))
    }
}

/// Whether every field of `fs` can be written.
pub open spec fn fields_wf(fs: Seq<FieldSpec>) -> bool {
    forall|i: int| 0 <= i < fs.len() ==> (#[trigger] fs[i]).wf()
}

/// A key that was read lies within the bytes given, and its field number
/// and wire type are in range.
pub proof fn lemma_read_key_len(s: Seq<u8>)
    ensures
        read_key(s) matches Ok((number, wire_type, n)) ==> 1 <= n <= s.len() && 1 <= number
            <= FIELD_NUMBER_MAX && wire_type <= 5,
{
    reveal(read_key);
    lemma_varint_prefix_len(s, 10);
}

/// A value that was read lies within the bytes given, is not empty, has
/// the wire type asked for, and can be written.
pub proof fn lemma_read_value_len(wire_type: nat, body: Seq<u8>)
    ensures
        read_value(wire_type, body) matches Ok((value, m)) ==> 1 <= m <= body.len() && value.wf()
            && value.wire_type() == wire_type,
{
    reveal(read_value);
    lemma_varint_prefix_len(body, 10);
}

/// A group that was passed over lies within the bytes given.
pub proof fn lemma_skip_group_len(s: Seq<u8>)
    ensures
        skip_group(s) matches Ok(k) ==> 1 <= k <= s.len(),
    decreases s.len(),
{
    lemma_read_key_len(s);
    if let Ok((_, wire_type, n)) = read_key(s) {
        if wire_type != 4 {
            lemma_read_value_len(wire_type, s.skip(n as int));
            if let Ok((_, m)) = read_value(wire_type, s.skip(n as int)) {
                lemma_skip_group_len(s.skip((n + m) as int));
            }
        }
    }
}

/// A field that was read lies within the bytes given and is not empty;
/// and it can be written, unless it is a group.
pub proof fn lemma_read_field_len(s: Seq<u8>)
    ensures
        read_field(s) matches Ok((f, n)) ==> 2 <= n <= s.len() && (f.value !is Group ==> f.wf()),
{
    lemma_read_key_len(s);
    if let Ok((_, wire_type, n)) = read_key(s) {
        lemma_skip_group_len(s.skip(n as int));
        lemma_read_value_len(wire_type, s.skip(n as int));
    }
}

/// Reading a written key gives the field number and the wire type back,
/// whatever follows.
pub proof fn lemma_key_round_trip(number: u32, wire_type: nat, rest: Seq<u8>)
    requires
        1 <= number <= FIELD_NUMBER_MAX,
        wire_type <= 5,
    ensures
        read_key(varint_bytes(number as nat * 8 + wire_type) + rest) == Ok::<
            (u32, nat, nat),
            ProtoError,
        >((number, wire_type, varint_bytes(number as nat * 8 + wire_type).len())),
{
    reveal(read_key);
    let key = number as nat * 8 + wire_type;
    assert(key <= u32::MAX);
    lemma_varint_round_trip(key as u64, rest);
    assert(key % 0x1_0000_0000 == key);
    assert(key / 8 == number);
    assert(key % 8 == wire_type);
}

/// Reading a written value gives the value back and stops where it ends,
/// whatever follows.
pub proof fn lemma_value_round_trip(value: ValueSpec, rest: Seq<u8>)
    requires
        value.wf(),
    ensures
        read_value(value.wire_type(), value.bytes() + rest) == Ok::<(ValueSpec, nat), ProtoError>(
            (value, value.bytes().len()),
        ),
{
    reveal(read_value);
    let body = value.bytes() + rest;
    match value {
        ValueSpec::Varint(v) => {
            lemma_varint_round_trip(v, rest);
        },
        ValueSpec::Fixed64(b) => {
            assert(body.take(8) =~= b);
        },
        ValueSpec::LengthDelimited(b) => {
            assert(body =~= varint_bytes(b.len()) + (b + rest));
            lemma_varint_round_trip(b.len() as u64, b + rest);
            let m = varint_bytes(b.len()).len();
            assert(body.subrange(m as int, (m + b.len()) as int) =~= b);
        },
        ValueSpec::Fixed32(b) => {
            assert(body.take(4) =~= b);
        },
        ValueSpec::Group => {},
    }
}

/// Reading a written field gives the field back and stops where it ends,
/// whatever follows.
pub proof fn lemma_field_round_trip(f: FieldSpec, rest: Seq<u8>)
    requires
        f.wf(),
    ensures
        read_field(f.bytes() + rest) == Ok::<(FieldSpec, nat), ProtoError>((f, f.bytes().len())),
{
    let s = f.bytes() + rest;
    let body = f.value.bytes() + rest;
    let n = varint_bytes(f.key()).len();
    assert(s =~= varint_bytes(f.key()) + body);
    lemma_key_round_trip(f.number, f.value.wire_type(), body);
    assert(s.skip(n as int) =~= body);
    lemma_value_round_trip(f.value, rest);
}

/// Writing one more field appends its bytes.
pub proof fn lemma_fields_bytes_push(fs: Seq<FieldSpec>, f: FieldSpec)
    ensures
        fields_bytes(fs.push(f)) == fields_bytes(fs) + f.bytes(),
    decreases fs.len(),
{
    if fs.len() == 0 {
        assert(fs.push(f).skip(1) =~= Seq::<FieldSpec>::empty());
        assert(fields_bytes(fs.push(f).skip(1)) =~= Seq::<u8>::empty());
        assert(fields_bytes(fs.push(f)) =~= f.bytes());
    } else {
        assert(fs.push(f).skip(1) =~= fs.skip(1).push(f));
        lemma_fields_bytes_push(fs.skip(1), f);
        assert(fs[0].bytes() + (fields_bytes(fs.skip(1)) + f.bytes()) =~= fs[0].bytes()
            + fields_bytes(fs.skip(1)) + f.bytes());
    }
}

/// Reading written fields gives the fields back.
pub proof fn lemma_fields_round_trip(fs: Seq<FieldSpec>)
    requires
        fields_wf(fs),
    ensures
        read_fields(fields_bytes(fs)) == Ok::<Seq<FieldSpec>, ProtoError>(fs),
    decreases fs.len(),
{
    if fs.len() == 0 {
        assert(fs =~= Seq::<FieldSpec>::empty());
    } else {
        let rest = fields_bytes(fs.skip(1));
        let s = fields_bytes(fs);
        lemma_field_round_trip(fs[0], rest);
        lemma_read_field_len(s);
        let n = fs[0].bytes().len();
        assert(s.skip(n as int) =~= rest);
        lemma_fields_round_trip(fs.skip(1));
        assert(seq![fs[0]] + fs.skip(1) =~= fs);
    }
}


/// Copies the bytes of `bytes` from `start` up to `end`.
fn copy_range(bytes: &[u8], start: usize, end: usize) -> (out: Vec<u8>)
    requires
        start <= end <= bytes@.len(),
    ensures
        out@ == bytes@.subrange(start as int, end as int),
{
    slice_to_vec(slice_subrange(bytes, start, end))
}

/// Reads the varint that starts at `pos` and returns it with the position
/// after it.
fn parse_varint(bytes: &[u8], pos: usize) -> (r: Result<(u64, usize), ProtoError>)
    requires
        pos <= bytes@.len(),
    ensures
        match read_varint(bytes@.skip(pos as int)) {
            Some((v, n)) => r == Ok::<(u64, usize), ProtoError>((v, (pos + n) as usize)) && pos + n
                <= bytes@.len(),
            None => r == Err::<(u64, usize), ProtoError>(ProtoError::IncorrectVarint),
        },
{
    let rest = slice_subrange(bytes, pos, bytes.len());
    proof {
        assert(rest@ =~= bytes@.skip(pos as int));
        lemma_varint_prefix_len(rest@, 10);
    }
    match read_raw_varint64(rest) {
        Ok((v, n)) => Ok((v, pos + n as usize)),
        Err(_) => Err(ProtoError::IncorrectVarint),
    }
}

/// The numbers of a run of varints: what a repeated number holds where
/// it is written packed.
pub open spec fn read_varints(s: Seq<u8>) -> Result<Seq<u64>, ProtoError>
    decreases s.len(),
{
    if s.len() == 0 {
        Ok(Seq::empty())
    } else {
        match read_varint(s) {
            Some((v, n)) => if 1 <= n <= s.len() {
                match read_varints(s.skip(n as int)) {
                    Ok(rest) => Ok(seq![v] + rest),
                    Err(e) => Err(e),
                }
            } else {
                Err(ProtoError::IncorrectVarint)
            },
            None => Err(ProtoError::IncorrectVarint),
        }
    }
}

/// Reads a run of varints.
pub fn parse_varints(bytes: &[u8]) -> (r: Result<Vec<u64>, ProtoError>)
    ensures
        match read_varints(bytes@) {
            Ok(vs) => r is Ok && r->Ok_0@ == vs,
            Err(e) => r == Err::<Vec<u64>, ProtoError>(e),
        },
{
    let mut out: Vec<u64> = Vec::new();
    let mut pos: usize = 0;
    assert(bytes@.skip(0) =~= bytes@);
    while pos < bytes.len()
        invariant
            pos <= bytes@.len(),
            read_varints(bytes@) == match read_varints(bytes@.skip(pos as int)) {
                Ok(rest) => Ok::<Seq<u64>, ProtoError>(out@ + rest),
                Err(e) => Err(e),
            },
        decreases bytes@.len() - pos,
    {
        let ghost s = bytes@.skip(pos as int);
        let ghost before = out@;
        proof {
            lemma_varint_prefix_len(s, 10);
        }
        match parse_varint(bytes, pos) {
            Ok((v, next)) => {
                proof {
                    assert(s.skip(next - pos) =~= bytes@.skip(next as int));
                    if let Ok(rest) = read_varints(bytes@.skip(next as int)) {
                        assert(before + (seq![v] + rest) =~= before.push(v) + rest);
                    }
                }
                out.push(v);
                pos = next;
            },
            Err(e) => {
                return Err(e);
            },
        }
    }
    assert(out@ + Seq::<u64>::empty() =~= out@);
    Ok(out)
}

/// Reads the key that starts at `pos` and returns its field number and
/// wire type with the position after it.
fn parse_key(bytes: &[u8], pos: usize) -> (r: Result<(u32, u64, usize), ProtoError>)
    requires
        pos <= bytes@.len(),
    ensures
        match read_key(bytes@.skip(pos as int)) {
            Ok((number, wire_type, n)) => r is Ok && r->Ok_0.0 == number && r->Ok_0.1 == wire_type
                && r->Ok_0.2 == pos + n && pos + n <= bytes@.len() && wire_type <= 5,
            Err(e) => r == Err::<(u32, u64, usize), ProtoError>(e),
        },
{
    reveal(read_key);
    let total: usize = bytes.len();
    let (key, at) = match parse_varint(bytes, pos) {
        Ok(found) => found,
        Err(e) => { return Err(e); },
    };
    let tag: u64 = key % 0x1_0000_0000;
    let number: u32 = (tag / 8) as u32;
    let wire_type: u64 = tag % 8;
    if number == 0 || wire_type > 5 {
        Err(ProtoError::IncorrectTag)
    } else {
        Ok((number, wire_type, at))
    }
}

/// Reads the value of wire type `wire_type` that starts at `at` and
/// returns it with the position after it.
fn parse_value(bytes: &[u8], at: usize, wire_type: u64) -> (r: Result<(WireValue, usize), ProtoError>)
    requires
        at <= bytes@.len(),
    ensures
        match read_value(wire_type as nat, bytes@.skip(at as int)) {
            Ok((value, m)) => r is Ok && r->Ok_0.0@ == value && r->Ok_0.1 == at + m && 0 < m && at
                + m <= bytes@.len(),
            Err(e) => r == Err::<(WireValue, usize), ProtoError>(e),
        },
{
    let ghost body = bytes@.skip(at as int);
    let left: usize = bytes.len() - at;
    proof {
        reveal(read_value);
        lemma_read_value_len(wire_type as nat, body);
    }
    if wire_type == 0 {
        match parse_varint(bytes, at) {
            Ok((v, next)) => Ok((WireValue::Varint(v), next)),
            Err(e) => Err(e),
        }
    } else if wire_type == 1 {
        if left < 8 {
            Err(ProtoError::UnexpectedEof)
        } else {
            let b = copy_range(bytes, at, at + 8);
            assert(b@ =~= body.take(8));
            Ok((WireValue::Fixed64(b), at + 8))
        }
    } else if wire_type == 2 {
        match parse_varint(bytes, at) {
            Ok((len, start)) => {
                let len: usize = (len % 0x1_0000_0000) as usize;
                if bytes.len() - start < len {
                    Err(ProtoError::UnexpectedEof)
                } else {
                    let b = copy_range(bytes, start, start + len);
                    assert(b@ =~= body.subrange(start - at, start - at + len));
                    Ok((WireValue::LengthDelimited(b), start + len))
                }
            },
            Err(e) => Err(e),
        }
    } else if wire_type == 5 {
        if left < 4 {
            Err(ProtoError::UnexpectedEof)
        } else {
            let b = copy_range(bytes, at, at + 4);
            assert(b@ =~= body.take(4));
            Ok((WireValue::Fixed32(b), at + 4))
        }
    } else {
        Err(ProtoError::UnexpectedWireType)
    }
}

/// Passes over the rest of a group that starts at `start`, after the key
/// that opened it, and returns the position after the key that ends it.
fn parse_group(bytes: &[u8], start: usize) -> (r: Result<usize, ProtoError>)
    requires
        start <= bytes@.len(),
    ensures
        match skip_group(bytes@.skip(start as int)) {
            Ok(k) => r is Ok && r->Ok_0 == start + k && start + k <= bytes@.len(),
            Err(e) => r == Err::<usize, ProtoError>(e),
        },
{
    let mut pos: usize = start;
    loop
        invariant
            start <= pos <= bytes@.len(),
            skip_group(bytes@.skip(start as int)) == match skip_group(bytes@.skip(pos as int)) {
                Ok(k) => Ok::<nat, ProtoError>((pos - start + k) as nat),
                Err(e) => Err(e),
            },
        decreases bytes@.len() - pos,
    {
        let ghost s = bytes@.skip(pos as int);
        proof {
            lemma_skip_group_len(s);
        }
        let (_, wire_type, at) = match parse_key(bytes, pos) {
            Ok(found) => found,
            Err(e) => { return Err(e); },
        };
        if wire_type == 4 {
            return Ok(at);
        }
        assert(s.skip(at - pos) =~= bytes@.skip(at as int));
        let (_, next) = match parse_value(bytes, at, wire_type) {
            Ok(found) => found,
            Err(e) => { return Err(e); },
        };
        assert(s.skip(next - pos) =~= bytes@.skip(next as int));
        pos = next;
    }
}

/// Reads the field that starts at `pos` and returns it with the position
/// after it.
fn parse_field(bytes: &[u8], pos: usize) -> (r: Result<(WireField, usize), ProtoError>)
    requires
        pos <= bytes@.len(),
    ensures
        match read_field(bytes@.skip(pos as int)) {
            Ok((f, n)) => r is Ok && r->Ok_0.0@ == f && r->Ok_0.1 == pos + n && pos + n
                <= bytes@.len(),
            Err(e) => r == Err::<(WireField, usize), ProtoError>(e),
        },
{
    let ghost s = bytes@.skip(pos as int);
    let (number, wire_type, at) = match parse_key(bytes, pos) {
        Ok(found) => found,
        Err(e) => { return Err(e); },
    };
    assert(s.skip(at - pos) =~= bytes@.skip(at as int));
    if wire_type == 3 {
        match parse_group(bytes, at) {
            Ok(next) => Ok((WireField { number, value: WireValue::Group }, next)),
            Err(e) => Err(e),
        }
    } else {
        match parse_value(bytes, at, wire_type) {
            Ok((value, next)) => Ok((WireField { number, value }, next)),
            Err(e) => Err(e),
        }
    }
}

/// How `read_fields` goes on after one field.
proof fn lemma_read_fields_step(s: Seq<u8>)
    requires
        s.len() > 0,
    ensures
        read_fields(s) == match read_field(s) {
            Err(e) => Err::<Seq<FieldSpec>, ProtoError>(e),
            Ok((f, n)) => match read_fields(s.skip(n as int)) {
                Err(e) => Err(e),
                Ok(rest) => Ok(seq![f] + rest),
            },
        },
{
    lemma_read_field_len(s);
}

/// Splits a message into its fields.
pub fn parse_fields(bytes: &[u8]) -> (r: Result<Vec<WireField>, ProtoError>)
    ensures
        match read_fields(bytes@) {
            Ok(fs) => r is Ok && fields_view(r->Ok_0@) == fs,
            Err(e) => r == Err::<Vec<WireField>, ProtoError>(e),
        },
{
    let mut fields: Vec<WireField> = Vec::new();
    let mut pos: usize = 0;
    assert(bytes@.skip(0) =~= bytes@);
    assert(fields_view(fields@) =~= Seq::<FieldSpec>::empty());
    while pos < bytes.len()
        invariant
            pos <= bytes@.len(),
            read_fields(bytes@) == match read_fields(bytes@.skip(pos as int)) {
                Ok(rest) => Ok::<Seq<FieldSpec>, ProtoError>(fields_view(fields@) + rest),
                Err(e) => Err(e),
            },
        decreases bytes@.len() - pos,
    {
        let ghost s = bytes@.skip(pos as int);
        let ghost before = fields_view(fields@);
        proof {
            lemma_read_fields_step(s);
            lemma_read_field_len(s);
        }
        match parse_field(bytes, pos) {
            Ok((field, next)) => {
                proof {
                    assert(s.skip(next - pos) =~= bytes@.skip(next as int));
                    assert(fields_view(fields@.push(field)) =~= before.push(field@));
                    if let Ok(rest) = read_fields(bytes@.skip(next as int)) {
                        assert(before + (seq![field@] + rest) =~= before.push(field@) + rest);
                    }
                }
                fields.push(field);
                pos = next;
            },
            Err(e) => {
                return Err(e);
            },
        }
    }
    assert(bytes@.skip(pos as int) =~= Seq::<u8>::empty());
    assert(fields_view(fields@) + Seq::<FieldSpec>::empty() =~= fields_view(fields@));
    Ok(fields)
}

/// Appends a varint field to a message.
pub fn put_varint_field(out: &mut Vec<u8>, number: u32, value: u64)
    requires
        1 <= number <= FIELD_NUMBER_MAX,
    ensures
        final(out)@ == old(out)@ + (FieldSpec { number, value: ValueSpec::Varint(value) }).bytes(),
{
    write_raw_varint64(out, number as u64 * 8);
    write_raw_varint64(out, value);
    assert(out@ =~= old(out)@ + (FieldSpec { number, value: ValueSpec::Varint(value) }).bytes());
}

/// Appends a length-delimited field to a message.
pub fn put_bytes_field(out: &mut Vec<u8>, number: u32, bytes: &[u8])
    requires
        1 <= number <= FIELD_NUMBER_MAX,
        bytes@.len() <= u32::MAX,
    ensures
        final(out)@ == old(out)@ + (FieldSpec {
            number,
            value: ValueSpec::LengthDelimited(bytes@),
        }).bytes(),
{
    write_raw_varint64(out, number as u64 * 8 + 2);
    write_raw_varint64(out, bytes.len() as u64);
    extend_bytes(out, bytes);
    assert(out@ =~= old(out)@ + (FieldSpec {
        number,
        value: ValueSpec::LengthDelimited(bytes@),
    }).bytes());
}

/// A field takes at most twenty bytes beside what it holds.
pub proof fn lemma_field_bytes_len(f: FieldSpec)
    requires
        f.wf(),
    ensures
        f.bytes().len() <= 20 + (match f.value {
            ValueSpec::LengthDelimited(b) => b.len(),
            _ => 0,
        }),
{
    lemma_varint_len_u64((f.number as nat * 8 + f.value.wire_type()) as u64);
    match f.value {
        ValueSpec::Varint(v) => {
            lemma_varint_len_u64(v);
        },
        ValueSpec::LengthDelimited(b) => {
            lemma_varint_len_u64(b.len() as u64);
        },
        _ => {},
    }
}

/// Fields of at most `bound` bytes each make a message of at most as many
/// times `bound` bytes as there are fields.
pub proof fn lemma_fields_bytes_len(fs: Seq<FieldSpec>, bound: nat)
    requires
        forall|i: int| 0 <= i < fs.len() ==> (#[trigger] fs[i]).bytes().len() <= bound,
    ensures
        fields_bytes(fs).len() <= fs.len() * bound,
    decreases fs.len(),
{
    if fs.len() > 0 {
        assert forall|i: int| 0 <= i < fs.skip(1).len() implies (#[trigger] fs.skip(1)[i]).bytes().len()
            <= bound by {
            assert(fs.skip(1)[i] == fs[i + 1]);
        }
        lemma_fields_bytes_len(fs.skip(1), bound);
        assert(fs[0].bytes().len() <= bound);
        assert((fs.len() - 1) * bound + bound == fs.len() * bound) by (nonlinear_arith);
    }
}

/// Appends a field to a message.
pub fn put_field(out: &mut Vec<u8>, field: &WireField)
    requires
        field@.wf(),
    ensures
        final(out)@ == old(out)@ + field@.bytes(),
{
    match &field.value {
        WireValue::Varint(v) => {
            put_varint_field(out, field.number, *v);
        },
        WireValue::Fixed64(b) => {
            write_raw_varint64(out, field.number as u64 * 8 + 1);
            extend_bytes(out, b.as_slice());
            assert(out@ =~= old(out)@ + field@.bytes());
        },
        WireValue::LengthDelimited(b) => {
            put_bytes_field(out, field.number, b.as_slice());
        },
        WireValue::Fixed32(b) => {
            write_raw_varint64(out, field.number as u64 * 8 + 5);
            extend_bytes(out, b.as_slice());
            assert(out@ =~= old(out)@ + field@.bytes());
        },
        WireValue::Group => {},
    }
}

/// Writes a message of the given fields.
pub fn write_fields(fields: &Vec<WireField>) -> (out: Vec<u8>)
    requires
        fields_wf(fields_view(fields@)),
    ensures
        out@ == fields_bytes(fields_view(fields@)),
{
    let ghost all = fields_view(fields@);
    let mut out: Vec<u8> = Vec::new();
    let mut i: usize = 0;
    assert(all.take(0) =~= Seq::<FieldSpec>::empty());
    assert(fields_bytes(Seq::<FieldSpec>::empty()) =~= Seq::<u8>::empty());
    while i < fields.len()
        invariant
            i <= fields@.len(),
            all == fields_view(fields@),
            fields_wf(all),
            out@ == fields_bytes(all.take(i as int)),
        decreases fields@.len() - i,
    {
        proof {
            assert(all[i as int] == fields@[i as int]@);
            assert(all[i as int].wf());
            assert(all.take(i + 1) =~= all.take(i as int).push(all[i as int]));
            lemma_fields_bytes_push(all.take(i as int), all[i as int]);
        }
        put_field(&mut out, &fields[i]);
        i = i + 1;
    }
    assert(all.take(fields@.len() as int) =~= all);
    out
}

} // verus!
