//! The wire form of compact blocks: which field of which message holds what.
//! Reading integers and byte strings off the wire is left to the `protobuf` crate.

use vstd::prelude::*;
use crate::proto::{
    CompactBlock, CompactBlockView, CompactOutputView, CompactSaplingOutput, CompactSaplingSpend,
    CompactSpendView, CompactTx, CompactTxView,
};

verus! {

/// What the `protobuf` crate reports when bytes are not a message.
#[verifier::external_type_specification]
#[verifier::external_body]
pub struct ExProtobufError(protobuf::ProtobufError);

/// The kinds of value on the wire.
pub const WIRE_VARINT: u8 = 0;

pub const WIRE_LENGTH_DELIMITED: u8 = 2;

/// The field tag that the bytes start with: the field's number, the kind of
/// its value, and the number of bytes of the tag.
pub uninterp spec fn first_tag(bytes: Seq<u8>) -> Option<(u32, u8, int)>;

/// The variable-length integer that the bytes start with, and the number of
/// its bytes.
pub uninterp spec fn first_varint(bytes: Seq<u8>) -> Option<(u64, int)>;

/// The length-prefixed byte string that the bytes start with, and the number
/// of bytes that it takes with its prefix.
pub uninterp spec fn first_bytes(bytes: Seq<u8>) -> Option<(Seq<u8>, int)>;

/// The number of bytes of the value of kind `wire_type` that the bytes start
/// with, where the value belongs to a field that the reader does not know.
pub uninterp spec fn first_unknown(bytes: Seq<u8>, wire_type: u8) -> Option<int>;

/// `CodedInputStream::read_tag_unpack` on a stream of the bytes: a tag has a
/// field number above zero and one of the six value kinds, and takes at least
/// one byte; what is read is a function of the bytes alone.
#[verifier::external_body]
fn read_tag(bytes: &[u8]) -> (r: Result<(u32, u8, usize), protobuf::ProtobufError>)
    ensures
        r is Ok <==> first_tag(bytes@) is Some,
        r is Ok ==> first_tag(bytes@) == Some((r->Ok_0.0, r->Ok_0.1, r->Ok_0.2 as int)),
        r is Ok ==> 0 < r->Ok_0.2 <= bytes.len() && r->Ok_0.1 <= 5 && r->Ok_0.0 >= 1,
{
    let mut is = protobuf::CodedInputStream::from_bytes(bytes);
    let (field, wire_type) = is.read_tag_unpack()?;
    Ok((field, wire_type as u8, is.pos() as usize))
}

/// `CodedInputStream::read_raw_varint64` on a stream of the bytes: an integer
/// takes at least one byte; what is read is a function of the bytes alone.
#[verifier::external_body]
fn read_varint(bytes: &[u8]) -> (r: Result<(u64, usize), protobuf::ProtobufError>)
    ensures
        r is Ok <==> first_varint(bytes@) is Some,
        r is Ok ==> first_varint(bytes@) == Some((r->Ok_0.0, r->Ok_0.1 as int)),
        r is Ok ==> 0 < r->Ok_0.1 <= bytes.len(),
{
    let mut is = protobuf::CodedInputStream::from_bytes(bytes);
    let v = is.read_raw_varint64()?;
    Ok((v, is.pos() as usize))
}

/// `CodedInputStream::read_bytes` on a stream of the bytes: a byte string
/// takes at least the byte of its length; what is read is a function of the
/// bytes alone.
#[verifier::external_body]
fn read_bytes(bytes: &[u8]) -> (r: Result<(Vec<u8>, usize), protobuf::ProtobufError>)
    ensures
        r is Ok <==> first_bytes(bytes@) is Some,
        r is Ok ==> first_bytes(bytes@) == Some((r->Ok_0.0@, r->Ok_0.1 as int)),
        r is Ok ==> 0 < r->Ok_0.1 <= bytes.len(),
{
    let mut is = protobuf::CodedInputStream::from_bytes(bytes);
    let v = is.read_bytes()?;
    Ok((v, is.pos() as usize))
}

/// `protobuf::rt::read_unknown_or_skip_group` on a stream of the bytes, for a
/// field number that the reader does not know: how many bytes are passed
/// over is a function of the bytes and the value kind alone.
#[verifier::external_body]
fn skip_unknown(bytes: &[u8], field: u32, wire_type: u8) -> (r: Result<
    usize,
    protobuf::ProtobufError,
>)
    requires
        wire_type <= 5,
    ensures
        r is Ok <==> first_unknown(bytes@, wire_type) is Some,
        r is Ok ==> first_unknown(bytes@, wire_type) == Some(r->Ok_0 as int),
        r is Ok ==> r->Ok_0 <= bytes.len(),
{
    let mut is = protobuf::CodedInputStream::from_bytes(bytes);
    let wt = protobuf::wire_format::WireType::new(wire_type as u32).unwrap();
    let mut unknown = protobuf::UnknownFields::new();
    protobuf::rt::read_unknown_or_skip_group(field, wt, &mut is, &mut unknown)?;
    Ok(is.pos() as usize)
}

/// `protobuf::rt::unexpected_wire_type`: the error for a known field whose
/// value is of the wrong kind.
#[verifier::external_body]
fn unexpected_wire_type(wire_type: u8) -> (r: protobuf::ProtobufError)
    requires
        wire_type <= 5,
{
    protobuf::rt::unexpected_wire_type(
        protobuf::wire_format::WireType::new(wire_type as u32).unwrap(),
    )
}

/// A 32-bit field holds the low 32 bits of the integer on the wire.
pub open spec fn low32(v: u64) -> u32 {
    (v % 0x1_0000_0000) as u32
}

fn to_u32(v: u64) -> (r: u32)
    ensures
        r == low32(v),
{
    (v % 0x1_0000_0000) as u32
}

/// A spend with every field at its default.
pub open spec fn empty_spend() -> CompactSpendView {
    CompactSpendView { nf: Seq::empty() }
}

/// An output with every field at its default.
pub open spec fn empty_output() -> CompactOutputView {
    CompactOutputView { cmu: Seq::empty(), epk: Seq::empty(), ciphertext: Seq::empty() }
}

/// A transaction with every field at its default.
pub open spec fn empty_tx() -> CompactTxView {
    CompactTxView {
        index: 0,
        hash: Seq::empty(),
        fee: 0,
        spends: Seq::empty(),
        outputs: Seq::empty(),
    }
}

/// A block with every field at its default.
pub open spec fn empty_block() -> CompactBlockView {
    CompactBlockView {
        proto_version: 0,
        height: 0,
        hash: Seq::empty(),
        prev_hash: Seq::empty(),
        time: 0,
        header: Seq::empty(),
        vtx: Seq::empty(),
    }
}

/// A field as it stands at the start of `bytes`: its number, the kind of its
/// value, and the bytes behind its tag.
pub struct FieldStart {
    pub field: u32,
    pub wire_type: u8,
    pub tag_len: int,
    pub value: Seq<u8>,
}

/// The field that `bytes` starts with, if it starts with a tag.
pub open spec fn field_start(bytes: Seq<u8>) -> Option<FieldStart> {
    match first_tag(bytes) {
        Some((field, wire_type, n)) => if 0 < n <= bytes.len() {
            Some(FieldStart { field, wire_type, tag_len: n, value: bytes.skip(n) })
        } else {
            None
        },
        None => None,
    }
}

/// The byte string of a field that must be length-prefixed, and the number
/// of bytes of the field with its tag.
pub open spec fn bytes_value(start: FieldStart) -> Option<(Seq<u8>, int)> {
    if start.wire_type == WIRE_LENGTH_DELIMITED {
        match first_bytes(start.value) {
            Some((b, n)) => Some((b, start.tag_len + n)),
            None => None,
        }
    } else {
        None
    }
}

/// The integer of a field that must be a variable-length integer, and the
/// number of bytes of the field with its tag.
pub open spec fn varint_value(start: FieldStart) -> Option<(u64, int)> {
    if start.wire_type == WIRE_VARINT {
        match first_varint(start.value) {
            Some((v, n)) => Some((v, start.tag_len + n)),
            None => None,
        }
    } else {
        None
    }
}

/// The number of bytes of a field that the reader does not know, with its tag.
pub open spec fn unknown_value(start: FieldStart) -> Option<int> {
    match first_unknown(start.value, start.wire_type) {
        Some(n) => Some(start.tag_len + n),
        None => None,
    }
}

/// Reading the field that `bytes` starts with into the spend `acc`: field 1
/// is the nullifier. The result is the spend and the number of bytes read.
pub open spec fn spend_field(bytes: Seq<u8>, acc: CompactSpendView) -> Option<
    (CompactSpendView, int),
> {
    match field_start(bytes) {
        None => None,
        Some(start) => if start.field == 1 {
            match bytes_value(start) {
                Some((b, n)) => Some((CompactSpendView { nf: b }, n)),
                None => None,
            }
        } else {
            match unknown_value(start) {
                Some(n) => Some((acc, n)),
                None => None,
            }
        },
    }
}

/// Reading the fields of a spend from `bytes` into `acc`, to the last byte.
pub open spec fn spend_fields(bytes: Seq<u8>, acc: CompactSpendView) -> Option<CompactSpendView>
    decreases bytes.len(),
{
    if bytes.len() == 0 {
        Some(acc)
    } else {
        match spend_field(bytes, acc) {
            Some((next, n)) => if 0 < n <= bytes.len() {
                spend_fields(bytes.skip(n), next)
            } else {
                None
            },
            None => None,
        }
    }
}

/// The spend that `data` encodes, if it encodes one.
pub open spec fn decoded_spend(data: Seq<u8>) -> Option<CompactSpendView> {
    spend_fields(data, empty_spend())
}

/// Reading the field that `bytes` starts with into the output `acc`: field 1
/// is the note commitment, 2 the ephemeral key, 3 the ciphertext.
pub open spec fn output_field(bytes: Seq<u8>, acc: CompactOutputView) -> Option<
    (CompactOutputView, int),
> {
    match field_start(bytes) {
        None => None,
        Some(start) => if 1 <= start.field <= 3 {
            match bytes_value(start) {
                Some((b, n)) => Some(
                    (
                        if start.field == 1 {
                            CompactOutputView { cmu: b, ..acc }
                        } else if start.field == 2 {
                            CompactOutputView { epk: b, ..acc }
                        } else {
                            CompactOutputView { ciphertext: b, ..acc }
                        },
                        n,
                    ),
                ),
                None => None,
            }
        } else {
            match unknown_value(start) {
                Some(n) => Some((acc, n)),
                None => None,
            }
        },
    }
}

/// Reading the fields of an output from `bytes` into `acc`, to the last byte.
pub open spec fn output_fields(bytes: Seq<u8>, acc: CompactOutputView) -> Option<
    CompactOutputView,
>
    decreases bytes.len(),
{
    if bytes.len() == 0 {
        Some(acc)
    } else {
        match output_field(bytes, acc) {
            Some((next, n)) => if 0 < n <= bytes.len() {
                output_fields(bytes.skip(n), next)
            } else {
                None
            },
            None => None,
        }
    }
}

/// The output that `data` encodes, if it encodes one.
pub open spec fn decoded_output(data: Seq<u8>) -> Option<CompactOutputView> {
    output_fields(data, empty_output())
}

/// Reading the field that `bytes` starts with into the transaction `acc`:
/// field 1 is the index, 2 the identifier, 3 the fee, 4 one more spend, 5 one
/// more output.
pub open spec fn tx_field(bytes: Seq<u8>, acc: CompactTxView) -> Option<(CompactTxView, int)> {
    match field_start(bytes) {
        None => None,
        Some(start) => if start.field == 1 || start.field == 3 {
            match varint_value(start) {
                Some((v, n)) => Some(
                    (
                        if start.field == 1 {
                            CompactTxView { index: v, ..acc }
                        } else {
                            CompactTxView { fee: low32(v), ..acc }
                        },
                        n,
                    ),
                ),
                None => None,
            }
        } else if start.field == 2 {
            match bytes_value(start) {
                Some((b, n)) => Some((CompactTxView { hash: b, ..acc }, n)),
                None => None,
            }
        } else if start.field == 4 {
            match bytes_value(start) {
                Some((b, n)) => match decoded_spend(b) {
                    Some(spend) => Some((CompactTxView { spends: acc.spends.push(spend), ..acc }, n)),
                    None => None,
                },
                None => None,
            }
        } else if start.field == 5 {
            match bytes_value(start) {
                Some((b, n)) => match decoded_output(b) {
                    Some(output) => Some(
                        (CompactTxView { outputs: acc.outputs.push(output), ..acc }, n),
                    ),
                    None => None,
                },
                None => None,
            }
        } else {
            match unknown_value(start) {
                Some(n) => Some((acc, n)),
                None => None,
            }
        },
    }
}

/// Reading the fields of a transaction from `bytes` into `acc`, to the last byte.
pub open spec fn tx_fields(bytes: Seq<u8>, acc: CompactTxView) -> Option<CompactTxView>
    decreases bytes.len(),
{
    if bytes.len() == 0 {
        Some(acc)
    } else {
        match tx_field(bytes, acc) {
            Some((next, n)) => if 0 < n <= bytes.len() {
                tx_fields(bytes.skip(n), next)
            } else {
                None
            },
            None => None,
        }
    }
}

/// The transaction that `data` encodes, if it encodes one.
pub open spec fn decoded_tx(data: Seq<u8>) -> Option<CompactTxView> {
    tx_fields(data, empty_tx())
}

/// Reading the field that `bytes` starts with into the block `acc`: field 1
/// is the version of the format, 2 the height, 3 the hash, 4 the parent's
/// hash, 5 the time, 6 the full header, 7 one more transaction.
pub open spec fn block_field(bytes: Seq<u8>, acc: CompactBlockView) -> Option<
    (CompactBlockView, int),
> {
    match field_start(bytes) {
        None => None,
        Some(start) => if start.field == 1 || start.field == 2 || start.field == 5 {
            match varint_value(start) {
                Some((v, n)) => Some(
                    (
                        if start.field == 1 {
                            CompactBlockView { proto_version: low32(v), ..acc }
                        } else if start.field == 2 {
                            CompactBlockView { height: v, ..acc }
                        } else {
                            CompactBlockView { time: low32(v), ..acc }
                        },
                        n,
                    ),
                ),
                None => None,
            }
        } else if start.field == 3 || start.field == 4 || start.field == 6 {
            match bytes_value(start) {
                Some((b, n)) => Some(
                    (
                        if start.field == 3 {
                            CompactBlockView { hash: b, ..acc }
                        } else if start.field == 4 {
                            CompactBlockView { prev_hash: b, ..acc }
                        } else {
                            CompactBlockView { header: b, ..acc }
                        },
                        n,
                    ),
                ),
                None => None,
            }
        } else if start.field == 7 {
            match bytes_value(start) {
                Some((b, n)) => match decoded_tx(b) {
                    Some(tx) => Some((CompactBlockView { vtx: acc.vtx.push(tx), ..acc }, n)),
                    None => None,
                },
                None => None,
            }
        } else {
            match unknown_value(start) {
                Some(n) => Some((acc, n)),
                None => None,
            }
        },
    }
}

/// Reading the fields of a block from `bytes` into `acc`, to the last byte.
pub open spec fn block_fields(bytes: Seq<u8>, acc: CompactBlockView) -> Option<CompactBlockView>
    decreases bytes.len(),
{
    if bytes.len() == 0 {
        Some(acc)
    } else {
        match block_field(bytes, acc) {
            Some((next, n)) => if 0 < n <= bytes.len() {
                block_fields(bytes.skip(n), next)
            } else {
                None
            },
            None => None,
        }
    }
}

/// The block that `data` encodes, if it encodes one.
pub open spec fn decoded_block(data: Seq<u8>) -> Option<CompactBlockView> {
    block_fields(data, empty_block())
}

/// What was read of a field: its number, and what its value holds.
enum FieldValue {
    Varint(u64),
    Bytes(Vec<u8>),
    Unknown,
}

/// Whether what was read is what the field holds: fields whose numbers are
/// in `varints` hold an integer, fields whose numbers are in `strings` a
/// byte string, and the reader knows no other field.
spec fn read_as(
    start: FieldStart,
    varints: Set<u32>,
    strings: Set<u32>,
    value: FieldValue,
    used: int,
) -> bool {
    if varints.contains(start.field) {
        value matches FieldValue::Varint(v) && varint_value(start) == Some((v, used))
    } else if strings.contains(start.field) {
        value matches FieldValue::Bytes(b) && bytes_value(start) == Some((b@, used))
    } else {
        value is Unknown && unknown_value(start) == Some(used)
    }
}

/// Whether a field of the number `field` cannot be read.
spec fn unreadable(start: FieldStart, varints: Set<u32>, strings: Set<u32>) -> bool {
    if varints.contains(start.field) {
        varint_value(start) is None
    } else if strings.contains(start.field) {
        bytes_value(start) is None
    } else {
        unknown_value(start) is None
    }
}

/// Reads the field at `pos`: its number, its value, and the position behind it.
fn read_field(data: &[u8], pos: usize, varints: &[u32], strings: &[u32]) -> (r: Result<
    (u32, FieldValue, usize),
    protobuf::ProtobufError,
>)
    requires
        pos < data.len(),
    ensures
        match r {
            Ok((field, value, next)) => {
                &&& pos < next <= data.len()
                &&& field_start(data@.skip(pos as int)) is Some
                &&& field_start(data@.skip(pos as int))->Some_0.field == field
                &&& read_as(
                    field_start(data@.skip(pos as int))->Some_0,
                    varints@.to_set(),
                    strings@.to_set(),
                    value,
                    next - pos,
                )
                &&& data@.skip(pos as int).skip(next - pos) == data@.skip(next as int)
            },
            Err(_) => field_start(data@.skip(pos as int)) is None || unreadable(
                field_start(data@.skip(pos as int))->Some_0,
                varints@.to_set(),
                strings@.to_set(),
            ),
        },
{
    let rest = vstd::slice::slice_subrange(data, pos, data.len());
    assert(rest@ =~= data@.skip(pos as int));
    let (field, wire_type, n) = read_tag(rest)?;
    let value = vstd::slice::slice_subrange(data, pos + n, data.len());
    assert(value@ =~= rest@.skip(n as int));
    let ghost start = field_start(rest@)->Some_0;
    if contains(varints, field) {
        if wire_type != WIRE_VARINT {
            return Err(unexpected_wire_type(wire_type));
        }
        let (v, m) = read_varint(value)?;
        assert(data@.skip(pos as int).skip(n + m) =~= data@.skip(pos + n + m));
        Ok((field, FieldValue::Varint(v), pos + n + m))
    } else if contains(strings, field) {
        if wire_type != WIRE_LENGTH_DELIMITED {
            return Err(unexpected_wire_type(wire_type));
        }
        let (b, m) = read_bytes(value)?;
        assert(data@.skip(pos as int).skip(n + m) =~= data@.skip(pos + n + m));
        Ok((field, FieldValue::Bytes(b), pos + n + m))
    } else {
        let m = skip_unknown(value, field, wire_type)?;
        assert(data@.skip(pos as int).skip(n + m) =~= data@.skip(pos + n + m));
        Ok((field, FieldValue::Unknown, pos + n + m))
    }
}

/// Whether `field` is among `fields`.
fn contains(fields: &[u32], field: u32) -> (r: bool)
    ensures
        r == fields@.to_set().contains(field),
{
    let mut i: usize = 0;
    while i < fields.len()
        invariant
            i <= fields.len(),
            forall|j: int| 0 <= j < i ==> fields@[j] != field,
        decreases fields.len() - i,
    {
        if fields[i] == field {
            assert(fields@.contains(field));
            return true;
        }
        i += 1;
    }
    assert(!fields@.contains(field)) by {
        if fields@.contains(field) {
            let j = choose|j: int| 0 <= j < fields@.len() && fields@[j] == field;
            assert(fields@[j] != field);
        }
    }
    false
}

/// Reads a spend from its wire form.
pub fn parse_spend(data: &[u8]) -> (r: Result<CompactSaplingSpend, protobuf::ProtobufError>)
    ensures
        r is Ok <==> decoded_spend(data@) is Some,
        r is Ok ==> r->Ok_0@ == decoded_spend(data@)->Some_0,
{
    let mut acc = CompactSaplingSpend { nf: Vec::new() };
    let strings: [u32; 1] = [1];
    let varints: [u32; 0] = [];
    let mut pos: usize = 0;
    assert(data@.skip(0) =~= data@);
    while pos < data.len()
        invariant
            pos <= data.len(),
            strings@ =~= seq![1u32],
            varints@ =~= Seq::<u32>::empty(),
            decoded_spend(data@) == spend_fields(data@.skip(pos as int), acc@),
        decreases data.len() - pos,
    {
        proof {
            lemma_membership(strings@, varints@);
        }
        let (field, value, next) = read_field(data, pos, varints.as_slice(), strings.as_slice())?;
        match value {
            FieldValue::Bytes(b) => {
                acc.nf = b;
            },
            _ => {},
        }
        pos = next;
    }
    Ok(acc)
}

/// What it is to be among the numbers of a short list.
proof fn lemma_membership(a: Seq<u32>, b: Seq<u32>)
    ensures
        forall|x: u32| a.to_set().contains(x) <==> a.contains(x),
        forall|x: u32| b.to_set().contains(x) <==> b.contains(x),
        forall|x: u32| Seq::<u32>::empty().contains(x) == false,
        forall|x: u32| seq![1u32].contains(x) <==> x == 1,
        forall|x: u32| seq![1u32, 2u32, 3u32].contains(x) <==> 1 <= x <= 3,
        forall|x: u32| seq![1u32, 3u32].contains(x) <==> x == 1 || x == 3,
        forall|x: u32| seq![2u32, 4u32, 5u32].contains(x) <==> x == 2 || x == 4 || x == 5,
        forall|x: u32| seq![1u32, 2u32, 5u32].contains(x) <==> x == 1 || x == 2 || x == 5,
        forall|x: u32|
            seq![3u32, 4u32, 6u32, 7u32].contains(x) <==> x == 3 || x == 4 || x == 6 || x == 7,
{
    assert forall|x: u32| seq![1u32].contains(x) <==> x == 1 by {
        let s = seq![1u32];
        if x == 1 {
            assert(s[0] == x);
        }
    }
    assert forall|x: u32| seq![1u32, 2u32, 3u32].contains(x) <==> 1 <= x <= 3 by {
        let s = seq![1u32, 2u32, 3u32];
        if 1 <= x <= 3 {
            assert(s[x - 1] == x);
        }
    }
    assert forall|x: u32| seq![1u32, 3u32].contains(x) <==> x == 1 || x == 3 by {
        let s = seq![1u32, 3u32];
        if x == 1 {
            assert(s[0] == x);
        }
        if x == 3 {
            assert(s[1] == x);
        }
    }
    assert forall|x: u32| seq![2u32, 4u32, 5u32].contains(x) <==> x == 2 || x == 4 || x
        == 5 by {
        let s = seq![2u32, 4u32, 5u32];
        if x == 2 {
            assert(s[0] == x);
        }
        if x == 4 {
            assert(s[1] == x);
        }
        if x == 5 {
            assert(s[2] == x);
        }
    }
    assert forall|x: u32| seq![1u32, 2u32, 5u32].contains(x) <==> x == 1 || x == 2 || x
        == 5 by {
        let s = seq![1u32, 2u32, 5u32];
        if x == 1 {
            assert(s[0] == x);
        }
        if x == 2 {
            assert(s[1] == x);
        }
        if x == 5 {
            assert(s[2] == x);
        }
    }
    assert forall|x: u32|
        seq![3u32, 4u32, 6u32, 7u32].contains(x) <==> x == 3 || x == 4 || x == 6 || x == 7 by {
        let s = seq![3u32, 4u32, 6u32, 7u32];
        if x == 3 {
            assert(s[0] == x);
        }
        if x == 4 {
            assert(s[1] == x);
        }
        if x == 6 {
            assert(s[2] == x);
        }
        if x == 7 {
            assert(s[3] == x);
        }
    }
}

/// Reads an output from its wire form.
pub fn parse_output(data: &[u8]) -> (r: Result<CompactSaplingOutput, protobuf::ProtobufError>)
    ensures
        r is Ok <==> decoded_output(data@) is Some,
        r is Ok ==> r->Ok_0@ == decoded_output(data@)->Some_0,
{
    let mut acc = CompactSaplingOutput {
        cmu: Vec::new(),
        epk: Vec::new(),
        ciphertext: Vec::new(),
    };
    let strings: [u32; 3] = [1, 2, 3];
    let varints: [u32; 0] = [];
    let mut pos: usize = 0;
    assert(data@.skip(0) =~= data@);
    while pos < data.len()
        invariant
            pos <= data.len(),
            strings@ =~= seq![1u32, 2u32, 3u32],
            varints@ =~= Seq::<u32>::empty(),
            decoded_output(data@) == output_fields(data@.skip(pos as int), acc@),
        decreases data.len() - pos,
    {
        proof {
            lemma_membership(strings@, varints@);
        }
        let (field, value, next) = read_field(data, pos, varints.as_slice(), strings.as_slice())?;
        match value {
            FieldValue::Bytes(b) => {
                if field == 1 {
                    acc.cmu = b;
                } else if field == 2 {
                    acc.epk = b;
                } else {
                    acc.ciphertext = b;
                }
            },
            _ => {},
        }
        pos = next;
    }
    Ok(acc)
}

/// Reads a transaction from its wire form.
pub fn parse_tx(data: &[u8]) -> (r: Result<CompactTx, protobuf::ProtobufError>)
    ensures
        r is Ok <==> decoded_tx(data@) is Some,
        r is Ok ==> r->Ok_0@ == decoded_tx(data@)->Some_0,
{
    let mut acc = CompactTx {
        index: 0,
        hash: Vec::new(),
        fee: 0,
        spends: Vec::new(),
        outputs: Vec::new(),
    };
    assert(acc@.spends =~= Seq::empty() && acc@.outputs =~= Seq::empty());
    let varints: [u32; 2] = [1, 3];
    let strings: [u32; 3] = [2, 4, 5];
    let mut pos: usize = 0;
    assert(data@.skip(0) =~= data@);
    while pos < data.len()
        invariant
            pos <= data.len(),
            varints@ =~= seq![1u32, 3u32],
            strings@ =~= seq![2u32, 4u32, 5u32],
            decoded_tx(data@) == tx_fields(data@.skip(pos as int), acc@),
        decreases data.len() - pos,
    {
        proof {
            lemma_membership(strings@, varints@);
        }
        let ghost before = acc@;
        let (field, value, next) = read_field(data, pos, varints.as_slice(), strings.as_slice())?;
        match value {
            FieldValue::Varint(v) => {
                if field == 1 {
                    acc.index = v;
                } else {
                    acc.fee = to_u32(v);
                }
            },
            FieldValue::Bytes(b) => {
                if field == 2 {
                    acc.hash = b;
                } else if field == 4 {
                    let spend = parse_spend(b.as_slice())?;
                    acc.spends.push(spend);
                    assert(acc@.spends =~= before.spends.push(spend@));
                } else {
                    let output = parse_output(b.as_slice())?;
                    acc.outputs.push(output);
                    assert(acc@.outputs =~= before.outputs.push(output@));
                }
            },
            FieldValue::Unknown => {},
        }
        pos = next;
    }
    Ok(acc)
}

impl CompactBlock {
    /// Reads a block from its wire form.
    pub fn parse_from_bytes(data: &[u8]) -> (r: Result<CompactBlock, protobuf::ProtobufError>)
        ensures
            r is Ok <==> decoded_block(data@) is Some,
            r is Ok ==> r->Ok_0@ == decoded_block(data@)->Some_0,
    {
        let mut acc = CompactBlock {
            proto_version: 0,
            height: 0,
            hash: Vec::new(),
            prev_hash: Vec::new(),
            time: 0,
            header: Vec::new(),
            vtx: Vec::new(),
        };
        assert(acc@.vtx =~= Seq::empty());
        let varints: [u32; 3] = [1, 2, 5];
        let strings: [u32; 4] = [3, 4, 6, 7];
        let mut pos: usize = 0;
        assert(data@.skip(0) =~= data@);
        while pos < data.len()
            invariant
                pos <= data.len(),
                varints@ =~= seq![1u32, 2u32, 5u32],
                strings@ =~= seq![3u32, 4u32, 6u32, 7u32],
                decoded_block(data@) == block_fields(data@.skip(pos as int), acc@),
            decreases data.len() - pos,
        {
            proof {
                lemma_membership(strings@, varints@);
            }
            let ghost before = acc@;
            let (field, value, next) = read_field(
                data,
                pos,
                varints.as_slice(),
                strings.as_slice(),
            )?;
            match value {
                FieldValue::Varint(v) => {
                    if field == 1 {
                        acc.proto_version = to_u32(v);
                    } else if field == 2 {
                        acc.height = v;
                    } else {
                        acc.time = to_u32(v);
                    }
                },
                FieldValue::Bytes(b) => {
                    if field == 3 {
                        acc.hash = b;
                    } else if field == 4 {
                        acc.prev_hash = b;
                    } else if field == 6 {
                        acc.header = b;
                    } else {
                        let tx = parse_tx(b.as_slice())?;
                        acc.vtx.push(tx);
                        assert(acc@.vtx =~= before.vtx.push(tx@));
                    }
                },
                FieldValue::Unknown => {},
            }
            pos = next;
        }
        Ok(acc)
    }
}

/// The wire form of a field that holds a variable-length integer.
pub uninterp spec fn varint_field(field: u32, value: u64) -> Seq<u8>;

/// The wire form of a field that holds a length-prefixed byte string.
pub uninterp spec fn bytes_field(field: u32, data: Seq<u8>) -> Seq<u8>;

/// The greatest number of a field.
pub const FIELD_NUMBER_MAX: u32 = 0x1fff_ffff;

/// `CodedOutputStream::write_uint64` into a vector: the field is appended.
#[verifier::external_body]
fn write_varint_field(out: &mut Vec<u8>, field: u32, value: u64)
    requires
        1 <= field <= FIELD_NUMBER_MAX,
    ensures
        final(out)@ == old(out)@ + varint_field(field, value),
{
    let mut os = protobuf::CodedOutputStream::vec(out);
    os.write_uint64(field, value).unwrap();
    os.flush().unwrap();
}

/// `CodedOutputStream::write_bytes` into a vector: the field is appended.
/// The length of the byte string must fit the 32 bits of its prefix.
#[verifier::external_body]
fn write_bytes_field(out: &mut Vec<u8>, field: u32, data: &[u8])
    requires
        1 <= field <= FIELD_NUMBER_MAX,
        data@.len() <= u32::MAX,
    ensures
        final(out)@ == old(out)@ + bytes_field(field, data@),
{
    let mut os = protobuf::CodedOutputStream::vec(out);
    os.write_bytes(field, data).unwrap();
    os.flush().unwrap();
}

/// The wire form of an integer field: nothing where the integer is zero.
pub open spec fn optional_varint(field: u32, value: u64) -> Seq<u8> {
    if value == 0 {
        Seq::empty()
    } else {
        varint_field(field, value)
    }
}

/// The wire form of a field of bytes: nothing where there are no bytes.
pub open spec fn optional_bytes(field: u32, data: Seq<u8>) -> Seq<u8> {
    if data.len() == 0 {
        Seq::empty()
    } else {
        bytes_field(field, data)
    }
}

/// The wire form of a spend.
pub open spec fn encoded_spend(spend: CompactSpendView) -> Seq<u8> {
    optional_bytes(1, spend.nf)
}

/// The wire form of an output.
pub open spec fn encoded_output(output: CompactOutputView) -> Seq<u8> {
    optional_bytes(1, output.cmu) + optional_bytes(2, output.epk) + optional_bytes(
        3,
        output.ciphertext,
    )
}

/// The wire forms of the spends, each as a field 4.
pub open spec fn encoded_spends(spends: Seq<CompactSpendView>) -> Seq<u8>
    decreases spends.len(),
{
    if spends.len() == 0 {
        Seq::empty()
    } else {
        encoded_spends(spends.drop_last()) + bytes_field(4, encoded_spend(spends.last()))
    }
}

/// The wire forms of the outputs, each as a field 5.
pub open spec fn encoded_outputs(outputs: Seq<CompactOutputView>) -> Seq<u8>
    decreases outputs.len(),
{
    if outputs.len() == 0 {
        Seq::empty()
    } else {
        encoded_outputs(outputs.drop_last()) + bytes_field(5, encoded_output(outputs.last()))
    }
}

/// The wire form of a transaction.
pub open spec fn encoded_tx(tx: CompactTxView) -> Seq<u8> {
    optional_varint(1, tx.index) + optional_bytes(2, tx.hash) + optional_varint(3, tx.fee as u64)
        + encoded_spends(tx.spends) + encoded_outputs(tx.outputs)
}

/// The wire forms of the transactions, each as a field 7.
pub open spec fn encoded_txs(txs: Seq<CompactTxView>) -> Seq<u8>
    decreases txs.len(),
{
    if txs.len() == 0 {
        Seq::empty()
    } else {
        encoded_txs(txs.drop_last()) + bytes_field(7, encoded_tx(txs.last()))
    }
}

/// The wire form of a block.
pub open spec fn encoded_block(block: CompactBlockView) -> Seq<u8> {
    optional_varint(1, block.proto_version as u64) + optional_varint(2, block.height)
        + optional_bytes(3, block.hash) + optional_bytes(4, block.prev_hash) + optional_varint(
        5,
        block.time as u64,
    ) + optional_bytes(6, block.header) + encoded_txs(block.vtx)
}

/// Whether a length fits the 32 bits of a length prefix.
pub open spec fn fits(len: nat) -> bool {
    len <= u32::MAX
}

/// Whether an output can be written: each of its fields fits its length prefix.
pub open spec fn output_fits(output: CompactOutputView) -> bool {
    fits(output.cmu.len()) && fits(output.epk.len()) && fits(output.ciphertext.len())
}

/// Whether a transaction can be written: each of its fields, and each of its
/// spends and outputs as a whole, fits its length prefix.
pub open spec fn tx_fits(tx: CompactTxView) -> bool {
    &&& fits(tx.hash.len())
    &&& forall|i: int|
        0 <= i < tx.spends.len() ==> fits((#[trigger] tx.spends[i]).nf.len()) && fits(
            encoded_spend(tx.spends[i]).len(),
        )
    &&& forall|i: int|
        0 <= i < tx.outputs.len() ==> output_fits(#[trigger] tx.outputs[i]) && fits(
            encoded_output(tx.outputs[i]).len(),
        )
}

/// Whether a block can be written: each of its fields, and each of its
/// transactions as a whole, fits its length prefix.
pub open spec fn block_fits(block: CompactBlockView) -> bool {
    &&& fits(block.hash.len())
    &&& fits(block.prev_hash.len())
    &&& fits(block.header.len())
    &&& forall|i: int|
        0 <= i < block.vtx.len() ==> tx_fits(#[trigger] block.vtx[i]) && fits(
            encoded_tx(block.vtx[i]).len(),
        )
}

/// Appends an integer field, unless the integer is zero.
fn put_varint(out: &mut Vec<u8>, field: u32, value: u64)
    requires
        1 <= field <= FIELD_NUMBER_MAX,
    ensures
        final(out)@ == old(out)@ + optional_varint(field, value),
{
    if value != 0 {
        write_varint_field(out, field, value);
    } else {
        assert(out@ =~= old(out)@ + Seq::<u8>::empty());
    }
}

/// Appends a field of bytes, unless there are no bytes; nothing is appended
/// where the bytes do not fit the length prefix.
fn put_bytes(out: &mut Vec<u8>, field: u32, data: &[u8]) -> (ok: bool)
    requires
        1 <= field <= FIELD_NUMBER_MAX,
    ensures
        ok == fits(data@.len()),
        ok ==> final(out)@ == old(out)@ + optional_bytes(field, data@),
        !ok ==> final(out)@ == old(out)@,
{
    if data.len() > u32::MAX as usize {
        return false;
    }
    if data.len() != 0 {
        write_bytes_field(out, field, data);
    } else {
        assert(out@ =~= old(out)@ + Seq::<u8>::empty());
    }
    true
}

/// Appends a nested message as a field; nothing is appended where it does
/// not fit the length prefix.
fn put_message(out: &mut Vec<u8>, field: u32, data: &[u8]) -> (ok: bool)
    requires
        1 <= field <= FIELD_NUMBER_MAX,
    ensures
        ok == fits(data@.len()),
        ok ==> final(out)@ == old(out)@ + bytes_field(field, data@),
        !ok ==> final(out)@ == old(out)@,
{
    if data.len() > u32::MAX as usize {
        return false;
    }
    write_bytes_field(out, field, data);
    true
}

impl CompactSaplingSpend {
    /// The wire form of this spend; none where its nullifier does not fit a
    /// length prefix.
    pub fn write_to_bytes(&self) -> (r: Option<Vec<u8>>)
        ensures
            r is Some <==> fits(self@.nf.len()),
            r is Some ==> r->Some_0@ == encoded_spend(self@),
    {
        let mut out: Vec<u8> = Vec::new();
        if !put_bytes(&mut out, 1, self.nf.as_slice()) {
            return None;
        }
        assert(out@ =~= encoded_spend(self@));
        Some(out)
    }
}

impl CompactSaplingOutput {
    /// The wire form of this output; none where a field does not fit a
    /// length prefix.
    pub fn write_to_bytes(&self) -> (r: Option<Vec<u8>>)
        ensures
            r is Some <==> output_fits(self@),
            r is Some ==> r->Some_0@ == encoded_output(self@),
    {
        let mut out: Vec<u8> = Vec::new();
        if !put_bytes(&mut out, 1, self.cmu.as_slice()) {
            return None;
        }
        if !put_bytes(&mut out, 2, self.epk.as_slice()) {
            return None;
        }
        if !put_bytes(&mut out, 3, self.ciphertext.as_slice()) {
            return None;
        }
        assert(out@ =~= encoded_output(self@));
        Some(out)
    }
}

impl CompactTx {
    /// The wire form of this transaction; none where a field, a spend or an
    /// output does not fit a length prefix.
    pub fn write_to_bytes(&self) -> (r: Option<Vec<u8>>)
        ensures
            r is Some <==> tx_fits(self@),
            r is Some ==> r->Some_0@ == encoded_tx(self@),
    {
        let mut out: Vec<u8> = Vec::new();
        put_varint(&mut out, 1, self.index);
        if !put_bytes(&mut out, 2, self.hash.as_slice()) {
            return None;
        }
        put_varint(&mut out, 3, self.fee as u64);
        let ghost head = out@;
        let mut s: usize = 0;
        assert(self@.spends.take(0) =~= Seq::empty());
        assert(out@ =~= head + encoded_spends(self@.spends.take(0)));
        while s < self.spends.len()
            invariant
                s <= self.spends.len(),
                fits(self@.hash.len()),
                out@ == head + encoded_spends(self@.spends.take(s as int)),
                forall|i: int|
                    0 <= i < s ==> fits((#[trigger] self@.spends[i]).nf.len()) && fits(
                        encoded_spend(self@.spends[i]).len(),
                    ),
            decreases self.spends.len() - s,
        {
            proof {
                assert(self@.spends.take(s + 1).drop_last() =~= self@.spends.take(s as int));
                assert(self@.spends.take(s + 1).last() == self.spends[s as int]@);
                assert(self@.spends[s as int] == self.spends[s as int]@);
            }
            let nested = match self.spends[s].write_to_bytes() {
                Some(n) => n,
                None => {
                    return None;
                },
            };
            if !put_message(&mut out, 4, nested.as_slice()) {
                return None;
            }
            assert(out@ =~= head + encoded_spends(self@.spends.take(s + 1)));
            s += 1;
        }
        assert(self@.spends.take(s as int) =~= self@.spends);
        let ghost middle = out@;
        let mut o: usize = 0;
        assert(self@.outputs.take(0) =~= Seq::empty());
        assert(out@ =~= middle + encoded_outputs(self@.outputs.take(0)));
        while o < self.outputs.len()
            invariant
                o <= self.outputs.len(),
                fits(self@.hash.len()),
                forall|i: int|
                    0 <= i < self@.spends.len() ==> fits((#[trigger] self@.spends[i]).nf.len())
                        && fits(encoded_spend(self@.spends[i]).len()),
                out@ == middle + encoded_outputs(self@.outputs.take(o as int)),
                forall|i: int|
                    0 <= i < o ==> output_fits(#[trigger] self@.outputs[i]) && fits(
                        encoded_output(self@.outputs[i]).len(),
                    ),
            decreases self.outputs.len() - o,
        {
            proof {
                assert(self@.outputs.take(o + 1).drop_last() =~= self@.outputs.take(o as int));
                assert(self@.outputs.take(o + 1).last() == self.outputs[o as int]@);
                assert(self@.outputs[o as int] == self.outputs[o as int]@);
            }
            let nested = match self.outputs[o].write_to_bytes() {
                Some(n) => n,
                None => {
                    return None;
                },
            };
            if !put_message(&mut out, 5, nested.as_slice()) {
                return None;
            }
            assert(out@ =~= middle + encoded_outputs(self@.outputs.take(o + 1)));
            o += 1;
        }
        assert(self@.outputs.take(o as int) =~= self@.outputs);
        assert(out@ =~= encoded_tx(self@));
        Some(out)
    }
}

impl CompactBlock {
    /// The wire form of this block; none where a field or a transaction does
    /// not fit a length prefix.
    pub fn write_to_bytes(&self) -> (r: Option<Vec<u8>>)
        ensures
            r is Some <==> block_fits(self@),
            r is Some ==> r->Some_0@ == encoded_block(self@),
    {
        let mut out: Vec<u8> = Vec::new();
        put_varint(&mut out, 1, self.proto_version as u64);
        put_varint(&mut out, 2, self.height);
        if !put_bytes(&mut out, 3, self.hash.as_slice()) {
            return None;
        }
        if !put_bytes(&mut out, 4, self.prev_hash.as_slice()) {
            return None;
        }
        put_varint(&mut out, 5, self.time as u64);
        if !put_bytes(&mut out, 6, self.header.as_slice()) {
            return None;
        }
        let ghost head = out@;
        let mut t: usize = 0;
        assert(self@.vtx.take(0) =~= Seq::empty());
        assert(out@ =~= head + encoded_txs(self@.vtx.take(0)));
        while t < self.vtx.len()
            invariant
                t <= self.vtx.len(),
                fits(self@.hash.len()) && fits(self@.prev_hash.len()) && fits(self@.header.len()),
                out@ == head + encoded_txs(self@.vtx.take(t as int)),
                forall|i: int|
                    0 <= i < t ==> tx_fits(#[trigger] self@.vtx[i]) && fits(
                        encoded_tx(self@.vtx[i]).len(),
                    ),
            decreases self.vtx.len() - t,
        {
            proof {
                assert(self@.vtx.take(t + 1).drop_last() =~= self@.vtx.take(t as int));
                assert(self@.vtx.take(t + 1).last() == self.vtx[t as int]@);
                assert(self@.vtx[t as int] == self.vtx[t as int]@);
            }
            let nested = match self.vtx[t].write_to_bytes() {
                Some(n) => n,
                None => {
                    return None;
                },
            };
            if !put_message(&mut out, 7, nested.as_slice()) {
                return None;
            }
            assert(out@ =~= head + encoded_txs(self@.vtx.take(t + 1)));
            t += 1;
        }
        assert(self@.vtx.take(t as int) =~= self@.vtx);
        assert(out@ =~= encoded_block(self@));
        Some(out)
    }
}

} // verus!
