//! Reading the fields of a protobuf message (varints and length-delimited
//! values), as the Antigravity IDE stores its OAuth token.

use vstd::prelude::*;
use std::collections::HashMap;
use vstd::utf8::{decode_utf8, valid_utf8};

use crate::text::{trim, trim_ws};

verus! {

broadcast use vstd::std_specs::hash::group_hash_axioms;

/// The first index at or after `pos` whose byte has its high bit clear (or
/// the length of `bytes`): the last byte of a varint that starts at `pos`.
pub open spec fn varint_end(bytes: Seq<u8>, pos: int) -> int
    decreases bytes.len() - pos,
{
    if 0 <= pos < bytes.len() && bytes[pos] >= 0x80 {
        varint_end(bytes, pos + 1)
    } else {
        pos
    }
}

/// The group of seven bits that byte `k` of a varint contributes, as a `u64`
/// (bits shifted past bit 63 are lost).
pub open spec fn varint_group(b: u8, k: nat) -> u64 {
    ((b & 0x7f) as u64) << ((7 * k) as u64)
}

/// The sum of the groups of the first `n` bytes of a varint at `pos`.
pub open spec fn varint_sum(bytes: Seq<u8>, pos: int, n: nat) -> int
    decreases n,
{
    if n == 0 {
        0
    } else {
        varint_sum(bytes, pos, (n - 1) as nat) + varint_group(bytes[pos + n - 1], (n - 1) as nat)
    }
}

/// A little-endian base-128 varint at `pos`: at most ten bytes, all but the
/// last with the high bit set; its value and the index just after it.
pub open spec fn varint_spec(bytes: Seq<u8>, pos: int) -> Option<(u64, int)> {
    let e = varint_end(bytes, pos);
    if 0 <= pos && e < bytes.len() && e - pos < 10 {
        Some((varint_sum(bytes, pos, (e - pos + 1) as nat) as u64, e + 1))
    } else {
        None
    }
}

proof fn lemma_varint_end(bytes: Seq<u8>, pos: int)
    requires
        0 <= pos,
    ensures
        pos <= varint_end(bytes, pos),
        forall|k: int| pos <= k < varint_end(bytes, pos) ==> bytes[k] >= 0x80,
        varint_end(bytes, pos) <= bytes.len() || varint_end(bytes, pos) == pos,
        varint_end(bytes, pos) < bytes.len() ==> bytes[varint_end(bytes, pos)] < 0x80,
    decreases bytes.len() - pos,
{
    if 0 <= pos < bytes.len() && bytes[pos] >= 0x80 {
        lemma_varint_end(bytes, pos + 1);
    }
}

/// A varint, where there is one, ends after its start and within the bytes.
pub proof fn lemma_varint_advances(bytes: Seq<u8>, pos: int)
    requires
        0 <= pos,
    ensures
        varint_spec(bytes, pos) matches Some(r) ==> pos < r.1 <= bytes.len(),
{
    lemma_varint_end(bytes, pos);
}

/// Reads the varint that starts at `pos`: its value and the index after it.
pub fn read_varint(bytes: &[u8], pos: usize) -> (r: Option<(u64, usize)>)
    ensures
        varint_spec(bytes@, pos as int) is None ==> r is None,
        varint_spec(bytes@, pos as int) matches Some(t) ==> (r matches Some(q) && q.0 == t.0 && q.1
            == t.1),
{
    proof {
        lemma_varint_end(bytes@, pos as int);
    }
    let start = pos;
    let mut cur = pos;
    let mut value: u64 = 0;
    let mut shift: u64 = 0;
    assert(0u64 < (1u64 << 0u64)) by (bit_vector);
    while cur < bytes.len()
        invariant
            start == pos,
            start <= cur,
            cur <= bytes@.len() || cur == start,
            shift == 7 * (cur - start),
            cur - start <= 9,
            forall|k: int| start <= k < cur ==> bytes@[k] >= 0x80,
            value == varint_sum(bytes@, start as int, (cur - start) as nat),
            value < (1u64 << shift),
            varint_end(bytes@, start as int) == varint_end(bytes@, cur as int),
        decreases bytes@.len() - cur,
    {
        let byte = bytes[cur];
        cur += 1;
        let x: u64 = (byte & 0x7f) as u64;
        assert(x < 128) by (bit_vector)
            requires
                x == (byte & 0x7f) as u64,
        ;
        assert((value | (x << shift)) == value + (x << shift)) by (bit_vector)
            requires
                value < (1u64 << shift),
                shift <= 63,
                x < 128,
        ;
        assert(x << shift == varint_group(byte, (cur - 1 - start) as nat));
        let ghost old_value = value;
        value = value | (x << shift);
        assert(value == varint_sum(bytes@, start as int, (cur - start) as nat));
        if byte & 0x80 == 0 {
            assert(byte < 0x80) by (bit_vector)
                requires
                    byte & 0x80 == 0,
            ;
            assert(varint_end(bytes@, cur - 1) == cur - 1);
            assert(varint_end(bytes@, start as int) == cur - 1);
            assert(varint_spec(bytes@, start as int) == Some((value, cur as int)));
            return Some((value, cur));
        }
        assert(byte >= 0x80) by (bit_vector)
            requires
                byte & 0x80 != 0,
        ;
        assert(varint_end(bytes@, cur - 1) == varint_end(bytes@, cur as int));
        if shift + 7 > 63 {
            proof {
                lemma_varint_end(bytes@, cur as int);
            }
            return None;
        }
        assert(old_value + (x << shift) < (1u64 << (shift + 7))) by (bit_vector)
            requires
                old_value < (1u64 << shift),
                shift + 7 <= 63,
                x < 128,
        ;
        shift += 7;
    }
    None
}


/// A field value of a protobuf message.
pub enum ProtobufField {
    Varint(u64),
    Bytes(Vec<u8>),
}

/// The mathematical value of a field.
pub enum FieldValue {
    Varint(u64),
    Bytes(Seq<u8>),
}

impl ProtobufField {
    pub open spec fn model(self) -> FieldValue {
        match self {
            ProtobufField::Varint(v) => FieldValue::Varint(v),
            ProtobufField::Bytes(d) => FieldValue::Bytes(d@),
        }
    }
}

/// The field map of a message, by the models of its values.
pub open spec fn fields_model(m: Map<u32, ProtobufField>) -> Map<u32, FieldValue> {
    m.map_values(|f: ProtobufField| f.model())
}

/// `pos` advanced by `k`, capped at `usize::MAX` (`usize::saturating_add`).
pub open spec fn sat_add(pos: int, k: int) -> int {
    if pos + k > usize::MAX { usize::MAX as int } else { pos + k }
}

/// The fields read from `pos` on, over the fields `acc` already read. Each
/// record is a varint tag (field number `tag >> 3`, wire type `tag & 7`)
/// followed by a varint value (type 0) or a varint length and that many
/// bytes (type 2); fixed 64-bit (type 1) and 32-bit (type 5) values are
/// skipped. A later record of a field replaces an earlier one. Reading stops,
/// keeping what was read, at the end, at a malformed varint, at a length past
/// the end, or at any other wire type.
pub open spec fn fields_from(bytes: Seq<u8>, pos: int, acc: Map<u32, FieldValue>) -> Map<u32, FieldValue>
    decreases bytes.len() - pos,
{
    if pos < 0 || pos >= bytes.len() {
        acc
    } else {
        match varint_spec(bytes, pos) {
            None => acc,
            Some((tag, p1)) => {
                proof {
                    lemma_varint_advances(bytes, pos);
                }
                let num = (tag >> 3) as u32;
                let wire = tag & 7;
                if wire == 0 {
                    match varint_spec(bytes, p1) {
                        None => acc,
                        Some((v, p2)) => {
                            proof {
                                lemma_varint_advances(bytes, p1);
                            }
                            fields_from(bytes, p2, acc.insert(num, FieldValue::Varint(v)))
                        },
                    }
                } else if wire == 2 {
                    match varint_spec(bytes, p1) {
                        None => acc,
                        Some((l, p2)) => {
                            proof {
                                lemma_varint_advances(bytes, p1);
                            }
                            let n = (l as usize) as int;
                            if n > bytes.len() - p2 {
                                acc
                            } else {
                                fields_from(
                                    bytes,
                                    p2 + n,
                                    acc.insert(num, FieldValue::Bytes(bytes.subrange(p2, p2 + n))),
                                )
                            }
                        },
                    }
                } else if wire == 1 || wire == 5 {
                    let next = sat_add(p1, if wire == 1 { 8 } else { 4 });
                    if pos < next < bytes.len() {
                        fields_from(bytes, next, acc)
                    } else {
                        acc
                    }
                } else {
                    acc
                }
            },
        }
    }
}

/// The fields of the message `bytes`.
pub open spec fn protobuf_fields(bytes: Seq<u8>) -> Map<u32, FieldValue> {
    fields_from(bytes, 0, Map::empty())
}

proof fn lemma_model_insert(m: Map<u32, ProtobufField>, k: u32, f: ProtobufField)
    ensures
        fields_model(m.insert(k, f)) == fields_model(m).insert(k, f.model()),
{
    assert(fields_model(m.insert(k, f)) =~= fields_model(m).insert(k, f.model()));
}

/// Reads the fields of the message `bytes` (see `fields_from`).
pub fn read_protobuf_fields(bytes: &[u8]) -> (fields: HashMap<u32, ProtobufField>)
    ensures
        fields_model(fields@) == protobuf_fields(bytes@),
{
    let mut fields: HashMap<u32, ProtobufField> = HashMap::new();
    let mut pos: usize = 0;
    assert(fields_model(fields@) =~= Map::empty());
    while pos < bytes.len()
        invariant_except_break
            fields_from(bytes@, pos as int, fields_model(fields@)) == protobuf_fields(bytes@),
        ensures
            fields_model(fields@) == protobuf_fields(bytes@),
        decreases usize::MAX - pos,
    {
        let (tag, next_pos) = match read_varint(bytes, pos) {
            Some(v) => v,
            None => break,
        };
        proof {
            lemma_varint_advances(bytes@, pos as int);
        }
        let ghost p1 = next_pos;
        pos = next_pos;
        let field_num = (tag >> 3) as u32;
        let wire_type = tag & 0x07;
        if wire_type == 0 {
            let (value, next_pos) = match read_varint(bytes, pos) {
                Some(v) => v,
                None => break,
            };
            proof {
                lemma_varint_advances(bytes@, p1 as int);
                lemma_model_insert(fields@, field_num, ProtobufField::Varint(value));
            }
            pos = next_pos;
            fields.insert(field_num, ProtobufField::Varint(value));
        } else if wire_type == 2 {
            let (len, next_pos) = match read_varint(bytes, pos) {
                Some(v) => v,
                None => break,
            };
            proof {
                lemma_varint_advances(bytes@, p1 as int);
            }
            pos = next_pos;
            let len = len as usize;
            if len > bytes.len() - pos {
                break;
            }
            let data = bytes_range(bytes, pos, pos + len);
            proof {
                lemma_model_insert(fields@, field_num, ProtobufField::Bytes(data));
            }
            pos += len;
            fields.insert(field_num, ProtobufField::Bytes(data));
        } else if wire_type == 1 {
            pos = pos.saturating_add(8);
        } else if wire_type == 5 {
            pos = pos.saturating_add(4);
        } else {
            break;
        }
    }
    fields
}

/// The bytes of `b` from `from` up to `to`, copied.
pub fn bytes_range(b: &[u8], from: usize, to: usize) -> (r: Vec<u8>)
    requires
        from <= to <= b@.len(),
    ensures
        r@ == b@.subrange(from as int, to as int),
{
    let mut r: Vec<u8> = Vec::new();
    let mut i = from;
    while i < to
        invariant
            from <= i <= to <= b@.len(),
            r@ == b@.subrange(from as int, i as int),
        decreases to - i,
    {
        r.push(b[i]);
        i += 1;
        assert(r@ =~= b@.subrange(from as int, i as int));
    }
    r
}


/// The bytes of field `num` where it holds bytes.
pub open spec fn field_bytes_spec(fields: Map<u32, FieldValue>, num: u32) -> Option<Seq<u8>> {
    if fields.contains_key(num) {
        match fields[num] {
            FieldValue::Bytes(d) => Some(d),
            FieldValue::Varint(_) => None,
        }
    } else {
        None
    }
}

/// The text of field `num`: its bytes as UTF-8, trimmed, where that is not empty.
pub open spec fn field_string_spec(fields: Map<u32, FieldValue>, num: u32) -> Option<Seq<char>> {
    match field_bytes_spec(fields, num) {
        Some(d) => if valid_utf8(d) && trim_ws(decode_utf8(d)).len() > 0 {
            Some(trim_ws(decode_utf8(d)))
        } else {
            None
        },
        None => None,
    }
}

/// `String::from_utf8`: the text that the bytes encode, where they are valid UTF-8.
#[verifier::external_body]
fn string_from_utf8(bytes: &[u8]) -> (r: Option<String>)
    ensures
        r is Some <==> valid_utf8(bytes@),
        r matches Some(s) ==> s@ == decode_utf8(bytes@),
{
    String::from_utf8(bytes.to_vec()).ok()
}

/// The bytes of field `num`, where it holds bytes.
pub fn field_bytes(fields: &HashMap<u32, ProtobufField>, num: u32) -> (r: Option<&[u8]>)
    ensures
        match field_bytes_spec(fields_model(fields@), num) {
            Some(d) => r matches Some(x) && x@ == d,
            None => r is None,
        },
{
    match fields.get(&num) {
        Some(ProtobufField::Bytes(data)) => Some(data.as_slice()),
        _ => None,
    }
}

/// The trimmed UTF-8 text of field `num`, where it is not empty.
pub fn field_string(fields: &HashMap<u32, ProtobufField>, num: u32) -> (r: Option<String>)
    ensures
        match field_string_spec(fields_model(fields@), num) {
            Some(t) => r matches Some(x) && x@ == t,
            None => r is None,
        },
{
    let data = match field_bytes(fields, num) {
        Some(d) => d,
        None => return None,
    };
    let text = match string_from_utf8(data) {
        Some(t) => t,
        None => return None,
    };
    let trimmed = trim(text.as_str());
    if trimmed.as_str().is_empty() {
        None
    } else {
        Some(trimmed)
    }
}

} // verus!
