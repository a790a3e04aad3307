//! The wire format, as mathematics.
//!
//! [`enc_value`] says which bytes the serializer must produce for a ghost
//! value (or which error it must raise), and [`dec_value`] which value the
//! deserializer must produce from the bytes at a position (or which error).
//! The executable codec is specified against these two functions, and the
//! round-trip laws are proved about them.
//!
//! The decoder carries a recursion budget (`fuel`): the wire can spell
//! arbitrarily deep static-type recursion through a cyclic type graph, which
//! no structural measure bounds.  A budget of at least the value's height is
//! always enough (see the round-trip law).

use vstd::prelude::*;

use crate::abi::{Abi, AbiAttr, AbiTypeV, LazyAbiType};
use crate::primitive::{
    BOOL, CHAR, DURATION, ENUM, FLOAT, FN, GEO, INT, NODE, NODE_GEO, NODE_INDEX, NODE_LIST,
    NODE_TIME, NULL, OBJECT, STR_LIT, TIME, UNDEFINED,
};
use crate::reader::{dec_le, dec_u8, enc_le};
use crate::value::{null_values, vheight, ValueV};
use crate::varint::{dec_vi64, dec_vu32, dec_vu64, enc_vi64, enc_vu32, enc_vu64, spec_zigzag};
use vstd::utf8::{decode_utf8, encode_utf8, valid_utf8};

use crate::error::Error;

verus! {

/// The first id at or after `i` whose symbol equals `s`.
pub open spec fn sym_lookup(symbols: Seq<Seq<char>>, s: Seq<char>, i: int) -> Option<u32>
    decreases symbols.len() - i,
{
    if i < 0 || i >= symbols.len() {
        None
    } else if symbols[i] == s {
        Some(i as u32)
    } else {
        sym_lookup(symbols, s, i + 1)
    }
}

/// The id of the symbol spelling `s`, if the table holds one.
pub open spec fn spec_symbol_id(abi: Abi, s: Seq<char>) -> Option<u32> {
    sym_lookup(abi.symbols_v(), s, 0)
}

/// Whether bit `k` of a little-endian bitset is set: bit `k` lives in byte
/// `k / 8` at position `k % 8`.
pub open spec fn bit_of(bs: Seq<u8>, k: int) -> bool {
    ((bs[k / 8] as u32) >> ((k % 8) as u32)) & 1 == 1
}

/// One byte with bit `pos` set or cleared.
pub open spec fn byte_with_bit(b: u8, pos: int, on: bool) -> u8 {
    if on {
        ((b as u32) | (1u32 << (pos as u32))) as u8
    } else {
        ((b as u32) & (0xffu32 ^ (1u32 << (pos as u32)))) as u8
    }
}

/// The bitset with bit `k` set to `on`.
pub open spec fn set_bit(bs: Seq<u8>, k: int, on: bool) -> Seq<u8> {
    bs.update(k / 8, byte_with_bit(bs[k / 8], k % 8, on))
}

/// A sequence of `n` zero bytes.
pub open spec fn zero_bytes(n: nat) -> Seq<u8> {
    Seq::new(n, |i: int| 0u8)
}

// ---------------------------------------------------------------------------
// Encoder
// ---------------------------------------------------------------------------
/// The symbol-reference wire form: a varint-u32 of `(id << 1) | 1`.
pub open spec fn enc_symbol(id: u32, abi: Abi) -> Result<Seq<u8>, Error> {
    if id >= abi.symbols_v().len() {
        Err(Error::UnknownSymbol(id))
    } else if id >= 0x8000_0000u32 {
        Err(Error::OversizeLength)
    } else {
        Ok(enc_vu32((2 * id + 1) as u32))
    }
}

/// The plain-string wire form: a varint-u32 of `len << 1`, then the UTF-8
/// bytes.
pub open spec fn enc_plain_string(s: Seq<char>) -> Result<Seq<u8>, Error> {
    if encode_utf8(s).len() >= 0x8000_0000 {
        Err(Error::OversizeLength)
    } else {
        Ok(enc_vu32((2 * encode_utf8(s).len()) as u32) + encode_utf8(s))
    }
}

/// The raw form of a string value: a symbol reference when the string
/// matches an interned symbol, the plain form otherwise.
pub open spec fn enc_string_probe(s: Seq<char>, abi: Abi) -> Result<Seq<u8>, Error> {
    match spec_symbol_id(abi, s) {
        Some(id) => enc_symbol(id, abi),
        None => enc_plain_string(s),
    }
}

/// The body of an object value (bitset, then attribute bodies), without the
/// tag and type id.
pub open spec fn enc_obj_raw(tid: u32, vals: Option<Seq<ValueV>>, abi: Abi) -> Result<
    Seq<u8>,
    Error,
>
    decreases vals, 0int, 1int,
{
    if tid >= abi.types_v().len() {
        Err(Error::UnknownTypeId(tid))
    } else {
        let t = abi.types_v()[tid as int];
        match (t.attrs, vals) {
            (None, None) => Ok(Seq::empty()),
            (None, Some(_)) => Err(Error::ObjectShapeMismatch(t.name)),
            (Some(_), None) => Err(Error::ObjectShapeMismatch(t.name)),
            (Some(attrs), Some(vs)) => {
                let bits = if t.nullable_nb_bytes > 0 {
                    enc_bitset(attrs, vs, 0, 0, zero_bytes(t.nullable_nb_bytes as nat))
                } else {
                    Ok(Seq::empty())
                };
                match bits {
                    Err(e) => Err(e),
                    Ok(bs) => match enc_attrs(attrs, vs, t.name, abi, 0) {
                        Err(e) => Err(e),
                        Ok(body) => Ok(bs + body),
                    },
                }
            },
        }
    }
}

/// The nullable bitset of an object: walking attributes paired with values,
/// every nullable attribute contributes one bit, set unless its value is
/// null.  A bit that falls outside the declared bitset size is an ABI-
/// invariant violation.
pub open spec fn enc_bitset(
    attrs: Seq<AbiAttr>,
    vs: Seq<ValueV>,
    i: int,
    rank: int,
    bs: Seq<u8>,
) -> Result<Seq<u8>, Error>
    decreases attrs.len() - i,
{
    if i < 0 || i >= attrs.len() || i >= vs.len() {
        Ok(bs)
    } else if attrs[i].nullable {
        if rank < 0 || rank / 8 >= bs.len() {
            Err(Error::MalformedAbi)
        } else {
            enc_bitset(attrs, vs, i + 1, rank + 1, set_bit(bs, rank, !(vs[i] is Null)))
        }
    } else {
        enc_bitset(attrs, vs, i + 1, rank, bs)
    }
}

/// The attribute bodies of an object, in attribute order.  A nullable
/// attribute whose value is null contributes nothing; the rest dispatch on
/// the attribute's static type.
pub open spec fn enc_attrs(
    attrs: Seq<AbiAttr>,
    vs: Seq<ValueV>,
    tname: u32,
    abi: Abi,
    i: int,
) -> Result<Seq<u8>, Error>
    decreases vs, attrs.len() - i, 3int,
{
    if i < 0 || i >= attrs.len() || i >= vs.len() {
        Ok(Seq::empty())
    } else {
        let head = enc_attr(attrs[i], vs[i], tname, abi);
        match head {
            Err(e) => Err(e),
            Ok(b1) => match enc_attrs(attrs, vs, tname, abi, i + 1) {
                Err(e) => Err(e),
                Ok(b2) => Ok(b1 + b2),
            },
        }
    }
}

/// The attribute bodies that made it out before the walk failed: the
/// concatenation of the successfully encoded bodies from index `i` up to
/// (and excluding) the first attribute that does not encode.  This is what
/// a failed object encoding leaves in the sink after the bitset.
pub open spec fn enc_attrs_prefix(
    attrs: Seq<AbiAttr>,
    vs: Seq<ValueV>,
    tname: u32,
    abi: Abi,
    i: int,
) -> Seq<u8>
    decreases vs, attrs.len() - i, 4int,
{
    if i < 0 || i >= attrs.len() || i >= vs.len() {
        Seq::empty()
    } else {
        match enc_attr(attrs[i], vs[i], tname, abi) {
            Err(_) => Seq::empty(),
            Ok(b1) => b1 + enc_attrs_prefix(attrs, vs, tname, abi, i + 1),
        }
    }
}

/// The bytes a failed object encoding leaves in the sink: nothing when the
/// type reference, the shapes or the bitset are at fault, otherwise the
/// bitset and the attribute bodies up to the first one that does not
/// encode.
pub open spec fn enc_obj_err_prefix(tid: u32, vals: Option<Seq<ValueV>>, abi: Abi) -> Seq<u8> {
    if tid >= abi.types_v().len() {
        Seq::empty()
    } else {
        let t = abi.types_v()[tid as int];
        match (t.attrs, vals) {
            (Some(attrs), Some(vs)) => {
                let bits = if t.nullable_nb_bytes > 0 {
                    enc_bitset(attrs, vs, 0, 0, zero_bytes(t.nullable_nb_bytes as nat))
                } else {
                    Ok(Seq::empty())
                };
                match bits {
                    Err(_) => Seq::empty(),
                    Ok(bs) => bs + enc_attrs_prefix(attrs, vs, t.name, abi, 0),
                }
            },
            _ => Seq::empty(),
        }
    }
}

/// The body one attribute contributes: nothing for a null nullable; the
/// tagged form for a polymorphic attribute; the raw form, type-checked,
/// for a statically typed one.
pub open spec fn enc_attr(a: AbiAttr, v: ValueV, tname: u32, abi: Abi) -> Result<Seq<u8>, Error>
    decreases v, 0int, 3int,
{
    if a.nullable && v is Null {
        Ok(Seq::empty())
    } else if a.sbi_type == BOOL {
        match v {
            ValueV::Bool(_) => enc_value_raw(v, abi),
            _ => Err(Error::AttrTypeMismatch(a.name, tname)),
        }
    } else if a.sbi_type == CHAR {
        match v {
            ValueV::Char(_) => enc_value_raw(v, abi),
            _ => Err(Error::AttrTypeMismatch(a.name, tname)),
        }
    } else if a.sbi_type == INT {
        match v {
            ValueV::Int(_) => enc_value_raw(v, abi),
            _ => Err(Error::AttrTypeMismatch(a.name, tname)),
        }
    } else if a.sbi_type == FLOAT {
        match v {
            ValueV::Float(_) => enc_value_raw(v, abi),
            _ => Err(Error::AttrTypeMismatch(a.name, tname)),
        }
    } else if a.sbi_type == OBJECT {
        match v {
            ValueV::Obj(otid, _) => {
                if a.abi_type < abi.types_v().len() && abi.types_v()[a.abi_type as int].is_abstract {
                    // An abstract attribute is prefixed with the concrete
                    // type's id.
                    if otid >= abi.types_v().len() {
                        Err(Error::UnknownTypeId(otid))
                    } else {
                        match enc_value_raw(v, abi) {
                            Err(e) => Err(e),
                            Ok(body) => Ok(
                                enc_vu32(abi.types_v()[otid as int].mapped_abi_type_offset) + body,
                            ),
                        }
                    }
                } else {
                    enc_value_raw(v, abi)
                }
            },
            ValueV::Array(_) => enc_value_raw(v, abi),
            ValueV::Dict(_) => enc_value_raw(v, abi),
            ValueV::Str(_) => enc_value_raw(v, abi),
            ValueV::Symbol(_) => enc_value_raw(v, abi),
            ValueV::Enum(_, _, _) => enc_value_raw(v, abi),
            _ => Err(Error::AttrTypeMismatch(a.name, tname)),
        }
    } else if a.sbi_type == UNDEFINED {
        enc_value(v, abi)
    } else if a.sbi_type == NULL {
        Ok(Seq::empty())
    } else {
        enc_value_raw(v, abi)
    }
}

/// The raw (untagged) wire form of a value.
pub open spec fn enc_value_raw(v: ValueV, abi: Abi) -> Result<Seq<u8>, Error>
    decreases v, 0int, 1int,
{
    match v {
        ValueV::Null => Ok(Seq::empty()),
        ValueV::Int(n) => Ok(enc_vi64(n)),
        ValueV::Float(bits) => Ok(enc_le(bits as nat, 8)),
        ValueV::Char(c) => {
            if (c as u32) < 128 {
                Ok(seq![c as u8])
            } else {
                Err(Error::NotAscii(c))
            }
        },
        ValueV::Bool(x) => Ok(seq![if x { 1u8 } else { 0u8 }]),
        ValueV::Array(items) => {
            if items.len() >= 0x1_0000_0000 {
                Err(Error::OversizeLength)
            } else {
                match enc_items(items, abi, 0) {
                    Err(e) => Err(e),
                    Ok(body) => Ok(enc_vu32(items.len() as u32) + body),
                }
            }
        },
        ValueV::Dict(pairs) => {
            if pairs.len() >= 0x1_0000_0000 {
                Err(Error::OversizeLength)
            } else {
                match enc_dict_pairs(pairs, abi, 0) {
                    Err(e) => Err(e),
                    Ok(body) => Ok(enc_vu32(pairs.len() as u32) + body),
                }
            }
        },
        ValueV::Symbol(id) => enc_symbol(id, abi),
        ValueV::Node(n) => Ok(enc_vu64(n)),
        ValueV::NodeTime(n) => Ok(enc_vu64(n)),
        ValueV::NodeIndex(n) => Ok(enc_vu64(n)),
        ValueV::NodeList(n) => Ok(enc_vu64(n)),
        ValueV::NodeGeo(n) => Ok(enc_vu64(n)),
        ValueV::Geo(n) => Ok(enc_vu64(n)),
        ValueV::Time(n) => Ok(enc_vi64(n)),
        ValueV::Duration(n) => Ok(enc_vi64(n)),
        ValueV::Str(s) => enc_string_probe(s, abi),
        ValueV::Enum(_, offset, _) => Ok(enc_vu32(offset)),
        ValueV::Obj(tid, vals) => enc_obj_raw(tid, vals, abi),
    }
}

/// The tagged wire form of a value: the tag byte, any type id, then the raw
/// form.
pub open spec fn enc_value(v: ValueV, abi: Abi) -> Result<Seq<u8>, Error>
    decreases v, 0int, 2int,
{
    match v {
        ValueV::Null => Ok(seq![NULL]),
        ValueV::Int(_) => prepend_tag(INT, enc_value_raw(v, abi)),
        ValueV::Float(_) => prepend_tag(FLOAT, enc_value_raw(v, abi)),
        ValueV::Char(_) => prepend_tag(CHAR, enc_value_raw(v, abi)),
        ValueV::Bool(_) => prepend_tag(BOOL, enc_value_raw(v, abi)),
        ValueV::Array(_) => match enc_value_raw(v, abi) {
            Err(e) => Err(e),
            Ok(body) => Ok(seq![OBJECT] + enc_vu32(abi.core_ids().array) + body),
        },
        ValueV::Dict(_) => match enc_value_raw(v, abi) {
            Err(e) => Err(e),
            Ok(body) => Ok(seq![OBJECT] + enc_vu32(abi.core_ids().map) + body),
        },
        ValueV::Symbol(_) => prepend_tag(STR_LIT, enc_value_raw(v, abi)),
        ValueV::Node(_) => prepend_tag(NODE, enc_value_raw(v, abi)),
        ValueV::NodeTime(_) => prepend_tag(NODE_TIME, enc_value_raw(v, abi)),
        ValueV::NodeIndex(_) => prepend_tag(NODE_INDEX, enc_value_raw(v, abi)),
        ValueV::NodeList(_) => prepend_tag(NODE_LIST, enc_value_raw(v, abi)),
        ValueV::NodeGeo(_) => prepend_tag(NODE_GEO, enc_value_raw(v, abi)),
        ValueV::Geo(_) => prepend_tag(GEO, enc_value_raw(v, abi)),
        ValueV::Time(_) => prepend_tag(TIME, enc_value_raw(v, abi)),
        ValueV::Duration(_) => prepend_tag(DURATION, enc_value_raw(v, abi)),
        ValueV::Str(s) => match spec_symbol_id(abi, s) {
            Some(id) => prepend_tag(STR_LIT, enc_symbol(id, abi)),
            None => match enc_plain_string(s) {
                Err(e) => Err(e),
                Ok(body) => Ok(seq![OBJECT] + enc_vu32(abi.core_ids().string) + body),
            },
        },
        ValueV::Enum(tid, _, _) => {
            if tid >= abi.types_v().len() {
                Err(Error::UnknownTypeId(tid))
            } else {
                match enc_value_raw(v, abi) {
                    Err(e) => Err(e),
                    Ok(body) => Ok(
                        seq![ENUM] + enc_vu32(abi.types_v()[tid as int].mapped_abi_type_offset)
                            + body,
                    ),
                }
            }
        },
        ValueV::Obj(tid, _) => {
            if tid >= abi.types_v().len() {
                Err(Error::UnknownTypeId(tid))
            } else {
                match enc_value_raw(v, abi) {
                    Err(e) => Err(e),
                    Ok(body) => Ok(
                        seq![OBJECT] + enc_vu32(abi.types_v()[tid as int].mapped_abi_type_offset)
                            + body,
                    ),
                }
            }
        },
    }
}

/// Prefixes a tag byte onto a raw body, keeping the error if there is one.
pub open spec fn prepend_tag(tag: u8, body: Result<Seq<u8>, Error>) -> Result<Seq<u8>, Error> {
    match body {
        Err(e) => Err(e),
        Ok(b) => Ok(seq![tag] + b),
    }
}

/// The concatenated tagged forms of array elements from index `i` on.
pub open spec fn enc_items(items: Seq<ValueV>, abi: Abi, i: int) -> Result<Seq<u8>, Error>
    decreases items, items.len() - i, 3int,
{
    if i < 0 || i >= items.len() {
        Ok(Seq::empty())
    } else {
        match enc_value(items[i], abi) {
            Err(e) => Err(e),
            Ok(b1) => match enc_items(items, abi, i + 1) {
                Err(e) => Err(e),
                Ok(b2) => Ok(b1 + b2),
            },
        }
    }
}

/// The concatenated tagged forms of map pairs from index `i` on, key before
/// value.
pub open spec fn enc_dict_pairs(pairs: Seq<(ValueV, ValueV)>, abi: Abi, i: int) -> Result<
    Seq<u8>,
    Error,
>
    decreases pairs, pairs.len() - i, 3int,
{
    if i < 0 || i >= pairs.len() {
        Ok(Seq::empty())
    } else {
        match enc_value(pairs[i].0, abi) {
            Err(e) => Err(e),
            Ok(bk) => match enc_value(pairs[i].1, abi) {
                Err(e) => Err(e),
                Ok(bv) => match enc_dict_pairs(pairs, abi, i + 1) {
                    Err(e) => Err(e),
                    Ok(b2) => Ok(bk + bv + b2),
                },
            },
        }
    }
}

// ---------------------------------------------------------------------------
// Decoder
// ---------------------------------------------------------------------------
/// Decodes one tagged value at position `p`: one tag byte, then its body.
pub open spec fn dec_value(b: Seq<u8>, p: int, abi: Abi, fuel: nat) -> Result<
    (ValueV, int),
    Error,
>
    decreases fuel, 4int, 0int,
{
    match dec_u8(b, p) {
        None => Err(Error::Truncated),
        Some((tag, q)) => dec_value_tag(tag, b, q, abi, fuel),
    }
}

/// Decodes the body of a value whose tag byte is already in hand.
pub open spec fn dec_value_tag(tag: u8, b: Seq<u8>, p: int, abi: Abi, fuel: nat) -> Result<
    (ValueV, int),
    Error,
>
    decreases fuel, 3int, 0int,
{
    if tag == NULL {
        Ok((ValueV::Null, p))
    } else if tag == INT {
        match dec_vi64(b, p) {
            None => Err(Error::Truncated),
            Some((n, q)) => Ok((ValueV::Int(n as i64), q)),
        }
    } else if tag == FLOAT {
        match dec_le(b, p, 8) {
            None => Err(Error::Truncated),
            Some((n, q)) => Ok((ValueV::Float(n as u64), q)),
        }
    } else if tag == BOOL {
        match dec_u8(b, p) {
            None => Err(Error::Truncated),
            Some((n, q)) => Ok((ValueV::Bool(n != 0), q)),
        }
    } else if tag == CHAR {
        match dec_u8(b, p) {
            None => Err(Error::Truncated),
            Some((n, q)) => {
                if n < 128 {
                    Ok((ValueV::Char(n as char), q))
                } else {
                    Err(Error::InvalidChar(n))
                }
            },
        }
    } else if tag == NODE {
        match dec_vu64(b, p) {
            None => Err(Error::Truncated),
            Some((n, q)) => Ok((ValueV::Node(n as u64), q)),
        }
    } else if tag == NODE_TIME {
        match dec_vu64(b, p) {
            None => Err(Error::Truncated),
            Some((n, q)) => Ok((ValueV::NodeTime(n as u64), q)),
        }
    } else if tag == NODE_INDEX {
        match dec_vu64(b, p) {
            None => Err(Error::Truncated),
            Some((n, q)) => Ok((ValueV::NodeIndex(n as u64), q)),
        }
    } else if tag == NODE_LIST {
        match dec_vu64(b, p) {
            None => Err(Error::Truncated),
            Some((n, q)) => Ok((ValueV::NodeList(n as u64), q)),
        }
    } else if tag == NODE_GEO {
        match dec_vu64(b, p) {
            None => Err(Error::Truncated),
            Some((n, q)) => Ok((ValueV::NodeGeo(n as u64), q)),
        }
    } else if tag == GEO {
        match dec_vu64(b, p) {
            None => Err(Error::Truncated),
            Some((n, q)) => Ok((ValueV::Geo(n as u64), q)),
        }
    } else if tag == TIME {
        match dec_vi64(b, p) {
            None => Err(Error::Truncated),
            Some((n, q)) => Ok((ValueV::Time(n as i64), q)),
        }
    } else if tag == DURATION {
        match dec_vi64(b, p) {
            None => Err(Error::Truncated),
            Some((n, q)) => Ok((ValueV::Duration(n as i64), q)),
        }
    } else if tag == STR_LIT {
        dec_symbol(b, p, abi)
    } else if tag == ENUM {
        dec_enum(b, p, abi)
    } else if tag == OBJECT {
        dec_object(b, p, abi, fuel)
    } else if tag == FN {
        Err(Error::UnsupportedFn)
    } else {
        Err(Error::UnknownTag(tag))
    }
}

/// Decodes a symbol reference: a varint-u32 whose high bits are the id.
pub open spec fn dec_symbol(b: Seq<u8>, p: int, abi: Abi) -> Result<(ValueV, int), Error> {
    match dec_vu32(b, p) {
        None => Err(Error::Truncated),
        Some((n, q)) => {
            let id = n / 2;
            if id < abi.symbols_v().len() {
                Ok((ValueV::Symbol(id as u32), q))
            } else {
                Err(Error::UnknownSymbol(id as u32))
            }
        },
    }
}

/// Decodes an enum: a varint-u32 type id, then the variant offset.
pub open spec fn dec_enum(b: Seq<u8>, p: int, abi: Abi) -> Result<(ValueV, int), Error> {
    match dec_vu32(b, p) {
        None => Err(Error::Truncated),
        Some((tid, q)) => {
            if tid >= abi.types_v().len() {
                Err(Error::UnknownTypeId(tid as u32))
            } else {
                dec_typed_enum(tid as u32, b, q, abi)
            }
        },
    }
}

/// Decodes the variant offset of an enum whose wire type is already known:
/// the offset indexes the wire type's attributes, and the decoded enum's
/// type is the wire type's mapped target.
pub open spec fn dec_typed_enum(tid: u32, b: Seq<u8>, p: int, abi: Abi) -> Result<
    (ValueV, int),
    Error,
> {
    if tid >= abi.types_v().len() {
        Err(Error::UnknownTypeId(tid))
    } else {
        let t = abi.types_v()[tid as int];
        if t.mapped_abi_type_offset >= abi.types_v().len() {
            Err(Error::UnknownTypeId(t.mapped_abi_type_offset))
        } else {
            match dec_vu32(b, p) {
                None => Err(Error::Truncated),
                Some((off, q)) => match t.attrs {
                    None => Err(Error::EnumWithoutAttrs(t.name)),
                    Some(ats) => {
                        if off >= ats.len() {
                            Err(Error::EnumOffsetOutOfRange(off as u32))
                        } else {
                            Ok(
                                (
                                    ValueV::Enum(
                                        t.mapped_abi_type_offset,
                                        ats[off as int].mapped_att_offset,
                                        ats[off as int].name,
                                    ),
                                    q,
                                ),
                            )
                        }
                    },
                },
            }
        }
    }
}

/// Decodes an object: a varint-u32 type id, then the body for that type.
pub open spec fn dec_object(b: Seq<u8>, p: int, abi: Abi, fuel: nat) -> Result<
    (ValueV, int),
    Error,
>
    decreases fuel, 2int, 0int,
{
    match dec_vu32(b, p) {
        None => Err(Error::Truncated),
        Some((tid, q)) => dec_typed_object(tid as u32, b, q, abi, fuel),
    }
}

/// Decodes a string body: one varint-u32 `n`; odd means the symbol with id
/// `n >> 1`, even means `n >> 1` UTF-8 bytes that follow.
pub open spec fn dec_string(b: Seq<u8>, p: int, abi: Abi) -> Result<(ValueV, int), Error> {
    match dec_vu32(b, p) {
        None => Err(Error::Truncated),
        Some((n, q)) => {
            if n % 2 == 1 {
                let id = n / 2;
                if id < abi.symbols_v().len() {
                    Ok((ValueV::Symbol(id as u32), q))
                } else {
                    Err(Error::UnknownSymbol(id as u32))
                }
            } else {
                let len = n / 2;
                if q + len > b.len() {
                    Err(Error::Truncated)
                } else {
                    let bytes = b.subrange(q, q + len);
                    if valid_utf8(bytes) {
                        Ok((ValueV::Str(decode_utf8(bytes)), q + len))
                    } else {
                        Err(Error::InvalidUtf8)
                    }
                }
            }
        },
    }
}

/// Decodes the body of an object whose type id is already known: the
/// `core` containers by identity, otherwise the attribute walk of the type.
pub open spec fn dec_typed_object(tid: u32, b: Seq<u8>, p: int, abi: Abi, fuel: nat) -> Result<
    (ValueV, int),
    Error,
>
    decreases fuel, 1int, 0int,
{
    if tid == abi.core_ids().string {
        dec_string(b, p, abi)
    } else if tid == abi.core_ids().array {
        match dec_vu32(b, p) {
            None => Err(Error::Truncated),
            Some((count, q)) => match dec_items(count, b, q, abi, fuel) {
                Err(e) => Err(e),
                Ok((items, r)) => Ok((ValueV::Array(items), r)),
            },
        }
    } else if tid == abi.core_ids().map {
        match dec_vu32(b, p) {
            None => Err(Error::Truncated),
            Some((count, q)) => match dec_dict_pairs(count, b, q, abi, fuel) {
                Err(e) => Err(e),
                Ok((pairs, r)) => Ok((ValueV::Dict(pairs), r)),
            },
        }
    } else if tid >= abi.types_v().len() {
        Err(Error::UnknownTypeId(tid))
    } else {
        let t = abi.types_v()[tid as int];
        if t.is_native {
            Err(Error::UnsupportedNative(t.name))
        } else if t.mapped_abi_type_offset >= abi.types_v().len() {
            Err(Error::UnknownTypeId(t.mapped_abi_type_offset))
        } else {
            let prog_tid = t.mapped_abi_type_offset;
            let prog = abi.types_v()[prog_tid as int];
            match t.attrs {
                None => Ok((ValueV::Obj(prog_tid, None), p)),
                Some(attrs) => {
                    let nslots = match prog.attrs {
                        Some(pa) => pa.len(),
                        None => 0,
                    };
                    if p < 0 || p + t.nullable_nb_bytes > b.len() {
                        Err(Error::Truncated)
                    } else {
                        let bits = b.subrange(p, p + t.nullable_nb_bytes);
                        let q = p + t.nullable_nb_bytes;
                        match dec_attrs(attrs, 0, 0, bits, null_values(nslots), b, q, abi, fuel) {
                            Err(e) => Err(e),
                            Ok((slots, r)) => Ok((ValueV::Obj(prog_tid, Some(slots)), r)),
                        }
                    }
                },
            }
        }
    }
}

/// Walks the attributes of a type from index `i`, keeping the running rank
/// among the nullable attributes, and fills the slot vector.
pub open spec fn dec_attrs(
    attrs: Seq<AbiAttr>,
    i: int,
    rank: int,
    bits: Seq<u8>,
    slots: Seq<ValueV>,
    b: Seq<u8>,
    p: int,
    abi: Abi,
    fuel: nat,
) -> Result<(Seq<ValueV>, int), Error>
    decreases fuel, 0int, attrs.len() - i,
{
    if i < 0 || i >= attrs.len() {
        Ok((slots, p))
    } else {
        let a = attrs[i];
        if a.nullable && (rank < 0 || rank / 8 >= bits.len()) {
            Err(Error::MalformedAbi)
        } else if a.nullable && !bit_of(bits, rank) {
            // The bit says null: nothing on the wire, the slot stays null.
            dec_attrs(attrs, i + 1, rank + 1, bits, slots, b, p, abi, fuel)
        } else {
            let rank2 = if a.nullable {
                rank + 1
            } else {
                rank
            };
            match dec_attr_value(a, b, p, abi, fuel) {
                Err(e) => Err(e),
                Ok((v, q)) => {
                    if a.mapped {
                        if a.mapped_att_offset >= slots.len() {
                            Err(Error::AttrSlotOutOfRange(a.name))
                        } else {
                            dec_attrs(
                                attrs,
                                i + 1,
                                rank2,
                                bits,
                                slots.update(a.mapped_att_offset as int, v),
                                b,
                                q,
                                abi,
                                fuel,
                            )
                        }
                    } else {
                        dec_attrs(attrs, i + 1, rank2, bits, slots, b, q, abi, fuel)
                    }
                },
            }
        }
    }
}

/// Decodes the value of one attribute, by its static type: a polymorphic
/// attribute carries its own tag byte; a static enum carries only a variant
/// offset; a static object carries only a body (prefixed with a concrete
/// type id when the declared type is abstract); anything else is the raw
/// form of the static tag.
pub open spec fn dec_attr_value(a: AbiAttr, b: Seq<u8>, p: int, abi: Abi, fuel: nat) -> Result<
    (ValueV, int),
    Error,
>
    decreases fuel, 0int, 0int,
{
    if fuel == 0 {
        Err(Error::NestingTooDeep)
    } else if a.sbi_type == UNDEFINED {
        match dec_u8(b, p) {
            None => Err(Error::Truncated),
            Some((m, q)) => dec_value_tag(m, b, q, abi, (fuel - 1) as nat),
        }
    } else if a.sbi_type == ENUM {
        if a.abi_type >= abi.types_v().len() {
            Err(Error::UnknownTypeId(a.abi_type))
        } else {
            let et = abi.types_v()[a.abi_type as int];
            if et.mapped_abi_type_offset >= abi.types_v().len() {
                Err(Error::UnknownTypeId(et.mapped_abi_type_offset))
            } else {
                match dec_vu32(b, p) {
                    None => Err(Error::Truncated),
                    Some((off, q)) => match et.attrs {
                        None => Err(Error::EnumWithoutAttrs(et.name)),
                        Some(eats) => {
                            if off >= eats.len() {
                                Err(Error::EnumOffsetOutOfRange(off as u32))
                            } else {
                                Ok(
                                    (
                                        ValueV::Enum(
                                            et.mapped_abi_type_offset,
                                            eats[off as int].mapped_att_offset,
                                            eats[off as int].name,
                                        ),
                                        q,
                                    ),
                                )
                            }
                        },
                    },
                }
            }
        }
    } else if a.sbi_type == OBJECT {
        if a.abi_type >= abi.types_v().len() {
            Err(Error::UnknownTypeId(a.abi_type))
        } else if abi.types_v()[a.abi_type as int].is_abstract {
            match dec_vu32(b, p) {
                None => Err(Error::Truncated),
                Some((ct, q)) => dec_typed_object(ct as u32, b, q, abi, (fuel - 1) as nat),
            }
        } else {
            dec_typed_object(a.abi_type, b, p, abi, (fuel - 1) as nat)
        }
    } else {
        dec_value_tag(a.sbi_type, b, p, abi, (fuel - 1) as nat)
    }
}

/// Decodes `count` tagged array elements.
pub open spec fn dec_items(count: int, b: Seq<u8>, p: int, abi: Abi, fuel: nat) -> Result<
    (Seq<ValueV>, int),
    Error,
>
    decreases fuel, 0int, count,
{
    if count <= 0 {
        Ok((Seq::empty(), p))
    } else if fuel == 0 {
        Err(Error::NestingTooDeep)
    } else {
        match dec_value(b, p, abi, (fuel - 1) as nat) {
            Err(e) => Err(e),
            Ok((v, q)) => match dec_items(count - 1, b, q, abi, fuel) {
                Err(e) => Err(e),
                Ok((rest, r)) => Ok((seq![v] + rest, r)),
            },
        }
    }
}

// ---------------------------------------------------------------------------
// Values built against an ABI
// ---------------------------------------------------------------------------
/// The three `core` container shortcuts name three distinct types.  String,
/// array and map framing is dispatched on these ids, so they must not
/// collide for a round trip.
pub open spec fn core_distinct(abi: Abi) -> bool {
    &&& abi.core_ids().string != abi.core_ids().array
    &&& abi.core_ids().string != abi.core_ids().map
    &&& abi.core_ids().array != abi.core_ids().map
}

/// A symbol id the ABI can encode: interned, and small enough for the
/// `(id << 1) | 1` framing.
pub open spec fn wf_symbol(id: u32, abi: Abi) -> bool {
    id < abi.symbols_v().len() && id < 0x8000_0000u32
}

/// A value built against the ABI: every reference resolves, every slot
/// matches its attribute's static type, and nothing collides with the
/// framing (a string that spells an interned symbol would come back as that
/// symbol, so it is not such a value).  Encoding a well-formed value
/// succeeds, and decoding the result gives the value back.
pub open spec fn wf_value(v: ValueV, abi: Abi) -> bool
    decreases v, 2int, 0int,
{
    match v {
        ValueV::Null => true,
        ValueV::Int(_) => true,
        ValueV::Float(_) => true,
        ValueV::Char(c) => (c as u32) < 128,
        ValueV::Bool(_) => true,
        ValueV::Array(items) => items.len() < 0x1_0000_0000 && wf_items(items, abi),
        ValueV::Dict(pairs) => pairs.len() < 0x1_0000_0000 && wf_dict_pairs(pairs, abi),
        ValueV::Symbol(id) => wf_symbol(id, abi),
        ValueV::Node(_) => true,
        ValueV::NodeTime(_) => true,
        ValueV::NodeIndex(_) => true,
        ValueV::NodeList(_) => true,
        ValueV::NodeGeo(_) => true,
        ValueV::Geo(_) => true,
        ValueV::Time(_) => true,
        ValueV::Duration(_) => true,
        ValueV::Str(s) => spec_symbol_id(abi, s) is None && encode_utf8(s).len() < 0x8000_0000,
        ValueV::Enum(tid, off, key) => wf_enum_of(tid, off, key, tid, abi),
        ValueV::Obj(tid, vals) => {
            &&& tid < abi.types_v().len()
            &&& abi.types_v()[tid as int].mapped_abi_type_offset == tid
            &&& !abi.types_v()[tid as int].is_native
            &&& tid != abi.core_ids().string
            &&& tid != abi.core_ids().array
            &&& tid != abi.core_ids().map
            &&& match (abi.types_v()[tid as int].attrs, vals) {
                (None, None) => true,
                (Some(ats), Some(vs)) => {
                    &&& vs.len() == ats.len()
                    &&& abi.types_v()[tid as int].nullable_nb_bytes < 0x1_0000_0000
                    &&& wf_obj_slots(ats, vs, abi, 0)
                },
                _ => false,
            }
        },
    }
}

/// An enum value carried by the wire type `wire_tid`: the variant offset
/// indexes the wire type's attributes, names that attribute, and maps back
/// to itself, and the value's own type is the wire type's program type.
pub open spec fn wf_enum_of(tid: u32, off: u32, key: u32, wire_tid: u32, abi: Abi) -> bool {
    &&& wire_tid < abi.types_v().len()
    &&& abi.types_v()[wire_tid as int].mapped_abi_type_offset == tid
    &&& match abi.types_v()[wire_tid as int].attrs {
        Some(ats) => {
            &&& off < ats.len()
            &&& ats[off as int].mapped_att_offset == off
            &&& ats[off as int].name == key
        },
        None => false,
    }
}

/// Every element of an array is well formed.
pub open spec fn wf_items(items: Seq<ValueV>, abi: Abi) -> bool
    decreases items, 1int, 0int,
{
    forall|i: int| 0 <= i < items.len() ==> wf_value(#[trigger] items[i], abi)
}

/// Every key and value of a map is well formed.
pub open spec fn wf_dict_pairs(pairs: Seq<(ValueV, ValueV)>, abi: Abi) -> bool
    decreases pairs, 1int, 0int,
{
    forall|i: int|
        0 <= i < pairs.len() ==> wf_value(#[trigger] pairs[i].0, abi) && wf_value(pairs[i].1, abi)
}

/// The slots of an object, from index `i` on: every attribute stores into
/// its own index, and every slot matches its attribute.
pub open spec fn wf_obj_slots(ats: Seq<AbiAttr>, vs: Seq<ValueV>, abi: Abi, i: int) -> bool
    decreases vs, 1int, ats.len() - i,
{
    i >= ats.len() || i >= vs.len() || i < 0 || {
        &&& ats[i].mapped
        &&& ats[i].mapped_att_offset == i
        &&& wf_attr_value(ats[i], vs[i], abi)
        &&& wf_obj_slots(ats, vs, abi, i + 1)
    }
}

/// A slot value that matches its attribute's static type, so that the bytes
/// the serializer emits for it are exactly what the deserializer expects.
pub open spec fn wf_attr_value(a: AbiAttr, v: ValueV, abi: Abi) -> bool
    decreases v, 2int, 1int,
{
    if a.nullable && v is Null {
        true
    } else if a.sbi_type == BOOL {
        v is Bool
    } else if a.sbi_type == CHAR {
        v matches ValueV::Char(c) && (c as u32) < 128
    } else if a.sbi_type == INT {
        v is Int
    } else if a.sbi_type == FLOAT {
        v is Float
    } else if a.sbi_type == NULL {
        v is Null
    } else if a.sbi_type == UNDEFINED {
        wf_value(v, abi)
    } else if a.sbi_type == STR_LIT {
        v matches ValueV::Symbol(id) && wf_symbol(id, abi)
    } else if a.sbi_type == ENUM {
        v matches ValueV::Enum(tid, off, key) && a.abi_type < abi.types_v().len() && wf_enum_of(
            tid,
            off,
            key,
            a.abi_type,
            abi,
        )
    } else if a.sbi_type == OBJECT {
        a.abi_type < abi.types_v().len() && {
            let at = abi.types_v()[a.abi_type as int];
            if at.is_abstract {
                v is Obj && wf_value(v, abi)
            } else if a.abi_type == abi.core_ids().string {
                (v is Str || v is Symbol) && wf_value(v, abi)
            } else if a.abi_type == abi.core_ids().array {
                v is Array && wf_value(v, abi)
            } else if a.abi_type == abi.core_ids().map {
                v is Dict && wf_value(v, abi)
            } else {
                v matches ValueV::Obj(otid, _) && otid == a.abi_type && wf_value(v, abi)
            }
        }
    } else if a.sbi_type == NODE {
        v is Node
    } else if a.sbi_type == NODE_TIME {
        v is NodeTime
    } else if a.sbi_type == NODE_INDEX {
        v is NodeIndex
    } else if a.sbi_type == NODE_LIST {
        v is NodeList
    } else if a.sbi_type == NODE_GEO {
        v is NodeGeo
    } else if a.sbi_type == GEO {
        v is Geo
    } else if a.sbi_type == TIME {
        v is Time
    } else if a.sbi_type == DURATION {
        v is Duration
    } else {
        false
    }
}

/// Decodes `count` tagged key/value pairs.
pub open spec fn dec_dict_pairs(count: int, b: Seq<u8>, p: int, abi: Abi, fuel: nat) -> Result<
    (Seq<(ValueV, ValueV)>, int),
    Error,
>
    decreases fuel, 0int, count,
{
    if count <= 0 {
        Ok((Seq::empty(), p))
    } else if fuel == 0 {
        Err(Error::NestingTooDeep)
    } else {
        match dec_value(b, p, abi, (fuel - 1) as nat) {
            Err(e) => Err(e),
            Ok((k, q)) => match dec_value(b, q, abi, (fuel - 1) as nat) {
                Err(e) => Err(e),
                Ok((v, r)) => match dec_dict_pairs(count - 1, b, r, abi, fuel) {
                    Err(e) => Err(e),
                    Ok((rest, s)) => Ok((seq![(k, v)] + rest, s)),
                },
            },
        }
    }
}

} // verus!
