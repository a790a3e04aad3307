//! The executable serializer: every tagged variant writes its tag byte and
//! body (`write_to`), or only its body (`write_raw_to`), into a byte sink.
//!
//! Each function is specified against the wire format of [`crate::wire`]:
//! on success the sink grows by exactly the bytes [`enc_value`] (or the
//! matching spec function) prescribes and the returned count is their
//! number; on failure the error is exactly the one the wire format
//! prescribes, and the sink may hold a partial prefix.

use vstd::prelude::*;

use crate::abi::{Abi, AbiAttr, AbiHeaders, AbiSymbol, RequestHeaders};
use crate::core_types::{Duration, Float, Geo, Node, NodeGeo, NodeIndex, NodeList, NodeTime, Time};
use crate::error::Error;
use crate::primitive::{
    BOOL, CHAR, DURATION, ENUM, FLOAT, GEO, INT, NODE, NODE_GEO, NODE_INDEX, NODE_LIST, NODE_TIME,
    NULL, OBJECT, STR_LIT, TIME, UNDEFINED,
};
use crate::reader::{enc_le, pow256};
use crate::value::{view_pairs, view_values, GcEnum, GcObject, Value};
use crate::varint::{enc_vu32, VarintWrite};
use vstd::string::{StrSliceExecFns, StringExecFns};
use crate::wire::{
    enc_attr, enc_attrs, enc_attrs_prefix, enc_bitset, enc_dict_pairs, enc_items,
    enc_obj_err_prefix, enc_obj_raw, enc_plain_string, enc_symbol, enc_value, enc_value_raw,
    set_bit, spec_symbol_id, sym_lookup, zero_bytes,
};

verus! {

/// The wire form of the request headers: protocol, magic and version, all
/// little-endian.
pub open spec fn enc_request_headers(h: RequestHeaders) -> Seq<u8> {
    enc_le(h.protocol as nat, 2) + enc_le(h.magic as nat, 2) + enc_le(h.version as nat, 4)
}

/// The wire form of the ABI headers: the request headers, then the CRC.
pub open spec fn enc_abi_headers(h: AbiHeaders) -> Seq<u8> {
    enc_request_headers(h.headers) + enc_le(h.crc as nat, 8)
}

/// Writes an `n`-byte little-endian integer.
pub fn write_le(w: &mut Vec<u8>, v: u64, n: usize) -> (r: usize)
    requires
        (v as nat) < pow256(n as nat),
    ensures
        final(w)@ == old(w)@ + enc_le(v as nat, n as nat),
        r == n,
    decreases n,
{
    if n == 0 {
        assert(w@ =~= old(w)@ + enc_le(v as nat, 0));
        0
    } else {
        w.push((v % 256) as u8);
        let m = write_le(w, v / 256, n - 1);
        assert(w@ =~= old(w)@ + enc_le(v as nat, n as nat));
        n
    }
}

/// The id of the symbol spelling `s`, or nothing: the probe deciding
/// between the symbol and the plain-string wire form.
pub fn symbol_lookup(abi: &Abi, s: &str) -> (r: Option<u32>)
    ensures
        r == spec_symbol_id(*abi, s@),
{
    let needle = String::from_str(s);
    let n = abi.symbols.symbols.len();
    let mut i: usize = 0;
    proof {
        crate::abi::lemma_view_strings_index(abi.symbols.symbols@);
    }
    while i < n
        invariant
            n == abi.symbols.symbols@.len(),
            i <= n,
            needle@ == s@,
            abi.symbols_v().len() == n,
            forall|j: int| 0 <= j < n ==> abi.symbols_v()[j] == #[trigger] abi.symbols.symbols@[j]@,
            sym_lookup(abi.symbols_v(), s@, 0) == sym_lookup(abi.symbols_v(), s@, i as int),
        decreases n - i,
    {
        if abi.symbols.symbols[i] == needle {
            return Some(i as u32);
        }
        i = i + 1;
    }
    None
}

impl RequestHeaders {
    /// Writes the request headers, without any preceding form.
    pub fn write_raw_to(&self, w: &mut Vec<u8>) -> (r: usize)
        ensures
            final(w)@ == old(w)@ + enc_request_headers(*self),
            r == enc_request_headers(*self).len(),
    {
        proof {
            crate::reader::lemma_pow256_le(2, 8);
            crate::reader::lemma_pow256_le(4, 8);
            assert(pow256(2) == 0x10000 && pow256(4) == 0x100000000 && pow256(8)
                == 0x10000000000000000) by {
                reveal_with_fuel(pow256, 9);
            }
            crate::reader::lemma_enc_le_len(self.protocol as nat, 2);
            crate::reader::lemma_enc_le_len(self.magic as nat, 2);
            crate::reader::lemma_enc_le_len(self.version as nat, 4);
        }
        let n1 = write_le(w, self.protocol as u64, 2);
        let n2 = write_le(w, self.magic as u64, 2);
        let n3 = write_le(w, self.version as u64, 4);
        assert(w@ =~= old(w)@ + enc_request_headers(*self));
        n1 + n2 + n3
    }
}

impl AbiHeaders {
    /// Writes the ABI headers: the request headers, then the CRC.
    pub fn write_raw_to(&self, w: &mut Vec<u8>) -> (r: usize)
        ensures
            final(w)@ == old(w)@ + enc_abi_headers(*self),
            r == enc_abi_headers(*self).len(),
    {
        proof {
            assert(pow256(8) == 0x10000000000000000) by {
                reveal_with_fuel(pow256, 9);
            }
            crate::reader::lemma_enc_le_len(self.crc as nat, 8);
            crate::reader::lemma_enc_le_len(self.headers.protocol as nat, 2);
            crate::reader::lemma_enc_le_len(self.headers.magic as nat, 2);
            crate::reader::lemma_enc_le_len(self.headers.version as nat, 4);
        }
        let n1 = self.headers.write_raw_to(w);
        let n2 = write_le(w, self.crc, 8);
        assert(w@ =~= old(w)@ + enc_abi_headers(*self));
        n1 + n2
    }
}

impl AbiSymbol {
    /// Writes the symbol reference with its tag byte.
    pub fn write_to(&self, w: &mut Vec<u8>, abi: &Abi) -> (r: Result<usize, Error>)
        ensures
            match enc_symbol(self.0, *abi) {
                Ok(bytes) => {
                    &&& r == Ok::<usize, Error>((bytes.len() + 1) as usize)
                    &&& final(w)@ == old(w)@ + seq![STR_LIT] + bytes
                },
                Err(e) => r == Err::<usize, Error>(e) && final(w)@ == old(w)@,
            },
    {
        proof {
            crate::abi::lemma_view_strings_index(abi.symbols.symbols@);
        }
        if (self.0 as usize) >= abi.symbols.symbols.len() {
            return Err(Error::UnknownSymbol(self.0));
        }
        if self.0 >= 0x8000_0000u32 {
            return Err(Error::OversizeLength);
        }
        w.push(STR_LIT);
        match self.write_raw_to(w, abi) {
            Ok(n) => {
                proof {
                    crate::varint::lemma_enc_vu32_len((2 * self.0 + 1) as u32);
                }
                assert(w@ =~= old(w)@ + seq![STR_LIT] + enc_symbol(self.0, *abi)->Ok_0);
                Ok(n + 1)
            },
            Err(e) => Err(e),
        }
    }

    /// Writes the symbol reference: a varint-u32 of `(id << 1) | 1`.
    /// Writing a symbol the ABI does not intern is an error.
    pub fn write_raw_to(&self, w: &mut Vec<u8>, abi: &Abi) -> (r: Result<usize, Error>)
        ensures
            match enc_symbol(self.0, *abi) {
                Ok(bytes) => {
                    &&& r == Ok::<usize, Error>(bytes.len() as usize)
                    &&& final(w)@ == old(w)@ + bytes
                },
                Err(e) => r == Err::<usize, Error>(e) && final(w)@ == old(w)@,
            },
    {
        proof {
            crate::abi::lemma_view_strings_index(abi.symbols.symbols@);
        }
        if (self.0 as usize) >= abi.symbols.symbols.len() {
            Err(Error::UnknownSymbol(self.0))
        } else if self.0 >= 0x8000_0000u32 {
            Err(Error::OversizeLength)
        } else {
            Ok(w.write_vu32(2 * self.0 + 1))
        }
    }
}

/// Writes the plain-string body: a varint-u32 of `len << 1`, then the UTF-8
/// bytes.
fn write_plain_string(s: &str, w: &mut Vec<u8>) -> (r: Result<usize, Error>)
    ensures
        match enc_plain_string(s@) {
            Ok(bytes) => {
                &&& r == Ok::<usize, Error>(bytes.len() as usize)
                &&& final(w)@ == old(w)@ + bytes
            },
            Err(e) => r == Err::<usize, Error>(e) && final(w)@ == old(w)@,
        },
{
    let mut bytes = s.as_bytes_vec();
    if bytes.len() >= 0x8000_0000usize {
        return Err(Error::OversizeLength);
    }
    proof {
        crate::varint::lemma_enc_vu32_len((2 * bytes@.len()) as u32);
    }
    let n1 = w.write_vu32(2 * (bytes.len() as u32));
    let n2 = bytes.len();
    w.append(&mut bytes);
    assert(w@ =~= old(w)@ + enc_plain_string(s@)->Ok_0);
    Ok(n1 + n2)
}

/// Writes the raw form of a string value: a symbol reference when the
/// string matches an interned symbol, the plain form otherwise.
fn write_string_probe(s: &str, w: &mut Vec<u8>, abi: &Abi) -> (r: Result<usize, Error>)
    ensures
        match crate::wire::enc_string_probe(s@, *abi) {
            Ok(bytes) => {
                &&& r == Ok::<usize, Error>(bytes.len() as usize)
                &&& final(w)@ == old(w)@ + bytes
            },
            Err(e) => r == Err::<usize, Error>(e) && final(w)@ == old(w)@,
        },
{
    match symbol_lookup(abi, s) {
        Some(id) => AbiSymbol(id).write_raw_to(w, abi),
        None => write_plain_string(s, w),
    }
}

impl GcEnum {
    /// Writes the enum with its tag: the tag byte, the mapped type id, then
    /// the variant offset.
    pub fn write_to(&self, w: &mut Vec<u8>, abi: &Abi) -> (r: Result<usize, Error>)
        ensures
            match enc_value(self.view(), *abi) {
                Ok(bytes) => {
                    &&& r == Ok::<usize, Error>(bytes.len() as usize)
                    &&& final(w)@ == old(w)@ + bytes
                },
                Err(e) => r == Err::<usize, Error>(e) && final(w)@ == old(w)@,
            },
    {
        proof {
            crate::abi::lemma_view_types_index(abi.types.types@);
            if (self.ty as int) < abi.types.types@.len() {
                assert(abi.types_v()[self.ty as int] == abi.types.types@[self.ty as int]@);
            }
        }
        if (self.ty as usize) >= abi.types.types.len() {
            return Err(Error::UnknownTypeId(self.ty));
        }
        let n1: usize = 1;
        w.push(ENUM);
        let n2 = w.write_vu32(abi.types.types[self.ty as usize].mapped_abi_type_offset);
        let n3 = w.write_vu32(self.offset);
        proof {
            crate::varint::lemma_enc_vu32_len(
                abi.types.types@[self.ty as int].mapped_abi_type_offset,
            );
            crate::varint::lemma_enc_vu32_len(self.offset);
            assert(enc_value_raw(self.view(), *abi) == Ok::<Seq<u8>, Error>(
                enc_vu32(self.offset),
            ));
            assert(enc_value(self.view(), *abi) == Ok::<Seq<u8>, Error>(
                seq![ENUM] + enc_vu32(abi.types_v()[self.ty as int].mapped_abi_type_offset)
                    + enc_vu32(self.offset),
            ));
            assert(abi.types_v()[self.ty as int] == abi.types.types@[self.ty as int]@);
            assert(w@ =~= old(w)@ + enc_value(self.view(), *abi)->Ok_0);
        }
        Ok(n1 + n2 + n3)
    }

    /// Writes the enum body alone: just the variant offset.
    pub fn write_raw_to(&self, w: &mut Vec<u8>, abi: &Abi) -> (r: Result<usize, Error>)
        ensures
            match enc_value_raw(self.view(), *abi) {
                Ok(bytes) => {
                    &&& r == Ok::<usize, Error>(bytes.len() as usize)
                    &&& final(w)@ == old(w)@ + bytes
                },
                Err(e) => r == Err::<usize, Error>(e) && final(w)@ == old(w)@,
            },
    {
        let _ = abi;
        Ok(w.write_vu32(self.offset))
    }
}

impl Value {
    /// Writes the value with its tag byte (and, for object-shaped values,
    /// its type id).
    pub fn write_to(&self, w: &mut Vec<u8>, abi: &Abi) -> (r: Result<usize, Error>)
        ensures
            match enc_value(self@, *abi) {
                Ok(bytes) => {
                    &&& r == Ok::<usize, Error>(bytes.len() as usize)
                    &&& final(w)@ == old(w)@ + bytes
                },
                Err(e) => {
                    &&& r == Err::<usize, Error>(e)
                    &&& !(self is Array || self is Dict || self is Obj || self is String)
                        ==> final(w)@ == old(w)@
                    &&& self matches Value::Obj(o) ==> if o.ty as int >= abi.types_v().len() {
                        final(w)@ == old(w)@
                    } else {
                        final(w)@ == old(w)@ + seq![OBJECT] + enc_vu32(
                            abi.types_v()[o.ty as int].mapped_abi_type_offset,
                        ) + enc_obj_err_prefix(
                            o.ty,
                            match o.values {
                                Some(vals) => Some(view_values(vals@)),
                                None => None,
                            },
                            *abi,
                        )
                    }
                },
            },
        decreases self, 0nat, 2nat,
    {
        let start = w.len();
        match self {
            Value::Null => {
                w.push(NULL);
                assert(w@ =~= old(w)@ + seq![NULL]);
                Ok(1)
            },
            Value::Enum(e) => e.write_to(w, abi),
            Value::Obj(o) => o.write_to(w, abi),
            Value::Array(_) => {
                w.push(OBJECT);
                let _ = w.write_vu32(abi.types.core.array);
                match self.write_raw_to(w, abi) {
                    Ok(_) => {
                        proof {
                            assert(w@ =~= old(w)@ + enc_value(self@, *abi)->Ok_0);
                        }
                        Ok(w.len() - start)
                    },
                    Err(e) => Err(e),
                }
            },
            Value::Dict(_) => {
                w.push(OBJECT);
                let _ = w.write_vu32(abi.types.core.map);
                match self.write_raw_to(w, abi) {
                    Ok(_) => {
                        proof {
                            assert(w@ =~= old(w)@ + enc_value(self@, *abi)->Ok_0);
                        }
                        Ok(w.len() - start)
                    },
                    Err(e) => Err(e),
                }
            },
            Value::String(s) => {
                match symbol_lookup(abi, s.as_str()) {
                    Some(id) => {
                        proof {
                            crate::abi::lemma_view_strings_index(abi.symbols.symbols@);
                            crate::laws::lemma_sym_lookup_in_range(abi.symbols_v(), s@, 0);
                        }
                        if id >= 0x8000_0000u32 {
                            return Err(Error::OversizeLength);
                        }
                        w.push(STR_LIT);
                        match AbiSymbol(id).write_raw_to(w, abi) {
                            Ok(_) => {
                                proof {
                                    assert(w@ =~= old(w)@ + enc_value(self@, *abi)->Ok_0);
                                }
                                Ok(w.len() - start)
                            },
                            Err(e) => Err(e),
                        }
                    },
                    None => {
                        let mut bytes = s.as_str().as_bytes_vec();
                        if bytes.len() >= 0x8000_0000usize {
                            return Err(Error::OversizeLength);
                        }
                        w.push(OBJECT);
                        let _ = w.write_vu32(abi.types.core.string);
                        let _ = w.write_vu32(2 * (bytes.len() as u32));
                        w.append(&mut bytes);
                        proof {
                            assert(w@ =~= old(w)@ + enc_value(self@, *abi)->Ok_0);
                        }
                        Ok(w.len() - start)
                    },
                }
            },
            Value::Symbol(s) => {
                let r = s.write_to(w, abi);
                proof {
                    if enc_symbol(s.0, *abi) is Ok {
                        assert(seq![STR_LIT] + enc_symbol(s.0, *abi)->Ok_0 =~= enc_value(
                            self@,
                            *abi,
                        )->Ok_0);
                    }
                }
                r
            },
            Value::Int(_) => self.write_tagged_primitive(INT, w, abi, start),
            Value::Float(_) => self.write_tagged_primitive(FLOAT, w, abi, start),
            Value::Char(c) => {
                if (*c as u32) >= 128 {
                    return Err(Error::NotAscii(*c));
                }
                self.write_tagged_primitive(CHAR, w, abi, start)
            },
            Value::Bool(_) => self.write_tagged_primitive(BOOL, w, abi, start),
            Value::Node(_) => self.write_tagged_primitive(NODE, w, abi, start),
            Value::NodeTime(_) => self.write_tagged_primitive(NODE_TIME, w, abi, start),
            Value::NodeIndex(_) => self.write_tagged_primitive(NODE_INDEX, w, abi, start),
            Value::NodeList(_) => self.write_tagged_primitive(NODE_LIST, w, abi, start),
            Value::NodeGeo(_) => self.write_tagged_primitive(NODE_GEO, w, abi, start),
            Value::Geo(_) => self.write_tagged_primitive(GEO, w, abi, start),
            Value::Time(_) => self.write_tagged_primitive(TIME, w, abi, start),
            Value::Duration(_) => self.write_tagged_primitive(DURATION, w, abi, start),
        }
    }

    /// Writes a tag byte and then the raw body; shared by the primitive
    /// variants, whose tagged form is exactly that.
    fn write_tagged_primitive(&self, tag: u8, w: &mut Vec<u8>, abi: &Abi, start: usize) -> (r:
        Result<usize, Error>)
        requires
            start == old(w)@.len(),
            enc_value(self@, *abi) == crate::wire::prepend_tag(tag, enc_value_raw(self@, *abi)),
        ensures
            match enc_value(self@, *abi) {
                Ok(bytes) => {
                    &&& r == Ok::<usize, Error>(bytes.len() as usize)
                    &&& final(w)@ == old(w)@ + bytes
                },
                Err(e) => r == Err::<usize, Error>(e),
            },
        decreases self, 0nat, 1nat,
    {
        w.push(tag);
        match self.write_raw_to(w, abi) {
            Ok(_) => {
                proof {
                    assert(w@ =~= old(w)@ + enc_value(self@, *abi)->Ok_0);
                }
                Ok(w.len() - start)
            },
            Err(e) => Err(e),
        }
    }

    /// Writes the value's body without its tag.
    pub fn write_raw_to(&self, w: &mut Vec<u8>, abi: &Abi) -> (r: Result<usize, Error>)
        ensures
            match enc_value_raw(self@, *abi) {
                Ok(bytes) => {
                    &&& r == Ok::<usize, Error>(bytes.len() as usize)
                    &&& final(w)@ == old(w)@ + bytes
                },
                Err(e) => {
                    &&& r == Err::<usize, Error>(e)
                    &&& !(self is Array || self is Dict || self is Obj) ==> final(w)@ == old(w)@
                    &&& self matches Value::Obj(o) ==> final(w)@ == old(w)@ + enc_obj_err_prefix(
                        o.ty,
                        match o.values {
                            Some(vals) => Some(view_values(vals@)),
                            None => None,
                        },
                        *abi,
                    )
                },
            },
        decreases self, 0nat, 0nat,
    {
        match self {
            Value::Null => {
                assert(enc_value_raw(self@, *abi) == Ok::<Seq<u8>, Error>(Seq::empty()));
                assert(w@ =~= old(w)@ + enc_value_raw(self@, *abi)->Ok_0);
                Ok(0)
            },
            Value::Int(v) => Ok(w.write_vi64(*v)),
            Value::Float(f) => {
                proof {
                    assert(pow256(8) == 0x10000000000000000) by {
                        reveal_with_fuel(pow256, 9);
                    }
                    crate::reader::lemma_enc_le_len(f.0 as nat, 8);
                }
                Ok(write_le(w, f.0, 8))
            },
            Value::Char(c) => {
                let code = *c as u32;
                if code < 128 {
                    w.push(code as u8);
                    assert(w@ =~= old(w)@ + enc_value_raw(self@, *abi)->Ok_0);
                    Ok(1)
                } else {
                    Err(Error::NotAscii(*c))
                }
            },
            Value::Bool(x) => {
                w.push(if *x {
                    1
                } else {
                    0
                });
                assert(w@ =~= old(w)@ + enc_value_raw(self@, *abi)->Ok_0);
                Ok(1)
            },
            Value::Array(vs) => {
                proof {
                    crate::value::lemma_view_values_index(vs@);
                }
                if (vs.len() as u64) >= 0x1_0000_0000u64 {
                    return Err(Error::OversizeLength);
                }
                let start = w.len();
                let _ = w.write_vu32(vs.len() as u32);
                match write_items(vs, w, abi, 0) {
                    Ok(_) => {
                        proof {
                            assert(w@ =~= old(w)@ + enc_value_raw(self@, *abi)->Ok_0);
                        }
                        Ok(w.len() - start)
                    },
                    Err(e) => Err(e),
                }
            },
            Value::Dict(ps) => {
                proof {
                    crate::value::lemma_view_pairs_index(ps@);
                }
                if (ps.len() as u64) >= 0x1_0000_0000u64 {
                    return Err(Error::OversizeLength);
                }
                let start = w.len();
                let _ = w.write_vu32(ps.len() as u32);
                match write_dict_pairs(ps, w, abi, 0) {
                    Ok(_) => {
                        proof {
                            assert(w@ =~= old(w)@ + enc_value_raw(self@, *abi)->Ok_0);
                        }
                        Ok(w.len() - start)
                    },
                    Err(e) => Err(e),
                }
            },
            Value::Symbol(s) => s.write_raw_to(w, abi),
            Value::Node(n) => Ok(w.write_vu64(n.0)),
            Value::NodeTime(n) => Ok(w.write_vu64(n.0)),
            Value::NodeIndex(n) => Ok(w.write_vu64(n.0)),
            Value::NodeList(n) => Ok(w.write_vu64(n.0)),
            Value::NodeGeo(n) => Ok(w.write_vu64(n.0)),
            Value::Geo(g) => Ok(w.write_vu64(g.0)),
            Value::Time(t) => Ok(w.write_vi64(t.0)),
            Value::Duration(d) => Ok(w.write_vi64(d.0)),
            Value::String(s) => write_string_probe(s.as_str(), w, abi),
            Value::Enum(e) => e.write_raw_to(w, abi),
            Value::Obj(o) => o.write_raw_to(w, abi),
        }
    }
}

/// Writes the tagged forms of the array elements from index `i` on.
fn write_items(vs: &Vec<Value>, w: &mut Vec<u8>, abi: &Abi, i: usize) -> (r: Result<usize, Error>)
    requires
        i <= vs@.len(),
    ensures
        match enc_items(view_values(vs@), *abi, i as int) {
            Ok(bytes) => {
                &&& r == Ok::<usize, Error>(bytes.len() as usize)
                &&& final(w)@ == old(w)@ + bytes
            },
            Err(e) => r == Err::<usize, Error>(e),
        },
    decreases vs, vs@.len() - i, 3nat,
{
    proof {
        crate::value::lemma_view_values_index(vs@);
    }
    if i == vs.len() {
        assert(w@ =~= old(w)@ + enc_items(view_values(vs@), *abi, i as int)->Ok_0);
        Ok(0)
    } else {
        let start = w.len();
        match vs[i].write_to(w, abi) {
            Err(e) => Err(e),
            Ok(_) => {
                match write_items(vs, w, abi, i + 1) {
                    Err(e) => Err(e),
                    Ok(_) => {
                        proof {
                            assert(w@ =~= old(w)@ + enc_items(
                                view_values(vs@),
                                *abi,
                                i as int,
                            )->Ok_0);
                        }
                        Ok(w.len() - start)
                    },
                }
            },
        }
    }
}

/// Writes the tagged forms of the map pairs from index `i` on, key before
/// value.
fn write_dict_pairs(ps: &Vec<(Value, Value)>, w: &mut Vec<u8>, abi: &Abi, i: usize) -> (r: Result<
    usize,
    Error,
>)
    requires
        i <= ps@.len(),
    ensures
        match enc_dict_pairs(view_pairs(ps@), *abi, i as int) {
            Ok(bytes) => {
                &&& r == Ok::<usize, Error>(bytes.len() as usize)
                &&& final(w)@ == old(w)@ + bytes
            },
            Err(e) => r == Err::<usize, Error>(e),
        },
    decreases ps, ps@.len() - i, 3nat,
{
    proof {
        crate::value::lemma_view_pairs_index(ps@);
    }
    if i == ps.len() {
        assert(w@ =~= old(w)@ + enc_dict_pairs(view_pairs(ps@), *abi, i as int)->Ok_0);
        Ok(0)
    } else {
        let start = w.len();
        match ps[i].0.write_to(w, abi) {
            Err(e) => Err(e),
            Ok(_) => {
                match ps[i].1.write_to(w, abi) {
                    Err(e) => Err(e),
                    Ok(_) => {
                        match write_dict_pairs(ps, w, abi, i + 1) {
                            Err(e) => Err(e),
                            Ok(_) => {
                                proof {
                                    assert(w@ =~= old(w)@ + enc_dict_pairs(
                                        view_pairs(ps@),
                                        *abi,
                                        i as int,
                                    )->Ok_0);
                                }
                                Ok(w.len() - start)
                            },
                        }
                    },
                }
            },
        }
    }
}

impl GcObject {
    /// Writes the object with its tag: the tag byte, the mapped type id,
    /// then the body.  On failure the sink holds nothing when the type id
    /// was unknown, and otherwise the tag, the mapped id and the body's
    /// error prefix.
    pub fn write_to(&self, w: &mut Vec<u8>, abi: &Abi) -> (r: Result<usize, Error>)
        ensures
            match enc_value(self.view(), *abi) {
                Ok(bytes) => {
                    &&& r == Ok::<usize, Error>(bytes.len() as usize)
                    &&& final(w)@ == old(w)@ + bytes
                },
                Err(e) => {
                    &&& r == Err::<usize, Error>(e)
                    &&& if self.ty as int >= abi.types_v().len() {
                        final(w)@ == old(w)@
                    } else {
                        final(w)@ == old(w)@ + seq![OBJECT] + enc_vu32(
                            abi.types_v()[self.ty as int].mapped_abi_type_offset,
                        ) + enc_obj_err_prefix(
                            self.ty,
                            match self.values {
                                Some(vals) => Some(view_values(vals@)),
                                None => None,
                            },
                            *abi,
                        )
                    }
                },
            },
        decreases self, 0nat, 2nat,
    {
        proof {
            crate::abi::lemma_view_types_index(abi.types.types@);
            if (self.ty as int) < abi.types.types@.len() {
                assert(abi.types_v()[self.ty as int] == abi.types.types@[self.ty as int]@);
            }
        }
        if (self.ty as usize) >= abi.types.types.len() {
            return Err(Error::UnknownTypeId(self.ty));
        }
        let start = w.len();
        w.push(OBJECT);
        let _ = w.write_vu32(abi.types.types[self.ty as usize].mapped_abi_type_offset);
        match self.write_raw_to(w, abi) {
            Ok(_) => {
                proof {
                    assert(w@ =~= old(w)@ + enc_value(self.view(), *abi)->Ok_0);
                }
                Ok(w.len() - start)
            },
            Err(e) => {
                proof {
                    assert(w@ =~= old(w)@ + seq![OBJECT] + enc_vu32(
                        abi.types_v()[self.ty as int].mapped_abi_type_offset,
                    ) + enc_obj_err_prefix(
                        self.ty,
                        match &self.values {
                            Some(vals) => Some(view_values(vals@)),
                            None => None,
                        },
                        *abi,
                    ));
                }
                Err(e)
            },
        }
    }

    /// Writes the object body: the nullable bitset (when the type declares
    /// one), then the attribute bodies in attribute order.  On failure the
    /// sink holds exactly the bitset and the bodies of the attributes
    /// before the failing one, and nothing at all when the type reference,
    /// the shapes or the bitset were at fault.
    pub fn write_raw_to(&self, w: &mut Vec<u8>, abi: &Abi) -> (r: Result<usize, Error>)
        ensures
            match enc_value_raw(self.view(), *abi) {
                Ok(bytes) => {
                    &&& r == Ok::<usize, Error>(bytes.len() as usize)
                    &&& final(w)@ == old(w)@ + bytes
                },
                Err(e) => {
                    &&& r == Err::<usize, Error>(e)
                    &&& final(w)@ == old(w)@ + enc_obj_err_prefix(
                        self.ty,
                        match self.values {
                            Some(vals) => Some(view_values(vals@)),
                            None => None,
                        },
                        *abi,
                    )
                },
            },
        decreases self, 0nat, 1nat,
    {
        proof {
            crate::abi::lemma_view_types_index(abi.types.types@);
            if (self.ty as int) < abi.types.types@.len() {
                assert(abi.types_v()[self.ty as int] == abi.types.types@[self.ty as int]@);
            }
            assert(enc_value_raw(self.view(), *abi) == enc_obj_raw(
                self.ty,
                match &self.values {
                    Some(vals) => Some(view_values(vals@)),
                    None => None,
                },
                *abi,
            ));
        }
        let ghost vals_v = match &self.values {
            Some(vals) => Some(view_values(vals@)),
            None => None,
        };
        if (self.ty as usize) >= abi.types.types.len() {
            assert(w@ =~= old(w)@ + enc_obj_err_prefix(self.ty, vals_v, *abi));
            return Err(Error::UnknownTypeId(self.ty));
        }
        let t = &abi.types.types[self.ty as usize];
        match (&t.attrs, &self.values) {
            (None, None) => {
                assert(w@ =~= old(w)@ + enc_value_raw(self.view(), *abi)->Ok_0);
                Ok(0)
            },
            (None, Some(_)) => {
                assert(w@ =~= old(w)@ + enc_obj_err_prefix(self.ty, vals_v, *abi));
                Err(Error::ObjectShapeMismatch(t.name))
            },
            (Some(_), None) => {
                assert(w@ =~= old(w)@ + enc_obj_err_prefix(self.ty, vals_v, *abi));
                Err(Error::ObjectShapeMismatch(t.name))
            },
            (Some(attrs), Some(vals)) => {
                let start = w.len();
                if t.nullable_nb_bytes > 0 {
                    let mut bitset: Vec<u8> = vec![0u8; t.nullable_nb_bytes as usize];
                    assert(bitset@ =~= zero_bytes(t.nullable_nb_bytes as nat));
                    match fill_bitset(attrs, vals, &mut bitset, 0, 0) {
                        Err(e) => {
                            assert(w@ =~= old(w)@ + enc_obj_err_prefix(self.ty, vals_v, *abi));
                            return Err(e);
                        },
                        Ok(_) => {},
                    }
                    w.append(&mut bitset);
                }
                match write_attrs(attrs, vals, t.name, w, abi, 0) {
                    Err(e) => {
                        proof {
                            assert(w@ =~= old(w)@ + enc_obj_err_prefix(self.ty, vals_v, *abi));
                        }
                        Err(e)
                    },
                    Ok(_) => {
                        proof {
                            assert(w@ =~= old(w)@ + enc_value_raw(self.view(), *abi)->Ok_0);
                        }
                        Ok(w.len() - start)
                    },
                }
            },
        }
    }
}

/// Computes the nullable bitset: for every nullable attribute, paired with
/// its value, one bit, set unless the value is null.
fn fill_bitset(
    attrs: &Vec<AbiAttr>,
    vals: &Vec<Value>,
    bitset: &mut Vec<u8>,
    i: usize,
    rank: usize,
) -> (r: Result<(), Error>)
    requires
        i <= attrs@.len(),
        rank <= i,
    ensures
        match enc_bitset(attrs@, view_values(vals@), i as int, rank as int, old(bitset)@) {
            Ok(bs) => r is Ok && final(bitset)@ == bs,
            Err(e) => r == Err::<(), Error>(e),
        },
    decreases attrs@.len() - i,
{
    proof {
        crate::value::lemma_view_values_index(vals@);
    }
    if i >= attrs.len() || i >= vals.len() {
        Ok(())
    } else {
        let a = attrs[i];
        if a.nullable {
            if rank / 8 >= bitset.len() {
                return Err(Error::MalformedAbi);
            }
            let on = !matches!(vals[i], Value::Null);
            proof {
                assert(view_values(vals@)[i as int] == vals@[i as int]@);
                assert(on == !(view_values(vals@)[i as int] is Null));
            }
            if on {
                crate::gc_object::gc_object_set_not_null(bitset, rank);
            } else {
                crate::gc_object::gc_object_set_null(bitset, rank);
            }
            fill_bitset(attrs, vals, bitset, i + 1, rank + 1)
        } else {
            fill_bitset(attrs, vals, bitset, i + 1, rank)
        }
    }
}

/// Writes the attribute bodies of an object from index `i` on.  Each body
/// is staged in its own buffer, so a failing attribute leaves nothing of
/// itself (nor of any later attribute) in the sink.
fn write_attrs(
    attrs: &Vec<AbiAttr>,
    vals: &Vec<Value>,
    tname: u32,
    w: &mut Vec<u8>,
    abi: &Abi,
    i: usize,
) -> (r: Result<usize, Error>)
    requires
        i <= attrs@.len(),
    ensures
        match enc_attrs(attrs@, view_values(vals@), tname, *abi, i as int) {
            Ok(bytes) => {
                &&& r == Ok::<usize, Error>(bytes.len() as usize)
                &&& final(w)@ == old(w)@ + bytes
            },
            Err(e) => {
                &&& r == Err::<usize, Error>(e)
                &&& final(w)@ == old(w)@ + enc_attrs_prefix(
                    attrs@,
                    view_values(vals@),
                    tname,
                    *abi,
                    i as int,
                )
            },
        },
    decreases vals, attrs@.len() - i, 4nat,
{
    proof {
        crate::value::lemma_view_values_index(vals@);
    }
    if i >= attrs.len() || i >= vals.len() {
        assert(w@ =~= old(w)@ + enc_attrs(
            attrs@,
            view_values(vals@),
            tname,
            *abi,
            i as int,
        )->Ok_0);
        Ok(0)
    } else {
        let start = w.len();
        let mut staged: Vec<u8> = Vec::new();
        match write_attr(&attrs[i], &vals[i], tname, &mut staged, abi) {
            Err(e) => {
                proof {
                    assert(w@ =~= old(w)@ + enc_attrs_prefix(
                        attrs@,
                        view_values(vals@),
                        tname,
                        *abi,
                        i as int,
                    ));
                }
                Err(e)
            },
            Ok(_) => {
                proof {
                    assert(staged@ =~= enc_attr(
                        attrs@[i as int],
                        view_values(vals@)[i as int],
                        tname,
                        *abi,
                    )->Ok_0);
                }
                w.append(&mut staged);
                match write_attrs(attrs, vals, tname, w, abi, i + 1) {
                    Err(e) => {
                        proof {
                            assert(w@ =~= old(w)@ + enc_attrs_prefix(
                                attrs@,
                                view_values(vals@),
                                tname,
                                *abi,
                                i as int,
                            ));
                        }
                        Err(e)
                    },
                    Ok(_) => {
                        proof {
                            assert(w@ =~= old(w)@ + enc_attrs(
                                attrs@,
                                view_values(vals@),
                                tname,
                                *abi,
                                i as int,
                            )->Ok_0);
                        }
                        Ok(w.len() - start)
                    },
                }
            },
        }
    }
}

/// Writes the body one attribute contributes, dispatching on its static
/// type.
fn write_attr(a: &AbiAttr, v: &Value, tname: u32, w: &mut Vec<u8>, abi: &Abi) -> (r: Result<
    usize,
    Error,
>)
    ensures
        match enc_attr(*a, v@, tname, *abi) {
            Ok(bytes) => {
                &&& r == Ok::<usize, Error>(bytes.len() as usize)
                &&& final(w)@ == old(w)@ + bytes
            },
            Err(e) => r == Err::<usize, Error>(e),
        },
    decreases v, 0nat, 3nat,
{
    if a.nullable && matches!(v, Value::Null) {
        assert(w@ =~= old(w)@ + enc_attr(*a, v@, tname, *abi)->Ok_0);
        return Ok(0);
    }
    if a.sbi_type == BOOL {
        match v {
            Value::Bool(_) => v.write_raw_to(w, abi),
            _ => Err(Error::AttrTypeMismatch(a.name, tname)),
        }
    } else if a.sbi_type == CHAR {
        match v {
            Value::Char(_) => v.write_raw_to(w, abi),
            _ => Err(Error::AttrTypeMismatch(a.name, tname)),
        }
    } else if a.sbi_type == INT {
        match v {
            Value::Int(_) => v.write_raw_to(w, abi),
            _ => Err(Error::AttrTypeMismatch(a.name, tname)),
        }
    } else if a.sbi_type == FLOAT {
        match v {
            Value::Float(_) => v.write_raw_to(w, abi),
            _ => Err(Error::AttrTypeMismatch(a.name, tname)),
        }
    } else if a.sbi_type == OBJECT {
        match v {
            Value::Obj(o) => {
                proof {
                    crate::abi::lemma_view_types_index(abi.types.types@);
                    assert(v@ == o.view());
                    if (a.abi_type as int) < abi.types.types@.len() {
                        assert(abi.types_v()[a.abi_type as int] == abi.types.types@[
                            a.abi_type as int
                        ]@);
                    }
                    if (o.ty as int) < abi.types.types@.len() {
                        assert(abi.types_v()[o.ty as int] == abi.types.types@[o.ty as int]@);
                    }
                }
                let abstract_attr = (a.abi_type as usize) < abi.types.types.len()
                    && abi.types.types[a.abi_type as usize].is_abstract;
                if abstract_attr {
                    if (o.ty as usize) >= abi.types.types.len() {
                        return Err(Error::UnknownTypeId(o.ty));
                    }
                    let start = w.len();
                    let _ = w.write_vu32(
                        abi.types.types[o.ty as usize].mapped_abi_type_offset,
                    );
                    match o.write_raw_to(w, abi) {
                        Err(e) => Err(e),
                        Ok(_) => {
                            proof {
                                assert(w@ =~= old(w)@ + enc_attr(
                                    *a,
                                    v@,
                                    tname,
                                    *abi,
                                )->Ok_0);
                            }
                            Ok(w.len() - start)
                        },
                    }
                } else {
                    o.write_raw_to(w, abi)
                }
            },
            Value::Array(_) => v.write_raw_to(w, abi),
            Value::Dict(_) => v.write_raw_to(w, abi),
            Value::String(_) => v.write_raw_to(w, abi),
            Value::Symbol(_) => v.write_raw_to(w, abi),
            Value::Enum(_) => v.write_raw_to(w, abi),
            _ => Err(Error::AttrTypeMismatch(a.name, tname)),
        }
    } else if a.sbi_type == UNDEFINED {
        v.write_to(w, abi)
    } else if a.sbi_type == NULL {
        assert(w@ =~= old(w)@ + enc_attr(*a, v@, tname, *abi)->Ok_0);
        Ok(0)
    } else {
        v.write_raw_to(w, abi)
    }
}

} // verus!
