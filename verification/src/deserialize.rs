//! The executable deserializer: reads tagged and untagged values against an
//! ABI, including objects, enums, nullable bitsets and symbol/string
//! disambiguation.
//!
//! Every function is specified against the wire format of [`crate::wire`]:
//! it returns exactly the value (and consumes exactly the bytes) that
//! [`dec_value`] and its companions prescribe, or exactly the error they
//! prescribe.  The recursive readers carry an explicit recursion budget; the
//! public entry points use [`decode_fuel`], a budget no value that fits in
//! memory exhausts.

use vstd::prelude::*;

use crate::abi::{Abi, AbiAttr, AbiSymbol};
use crate::core_types::{Duration, Float, Geo, Node, NodeGeo, NodeIndex, NodeList, NodeTime, Time};
use crate::error::Error;
use crate::primitive::{ENUM, OBJECT, UNDEFINED};
use crate::reader::{dec_le, dec_u8, Reader};
use crate::value::{
    view_values, GcEnum, GcObject, GcString, Value, lemma_view_values_push,
    lemma_view_values_update, lemma_view_pairs_push, view_pairs,
};
use crate::varint::{dec_vi64, dec_vu32, dec_vu64, VarintRead};
use crate::wire::{
    dec_attr_value, dec_attrs, dec_dict_pairs, dec_enum, dec_items, dec_object, dec_string,
    dec_symbol, dec_typed_enum, dec_typed_object, dec_value, dec_value_tag,
};
use vstd::utf8::{decode_utf8, valid_utf8};

verus! {

/// The recursion budget of the public decoding entry points.  A payload
/// that nests deeper than this cannot fit in any real memory.
pub open spec fn decode_fuel() -> nat {
    u64::MAX as nat
}

/// Relies on `String::from_utf8` of std: it succeeds exactly on valid UTF-8
/// input, and the string it returns decodes those bytes.
#[verifier::external_body]
pub(crate) fn string_from_utf8(bytes: Vec<u8>) -> (r: Option<String>)
    ensures
        r is Some <==> valid_utf8(bytes@),
        r matches Some(s) ==> s@ == decode_utf8(bytes@),
{
    String::from_utf8(bytes).ok()
}

/// A slot vector of `n` null values.
fn null_slots(n: usize) -> (r: Vec<Value>)
    ensures
        view_values(r@) == crate::value::null_values(n as nat),
        r@.len() == n,
{
    let mut v: Vec<Value> = Vec::new();
    let mut i: usize = 0;
    while i < n
        invariant
            i <= n,
            v@.len() == i,
            forall|j: int| 0 <= j < i ==> v@[j] == Value::Null,
        decreases n - i,
    {
        v.push(Value::Null);
        i = i + 1;
    }
    proof {
        crate::value::lemma_view_values_index(v@);
        assert forall|j: int| 0 <= j < n implies view_values(v@)[j] == crate::value::null_values(
            n as nat,
        )[j] by {
            assert(view_values(v@)[j] == v@[j]@);
        }
        assert(view_values(v@) =~= crate::value::null_values(n as nat));
    }
    v
}

impl Reader {
    /// Reads a varint-i64 as a plain integer.
    pub fn read_int(&mut self) -> (r: Result<i64, Error>)
        requires
            old(self).wf(),
        ensures
            final(self).wf(),
            final(self).data() == old(self).data(),
            match r {
                Ok(v) => dec_vi64(old(self).data(), old(self).position()) == Some(
                    (v as int, final(self).position()),
                ),
                Err(e) => dec_vi64(old(self).data(), old(self).position()) is None && e
                    == Error::Truncated,
            },
    {
        self.read_vi64()
    }

    /// Reads a little-endian 64-bit float, as its bit pattern.
    pub fn read_float(&mut self) -> (r: Result<Float, Error>)
        requires
            old(self).wf(),
        ensures
            final(self).wf(),
            final(self).data() == old(self).data(),
            match r {
                Ok(v) => dec_le(old(self).data(), old(self).position(), 8) == Some(
                    (v.0 as int, final(self).position()),
                ),
                Err(e) => dec_le(old(self).data(), old(self).position(), 8) is None && e
                    == Error::Truncated,
            },
    {
        match self.read_u64_le() {
            Ok(bits) => Ok(Float(bits)),
            Err(e) => Err(e),
        }
    }

    /// Reads one byte as a boolean: zero is false, anything else is true.
    pub fn read_bool(&mut self) -> (r: Result<bool, Error>)
        requires
            old(self).wf(),
        ensures
            final(self).wf(),
            final(self).data() == old(self).data(),
            match r {
                Ok(v) => dec_u8(old(self).data(), old(self).position()) matches Some((n, q)) && v
                    == (n != 0) && final(self).position() == q,
                Err(e) => dec_u8(old(self).data(), old(self).position()) is None && e
                    == Error::Truncated,
            },
    {
        match self.read_u8() {
            Ok(n) => Ok(n != 0),
            Err(e) => Err(e),
        }
    }

    /// Reads one byte as an ASCII character.
    pub fn read_char(&mut self) -> (r: Result<char, Error>)
        requires
            old(self).wf(),
        ensures
            final(self).wf(),
            final(self).data() == old(self).data(),
            match r {
                Ok(c) => dec_u8(old(self).data(), old(self).position()) matches Some((n, q)) && n
                    < 128 && c == n as char && final(self).position() == q,
                Err(e) => match dec_u8(old(self).data(), old(self).position()) {
                    None => e == Error::Truncated,
                    Some((n, _)) => n >= 128 && e == Error::InvalidChar(n),
                },
            },
    {
        match self.read_u8() {
            Ok(n) => {
                if n < 128 {
                    Ok(n as char)
                } else {
                    Err(Error::InvalidChar(n))
                }
            },
            Err(e) => Err(e),
        }
    }

    /// Reads a varint-i64 as a point in time.
    pub fn read_time(&mut self) -> (r: Result<Time, Error>)
        requires
            old(self).wf(),
        ensures
            final(self).wf(),
            final(self).data() == old(self).data(),
            match r {
                Ok(v) => dec_vi64(old(self).data(), old(self).position()) == Some(
                    (v.0 as int, final(self).position()),
                ),
                Err(e) => dec_vi64(old(self).data(), old(self).position()) is None && e
                    == Error::Truncated,
            },
    {
        match self.read_vi64() {
            Ok(v) => Ok(Time(v)),
            Err(e) => Err(e),
        }
    }

    /// Reads a varint-i64 as a span of time.
    pub fn read_duration(&mut self) -> (r: Result<Duration, Error>)
        requires
            old(self).wf(),
        ensures
            final(self).wf(),
            final(self).data() == old(self).data(),
            match r {
                Ok(v) => dec_vi64(old(self).data(), old(self).position()) == Some(
                    (v.0 as int, final(self).position()),
                ),
                Err(e) => dec_vi64(old(self).data(), old(self).position()) is None && e
                    == Error::Truncated,
            },
    {
        match self.read_vi64() {
            Ok(v) => Ok(Duration(v)),
            Err(e) => Err(e),
        }
    }

    /// Reads a varint-u64 as a geographic position.
    pub fn read_geo(&mut self) -> (r: Result<Geo, Error>)
        requires
            old(self).wf(),
        ensures
            final(self).wf(),
            final(self).data() == old(self).data(),
            match r {
                Ok(v) => dec_vu64(old(self).data(), old(self).position()) == Some(
                    (v.0 as int, final(self).position()),
                ),
                Err(e) => dec_vu64(old(self).data(), old(self).position()) is None && e
                    == Error::Truncated,
            },
    {
        match self.read_vu64() {
            Ok(v) => Ok(Geo(v)),
            Err(e) => Err(e),
        }
    }

    /// Reads a varint-u64 as a node reference.
    pub fn read_node(&mut self) -> (r: Result<Node, Error>)
        requires
            old(self).wf(),
        ensures
            final(self).wf(),
            final(self).data() == old(self).data(),
            match r {
                Ok(v) => dec_vu64(old(self).data(), old(self).position()) == Some(
                    (v.0 as int, final(self).position()),
                ),
                Err(e) => dec_vu64(old(self).data(), old(self).position()) is None && e
                    == Error::Truncated,
            },
    {
        match self.read_vu64() {
            Ok(v) => Ok(Node(v)),
            Err(e) => Err(e),
        }
    }

    /// Reads a varint-u64 as a geo-indexed node reference.
    pub fn read_nodegeo(&mut self) -> (r: Result<NodeGeo, Error>)
        requires
            old(self).wf(),
        ensures
            final(self).wf(),
            final(self).data() == old(self).data(),
            match r {
                Ok(v) => dec_vu64(old(self).data(), old(self).position()) == Some(
                    (v.0 as int, final(self).position()),
                ),
                Err(e) => dec_vu64(old(self).data(), old(self).position()) is None && e
                    == Error::Truncated,
            },
    {
        match self.read_vu64() {
            Ok(v) => Ok(NodeGeo(v)),
            Err(e) => Err(e),
        }
    }

    /// Reads a varint-u64 as a list node reference.
    pub fn read_nodelist(&mut self) -> (r: Result<NodeList, Error>)
        requires
            old(self).wf(),
        ensures
            final(self).wf(),
            final(self).data() == old(self).data(),
            match r {
                Ok(v) => dec_vu64(old(self).data(), old(self).position()) == Some(
                    (v.0 as int, final(self).position()),
                ),
                Err(e) => dec_vu64(old(self).data(), old(self).position()) is None && e
                    == Error::Truncated,
            },
    {
        match self.read_vu64() {
            Ok(v) => Ok(NodeList(v)),
            Err(e) => Err(e),
        }
    }

    /// Reads a varint-u64 as an index node reference.
    pub fn read_nodeindex(&mut self) -> (r: Result<NodeIndex, Error>)
        requires
            old(self).wf(),
        ensures
            final(self).wf(),
            final(self).data() == old(self).data(),
            match r {
                Ok(v) => dec_vu64(old(self).data(), old(self).position()) == Some(
                    (v.0 as int, final(self).position()),
                ),
                Err(e) => dec_vu64(old(self).data(), old(self).position()) is None && e
                    == Error::Truncated,
            },
    {
        match self.read_vu64() {
            Ok(v) => Ok(NodeIndex(v)),
            Err(e) => Err(e),
        }
    }

    /// Reads a varint-u64 as a time-indexed node reference.
    pub fn read_nodetime(&mut self) -> (r: Result<NodeTime, Error>)
        requires
            old(self).wf(),
        ensures
            final(self).wf(),
            final(self).data() == old(self).data(),
            match r {
                Ok(v) => dec_vu64(old(self).data(), old(self).position()) == Some(
                    (v.0 as int, final(self).position()),
                ),
                Err(e) => dec_vu64(old(self).data(), old(self).position()) is None && e
                    == Error::Truncated,
            },
    {
        match self.read_vu64() {
            Ok(v) => Ok(NodeTime(v)),
            Err(e) => Err(e),
        }
    }

    /// Reads a symbol reference: a varint-u32 whose high bits are the id.
    pub fn read_symbol(&mut self, abi: &Abi) -> (r: Result<AbiSymbol, Error>)
        requires
            old(self).wf(),
        ensures
            final(self).wf(),
            final(self).data() == old(self).data(),
            dec_symbol(old(self).data(), old(self).position(), *abi) == match r {
                Ok(s) => Ok::<(crate::value::ValueV, int), Error>(
                    (crate::value::ValueV::Symbol(s.0), final(self).position()),
                ),
                Err(e) => Err(e),
            },
    {
        proof {
            crate::abi::lemma_view_strings_index(abi.symbols.symbols@);
        }
        match self.read_vu32() {
            Err(e) => Err(e),
            Ok(n) => {
                let id = n / 2;
                if (id as usize) < abi.symbols.symbols.len() {
                    Ok(AbiSymbol(id))
                } else {
                    Err(Error::UnknownSymbol(id))
                }
            },
        }
    }

    /// Reads one varint-u32 `n`; if `n` is odd the payload is the symbol
    /// with id `n >> 1`, otherwise a UTF-8 string of `n >> 1` bytes that
    /// follow.
    pub fn read_string(&mut self, abi: &Abi) -> (r: Result<GcString, Error>)
        requires
            old(self).wf(),
        ensures
            final(self).wf(),
            final(self).data() == old(self).data(),
            dec_string(old(self).data(), old(self).position(), *abi) == match r {
                Ok(g) => Ok::<(crate::value::ValueV, int), Error>(
                    (g.view(), final(self).position()),
                ),
                Err(e) => Err(e),
            },
    {
        proof {
            crate::abi::lemma_view_strings_index(abi.symbols.symbols@);
        }
        match self.read_vu32() {
            Err(e) => Err(e),
            Ok(n) => {
                if n % 2 == 1 {
                    let id = n / 2;
                    if (id as usize) < abi.symbols.symbols.len() {
                        Ok(GcString::Symbol(AbiSymbol(id)))
                    } else {
                        Err(Error::UnknownSymbol(id))
                    }
                } else {
                    let len = n / 2;
                    match self.read_bytes(len as usize) {
                        Err(e) => Err(e),
                        Ok(bytes) => match string_from_utf8(bytes) {
                            Some(s) => Ok(GcString::String(s)),
                            None => Err(Error::InvalidUtf8),
                        },
                    }
                }
            },
        }
    }

    /// Reads a plain length-prefixed UTF-8 string, without the symbol
    /// dispatch: a varint-u32 length, then that many bytes.
    pub fn read_object_string(&mut self) -> (r: Result<String, Error>)
        requires
            old(self).wf(),
        ensures
            final(self).wf(),
            final(self).data() == old(self).data(),
            match r {
                Ok(s) => {
                    &&& dec_vu32(old(self).data(), old(self).position()) matches Some((n, q))
                    &&& q + n <= old(self).data().len()
                    &&& valid_utf8(old(self).data().subrange(q, q + n))
                    &&& s@ == decode_utf8(old(self).data().subrange(q, q + n))
                    &&& final(self).position() == q + n
                },
                Err(_) => true,
            },
    {
        match self.read_vu32() {
            Err(e) => Err(e),
            Ok(n) => {
                match self.read_bytes(n as usize) {
                    Err(e) => Err(e),
                    Ok(bytes) => match string_from_utf8(bytes) {
                        Some(s) => Ok(s),
                        None => Err(Error::InvalidUtf8),
                    },
                }
            },
        }
    }

    /// Reads an enum: a varint-u32 type id, then the variant offset.
    pub fn read_enum(&mut self, abi: &Abi) -> (r: Result<GcEnum, Error>)
        requires
            old(self).wf(),
        ensures
            final(self).wf(),
            final(self).data() == old(self).data(),
            dec_enum(old(self).data(), old(self).position(), *abi) == match r {
                Ok(e) => Ok::<(crate::value::ValueV, int), Error>(
                    (e.view(), final(self).position()),
                ),
                Err(e) => Err(e),
            },
    {
        match self.read_vu32() {
            Err(e) => Err(e),
            Ok(tid) => {
                if (tid as usize) >= abi.types.types.len() {
                    proof {
                        crate::abi::lemma_view_types_index(abi.types.types@);
                    }
                    Err(Error::UnknownTypeId(tid))
                } else {
                    self.read_typed_enum(tid, abi)
                }
            },
        }
    }

    /// Reads the variant offset of an enum whose wire type id is already
    /// known; the decoded enum carries the wire type's mapped target.
    pub fn read_typed_enum(&mut self, tid: u32, abi: &Abi) -> (r: Result<GcEnum, Error>)
        requires
            old(self).wf(),
        ensures
            final(self).wf(),
            final(self).data() == old(self).data(),
            dec_typed_enum(tid, old(self).data(), old(self).position(), *abi) == match r {
                Ok(e) => Ok::<(crate::value::ValueV, int), Error>(
                    (e.view(), final(self).position()),
                ),
                Err(e) => Err(e),
            },
    {
        proof {
            crate::abi::lemma_view_types_index(abi.types.types@);
            if (tid as int) < abi.types.types@.len() {
                assert(abi.types_v()[tid as int] == abi.types.types@[tid as int]@);
            }
        }
        if (tid as usize) >= abi.types.types.len() {
            return Err(Error::UnknownTypeId(tid));
        }
        let t = &abi.types.types[tid as usize];
        if (t.mapped_abi_type_offset as usize) >= abi.types.types.len() {
            return Err(Error::UnknownTypeId(t.mapped_abi_type_offset));
        }
        match self.read_vu32() {
            Err(e) => Err(e),
            Ok(off) => {
                match &t.attrs {
                    None => Err(Error::EnumWithoutAttrs(t.name)),
                    Some(ats) => {
                        if (off as usize) >= ats.len() {
                            Err(Error::EnumOffsetOutOfRange(off))
                        } else {
                            Ok(
                                GcEnum {
                                    ty: t.mapped_abi_type_offset,
                                    offset: ats[off as usize].mapped_att_offset,
                                    key: ats[off as usize].name,
                                },
                            )
                        }
                    },
                }
            },
        }
    }

    /// Reads one tagged value: one tag byte, then its body.
    pub fn read_value(&mut self, abi: &Abi) -> (r: Result<Value, Error>)
        requires
            old(self).wf(),
        ensures
            final(self).wf(),
            final(self).data() == old(self).data(),
            dec_value(old(self).data(), old(self).position(), *abi, decode_fuel()) == match r {
                Ok(v) => Ok::<(crate::value::ValueV, int), Error>((v@, final(self).position())),
                Err(e) => Err(e),
            },
    {
        self.read_value_fuel(abi, u64::MAX)
    }

    /// Reads the body of a value whose tag byte is already in hand.
    pub fn read_value_header(&mut self, header: u8, abi: &Abi) -> (r: Result<Value, Error>)
        requires
            old(self).wf(),
        ensures
            final(self).wf(),
            final(self).data() == old(self).data(),
            dec_value_tag(header, old(self).data(), old(self).position(), *abi, decode_fuel())
                == match r {
                Ok(v) => Ok::<(crate::value::ValueV, int), Error>((v@, final(self).position())),
                Err(e) => Err(e),
            },
    {
        self.read_value_tag_fuel(header, abi, u64::MAX)
    }

    /// Reads an object: a varint-u32 type id, then the body for that type.
    /// String, array and map type ids decode to their container values.
    pub fn read_object(&mut self, abi: &Abi) -> (r: Result<Value, Error>)
        requires
            old(self).wf(),
        ensures
            final(self).wf(),
            final(self).data() == old(self).data(),
            dec_object(old(self).data(), old(self).position(), *abi, decode_fuel()) == match r {
                Ok(v) => Ok::<(crate::value::ValueV, int), Error>((v@, final(self).position())),
                Err(e) => Err(e),
            },
            // After the type id, an id that is not a container shortcut and
            // is unknown, native, or mapped out of range consumes no body
            // bytes.
            (dec_vu32(old(self).data(), old(self).position()) is Some && ({
                let t = dec_vu32(old(self).data(), old(self).position())->Some_0.0;
                &&& t != abi.types.core.string as int
                &&& t != abi.types.core.array as int
                &&& t != abi.types.core.map as int
                &&& (t >= abi.types_v().len() || abi.types_v()[t].is_native
                    || abi.types_v()[t].mapped_abi_type_offset as int >= abi.types_v().len())
            })) ==> final(self).position() == dec_vu32(
                old(self).data(),
                old(self).position(),
            )->Some_0.1,
    {
        self.read_object_fuel(abi, u64::MAX)
    }

    /// Reads the body of an object whose type id is already known.
    pub fn read_typed_object(&mut self, tid: u32, abi: &Abi) -> (r: Result<Value, Error>)
        requires
            old(self).wf(),
        ensures
            final(self).wf(),
            final(self).data() == old(self).data(),
            dec_typed_object(tid, old(self).data(), old(self).position(), *abi, decode_fuel())
                == match r {
                Ok(v) => Ok::<(crate::value::ValueV, int), Error>((v@, final(self).position())),
                Err(e) => Err(e),
            },
            // A type id that is not a container shortcut and is unknown,
            // native, or mapped out of range is rejected before any body
            // byte is consumed.
            (tid != abi.types.core.string && tid != abi.types.core.array && tid
                != abi.types.core.map && (tid as int >= abi.types_v().len()
                || abi.types_v()[tid as int].is_native
                || abi.types_v()[tid as int].mapped_abi_type_offset as int
                    >= abi.types_v().len())) ==> final(self).position() == old(self).position(),
    {
        self.read_typed_object_fuel(tid, abi, u64::MAX)
    }

    /// Reads one tagged value with an explicit recursion budget.
    fn read_value_fuel(&mut self, abi: &Abi, fuel: u64) -> (r: Result<Value, Error>)
        requires
            old(self).wf(),
        ensures
            final(self).wf(),
            final(self).data() == old(self).data(),
            dec_value(old(self).data(), old(self).position(), *abi, fuel as nat) == match r {
                Ok(v) => Ok::<(crate::value::ValueV, int), Error>((v@, final(self).position())),
                Err(e) => Err(e),
            },
        decreases fuel, 4nat, 0nat,
    {
        match self.read_u8() {
            Err(e) => Err(e),
            Ok(tag) => self.read_value_tag_fuel(tag, abi, fuel),
        }
    }

    /// Reads the body of a value from its tag, with an explicit budget.
    fn read_value_tag_fuel(&mut self, tag: u8, abi: &Abi, fuel: u64) -> (r: Result<Value, Error>)
        requires
            old(self).wf(),
        ensures
            final(self).wf(),
            final(self).data() == old(self).data(),
            dec_value_tag(tag, old(self).data(), old(self).position(), *abi, fuel as nat)
                == match r {
                Ok(v) => Ok::<(crate::value::ValueV, int), Error>((v@, final(self).position())),
                Err(e) => Err(e),
            },
        decreases fuel, 3nat, 0nat,
    {
        if tag == crate::primitive::NULL {
            Ok(Value::Null)
        } else if tag == crate::primitive::INT {
            match self.read_int() {
                Ok(v) => Ok(Value::Int(v)),
                Err(e) => Err(e),
            }
        } else if tag == crate::primitive::FLOAT {
            match self.read_float() {
                Ok(v) => Ok(Value::Float(v)),
                Err(e) => Err(e),
            }
        } else if tag == crate::primitive::BOOL {
            match self.read_bool() {
                Ok(v) => Ok(Value::Bool(v)),
                Err(e) => Err(e),
            }
        } else if tag == crate::primitive::CHAR {
            match self.read_char() {
                Ok(v) => Ok(Value::Char(v)),
                Err(e) => Err(e),
            }
        } else if tag == crate::primitive::NODE {
            match self.read_node() {
                Ok(v) => Ok(Value::Node(v)),
                Err(e) => Err(e),
            }
        } else if tag == crate::primitive::NODE_TIME {
            match self.read_nodetime() {
                Ok(v) => Ok(Value::NodeTime(v)),
                Err(e) => Err(e),
            }
        } else if tag == crate::primitive::NODE_INDEX {
            match self.read_nodeindex() {
                Ok(v) => Ok(Value::NodeIndex(v)),
                Err(e) => Err(e),
            }
        } else if tag == crate::primitive::NODE_LIST {
            match self.read_nodelist() {
                Ok(v) => Ok(Value::NodeList(v)),
                Err(e) => Err(e),
            }
        } else if tag == crate::primitive::NODE_GEO {
            match self.read_nodegeo() {
                Ok(v) => Ok(Value::NodeGeo(v)),
                Err(e) => Err(e),
            }
        } else if tag == crate::primitive::GEO {
            match self.read_geo() {
                Ok(v) => Ok(Value::Geo(v)),
                Err(e) => Err(e),
            }
        } else if tag == crate::primitive::TIME {
            match self.read_time() {
                Ok(v) => Ok(Value::Time(v)),
                Err(e) => Err(e),
            }
        } else if tag == crate::primitive::DURATION {
            match self.read_duration() {
                Ok(v) => Ok(Value::Duration(v)),
                Err(e) => Err(e),
            }
        } else if tag == crate::primitive::STR_LIT {
            match self.read_symbol(abi) {
                Ok(s) => Ok(Value::Symbol(s)),
                Err(e) => Err(e),
            }
        } else if tag == ENUM {
            match self.read_enum(abi) {
                Ok(e) => Ok(Value::Enum(e)),
                Err(e) => Err(e),
            }
        } else if tag == OBJECT {
            self.read_object_fuel(abi, fuel)
        } else if tag == crate::primitive::FN {
            Err(Error::UnsupportedFn)
        } else {
            Err(Error::UnknownTag(tag))
        }
    }

    /// Reads an object's type id and then its body, with an explicit budget.
    fn read_object_fuel(&mut self, abi: &Abi, fuel: u64) -> (r: Result<Value, Error>)
        requires
            old(self).wf(),
        ensures
            final(self).wf(),
            final(self).data() == old(self).data(),
            dec_object(old(self).data(), old(self).position(), *abi, fuel as nat) == match r {
                Ok(v) => Ok::<(crate::value::ValueV, int), Error>((v@, final(self).position())),
                Err(e) => Err(e),
            },
            // After the type id, an id that is not a container shortcut and
            // is unknown, native, or mapped out of range consumes no body
            // bytes.
            (dec_vu32(old(self).data(), old(self).position()) is Some && ({
                let t = dec_vu32(old(self).data(), old(self).position())->Some_0.0;
                &&& t != abi.types.core.string as int
                &&& t != abi.types.core.array as int
                &&& t != abi.types.core.map as int
                &&& (t >= abi.types_v().len() || abi.types_v()[t].is_native
                    || abi.types_v()[t].mapped_abi_type_offset as int >= abi.types_v().len())
            })) ==> final(self).position() == dec_vu32(
                old(self).data(),
                old(self).position(),
            )->Some_0.1,
        decreases fuel, 2nat, 0nat,
    {
        match self.read_vu32() {
            Err(e) => Err(e),
            Ok(tid) => self.read_typed_object_fuel(tid, abi, fuel),
        }
    }

    /// Reads the body of an object of a known type, with an explicit budget.
    #[verifier::rlimit(60)]
    fn read_typed_object_fuel(&mut self, tid: u32, abi: &Abi, fuel: u64) -> (r: Result<
        Value,
        Error,
    >)
        requires
            old(self).wf(),
        ensures
            final(self).wf(),
            final(self).data() == old(self).data(),
            dec_typed_object(tid, old(self).data(), old(self).position(), *abi, fuel as nat)
                == match r {
                Ok(v) => Ok::<(crate::value::ValueV, int), Error>((v@, final(self).position())),
                Err(e) => Err(e),
            },
            // A type id that is not a container shortcut and is unknown,
            // native, or mapped out of range is rejected before any body
            // byte is consumed.
            (tid != abi.types.core.string && tid != abi.types.core.array && tid
                != abi.types.core.map && (tid as int >= abi.types_v().len()
                || abi.types_v()[tid as int].is_native
                || abi.types_v()[tid as int].mapped_abi_type_offset as int
                    >= abi.types_v().len())) ==> final(self).position() == old(self).position(),
        decreases fuel, 1nat, 0nat,
    {
        proof {
            crate::abi::lemma_view_types_index(abi.types.types@);
            if (tid as int) < abi.types.types@.len() {
                assert(abi.types_v()[tid as int] == abi.types.types@[tid as int]@);
            }
        }
        if tid == abi.types.core.string {
            match self.read_string(abi) {
                Ok(g) => {
                    let v = Value::from(g);
                    Ok(v)
                },
                Err(e) => Err(e),
            }
        } else if tid == abi.types.core.array {
            match self.read_vu32() {
                Err(e) => Err(e),
                Ok(count) => {
                    let mut items: Vec<Value> = Vec::new();
                    assert(view_values(items@) =~= Seq::<crate::value::ValueV>::empty());
                    let ghost p1 = self.position();
                    match self.read_items_fuel(count, &mut items, abi, fuel) {
                        Err(e) => Err(e),
                        Ok(_) => {
                            proof {
                                let its = dec_items(
                                    count as int,
                                    old(self).data(),
                                    p1,
                                    *abi,
                                    fuel as nat,
                                )->Ok_0.0;
                                assert(Seq::<crate::value::ValueV>::empty() + its =~= its);
                            }
                            let v = Value::Array(items);
                            Ok(v)
                        },
                    }
                },
            }
        } else if tid == abi.types.core.map {
            match self.read_vu32() {
                Err(e) => Err(e),
                Ok(count) => {
                    let mut pairs: Vec<(Value, Value)> = Vec::new();
                    assert(view_pairs(pairs@) =~= Seq::<
                        (crate::value::ValueV, crate::value::ValueV),
                    >::empty());
                    let ghost p1 = self.position();
                    match self.read_dict_pairs_fuel(count, &mut pairs, abi, fuel) {
                        Err(e) => Err(e),
                        Ok(_) => {
                            proof {
                                let prs = dec_dict_pairs(
                                    count as int,
                                    old(self).data(),
                                    p1,
                                    *abi,
                                    fuel as nat,
                                )->Ok_0.0;
                                assert(Seq::<
                                    (crate::value::ValueV, crate::value::ValueV),
                                >::empty() + prs =~= prs);
                            }
                            let v = Value::Dict(pairs);
                            Ok(v)
                        },
                    }
                },
            }
        } else if (tid as usize) >= abi.types.types.len() {
            Err(Error::UnknownTypeId(tid))
        } else {
            let t = &abi.types.types[tid as usize];
            if t.is_native {
                return Err(Error::UnsupportedNative(t.name));
            }
            let prog_tid = t.mapped_abi_type_offset;
            if (prog_tid as usize) >= abi.types.types.len() {
                return Err(Error::UnknownTypeId(prog_tid));
            }
            proof {
                assert(abi.types_v()[prog_tid as int] == abi.types.types@[prog_tid as int]@);
            }
            match &t.attrs {
                None => {
                    let v = Value::Obj(GcObject { ty: prog_tid, values: None });
                    Ok(v)
                },
                Some(attrs) => {
                    let nslots = match &abi.types.types[prog_tid as usize].attrs {
                        Some(pa) => pa.len(),
                        None => 0,
                    };
                    proof {
                        let tv = abi.types_v()[tid as int];
                        assert(tv.attrs == Some(attrs@));
                        assert(tv.nullable_nb_bytes == t.nullable_nb_bytes);
                        let pv = abi.types_v()[prog_tid as int];
                        assert((nslots as nat) == match pv.attrs {
                            Some(pa) => pa.len(),
                            None => 0,
                        });
                    }
                    match self.read_bytes(t.nullable_nb_bytes as usize) {
                        Err(e) => Err(e),
                        Ok(bits) => {
                            let ghost q2 = self.position();
                            let mut slots = null_slots(nslots);
                            proof {
                                assert(view_values(slots@) == crate::value::null_values(
                                    nslots as nat,
                                ));
                            }
                            proof {
                                crate::reader::lemma_reader_position(old(self));
                                let tv = abi.types_v()[tid as int];
                                let bb = old(self).data();
                                let pp = old(self).position();
                                let nb = tv.nullable_nb_bytes as int;
                                assert(!(pp < 0 || pp + nb > bb.len()));
                                let ours = dec_attrs(
                                    tv.attrs->Some_0,
                                    0,
                                    0,
                                    bb.subrange(pp, pp + nb),
                                    crate::value::null_values(
                                        match abi.types_v()[
                                            tv.mapped_abi_type_offset as int
                                        ].attrs {
                                            Some(pa) => pa.len(),
                                            None => 0,
                                        },
                                    ),
                                    bb,
                                    pp + nb,
                                    *abi,
                                    fuel as nat,
                                );
                                assert(dec_typed_object(tid, bb, pp, *abi, fuel as nat)
                                    == match ours {
                                    Ok((s2, qq)) => Ok::<(crate::value::ValueV, int), Error>(
                                        (
                                            crate::value::ValueV::Obj(
                                                tv.mapped_abi_type_offset,
                                                Some(s2),
                                            ),
                                            qq,
                                        ),
                                    ),
                                    Err(e) => Err(e),
                                });
                                assert(ours == dec_attrs(
                                    attrs@,
                                    0,
                                    0,
                                    bits@,
                                    crate::value::null_values(nslots as nat),
                                    old(self).data(),
                                    q2,
                                    *abi,
                                    fuel as nat,
                                ));
                            }
                            match self.read_attrs_fuel(attrs, 0, 0, &bits, &mut slots, abi, fuel) {
                                Err(e) => Err(e),
                                Ok(_) => {
                                    let v = Value::Obj(
                                        GcObject { ty: prog_tid, values: Some(slots) },
                                    );
                                    Ok(v)
                                },
                            }
                        },
                    }
                },
            }
        }
    }

    /// Walks the attributes of a type from index `i`, filling the slots.
    fn read_attrs_fuel(
        &mut self,
        attrs: &Vec<AbiAttr>,
        i: usize,
        rank: usize,
        bits: &Vec<u8>,
        slots: &mut Vec<Value>,
        abi: &Abi,
        fuel: u64,
    ) -> (r: Result<(), Error>)
        requires
            old(self).wf(),
            i <= attrs@.len(),
            rank <= i,
        ensures
            final(self).wf(),
            final(self).data() == old(self).data(),
            match dec_attrs(
                attrs@,
                i as int,
                rank as int,
                bits@,
                view_values(old(slots)@),
                old(self).data(),
                old(self).position(),
                *abi,
                fuel as nat,
            ) {
                Ok((s2, q)) => {
                    &&& r is Ok
                    &&& view_values(final(slots)@) == s2
                    &&& final(self).position() == q
                },
                Err(e) => r == Err::<(), Error>(e),
            },
        decreases fuel, 0nat, attrs@.len() - i,
    {
        proof {
            crate::value::lemma_view_values_index(old(slots)@);
            assert(old(slots)@ == slots@);
        }
        if i >= attrs.len() {
            return Ok(());
        }
        let a = attrs[i];
        if a.nullable && rank / 8 >= bits.len() {
            return Err(Error::MalformedAbi);
        }
        if a.nullable && crate::gc_object::attr_is_null(bits, rank) {
            // The bit says null: nothing on the wire, the slot stays null.
            return self.read_attrs_fuel(attrs, i + 1, rank + 1, bits, slots, abi, fuel);
        }
        let rank2 = if a.nullable {
            rank + 1
        } else {
            rank
        };
        match self.read_attr_value_fuel(a, abi, fuel) {
            Err(e) => Err(e),
            Ok(v) => {
                if a.mapped {
                    if (a.mapped_att_offset as usize) >= slots.len() {
                        proof {
                            assert(view_values(old(slots)@).len() == slots@.len());
                        }
                        return Err(Error::AttrSlotOutOfRange(a.name));
                    }
                    proof {
                        lemma_view_values_update(slots@, a.mapped_att_offset as int, v);
                    }
                    let ghost q1 = self.position();
                    let ghost vv = v@;
                    slots.set(a.mapped_att_offset as usize, v);
                    let ghost mid_slots = view_values(slots@);
                    proof {
                        assert(mid_slots == view_values(old(slots)@).update(
                            a.mapped_att_offset as int,
                            vv,
                        ));
                        assert(dec_attr_value(
                            a,
                            old(self).data(),
                            old(self).position(),
                            *abi,
                            fuel as nat,
                        ) == Ok::<(crate::value::ValueV, int), Error>((vv, q1)));
                        assert((i as int) < attrs@.len() && attrs@[i as int] == a);
                        assert(!(a.nullable && ((rank as int) < 0 || (rank as int) / 8
                            >= bits@.len())));
                        assert(a.nullable ==> crate::wire::bit_of(bits@, rank as int));
                        assert((rank2 as int) == if a.nullable {
                            (rank as int) + 1
                        } else {
                            rank as int
                        });
                        assert(a.mapped && (a.mapped_att_offset as int) < view_values(
                            old(slots)@,
                        ).len());
                    }
                    let r2 = self.read_attrs_fuel(attrs, i + 1, rank2, bits, slots, abi, fuel);
                    proof {
                        assert(dec_attrs(
                            attrs@,
                            i as int,
                            rank as int,
                            bits@,
                            view_values(old(slots)@),
                            old(self).data(),
                            old(self).position(),
                            *abi,
                            fuel as nat,
                        ) == dec_attrs(
                            attrs@,
                            i + 1 as int,
                            rank2 as int,
                            bits@,
                            mid_slots,
                            old(self).data(),
                            q1,
                            *abi,
                            fuel as nat,
                        ));
                    }
                    r2
                } else {
                    let ghost q1 = self.position();
                    let r2 = self.read_attrs_fuel(attrs, i + 1, rank2, bits, slots, abi, fuel);
                    proof {
                        assert(dec_attrs(
                            attrs@,
                            i as int,
                            rank as int,
                            bits@,
                            view_values(old(slots)@),
                            old(self).data(),
                            old(self).position(),
                            *abi,
                            fuel as nat,
                        ) == dec_attrs(
                            attrs@,
                            i + 1 as int,
                            rank2 as int,
                            bits@,
                            view_values(old(slots)@),
                            old(self).data(),
                            q1,
                            *abi,
                            fuel as nat,
                        ));
                    }
                    r2
                }
            },
        }
    }

    /// Reads the value of one attribute, by its static type.
    fn read_attr_value_fuel(&mut self, a: AbiAttr, abi: &Abi, fuel: u64) -> (r: Result<
        Value,
        Error,
    >)
        requires
            old(self).wf(),
        ensures
            final(self).wf(),
            final(self).data() == old(self).data(),
            dec_attr_value(a, old(self).data(), old(self).position(), *abi, fuel as nat)
                == match r {
                Ok(v) => Ok::<(crate::value::ValueV, int), Error>((v@, final(self).position())),
                Err(e) => Err(e),
            },
        decreases fuel, 0nat, 0nat,
    {
        proof {
            crate::abi::lemma_view_types_index(abi.types.types@);
            if (a.abi_type as int) < abi.types.types@.len() {
                assert(abi.types_v()[a.abi_type as int] == abi.types.types@[a.abi_type as int]@);
            }
        }
        if fuel == 0 {
            Err(Error::NestingTooDeep)
        } else if a.sbi_type == UNDEFINED {
            match self.read_u8() {
                Err(e) => Err(e),
                Ok(m) => self.read_value_tag_fuel(m, abi, fuel - 1),
            }
        } else if a.sbi_type == ENUM {
            if (a.abi_type as usize) >= abi.types.types.len() {
                return Err(Error::UnknownTypeId(a.abi_type));
            }
            let et = &abi.types.types[a.abi_type as usize];
            if (et.mapped_abi_type_offset as usize) >= abi.types.types.len() {
                return Err(Error::UnknownTypeId(et.mapped_abi_type_offset));
            }
            match self.read_vu32() {
                Err(e) => Err(e),
                Ok(off) => {
                    match &et.attrs {
                        None => Err(Error::EnumWithoutAttrs(et.name)),
                        Some(eats) => {
                            if (off as usize) >= eats.len() {
                                Err(Error::EnumOffsetOutOfRange(off))
                            } else {
                                Ok(
                                    Value::Enum(
                                        GcEnum {
                                            ty: et.mapped_abi_type_offset,
                                            offset: eats[off as usize].mapped_att_offset,
                                            key: eats[off as usize].name,
                                        },
                                    ),
                                )
                            }
                        },
                    }
                },
            }
        } else if a.sbi_type == OBJECT {
            if (a.abi_type as usize) >= abi.types.types.len() {
                return Err(Error::UnknownTypeId(a.abi_type));
            }
            if abi.types.types[a.abi_type as usize].is_abstract {
                match self.read_vu32() {
                    Err(e) => Err(e),
                    Ok(ct) => self.read_typed_object_fuel(ct, abi, fuel - 1),
                }
            } else {
                self.read_typed_object_fuel(a.abi_type, abi, fuel - 1)
            }
        } else {
            self.read_value_tag_fuel(a.sbi_type, abi, fuel - 1)
        }
    }

    /// Reads `count` tagged array elements, appending them to `out`.
    fn read_items_fuel(
        &mut self,
        count: u32,
        out: &mut Vec<Value>,
        abi: &Abi,
        fuel: u64,
    ) -> (r: Result<(), Error>)
        requires
            old(self).wf(),
        ensures
            final(self).wf(),
            final(self).data() == old(self).data(),
            match dec_items(
                count as int,
                old(self).data(),
                old(self).position(),
                *abi,
                fuel as nat,
            ) {
                Ok((items, q)) => {
                    &&& r is Ok
                    &&& view_values(final(out)@) == view_values(old(out)@) + items
                    &&& final(self).position() == q
                },
                Err(e) => r == Err::<(), Error>(e),
            },
        decreases fuel, 0nat, count,
    {
        if count == 0 {
            assert(view_values(out@) =~= view_values(out@) + Seq::<crate::value::ValueV>::empty());
            return Ok(());
        }
        if fuel == 0 {
            return Err(Error::NestingTooDeep);
        }
        match self.read_value_fuel(abi, fuel - 1) {
            Err(e) => Err(e),
            Ok(v) => {
                proof {
                    lemma_view_values_push(out@, v);
                }
                let ghost mid = out@.push(v);
                out.push(v);
                match self.read_items_fuel(count - 1, out, abi, fuel) {
                    Err(e) => Err(e),
                    Ok(_) => {
                        proof {
                            let (items, q) = dec_items(
                                count as int,
                                old(self).data(),
                                old(self).position(),
                                *abi,
                                fuel as nat,
                            )->Ok_0;
                            assert(view_values(final(out)@) =~= view_values(old(out)@) + items);
                        }
                        Ok(())
                    },
                }
            },
        }
    }

    /// Reads `count` tagged key/value pairs, appending them to `out`.
    fn read_dict_pairs_fuel(
        &mut self,
        count: u32,
        out: &mut Vec<(Value, Value)>,
        abi: &Abi,
        fuel: u64,
    ) -> (r: Result<(), Error>)
        requires
            old(self).wf(),
        ensures
            final(self).wf(),
            final(self).data() == old(self).data(),
            match dec_dict_pairs(
                count as int,
                old(self).data(),
                old(self).position(),
                *abi,
                fuel as nat,
            ) {
                Ok((pairs, q)) => {
                    &&& r is Ok
                    &&& view_pairs(final(out)@) == view_pairs(old(out)@) + pairs
                    &&& final(self).position() == q
                },
                Err(e) => r == Err::<(), Error>(e),
            },
        decreases fuel, 0nat, count,
    {
        if count == 0 {
            assert(view_pairs(out@) =~= view_pairs(out@) + Seq::<
                (crate::value::ValueV, crate::value::ValueV),
            >::empty());
            return Ok(());
        }
        if fuel == 0 {
            return Err(Error::NestingTooDeep);
        }
        match self.read_value_fuel(abi, fuel - 1) {
            Err(e) => Err(e),
            Ok(k) => {
                match self.read_value_fuel(abi, fuel - 1) {
                    Err(e) => Err(e),
                    Ok(v) => {
                        proof {
                            lemma_view_pairs_push(out@, (k, v));
                        }
                        out.push((k, v));
                        match self.read_dict_pairs_fuel(count - 1, out, abi, fuel) {
                            Err(e) => Err(e),
                            Ok(_) => {
                                proof {
                                    let (pairs, q) = dec_dict_pairs(
                                        count as int,
                                        old(self).data(),
                                        old(self).position(),
                                        *abi,
                                        fuel as nat,
                                    )->Ok_0;
                                    assert(view_pairs(final(out)@) =~= view_pairs(old(out)@)
                                        + pairs);
                                }
                                Ok(())
                            },
                        }
                    },
                }
            },
        }
    }
}

} // verus!
