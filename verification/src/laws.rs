//! The laws of the codec, proved once and for all:
//!
//! * encoding a value built against an ABI always succeeds
//!   ([`lemma_wf_encodes`]);
//! * decoding an encoding yields the value back, wherever the encoding sits
//!   in a buffer and whatever follows it ([`lemma_value_round_trip`]);
//! * the nullable bitset law and the fate of non-mapped attributes follow
//!   as corollaries at the end of this module.

use vstd::prelude::*;

use crate::abi::{count_nullable, spec_nullable_bytes, type_wf, Abi, AbiAttr};
use crate::error::Error;
use crate::primitive::{
    BOOL, CHAR, DURATION, ENUM, FLOAT, FN, GEO, INT, NODE, NODE_GEO, NODE_INDEX, NODE_LIST,
    NODE_TIME, NULL, OBJECT, STR_LIT, TIME, UNDEFINED,
};
use crate::value::{null_values, vheight, vheight_items, vheight_pairs, ValueV};
use crate::wire::{
    bit_of, core_distinct, dec_attr_value, dec_attrs, dec_dict_pairs, dec_items, dec_string,
    dec_typed_object, dec_value, enc_attr, enc_attrs, enc_bitset, enc_dict_pairs, enc_items,
    enc_obj_raw, enc_value, enc_value_raw, set_bit, spec_symbol_id, sym_lookup, wf_attr_value,
    wf_dict_pairs, wf_items, wf_obj_slots, wf_value, zero_bytes,
};

verus! {

// ---------------------------------------------------------------------------
// Encoding a well-formed value succeeds
// ---------------------------------------------------------------------------
/// `count_nullable` grows by at most one per attribute and never shrinks.
pub proof fn lemma_count_nullable_take(attrs: Seq<AbiAttr>, j: int)
    requires
        0 <= j < attrs.len(),
    ensures
        count_nullable(attrs.take(j + 1)) == count_nullable(attrs.take(j)) + if attrs[j].nullable {
            1int
        } else {
            0int
        },
{
    assert(attrs.take(j + 1).drop_last() =~= attrs.take(j));
    assert(attrs.take(j + 1).last() == attrs[j]);
}

/// The nullable count of any attribute list is non-negative.
pub proof fn lemma_count_nullable_nonneg(attrs: Seq<AbiAttr>)
    ensures
        0 <= count_nullable(attrs),
    decreases attrs,
{
    if attrs.len() > 0 {
        lemma_count_nullable_nonneg(attrs.drop_last());
    }
}

/// The nullable count of a prefix is non-negative and at most the whole.
pub proof fn lemma_count_nullable_bounds(attrs: Seq<AbiAttr>, j: int)
    requires
        0 <= j <= attrs.len(),
    ensures
        0 <= count_nullable(attrs.take(j)) <= count_nullable(attrs),
        j == attrs.len() ==> count_nullable(attrs.take(j)) == count_nullable(attrs),
    decreases attrs.len() - j,
{
    lemma_count_nullable_nonneg(attrs.take(j));
    if j == attrs.len() {
        assert(attrs.take(j) =~= attrs);
    } else {
        lemma_count_nullable_take(attrs, j);
        lemma_count_nullable_bounds(attrs, j + 1);
    }
}

/// Building the bitset succeeds whenever the bitset is big enough for the
/// nullable attributes, and keeps its length.
pub proof fn lemma_enc_bitset_ok(attrs: Seq<AbiAttr>, vs: Seq<ValueV>, i: int, bs: Seq<u8>)
    requires
        0 <= i <= attrs.len(),
        count_nullable(attrs) <= 8 * bs.len(),
    ensures
        enc_bitset(attrs, vs, i, count_nullable(attrs.take(i)), bs) is Ok,
        enc_bitset(attrs, vs, i, count_nullable(attrs.take(i)), bs)->Ok_0.len() == bs.len(),
    decreases attrs.len() - i,
{
    let rank = count_nullable(attrs.take(i));
    lemma_count_nullable_bounds(attrs, i);
    if i >= attrs.len() || i >= vs.len() {
    } else if attrs[i].nullable {
        lemma_count_nullable_take(attrs, i);
        assert(count_nullable(attrs.take(i + 1)) == rank + 1);
        assert(rank + 1 <= count_nullable(attrs)) by {
            lemma_count_nullable_bounds(attrs, i + 1);
        }
        assert(rank / 8 < bs.len());
        lemma_enc_bitset_ok(attrs, vs, i + 1, set_bit(bs, rank, !(vs[i] is Null)));
    } else {
        lemma_count_nullable_take(attrs, i);
        lemma_enc_bitset_ok(attrs, vs, i + 1, bs);
    }
}

/// A value built against the ABI always encodes, tagged or raw.
pub proof fn lemma_wf_encodes(v: ValueV, abi: Abi)
    requires
        abi.wf(),
        wf_value(v, abi),
    ensures
        enc_value(v, abi) is Ok,
        enc_value_raw(v, abi) is Ok,
    decreases v, 2int, 2int,
{
    lemma_wf_encodes_raw(v, abi);
}

/// The raw form of a value built against the ABI always encodes.
pub proof fn lemma_wf_encodes_raw(v: ValueV, abi: Abi)
    requires
        abi.wf(),
        wf_value(v, abi),
    ensures
        enc_value_raw(v, abi) is Ok,
    decreases v, 2int, 1int,
{
    match v {
        ValueV::Array(items) => {
            lemma_wf_encodes_items(items, abi, 0);
        },
        ValueV::Dict(pairs) => {
            lemma_wf_encodes_pairs(pairs, abi, 0);
        },
        ValueV::Obj(tid, vals) => {
            let t = abi.types_v()[tid as int];
            assert(type_wf(t, abi.types_v().len() as int));
            match (t.attrs, vals) {
                (Some(ats), Some(vs)) => {
                    if t.nullable_nb_bytes > 0 {
                        assert(count_nullable(ats.take(0)) == 0) by {
                            assert(ats.take(0) =~= Seq::<AbiAttr>::empty());
                        }
                        assert(count_nullable(ats) <= 8 * zero_bytes(
                            t.nullable_nb_bytes as nat,
                        ).len()) by {
                            lemma_count_nullable_bounds(ats, ats.len() as int);
                        }
                        lemma_enc_bitset_ok(ats, vs, 0, zero_bytes(t.nullable_nb_bytes as nat));
                    }
                    lemma_wf_encodes_attrs(ats, vs, t.name, abi, 0);
                },
                _ => {},
            }
        },
        _ => {},
    }
}

/// Every element of a well-formed array encodes, so their concatenation
/// does.
pub proof fn lemma_wf_encodes_items(items: Seq<ValueV>, abi: Abi, i: int)
    requires
        abi.wf(),
        wf_items(items, abi),
        0 <= i <= items.len(),
    ensures
        enc_items(items, abi, i) is Ok,
    decreases items, items.len() - i, 2int,
{
    if i < items.len() {
        lemma_wf_encodes(items[i], abi);
        lemma_wf_encodes_items(items, abi, i + 1);
    }
}

/// Every pair of a well-formed map encodes, so their concatenation does.
pub proof fn lemma_wf_encodes_pairs(pairs: Seq<(ValueV, ValueV)>, abi: Abi, i: int)
    requires
        abi.wf(),
        wf_dict_pairs(pairs, abi),
        0 <= i <= pairs.len(),
    ensures
        enc_dict_pairs(pairs, abi, i) is Ok,
    decreases pairs, pairs.len() - i, 2int,
{
    if i < pairs.len() {
        lemma_wf_encodes(pairs[i].0, abi);
        lemma_wf_encodes(pairs[i].1, abi);
        lemma_wf_encodes_pairs(pairs, abi, i + 1);
    }
}

/// Every attribute body of a well-formed object encodes.
pub proof fn lemma_wf_encodes_attrs(
    ats: Seq<AbiAttr>,
    vs: Seq<ValueV>,
    tname: u32,
    abi: Abi,
    i: int,
)
    requires
        abi.wf(),
        wf_obj_slots(ats, vs, abi, i),
        0 <= i <= ats.len(),
    ensures
        enc_attrs(ats, vs, tname, abi, i) is Ok,
    decreases vs, ats.len() - i, 4int,
{
    if i < ats.len() && i < vs.len() {
        lemma_wf_encodes_attr(ats[i], vs[i], tname, abi);
        lemma_wf_encodes_attrs(ats, vs, tname, abi, i + 1);
    }
}

/// The body of one well-formed attribute encodes.
#[verifier::rlimit(100)]
#[verifier::spinoff_prover]
pub proof fn lemma_wf_encodes_attr(a: AbiAttr, v: ValueV, tname: u32, abi: Abi)
    requires
        abi.wf(),
        wf_attr_value(a, v, abi),
    ensures
        enc_attr(a, v, tname, abi) is Ok,
    decreases v, 2int, 3int,
{
    if a.nullable && v is Null {
    } else if a.sbi_type == UNDEFINED {
        lemma_wf_encodes(v, abi);
    } else if a.sbi_type == OBJECT {
        let at = abi.types_v()[a.abi_type as int];
        if at.is_abstract {
            lemma_wf_encodes_raw(v, abi);
        } else if a.abi_type == abi.core_ids().string || a.abi_type == abi.core_ids().array
            || a.abi_type == abi.core_ids().map {
            lemma_wf_encodes_raw(v, abi);
        } else {
            lemma_wf_encodes_raw(v, abi);
        }
    } else if a.sbi_type == BOOL || a.sbi_type == CHAR || a.sbi_type == INT || a.sbi_type == FLOAT
        || a.sbi_type == NULL || a.sbi_type == STR_LIT || a.sbi_type == ENUM {
        if a.sbi_type == STR_LIT {
            match v {
                ValueV::Symbol(id) => {
                    assert(enc_value_raw(v, abi) is Ok);
                },
                _ => {},
            }
        }
    } else {
        // The remaining static tags are the fixed-width primitives, whose
        // raw form always encodes.
        match v {
            ValueV::Node(_) => {},
            ValueV::NodeTime(_) => {},
            ValueV::NodeIndex(_) => {},
            ValueV::NodeList(_) => {},
            ValueV::NodeGeo(_) => {},
            ValueV::Geo(_) => {},
            ValueV::Time(_) => {},
            ValueV::Duration(_) => {},
            _ => {},
        }
    }
}

// ---------------------------------------------------------------------------
// Round trip: decoding an encoding gives the value back
// ---------------------------------------------------------------------------
/// The bytes `e` sit in `b` at position `p`.
pub open spec fn placed(b: Seq<u8>, p: int, e: Seq<u8>) -> bool {
    &&& 0 <= p
    &&& p + e.len() <= b.len()
    &&& b.subrange(p, p + e.len() as int) == e
}

/// Two byte strings placed back to back are each placed.
pub proof fn lemma_concat_placed(b: Seq<u8>, p: int, e1: Seq<u8>, e2: Seq<u8>)
    requires
        placed(b, p, e1 + e2),
    ensures
        placed(b, p, e1),
        placed(b, p + e1.len(), e2),
{
    assert(b.subrange(p, p + e1.len() as int) =~= e1) by {
        assert forall|k: int| 0 <= k < e1.len() implies b.subrange(p, p + e1.len() as int)[k] == e1[
            k
        ] by {
            assert(b.subrange(p, p + (e1 + e2).len() as int)[k] == (e1 + e2)[k]);
        }
    }
    assert(b.subrange(p + e1.len(), p + e1.len() + e2.len() as int) =~= e2) by {
        assert forall|k: int|
            0 <= k < e2.len() implies b.subrange(
            p + e1.len(),
            p + e1.len() + e2.len() as int,
        )[k] == e2[k] by {
            assert(b.subrange(p, p + (e1 + e2).len() as int)[k + e1.len()] == (e1 + e2)[k
                + e1.len()]);
        }
    }
}

/// Setting one bit leaves every other bit alone and makes that bit `on`.
pub proof fn lemma_bit_set_get(bs: Seq<u8>, k: int, k2: int, on: bool)
    requires
        0 <= k,
        0 <= k2,
        k / 8 < bs.len(),
        k2 / 8 < bs.len(),
    ensures
        bit_of(set_bit(bs, k, on), k2) == if k2 == k {
            on
        } else {
            bit_of(bs, k2)
        },
{
    let bv = bs[k / 8] as u32;
    let p = (k % 8) as u32;
    let p2 = (k2 % 8) as u32;
    if k2 / 8 == k / 8 {
        if k2 == k {
            if on {
                assert(((((bv | (1u32 << p)) as u8) as u32) >> p) & 1 == 1) by (bit_vector)
                    requires
                        bv < 256,
                        p < 8,
                ;
            } else {
                assert(((((bv & (0xffu32 ^ (1u32 << p))) as u8) as u32) >> p) & 1 != 1)
                    by (bit_vector)
                    requires
                        bv < 256,
                        p < 8,
                ;
            }
        } else {
            assert(p2 != p) by (nonlinear_arith)
                requires
                    k2 / 8 == k / 8,
                    k2 != k,
                    0 <= k,
                    0 <= k2,
                    p == (k % 8) as u32,
                    p2 == (k2 % 8) as u32,
            ;
            if on {
                assert((((((bv | (1u32 << p)) as u8) as u32) >> p2) & 1 == 1) == ((bv >> p2) & 1
                    == 1)) by (bit_vector)
                    requires
                        bv < 256,
                        p < 8,
                        p2 < 8,
                        p2 != p,
                ;
            } else {
                assert((((((bv & (0xffu32 ^ (1u32 << p))) as u8) as u32) >> p2) & 1 == 1) == ((bv
                    >> p2) & 1 == 1)) by (bit_vector)
                    requires
                        bv < 256,
                        p < 8,
                        p2 < 8,
                        p2 != p,
                ;
            }
        }
    }
}

/// Every bit of an all-zero bitset is clear.
pub proof fn lemma_bit_zero(n: nat, k: int)
    requires
        0 <= k,
        k / 8 < n,
    ensures
        !bit_of(zero_bytes(n), k),
{
    let p = (k % 8) as u32;
    assert(((0u32 >> p) & 1) != 1) by (bit_vector);
}

/// The bitset the encoder builds carries, for every nullable attribute, a
/// bit that says whether its value is present, at that attribute's rank.
#[verifier::rlimit(100)]
#[verifier::spinoff_prover]
pub proof fn lemma_enc_bitset_bits(attrs: Seq<AbiAttr>, vs: Seq<ValueV>, i: int, bs: Seq<u8>)
    requires
        0 <= i <= attrs.len(),
        count_nullable(attrs) <= 8 * bs.len(),
    ensures
        ({
            let rank = count_nullable(attrs.take(i));
            let res = enc_bitset(attrs, vs, i, rank, bs)->Ok_0;
            &&& enc_bitset(attrs, vs, i, rank, bs) is Ok
            &&& res.len() == bs.len()
            &&& forall|k: int| 0 <= k < rank ==> bit_of(res, k) == bit_of(bs, k)
            &&& forall|j: int|
                i <= j < attrs.len() && j < vs.len() && attrs[j].nullable ==> bit_of(
                    res,
                    count_nullable(attrs.take(j)),
                ) == !(vs[j] is Null)
        }),
    decreases attrs.len() - i,
{
    let rank = count_nullable(attrs.take(i));
    lemma_count_nullable_bounds(attrs, i);
    if i >= attrs.len() || i >= vs.len() {
    } else if attrs[i].nullable {
        lemma_count_nullable_take(attrs, i);
        lemma_count_nullable_bounds(attrs, i + 1);
        let on = !(vs[i] is Null);
        let bs2 = set_bit(bs, rank, on);
        assert(bs2.len() == bs.len());
        lemma_enc_bitset_bits(attrs, vs, i + 1, bs2);
        let res = enc_bitset(attrs, vs, i + 1, rank + 1, bs2)->Ok_0;
        assert forall|k: int| 0 <= k < rank implies bit_of(res, k) == bit_of(bs, k) by {
            lemma_count_nullable_nonneg(attrs);
            lemma_bit_set_get(bs, rank, k, on);
        }
        assert(bit_of(res, rank) == on) by {
            lemma_bit_set_get(bs, rank, rank, on);
        }
        assert forall|j: int|
            i <= j < attrs.len() && j < vs.len() && attrs[j].nullable implies bit_of(
            enc_bitset(attrs, vs, i, rank, bs)->Ok_0,
            count_nullable(attrs.take(j)),
        ) == !(vs[j] is Null) by {
            if j == i {
            } else {
                lemma_count_nullable_bounds(attrs, j);
            }
        }
    } else {
        lemma_count_nullable_take(attrs, i);
        lemma_enc_bitset_bits(attrs, vs, i + 1, bs);
    }
}

/// The height of a sequence bounds the height of each element.
pub proof fn lemma_vheight_items_ge(items: Seq<ValueV>, j: int)
    requires
        0 <= j < items.len(),
    ensures
        vheight_items(items) >= vheight(items[j]),
    decreases items,
{
    if j == 0 {
    } else {
        lemma_vheight_items_ge(items.drop_first(), j - 1);
    }
}

/// The height of a pair sequence bounds the height of each component.
pub proof fn lemma_vheight_pairs_ge(pairs: Seq<(ValueV, ValueV)>, j: int)
    requires
        0 <= j < pairs.len(),
    ensures
        vheight_pairs(pairs) >= vheight(pairs[j].0),
        vheight_pairs(pairs) >= vheight(pairs[j].1),
    decreases pairs,
{
    if j == 0 {
    } else {
        lemma_vheight_pairs_ge(pairs.drop_first(), j - 1);
    }
}

/// Round trip of a string body: the raw probe form decodes back through
/// `dec_string` to the same string or symbol.
#[verifier::rlimit(100)]
#[verifier::spinoff_prover]
pub proof fn lemma_rt_string(v: ValueV, b: Seq<u8>, p: int, abi: Abi)
    requires
        abi.wf(),
        wf_value(v, abi),
        v is Str || v is Symbol,
        enc_value_raw(v, abi) is Ok,
        placed(b, p, enc_value_raw(v, abi)->Ok_0),
    ensures
        dec_string(b, p, abi) == Ok::<(ValueV, int), Error>(
            (v, p + enc_value_raw(v, abi)->Ok_0.len()),
        ),
{
    match v {
        ValueV::Symbol(id) => {
            let e = crate::varint::enc_vu32((2 * id + 1) as u32);
            crate::varint::lemma_vu32_round_trip(b, p, (2 * id + 1) as u32);
        },
        ValueV::Str(s) => {
            let bytes = vstd::utf8::encode_utf8(s);
            let e1 = crate::varint::enc_vu32((2 * bytes.len()) as u32);
            lemma_concat_placed(b, p, e1, bytes);
            crate::varint::lemma_vu32_round_trip(b, p, (2 * bytes.len()) as u32);
            vstd::utf8::encode_utf8_valid_utf8(s);
            vstd::utf8::encode_utf8_decode_utf8(s);
            assert(b.subrange(p + e1.len(), p + e1.len() + bytes.len() as int) == bytes);
        },
        _ => {},
    }
}

/// Round trip of one tagged value: wherever its encoding sits, decoding
/// there with a budget covering the value's height gives the value back and
/// stops right after it.
#[verifier::rlimit(100)]
#[verifier::spinoff_prover]
pub proof fn lemma_rt_value(v: ValueV, b: Seq<u8>, p: int, abi: Abi, fuel: nat)
    requires
        abi.wf(),
        core_distinct(abi),
        wf_value(v, abi),
        enc_value(v, abi) is Ok,
        placed(b, p, enc_value(v, abi)->Ok_0),
        fuel >= vheight(v),
    ensures
        dec_value(b, p, abi, fuel) == Ok::<(ValueV, int), Error>(
            (v, p + enc_value(v, abi)->Ok_0.len()),
        ),
    decreases v, 0int, 3int,
{
    let e = enc_value(v, abi)->Ok_0;
    assert(b[p] == b.subrange(p, p + e.len() as int)[0]);
    match v {
        ValueV::Null => {},
        ValueV::Int(n) => {
            lemma_concat_placed(b, p, seq![INT], crate::varint::enc_vi64(n));
            crate::varint::lemma_vi64_round_trip(b, p + 1, n);
        },
        ValueV::Float(bits) => {
            lemma_concat_placed(b, p, seq![FLOAT], crate::reader::enc_le(bits as nat, 8));
            assert(crate::reader::pow256(8) == 0x10000000000000000) by {
                reveal_with_fuel(crate::reader::pow256, 9);
            }
            crate::reader::lemma_enc_le_len(bits as nat, 8);
            crate::reader::lemma_le_round_trip(b, p + 1, bits as nat, 8);
        },
        ValueV::Char(c) => {
            assert(b[p + 1] == b.subrange(p, p + e.len() as int)[1]);
        },
        ValueV::Bool(x) => {
            assert(b[p + 1] == b.subrange(p, p + e.len() as int)[1]);
        },
        ValueV::Node(n) => {
            lemma_concat_placed(b, p, seq![NODE], crate::varint::enc_vu64(n));
            crate::varint::lemma_vu64_round_trip(b, p + 1, n);
        },
        ValueV::NodeTime(n) => {
            lemma_concat_placed(b, p, seq![NODE_TIME], crate::varint::enc_vu64(n));
            crate::varint::lemma_vu64_round_trip(b, p + 1, n);
        },
        ValueV::NodeIndex(n) => {
            lemma_concat_placed(b, p, seq![NODE_INDEX], crate::varint::enc_vu64(n));
            crate::varint::lemma_vu64_round_trip(b, p + 1, n);
        },
        ValueV::NodeList(n) => {
            lemma_concat_placed(b, p, seq![NODE_LIST], crate::varint::enc_vu64(n));
            crate::varint::lemma_vu64_round_trip(b, p + 1, n);
        },
        ValueV::NodeGeo(n) => {
            lemma_concat_placed(b, p, seq![NODE_GEO], crate::varint::enc_vu64(n));
            crate::varint::lemma_vu64_round_trip(b, p + 1, n);
        },
        ValueV::Geo(n) => {
            lemma_concat_placed(b, p, seq![GEO], crate::varint::enc_vu64(n));
            crate::varint::lemma_vu64_round_trip(b, p + 1, n);
        },
        ValueV::Time(n) => {
            lemma_concat_placed(b, p, seq![TIME], crate::varint::enc_vi64(n));
            crate::varint::lemma_vi64_round_trip(b, p + 1, n);
        },
        ValueV::Duration(n) => {
            lemma_concat_placed(b, p, seq![DURATION], crate::varint::enc_vi64(n));
            crate::varint::lemma_vi64_round_trip(b, p + 1, n);
        },
        ValueV::Symbol(id) => {
            lemma_concat_placed(b, p, seq![STR_LIT], crate::varint::enc_vu32((2 * id + 1) as u32));
            crate::varint::lemma_vu32_round_trip(b, p + 1, (2 * id + 1) as u32);
        },
        ValueV::Str(s) => {
            let body = enc_value_raw(v, abi)->Ok_0;
            let idbytes = crate::varint::enc_vu32(abi.core_ids().string);
            assert(seq![OBJECT] + (idbytes + body) =~= e);
            lemma_concat_placed(b, p, seq![OBJECT], idbytes + body);
            lemma_concat_placed(b, p + 1, idbytes, body);
            crate::varint::lemma_vu32_round_trip(b, p + 1, abi.core_ids().string);
            lemma_rt_string(v, b, p + 1 + idbytes.len(), abi);
        },
        ValueV::Array(items) => {
            let body = enc_value_raw(v, abi)->Ok_0;
            let idbytes = crate::varint::enc_vu32(abi.core_ids().array);
            assert(seq![OBJECT] + (idbytes + body) =~= e);
            lemma_concat_placed(b, p, seq![OBJECT], idbytes + body);
            lemma_concat_placed(b, p + 1, idbytes, body);
            crate::varint::lemma_vu32_round_trip(b, p + 1, abi.core_ids().array);
            let q = p + 1 + idbytes.len();
            let cbytes = crate::varint::enc_vu32(items.len() as u32);
            let ibytes = enc_items(items, abi, 0)->Ok_0;
            lemma_concat_placed(b, q, cbytes, ibytes);
            crate::varint::lemma_vu32_round_trip(b, q, items.len() as u32);
            lemma_rt_items(items, 0, b, q + cbytes.len(), abi, fuel);
            assert(items.subrange(0, items.len() as int) =~= items);
        },
        ValueV::Dict(pairs) => {
            let body = enc_value_raw(v, abi)->Ok_0;
            let idbytes = crate::varint::enc_vu32(abi.core_ids().map);
            assert(seq![OBJECT] + (idbytes + body) =~= e);
            lemma_concat_placed(b, p, seq![OBJECT], idbytes + body);
            lemma_concat_placed(b, p + 1, idbytes, body);
            crate::varint::lemma_vu32_round_trip(b, p + 1, abi.core_ids().map);
            let q = p + 1 + idbytes.len();
            let cbytes = crate::varint::enc_vu32(pairs.len() as u32);
            let pbytes = enc_dict_pairs(pairs, abi, 0)->Ok_0;
            lemma_concat_placed(b, q, cbytes, pbytes);
            crate::varint::lemma_vu32_round_trip(b, q, pairs.len() as u32);
            lemma_rt_pairs(pairs, 0, b, q + cbytes.len(), abi, fuel);
            assert(pairs.subrange(0, pairs.len() as int) =~= pairs);
        },
        ValueV::Enum(tid, off, key) => {
            let idbytes = crate::varint::enc_vu32(
                abi.types_v()[tid as int].mapped_abi_type_offset,
            );
            let obytes = crate::varint::enc_vu32(off);
            assert(seq![ENUM] + (idbytes + obytes) =~= e);
            lemma_concat_placed(b, p, seq![ENUM], idbytes + obytes);
            lemma_concat_placed(b, p + 1, idbytes, obytes);
            crate::varint::lemma_vu32_round_trip(
                b,
                p + 1,
                abi.types_v()[tid as int].mapped_abi_type_offset,
            );
            crate::varint::lemma_vu32_round_trip(b, p + 1 + idbytes.len(), off);
        },
        ValueV::Obj(tid, vals) => {
            let body = enc_value_raw(v, abi)->Ok_0;
            let idbytes = crate::varint::enc_vu32(
                abi.types_v()[tid as int].mapped_abi_type_offset,
            );
            assert(seq![OBJECT] + (idbytes + body) =~= e);
            lemma_concat_placed(b, p, seq![OBJECT], idbytes + body);
            lemma_concat_placed(b, p + 1, idbytes, body);
            crate::varint::lemma_vu32_round_trip(
                b,
                p + 1,
                abi.types_v()[tid as int].mapped_abi_type_offset,
            );
            lemma_rt_obj_body(tid, vals, b, p + 1 + idbytes.len(), abi, fuel);
        },
    }
}

/// Round trip of an object body against its own type.
#[verifier::rlimit(100)]
#[verifier::spinoff_prover]
pub proof fn lemma_rt_obj_body(
    tid: u32,
    vals: Option<Seq<ValueV>>,
    b: Seq<u8>,
    p: int,
    abi: Abi,
    fuel: nat,
)
    requires
        abi.wf(),
        core_distinct(abi),
        wf_value(ValueV::Obj(tid, vals), abi),
        enc_obj_raw(tid, vals, abi) is Ok,
        placed(b, p, enc_obj_raw(tid, vals, abi)->Ok_0),
        fuel >= vheight(ValueV::Obj(tid, vals)),
    ensures
        dec_typed_object(tid, b, p, abi, fuel) == Ok::<(ValueV, int), Error>(
            (ValueV::Obj(tid, vals), p + enc_obj_raw(tid, vals, abi)->Ok_0.len()),
        ),
    decreases vals, 0int, 2int,
{
    let t = abi.types_v()[tid as int];
    assert(type_wf(t, abi.types_v().len() as int));
    match (t.attrs, vals) {
        (None, None) => {},
        (Some(ats), Some(vs)) => {
            let bits = if t.nullable_nb_bytes > 0 {
                enc_bitset(ats, vs, 0, 0, zero_bytes(t.nullable_nb_bytes as nat))->Ok_0
            } else {
                Seq::<u8>::empty()
            };
            let body = enc_attrs(ats, vs, t.name, abi, 0)->Ok_0;
            assert(count_nullable(ats.take(0)) == 0) by {
                assert(ats.take(0) =~= Seq::<AbiAttr>::empty());
            }
            lemma_count_nullable_bounds(ats, ats.len() as int);
            if t.nullable_nb_bytes > 0 {
                lemma_enc_bitset_bits(ats, vs, 0, zero_bytes(t.nullable_nb_bytes as nat));
            } else {
                // With no bitset bytes there is no nullable attribute at all.
                assert(spec_nullable_bytes(ats) == 0);
                lemma_count_nullable_nonneg(ats);
            }
            assert(bits.len() == t.nullable_nb_bytes);
            lemma_concat_placed(b, p, bits, body);
            assert(b.subrange(p, p + t.nullable_nb_bytes) == bits);
            let q = p + t.nullable_nb_bytes;
            assert forall|j: int|
                0 <= j < ats.len() && j < vs.len() && ats[j].nullable implies bit_of(
                bits,
                count_nullable(ats.take(j)),
            ) == !(vs[j] is Null) by {
                if t.nullable_nb_bytes > 0 {
                } else {
                    lemma_count_nullable_take(ats, j);
                    lemma_count_nullable_bounds(ats, j);
                    lemma_count_nullable_bounds(ats, j + 1);
                }
            }
            lemma_rt_attrs(ats, vs, 0, bits, null_values(vs.len()), t.name, b, q, abi, fuel);
            let s2 = dec_attrs(
                ats,
                0,
                0,
                bits,
                null_values(vs.len()),
                b,
                q,
                abi,
                fuel,
            )->Ok_0.0;
            assert(s2 =~= vs);
        },
        _ => {},
    }
}

/// Round trip of the attribute walk from index `i`: the slots come back
/// exactly as the values, and the position lands right after the bodies.
#[verifier::rlimit(100)]
#[verifier::spinoff_prover]
pub proof fn lemma_rt_attrs(
    ats: Seq<AbiAttr>,
    vs: Seq<ValueV>,
    i: int,
    bits: Seq<u8>,
    slots: Seq<ValueV>,
    tname: u32,
    b: Seq<u8>,
    p: int,
    abi: Abi,
    fuel: nat,
)
    requires
        abi.wf(),
        core_distinct(abi),
        wf_obj_slots(ats, vs, abi, i),
        vs.len() == ats.len(),
        slots.len() == ats.len(),
        0 <= i <= ats.len(),
        count_nullable(ats) <= 8 * bits.len(),
        forall|j: int|
            i <= j < ats.len() && ats[j].nullable ==> bit_of(
                bits,
                count_nullable(ats.take(j)),
            ) == !(vs[j] is Null),
        forall|k: int| 0 <= k < i ==> slots[k] == vs[k],
        forall|k: int| i <= k < ats.len() ==> slots[k] == ValueV::Null,
        enc_attrs(ats, vs, tname, abi, i) is Ok,
        placed(b, p, enc_attrs(ats, vs, tname, abi, i)->Ok_0),
        fuel >= 1 + vheight_items(vs),
    ensures
        ({
            let res = dec_attrs(ats, i, count_nullable(ats.take(i)), bits, slots, b, p, abi, fuel);
            &&& res is Ok
            &&& res->Ok_0.1 == p + enc_attrs(ats, vs, tname, abi, i)->Ok_0.len()
            &&& res->Ok_0.0.len() == slots.len()
            &&& forall|k: int| 0 <= k < ats.len() ==> res->Ok_0.0[k] == vs[k]
        }),
    decreases vs, ats.len() - i, 1int,
{
    let rank = count_nullable(ats.take(i));
    lemma_count_nullable_bounds(ats, i);
    if i >= ats.len() {
    } else {
        let a = ats[i];
        lemma_count_nullable_take(ats, i);
        lemma_count_nullable_bounds(ats, i + 1);
        let e1 = enc_attr(a, vs[i], tname, abi)->Ok_0;
        let e2 = enc_attrs(ats, vs, tname, abi, i + 1)->Ok_0;
        lemma_concat_placed(b, p, e1, e2);
        if a.nullable {
            assert(rank < count_nullable(ats));
            assert(rank / 8 < bits.len());
        }
        if a.nullable && vs[i] is Null {
            // Skipped on the wire: the bit is clear and the slot stays null.
            assert(!bit_of(bits, rank));
            assert(e1 =~= Seq::<u8>::empty());
            lemma_rt_attrs(ats, vs, i + 1, bits, slots, tname, b, p, abi, fuel);
        } else {
            assert(a.nullable ==> bit_of(bits, rank));
            lemma_vheight_items_ge(vs, i);
            lemma_rt_attr_value(a, vs[i], tname, b, p, abi, fuel);
            let q = p + e1.len();
            let slots2 = slots.update(i, vs[i]);
            assert(a.mapped && a.mapped_att_offset == i);
            lemma_rt_attrs(ats, vs, i + 1, bits, slots2, tname, b, q, abi, fuel);
        }
    }
}

/// Round trip of one attribute body, by the attribute's static type.
#[verifier::rlimit(100)]
#[verifier::spinoff_prover]
pub proof fn lemma_rt_attr_value(
    a: AbiAttr,
    v: ValueV,
    tname: u32,
    b: Seq<u8>,
    p: int,
    abi: Abi,
    fuel: nat,
)
    requires
        abi.wf(),
        core_distinct(abi),
        wf_attr_value(a, v, abi),
        !(a.nullable && v is Null),
        enc_attr(a, v, tname, abi) is Ok,
        placed(b, p, enc_attr(a, v, tname, abi)->Ok_0),
        fuel >= 1 + vheight(v),
    ensures
        dec_attr_value(a, b, p, abi, fuel) == Ok::<(ValueV, int), Error>(
            (v, p + enc_attr(a, v, tname, abi)->Ok_0.len()),
        ),
    decreases v, 0int, 4int,
{
    let e = enc_attr(a, v, tname, abi)->Ok_0;
    if a.sbi_type == UNDEFINED {
        lemma_wf_encodes(v, abi);
        lemma_rt_value(v, b, p, abi, (fuel - 1) as nat);
        assert(b[p] == b.subrange(p, p + e.len() as int)[0]);
    } else if a.sbi_type == ENUM {
        match v {
            ValueV::Enum(tid, off, key) => {
                crate::varint::lemma_vu32_round_trip(b, p, off);
                assert(type_wf(
                    abi.types_v()[a.abi_type as int],
                    abi.types_v().len() as int,
                ));
            },
            _ => {},
        }
    } else if a.sbi_type == OBJECT {
        let at = abi.types_v()[a.abi_type as int];
        if at.is_abstract {
            match v {
                ValueV::Obj(otid, vals) => {
                    let idbytes = crate::varint::enc_vu32(
                        abi.types_v()[otid as int].mapped_abi_type_offset,
                    );
                    let body = enc_value_raw(v, abi)->Ok_0;
                    lemma_concat_placed(b, p, idbytes, body);
                    crate::varint::lemma_vu32_round_trip(
                        b,
                        p,
                        abi.types_v()[otid as int].mapped_abi_type_offset,
                    );
                    lemma_rt_obj_body(otid, vals, b, p + idbytes.len(), abi, (fuel - 1) as nat);
                },
                _ => {},
            }
        } else if a.abi_type == abi.core_ids().string {
            lemma_rt_string(v, b, p, abi);
        } else if a.abi_type == abi.core_ids().array {
            match v {
                ValueV::Array(items) => {
                    let cbytes = crate::varint::enc_vu32(items.len() as u32);
                    let ibytes = enc_items(items, abi, 0)->Ok_0;
                    lemma_concat_placed(b, p, cbytes, ibytes);
                    crate::varint::lemma_vu32_round_trip(b, p, items.len() as u32);
                    lemma_rt_items(items, 0, b, p + cbytes.len(), abi, (fuel - 1) as nat);
                    assert(items.subrange(0, items.len() as int) =~= items);
                },
                _ => {},
            }
        } else if a.abi_type == abi.core_ids().map {
            match v {
                ValueV::Dict(pairs) => {
                    let cbytes = crate::varint::enc_vu32(pairs.len() as u32);
                    let pbytes = enc_dict_pairs(pairs, abi, 0)->Ok_0;
                    lemma_concat_placed(b, p, cbytes, pbytes);
                    crate::varint::lemma_vu32_round_trip(b, p, pairs.len() as u32);
                    lemma_rt_pairs(pairs, 0, b, p + cbytes.len(), abi, (fuel - 1) as nat);
                    assert(pairs.subrange(0, pairs.len() as int) =~= pairs);
                },
                _ => {},
            }
        } else {
            match v {
                ValueV::Obj(otid, vals) => {
                    lemma_rt_obj_body(otid, vals, b, p, abi, (fuel - 1) as nat);
                },
                _ => {},
            }
        }
    } else if a.sbi_type == NULL {
    } else if a.sbi_type == STR_LIT {
        match v {
            ValueV::Symbol(id) => {
                crate::varint::lemma_vu32_round_trip(b, p, (2 * id + 1) as u32);
            },
            _ => {},
        }
    } else if a.sbi_type == INT {
        match v {
            ValueV::Int(n) => {
                crate::varint::lemma_vi64_round_trip(b, p, n);
            },
            _ => {},
        }
    } else if a.sbi_type == FLOAT {
        match v {
            ValueV::Float(bits) => {
                assert(crate::reader::pow256(8) == 0x10000000000000000) by {
                    reveal_with_fuel(crate::reader::pow256, 9);
                }
                crate::reader::lemma_enc_le_len(bits as nat, 8);
                crate::reader::lemma_le_round_trip(b, p, bits as nat, 8);
            },
            _ => {},
        }
    } else if a.sbi_type == BOOL || a.sbi_type == CHAR {
        assert(b[p] == b.subrange(p, p + e.len() as int)[0]);
    } else if a.sbi_type == TIME {
        match v {
            ValueV::Time(n) => {
                crate::varint::lemma_vi64_round_trip(b, p, n);
            },
            _ => {},
        }
    } else if a.sbi_type == DURATION {
        match v {
            ValueV::Duration(n) => {
                crate::varint::lemma_vi64_round_trip(b, p, n);
            },
            _ => {},
        }
    } else if a.sbi_type == GEO {
        match v {
            ValueV::Geo(n) => {
                crate::varint::lemma_vu64_round_trip(b, p, n);
            },
            _ => {},
        }
    } else if a.sbi_type == NODE {
        match v {
            ValueV::Node(n) => {
                crate::varint::lemma_vu64_round_trip(b, p, n);
            },
            _ => {},
        }
    } else if a.sbi_type == NODE_TIME {
        match v {
            ValueV::NodeTime(n) => {
                crate::varint::lemma_vu64_round_trip(b, p, n);
            },
            _ => {},
        }
    } else if a.sbi_type == NODE_INDEX {
        match v {
            ValueV::NodeIndex(n) => {
                crate::varint::lemma_vu64_round_trip(b, p, n);
            },
            _ => {},
        }
    } else if a.sbi_type == NODE_LIST {
        match v {
            ValueV::NodeList(n) => {
                crate::varint::lemma_vu64_round_trip(b, p, n);
            },
            _ => {},
        }
    } else if a.sbi_type == NODE_GEO {
        match v {
            ValueV::NodeGeo(n) => {
                crate::varint::lemma_vu64_round_trip(b, p, n);
            },
            _ => {},
        }
    }
}

/// Round trip of the tagged array elements from index `i` on.
#[verifier::rlimit(100)]
#[verifier::spinoff_prover]
pub proof fn lemma_rt_items(
    items: Seq<ValueV>,
    i: int,
    b: Seq<u8>,
    p: int,
    abi: Abi,
    fuel: nat,
)
    requires
        abi.wf(),
        core_distinct(abi),
        wf_items(items, abi),
        0 <= i <= items.len(),
        enc_items(items, abi, i) is Ok,
        placed(b, p, enc_items(items, abi, i)->Ok_0),
        fuel >= 1 + vheight_items(items),
    ensures
        dec_items(items.len() - i, b, p, abi, fuel) == Ok::<(Seq<ValueV>, int), Error>(
            (items.subrange(i, items.len() as int), p + enc_items(items, abi, i)->Ok_0.len()),
        ),
    decreases items, items.len() - i, 2int,
{
    if i >= items.len() {
        assert(items.subrange(i, items.len() as int) =~= Seq::<ValueV>::empty());
    } else {
        let e1 = enc_value(items[i], abi)->Ok_0;
        let e2 = enc_items(items, abi, i + 1)->Ok_0;
        lemma_concat_placed(b, p, e1, e2);
        lemma_vheight_items_ge(items, i);
        lemma_rt_value(items[i], b, p, abi, (fuel - 1) as nat);
        lemma_rt_items(items, i + 1, b, p + e1.len(), abi, fuel);
        assert(seq![items[i]] + items.subrange(i + 1, items.len() as int) =~= items.subrange(
            i,
            items.len() as int,
        ));
    }
}

/// Round trip of the tagged map pairs from index `i` on.
#[verifier::rlimit(100)]
#[verifier::spinoff_prover]
pub proof fn lemma_rt_pairs(
    pairs: Seq<(ValueV, ValueV)>,
    i: int,
    b: Seq<u8>,
    p: int,
    abi: Abi,
    fuel: nat,
)
    requires
        abi.wf(),
        core_distinct(abi),
        wf_dict_pairs(pairs, abi),
        0 <= i <= pairs.len(),
        enc_dict_pairs(pairs, abi, i) is Ok,
        placed(b, p, enc_dict_pairs(pairs, abi, i)->Ok_0),
        fuel >= 1 + vheight_pairs(pairs),
    ensures
        dec_dict_pairs(pairs.len() - i, b, p, abi, fuel) == Ok::<
            (Seq<(ValueV, ValueV)>, int),
            Error,
        >((pairs.subrange(i, pairs.len() as int), p + enc_dict_pairs(pairs, abi, i)->Ok_0.len())),
    decreases pairs, pairs.len() - i, 2int,
{
    if i >= pairs.len() {
        assert(pairs.subrange(i, pairs.len() as int) =~= Seq::<(ValueV, ValueV)>::empty());
    } else {
        let ek = enc_value(pairs[i].0, abi)->Ok_0;
        let ev = enc_value(pairs[i].1, abi)->Ok_0;
        let e2 = enc_dict_pairs(pairs, abi, i + 1)->Ok_0;
        assert(ek + (ev + e2) =~= ek + ev + e2);
        lemma_concat_placed(b, p, ek, ev + e2);
        lemma_concat_placed(b, p + ek.len(), ev, e2);
        lemma_vheight_pairs_ge(pairs, i);
        lemma_rt_value(pairs[i].0, b, p, abi, (fuel - 1) as nat);
        lemma_rt_value(pairs[i].1, b, p + ek.len(), abi, (fuel - 1) as nat);
        lemma_rt_pairs(pairs, i + 1, b, p + ek.len() + ev.len(), abi, fuel);
        assert(seq![(pairs[i].0, pairs[i].1)] + pairs.subrange(i + 1, pairs.len() as int)
            =~= pairs.subrange(i, pairs.len() as int));
    }
}

/// The value round trip: for every value built against the ABI, decoding
/// its encoding gives the value back, wherever the encoding sits in a
/// buffer, with any recursion budget covering the value's height.
#[verifier::rlimit(100)]
#[verifier::spinoff_prover]
pub proof fn lemma_value_round_trip(v: ValueV, abi: Abi, b: Seq<u8>, p: int, fuel: nat)
    requires
        abi.wf(),
        core_distinct(abi),
        wf_value(v, abi),
        placed(b, p, enc_value(v, abi)->Ok_0),
        fuel >= vheight(v),
    ensures
        enc_value(v, abi) is Ok,
        dec_value(b, p, abi, fuel) == Ok::<(ValueV, int), Error>(
            (v, p + enc_value(v, abi)->Ok_0.len()),
        ),
{
    lemma_wf_encodes(v, abi);
    lemma_rt_value(v, b, p, abi, fuel);
}

/// The nullable bitset law: decoding an encoded object yields, for every
/// attribute slot, a null exactly where the original slot held a null.
#[verifier::rlimit(100)]
#[verifier::spinoff_prover]
pub proof fn lemma_nullable_bitset_law(
    tid: u32,
    vals: Seq<ValueV>,
    abi: Abi,
    b: Seq<u8>,
    p: int,
    fuel: nat,
)
    requires
        abi.wf(),
        core_distinct(abi),
        wf_value(ValueV::Obj(tid, Some(vals)), abi),
        placed(b, p, enc_obj_raw(tid, Some(vals), abi)->Ok_0),
        fuel >= vheight(ValueV::Obj(tid, Some(vals))),
    ensures
        enc_obj_raw(tid, Some(vals), abi) is Ok,
        ({
            let res = dec_typed_object(tid, b, p, abi, fuel);
            &&& res is Ok
            &&& res->Ok_0.0 matches ValueV::Obj(_, Some(slots)) && slots.len() == vals.len()
                && forall|k: int| 0 <= k < vals.len() ==> ((slots[k] is Null) <==> (vals[k] is Null))
        }),
{
    lemma_wf_encodes_raw(ValueV::Obj(tid, Some(vals)), abi);
    lemma_rt_obj_body(tid, Some(vals), b, p, abi, fuel);
}

/// Non-mapped attributes leave no trace: whatever the wire holds, a slot
/// that no mapped attribute targets keeps its initial value through the
/// attribute walk — decoded objects hold nulls there.
#[verifier::rlimit(100)]
#[verifier::spinoff_prover]
pub proof fn lemma_unmapped_leaves_no_trace(
    attrs: Seq<AbiAttr>,
    i: int,
    rank: int,
    bits: Seq<u8>,
    slots: Seq<ValueV>,
    b: Seq<u8>,
    p: int,
    abi: Abi,
    fuel: nat,
)
    requires
        0 <= i <= attrs.len(),
    ensures
        ({
            let res = dec_attrs(attrs, i, rank, bits, slots, b, p, abi, fuel);
            res matches Ok((s2, _)) ==> {
                &&& s2.len() == slots.len()
                &&& forall|k: int|
                    0 <= k < slots.len() && !(exists|j: int|
                        i <= j < attrs.len() && (#[trigger] attrs[j]).mapped
                            && attrs[j].mapped_att_offset == k) ==> s2[k] == slots[k]
            }
        }),
    decreases attrs.len() - i,
{
    if i < attrs.len() {
        let a = attrs[i];
        if a.nullable && (rank < 0 || rank / 8 >= bits.len()) {
        } else if a.nullable && !bit_of(bits, rank) {
            lemma_unmapped_leaves_no_trace(attrs, i + 1, rank + 1, bits, slots, b, p, abi, fuel);
        } else {
            let rank2 = if a.nullable {
                rank + 1
            } else {
                rank
            };
            match dec_attr_value(a, b, p, abi, fuel) {
                Err(_) => {},
                Ok((v, q)) => {
                    if a.mapped {
                        if a.mapped_att_offset < slots.len() {
                            lemma_unmapped_leaves_no_trace(
                                attrs,
                                i + 1,
                                rank2,
                                bits,
                                slots.update(a.mapped_att_offset as int, v),
                                b,
                                q,
                                abi,
                                fuel,
                            );
                        }
                    } else {
                        lemma_unmapped_leaves_no_trace(
                            attrs,
                            i + 1,
                            rank2,
                            bits,
                            slots,
                            b,
                            q,
                            abi,
                            fuel,
                        );
                    }
                },
            }
        }
    }
}

/// A successful symbol lookup returns an id inside the table.
pub proof fn lemma_sym_lookup_in_range(symbols: Seq<Seq<char>>, s: Seq<char>, i: int)
    requires
        0 <= i,
    ensures
        sym_lookup(symbols, s, i) matches Some(id) ==> id < symbols.len(),
    decreases symbols.len() - i,
{
    if i < symbols.len() {
        lemma_sym_lookup_in_range(symbols, s, i + 1);
        if symbols[i] == s {
            assert((i as u32) as int <= i);
        }
    }
}

/// A successful symbol lookup names the symbol it found: looking the id
/// back up in the table gives the string the search started from.
pub proof fn lemma_sym_lookup_found(symbols: Seq<Seq<char>>, s: Seq<char>, i: int)
    requires
        0 <= i,
        symbols.len() < 0x1_0000_0000,
    ensures
        sym_lookup(symbols, s, i) matches Some(id) ==> i <= id < symbols.len() && symbols[id as int]
            == s,
    decreases symbols.len() - i,
{
    if i < symbols.len() && symbols[i] != s {
        lemma_sym_lookup_found(symbols, s, i + 1);
    }
}

/// The symbol bijection: every id that the name lookup returns resolves
/// back to the name it was looked up by.
pub proof fn lemma_symbol_bijection(abi: Abi, s: Seq<char>)
    requires
        abi.symbols_v().len() < 0x1_0000_0000,
    ensures
        spec_symbol_id(abi, s) matches Some(id) ==> id < abi.symbols_v().len()
            && abi.symbols_v()[id as int] == s,
{
    lemma_sym_lookup_found(abi.symbols_v(), s, 0);
}

} // verus!
