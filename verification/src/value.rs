//! The tagged value tree that payloads decode into and encode from.
//!
//! Decoded symbols, enum keys and type references carry the ids of the ABI
//! they were decoded against; the ABI resolves them to names.  Maps are kept
//! as ordered key/value pair lists in wire order.
//!
//! Every contract about values speaks of the ghost mirror [`ValueV`], the
//! view of a [`Value`].

use vstd::prelude::*;

use crate::abi::AbiSymbol;
use crate::core_types::{Duration, Float, Geo, Node, NodeGeo, NodeIndex, NodeList, NodeTime, Time};

verus! {

/// An enum value: the enum's type id, the variant's slot offset, and the
/// variant's name symbol.
#[derive(Debug, Clone, Copy, PartialEq, Eq, Structural)]
pub struct GcEnum {
    /// Type id of the enum type.
    pub ty: u32,
    /// The variant's target slot offset.
    pub offset: u32,
    /// The variant's name symbol id.
    pub key: u32,
}

/// An object instance: its type id and one value slot per attribute of the
/// mapped type.  An instance of a type with no attributes carries no slot
/// vector.
#[derive(Debug, PartialEq)]
pub struct GcObject {
    /// Type id of the instance's type.
    pub ty: u32,
    /// The attribute slots, or nothing for an attribute-less type.
    pub values: Option<Vec<Value>>,
}

/// A string read off the wire: either an interned symbol of the ABI or a
/// plain UTF-8 string.
#[derive(Debug, Clone, PartialEq)]
pub enum GcString {
    Symbol(AbiSymbol),
    String(String),
}

/// A tagged runtime value.
#[derive(Debug, PartialEq)]
pub enum Value {
    Null,
    Int(i64),
    Float(Float),
    Char(char),
    Bool(bool),
    Array(Vec<Value>),
    /// An ordered map, held as key/value pairs in wire order.
    Dict(Vec<(Value, Value)>),
    Symbol(AbiSymbol),
    Node(Node),
    NodeTime(NodeTime),
    NodeIndex(NodeIndex),
    NodeList(NodeList),
    NodeGeo(NodeGeo),
    Geo(Geo),
    Time(Time),
    Duration(Duration),
    String(String),
    Enum(GcEnum),
    Obj(GcObject),
}

impl Default for Value {
    fn default() -> (r: Self)
        ensures
            r == Value::Null,
    {
        Value::Null
    }
}

/// Ghost mirror of a [`Value`] tree.
#[verifier::ext_equal]
pub enum ValueV {
    Null,
    Int(i64),
    /// IEEE-754 bit pattern.
    Float(u64),
    Char(char),
    Bool(bool),
    Array(Seq<ValueV>),
    Dict(Seq<(ValueV, ValueV)>),
    /// Symbol id.
    Symbol(u32),
    Node(u64),
    NodeTime(u64),
    NodeIndex(u64),
    NodeList(u64),
    NodeGeo(u64),
    Geo(u64),
    /// Microseconds.
    Time(i64),
    /// Microseconds.
    Duration(i64),
    Str(Seq<char>),
    /// Enum type id, variant slot offset, variant name symbol id.
    Enum(u32, u32, u32),
    /// Type id and attribute slots.
    Obj(u32, Option<Seq<ValueV>>),
}

impl View for Value {
    type V = ValueV;

    open spec fn view(&self) -> ValueV
        decreases self,
    {
        match self {
            Value::Null => ValueV::Null,
            Value::Int(v) => ValueV::Int(*v),
            Value::Float(v) => ValueV::Float(v.0),
            Value::Char(v) => ValueV::Char(*v),
            Value::Bool(v) => ValueV::Bool(*v),
            Value::Array(vs) => ValueV::Array(view_values(vs@)),
            Value::Dict(ps) => ValueV::Dict(view_pairs(ps@)),
            Value::Symbol(s) => ValueV::Symbol(s.0),
            Value::Node(v) => ValueV::Node(v.0),
            Value::NodeTime(v) => ValueV::NodeTime(v.0),
            Value::NodeIndex(v) => ValueV::NodeIndex(v.0),
            Value::NodeList(v) => ValueV::NodeList(v.0),
            Value::NodeGeo(v) => ValueV::NodeGeo(v.0),
            Value::Geo(v) => ValueV::Geo(v.0),
            Value::Time(v) => ValueV::Time(v.0),
            Value::Duration(v) => ValueV::Duration(v.0),
            Value::String(s) => ValueV::Str(s@),
            Value::Enum(e) => ValueV::Enum(e.ty, e.offset, e.key),
            Value::Obj(o) => ValueV::Obj(
                o.ty,
                match &o.values {
                    Some(vals) => Some(view_values(vals@)),
                    None => None,
                },
            ),
        }
    }
}

impl GcObject {
    /// The object as a ghost value.
    pub open spec fn view(&self) -> ValueV {
        ValueV::Obj(
            self.ty,
            match &self.values {
                Some(vals) => Some(view_values(vals@)),
                None => None,
            },
        )
    }
}

impl GcEnum {
    /// The enum as a ghost value.
    pub open spec fn view(&self) -> ValueV {
        ValueV::Enum(self.ty, self.offset, self.key)
    }
}

impl GcString {
    /// The string as a ghost value: a symbol reference or the characters.
    pub open spec fn view(&self) -> ValueV {
        match self {
            GcString::Symbol(s) => ValueV::Symbol(s.0),
            GcString::String(s) => ValueV::Str(s@),
        }
    }
}

impl From<GcString> for Value {
    fn from(value: GcString) -> (r: Self)
        ensures
            r@ == value.view(),
    {
        match value {
            GcString::Symbol(s) => Value::Symbol(s),
            GcString::String(s) => Value::String(s),
        }
    }
}

impl vstd::std_specs::convert::FromSpecImpl<GcString> for Value {
    open spec fn obeys_from_spec() -> bool {
        true
    }

    open spec fn from_spec(v: GcString) -> Value {
        match v {
            GcString::Symbol(s) => Value::Symbol(s),
            GcString::String(s) => Value::String(s),
        }
    }
}

/// Views of a sequence of values, element by element.
pub open spec fn view_values(s: Seq<Value>) -> Seq<ValueV>
    decreases s,
{
    if s.len() == 0 {
        Seq::empty()
    } else {
        view_values(s.drop_last()).push(s.last()@)
    }
}

/// Views of a sequence of key/value pairs, element by element.
pub open spec fn view_pairs(s: Seq<(Value, Value)>) -> Seq<(ValueV, ValueV)>
    decreases s,
{
    if s.len() == 0 {
        Seq::empty()
    } else {
        view_pairs(s.drop_last()).push((s.last().0@, s.last().1@))
    }
}

/// `view_values` keeps lengths and indexes pointwise.
pub proof fn lemma_view_values_index(s: Seq<Value>)
    ensures
        view_values(s).len() == s.len(),
        forall|i: int| 0 <= i < s.len() ==> view_values(s)[i] == #[trigger] s[i]@,
    decreases s,
{
    if s.len() > 0 {
        lemma_view_values_index(s.drop_last());
        assert(view_values(s) == view_values(s.drop_last()).push(s.last()@));
        assert forall|i: int| 0 <= i < s.len() implies view_values(s)[i] == #[trigger] s[i]@ by {
            if i < s.len() - 1 {
                assert(s.drop_last()[i] == s[i]);
                assert(view_values(s)[i] == view_values(s.drop_last())[i]);
            } else {
                assert(s[i] == s.last());
            }
        }
    }
}

/// `view_pairs` keeps lengths and indexes pointwise.
pub proof fn lemma_view_pairs_index(s: Seq<(Value, Value)>)
    ensures
        view_pairs(s).len() == s.len(),
        forall|i: int|
            0 <= i < s.len() ==> view_pairs(s)[i] == (#[trigger] s[i].0@, s[i].1@),
    decreases s,
{
    if s.len() > 0 {
        lemma_view_pairs_index(s.drop_last());
        assert(view_pairs(s) == view_pairs(s.drop_last()).push((s.last().0@, s.last().1@)));
        assert forall|i: int| 0 <= i < s.len() implies view_pairs(s)[i] == (#[trigger] s[i].0@, s[i].1@) by {
            if i < s.len() - 1 {
                assert(s.drop_last()[i] == s[i]);
                assert(view_pairs(s)[i] == view_pairs(s.drop_last())[i]);
            } else {
                assert(s[i] == s.last());
            }
        }
    }
}

/// Pushing a value onto a sequence pushes its view onto the views.
pub proof fn lemma_view_values_push(s: Seq<Value>, x: Value)
    ensures
        view_values(s.push(x)) == view_values(s).push(x@),
{
    assert(s.push(x).drop_last() =~= s);
    assert(view_values(s.push(x)) =~= view_values(s).push(x@));
}

/// Updating a slot updates exactly that view.
pub proof fn lemma_view_values_update(s: Seq<Value>, k: int, x: Value)
    requires
        0 <= k < s.len(),
    ensures
        view_values(s.update(k, x)) == view_values(s).update(k, x@),
{
    lemma_view_values_index(s);
    lemma_view_values_index(s.update(k, x));
    assert forall|i: int| 0 <= i < s.len() implies view_values(s.update(k, x))[i] == view_values(
        s,
    ).update(k, x@)[i] by {
        if i == k {
            assert(view_values(s.update(k, x))[i] == s.update(k, x)[i]@);
        } else {
            assert(view_values(s.update(k, x))[i] == s.update(k, x)[i]@);
            assert(view_values(s)[i] == s[i]@);
        }
    }
    assert(view_values(s.update(k, x)) =~= view_values(s).update(k, x@));
}

/// Pushing a pair onto a sequence pushes its views onto the views.
pub proof fn lemma_view_pairs_push(s: Seq<(Value, Value)>, x: (Value, Value))
    ensures
        view_pairs(s.push(x)) == view_pairs(s).push((x.0@, x.1@)),
{
    assert(s.push(x).drop_last() =~= s);
    assert(view_pairs(s.push(x)) =~= view_pairs(s).push((x.0@, x.1@)));
}

/// A slot sequence of `n` null values.
pub open spec fn null_values(n: nat) -> Seq<ValueV> {
    Seq::new(n, |j: int| ValueV::Null)
}

/// Structural height of a ghost value; the decoder's recursion budget must
/// cover it.
pub open spec fn vheight(v: ValueV) -> nat
    decreases v,
{
    match v {
        ValueV::Array(items) => 1 + vheight_items(items),
        ValueV::Dict(pairs) => 1 + vheight_pairs(pairs),
        ValueV::Obj(_, Some(slots)) => 1 + vheight_items(slots),
        _ => 0,
    }
}

/// The largest height among a sequence of ghost values.
pub open spec fn vheight_items(items: Seq<ValueV>) -> nat
    decreases items,
{
    if items.len() == 0 {
        0
    } else {
        let h0 = vheight(items[0]);
        let hr = vheight_items(items.drop_first());
        if h0 > hr {
            h0
        } else {
            hr
        }
    }
}

/// The largest height among a sequence of ghost key/value pairs.
pub open spec fn vheight_pairs(pairs: Seq<(ValueV, ValueV)>) -> nat
    decreases pairs,
{
    if pairs.len() == 0 {
        0
    } else {
        let hk = vheight(pairs[0].0);
        let hv = vheight(pairs[0].1);
        let hr = vheight_pairs(pairs.drop_first());
        let h0 = if hk > hv {
            hk
        } else {
            hv
        };
        if h0 > hr {
            h0
        } else {
            hr
        }
    }
}

} // verus!
