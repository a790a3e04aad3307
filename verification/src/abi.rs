//! The loaded ABI: headers, interned symbols, indexed types and functions.
//!
//! The type graph may be cyclic (self-referencing or mutually referencing
//! types), so types live in one flat vector and every reference between them
//! is an index into it.  After loading, every attribute's program-type
//! reference is resolved ([`LazyAbiType::Ref`]) and the documented ABI
//! invariants hold ([`Abi::wf`]); the codec relies on both.

use vstd::prelude::*;

use crate::error::Error;
use crate::reader::{dec_le, dec_u8, Reader};
use crate::varint::VarintRead;
use vstd::string::{StringExecFns, StringExecFnsIsAscii};
use crate::varint::dec_vu32;
use vstd::utf8::{decode_utf8, valid_utf8};

verus! {

/// The request headers that precede every payload.
#[derive(Debug, Clone, Copy, PartialEq, Eq, Structural)]
pub struct RequestHeaders {
    pub protocol: u16,
    pub magic: u16,
    pub version: u32,
}

impl RequestHeaders {
    /// Checks a received payload's protocol number against these headers;
    /// a mismatch is an error naming both numbers.
    pub fn check_protocol(&self, received: &RequestHeaders) -> (r: Result<(), Error>)
        ensures
            r == if self.protocol == received.protocol {
                Ok::<(), Error>(())
            } else {
                Err(Error::ProtocolMismatch(received.protocol, self.protocol))
            },
    {
        if self.protocol == received.protocol {
            Ok(())
        } else {
            Err(Error::ProtocolMismatch(received.protocol, self.protocol))
        }
    }
}

/// The ABI headers: request headers followed by a CRC that is retained but
/// not validated.
#[derive(Debug, Clone, Copy, PartialEq, Eq, Structural)]
pub struct AbiHeaders {
    pub headers: RequestHeaders,
    pub crc: u64,
}

/// An interned symbol, identified by its dense id in the symbol table.
#[derive(Debug, Clone, Copy, PartialEq, Eq, PartialOrd, Ord, Hash, Structural)]
pub struct AbiSymbol(pub u32);

/// An attribute's reference to its program type: a deferred type id while
/// the type block is still being loaded, a resolved index afterwards.
#[derive(Debug, Clone, Copy, PartialEq, Eq, PartialOrd, Ord, Hash, Structural)]
pub enum LazyAbiType {
    Offset(u32),
    Ref(u32),
}

/// One attribute of a type.
#[derive(Debug, Clone, Copy, PartialEq, Eq, Structural)]
pub struct AbiAttr {
    /// Name symbol id.
    pub name: u32,
    /// Type id of the declared type.
    pub abi_type: u32,
    /// Reference to the program type, resolved after load.
    pub prog_type_offset: LazyAbiType,
    pub mapped_any_offset: u32,
    /// Target slot index in the mapped type's value array.
    pub mapped_att_offset: u32,
    /// Static wire tag of the attribute; `UNDEFINED` means polymorphic,
    /// tag-prefixed on the wire.
    pub sbi_type: u8,
    pub nullable: bool,
    /// A non-mapped attribute is consumed from the wire but not stored.
    pub mapped: bool,
}

/// One type of the ABI.
#[derive(Debug, Clone, PartialEq)]
pub struct AbiType {
    pub lib_name: u32,
    pub module: u32,
    pub name: u32,
    /// The program type this wire type maps onto; may equal the type itself.
    pub mapped_abi_type_offset: u32,
    pub masked_abi_type_offset: u32,
    /// Size, in bytes, of the nullable-bitset prefix of instances.
    pub nullable_nb_bytes: u32,
    pub is_native: bool,
    pub is_abstract: bool,
    pub is_enum: bool,
    pub is_masked: bool,
    pub attrs: Option<Vec<AbiAttr>>,
}

/// Ghost mirror of [`AbiType`], with the attribute list as a sequence.
pub struct AbiTypeV {
    pub lib_name: u32,
    pub module: u32,
    pub name: u32,
    pub mapped_abi_type_offset: u32,
    pub masked_abi_type_offset: u32,
    pub nullable_nb_bytes: u32,
    pub is_native: bool,
    pub is_abstract: bool,
    pub is_enum: bool,
    pub is_masked: bool,
    pub attrs: Option<Seq<AbiAttr>>,
}

impl AbiType {
    pub open spec fn view(&self) -> AbiTypeV {
        AbiTypeV {
            lib_name: self.lib_name,
            module: self.module,
            name: self.name,
            mapped_abi_type_offset: self.mapped_abi_type_offset,
            masked_abi_type_offset: self.masked_abi_type_offset,
            nullable_nb_bytes: self.nullable_nb_bytes,
            is_native: self.is_native,
            is_abstract: self.is_abstract,
            is_enum: self.is_enum,
            is_masked: self.is_masked,
            attrs: match &self.attrs {
                Some(v) => Some(v@),
                None => None,
            },
        }
    }
}

/// Views of a sequence of types, element by element.
pub open spec fn view_types(s: Seq<AbiType>) -> Seq<AbiTypeV>
    decreases s,
{
    if s.len() == 0 {
        Seq::empty()
    } else {
        view_types(s.drop_last()).push(s.last()@)
    }
}

/// Views of a sequence of strings, element by element.
pub open spec fn view_strings(s: Seq<String>) -> Seq<Seq<char>>
    decreases s,
{
    if s.len() == 0 {
        Seq::empty()
    } else {
        view_strings(s.drop_last()).push(s.last()@)
    }
}

/// `view_types` keeps lengths and indexes pointwise.
pub proof fn lemma_view_types_index(s: Seq<AbiType>)
    ensures
        view_types(s).len() == s.len(),
        forall|i: int| 0 <= i < s.len() ==> view_types(s)[i] == #[trigger] s[i]@,
    decreases s,
{
    if s.len() > 0 {
        lemma_view_types_index(s.drop_last());
        assert(view_types(s) == view_types(s.drop_last()).push(s.last()@));
        assert forall|i: int| 0 <= i < s.len() implies view_types(s)[i] == #[trigger] s[i]@ by {
            if i < s.len() - 1 {
                assert(s.drop_last()[i] == s[i]);
                assert(view_types(s)[i] == view_types(s.drop_last())[i]);
            } else {
                assert(s[i] == s.last());
            }
        }
    }
}

/// `view_strings` keeps lengths and indexes pointwise.
pub proof fn lemma_view_strings_index(s: Seq<String>)
    ensures
        view_strings(s).len() == s.len(),
        forall|i: int| 0 <= i < s.len() ==> view_strings(s)[i] == #[trigger] s[i]@,
    decreases s,
{
    if s.len() > 0 {
        lemma_view_strings_index(s.drop_last());
        assert(view_strings(s) == view_strings(s.drop_last()).push(s.last()@));
        assert forall|i: int| 0 <= i < s.len() implies view_strings(s)[i] == #[trigger] s[i]@ by {
            if i < s.len() - 1 {
                assert(s.drop_last()[i] == s[i]);
                assert(view_strings(s)[i] == view_strings(s.drop_last())[i]);
            } else {
                assert(s[i] == s.last());
            }
        }
    }
}

/// The cached type ids of the `core` module's special types.  The codec
/// consults these by identity, never by name, after load.
#[derive(Debug, Default, Clone, Copy, PartialEq, Eq, Structural)]
pub struct CoreType {
    pub string: u32,
    pub char: u32,
    pub array: u32,
    pub map: u32,
    pub node: u32,
    pub node_list: u32,
    pub node_index: u32,
    pub node_time: u32,
    pub node_geo: u32,
}

/// The interned, order-preserving symbol table.  Id 0 is always the empty
/// symbol; ids are dense in insertion order, and name and id determine each
/// other.
#[derive(Debug, Clone, PartialEq)]
pub struct AbiSymbols {
    pub symbols: Vec<String>,
}

/// The parsed types of the ABI, plus the `core` shortcut.
#[derive(Debug, Clone, PartialEq)]
pub struct AbiTypes {
    pub types: Vec<AbiType>,
    pub core: CoreType,
}

/// One parameter of a function signature.
#[derive(Debug, Clone, Copy, PartialEq, Eq, Structural)]
pub struct AbiParam {
    /// Name symbol id.
    pub name: u32,
    /// Type id of the declared type.
    pub ty: u32,
    pub nullable: bool,
}

/// One function signature of the ABI.
#[derive(Debug, Clone, PartialEq)]
pub struct AbiFn {
    pub module: u32,
    /// Owning type id; a free function has none.
    pub ty: Option<u32>,
    pub name: u32,
    pub lib_name: u32,
    pub params: Vec<AbiParam>,
    /// Type id of the return type.
    pub return_type: u32,
    pub return_nullable: bool,
    pub is_task: bool,
}

/// Ghost mirror of [`AbiFn`], with the parameter list as a sequence.
pub struct AbiFnV {
    pub module: u32,
    pub ty: Option<u32>,
    pub name: u32,
    pub lib_name: u32,
    pub params: Seq<AbiParam>,
    pub return_type: u32,
    pub return_nullable: bool,
    pub is_task: bool,
}

impl AbiFn {
    pub open spec fn view(&self) -> AbiFnV {
        AbiFnV {
            module: self.module,
            ty: self.ty,
            name: self.name,
            lib_name: self.lib_name,
            params: self.params@,
            return_type: self.return_type,
            return_nullable: self.return_nullable,
            is_task: self.is_task,
        }
    }
}

/// Views of a sequence of functions, element by element.
pub open spec fn view_fns(s: Seq<AbiFn>) -> Seq<AbiFnV>
    decreases s,
{
    if s.len() == 0 {
        Seq::empty()
    } else {
        view_fns(s.drop_last()).push(s.last()@)
    }
}

/// `view_fns` keeps lengths and indexes pointwise.
pub proof fn lemma_view_fns_index(s: Seq<AbiFn>)
    ensures
        view_fns(s).len() == s.len(),
        forall|i: int| 0 <= i < s.len() ==> view_fns(s)[i] == #[trigger] s[i]@,
    decreases s,
{
    if s.len() > 0 {
        lemma_view_fns_index(s.drop_last());
        assert(view_fns(s) == view_fns(s.drop_last()).push(s.last()@));
        assert forall|i: int| 0 <= i < s.len() implies view_fns(s)[i] == #[trigger] s[i]@ by {
            if i < s.len() - 1 {
                assert(s.drop_last()[i] == s[i]);
                assert(view_fns(s)[i] == view_fns(s.drop_last())[i]);
            } else {
                assert(s[i] == s.last());
            }
        }
    }
}

/// The parsed function signatures of the ABI, in wire order.  The registry
/// keeps no name index: lookups scan the list and return the first match
/// (duplicate fully-qualified names are not expected).
#[derive(Debug, Clone, PartialEq)]
pub struct AbiFunctions {
    pub functions: Vec<AbiFn>,
}

/// One module-level variable, parsed out of the synthetic root type.
#[derive(Debug, Clone, Copy, PartialEq, Eq, Structural)]
pub struct ModVar {
    pub module: u32,
    pub name: u32,
    pub ty: LazyAbiType,
    pub nullable: bool,
}

/// The user-extension hook named `"std"`, always present after load.
#[derive(Debug, Default, Clone, Copy, PartialEq, Eq, Structural)]
pub struct StdLibrary;

impl StdLibrary {
    /// The library's stable name.
    pub fn name(&self) -> (r: &'static str)
        ensures
            r@ == "std"@,
    {
        "std"
    }
}

/// The loaded schema against which every payload is decoded and encoded.
#[derive(Debug, Clone, PartialEq)]
pub struct Abi {
    pub headers: AbiHeaders,
    pub symbols: AbiSymbols,
    pub types: AbiTypes,
    pub functions: AbiFunctions,
    /// Names of the registered extension libraries; `"std"` is always among
    /// them.
    pub libraries: Vec<String>,
}

impl AbiSymbols {
    /// The symbol strings, by id.
    pub open spec fn view(&self) -> Seq<Seq<char>> {
        view_strings(self.symbols@)
    }

    /// How many symbols the table holds, the empty symbol included.
    pub fn len(&self) -> (r: usize)
        ensures
            r == self.symbols@.len(),
    {
        self.symbols.len()
    }

    /// Whether the table holds no symbol at all.
    #[must_use]
    pub fn is_empty(&self) -> (r: bool)
        ensures
            r == (self.symbols@.len() == 0),
    {
        self.symbols.len() == 0
    }
}

impl AbiTypes {
    /// The types, by id.
    pub open spec fn view(&self) -> Seq<AbiTypeV> {
        view_types(self.types@)
    }

    /// How many types the ABI defines.
    pub fn len(&self) -> (r: usize)
        ensures
            r == self.types@.len(),
    {
        self.types.len()
    }

    /// Whether the ABI defines no type at all.
    #[must_use]
    pub fn is_empty(&self) -> (r: bool)
        ensures
            r == (self.types@.len() == 0),
    {
        self.types.len() == 0
    }

    /// The type with the given id, if the ABI defines one.
    pub fn get(&self, id: u32) -> (r: Option<&AbiType>)
        ensures
            match r {
                Some(t) => id < self.types@.len() && t == &self.types@[id as int],
                None => id >= self.types@.len(),
            },
    {
        if (id as usize) < self.types.len() {
            Some(&self.types[id as usize])
        } else {
            None
        }
    }
}

impl Abi {
    /// The symbol strings, by id.
    pub open spec fn symbols_v(&self) -> Seq<Seq<char>> {
        self.symbols.view()
    }

    /// The types, by id.
    pub open spec fn types_v(&self) -> Seq<AbiTypeV> {
        self.types.view()
    }

    /// The `core` shortcut.
    pub open spec fn core_ids(&self) -> CoreType {
        self.types.core
    }
}

/// The nullable-bitset size that the documented invariant prescribes for an
/// attribute list: one bit per nullable attribute, rounded up to bytes.
pub open spec fn spec_nullable_bytes(attrs: Seq<AbiAttr>) -> int {
    (count_nullable(attrs) + 7) / 8
}

/// How many attributes of the list are nullable.
pub open spec fn count_nullable(attrs: Seq<AbiAttr>) -> int
    decreases attrs,
{
    if attrs.len() == 0 {
        0
    } else {
        count_nullable(attrs.drop_last()) + if attrs.last().nullable {
            1int
        } else {
            0int
        }
    }
}

/// The rank of attribute `j` among the nullable attributes: how many
/// nullable attributes precede it.
pub open spec fn nullable_rank(attrs: Seq<AbiAttr>, j: int) -> int {
    count_nullable(attrs.take(j))
}

/// The documented ABI invariants, which loading establishes and the codec
/// relies on: every type reference is in range, every attribute reference is
/// resolved and in range, and the nullable-bitset size matches the nullable
/// attribute count.
pub open spec fn type_wf(t: AbiTypeV, ntypes: int) -> bool {
    &&& t.mapped_abi_type_offset < ntypes
    &&& match t.attrs {
        Some(attrs) => {
            &&& t.nullable_nb_bytes == spec_nullable_bytes(attrs)
            &&& forall|j: int| 0 <= j < attrs.len() ==> attr_wf(#[trigger] attrs[j], ntypes)
        },
        None => true,
    }
}

/// The documented invariants of one attribute.
pub open spec fn attr_wf(a: AbiAttr, ntypes: int) -> bool {
    &&& a.abi_type < ntypes
    &&& a.prog_type_offset matches LazyAbiType::Ref(k) && k < ntypes
}

/// Decodes a whole ABI: headers, symbols, types and functions, in order.
pub open spec fn dec_abi(b: Seq<u8>, p: int) -> Result<
    ((AbiHeaders, Seq<Seq<char>>, (Seq<AbiTypeV>, CoreType), Seq<AbiFnV>), int),
    Error,
> {
    match dec_abi_headers(b, p) {
        Err(e) => Err(e),
        Ok((h, p1)) => match dec_symbols_block(b, p1) {
            Err(e) => Err(e),
            Ok((syms, p2)) => match dec_types_block(b, p2, syms) {
                Err(e) => Err(e),
                Ok((tc, p3)) => match dec_functions_block(b, p3, tc.0.len() as int) {
                    Err(e) => Err(e),
                    Ok((fns, p4)) => Ok(((h, syms, tc, fns), p4)),
                },
            },
        },
    }
}

/// Whether some library in the list is named by the literal.
pub open spec fn has_library(libs: Seq<String>, name: Seq<char>) -> bool {
    exists|j: int| 0 <= j < libs.len() && #[trigger] libs[j]@ == name
}

/// Whether the list holds a string spelling `lit`, scanning from `i`.
fn find_lib(libs: &Vec<String>, i: usize, lit: &str) -> (r: bool)
    requires
        i <= libs@.len(),
    ensures
        r == exists|j: int| i <= j < libs@.len() && #[trigger] libs@[j]@ == lit@,
    decreases libs@.len() - i,
{
    if i >= libs.len() {
        false
    } else if str_is(&libs[i], lit) {
        true
    } else {
        find_lib(libs, i + 1, lit)
    }
}

/// Reads the four ABI blocks in order: headers, symbols, types,
/// functions.
#[verifier::rlimit(100)]
#[verifier::spinoff_prover]
fn load_abi_parts(reader: &mut Reader) -> (r: Result<
    (AbiHeaders, AbiSymbols, AbiTypes, AbiFunctions),
    Error,
>)
    requires
        old(reader).wf(),
    ensures
        final(reader).wf(),
        final(reader).data() == old(reader).data(),
        dec_abi(old(reader).data(), old(reader).position()) matches Ok((parts, q)) ==> {
            &&& r matches Ok(parts2)
            &&& parts2.0 == parts.0
            &&& parts2.1.view() == parts.1
            &&& parts2.2.view() == parts.2.0
            &&& parts2.2.core == parts.2.1
            &&& view_fns(parts2.3.functions@) == parts.3
            &&& final(reader).position() == q
        },
        dec_abi(old(reader).data(), old(reader).position()) matches Err(e) ==> r == Err::<
            (AbiHeaders, AbiSymbols, AbiTypes, AbiFunctions),
            Error,
        >(e),
{
    let ghost b = reader.data();
    let ghost p0 = reader.position();
    let headers = match reader.read_abi_headers() {
        Ok(v) => v,
        Err(e) => {
            return Err(e);
        },
    };
    let ghost p1 = reader.position();
    proof {
        assert(dec_abi_headers(b, p0) == Ok::<(AbiHeaders, int), Error>((headers, p1)));
    }
    let symbols = match reader.read_abi_symbols() {
        Ok(v) => v,
        Err(e) => {
            proof {
                assert(dec_symbols_block(b, p1) == Err::<(Seq<Seq<char>>, int), Error>(e));
                assert(dec_abi(b, p0) is Err);
            }
            return Err(e);
        },
    };
    let ghost p2 = reader.position();
    proof {
        assert(dec_symbols_block(b, p1) == Ok::<(Seq<Seq<char>>, int), Error>(
            (symbols.view(), p2),
        ));
    }
    let types = match reader.read_abi_types(&symbols) {
        Ok(v) => v,
        Err(e) => {
            proof {
                assert(dec_types_block(b, p2, symbols.view()) == Err::<
                    ((Seq<AbiTypeV>, CoreType), int),
                    Error,
                >(e));
                assert(dec_abi(b, p0) is Err);
            }
            return Err(e);
        },
    };
    let ghost p3 = reader.position();
    proof {
        assert(dec_types_block(b, p2, symbols.view()) == Ok::<
            ((Seq<AbiTypeV>, CoreType), int),
            Error,
        >(((types.view(), types.core), p3)));
    }
    proof {
        lemma_view_types_index(types.types@);
    }
    let functions = match reader.read_abi_functions(&symbols, &types) {
        Ok(v) => v,
        Err(e) => {
            proof {
                assert(dec_functions_block(b, p3, types.view().len() as int) == Err::<
                    (Seq<AbiFnV>, int),
                    Error,
                >(e));
                assert(dec_abi(b, p0) is Err);
            }
            return Err(e);
        },
    };
    proof {
        let ghost p4 = reader.position();
        assert(dec_functions_block(b, p3, types.view().len() as int) == Ok::<
            (Seq<AbiFnV>, int),
            Error,
        >((view_fns(functions.functions@), p4)));
        assert(dec_abi(b, p0) == Ok::<
            ((AbiHeaders, Seq<Seq<char>>, (Seq<AbiTypeV>, CoreType), Seq<AbiFnV>), int),
            Error,
        >(((headers, symbols.view(), (types.view(), types.core), view_fns(functions.functions@)), p4)));
    }
    Ok((headers, symbols, types, functions))
}

impl Abi {
    /// Loads an ABI: headers, symbols, types and functions, then the
    /// user-provided extension libraries, with `"std"` appended when none of
    /// them carries that name.
    pub fn new(reader: &mut Reader, libraries: Option<Vec<String>>) -> (r: Result<Abi, Error>)
        requires
            old(reader).wf(),
        ensures
            final(reader).wf(),
            final(reader).data() == old(reader).data(),
            dec_abi(old(reader).data(), old(reader).position()) matches Ok((parts, q)) ==> {
                &&& r matches Ok(abi)
                &&& abi.headers == parts.0
                &&& abi.symbols.view() == parts.1
                &&& abi.types.view() == parts.2.0
                &&& abi.types.core == parts.2.1
                &&& view_fns(abi.functions.functions@) == parts.3
                &&& final(reader).position() == q
                &&& abi.wf()
                &&& core_ids_sound(abi.types.core, abi.types_v().len() as int)
                &&& ({
                    let user = match libraries {
                        Some(libs) => libs@,
                        None => Seq::<String>::empty(),
                    };
                    if has_library(user, "std"@) {
                        abi.libraries@ == user
                    } else {
                        &&& abi.libraries@.len() == user.len() + 1
                        &&& abi.libraries@.subrange(0, user.len() as int) == user
                        &&& abi.libraries@.last()@ == "std"@
                    }
                })
            },
            dec_abi(old(reader).data(), old(reader).position()) matches Err(e) ==> r == Err::<
                Abi,
                Error,
            >(e),
    {
        let ghost b = reader.data();
        let ghost p0 = reader.position();
        let ghost user = match libraries {
            Some(ref libs) => libs@,
            None => Seq::<String>::empty(),
        };
        let (headers, symbols, types, functions) = match load_abi_parts(reader) {
            Ok(v) => v,
            Err(e) => {
                return Err(e);
            },
        };
        proof {
            // The loaded types carry the documented invariants and sound
            // core ids.
            if dec_abi(b, p0) is Ok {
                let parts = dec_abi(b, p0)->Ok_0.0;
                let p1 = dec_abi_headers(b, p0)->Ok_0.1;
                let p2 = dec_symbols_block(b, p1)->Ok_0.1;
                lemma_types_block_wf(b, p2, parts.1);
                lemma_view_types_index(types.types@);
            }
        }
        let mut libraries = match libraries {
            Some(libs) => libs,
            None => Vec::new(),
        };
        assert(libraries@ == user);
        if !find_lib(&libraries, 0, "std") {
            let std_name = String::from_str("std");
            libraries.push(std_name);
            proof {
                assert(libraries@[libraries@.len() - 1]@ == "std"@);
                assert(libraries@.subrange(0, user.len() as int) =~= user);
            }
        }
        Ok(Abi { headers, symbols, types, functions, libraries })
    }
}

impl AbiHeaders {
    /// Reads the ABI headers off a byte stream.
    pub fn from_bytes(reader: &mut Reader) -> (r: Result<AbiHeaders, Error>)
        requires
            old(reader).wf(),
        ensures
            final(reader).wf(),
            final(reader).data() == old(reader).data(),
            dec_abi_headers(old(reader).data(), old(reader).position()) == match r {
                Ok(h) => Ok::<(AbiHeaders, int), Error>((h, final(reader).position())),
                Err(e) => Err(e),
            },
    {
        reader.read_abi_headers()
    }
}

impl AbiSymbols {
    /// Reads the symbol block off a byte stream.
    pub fn from_bytes(reader: &mut Reader) -> (r: Result<AbiSymbols, Error>)
        requires
            old(reader).wf(),
        ensures
            final(reader).wf(),
            final(reader).data() == old(reader).data(),
            dec_symbols_block(old(reader).data(), old(reader).position()) == match r {
                Ok(s) => Ok::<(Seq<Seq<char>>, int), Error>((s.view(), final(reader).position())),
                Err(e) => Err(e),
            },
    {
        reader.read_abi_symbols()
    }

    /// The id interned for the given name, if any: the inverse of
    /// [`AbiSymbols::name_by_id`].
    pub fn get(&self, symbol: &str) -> (r: Option<u32>)
        ensures
            r == crate::wire::sym_lookup(self.view(), symbol@, 0),
    {
        let needle = String::from_str(symbol);
        proof {
            lemma_view_strings_index(self.symbols@);
        }
        let n = self.symbols.len();
        let mut i: usize = 0;
        while i < n
            invariant
                n == self.symbols@.len(),
                i <= n,
                needle@ == symbol@,
                self.view().len() == n,
                forall|j: int| 0 <= j < n ==> self.view()[j] == #[trigger] self.symbols@[j]@,
                crate::wire::sym_lookup(self.view(), symbol@, 0) == crate::wire::sym_lookup(
                    self.view(),
                    symbol@,
                    i as int,
                ),
            decreases n - i,
        {
            if self.symbols[i] == needle {
                return Some(i as u32);
            }
            i = i + 1;
        }
        None
    }

    /// The name interned under the given id; callers guarantee the id is in
    /// range.
    pub fn name_by_id(&self, id: u32) -> (r: &str)
        requires
            id < self.view().len(),
        ensures
            r@ == self.view()[id as int],
    {
        proof {
            lemma_view_strings_index(self.symbols@);
        }
        self.symbols[id as usize].as_str()
    }
}

impl AbiTypes {
    /// Reads the type block off a byte stream.
    pub fn from_bytes(reader: &mut Reader, symbols: &AbiSymbols) -> (r: Result<AbiTypes, Error>)
        requires
            old(reader).wf(),
        ensures
            final(reader).wf(),
            final(reader).data() == old(reader).data(),
            dec_types_block(old(reader).data(), old(reader).position(), symbols.view())
                == match r {
                Ok(t) => Ok::<((Seq<AbiTypeV>, CoreType), int), Error>(
                    ((t.view(), t.core), final(reader).position()),
                ),
                Err(e) => Err(e),
            },
    {
        reader.read_abi_types(symbols)
    }
}

impl AbiFunctions {
    /// Reads the function block off a byte stream.
    pub fn from_bytes(reader: &mut Reader, symbols: &AbiSymbols, types: &AbiTypes) -> (r: Result<
        AbiFunctions,
        Error,
    >)
        requires
            old(reader).wf(),
        ensures
            final(reader).wf(),
            final(reader).data() == old(reader).data(),
            dec_functions_block(
                old(reader).data(),
                old(reader).position(),
                types.types@.len() as int,
            ) == match r {
                Ok(f) => Ok::<(Seq<AbiFnV>, int), Error>(
                    (view_fns(f.functions@), final(reader).position()),
                ),
                Err(e) => Err(e),
            },
    {
        reader.read_abi_functions(symbols, types)
    }
}

/// The decimal digit character of `d`.
pub open spec fn spec_digit(d: int) -> char {
    if d == 0 {
        '0'
    } else if d == 1 {
        '1'
    } else if d == 2 {
        '2'
    } else if d == 3 {
        '3'
    } else if d == 4 {
        '4'
    } else if d == 5 {
        '5'
    } else if d == 6 {
        '6'
    } else if d == 7 {
        '7'
    } else if d == 8 {
        '8'
    } else {
        '9'
    }
}

/// The decimal spelling of a non-negative number.
pub open spec fn spec_decimal(n: int) -> Seq<char>
    decreases n,
{
    if n < 10 {
        seq![spec_digit(n)]
    } else {
        spec_decimal(n / 10).push(spec_digit(n % 10))
    }
}

/// One decimal digit as a string.
fn digit_str(d: u32) -> (r: &'static str)
    requires
        d < 10,
    ensures
        r@ == seq![spec_digit(d as int)],
{
    proof {
        reveal_strlit("0");
        reveal_strlit("1");
        reveal_strlit("2");
        reveal_strlit("3");
        reveal_strlit("4");
        reveal_strlit("5");
        reveal_strlit("6");
        reveal_strlit("7");
        reveal_strlit("8");
        reveal_strlit("9");
    }
    let r = if d == 0 {
        "0"
    } else if d == 1 {
        "1"
    } else if d == 2 {
        "2"
    } else if d == 3 {
        "3"
    } else if d == 4 {
        "4"
    } else if d == 5 {
        "5"
    } else if d == 6 {
        "6"
    } else if d == 7 {
        "7"
    } else if d == 8 {
        "8"
    } else {
        "9"
    };
    proof {
        assert(r@ =~= seq![spec_digit(d as int)]);
    }
    r
}

/// Renders a number in decimal.
fn u32_decimal(n: u32) -> (s: String)
    ensures
        s@ == spec_decimal(n as int),
    decreases n,
{
    if n < 10 {
        String::from_str(digit_str(n))
    } else {
        let mut s = u32_decimal(n / 10);
        s.append(digit_str(n % 10));
        proof {
            assert(s@ =~= spec_decimal(n as int));
        }
        s
    }
}

impl AbiType {
    /// The type's fully-qualified name, over the raw symbol ids:
    /// `"<module>::<name>"`.
    pub fn fqn(&self) -> (s: String)
        ensures
            s@ == spec_decimal(self.module as int) + "::"@ + spec_decimal(self.name as int),
    {
        let mut s = u32_decimal(self.module);
        s.append("::");
        let name = u32_decimal(self.name);
        s.append(name.as_str());
        s
    }

    /// The type's fully-qualified name, resolved through the symbol table;
    /// callers guarantee the ids are in range.
    pub fn named_fqn(&self, abi: &Abi) -> (s: String)
        requires
            self.module < abi.symbols_v().len(),
            self.name < abi.symbols_v().len(),
        ensures
            s@ == abi.symbols_v()[self.module as int] + "::"@ + abi.symbols_v()[self.name as int],
    {
        let module = abi.symbols.name_by_id(self.module);
        let mut s = String::from_str(module);
        s.append("::");
        let name = abi.symbols.name_by_id(self.name);
        s.append(name);
        s
    }
}

impl AbiFn {
    /// The function's fully-qualified name, over the raw symbol ids:
    /// `"<module>::<type>::<name>"` for a method, `"<module>::<name>"` for a
    /// free function.
    pub fn fqn(&self) -> (s: String)
        ensures
            s@ == match self.ty {
                Some(t) => spec_decimal(self.module as int) + "::"@ + spec_decimal(t as int)
                    + "::"@ + spec_decimal(self.name as int),
                None => spec_decimal(self.module as int) + "::"@ + spec_decimal(
                    self.name as int,
                ),
            },
    {
        let mut s = u32_decimal(self.module);
        s.append("::");
        match self.ty {
            Some(t) => {
                let ts = u32_decimal(t);
                s.append(ts.as_str());
                s.append("::");
            },
            None => {},
        }
        let name = u32_decimal(self.name);
        s.append(name.as_str());
        s
    }
}

/// The first type at or after `i` whose module and name symbols match.
pub open spec fn find_type_id(ts: Seq<AbiTypeV>, module: u32, name: u32, i: int) -> Option<u32>
    decreases ts.len() - i,
{
    if i < 0 || i >= ts.len() {
        None
    } else if ts[i].module == module && ts[i].name == name {
        Some(i as u32)
    } else {
        find_type_id(ts, module, name, i + 1)
    }
}

/// The position of the first `"::"` at or after `i`.
pub open spec fn find_sep_at(s: Seq<char>, i: int) -> Option<int>
    decreases s.len() - i,
{
    if i < 0 || i + 1 >= s.len() {
        None
    } else if s[i] == ':' && s[i + 1] == ':' {
        Some(i)
    } else {
        find_sep_at(s, i + 1)
    }
}

/// The first function at or after `i` whose module and name symbols match.
pub open spec fn find_fn_id(fs: Seq<AbiFn>, module: u32, name: u32, i: int) -> Option<int>
    decreases fs.len() - i,
{
    if i < 0 || i >= fs.len() {
        None
    } else if fs[i].module == module && fs[i].name == name {
        Some(i)
    } else {
        find_fn_id(fs, module, name, i + 1)
    }
}

/// What a fully-qualified type lookup resolves to: the name splits once on
/// the literal separator, both halves must be interned, and the first type
/// carrying those symbol ids wins.
pub open spec fn spec_type_by_fqn(abi: Abi, fqn: Seq<char>) -> Option<u32> {
    match find_sep_at(fqn, 0) {
        Some(k) => match (
            crate::wire::sym_lookup(abi.symbols_v(), fqn.subrange(0, k), 0),
            crate::wire::sym_lookup(abi.symbols_v(), fqn.subrange(k + 2, fqn.len() as int), 0),
        ) {
            (Some(m), Some(n)) => find_type_id(abi.types_v(), m, n, 0),
            _ => None,
        },
        None => None,
    }
}

/// What a fully-qualified function lookup resolves to, by the same split.
pub open spec fn spec_fn_by_fqn(abi: Abi, fqn: Seq<char>) -> Option<int> {
    match find_sep_at(fqn, 0) {
        Some(k) => match (
            crate::wire::sym_lookup(abi.symbols_v(), fqn.subrange(0, k), 0),
            crate::wire::sym_lookup(abi.symbols_v(), fqn.subrange(k + 2, fqn.len() as int), 0),
        ) {
            (Some(m), Some(n)) => find_fn_id(abi.functions.functions@, m, n, 0),
            _ => None,
        },
        None => None,
    }
}

/// Splits a string at its first `"::"`, keeping neither side's separator.
fn split_once_sep(s: &str) -> (r: Option<(String, String)>)
    ensures
        match find_sep_at(s@, 0) {
            Some(k) => r matches Some((a, b)) && a@ == s@.subrange(0, k) && b@ == s@.subrange(
                k + 2,
                s@.len() as int,
            ),
            None => r is None,
        },
{
    let n = s.unicode_len();
    if n < 1 {
        return None;
    }
    let mut i: usize = 0;
    while i + 1 < n
        invariant
            n == s@.len(),
            n >= 1,
            i + 1 <= n,
            find_sep_at(s@, 0) == find_sep_at(s@, i as int),
        decreases n - i,
    {
        if s.get_char(i) == ':' && s.get_char(i + 1) == ':' {
            let head = s.substring_char(0, i);
            let tail = s.substring_char(i + 2, n);
            return Some((String::from_str(head), String::from_str(tail)));
        }
        i = i + 1;
    }
    None
}

impl Abi {
    /// The id interned for a symbol name.
    pub fn get_symbol_id(&self, value: &str) -> (r: Option<u32>)
        ensures
            r == crate::wire::spec_symbol_id(*self, value@),
    {
        self.symbols.get(value)
    }

    /// The symbol with the given id; callers guarantee the id is in range.
    pub fn get_symbol_by_id(&self, id: u32) -> (r: AbiSymbol)
        ensures
            r.0 == id,
    {
        AbiSymbol(id)
    }

    /// The symbol spelling the given name, if the table interns it.
    pub fn get_symbol(&self, value: &str) -> (r: Option<AbiSymbol>)
        ensures
            match r {
                Some(s) => crate::wire::spec_symbol_id(*self, value@) == Some(s.0),
                None => crate::wire::spec_symbol_id(*self, value@) is None,
            },
    {
        match self.symbols.get(value) {
            Some(id) => Some(AbiSymbol(id)),
            None => None,
        }
    }

    /// The first type whose fully-qualified name spells `fqn`: the name is
    /// split once on the literal separator into module and name, both are
    /// resolved to symbol ids, and the types are scanned in load order.
    pub fn get_type_by_fqn(&self, fqn: &str) -> (r: Option<u32>)
        ensures
            r == spec_type_by_fqn(*self, fqn@),
    {
        match split_once_sep(fqn) {
            None => None,
            Some((module, name)) => self.get_type_by_module_and_name(
                module.as_str(),
                name.as_str(),
            ),
        }
    }

    /// The first function whose fully-qualified name spells `fqn`, by the
    /// same split.  Duplicate fully-qualified names are not expected; the
    /// scan returns the first.
    pub fn get_fn_by_fqn(&self, fqn: &str) -> (r: Option<&AbiFn>)
        ensures
            match r {
                Some(f) => spec_fn_by_fqn(*self, fqn@) matches Some(i) && f
                    == &self.functions.functions@[i],
                None => spec_fn_by_fqn(*self, fqn@) is None,
            },
    {
        let (module, name) = match split_once_sep(fqn) {
            None => {
                return None;
            },
            Some(parts) => parts,
        };
        let m = match self.symbols.get(module.as_str()) {
            Some(v) => v,
            None => {
                return None;
            },
        };
        let n = match self.symbols.get(name.as_str()) {
            Some(v) => v,
            None => {
                return None;
            },
        };
        let count = self.functions.functions.len();
        let mut i: usize = 0;
        while i < count
            invariant
                count == self.functions.functions@.len(),
                i <= count,
                crate::wire::sym_lookup(self.symbols_v(), fqn@.subrange(0, find_sep_at(fqn@, 0)->Some_0), 0)
                    == Some(m),
                crate::wire::sym_lookup(
                    self.symbols_v(),
                    fqn@.subrange(find_sep_at(fqn@, 0)->Some_0 + 2, fqn@.len() as int),
                    0,
                ) == Some(n),
                find_sep_at(fqn@, 0) is Some,
                find_fn_id(self.functions.functions@, m, n, 0) == find_fn_id(
                    self.functions.functions@,
                    m,
                    n,
                    i as int,
                ),
            decreases count - i,
        {
            let f = &self.functions.functions[i];
            if f.module == m && f.name == n {
                return Some(f);
            }
            i = i + 1;
        }
        None
    }

    /// The first type whose module and name spell the given strings, if the
    /// symbols exist and such a type is defined.
    pub fn get_type_by_module_and_name(&self, module: &str, name: &str) -> (r: Option<u32>)
        ensures
            match (
                crate::wire::spec_symbol_id(*self, module@),
                crate::wire::spec_symbol_id(*self, name@),
            ) {
                (Some(m), Some(n)) => r == find_type_id(self.types_v(), m, n, 0),
                _ => r is None,
            },
    {
        let m = match self.symbols.get(module) {
            Some(v) => v,
            None => {
                proof {
                    assert(crate::wire::spec_symbol_id(*self, module@) is None);
                }
                return None;
            },
        };
        proof {
            assert(crate::wire::sym_lookup(self.symbols.view(), module@, 0) == Some(m));
            assert(crate::wire::spec_symbol_id(*self, module@) == Some(m));
        }
        let n = match self.symbols.get(name) {
            Some(v) => v,
            None => {
                return None;
            },
        };
        proof {
            assert(crate::wire::spec_symbol_id(*self, name@) == Some(n));
            lemma_view_types_index(self.types.types@);
        }
        let count = self.types.types.len();
        let mut i: usize = 0;
        while i < count
            invariant
                count == self.types.types@.len(),
                i <= count,
                self.types_v().len() == count,
                crate::wire::spec_symbol_id(*self, module@) == Some(m),
                crate::wire::spec_symbol_id(*self, name@) == Some(n),
                forall|j: int|
                    0 <= j < count ==> self.types_v()[j] == #[trigger] self.types.types@[j]@,
                find_type_id(self.types_v(), m, n, 0) == find_type_id(
                    self.types_v(),
                    m,
                    n,
                    i as int,
                ),
            decreases count - i,
        {
            let t = &self.types.types[i];
            proof {
                assert(self.types_v()[i as int] == self.types.types@[i as int]@);
            }
            if t.module == m && t.name == n {
                proof {
                    assert(find_type_id(self.types_v(), m, n, i as int) == Some(i as u32));
                    assert(crate::wire::spec_symbol_id(*self, module@) == Some(m));
                    assert(crate::wire::spec_symbol_id(*self, name@) == Some(n));
                    assert(find_type_id(self.types_v(), m, n, 0) == Some(i as u32));
                }
                return Some(i as u32);
            }
            i = i + 1;
        }
        None
    }
}

/// The first position at or after `i` where the character occurs.
pub open spec fn find_char_at(s: Seq<char>, c: char, i: int) -> Option<int>
    decreases s.len() - i,
{
    if i < 0 || i >= s.len() {
        None
    } else if s[i] == c {
        Some(i)
    } else {
        find_char_at(s, c, i + 1)
    }
}

/// A found type id is a valid index.
pub proof fn lemma_find_type_id_bounds(ts: Seq<AbiTypeV>, module: u32, name: u32, i: int)
    requires
        0 <= i,
    ensures
        find_type_id(ts, module, name, i) matches Some(id) ==> id < ts.len(),
    decreases ts.len() - i,
{
    if i < ts.len() {
        lemma_find_type_id_bounds(ts, module, name, i + 1);
        if ts[i].module == module && ts[i].name == name {
            assert((i as u32) as int <= i);
        }
    }
}

/// Splits a string at the first occurrence of the separator, keeping
/// neither side's separator.
fn split_once_char(s: &str, sep: char) -> (r: Option<(String, String)>)
    ensures
        match find_char_at(s@, sep, 0) {
            Some(k) => r matches Some((a, b)) && a@ == s@.subrange(0, k) && b@ == s@.subrange(
                k + 1,
                s@.len() as int,
            ),
            None => r is None,
        },
{
    let n = s.unicode_len();
    let mut i: usize = 0;
    while i < n
        invariant
            n == s@.len(),
            i <= n,
            find_char_at(s@, sep, 0) == find_char_at(s@, sep, i as int),
        decreases n - i,
    {
        if s.get_char(i) == sep {
            let head = s.substring_char(0, i);
            let tail = s.substring_char(i + 1, n);
            return Some((String::from_str(head), String::from_str(tail)));
        }
        i = i + 1;
    }
    None
}

/// The module variable an attribute of the synthetic root type describes,
/// if its name symbol parses as `"<module>.<name>"` and both parts are
/// themselves interned.
pub open spec fn spec_modvar(abi: Abi, a: AbiAttr) -> Option<ModVar> {
    if a.name < abi.symbols_v().len() {
        let s = abi.symbols_v()[a.name as int];
        match find_char_at(s, '.', 0) {
            Some(k) => {
                let m = crate::wire::sym_lookup(abi.symbols_v(), s.subrange(0, k), 0);
                let n = crate::wire::sym_lookup(
                    abi.symbols_v(),
                    s.subrange(k + 1, s.len() as int),
                    0,
                );
                match (m, n) {
                    (Some(m), Some(n)) => Some(
                        ModVar { module: m, name: n, ty: a.prog_type_offset, nullable: a.nullable },
                    ),
                    _ => None,
                }
            },
            None => None,
        }
    } else {
        None
    }
}

/// The module variables the attributes from index `i` on describe.
pub open spec fn spec_modvars(abi: Abi, ats: Seq<AbiAttr>, i: int) -> Seq<ModVar>
    decreases ats.len() - i,
{
    if i < 0 || i >= ats.len() {
        Seq::empty()
    } else {
        match spec_modvar(abi, ats[i]) {
            Some(mv) => seq![mv] + spec_modvars(abi, ats, i + 1),
            None => spec_modvars(abi, ats, i + 1),
        }
    }
}

/// Collects the module variables from index `i` on, appending them.
fn collect_modvars(abi: &Abi, ats: &Vec<AbiAttr>, i: usize, out: &mut Vec<ModVar>)
    requires
        i <= ats@.len(),
    ensures
        final(out)@ == old(out)@ + spec_modvars(*abi, ats@, i as int),
    decreases ats@.len() - i,
{
    proof {
        lemma_view_strings_index(abi.symbols.symbols@);
    }
    if i >= ats.len() {
        assert(out@ =~= out@ + spec_modvars(*abi, ats@, i as int));
        return ;
    }
    let a = ats[i];
    if (a.name as usize) < abi.symbols.symbols.len() {
        let s = abi.symbols.name_by_id(a.name);
        match split_once_char(s, '.') {
            Some((m, n)) => {
                match (abi.symbols.get(m.as_str()), abi.symbols.get(n.as_str())) {
                    (Some(mi), Some(ni)) => {
                        out.push(
                            ModVar {
                                module: mi,
                                name: ni,
                                ty: a.prog_type_offset,
                                nullable: a.nullable,
                            },
                        );
                    },
                    _ => {},
                }
            },
            None => {},
        }
    }
    collect_modvars(abi, ats, i + 1, out);
    proof {
        assert(final(out)@ =~= old(out)@ + spec_modvars(*abi, ats@, i as int));
    }
}

impl Abi {
    /// The module variables of the synthetic root type: each of its
    /// attributes whose name symbol spells `"<module>.<name>"` over interned
    /// parts, in attribute order.  Attributes whose names do not parse are
    /// passed over.
    pub fn get_modvars(&self) -> (r: Vec<ModVar>)
        ensures
            r@ == match spec_type_by_fqn(*self, "::$$$root"@) {
                Some(tid) => match self.types_v()[tid as int].attrs {
                    Some(ats) => spec_modvars(*self, ats, 0),
                    None => Seq::<ModVar>::empty(),
                },
                None => Seq::<ModVar>::empty(),
            },
    {
        proof {
            if spec_type_by_fqn(*self, "::$$$root"@) is Some && find_sep_at(
                "::$$$root"@,
                0,
            ) is Some {
                let k = find_sep_at("::$$$root"@, 0)->Some_0;
                let m = crate::wire::sym_lookup(
                    self.symbols_v(),
                    "::$$$root"@.subrange(0, k),
                    0,
                );
                let n = crate::wire::sym_lookup(
                    self.symbols_v(),
                    "::$$$root"@.subrange(k + 2, "::$$$root"@.len() as int),
                    0,
                );
                if m is Some && n is Some {
                    lemma_find_type_id_bounds(self.types_v(), m->Some_0, n->Some_0, 0);
                }
            }
            lemma_view_types_index(self.types.types@);
        }
        let root = match self.get_type_by_fqn("::$$$root") {
            Some(t) => t,
            None => {
                return Vec::new();
            },
        };
        proof {
            assert(self.types_v()[root as int] == self.types.types@[root as int]@);
        }
        match &self.types.types[root as usize].attrs {
            None => Vec::new(),
            Some(ats) => {
                let mut out: Vec<ModVar> = Vec::new();
                collect_modvars(self, ats, 0, &mut out);
                proof {
                    assert(out@ =~= Seq::<ModVar>::empty() + spec_modvars(*self, ats@, 0));
                }
                out
            },
        }
    }
}

impl Abi {
    /// The documented ABI invariants, over all types.
    pub open spec fn wf(&self) -> bool {
        forall|i: int|
            0 <= i < self.types_v().len() ==> type_wf(
                #[trigger] self.types_v()[i],
                self.types_v().len() as int,
            )
    }
}

// ---------------------------------------------------------------------------
// The ABI block wire format, as mathematics
// ---------------------------------------------------------------------------
/// Decodes the request headers: protocol, magic and version, little-endian.
pub open spec fn dec_request_headers(b: Seq<u8>, p: int) -> Result<(RequestHeaders, int), Error> {
    match dec_le(b, p, 2) {
        None => Err(Error::Truncated),
        Some((protocol, p1)) => match dec_le(b, p1, 2) {
            None => Err(Error::Truncated),
            Some((magic, p2)) => match dec_le(b, p2, 4) {
                None => Err(Error::Truncated),
                Some((version, p3)) => Ok(
                    (
                        RequestHeaders {
                            protocol: protocol as u16,
                            magic: magic as u16,
                            version: version as u32,
                        },
                        p3,
                    ),
                ),
            },
        },
    }
}

/// Decodes the ABI headers: the request headers, then the CRC.
pub open spec fn dec_abi_headers(b: Seq<u8>, p: int) -> Result<(AbiHeaders, int), Error> {
    match dec_request_headers(b, p) {
        Err(e) => Err(e),
        Ok((h, p1)) => match dec_le(b, p1, 8) {
            None => Err(Error::Truncated),
            Some((crc, p2)) => Ok((AbiHeaders { headers: h, crc: crc as u64 }, p2)),
        },
    }
}

/// Decodes one symbol entry: a varint-u32 length, then that many UTF-8
/// bytes.
pub open spec fn dec_symbol_entry(b: Seq<u8>, p: int) -> Result<(Seq<char>, int), Error> {
    match dec_vu32(b, p) {
        None => Err(Error::Truncated),
        Some((len, q)) => {
            if q + len > b.len() {
                Err(Error::Truncated)
            } else if valid_utf8(b.subrange(q, q + len)) {
                Ok((decode_utf8(b.subrange(q, q + len)), q + len))
            } else {
                Err(Error::InvalidUtf8)
            }
        },
    }
}

/// Decodes `n` symbol entries in order.
pub open spec fn dec_symbol_list(b: Seq<u8>, p: int, n: int) -> Result<
    (Seq<Seq<char>>, int),
    Error,
>
    decreases n,
{
    if n <= 0 {
        Ok((Seq::empty(), p))
    } else {
        match dec_symbol_entry(b, p) {
            Err(e) => Err(e),
            Ok((s, q)) => match dec_symbol_list(b, q, n - 1) {
                Err(e) => Err(e),
                Ok((rest, r)) => Ok((seq![s] + rest, r)),
            },
        }
    }
}

/// Decodes the symbol block: a byte size (skipped), a count, then the
/// entries; the empty symbol always stands at id 0.
pub open spec fn dec_symbols_block(b: Seq<u8>, p: int) -> Result<(Seq<Seq<char>>, int), Error> {
    match dec_le(b, p, 8) {
        None => Err(Error::Truncated),
        Some((_size, p1)) => match dec_le(b, p1, 4) {
            None => Err(Error::Truncated),
            Some((n, p2)) => match dec_symbol_list(b, p2, n) {
                Err(e) => Err(e),
                Ok((syms, p3)) => Ok((seq![Seq::<char>::empty()] + syms, p3)),
            },
        },
    }
}

/// Decodes one attribute: five varint-u32 fields, the static type byte and
/// the flags byte.  The program-type reference starts out deferred.
pub open spec fn dec_attr(b: Seq<u8>, p: int) -> Result<(AbiAttr, int), Error> {
    match dec_vu32(b, p) {
        None => Err(Error::Truncated),
        Some((name, p1)) => match dec_vu32(b, p1) {
            None => Err(Error::Truncated),
            Some((abi_type, p2)) => match dec_vu32(b, p2) {
                None => Err(Error::Truncated),
                Some((prog, p3)) => match dec_vu32(b, p3) {
                    None => Err(Error::Truncated),
                    Some((any_off, p4)) => match dec_vu32(b, p4) {
                        None => Err(Error::Truncated),
                        Some((att_off, p5)) => match dec_u8(b, p5) {
                            None => Err(Error::Truncated),
                            Some((sbi, p6)) => match dec_u8(b, p6) {
                                None => Err(Error::Truncated),
                                Some((flags, p7)) => Ok(
                                    (
                                        AbiAttr {
                                            name: name as u32,
                                            abi_type: abi_type as u32,
                                            prog_type_offset: LazyAbiType::Offset(prog as u32),
                                            mapped_any_offset: any_off as u32,
                                            mapped_att_offset: att_off as u32,
                                            sbi_type: sbi,
                                            nullable: flags & 1 != 0,
                                            mapped: flags & 2 != 0,
                                        },
                                        p7,
                                    ),
                                ),
                            },
                        },
                    },
                },
            },
        },
    }
}

/// Decodes `n` attributes in order.
pub open spec fn dec_attr_list(b: Seq<u8>, p: int, n: int) -> Result<(Seq<AbiAttr>, int), Error>
    decreases n,
{
    if n <= 0 {
        Ok((Seq::empty(), p))
    } else {
        match dec_attr(b, p) {
            Err(e) => Err(e),
            Ok((a, q)) => match dec_attr_list(b, q, n - 1) {
                Err(e) => Err(e),
                Ok((rest, r)) => Ok((seq![a] + rest, r)),
            },
        }
    }
}

/// Decodes one type: nine varint-u32 fields, the flags byte, then its
/// attributes if it declares any.
pub open spec fn dec_type(b: Seq<u8>, p: int) -> Result<(AbiTypeV, int), Error> {
    match dec_vu32(b, p) {
        None => Err(Error::Truncated),
        Some((module, p1)) => match dec_vu32(b, p1) {
            None => Err(Error::Truncated),
            Some((name, p2)) => match dec_vu32(b, p2) {
                None => Err(Error::Truncated),
                Some((lib_name, p3)) => match dec_vu32(b, p3) {
                    None => Err(Error::Truncated),
                    Some((nattrs, p4)) => match dec_vu32(b, p4) {
                        None => Err(Error::Truncated),
                        Some((_attr_off, p5)) => match dec_vu32(b, p5) {
                            None => Err(Error::Truncated),
                            Some((_mapped_prog, p6)) => match dec_vu32(b, p6) {
                                None => Err(Error::Truncated),
                                Some((mapped_abi, p7)) => match dec_vu32(b, p7) {
                                    None => Err(Error::Truncated),
                                    Some((masked_abi, p8)) => match dec_vu32(b, p8) {
                                        None => Err(Error::Truncated),
                                        Some((nullable_nb, p9)) => match dec_u8(b, p9) {
                                            None => Err(Error::Truncated),
                                            Some((flags, p10)) => {
                                                let attrs = if nattrs > 0 {
                                                    match dec_attr_list(b, p10, nattrs) {
                                                        Err(e) => Err(e),
                                                        Ok((ats, p11)) => Ok(
                                                            (Some(ats), p11),
                                                        ),
                                                    }
                                                } else {
                                                    Ok((None, p10))
                                                };
                                                match attrs {
                                                    Err(e) => Err(e),
                                                    Ok((ats, p11)) => Ok(
                                                        (
                                                            AbiTypeV {
                                                                lib_name: lib_name as u32,
                                                                module: module as u32,
                                                                name: name as u32,
                                                                mapped_abi_type_offset: mapped_abi
                                                                    as u32,
                                                                masked_abi_type_offset: masked_abi
                                                                    as u32,
                                                                nullable_nb_bytes: nullable_nb
                                                                    as u32,
                                                                is_native: flags & 1 != 0,
                                                                is_abstract: flags & 2 != 0,
                                                                is_enum: flags & 4 != 0,
                                                                is_masked: flags & 8 != 0,
                                                                attrs: ats,
                                                            },
                                                            p11,
                                                        ),
                                                    ),
                                                }
                                            },
                                        },
                                    },
                                },
                            },
                        },
                    },
                },
            },
        },
    }
}

/// Decodes `n` types in order.
pub open spec fn dec_type_list(b: Seq<u8>, p: int, n: int) -> Result<(Seq<AbiTypeV>, int), Error>
    decreases n,
{
    if n <= 0 {
        Ok((Seq::empty(), p))
    } else {
        match dec_type(b, p) {
            Err(e) => Err(e),
            Ok((t, q)) => match dec_type_list(b, q, n - 1) {
                Err(e) => Err(e),
                Ok((rest, r)) => Ok((seq![t] + rest, r)),
            },
        }
    }
}

/// Resolves one attribute's deferred references against the final type
/// count, and rejects out-of-range type ids.
pub open spec fn resolve_attr(a: AbiAttr, ntypes: int) -> Result<AbiAttr, Error> {
    let k = match a.prog_type_offset {
        LazyAbiType::Offset(k) => k,
        LazyAbiType::Ref(k) => k,
    };
    if a.abi_type >= ntypes {
        Err(Error::UnknownTypeId(a.abi_type))
    } else if k >= ntypes {
        Err(Error::UnknownTypeId(k))
    } else {
        Ok(AbiAttr { prog_type_offset: LazyAbiType::Ref(k), ..a })
    }
}

/// Resolves a type's attributes from index `i` on.
pub open spec fn resolve_attrs(ats: Seq<AbiAttr>, ntypes: int, i: int) -> Result<
    Seq<AbiAttr>,
    Error,
>
    decreases ats.len() - i,
{
    if i < 0 || i >= ats.len() {
        Ok(Seq::empty())
    } else {
        match resolve_attr(ats[i], ntypes) {
            Err(e) => Err(e),
            Ok(a) => match resolve_attrs(ats, ntypes, i + 1) {
                Err(e) => Err(e),
                Ok(rest) => Ok(seq![a] + rest),
            },
        }
    }
}

/// Resolves one type: checks its mapped reference, the nullable-bitset
/// invariant, and resolves its attributes.
pub open spec fn resolve_type(t: AbiTypeV, ntypes: int) -> Result<AbiTypeV, Error> {
    if t.mapped_abi_type_offset >= ntypes {
        Err(Error::UnknownTypeId(t.mapped_abi_type_offset))
    } else {
        match t.attrs {
            None => Ok(t),
            Some(ats) => {
                if t.nullable_nb_bytes != spec_nullable_bytes(ats) {
                    Err(Error::MalformedAbi)
                } else {
                    match resolve_attrs(ats, ntypes, 0) {
                        Err(e) => Err(e),
                        Ok(rs) => Ok(AbiTypeV { attrs: Some(rs), ..t }),
                    }
                }
            },
        }
    }
}

/// Resolves every type from index `i` on against the final type count.
pub open spec fn resolve_types(ts: Seq<AbiTypeV>, ntypes: int, i: int) -> Result<
    Seq<AbiTypeV>,
    Error,
>
    decreases ts.len() - i,
{
    if i < 0 || i >= ts.len() {
        Ok(Seq::empty())
    } else {
        match resolve_type(ts[i], ntypes) {
            Err(e) => Err(e),
            Ok(t) => match resolve_types(ts, ntypes, i + 1) {
                Err(e) => Err(e),
                Ok(rest) => Ok(seq![t] + rest),
            },
        }
    }
}

/// The `core` shortcut after scanning the first `i` types: a type in module
/// `core` named `String`, `Array` or `Map` records its id; a later match
/// wins over an earlier one.
pub open spec fn core_of(symbols: Seq<Seq<char>>, ts: Seq<AbiTypeV>, i: int) -> CoreType
    decreases i,
{
    if i <= 0 {
        CoreType {
            string: 0,
            char: 0,
            array: 0,
            map: 0,
            node: 0,
            node_list: 0,
            node_index: 0,
            node_time: 0,
            node_geo: 0,
        }
    } else {
        let c = core_of(symbols, ts, i - 1);
        let t = ts[i - 1];
        if t.module < symbols.len() && symbols[t.module as int] == "core"@ {
            if t.name < symbols.len() && symbols[t.name as int] == "String"@ {
                CoreType { string: (i - 1) as u32, ..c }
            } else if t.name < symbols.len() && symbols[t.name as int] == "Array"@ {
                CoreType { array: (i - 1) as u32, ..c }
            } else if t.name < symbols.len() && symbols[t.name as int] == "Map"@ {
                CoreType { map: (i - 1) as u32, ..c }
            } else {
                c
            }
        } else {
            c
        }
    }
}

/// Decodes the type block: a byte size (skipped), the type and attribute
/// counts, the types, then the resolution pass and the `core` scan.
pub open spec fn dec_types_block(b: Seq<u8>, p: int, symbols: Seq<Seq<char>>) -> Result<
    ((Seq<AbiTypeV>, CoreType), int),
    Error,
> {
    match dec_le(b, p, 8) {
        None => Err(Error::Truncated),
        Some((_size, p1)) => match dec_le(b, p1, 4) {
            None => Err(Error::Truncated),
            Some((ntypes, p2)) => match dec_le(b, p2, 4) {
                None => Err(Error::Truncated),
                Some((_nattrs, p3)) => match dec_type_list(b, p3, ntypes) {
                    Err(e) => Err(e),
                    Ok((raw, p4)) => match resolve_types(raw, raw.len() as int, 0) {
                        Err(e) => Err(e),
                        Ok(ts) => Ok(((ts, core_of(symbols, ts, ts.len() as int)), p4)),
                    },
                },
            },
        },
    }
}

/// A decoded type list has exactly the requested length.
pub proof fn lemma_dec_type_list_len(b: Seq<u8>, p: int, n: int)
    ensures
        dec_type_list(b, p, n) matches Ok((ts, q)) ==> ts.len() == if n <= 0 {
            0int
        } else {
            n
        },
    decreases n,
{
    if n > 0 {
        match dec_type(b, p) {
            Err(_) => {},
            Ok((t, q)) => {
                lemma_dec_type_list_len(b, q, n - 1);
            },
        }
    }
}

/// Resolved attributes keep their count and nullability, and satisfy the
/// attribute invariants.
pub proof fn lemma_resolve_attrs_props(ats: Seq<AbiAttr>, n: int, i: int)
    requires
        0 <= i <= ats.len(),
    ensures
        resolve_attrs(ats, n, i) matches Ok(rs) ==> {
            &&& rs.len() == ats.len() - i
            &&& forall|j: int|
                0 <= j < rs.len() ==> attr_wf(#[trigger] rs[j], n) && rs[j].nullable == ats[i
                    + j].nullable
        },
    decreases ats.len() - i,
{
    if i < ats.len() {
        lemma_resolve_attrs_props(ats, n, i + 1);
    }
}

/// Sequences whose attributes agree on nullability count the same.
pub proof fn lemma_count_nullable_congruent(s1: Seq<AbiAttr>, s2: Seq<AbiAttr>)
    requires
        s1.len() == s2.len(),
        forall|j: int| 0 <= j < s1.len() ==> s1[j].nullable == (#[trigger] s2[j]).nullable,
    ensures
        count_nullable(s1) == count_nullable(s2),
    decreases s1,
{
    if s1.len() > 0 {
        assert(forall|j: int|
            0 <= j < s1.drop_last().len() ==> s1.drop_last()[j].nullable
                == (#[trigger] s2.drop_last()[j]).nullable);
        lemma_count_nullable_congruent(s1.drop_last(), s2.drop_last());
        assert(s1.last().nullable == s2.last().nullable);
    }
}

/// A resolved type satisfies the documented type invariants.
pub proof fn lemma_resolve_type_wf(t: AbiTypeV, n: int)
    ensures
        resolve_type(t, n) matches Ok(t2) ==> type_wf(t2, n),
{
    if t.mapped_abi_type_offset < n {
        match t.attrs {
            None => {},
            Some(ats) => {
                if t.nullable_nb_bytes == spec_nullable_bytes(ats) {
                    lemma_resolve_attrs_props(ats, n, 0);
                    match resolve_attrs(ats, n, 0) {
                        Err(_) => {},
                        Ok(rs) => {
                            lemma_count_nullable_congruent(rs, ats);
                        },
                    }
                }
            },
        }
    }
}

/// Every resolved type satisfies the documented type invariants.
pub proof fn lemma_resolve_types_wf(ts: Seq<AbiTypeV>, n: int, i: int)
    requires
        0 <= i <= ts.len(),
    ensures
        resolve_types(ts, n, i) matches Ok(out) ==> {
            &&& out.len() == ts.len() - i
            &&& forall|j: int| 0 <= j < out.len() ==> type_wf(#[trigger] out[j], n)
        },
    decreases ts.len() - i,
{
    if i < ts.len() {
        lemma_resolve_type_wf(ts[i], n);
        lemma_resolve_types_wf(ts, n, i + 1);
    }
}

/// Each nonzero `core` shortcut names a type, scanned below `i`, in module
/// `core` with the matching name.
pub proof fn lemma_core_of_names(symbols: Seq<Seq<char>>, ts: Seq<AbiTypeV>, i: int)
    requires
        0 <= i <= 0x1_0000_0000,
        i <= ts.len(),
    ensures
        ({
            let c = core_of(symbols, ts, i);
            &&& (c.string == 0 || (c.string < i && ts[c.string as int].name < symbols.len()
                && symbols[ts[c.string as int].name as int] == "String"@))
            &&& (c.array == 0 || (c.array < i && ts[c.array as int].name < symbols.len()
                && symbols[ts[c.array as int].name as int] == "Array"@))
            &&& (c.map == 0 || (c.map < i && ts[c.map as int].name < symbols.len()
                && symbols[ts[c.map as int].name as int] == "Map"@))
        }),
    decreases i,
{
    if i > 0 {
        lemma_core_of_names(symbols, ts, i - 1);
    }
}

/// The `core` shortcuts a load records are sound: each nonzero id is in
/// range, and nonzero ids are pairwise distinct.
pub open spec fn core_ids_sound(core: CoreType, ntypes: int) -> bool {
    &&& (core.string == 0 || core.string < ntypes)
    &&& (core.array == 0 || core.array < ntypes)
    &&& (core.map == 0 || core.map < ntypes)
    &&& (core.string != 0 && core.array != 0 ==> core.string != core.array)
    &&& (core.string != 0 && core.map != 0 ==> core.string != core.map)
    &&& (core.array != 0 && core.map != 0 ==> core.array != core.map)
}

/// A decoded type block satisfies the documented invariants: every type is
/// well formed against the final type count, and the recorded `core` ids
/// are sound.
pub proof fn lemma_types_block_wf(b: Seq<u8>, p: int, symbols: Seq<Seq<char>>)
    ensures
        dec_types_block(b, p, symbols) matches Ok((tc, q)) ==> {
            &&& tc.0.len() < 0x1_0000_0000
            &&& forall|j: int| 0 <= j < tc.0.len() ==> type_wf(#[trigger] tc.0[j], tc.0.len() as int)
            &&& core_ids_sound(tc.1, tc.0.len() as int)
        },
{
    match dec_le(b, p, 8) {
        None => {},
        Some((_size, p1)) => match dec_le(b, p1, 4) {
            None => {},
            Some((ntypes, p2)) => {
                crate::reader::lemma_dec_le_bound(b, p1, 4);
                assert(crate::reader::pow256(4) == 0x100000000) by {
                    reveal_with_fuel(crate::reader::pow256, 5);
                }
                match dec_le(b, p2, 4) {
                    None => {},
                    Some((_nattrs, p3)) => match dec_type_list(b, p3, ntypes) {
                        Err(_) => {},
                        Ok((raw, p4)) => {
                            lemma_dec_type_list_len(b, p3, ntypes);
                            lemma_resolve_types_wf(raw, raw.len() as int, 0);
                            match resolve_types(raw, raw.len() as int, 0) {
                                Err(_) => {},
                                Ok(ts) => {
                                    lemma_core_of_names(symbols, ts, ts.len() as int);
                                    let c = core_of(symbols, ts, ts.len() as int);
                                    assert("String"@.len() == 6 && "Array"@.len() == 5
                                        && "Map"@.len() == 3) by {
                                        reveal_strlit("String");
                                        reveal_strlit("Array");
                                        reveal_strlit("Map");
                                    }
                                },
                            }
                        },
                    },
                }
            },
        },
    }
}

/// Decodes one function parameter: a nullable byte, the type id, the name
/// symbol.  An out-of-range type id is rejected.
pub open spec fn dec_param(b: Seq<u8>, p: int, ntypes: int) -> Result<(AbiParam, int), Error> {
    match dec_u8(b, p) {
        None => Err(Error::Truncated),
        Some((nullable, p1)) => match dec_vu32(b, p1) {
            None => Err(Error::Truncated),
            Some((ty, p2)) => match dec_vu32(b, p2) {
                None => Err(Error::Truncated),
                Some((name, p3)) => {
                    if ty >= ntypes {
                        Err(Error::UnknownTypeId(ty as u32))
                    } else {
                        Ok((AbiParam { name: name as u32, ty: ty as u32, nullable: nullable != 0 }, p3))
                    }
                },
            },
        },
    }
}

/// Decodes `n` parameters in order.
pub open spec fn dec_param_list(b: Seq<u8>, p: int, n: int, ntypes: int) -> Result<
    (Seq<AbiParam>, int),
    Error,
>
    decreases n,
{
    if n <= 0 {
        Ok((Seq::empty(), p))
    } else {
        match dec_param(b, p, ntypes) {
            Err(e) => Err(e),
            Ok((a, q)) => match dec_param_list(b, q, n - 1, ntypes) {
                Err(e) => Err(e),
                Ok((rest, r)) => Ok((seq![a] + rest, r)),
            },
        }
    }
}

/// Decodes one function signature.  The owning type id 0 is normalized to
/// "no owner"; an out-of-range return type id is rejected.
pub open spec fn dec_fn(b: Seq<u8>, p: int, ntypes: int) -> Result<(AbiFnV, int), Error> {
    match dec_vu32(b, p) {
        None => Err(Error::Truncated),
        Some((module, p1)) => match dec_vu32(b, p1) {
            None => Err(Error::Truncated),
            Some((ty, p2)) => match dec_vu32(b, p2) {
                None => Err(Error::Truncated),
                Some((name, p3)) => match dec_vu32(b, p3) {
                    None => Err(Error::Truncated),
                    Some((lib_name, p4)) => match dec_vu32(b, p4) {
                        None => Err(Error::Truncated),
                        Some((nparams, p5)) => match dec_param_list(b, p5, nparams, ntypes) {
                            Err(e) => Err(e),
                            Ok((params, p6)) => match dec_vu32(b, p6) {
                                None => Err(Error::Truncated),
                                Some((ret, p7)) => match dec_u8(b, p7) {
                                    None => Err(Error::Truncated),
                                    Some((flags, p8)) => {
                                        if ret >= ntypes {
                                            Err(Error::UnknownTypeId(ret as u32))
                                        } else {
                                            Ok(
                                                (
                                                    AbiFnV {
                                                        module: module as u32,
                                                        ty: if ty == 0 {
                                                            None
                                                        } else {
                                                            Some(ty as u32)
                                                        },
                                                        name: name as u32,
                                                        lib_name: lib_name as u32,
                                                        params,
                                                        return_type: ret as u32,
                                                        return_nullable: flags & 1 != 0,
                                                        is_task: flags & 2 != 0,
                                                    },
                                                    p8,
                                                ),
                                            )
                                        }
                                    },
                                },
                            },
                        },
                    },
                },
            },
        },
    }
}

/// Decodes `n` function signatures in order.
pub open spec fn dec_fn_list(b: Seq<u8>, p: int, n: int, ntypes: int) -> Result<
    (Seq<AbiFnV>, int),
    Error,
>
    decreases n,
{
    if n <= 0 {
        Ok((Seq::empty(), p))
    } else {
        match dec_fn(b, p, ntypes) {
            Err(e) => Err(e),
            Ok((f, q)) => match dec_fn_list(b, q, n - 1, ntypes) {
                Err(e) => Err(e),
                Ok((rest, r)) => Ok((seq![f] + rest, r)),
            },
        }
    }
}

/// Decodes the function block: a byte size (skipped), a count, then the
/// signatures.
pub open spec fn dec_functions_block(b: Seq<u8>, p: int, ntypes: int) -> Result<
    (Seq<AbiFnV>, int),
    Error,
> {
    match dec_le(b, p, 8) {
        None => Err(Error::Truncated),
        Some((_size, p1)) => match dec_le(b, p1, 4) {
            None => Err(Error::Truncated),
            Some((n, p2)) => dec_fn_list(b, p2, n, ntypes),
        },
    }
}

// ---------------------------------------------------------------------------
// The executable loaders
// ---------------------------------------------------------------------------
/// Whether a string spells the given literal.
fn str_is(s: &String, lit: &str) -> (r: bool)
    ensures
        r == (s@ == lit@),
{
    let needle = String::from_str(lit);
    *s == needle
}

/// A reader of the request headers that precede every payload.
pub trait RequestHeadersRead: crate::varint::VarintRead {
    /// Reads `protocol`, `magic` and `version`, all little-endian.
    fn read_request_headers(&mut self) -> (r: Result<RequestHeaders, Error>)
        requires
            old(self).src_wf(),
        ensures
            final(self).src_wf(),
            final(self).src() == old(self).src(),
            dec_request_headers(old(self).src(), old(self).src_position()) == match r {
                Ok(h) => Ok::<(RequestHeaders, int), Error>((h, final(self).src_position())),
                Err(e) => Err(e),
            },
    ;
}

impl RequestHeadersRead for Reader {
    fn read_request_headers(&mut self) -> (r: Result<RequestHeaders, Error>) {
        let protocol = match self.read_u16_le() {
            Ok(v) => v,
            Err(e) => {
                return Err(e);
            },
        };
        let magic = match self.read_u16_le() {
            Ok(v) => v,
            Err(e) => {
                return Err(e);
            },
        };
        let version = match self.read_u32_le() {
            Ok(v) => v,
            Err(e) => {
                return Err(e);
            },
        };
        Ok(RequestHeaders { protocol, magic, version })
    }
}

/// A reader of the ABI headers.
pub trait AbiHeadersRead: crate::varint::VarintRead {
    /// Reads the request headers, then the CRC.
    fn read_abi_headers(&mut self) -> (r: Result<AbiHeaders, Error>)
        requires
            old(self).src_wf(),
        ensures
            final(self).src_wf(),
            final(self).src() == old(self).src(),
            dec_abi_headers(old(self).src(), old(self).src_position()) == match r {
                Ok(h) => Ok::<(AbiHeaders, int), Error>((h, final(self).src_position())),
                Err(e) => Err(e),
            },
    ;
}

impl AbiHeadersRead for Reader {
    fn read_abi_headers(&mut self) -> (r: Result<AbiHeaders, Error>) {
        let headers = match self.read_request_headers() {
            Ok(v) => v,
            Err(e) => {
                return Err(e);
            },
        };
        let crc = match self.read_u64_le() {
            Ok(v) => v,
            Err(e) => {
                return Err(e);
            },
        };
        Ok(AbiHeaders { headers, crc })
    }
}

/// Reads one symbol entry: a varint-u32 length, then that many UTF-8 bytes.
fn read_symbol_entry(rd: &mut Reader) -> (r: Result<String, Error>)
    requires
        old(rd).wf(),
    ensures
        final(rd).wf(),
        final(rd).data() == old(rd).data(),
        dec_symbol_entry(old(rd).data(), old(rd).position()) == match r {
            Ok(s) => Ok::<(Seq<char>, int), Error>((s@, final(rd).position())),
            Err(e) => Err(e),
        },
{
    match rd.read_vu32() {
        Err(e) => Err(e),
        Ok(len) => match rd.read_bytes(len as usize) {
            Err(e) => Err(e),
            Ok(bytes) => match crate::deserialize::string_from_utf8(bytes) {
                Some(s) => Ok(s),
                None => Err(Error::InvalidUtf8),
            },
        },
    }
}

/// Reads `n` symbol entries, appending them to `out`.
fn read_symbol_list(rd: &mut Reader, n: u32, out: &mut Vec<String>) -> (r: Result<(), Error>)
    requires
        old(rd).wf(),
    ensures
        final(rd).wf(),
        final(rd).data() == old(rd).data(),
        match dec_symbol_list(old(rd).data(), old(rd).position(), n as int) {
            Ok((syms, q)) => {
                &&& r is Ok
                &&& view_strings(final(out)@) == view_strings(old(out)@) + syms
                &&& final(rd).position() == q
            },
            Err(e) => r == Err::<(), Error>(e),
        },
    decreases n,
{
    if n == 0 {
        assert(view_strings(out@) =~= view_strings(out@) + Seq::<Seq<char>>::empty());
        return Ok(());
    }
    match read_symbol_entry(rd) {
        Err(e) => Err(e),
        Ok(s) => {
            proof {
                assert(out@.push(s).drop_last() =~= out@);
                assert(view_strings(out@.push(s)) =~= view_strings(out@).push(s@));
            }
            out.push(s);
            match read_symbol_list(rd, n - 1, out) {
                Err(e) => Err(e),
                Ok(_) => {
                    proof {
                        let (syms, q) = dec_symbol_list(
                            old(rd).data(),
                            old(rd).position(),
                            n as int,
                        )->Ok_0;
                        assert(view_strings(final(out)@) =~= view_strings(old(out)@) + syms);
                    }
                    Ok(())
                },
            }
        },
    }
}

/// A reader of the symbol block.
pub trait AbiSymbolsRead: crate::varint::VarintRead {
    /// Reads the interned symbol table; the empty symbol takes id 0.
    fn read_abi_symbols(&mut self) -> (r: Result<AbiSymbols, Error>)
        requires
            old(self).src_wf(),
        ensures
            final(self).src_wf(),
            final(self).src() == old(self).src(),
            dec_symbols_block(old(self).src(), old(self).src_position()) == match r {
                Ok(s) => Ok::<(Seq<Seq<char>>, int), Error>((s.view(), final(self).src_position())),
                Err(e) => Err(e),
            },
    ;
}

impl AbiSymbolsRead for Reader {
    fn read_abi_symbols(&mut self) -> (r: Result<AbiSymbols, Error>) {
        let _size = match self.read_u64_le() {
            Ok(v) => v,
            Err(e) => {
                return Err(e);
            },
        };
        let n = match self.read_u32_le() {
            Ok(v) => v,
            Err(e) => {
                return Err(e);
            },
        };
        let mut symbols: Vec<String> = Vec::new();
        let empty_sym = String::new();
        proof {
            assert(empty_sym@ == Seq::<char>::empty());
        }
        symbols.push(empty_sym);
        proof {
            assert(symbols@.len() == 1);
            assert(symbols@.drop_last() =~= Seq::<String>::empty());
            assert(view_strings(symbols@) == view_strings(symbols@.drop_last()).push(
                symbols@.last()@,
            ));
            assert(view_strings(symbols@) =~~= seq![Seq::<char>::empty()]);
        }
        let ghost p2 = self.position();
        let ghost base = view_strings(symbols@);
        match read_symbol_list(self, n, &mut symbols) {
            Err(e) => Err(e),
            Ok(_) => {
                proof {
                    let (syms, q) = dec_symbol_list(self.data(), p2, n as int)->Ok_0;
                    assert(view_strings(symbols@) == base + syms);
                    assert(base + syms =~~= seq![Seq::<char>::empty()] + syms);
                }
                Ok(AbiSymbols { symbols })
            },
        }
    }
}

/// Reads one attribute.
fn read_attr(rd: &mut Reader) -> (r: Result<AbiAttr, Error>)
    requires
        old(rd).wf(),
    ensures
        final(rd).wf(),
        final(rd).data() == old(rd).data(),
        dec_attr(old(rd).data(), old(rd).position()) == match r {
            Ok(a) => Ok::<(AbiAttr, int), Error>((a, final(rd).position())),
            Err(e) => Err(e),
        },
{
    let name = match rd.read_vu32() {
        Ok(v) => v,
        Err(e) => {
            return Err(e);
        },
    };
    let abi_type = match rd.read_vu32() {
        Ok(v) => v,
        Err(e) => {
            return Err(e);
        },
    };
    let prog = match rd.read_vu32() {
        Ok(v) => v,
        Err(e) => {
            return Err(e);
        },
    };
    let any_off = match rd.read_vu32() {
        Ok(v) => v,
        Err(e) => {
            return Err(e);
        },
    };
    let att_off = match rd.read_vu32() {
        Ok(v) => v,
        Err(e) => {
            return Err(e);
        },
    };
    let sbi = match rd.read_u8() {
        Ok(v) => v,
        Err(e) => {
            return Err(e);
        },
    };
    let flags = match rd.read_u8() {
        Ok(v) => v,
        Err(e) => {
            return Err(e);
        },
    };
    Ok(
        AbiAttr {
            name,
            abi_type,
            prog_type_offset: LazyAbiType::Offset(prog),
            mapped_any_offset: any_off,
            mapped_att_offset: att_off,
            sbi_type: sbi,
            nullable: flags & 1 != 0,
            mapped: flags & 2 != 0,
        },
    )
}

/// Reads `n` attributes, appending them to `out`.
fn read_attr_list(rd: &mut Reader, n: u32, out: &mut Vec<AbiAttr>) -> (r: Result<(), Error>)
    requires
        old(rd).wf(),
    ensures
        final(rd).wf(),
        final(rd).data() == old(rd).data(),
        match dec_attr_list(old(rd).data(), old(rd).position(), n as int) {
            Ok((ats, q)) => {
                &&& r is Ok
                &&& final(out)@ == old(out)@ + ats
                &&& final(rd).position() == q
            },
            Err(e) => r == Err::<(), Error>(e),
        },
    decreases n,
{
    if n == 0 {
        assert(out@ =~= out@ + Seq::<AbiAttr>::empty());
        return Ok(());
    }
    match read_attr(rd) {
        Err(e) => Err(e),
        Ok(a) => {
            out.push(a);
            match read_attr_list(rd, n - 1, out) {
                Err(e) => Err(e),
                Ok(_) => {
                    proof {
                        let (ats, q) = dec_attr_list(
                            old(rd).data(),
                            old(rd).position(),
                            n as int,
                        )->Ok_0;
                        assert(final(out)@ =~= old(out)@ + ats);
                    }
                    Ok(())
                },
            }
        },
    }
}

/// Reads one type with its deferred attribute references.
fn read_type_raw(rd: &mut Reader) -> (r: Result<AbiType, Error>)
    requires
        old(rd).wf(),
    ensures
        final(rd).wf(),
        final(rd).data() == old(rd).data(),
        dec_type(old(rd).data(), old(rd).position()) == match r {
            Ok(t) => Ok::<(AbiTypeV, int), Error>((t@, final(rd).position())),
            Err(e) => Err(e),
        },
{
    let module = match rd.read_vu32() {
        Ok(v) => v,
        Err(e) => {
            return Err(e);
        },
    };
    let name = match rd.read_vu32() {
        Ok(v) => v,
        Err(e) => {
            return Err(e);
        },
    };
    let lib_name = match rd.read_vu32() {
        Ok(v) => v,
        Err(e) => {
            return Err(e);
        },
    };
    let nattrs = match rd.read_vu32() {
        Ok(v) => v,
        Err(e) => {
            return Err(e);
        },
    };
    let _attr_off = match rd.read_vu32() {
        Ok(v) => v,
        Err(e) => {
            return Err(e);
        },
    };
    let _mapped_prog = match rd.read_vu32() {
        Ok(v) => v,
        Err(e) => {
            return Err(e);
        },
    };
    let mapped_abi = match rd.read_vu32() {
        Ok(v) => v,
        Err(e) => {
            return Err(e);
        },
    };
    let masked_abi = match rd.read_vu32() {
        Ok(v) => v,
        Err(e) => {
            return Err(e);
        },
    };
    let nullable_nb = match rd.read_vu32() {
        Ok(v) => v,
        Err(e) => {
            return Err(e);
        },
    };
    let flags = match rd.read_u8() {
        Ok(v) => v,
        Err(e) => {
            return Err(e);
        },
    };
    let attrs = if nattrs > 0 {
        let mut ats: Vec<AbiAttr> = Vec::new();
        match read_attr_list(rd, nattrs, &mut ats) {
            Err(e) => {
                return Err(e);
            },
            Ok(_) => Some(ats),
        }
    } else {
        None
    };
    Ok(
        AbiType {
            lib_name,
            module,
            name,
            mapped_abi_type_offset: mapped_abi,
            masked_abi_type_offset: masked_abi,
            nullable_nb_bytes: nullable_nb,
            is_native: flags & 1 != 0,
            is_abstract: flags & 2 != 0,
            is_enum: flags & 4 != 0,
            is_masked: flags & 8 != 0,
            attrs,
        },
    )
}

/// Counts the nullable attributes among the first `n`.
fn count_nullable_exec(ats: &Vec<AbiAttr>, n: usize) -> (r: usize)
    requires
        n <= ats@.len(),
    ensures
        r == count_nullable(ats@.take(n as int)),
        r <= n,
    decreases n,
{
    if n == 0 {
        proof {
            assert(ats@.take(0) =~= Seq::<AbiAttr>::empty());
        }
        0
    } else {
        let c = count_nullable_exec(ats, n - 1);
        proof {
            crate::laws::lemma_count_nullable_take(ats@, n - 1 as int);
        }
        if ats[n - 1].nullable {
            c + 1
        } else {
            c
        }
    }
}

/// Resolves one attribute's deferred reference.
fn resolve_attr_exec(a: AbiAttr, ntypes: usize) -> (r: Result<AbiAttr, Error>)
    ensures
        resolve_attr(a, ntypes as int) == match r {
            Ok(a2) => Ok::<AbiAttr, Error>(a2),
            Err(e) => Err(e),
        },
{
    let k = match a.prog_type_offset {
        LazyAbiType::Offset(k) => k,
        LazyAbiType::Ref(k) => k,
    };
    if (a.abi_type as usize) >= ntypes {
        Err(Error::UnknownTypeId(a.abi_type))
    } else if (k as usize) >= ntypes {
        Err(Error::UnknownTypeId(k))
    } else {
        Ok(AbiAttr { prog_type_offset: LazyAbiType::Ref(k), ..a })
    }
}

/// Resolves the attributes from index `i` on, appending them to `out`.
fn resolve_attrs_exec(ats: &Vec<AbiAttr>, ntypes: usize, i: usize, out: &mut Vec<AbiAttr>) -> (r:
    Result<(), Error>)
    requires
        i <= ats@.len(),
    ensures
        match resolve_attrs(ats@, ntypes as int, i as int) {
            Ok(rs) => r is Ok && final(out)@ == old(out)@ + rs,
            Err(e) => r == Err::<(), Error>(e),
        },
    decreases ats@.len() - i,
{
    if i >= ats.len() {
        assert(out@ =~= out@ + Seq::<AbiAttr>::empty());
        return Ok(());
    }
    match resolve_attr_exec(ats[i], ntypes) {
        Err(e) => Err(e),
        Ok(a) => {
            out.push(a);
            match resolve_attrs_exec(ats, ntypes, i + 1, out) {
                Err(e) => Err(e),
                Ok(_) => {
                    proof {
                        let rs = resolve_attrs(ats@, ntypes as int, i as int)->Ok_0;
                        assert(final(out)@ =~= old(out)@ + rs);
                    }
                    Ok(())
                },
            }
        },
    }
}

/// Resolves one type: checks its references and the nullable-bitset
/// invariant.
fn resolve_type_exec(t: &AbiType, ntypes: usize) -> (r: Result<AbiType, Error>)
    ensures
        resolve_type(t@, ntypes as int) == match r {
            Ok(t2) => Ok::<AbiTypeV, Error>(t2@),
            Err(e) => Err(e),
        },
{
    if (t.mapped_abi_type_offset as usize) >= ntypes {
        return Err(Error::UnknownTypeId(t.mapped_abi_type_offset));
    }
    match &t.attrs {
        None => Ok(
            AbiType {
                lib_name: t.lib_name,
                module: t.module,
                name: t.name,
                mapped_abi_type_offset: t.mapped_abi_type_offset,
                masked_abi_type_offset: t.masked_abi_type_offset,
                nullable_nb_bytes: t.nullable_nb_bytes,
                is_native: t.is_native,
                is_abstract: t.is_abstract,
                is_enum: t.is_enum,
                is_masked: t.is_masked,
                attrs: None,
            },
        ),
        Some(ats) => {
            let c = count_nullable_exec(ats, ats.len());
            proof {
                assert(ats@.take(ats@.len() as int) =~= ats@);
            }
            let nb2 = c / 8 + if c % 8 == 0 {
                0
            } else {
                1
            };
            proof {
                assert(nb2 as int == (c as int + 7) / 8) by (nonlinear_arith)
                    requires
                        c >= 0,
                        nb2 == c / 8 + if c % 8 == 0 {
                            0int
                        } else {
                            1int
                        },
                ;
            }
            if (t.nullable_nb_bytes as usize) != nb2 {
                return Err(Error::MalformedAbi);
            }
            let mut rs: Vec<AbiAttr> = Vec::new();
            match resolve_attrs_exec(ats, ntypes, 0, &mut rs) {
                Err(e) => Err(e),
                Ok(_) => {
                    proof {
                        let spec_rs = resolve_attrs(ats@, ntypes as int, 0)->Ok_0;
                        assert(rs@ =~= Seq::<AbiAttr>::empty() + spec_rs);
                        assert(rs@ =~= spec_rs);
                    }
                    Ok(
                        AbiType {
                            lib_name: t.lib_name,
                            module: t.module,
                            name: t.name,
                            mapped_abi_type_offset: t.mapped_abi_type_offset,
                            masked_abi_type_offset: t.masked_abi_type_offset,
                            nullable_nb_bytes: t.nullable_nb_bytes,
                            is_native: t.is_native,
                            is_abstract: t.is_abstract,
                            is_enum: t.is_enum,
                            is_masked: t.is_masked,
                            attrs: Some(rs),
                        },
                    )
                },
            }
        },
    }
}

/// Resolves every type from index `i` on, appending them to `out`.
fn resolve_types_exec(ts: &Vec<AbiType>, i: usize, out: &mut Vec<AbiType>) -> (r: Result<
    (),
    Error,
>)
    requires
        i <= ts@.len(),
    ensures
        match resolve_types(view_types(ts@), ts@.len() as int, i as int) {
            Ok(rs) => r is Ok && view_types(final(out)@) == view_types(old(out)@) + rs,
            Err(e) => r == Err::<(), Error>(e),
        },
    decreases ts@.len() - i,
{
    proof {
        lemma_view_types_index(ts@);
    }
    if i >= ts.len() {
        assert(view_types(out@) =~= view_types(out@) + Seq::<AbiTypeV>::empty());
        return Ok(());
    }
    match resolve_type_exec(&ts[i], ts.len()) {
        Err(e) => Err(e),
        Ok(t) => {
            proof {
                assert(out@.push(t).drop_last() =~= out@);
                assert(view_types(out@.push(t)) =~= view_types(out@).push(t@));
            }
            out.push(t);
            match resolve_types_exec(ts, i + 1, out) {
                Err(e) => Err(e),
                Ok(_) => {
                    proof {
                        let rs = resolve_types(
                            view_types(ts@),
                            ts@.len() as int,
                            i as int,
                        )->Ok_0;
                        assert(view_types(final(out)@) =~= view_types(old(out)@) + rs);
                    }
                    Ok(())
                },
            }
        },
    }
}

/// Scans the first `i` types for the `core` shortcuts.
fn core_scan(symbols: &AbiSymbols, ts: &Vec<AbiType>, i: usize) -> (r: CoreType)
    requires
        i <= ts@.len(),
    ensures
        r == core_of(symbols.view(), view_types(ts@), i as int),
    decreases i,
{
    proof {
        lemma_view_types_index(ts@);
        lemma_view_strings_index(symbols.symbols@);
    }
    if i == 0 {
        CoreType {
            string: 0,
            char: 0,
            array: 0,
            map: 0,
            node: 0,
            node_list: 0,
            node_index: 0,
            node_time: 0,
            node_geo: 0,
        }
    } else {
        let c = core_scan(symbols, ts, i - 1);
        let t = &ts[i - 1];
        proof {
            assert(t@ == view_types(ts@)[i - 1]);
            assert(view_types(ts@)[i - 1].module == t.module);
        }
        if (t.module as usize) < symbols.symbols.len() && str_is(
            &symbols.symbols[t.module as usize],
            "core",
        ) {
            proof {
                assert(symbols.view()[t.module as int] == symbols.symbols@[t.module as int]@);
                assert(symbols.view()[t.module as int] == "core"@);
            }
            if (t.name as usize) < symbols.symbols.len() && str_is(
                &symbols.symbols[t.name as usize],
                "String",
            ) {
                CoreType { string: (i - 1) as u32, ..c }
            } else if (t.name as usize) < symbols.symbols.len() && str_is(
                &symbols.symbols[t.name as usize],
                "Array",
            ) {
                CoreType { array: (i - 1) as u32, ..c }
            } else if (t.name as usize) < symbols.symbols.len() && str_is(
                &symbols.symbols[t.name as usize],
                "Map",
            ) {
                CoreType { map: (i - 1) as u32, ..c }
            } else {
                c
            }
        } else {
            c
        }
    }
}

/// A reader of the type block.
pub trait AbiTypesRead: crate::varint::VarintRead {
    /// Reads, resolves and validates the type block; the symbol table
    /// drives the `core` scan.
    fn read_abi_types(&mut self, symbols: &AbiSymbols) -> (r: Result<AbiTypes, Error>)
        requires
            old(self).src_wf(),
        ensures
            final(self).src_wf(),
            final(self).src() == old(self).src(),
            dec_types_block(old(self).src(), old(self).src_position(), symbols.view()) == match r {
                Ok(t) => Ok::<((Seq<AbiTypeV>, CoreType), int), Error>(
                    ((t.view(), t.core), final(self).src_position()),
                ),
                Err(e) => Err(e),
            },
    ;
}

impl AbiTypesRead for Reader {
    fn read_abi_types(&mut self, symbols: &AbiSymbols) -> (r: Result<AbiTypes, Error>) {
        let _size = match self.read_u64_le() {
            Ok(v) => v,
            Err(e) => {
                return Err(e);
            },
        };
        let ntypes = match self.read_u32_le() {
            Ok(v) => v,
            Err(e) => {
                return Err(e);
            },
        };
        let _nattrs = match self.read_u32_le() {
            Ok(v) => v,
            Err(e) => {
                return Err(e);
            },
        };
        let mut raw: Vec<AbiType> = Vec::new();
        proof {
            lemma_view_types_index(raw@);
        }
        assert(view_types(raw@) =~= Seq::<AbiTypeV>::empty());
        let ghost p3 = self.position();
        match read_type_list(self, ntypes, &mut raw) {
            Err(e) => {
                return Err(e);
            },
            Ok(_) => {},
        }
        proof {
            lemma_view_types_index(raw@);
            let (spec_raw, _) = dec_type_list(self.data(), p3, ntypes as int)->Ok_0;
            assert(view_types(raw@) =~= Seq::<AbiTypeV>::empty() + spec_raw);
            assert(view_types(raw@) =~= spec_raw);
        }
        let mut resolved: Vec<AbiType> = Vec::new();
        match resolve_types_exec(&raw, 0, &mut resolved) {
            Err(e) => {
                return Err(e);
            },
            Ok(_) => {},
        }
        proof {
            lemma_view_types_index(resolved@);
            let rs = resolve_types(view_types(raw@), raw@.len() as int, 0)->Ok_0;
            assert(view_types(resolved@) =~= Seq::<AbiTypeV>::empty() + rs);
            assert(view_types(resolved@) =~= rs);
        }
        let core = core_scan(symbols, &resolved, resolved.len());
        Ok(AbiTypes { types: resolved, core })
    }
}

/// Reads one function parameter.
fn read_param(rd: &mut Reader, ntypes: usize) -> (r: Result<AbiParam, Error>)
    requires
        old(rd).wf(),
    ensures
        final(rd).wf(),
        final(rd).data() == old(rd).data(),
        dec_param(old(rd).data(), old(rd).position(), ntypes as int) == match r {
            Ok(a) => Ok::<(AbiParam, int), Error>((a, final(rd).position())),
            Err(e) => Err(e),
        },
{
    let nullable = match rd.read_u8() {
        Ok(v) => v,
        Err(e) => {
            return Err(e);
        },
    };
    let ty = match rd.read_vu32() {
        Ok(v) => v,
        Err(e) => {
            return Err(e);
        },
    };
    let name = match rd.read_vu32() {
        Ok(v) => v,
        Err(e) => {
            return Err(e);
        },
    };
    if (ty as usize) >= ntypes {
        Err(Error::UnknownTypeId(ty))
    } else {
        Ok(AbiParam { name, ty, nullable: nullable != 0 })
    }
}

/// Reads `n` parameters, appending them to `out`.
fn read_param_list(rd: &mut Reader, n: u32, ntypes: usize, out: &mut Vec<AbiParam>) -> (r: Result<
    (),
    Error,
>)
    requires
        old(rd).wf(),
    ensures
        final(rd).wf(),
        final(rd).data() == old(rd).data(),
        match dec_param_list(old(rd).data(), old(rd).position(), n as int, ntypes as int) {
            Ok((ps, q)) => {
                &&& r is Ok
                &&& final(out)@ == old(out)@ + ps
                &&& final(rd).position() == q
            },
            Err(e) => r == Err::<(), Error>(e),
        },
    decreases n,
{
    if n == 0 {
        assert(out@ =~= out@ + Seq::<AbiParam>::empty());
        return Ok(());
    }
    match read_param(rd, ntypes) {
        Err(e) => Err(e),
        Ok(a) => {
            out.push(a);
            match read_param_list(rd, n - 1, ntypes, out) {
                Err(e) => Err(e),
                Ok(_) => {
                    proof {
                        let (ps, q) = dec_param_list(
                            old(rd).data(),
                            old(rd).position(),
                            n as int,
                            ntypes as int,
                        )->Ok_0;
                        assert(final(out)@ =~= old(out)@ + ps);
                    }
                    Ok(())
                },
            }
        },
    }
}

/// Reads one function signature.
fn read_fn(rd: &mut Reader, ntypes: usize) -> (r: Result<AbiFn, Error>)
    requires
        old(rd).wf(),
    ensures
        final(rd).wf(),
        final(rd).data() == old(rd).data(),
        dec_fn(old(rd).data(), old(rd).position(), ntypes as int) == match r {
            Ok(f) => Ok::<(AbiFnV, int), Error>((f@, final(rd).position())),
            Err(e) => Err(e),
        },
{
    let module = match rd.read_vu32() {
        Ok(v) => v,
        Err(e) => {
            return Err(e);
        },
    };
    let ty = match rd.read_vu32() {
        Ok(v) => v,
        Err(e) => {
            return Err(e);
        },
    };
    let name = match rd.read_vu32() {
        Ok(v) => v,
        Err(e) => {
            return Err(e);
        },
    };
    let lib_name = match rd.read_vu32() {
        Ok(v) => v,
        Err(e) => {
            return Err(e);
        },
    };
    let nparams = match rd.read_vu32() {
        Ok(v) => v,
        Err(e) => {
            return Err(e);
        },
    };
    let mut params: Vec<AbiParam> = Vec::new();
    match read_param_list(rd, nparams, ntypes, &mut params) {
        Err(e) => {
            return Err(e);
        },
        Ok(_) => {},
    }
    let ret = match rd.read_vu32() {
        Ok(v) => v,
        Err(e) => {
            return Err(e);
        },
    };
    let flags = match rd.read_u8() {
        Ok(v) => v,
        Err(e) => {
            return Err(e);
        },
    };
    if (ret as usize) >= ntypes {
        return Err(Error::UnknownTypeId(ret));
    }
    proof {
        assert(params@ =~= Seq::<AbiParam>::empty() + params@);
    }
    Ok(
        AbiFn {
            module,
            ty: if ty == 0 {
                None
            } else {
                Some(ty)
            },
            name,
            lib_name,
            params,
            return_type: ret,
            return_nullable: flags & 1 != 0,
            is_task: flags & 2 != 0,
        },
    )
}

/// Reads `n` function signatures, appending them to `out`.
fn read_fn_list(rd: &mut Reader, n: u32, ntypes: usize, out: &mut Vec<AbiFn>) -> (r: Result<
    (),
    Error,
>)
    requires
        old(rd).wf(),
    ensures
        final(rd).wf(),
        final(rd).data() == old(rd).data(),
        match dec_fn_list(old(rd).data(), old(rd).position(), n as int, ntypes as int) {
            Ok((fs, q)) => {
                &&& r is Ok
                &&& view_fns(final(out)@) == view_fns(old(out)@) + fs
                &&& final(rd).position() == q
            },
            Err(e) => r == Err::<(), Error>(e),
        },
    decreases n,
{
    if n == 0 {
        assert(view_fns(out@) =~= view_fns(out@) + Seq::<AbiFnV>::empty());
        return Ok(());
    }
    match read_fn(rd, ntypes) {
        Err(e) => Err(e),
        Ok(f) => {
            proof {
                assert(out@.push(f).drop_last() =~= out@);
                assert(view_fns(out@.push(f)) =~= view_fns(out@).push(f@));
            }
            out.push(f);
            match read_fn_list(rd, n - 1, ntypes, out) {
                Err(e) => Err(e),
                Ok(_) => {
                    proof {
                        let (fs, q) = dec_fn_list(
                            old(rd).data(),
                            old(rd).position(),
                            n as int,
                            ntypes as int,
                        )->Ok_0;
                        assert(view_fns(final(out)@) =~= view_fns(old(out)@) + fs);
                    }
                    Ok(())
                },
            }
        },
    }
}

/// A reader of the function block.
pub trait AbiFunctionsRead: crate::varint::VarintRead {
    /// Reads the function signatures; type references are checked against
    /// the loaded types.
    fn read_abi_functions(&mut self, symbols: &AbiSymbols, types: &AbiTypes) -> (r: Result<
        AbiFunctions,
        Error,
    >)
        requires
            old(self).src_wf(),
        ensures
            final(self).src_wf(),
            final(self).src() == old(self).src(),
            dec_functions_block(
                old(self).src(),
                old(self).src_position(),
                types.types@.len() as int,
            ) == match r {
                Ok(f) => Ok::<(Seq<AbiFnV>, int), Error>(
                    (view_fns(f.functions@), final(self).src_position()),
                ),
                Err(e) => Err(e),
            },
    ;
}

impl AbiFunctionsRead for Reader {
    fn read_abi_functions(&mut self, symbols: &AbiSymbols, types: &AbiTypes) -> (r: Result<
        AbiFunctions,
        Error,
    >) {
        let _ = symbols;
        let _size = match self.read_u64_le() {
            Ok(v) => v,
            Err(e) => {
                return Err(e);
            },
        };
        let n = match self.read_u32_le() {
            Ok(v) => v,
            Err(e) => {
                return Err(e);
            },
        };
        let mut functions: Vec<AbiFn> = Vec::new();
        assert(view_fns(functions@) =~= Seq::<AbiFnV>::empty());
        let ghost p2 = self.position();
        match read_fn_list(self, n, types.types.len(), &mut functions) {
            Err(e) => Err(e),
            Ok(_) => {
                proof {
                    let (fs, _) = dec_fn_list(
                        self.data(),
                        p2,
                        n as int,
                        types.types@.len() as int,
                    )->Ok_0;
                    assert(view_fns(functions@) =~= Seq::<AbiFnV>::empty() + fs);
                }
                Ok(AbiFunctions { functions })
            },
        }
    }
}

/// Reads `n` types, appending them to `out`.
fn read_type_list(rd: &mut Reader, n: u32, out: &mut Vec<AbiType>) -> (r: Result<(), Error>)
    requires
        old(rd).wf(),
    ensures
        final(rd).wf(),
        final(rd).data() == old(rd).data(),
        match dec_type_list(old(rd).data(), old(rd).position(), n as int) {
            Ok((ts, q)) => {
                &&& r is Ok
                &&& view_types(final(out)@) == view_types(old(out)@) + ts
                &&& final(rd).position() == q
            },
            Err(e) => r == Err::<(), Error>(e),
        },
    decreases n,
{
    if n == 0 {
        assert(view_types(out@) =~= view_types(out@) + Seq::<AbiTypeV>::empty());
        return Ok(());
    }
    match read_type_raw(rd) {
        Err(e) => Err(e),
        Ok(t) => {
            proof {
                assert(out@.push(t).drop_last() =~= out@);
                assert(view_types(out@.push(t)) =~= view_types(out@).push(t@));
            }
            out.push(t);
            match read_type_list(rd, n - 1, out) {
                Err(e) => Err(e),
                Ok(_) => {
                    proof {
                        let (ts, q) = dec_type_list(
                            old(rd).data(),
                            old(rd).position(),
                            n as int,
                        )->Ok_0;
                        assert(view_types(final(out)@) =~= view_types(old(out)@) + ts);
                    }
                    Ok(())
                },
            }
        },
    }
}

} // verus!
