//! One input per error kind, checked against the exact variant.

use greycat_sdk::abi::{
    Abi, AbiAttr, AbiFunctions, AbiHeaders, AbiSymbols, AbiType, AbiTypes, CoreType, LazyAbiType,
    RequestHeaders,
};
use greycat_sdk::error::Error;
use greycat_sdk::primitive;
use greycat_sdk::reader::Reader;
use greycat_sdk::value::{GcObject, Value};

fn simple_type(module: u32, name: u32, id: u32, attrs: Option<Vec<AbiAttr>>) -> AbiType {
    let nullable = match &attrs {
        Some(ats) => ats.iter().filter(|a| a.nullable).count() as u32,
        None => 0,
    };
    AbiType {
        lib_name: 0,
        module,
        name,
        mapped_abi_type_offset: id,
        masked_abi_type_offset: 0,
        nullable_nb_bytes: (nullable + 7) / 8,
        is_native: false,
        is_abstract: false,
        is_enum: false,
        is_masked: false,
        attrs,
    }
}

fn int_attr(name: u32, offset: u32, nullable: bool) -> AbiAttr {
    AbiAttr {
        name,
        abi_type: 0,
        prog_type_offset: LazyAbiType::Ref(0),
        mapped_any_offset: 0,
        mapped_att_offset: offset,
        sbi_type: primitive::INT,
        nullable,
        mapped: true,
    }
}

fn abi_with(types: Vec<AbiType>, core: CoreType) -> Abi {
    Abi {
        headers: AbiHeaders {
            headers: RequestHeaders { protocol: 1, magic: 2, version: 3 },
            crc: 0,
        },
        symbols: AbiSymbols {
            symbols: vec![String::new(), "core".to_string(), "T".to_string(), "E".to_string()],
        },
        types: AbiTypes { types, core },
        functions: AbiFunctions { functions: vec![] },
        libraries: vec!["std".to_string()],
    }
}

fn no_core() -> CoreType {
    CoreType {
        string: 100,
        char: 100,
        array: 101,
        map: 102,
        node: 0,
        node_list: 0,
        node_index: 0,
        node_time: 0,
        node_geo: 0,
    }
}

#[test]
fn enum_without_attrs() {
    let abi = abi_with(vec![simple_type(1, 2, 0, None)], no_core());
    let mut rd = Reader::new(vec![primitive::ENUM, 0x00, 0x00]);
    assert_eq!(rd.read_value(&abi), Err(Error::EnumWithoutAttrs(2)));
}

#[test]
fn enum_offset_out_of_range() {
    let e = simple_type(1, 3, 0, Some(vec![int_attr(2, 0, false)]));
    let abi = abi_with(vec![e], no_core());
    let mut rd = Reader::new(vec![primitive::ENUM, 0x00, 0x07]);
    assert_eq!(rd.read_value(&abi), Err(Error::EnumOffsetOutOfRange(7)));
}

#[test]
fn object_shape_mismatch() {
    let abi = abi_with(vec![simple_type(1, 2, 0, None)], no_core());
    let obj = GcObject { ty: 0, values: Some(vec![]) };
    let mut w: Vec<u8> = Vec::new();
    assert_eq!(obj.write_raw_to(&mut w, &abi), Err(Error::ObjectShapeMismatch(2)));
    let obj = GcObject {
        ty: 0,
        values: None,
    };
    let mut t = simple_type(1, 2, 0, Some(vec![int_attr(2, 0, false)]));
    t.nullable_nb_bytes = 0;
    let abi = abi_with(vec![t], no_core());
    let mut w: Vec<u8> = Vec::new();
    assert_eq!(obj.write_raw_to(&mut w, &abi), Err(Error::ObjectShapeMismatch(2)));
}

#[test]
fn unsupported_native_type() {
    let mut t = simple_type(1, 2, 0, None);
    t.is_native = true;
    let abi = abi_with(vec![t], no_core());
    let mut rd = Reader::new(vec![primitive::OBJECT, 0x00]);
    assert_eq!(rd.read_value(&abi), Err(Error::UnsupportedNative(2)));
}

#[test]
fn invalid_utf8_string() {
    let mut core = no_core();
    core.string = 0;
    let abi = abi_with(vec![simple_type(1, 2, 0, None)], core);
    // A plain string of two bytes that are not valid UTF-8.
    let mut rd = Reader::new(vec![primitive::OBJECT, 0x00, 0x04, 0xFF, 0xFF]);
    assert_eq!(rd.read_value(&abi), Err(Error::InvalidUtf8));
}

#[test]
fn malformed_bitset_size() {
    // One nullable attribute but a zero-byte bitset: the documented ABI
    // invariant is broken, and both directions say so.
    let mut t = simple_type(1, 2, 0, Some(vec![int_attr(2, 0, true)]));
    t.nullable_nb_bytes = 0;
    let abi = abi_with(vec![t], no_core());
    let mut rd = Reader::new(vec![primitive::OBJECT, 0x00, 0x02]);
    assert_eq!(rd.read_value(&abi), Err(Error::MalformedAbi));
    // With no bitset declared the encoder goes straight to the attribute
    // walk: the mismatch shows up only where the bitset is consulted.
    let obj = GcObject { ty: 0, values: Some(vec![Value::Int(1)]) };
    let mut w: Vec<u8> = Vec::new();
    assert_eq!(obj.write_to(&mut w, &abi), Ok(3));
    assert_eq!(w, vec![0x0F, 0x00, 0x02]);
}

#[test]
fn protocol_check() {
    let a = RequestHeaders { protocol: 5, magic: 0, version: 1 };
    let same = RequestHeaders { protocol: 5, magic: 9, version: 2 };
    let other = RequestHeaders { protocol: 6, magic: 0, version: 1 };
    assert_eq!(a.check_protocol(&same), Ok(()));
    assert_eq!(a.check_protocol(&other), Err(Error::ProtocolMismatch(6, 5)));
    assert_eq!(
        Error::ProtocolMismatch(6, 5).message(),
        "mismatched ABI protocol"
    );
}

#[test]
fn unknown_symbol_on_write() {
    let abi = abi_with(vec![], no_core());
    let mut w: Vec<u8> = Vec::new();
    assert_eq!(
        Value::Symbol(greycat_sdk::abi::AbiSymbol(9)).write_raw_to(&mut w, &abi),
        Err(Error::UnknownSymbol(9))
    );
}

#[test]
fn mismatch_emits_nothing_of_later_attributes() {
    // The first attribute encodes; the second one's value has the wrong
    // shape: the sink ends exactly after the first attribute's body.
    let bool_attr = AbiAttr {
        name: 3,
        abi_type: 0,
        prog_type_offset: LazyAbiType::Ref(0),
        mapped_any_offset: 0,
        mapped_att_offset: 1,
        sbi_type: primitive::BOOL,
        nullable: false,
        mapped: true,
    };
    let t = simple_type(1, 2, 0, Some(vec![int_attr(2, 0, false), bool_attr]));
    let abi = abi_with(vec![t], no_core());
    let obj = GcObject { ty: 0, values: Some(vec![Value::Int(5), Value::Int(1)]) };
    let mut w: Vec<u8> = Vec::new();
    assert_eq!(obj.write_raw_to(&mut w, &abi), Err(Error::AttrTypeMismatch(3, 2)));
    assert_eq!(w, vec![0x0A]);
}
