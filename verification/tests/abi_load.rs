//! Loading an ABI from hand-assembled bytes.

use greycat_sdk::abi::{
    Abi, AbiAttr, AbiFunctions, AbiHeaders, AbiSymbols, AbiType, AbiTypes, CoreType, LazyAbiType,
    ModVar, RequestHeaders,
};
use greycat_sdk::error::Error;
use greycat_sdk::reader::Reader;

fn push_u16(out: &mut Vec<u8>, v: u16) {
    out.extend_from_slice(&v.to_le_bytes());
}

fn push_u32(out: &mut Vec<u8>, v: u32) {
    out.extend_from_slice(&v.to_le_bytes());
}

fn push_u64(out: &mut Vec<u8>, v: u64) {
    out.extend_from_slice(&v.to_le_bytes());
}

fn push_vu32(out: &mut Vec<u8>, mut v: u32) {
    loop {
        let mut byte = (v % 0x80) as u8;
        v /= 0x80;
        if v != 0 {
            byte |= 0x80;
        }
        out.push(byte);
        if v == 0 {
            break;
        }
    }
}

/// One ABI with symbols "core", "Array", "Person", "age"; type 0 is
/// `core::Array` (native), type 1 is `Person` with one nullable int
/// attribute; one free function `age` returning type 1.
fn abi_bytes() -> Vec<u8> {
    let mut b = Vec::new();
    // Request headers and CRC.
    push_u16(&mut b, 7);
    push_u16(&mut b, 0xabcd);
    push_u32(&mut b, 2);
    push_u64(&mut b, 0xfeed);
    // Symbols block: the byte size is skipped by the reader.
    push_u64(&mut b, 0);
    push_u32(&mut b, 4);
    for s in ["core", "Array", "Person", "age"] {
        push_vu32(&mut b, s.len() as u32);
        b.extend_from_slice(s.as_bytes());
    }
    // Types block: size (skipped), type count, attribute count.
    push_u64(&mut b, 0);
    push_u32(&mut b, 2);
    push_u32(&mut b, 1);
    // Type 0: core::Array, native, no attributes.
    for v in [1u32, 2, 0, 0, 0, 0, 0, 0, 0] {
        push_vu32(&mut b, v);
    }
    b.push(1);
    // Type 1: Person, one nullable mapped int attribute "age".
    for v in [3u32, 3, 0, 1, 0, 0, 1, 0, 1] {
        push_vu32(&mut b, v);
    }
    b.push(0);
    // The attribute: name, declared type, program type, any-offset, slot.
    for v in [4u32, 1, 1, 0, 0] {
        push_vu32(&mut b, v);
    }
    b.push(3);  // static int
    b.push(0b11);  // nullable, mapped
    // Functions block: size (skipped), count, one free function.
    push_u64(&mut b, 0);
    push_u32(&mut b, 1);
    for v in [3u32, 0, 4, 0, 0] {
        push_vu32(&mut b, v);
    }
    push_vu32(&mut b, 1);
    b.push(0);
    b
}

#[test]
fn load_abi_from_bytes() {
    let mut rd = Reader::new(abi_bytes());
    let abi = Abi::new(&mut rd, None).unwrap();
    assert!(rd.is_empty());

    assert_eq!(abi.headers.headers.protocol, 7);
    assert_eq!(abi.headers.headers.magic, 0xabcd);
    assert_eq!(abi.headers.headers.version, 2);
    assert_eq!(abi.headers.crc, 0xfeed);

    // The empty symbol always stands at id 0.
    assert_eq!(abi.symbols.len(), 5);
    assert_eq!(abi.symbols.name_by_id(0), "");
    assert_eq!(abi.symbols.name_by_id(2), "Array");
    assert_eq!(abi.get_symbol_id("Person"), Some(3));

    // The core scan caught core::Array at type id 0.
    assert_eq!(abi.types.core.array, 0);
    assert_eq!(abi.types.len(), 2);
    let array = abi.types.get(0).unwrap();
    assert!(array.is_native);
    let person = abi.types.get(1).unwrap();
    assert_eq!(person.nullable_nb_bytes, 1);
    let attrs = person.attrs.as_ref().unwrap();
    assert_eq!(attrs.len(), 1);
    assert_eq!(attrs[0].name, 4);
    assert!(attrs[0].nullable);
    assert!(attrs[0].mapped);
    // The deferred reference was resolved in the second pass.
    assert_eq!(attrs[0].prog_type_offset, LazyAbiType::Ref(1));

    // The function registry and the resolution helpers.
    assert_eq!(abi.functions.functions.len(), 1);
    let f = abi.get_fn_by_fqn("Person::age").unwrap();
    assert_eq!(f.return_type, 1);
    assert!(f.ty.is_none());
    assert_eq!(abi.get_type_by_fqn("core::Array"), Some(0));
    assert_eq!(abi.get_type_by_fqn("core::Person"), None);
    assert_eq!(abi.get_type_by_module_and_name("core", "Array"), Some(0));

    // The default extension library is always registered.
    assert_eq!(abi.libraries, vec!["std".to_string()]);
}

#[test]
fn load_rejects_bad_type_reference() {
    // An attribute whose program type points past the type count.
    let mut b = Vec::new();
    push_u16(&mut b, 7);
    push_u16(&mut b, 0);
    push_u32(&mut b, 1);
    push_u64(&mut b, 0);
    push_u64(&mut b, 0);
    push_u32(&mut b, 0);
    push_u64(&mut b, 0);
    push_u32(&mut b, 1);
    push_u32(&mut b, 1);
    for v in [0u32, 0, 0, 1, 0, 0, 0, 0, 1] {
        push_vu32(&mut b, v);
    }
    b.push(0);
    for v in [0u32, 0, 55, 0, 0] {
        push_vu32(&mut b, v);
    }
    b.push(3);
    b.push(0b11);
    let mut rd = Reader::new(b);
    assert_eq!(
        Abi::new(&mut rd, None).map(|_| ()),
        Err(Error::UnknownTypeId(55))
    );
}

#[test]
fn load_rejects_truncation() {
    let bytes = abi_bytes();
    let mut rd = Reader::new(bytes[..10].to_vec());
    assert_eq!(Abi::new(&mut rd, None).map(|_| ()), Err(Error::Truncated));
}

#[test]
fn modvars_of_the_root_type() {
    // A synthetic root type "::$$$root" with one attribute named "m.v".
    let symbols = vec![
        String::new(),
        "$$$root".to_string(),
        "m.v".to_string(),
        "m".to_string(),
        "v".to_string(),
        "broken".to_string(),
    ];
    let root = AbiType {
        lib_name: 0,
        module: 0,
        name: 1,
        mapped_abi_type_offset: 0,
        masked_abi_type_offset: 0,
        nullable_nb_bytes: 0,
        is_native: false,
        is_abstract: false,
        is_enum: false,
        is_masked: false,
        attrs: Some(vec![
            AbiAttr {
                name: 2,
                abi_type: 0,
                prog_type_offset: LazyAbiType::Ref(0),
                mapped_any_offset: 0,
                mapped_att_offset: 0,
                sbi_type: 3,
                nullable: true,
                mapped: false,
            },
            // A name without a separator is passed over.
            AbiAttr {
                name: 5,
                abi_type: 0,
                prog_type_offset: LazyAbiType::Ref(0),
                mapped_any_offset: 0,
                mapped_att_offset: 0,
                sbi_type: 3,
                nullable: false,
                mapped: false,
            },
        ]),
    };
    let abi = Abi {
        headers: AbiHeaders {
            headers: RequestHeaders { protocol: 1, magic: 0, version: 0 },
            crc: 0,
        },
        symbols: AbiSymbols { symbols },
        types: AbiTypes {
            types: vec![root],
            core: CoreType {
                string: 9,
                char: 9,
                array: 9,
                map: 9,
                node: 0,
                node_list: 0,
                node_index: 0,
                node_time: 0,
                node_geo: 0,
            },
        },
        functions: AbiFunctions { functions: vec![] },
        libraries: vec!["std".to_string()],
    };
    let vars = abi.get_modvars();
    assert_eq!(
        vars,
        vec![ModVar { module: 3, name: 4, ty: LazyAbiType::Ref(0), nullable: true }]
    );
}

#[test]
fn libraries_kept_in_order_with_std_appended() {
    let mut rd = Reader::new(abi_bytes());
    let abi = Abi::new(&mut rd, Some(vec!["custom".to_string(), "extra".to_string()])).unwrap();
    assert_eq!(
        abi.libraries,
        vec!["custom".to_string(), "extra".to_string(), "std".to_string()]
    );

    let mut rd = Reader::new(abi_bytes());
    let abi = Abi::new(&mut rd, Some(vec!["std".to_string(), "custom".to_string()])).unwrap();
    assert_eq!(abi.libraries, vec!["std".to_string(), "custom".to_string()]);
}
