//! End-to-end checks of the codec against hand-computed wire bytes.

use greycat_sdk::abi::{
    Abi, AbiAttr, AbiFunctions, AbiHeaders, AbiSymbol, AbiSymbols, AbiType, AbiTypes, CoreType,
    LazyAbiType, RequestHeaders,
};
use greycat_sdk::core_types::{Duration, Float, Geo, Node, Time};
use greycat_sdk::error::Error;
use greycat_sdk::primitive;
use greycat_sdk::reader::Reader;
use greycat_sdk::value::{GcEnum, GcObject, Value};
use greycat_sdk::varint::{VarintRead, VarintWrite};
use greycat_sdk::{zigzag_decode, zigzag_encode};

fn plain_type(module: u32, name: u32, id: u32, attrs: Option<Vec<AbiAttr>>) -> AbiType {
    let nullable = match &attrs {
        Some(ats) => ats.iter().filter(|a| a.nullable).count() as u32,
        None => 0,
    };
    AbiType {
        lib_name: 0,
        module,
        name,
        mapped_abi_type_offset: id,
        masked_abi_type_offset: 0,
        nullable_nb_bytes: (nullable + 7) / 8,
        is_native: false,
        is_abstract: false,
        is_enum: false,
        is_masked: false,
        attrs,
    }
}

fn attr(name: u32, abi_type: u32, offset: u32, sbi: u8, nullable: bool) -> AbiAttr {
    AbiAttr {
        name,
        abi_type,
        prog_type_offset: LazyAbiType::Ref(abi_type),
        mapped_any_offset: 0,
        mapped_att_offset: offset,
        sbi_type: sbi,
        nullable,
        mapped: true,
    }
}

/// An ABI whose first three types are the `core` containers, followed by
/// the given types; symbol ids 0..=3 are "", "core", "String", "Array",
/// "Map", then the extra symbols.
fn test_abi(extra_symbols: &[&str], mut extra_types: Vec<AbiType>) -> Abi {
    let mut symbols: Vec<String> = vec![
        String::new(),
        "core".to_string(),
        "String".to_string(),
        "Array".to_string(),
        "Map".to_string(),
    ];
    for s in extra_symbols {
        symbols.push(s.to_string());
    }
    let mut types = vec![
        plain_type(1, 2, 0, None),
        plain_type(1, 3, 1, None),
        plain_type(1, 4, 2, None),
    ];
    types.append(&mut extra_types);
    Abi {
        headers: AbiHeaders {
            headers: RequestHeaders { protocol: 1, magic: 2, version: 3 },
            crc: 0,
        },
        symbols: AbiSymbols { symbols },
        types: AbiTypes {
            types,
            core: CoreType {
                string: 0,
                char: 0,
                array: 1,
                map: 2,
                node: 0,
                node_list: 0,
                node_index: 0,
                node_time: 0,
                node_geo: 0,
            },
        },
        functions: AbiFunctions { functions: vec![] },
        libraries: vec!["std".to_string()],
    }
}

#[test]
fn zigzag_round_trip() {
    for v in [0i64, 1, -1, 42, -42, i64::MAX, i64::MIN] {
        assert_eq!(zigzag_decode(zigzag_encode(v)), v);
    }
    assert_eq!(zigzag_encode(0), 0);
    assert_eq!(zigzag_encode(-1), 1);
    assert_eq!(zigzag_encode(1), 2);
    assert_eq!(zigzag_encode(42), 84);
}

#[test]
fn varint_u32_round_trip() {
    for v in [0u32, 1, 127, 128, 300, 16384, 0xffff_ffff, 0x1234_5678] {
        let mut w: Vec<u8> = Vec::new();
        let n = w.write_vu32(v);
        assert_eq!(n, w.len());
        assert!(n <= 5);
        let mut rd = Reader::new(w);
        assert_eq!(rd.read_vu32().unwrap(), v);
        assert!(rd.is_empty());
    }
}

#[test]
fn varint_u64_round_trip() {
    for v in [0u64, 1, 127, 128, 0xffff_ffff, u64::MAX, 1 << 62, (1 << 56) - 1, 1 << 56] {
        let mut w: Vec<u8> = Vec::new();
        let n = w.write_vu64(v);
        assert_eq!(n, w.len());
        assert!(n <= 9);
        let mut rd = Reader::new(w);
        assert_eq!(rd.read_vu64().unwrap(), v);
        assert!(rd.is_empty());
    }
}

#[test]
fn varint_i64_round_trip() {
    for v in [0i64, 1, -1, 42, -300, i64::MAX, i64::MIN] {
        let mut w: Vec<u8> = Vec::new();
        let n = w.write_vi64(v);
        assert_eq!(n, w.len());
        assert!(n <= 9);
        let mut rd = Reader::new(w);
        assert_eq!(rd.read_vi64().unwrap(), v);
        assert!(rd.is_empty());
    }
}

#[test]
fn geo_encode() {
    // The scaled round trip is exact; the float mapping around it is the
    // host's, mirrored here.
    let lat = 48.1173f64;
    let lng = -1.6777f64;
    let lat_min = -85.05112878f64;
    let lat_max = 85.05112878f64;
    let lng_min = -180.0f64;
    let lng_max = 180.0f64;
    let scale = (1u64 << 32) as f64;
    let lat_s = (((lat - lat_min) / (lat_max - lat_min)) * scale) as u32;
    let lng_s = (((lng - lng_min) / (lng_max - lng_min)) * scale) as u32;
    let geo = Geo::from_scaled(lng_s, lat_s);
    let (lng_s2, lat_s2) = geo.to_scaled();
    assert_eq!((lng_s, lat_s), (lng_s2, lat_s2));
    let lat2 = lat_min + ((lat_s2 as f64 + 0.5) / scale) * (lat_max - lat_min);
    let lng2 = lng_min + ((lng_s2 as f64 + 0.5) / scale) * (lng_max - lng_min);
    assert!((lat - lat2).abs() <= 0.00001);
    assert!((lng - lng2).abs() <= 0.00001);
}

#[test]
fn primitive_array_round_trip() {
    // Array[Int(42), Bool(true), Char('d'), Float(3.14)] against an ABI
    // whose core::Array id is 1.
    let abi = test_abi(&[], vec![]);
    let value = Value::Array(vec![
        Value::Int(42),
        Value::Bool(true),
        Value::Char('d'),
        Value::Float(Float(3.14f64.to_bits())),
    ]);
    let mut w: Vec<u8> = Vec::new();
    let n = value.write_to(&mut w, &abi).unwrap();
    assert_eq!(n, w.len());
    let mut expected = vec![0x0F, 0x01, 0x04, 0x03, 0x54, 0x01, 0x01, 0x02, 0x64, 0x04];
    expected.extend_from_slice(&3.14f64.to_bits().to_le_bytes());
    assert_eq!(w, expected);
    let mut rd = Reader::new(w);
    let back = rd.read_value(&abi).unwrap();
    assert!(rd.is_empty());
    assert_eq!(back, value);
}

#[test]
fn symbol_vs_string_dispatch() {
    // "hello" interned at id 7, "world" not interned.
    let abi = test_abi(&["x", "y", "hello"], vec![]);
    assert_eq!(abi.get_symbol_id("hello"), Some(7));
    assert_eq!(abi.get_symbol_id("world"), None);

    let mut w: Vec<u8> = Vec::new();
    Value::String("hello".to_string()).write_to(&mut w, &abi).unwrap();
    assert_eq!(w, vec![0x1C, 0x0F]);
    let mut rd = Reader::new(w);
    assert_eq!(rd.read_value(&abi).unwrap(), Value::Symbol(AbiSymbol(7)));

    let mut w: Vec<u8> = Vec::new();
    Value::String("world".to_string()).write_to(&mut w, &abi).unwrap();
    let mut expected = vec![0x0F, 0x00, 0x0A];
    expected.extend_from_slice(b"world");
    assert_eq!(w, expected);
    let mut rd = Reader::new(w);
    assert_eq!(rd.read_value(&abi).unwrap(), Value::String("world".to_string()));
}

#[test]
fn nullable_object() {
    // Type T { a: int, b: int?, c: int? }, encoding {a=1, b=null, c=9}.
    let t = plain_type(
        0,
        5,
        3,
        Some(vec![
            attr(6, 3, 0, primitive::INT, false),
            attr(7, 3, 1, primitive::INT, true),
            attr(8, 3, 2, primitive::INT, true),
        ]),
    );
    let abi = test_abi(&["T", "a", "b", "c"], vec![t]);
    let obj = GcObject {
        ty: 3,
        values: Some(vec![Value::Int(1), Value::Null, Value::Int(9)]),
    };
    let mut w: Vec<u8> = Vec::new();
    obj.write_raw_to(&mut w, &abi).unwrap();
    assert_eq!(w, vec![0b0000_0010, 0x02, 0x12]);
    let mut rd = Reader::new(w);
    let back = rd.read_typed_object(3, &abi).unwrap();
    assert!(rd.is_empty());
    assert_eq!(back, Value::Obj(obj));
}

#[test]
fn nullable_bitset_law_concrete() {
    // After an encode/decode round trip, slots are null exactly where they
    // were null.
    let t = plain_type(
        0,
        5,
        3,
        Some(vec![
            attr(6, 3, 0, primitive::INT, true),
            attr(7, 3, 1, primitive::INT, true),
            attr(8, 3, 2, primitive::INT, true),
        ]),
    );
    let abi = test_abi(&["T", "a", "b", "c"], vec![t]);
    let obj = GcObject {
        ty: 3,
        values: Some(vec![Value::Null, Value::Int(5), Value::Null]),
    };
    let mut w: Vec<u8> = Vec::new();
    Value::Obj(obj).write_to(&mut w, &abi).unwrap();
    let mut rd = Reader::new(w);
    let back = rd.read_value(&abi).unwrap();
    match back {
        Value::Obj(o) => {
            let slots = o.values.unwrap();
            assert_eq!(slots[0], Value::Null);
            assert_eq!(slots[1], Value::Int(5));
            assert_eq!(slots[2], Value::Null);
        },
        other => panic!("expected an object, got {other:?}"),
    }
}

#[test]
fn non_mapped_attribute_leaves_slot_null() {
    // An attribute with mapped = false is consumed from the wire but never
    // stored.
    let mut unmapped = attr(6, 3, 0, primitive::INT, false);
    unmapped.mapped = false;
    let t = plain_type(0, 5, 3, Some(vec![unmapped, attr(7, 3, 1, primitive::INT, false)]));
    let abi = test_abi(&["T", "a", "b"], vec![t]);
    let mut w: Vec<u8> = Vec::new();
    let mut ww = Vec::new();
    ww.write_vi64(41);
    ww.write_vi64(9);
    w.extend_from_slice(&ww);
    let mut rd = Reader::new(w);
    let back = rd.read_typed_object(3, &abi).unwrap();
    match back {
        Value::Obj(o) => {
            let slots = o.values.unwrap();
            assert_eq!(slots[0], Value::Null);
            assert_eq!(slots[1], Value::Int(9));
        },
        other => panic!("expected an object, got {other:?}"),
    }
}

#[test]
fn polymorphic_attribute_round_trip() {
    // Type U { x: UNDEFINED }: the value carries its own tag byte.
    let t = plain_type(0, 5, 3, Some(vec![attr(6, 0, 0, primitive::UNDEFINED, false)]));
    let abi = test_abi(&["U", "x"], vec![t]);
    let obj = GcObject { ty: 3, values: Some(vec![Value::Bool(true)]) };
    let mut w: Vec<u8> = Vec::new();
    Value::Obj(obj).write_to(&mut w, &abi).unwrap();
    assert_eq!(w, vec![0x0F, 0x03, 0x01, 0x01]);
    let mut rd = Reader::new(w);
    let back = rd.read_value(&abi).unwrap();
    assert_eq!(
        back,
        Value::Obj(GcObject { ty: 3, values: Some(vec![Value::Bool(true)]) }),
    );
}

#[test]
fn enum_round_trip() {
    // Type E [RED, GREEN, BLUE]; Enum(E, GREEN) standalone.
    let mut e = plain_type(
        0,
        5,
        3,
        Some(vec![
            attr(6, 3, 0, primitive::UNDEFINED, false),
            attr(7, 3, 1, primitive::UNDEFINED, false),
            attr(8, 3, 2, primitive::UNDEFINED, false),
        ]),
    );
    e.is_enum = true;
    let abi = test_abi(&["E", "RED", "GREEN", "BLUE"], vec![e]);
    let en = GcEnum { ty: 3, offset: 1, key: 7 };
    let mut w: Vec<u8> = Vec::new();
    Value::Enum(en).write_to(&mut w, &abi).unwrap();
    assert_eq!(w, vec![0x0E, 0x03, 0x01]);
    let mut rd = Reader::new(w);
    let back = rd.read_value(&abi).unwrap();
    assert_eq!(back, Value::Enum(GcEnum { ty: 3, offset: 1, key: 7 }));
}

#[test]
fn abstract_attribute_round_trip() {
    // Group { leader: Person } with Person abstract and Manager concrete:
    // the wire carries Manager's id right after Group's (empty) bitset.
    let mut person = plain_type(0, 6, 4, None);
    person.is_abstract = true;
    let manager = plain_type(0, 7, 5, Some(vec![attr(9, 3, 0, primitive::INT, false)]));
    let group = plain_type(0, 5, 3, Some(vec![attr(8, 4, 0, primitive::OBJECT, false)]));
    let abi = test_abi(
        &["Group", "Person", "Manager", "leader", "age"],
        vec![group, person, manager],
    );
    let leader = GcObject { ty: 5, values: Some(vec![Value::Int(7)]) };
    let obj = GcObject { ty: 3, values: Some(vec![Value::Obj(leader)]) };
    let mut w: Vec<u8> = Vec::new();
    Value::Obj(obj).write_to(&mut w, &abi).unwrap();
    // OBJECT tag, Group id, Manager id, then Manager's body.
    assert_eq!(w, vec![0x0F, 0x03, 0x05, 0x0E]);
    let mut rd = Reader::new(w);
    let back = rd.read_value(&abi).unwrap();
    let leader = GcObject { ty: 5, values: Some(vec![Value::Int(7)]) };
    assert_eq!(back, Value::Obj(GcObject { ty: 3, values: Some(vec![Value::Obj(leader)]) }));
}

#[test]
fn dict_and_primitives_round_trip() {
    let abi = test_abi(&[], vec![]);
    let value = Value::Dict(vec![
        (Value::Int(1), Value::Time(Time(77))),
        (Value::String("world".to_string()), Value::Duration(Duration(-3))),
        (Value::Node(Node(9)), Value::Geo(Geo(123456))),
    ]);
    let mut w: Vec<u8> = Vec::new();
    value.write_to(&mut w, &abi).unwrap();
    let mut rd = Reader::new(w);
    let back = rd.read_value(&abi).unwrap();
    assert!(rd.is_empty());
    assert_eq!(back, value);
}

#[test]
fn write_errors() {
    let abi = test_abi(&[], vec![]);
    let mut w: Vec<u8> = Vec::new();
    assert_eq!(
        Value::Char('\u{e9}').write_to(&mut w, &abi),
        Err(Error::NotAscii('\u{e9}')),
    );
    let mut w: Vec<u8> = Vec::new();
    assert_eq!(
        Value::Symbol(AbiSymbol(99)).write_to(&mut w, &abi),
        Err(Error::UnknownSymbol(99)),
    );
    let mut w: Vec<u8> = Vec::new();
    assert_eq!(
        Value::Obj(GcObject { ty: 77, values: None }).write_to(&mut w, &abi),
        Err(Error::UnknownTypeId(77)),
    );
    // A statically typed attribute rejects a value of another shape.
    let t = plain_type(0, 5, 3, Some(vec![attr(6, 3, 0, primitive::INT, false)]));
    let abi = test_abi(&["T", "a"], vec![t]);
    let obj = GcObject { ty: 3, values: Some(vec![Value::Bool(true)]) };
    let mut w: Vec<u8> = Vec::new();
    assert_eq!(obj.write_raw_to(&mut w, &abi), Err(Error::AttrTypeMismatch(6, 5)));
}

#[test]
fn read_errors() {
    let abi = test_abi(&[], vec![]);
    let mut rd = Reader::new(vec![]);
    assert_eq!(rd.read_value(&abi), Err(Error::Truncated));
    let mut rd = Reader::new(vec![99]);
    assert_eq!(rd.read_value(&abi), Err(Error::UnknownTag(99)));
    let mut rd = Reader::new(vec![primitive::FN]);
    assert_eq!(rd.read_value(&abi), Err(Error::UnsupportedFn));
    let mut rd = Reader::new(vec![primitive::CHAR, 0xF0]);
    assert_eq!(rd.read_value(&abi), Err(Error::InvalidChar(0xF0)));
    // An object of an unknown type id.
    let mut rd = Reader::new(vec![primitive::OBJECT, 0x63]);
    assert_eq!(rd.read_value(&abi), Err(Error::UnknownTypeId(99)));
}

#[test]
fn symbol_bijection_concrete() {
    let abi = test_abi(&["alpha", "beta"], vec![]);
    for name in ["core", "String", "alpha", "beta"] {
        let id = abi.get_symbol_id(name).unwrap();
        assert_eq!(abi.symbols.name_by_id(id), name);
    }
    assert_eq!(abi.get_symbol_id(""), Some(0));
    assert_eq!(abi.get_symbol_id("gamma"), None);
}

#[test]
fn null_and_nested_round_trip() {
    let abi = test_abi(&[], vec![]);
    let value = Value::Array(vec![
        Value::Null,
        Value::Array(vec![Value::Int(-1), Value::String("world".to_string())]),
    ]);
    let mut w: Vec<u8> = Vec::new();
    value.write_to(&mut w, &abi).unwrap();
    let mut rd = Reader::new(w);
    assert_eq!(rd.read_value(&abi).unwrap(), value);
}

#[test]
fn object_slot_accessors() {
    let mut obj = GcObject::new(3, Some(vec![Value::Null, Value::Int(2)]));
    assert_eq!(obj.get_value(0), Some(&Value::Null));
    assert_eq!(obj.get_value(1), Some(&Value::Int(2)));
    assert_eq!(obj.get_value(2), None);
    obj.set_value(0, Value::Bool(true));
    assert_eq!(obj.get_value(0), Some(&Value::Bool(true)));
    let mut bare = GcObject::new(3, None);
    assert_eq!(bare.get_value(0), None);
    bare.set_value(0, Value::Null);
    assert_eq!(bare, GcObject::new(3, None));
}

#[test]
fn enum_decode_maps_to_program_type() {
    // The wire enum type at id 3 maps onto the program type at id 4: the
    // decoded enum carries 4, while offset and key come from the wire
    // type's attribute list.
    let variants = || {
        vec![
            attr(6, 3, 0, primitive::UNDEFINED, false),
            attr(7, 3, 1, primitive::UNDEFINED, false),
        ]
    };
    let mut wire_e = plain_type(0, 5, 4, Some(variants()));
    wire_e.is_enum = true;
    let mut prog_e = plain_type(0, 5, 4, Some(variants()));
    prog_e.is_enum = true;
    let abi = test_abi(&["E", "RED", "GREEN"], vec![wire_e, prog_e]);
    let mut rd = Reader::new(vec![0x0E, 0x03, 0x01]);
    let back = rd.read_value(&abi).unwrap();
    assert_eq!(back, Value::Enum(GcEnum { ty: 4, offset: 1, key: 7 }));
}
