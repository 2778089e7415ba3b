use ply_writer::convert::ToElement;
use ply_writer::keymap::KeyMap;
use ply_writer::ply::{
    DefaultElement, Double, ElementDef, Encoding, Header, Payload, Ply, Property, PropertyDef,
    PropertyType, Single, Version,
};
use ply_writer::wire::Endian;
use ply_writer::writer::{NewLine, Writer};

fn float(v: f32) -> Property {
    Property::Float(Single::new(v.to_bits(), v.to_string()).unwrap())
}

fn double(v: f64) -> Property {
    Property::Double(Double::new(v.to_bits(), v.to_string()).unwrap())
}

fn ints(values: &[i32]) -> Property {
    Property::List(values.iter().map(|v| Property::Int(*v)).collect())
}

fn list(index_type: PropertyType, item_type: PropertyType) -> PropertyType {
    PropertyType::List(Box::new(index_type), Box::new(item_type))
}

fn element(values: Vec<(&str, Property)>) -> DefaultElement {
    let mut element = KeyMap::new();
    for (name, value) in values {
        element.insert(name.to_string(), value);
    }
    element
}

fn definition(name: &str, count: usize, properties: Vec<(&str, PropertyType)>) -> ElementDef {
    let mut map = KeyMap::new();
    for (key, data_type) in properties {
        map.insert(key.to_string(), PropertyDef { name: key.to_string(), data_type });
    }
    ElementDef { name: name.to_string(), count, properties: map }
}

fn header(encoding: Encoding, definitions: Vec<ElementDef>) -> Header {
    let mut elements = KeyMap::new();
    for def in definitions {
        elements.insert(def.name.clone(), def);
    }
    Header {
        encoding,
        version: Version { major: 1, minor: 0 },
        comments: Vec::new(),
        obj_infos: Vec::new(),
        elements,
    }
}

fn writer() -> Writer<DefaultElement> {
    let mut writer = Writer::new();
    writer.set_newline(NewLine::N);
    writer
}

fn text(out: Vec<u8>) -> String {
    String::from_utf8(out).unwrap()
}

#[test]
fn ascii_row_of_every_scalar_kind() {
    let row = element(vec![
        ("a", Property::Char(-5)),
        ("b", Property::UChar(200)),
        ("c", Property::Short(-300)),
        ("d", Property::UShort(60000)),
        ("e", Property::Int(-70000)),
        ("f", Property::UInt(4000000000)),
        ("g", float(0.5)),
        ("h", double(-0.25)),
    ]);
    let mut out = Vec::new();
    let written = writer().write_ascii_row(&mut out, &row);
    let expected = "-5 200 -300 60000 -70000 4000000000 0.5 -0.25\n";
    assert_eq!(text(out), expected);
    assert_eq!(written, Ok(expected.len()));
}

#[test]
fn ascii_row_has_no_space_before_the_newline() {
    let row = element(vec![("x", float(1.5)), ("y", float(2.5)), ("z", float(3.5))]);
    let mut out = Vec::new();
    Writer::<DefaultElement>::new().write_ascii_row(&mut out, &row).unwrap();
    assert_eq!(text(out), "1.5 2.5 3.5\r\n");
}

#[test]
fn ascii_row_of_one_value_and_of_none() {
    let mut out = Vec::new();
    assert_eq!(writer().write_ascii_row(&mut out, &element(vec![("x", Property::Int(7))])), Ok(2));
    assert_eq!(writer().write_ascii_row(&mut out, &element(vec![])), Ok(1));
    assert_eq!(text(out), "7\n\n");
}

#[test]
fn ascii_list_is_its_length_then_its_items() {
    let mut out = Vec::new();
    let w = writer();
    assert_eq!(w.write_ascii_property(&mut out, &ints(&[0, 1, 2])), Ok(7));
    out.push(b'|');
    assert_eq!(w.write_ascii_property(&mut out, &ints(&[])), Ok(1));
    out.push(b'|');
    let nested = Property::List(vec![ints(&[1, 2]), ints(&[]), ints(&[-3])]);
    assert_eq!(w.write_ascii_property(&mut out, &nested), Ok(14));
    assert_eq!(text(out), "3 0 1 2|0|3 2 1 2 0 1 -3");
}

#[test]
fn ascii_row_with_a_list_among_scalars() {
    let row = element(vec![
        ("n", Property::UChar(9)),
        ("vertex_indices", ints(&[4, 5, 6])),
        ("w", float(2.0)),
    ]);
    let mut out = Vec::new();
    writer().write_ascii_row(&mut out, &row).unwrap();
    assert_eq!(text(out), "9 3 4 5 6 2\n");
}

#[test]
fn ascii_row_follows_the_order_of_the_element() {
    let def = definition(
        "v",
        1,
        vec![("x", PropertyType::Int), ("y", PropertyType::Int), ("z", PropertyType::Int)],
    );
    let row =
        element(vec![("z", Property::Int(3)), ("x", Property::Int(1)), ("y", Property::Int(2))]);
    let mut out = Vec::new();
    writer().write_ascii_element(&mut out, &row, &def).unwrap();
    assert_eq!(text(out), "3 1 2\n");
}

#[test]
fn binary_row_follows_the_order_of_the_definition() {
    let def = definition(
        "v",
        1,
        vec![("x", PropertyType::UChar), ("y", PropertyType::UChar), ("z", PropertyType::UChar)],
    );
    let row = element(vec![
        ("z", Property::UChar(3)),
        ("extra", Property::UChar(9)),
        ("x", Property::UChar(1)),
        ("y", Property::UChar(2)),
    ]);
    let mut out = Vec::new();
    assert_eq!(writer().write_big_endian_element(&mut out, &row, &def), Ok(3));
    assert_eq!(out, vec![1, 2, 3]);
}

#[test]
fn binary_row_of_every_scalar_kind_big_endian() {
    let def = definition(
        "e",
        1,
        vec![
            ("a", PropertyType::Char),
            ("b", PropertyType::UChar),
            ("c", PropertyType::Short),
            ("d", PropertyType::UShort),
            ("e", PropertyType::Int),
            ("f", PropertyType::UInt),
            ("g", PropertyType::Float),
            ("h", PropertyType::Double),
        ],
    );
    let row = element(vec![
        ("a", Property::Char(-2)),
        ("b", Property::UChar(0x12)),
        ("c", Property::Short(-2)),
        ("d", Property::UShort(0x1234)),
        ("e", Property::Int(-2)),
        ("f", Property::UInt(0x12345678)),
        ("g", float(1.0)),
        ("h", double(1.0)),
    ]);
    let mut out = Vec::new();
    let written = writer().write_binary_row(&mut out, &row, &def, Endian::Big);
    assert_eq!(written, Ok(1 + 1 + 2 + 2 + 4 + 4 + 4 + 8));
    assert_eq!(
        out,
        vec![
            0xfe, 0x12, 0xff, 0xfe, 0x12, 0x34, 0xff, 0xff, 0xff, 0xfe, 0x12, 0x34, 0x56, 0x78,
            0x3f, 0x80, 0x00, 0x00, 0x3f, 0xf0, 0, 0, 0, 0, 0, 0
        ]
    );
}

#[test]
fn binary_row_of_every_scalar_kind_little_endian() {
    let def = definition(
        "e",
        1,
        vec![
            ("c", PropertyType::Short),
            ("d", PropertyType::UShort),
            ("e", PropertyType::Int),
            ("f", PropertyType::UInt),
            ("g", PropertyType::Float),
            ("h", PropertyType::Double),
        ],
    );
    let row = element(vec![
        ("c", Property::Short(-2)),
        ("d", Property::UShort(0x1234)),
        ("e", Property::Int(-2)),
        ("f", Property::UInt(0x12345678)),
        ("g", float(1.0)),
        ("h", double(1.0)),
    ]);
    let mut out = Vec::new();
    let written = writer().write_little_endian_element(&mut out, &row, &def);
    assert_eq!(written, Ok(24));
    assert_eq!(
        out,
        vec![
            0xfe, 0xff, 0x34, 0x12, 0xfe, 0xff, 0xff, 0xff, 0x78, 0x56, 0x34, 0x12, 0x00, 0x00,
            0x80, 0x3f, 0, 0, 0, 0, 0, 0, 0xf0, 0x3f
        ]
    );
}

#[test]
fn little_endian_entry_point_writes_little_endian() {
    let def = definition("e", 1, vec![("v", PropertyType::UShort)]);
    let row = element(vec![("v", Property::UShort(1))]);
    let mut little = Vec::new();
    writer().write_little_endian_element(&mut little, &row, &def).unwrap();
    assert_eq!(little, vec![1, 0]);
    let mut big = Vec::new();
    writer().write_big_endian_element(&mut big, &row, &def).unwrap();
    assert_eq!(big, vec![0, 1]);
}

#[test]
fn binary_rows_carry_no_newline() {
    let def = definition("e", 1, vec![("v", PropertyType::UChar)]);
    let row = element(vec![("v", Property::UChar(65))]);
    let mut out = Vec::new();
    let w = Writer::<DefaultElement>::new();
    w.write_big_endian_element(&mut out, &row, &def).unwrap();
    w.write_big_endian_element(&mut out, &row, &def).unwrap();
    assert_eq!(out, vec![65, 65]);
}

#[test]
fn scalar_field_has_the_width_of_the_value_whatever_is_declared() {
    let w = writer();
    let mut out = Vec::new();
    assert_eq!(
        w.write_binary_property(&mut out, &Property::UChar(7), &PropertyType::Double, Endian::Big),
        Ok(1)
    );
    assert_eq!(
        w.write_binary_property(&mut out, &double(2.0), &PropertyType::Char, Endian::Big),
        Ok(8)
    );
    assert_eq!(out, vec![7, 0x40, 0, 0, 0, 0, 0, 0, 0]);
}

#[test]
fn list_count_takes_the_width_of_the_index_type() {
    let w = writer();
    let value = ints(&[]);
    let cases: Vec<(PropertyType, Endian, Vec<u8>)> = vec![
        (PropertyType::Char, Endian::Big, vec![0]),
        (PropertyType::UChar, Endian::Little, vec![0]),
        (PropertyType::Short, Endian::Big, vec![0, 0]),
        (PropertyType::UShort, Endian::Little, vec![0, 0]),
        (PropertyType::Int, Endian::Big, vec![0, 0, 0, 0]),
        (PropertyType::UInt, Endian::Little, vec![0, 0, 0, 0]),
    ];
    for (index_type, order, expected) in cases {
        let mut out = Vec::new();
        let written =
            w.write_binary_property(&mut out, &value, &list(index_type, PropertyType::Int), order);
        assert_eq!(written, Ok(expected.len()));
        assert_eq!(out, expected);
    }
}

#[test]
fn list_count_is_written_in_the_selected_byte_order() {
    let w = writer();
    let value = Property::List(vec![Property::UChar(7), Property::UChar(8), Property::UChar(9)]);
    let mut out = Vec::new();
    w.write_binary_property(
        &mut out,
        &value,
        &list(PropertyType::Short, PropertyType::UChar),
        Endian::Big,
    )
    .unwrap();
    assert_eq!(out, vec![0, 3, 7, 8, 9]);
    let mut out = Vec::new();
    w.write_binary_property(
        &mut out,
        &value,
        &list(PropertyType::UInt, PropertyType::UChar),
        Endian::Little,
    )
    .unwrap();
    assert_eq!(out, vec![3, 0, 0, 0, 7, 8, 9]);
}

#[test]
fn list_count_is_cut_to_the_width_of_the_index_type() {
    let w = writer();
    let long = Property::List((0..258).map(|i| Property::UChar((i % 256) as u8)).collect());
    let mut out = Vec::new();
    let written = w.write_binary_property(
        &mut out,
        &long,
        &list(PropertyType::UChar, PropertyType::UChar),
        Endian::Big,
    );
    assert_eq!(written, Ok(259));
    assert_eq!(out[0], 2);
    assert_eq!(out[1..4], [0, 1, 2]);
    assert_eq!(out[258], 1);

    let mut out = Vec::new();
    let long = Property::List((0..200).map(|_| Property::UChar(1)).collect());
    w.write_binary_property(
        &mut out,
        &long,
        &list(PropertyType::Char, PropertyType::UChar),
        Endian::Big,
    )
    .unwrap();
    assert_eq!(out[0], 200);
    assert_eq!(out.len(), 201);
}

#[test]
fn nested_binary_lists_use_the_declared_item_type() {
    let w = writer();
    let value = Property::List(vec![
        Property::List(vec![Property::UShort(1), Property::UShort(2)]),
        Property::List(vec![Property::UShort(3)]),
    ]);
    let declared = list(PropertyType::UChar, list(PropertyType::UShort, PropertyType::UShort));
    let mut out = Vec::new();
    let written = w.write_binary_property(&mut out, &value, &declared, Endian::Big);
    assert_eq!(written, Ok(11));
    assert_eq!(out, vec![2, 0, 2, 0, 1, 0, 2, 0, 1, 0, 3]);
}

#[test]
fn row_in_the_encoding_asked_for() {
    let def = definition("e", 1, vec![("v", PropertyType::UShort)]);
    let row = element(vec![("v", Property::UShort(258))]);
    let w = writer();
    let mut out = Vec::new();
    assert_eq!(w.write_row(&mut out, &row, &def, Encoding::Ascii), Ok(4));
    assert_eq!(w.write_row(&mut out, &row, &def, Encoding::BinaryBigEndian), Ok(2));
    assert_eq!(w.write_row(&mut out, &row, &def, Encoding::BinaryLittleEndian), Ok(2));
    assert_eq!(out, vec![b'2', b'5', b'8', b'\n', 1, 2, 2, 1]);
}

#[test]
fn rows_of_one_element_in_the_encoding_of_the_header() {
    let def = definition("e", 2, vec![("v", PropertyType::UShort)]);
    let rows =
        vec![element(vec![("v", Property::UShort(1))]), element(vec![("v", Property::UShort(2))])];
    let mut w = writer();
    let mut out = Vec::new();
    let ascii = header(Encoding::Ascii, vec![]);
    assert_eq!(w.write_payload_of_element(&mut out, &rows, &def, &ascii), Ok(4));
    let little = header(Encoding::BinaryLittleEndian, vec![]);
    assert_eq!(w.write_payload_of_element(&mut out, &rows, &def, &little), Ok(4));
    let big = header(Encoding::BinaryBigEndian, vec![]);
    assert_eq!(w.write_payload_of_element(&mut out, &rows, &def, &big), Ok(4));
    assert_eq!(out, vec![b'1', b'\n', b'2', b'\n', 1, 0, 2, 0, 0, 1, 0, 2]);
}

#[test]
fn no_rows_write_nothing() {
    let def = definition("e", 0, vec![("v", PropertyType::UShort)]);
    let mut out = Vec::new();
    let written =
        writer().write_payload_of_element(
            &mut out,
            &Vec::new(),
            &def,
            &header(Encoding::Ascii, vec![]),
        );
    assert_eq!(written, Ok(0));
    assert!(out.is_empty());
}

#[test]
fn payload_follows_the_order_of_the_header() {
    let vertex = definition("vertex", 2, vec![("x", PropertyType::Int)]);
    let face = definition("face", 1, vec![("i", list(PropertyType::UChar, PropertyType::Int))]);
    let head = header(Encoding::Ascii, vec![vertex, face]);
    let mut payload: Payload<DefaultElement> = KeyMap::new();
    payload.insert("face".to_string(), vec![element(vec![("i", ints(&[0, 1]))])]);
    payload.insert("unknown".to_string(), vec![element(vec![("q", Property::Int(99))])]);
    payload.insert(
        "vertex".to_string(),
        vec![element(vec![("x", Property::Int(10))]), element(vec![("x", Property::Int(20))])],
    );
    let mut out = Vec::new();
    let written = writer().write_payload(&mut out, &payload, &head);
    assert_eq!(text(out), "10\n20\n2 0 1\n");
    assert_eq!(written, Ok(12));
}

#[test]
fn payload_may_hold_more_or_fewer_rows_than_declared() {
    let vertex = definition("vertex", 5, vec![("x", PropertyType::Int)]);
    let head = header(Encoding::Ascii, vec![vertex]);
    let mut payload: Payload<DefaultElement> = KeyMap::new();
    payload.insert("vertex".to_string(), vec![element(vec![("x", Property::Int(1))])]);
    let mut out = Vec::new();
    assert_eq!(writer().write_payload(&mut out, &payload, &head), Ok(2));
    assert_eq!(text(out), "1\n");
}

#[test]
fn binary_document_big_endian() {
    let face = definition("face", 1, vec![("i", list(PropertyType::UChar, PropertyType::Int))]);
    let head = header(Encoding::BinaryBigEndian, vec![face]);
    let mut payload: Payload<DefaultElement> = KeyMap::new();
    payload.insert("face".to_string(), vec![element(vec![("i", ints(&[0, 1, 2]))])]);
    let document = Ply { header: head, payload };
    let mut out = Vec::new();
    let written = writer().write_ply(&mut out, &document);
    let mut expected =
        b"ply\nformat binary_big_endian 1.0\n\
        element face 1\nproperty list uchar int i\nend_header\n"
            .to_vec();
    expected.extend_from_slice(&[3, 0, 0, 0, 0, 0, 0, 0, 1, 0, 0, 0, 2]);
    assert_eq!(out, expected);
    assert_eq!(written, Ok(expected.len()));
}

#[test]
fn canonical_element_converts_into_itself() {
    let def = definition("e", 1, vec![]);
    let row = element(vec![
        ("a", float(1.5)),
        ("b", Property::List(vec![Property::Char(-1), double(2.5)])),
        ("c", Property::UInt(3)),
    ]);
    assert_eq!(row.to_element(&def), Ok(row.clone()));
    let copy = row.to_element(&def).unwrap();
    assert_eq!(copy, row);
    assert_eq!(copy.get_index(1), row.get_index(1));
    assert_eq!(Property::Int(5).clone(), Property::Int(5));
}
