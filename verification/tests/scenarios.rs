use ply_writer::error::WriteError;
use ply_writer::keymap::KeyMap;
use ply_writer::ply::{
    DefaultElement, Double, ElementDef, Encoding, Header, Payload, Ply, Property, PropertyDef,
    PropertyType, Single, Version,
};
use ply_writer::writer::{NewLine, Writer};

fn float(v: f32) -> Property {
    Property::Float(Single::new(v.to_bits(), v.to_string()).unwrap())
}

fn double(v: f64) -> Property {
    Property::Double(Double::new(v.to_bits(), v.to_string()).unwrap())
}

fn scalar_def(name: &str, data_type: PropertyType) -> PropertyDef {
    PropertyDef { name: name.to_string(), data_type }
}

fn vertex_def(count: usize) -> ElementDef {
    let mut properties = KeyMap::new();
    properties.insert("x".to_string(), scalar_def("x", PropertyType::Float));
    properties.insert("y".to_string(), scalar_def("y", PropertyType::Float));
    properties.insert("z".to_string(), scalar_def("z", PropertyType::Float));
    ElementDef { name: "vertex".to_string(), count, properties }
}

fn vertex(x: f32, y: f32, z: f32) -> DefaultElement {
    let mut element = KeyMap::new();
    element.insert("x".to_string(), float(x));
    element.insert("y".to_string(), float(y));
    element.insert("z".to_string(), float(z));
    element
}

fn vertex_document(encoding: Encoding) -> Ply<DefaultElement> {
    let mut elements = KeyMap::new();
    elements.insert("vertex".to_string(), vertex_def(2));
    let header = Header {
        encoding,
        version: Version { major: 1, minor: 0 },
        comments: Vec::new(),
        obj_infos: Vec::new(),
        elements,
    };
    let mut payload: Payload<DefaultElement> = KeyMap::new();
    payload.insert("vertex".to_string(), vec![vertex(1.5, 2.5, 3.5), vertex(4.0, 5.0, 6.0)]);
    Ply { header, payload }
}

#[test]
fn ascii_document_with_two_vertices() {
    let mut writer = Writer::<DefaultElement>::new();
    let mut out = Vec::new();
    let written = writer.write_ply(&mut out, &vertex_document(Encoding::Ascii));
    let expected = "ply\r\nformat ascii 1.0\r\n\
        element vertex 2\r\nproperty float x\r\nproperty float y\r\nproperty float z\r\n\
        end_header\r\n1.5 2.5 3.5\r\n4 5 6\r\n";
    assert_eq!(String::from_utf8(out).unwrap(), expected);
    assert_eq!(written, Ok(expected.len()));
}

#[test]
fn ascii_element_block_reads_as_declared() {
    let writer = Writer::<DefaultElement>::new();
    let mut out = Vec::new();
    let written = writer.write_element_definition(&mut out, &vertex_def(2));
    let expected =
        "element vertex 2\r\nproperty float x\r\nproperty float y\r\nproperty float z\r\n";
    assert_eq!(String::from_utf8(out).unwrap(), expected);
    assert_eq!(written, Ok(expected.len()));
}

#[test]
fn little_endian_payload_is_twenty_four_bytes() {
    let mut writer = Writer::<DefaultElement>::new();
    let document = vertex_document(Encoding::BinaryLittleEndian);
    let mut out = Vec::new();
    let written = writer.write_payload(&mut out, &document.payload, &document.header);
    assert_eq!(written, Ok(24));
    let mut expected = Vec::new();
    for v in [1.5f32, 2.5, 3.5, 4.0, 5.0, 6.0] {
        expected.extend_from_slice(&v.to_le_bytes());
    }
    assert_eq!(out, expected);
}

#[test]
fn big_endian_list_row() {
    let mut properties = KeyMap::new();
    properties.insert(
        "vertex_indices".to_string(),
        scalar_def(
            "vertex_indices",
            PropertyType::List(Box::new(PropertyType::UChar), Box::new(PropertyType::Int)),
        ),
    );
    let face_def = ElementDef { name: "face".to_string(), count: 1, properties };
    let mut face: DefaultElement = KeyMap::new();
    face.insert(
        "vertex_indices".to_string(),
        Property::List(vec![Property::Int(0), Property::Int(1), Property::Int(2)]),
    );
    let writer = Writer::<DefaultElement>::new();
    let mut out = Vec::new();
    let written = writer.write_big_endian_element(&mut out, &face, &face_def);
    assert_eq!(written, Ok(13));
    assert_eq!(out, vec![3u8, 0, 0, 0, 0, 0, 0, 0, 1, 0, 0, 0, 2]);
}

#[test]
fn empty_document_is_preamble_and_end_header() {
    let header = Header {
        encoding: Encoding::Ascii,
        version: Version { major: 1, minor: 0 },
        comments: Vec::new(),
        obj_infos: Vec::new(),
        elements: KeyMap::new(),
    };
    let document: Ply<DefaultElement> = Ply { header, payload: KeyMap::new() };
    let mut writer = Writer::new();
    let mut out = Vec::new();
    let written = writer.write_ply(&mut out, &document);
    let expected = "ply\r\nformat ascii 1.0\r\nend_header\r\n";
    assert_eq!(String::from_utf8(out).unwrap(), expected);
    assert_eq!(written, Ok(expected.len()));
}

#[test]
fn double_field_is_eight_bytes_in_either_order() {
    let mut properties = KeyMap::new();
    properties.insert("d".to_string(), scalar_def("d", PropertyType::Double));
    let def = ElementDef { name: "e".to_string(), count: 1, properties };
    let mut element: DefaultElement = KeyMap::new();
    element.insert("d".to_string(), double(-2.75));
    let writer = Writer::<DefaultElement>::new();
    let mut big = Vec::new();
    assert_eq!(writer.write_big_endian_element(&mut big, &element, &def), Ok(8));
    assert_eq!(big, (-2.75f64).to_be_bytes().to_vec());
    let mut little = Vec::new();
    assert_eq!(writer.write_little_endian_element(&mut little, &element, &def), Ok(8));
    assert_eq!(little, (-2.75f64).to_le_bytes().to_vec());
}

#[test]
fn newline_policy_applies_to_header_and_rows() {
    let mut writer = Writer::<DefaultElement>::new();
    writer.set_newline(NewLine::N);
    let mut out = Vec::new();
    writer.write_ply(&mut out, &vertex_document(Encoding::Ascii)).unwrap();
    let text = String::from_utf8(out).unwrap();
    assert!(!text.contains('\r'));
    assert_eq!(text.matches('\n').count(), 9);
    assert!(text.ends_with("4 5 6\n"));
}

#[test]
fn missing_payload_is_reported() {
    let mut document = vertex_document(Encoding::Ascii);
    document.payload = KeyMap::new();
    let mut writer = Writer::new();
    let mut out = Vec::new();
    let written = writer.write_ply(&mut out, &document);
    assert_eq!(written, Err(WriteError::MissingElement("vertex".to_string())));
}
