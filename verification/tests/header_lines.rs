use ply_writer::keymap::KeyMap;
use ply_writer::ply::{
    DefaultElement, ElementDef, Encoding, Header, PropertyDef, PropertyType, Version,
};
use ply_writer::writer::{NewLine, Writer};

fn writer(new_line: NewLine) -> Writer<DefaultElement> {
    let mut writer = Writer::new();
    writer.set_newline(new_line);
    writer
}

fn property(name: &str, data_type: PropertyType) -> PropertyDef {
    PropertyDef { name: name.to_string(), data_type }
}

fn list(index_type: PropertyType, item_type: PropertyType) -> PropertyType {
    PropertyType::List(Box::new(index_type), Box::new(item_type))
}

fn text(out: Vec<u8>) -> String {
    String::from_utf8(out).unwrap()
}

#[test]
fn magic_line_under_each_newline_policy() {
    for (policy, expected) in
        [(NewLine::N, "ply\n"), (NewLine::R, "ply\r"), (NewLine::RN, "ply\r\n")]
    {
        let mut out = Vec::new();
        let written = writer(policy).write_line_magic_number(&mut out);
        assert_eq!(text(out), expected);
        assert_eq!(written, Ok(expected.len()));
    }
}

#[test]
fn default_newline_is_carriage_return_line_feed() {
    let mut out = Vec::new();
    Writer::<DefaultElement>::new().write_line_end_header(&mut out).unwrap();
    assert_eq!(text(out), "end_header\r\n");
}

#[test]
fn format_line_names_encoding_and_version() {
    let cases = [
        (Encoding::Ascii, 1u16, 0u8, "format ascii 1.0\n"),
        (Encoding::BinaryBigEndian, 1, 0, "format binary_big_endian 1.0\n"),
        (Encoding::BinaryLittleEndian, 12, 34, "format binary_little_endian 12.34\n"),
        (Encoding::Ascii, 65535, 255, "format ascii 65535.255\n"),
    ];
    for (encoding, major, minor, expected) in cases {
        let mut out = Vec::new();
        let written =
            writer(NewLine::N).write_line_format(&mut out, &encoding, &Version { major, minor });
        assert_eq!(text(out), expected);
        assert_eq!(written, Ok(expected.len()));
    }
}

#[test]
fn comment_and_obj_info_lines() {
    let mut out = Vec::new();
    let w = writer(NewLine::R);
    assert_eq!(w.write_line_comment(&mut out, &"made by hand".to_string()), Ok(21));
    assert_eq!(w.write_line_obj_info(&mut out, &"scanner 7".to_string()), Ok(19));
    assert_eq!(w.write_line_comment(&mut out, &String::new()), Ok(9));
    assert_eq!(text(out), "comment made by hand\robj_info scanner 7\rcomment \r");
}

#[test]
fn text_is_written_as_utf8() {
    let mut out = Vec::new();
    let written = writer(NewLine::N).write_line_comment(&mut out, &"größe €".to_string());
    assert_eq!(written, Ok("comment größe €\n".len()));
    assert_eq!(text(out), "comment größe €\n");
}

#[test]
fn element_line_names_element_and_count() {
    let w = writer(NewLine::N);
    for (count, expected) in
        [(0usize, "element face 0\n"), (2, "element face 2\n"), (1234567, "element face 1234567\n")]
    {
        let def = ElementDef { name: "face".to_string(), count, properties: KeyMap::new() };
        let mut out = Vec::new();
        let written = w.write_line_element_definition(&mut out, &def);
        assert_eq!(text(out), expected);
        assert_eq!(written, Ok(expected.len()));
    }
}

#[test]
fn property_line_for_each_scalar_type() {
    let cases = [
        (PropertyType::Char, "property char p\r\n"),
        (PropertyType::UChar, "property uchar p\r\n"),
        (PropertyType::Short, "property short p\r\n"),
        (PropertyType::UShort, "property ushort p\r\n"),
        (PropertyType::Int, "property int p\r\n"),
        (PropertyType::UInt, "property uint p\r\n"),
        (PropertyType::Float, "property float p\r\n"),
        (PropertyType::Double, "property double p\r\n"),
    ];
    let w = writer(NewLine::RN);
    for (data_type, expected) in cases {
        let mut out = Vec::new();
        let written = w.write_line_property_definition(&mut out, &property("p", data_type));
        assert_eq!(text(out), expected);
        assert_eq!(written, Ok(expected.len()));
    }
}

#[test]
fn property_line_for_lists() {
    let w = writer(NewLine::N);
    let mut out = Vec::new();
    let def = property("vertex_indices", list(PropertyType::UChar, PropertyType::Int));
    assert_eq!(w.write_line_property_definition(&mut out, &def), Ok(39));
    assert_eq!(text(out), "property list uchar int vertex_indices\n");

    let mut out = Vec::new();
    let nested =
        property(
            "rings",
            list(PropertyType::UInt, list(PropertyType::Short, PropertyType::Double)),
        );
    w.write_line_property_definition(&mut out, &nested).unwrap();
    assert_eq!(text(out), "property list uint list short double rings\n");
}

#[test]
fn type_tokens_alone() {
    let w = writer(NewLine::N);
    let mut out = Vec::new();
    assert_eq!(w.write_property_type(&mut out, &PropertyType::UShort), Ok(6));
    assert_eq!(
        w.write_property_type(&mut out, &list(PropertyType::Char, PropertyType::Float)),
        Ok(15)
    );
    assert_eq!(text(out), "ushortlist char float");
}

#[test]
fn element_block_follows_the_order_of_the_definition() {
    let mut properties = KeyMap::new();
    properties.insert("b".to_string(), property("b", PropertyType::Int));
    properties.insert("a".to_string(), property("a", PropertyType::UChar));
    properties.insert("c".to_string(), property("c", list(PropertyType::UChar, PropertyType::Int)));
    let def = ElementDef { name: "thing".to_string(), count: 3, properties };
    let mut out = Vec::new();
    let written = writer(NewLine::N).write_element_definition(&mut out, &def);
    let expected = "element thing 3\nproperty int b\nproperty uchar a\nproperty list uchar int c\n";
    assert_eq!(text(out), expected);
    assert_eq!(written, Ok(expected.len()));
}

#[test]
fn lines_carry_the_names_of_the_definitions_not_the_keys() {
    let mut properties = KeyMap::new();
    properties.insert("key_of_x".to_string(), property("x", PropertyType::Float));
    let mut elements = KeyMap::new();
    elements.insert(
        "key_of_vertex".to_string(),
        ElementDef { name: "vertex".to_string(), count: 1, properties },
    );
    let header = Header {
        encoding: Encoding::Ascii,
        version: Version { major: 1, minor: 0 },
        comments: Vec::new(),
        obj_infos: Vec::new(),
        elements,
    };
    let mut out = Vec::new();
    writer(NewLine::N).write_header(&mut out, &header).unwrap();
    assert_eq!(
        text(out),
        "ply\nformat ascii 1.0\nelement vertex 1\nproperty float x\nend_header\n"
    );
}

fn full_header() -> Header {
    let mut vertex = KeyMap::new();
    vertex.insert("x".to_string(), property("x", PropertyType::Float));
    vertex.insert("y".to_string(), property("y", PropertyType::Float));
    let mut face = KeyMap::new();
    face.insert(
        "vertex_indices".to_string(),
        property("vertex_indices", list(PropertyType::UChar, PropertyType::Int)),
    );
    let mut elements = KeyMap::new();
    elements.insert(
        "vertex".to_string(),
        ElementDef { name: "vertex".to_string(), count: 8, properties: vertex },
    );
    elements.insert(
        "face".to_string(),
        ElementDef { name: "face".to_string(), count: 6, properties: face },
    );
    Header {
        encoding: Encoding::BinaryBigEndian,
        version: Version { major: 1, minor: 0 },
        comments: vec!["first".to_string(), "second".to_string()],
        obj_infos: vec!["info".to_string()],
        elements,
    }
}

#[test]
fn header_lines_come_in_the_fixed_order() {
    let mut out = Vec::new();
    let written = writer(NewLine::RN).write_header(&mut out, &full_header());
    let expected = "ply\r\n\
        format binary_big_endian 1.0\r\n\
        comment first\r\n\
        comment second\r\n\
        obj_info info\r\n\
        element vertex 8\r\n\
        property float x\r\n\
        property float y\r\n\
        element face 6\r\n\
        property list uchar int vertex_indices\r\n\
        end_header\r\n";
    assert_eq!(text(out), expected);
    assert_eq!(written, Ok(expected.len()));
}

#[test]
fn every_header_line_ends_with_the_configured_newline_only() {
    for (policy, newline) in [(NewLine::N, "\n"), (NewLine::R, "\r"), (NewLine::RN, "\r\n")] {
        let mut out = Vec::new();
        writer(policy).write_header(&mut out, &full_header()).unwrap();
        let written = text(out);
        assert!(written.ends_with(newline));
        let lines: Vec<&str> = written.split(newline).collect();
        assert_eq!(lines.len(), 12);
        assert_eq!(lines[11], "");
        for line in lines {
            assert!(!line.contains('\n'));
            assert!(!line.contains('\r'));
        }
    }
}

#[test]
fn header_is_appended_and_the_count_is_of_the_new_bytes() {
    let mut out = b"junk".to_vec();
    let written = writer(NewLine::N).write_header(&mut out, &full_header());
    assert_eq!(written, Ok(out.len() - 4));
    assert!(out.starts_with(b"junkply\nformat "));
}

#[test]
fn set_newline_changes_later_writes_only() {
    let mut w = Writer::<DefaultElement>::new();
    let mut out = Vec::new();
    w.write_line_magic_number(&mut out).unwrap();
    w.set_newline(NewLine::N);
    w.write_line_magic_number(&mut out).unwrap();
    w.set_newline(NewLine::R);
    w.write_line_magic_number(&mut out).unwrap();
    assert_eq!(text(out), "ply\r\nply\nply\r");
}
