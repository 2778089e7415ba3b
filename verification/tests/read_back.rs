use ply_writer::keymap::KeyMap;
use ply_writer::ply::{
    DefaultElement, Double, ElementDef, Encoding, Header, Payload, Ply, Property, PropertyDef,
    PropertyType, Single, Version,
};
use ply_writer::writer::{NewLine, Writer};

fn float(v: f32) -> Property {
    Property::Float(Single::new(v.to_bits(), v.to_string()).unwrap())
}

fn double(v: f64) -> Property {
    Property::Double(Double::new(v.to_bits(), v.to_string()).unwrap())
}

fn document(encoding: Encoding) -> Ply<DefaultElement> {
    let mut properties = KeyMap::new();
    for (name, data_type) in [
        ("a", PropertyType::Char),
        ("b", PropertyType::UShort),
        ("c", PropertyType::Int),
        ("d", PropertyType::Float),
        ("e", PropertyType::Double),
        ("f", PropertyType::List(Box::new(PropertyType::UChar), Box::new(PropertyType::UInt))),
    ] {
        properties.insert(name.to_string(), PropertyDef { name: name.to_string(), data_type });
    }
    let mut elements = KeyMap::new();
    elements
        .insert(
            "thing".to_string(),
            ElementDef { name: "thing".to_string(), count: 2, properties },
        );
    let header = Header {
        encoding,
        version: Version { major: 1, minor: 0 },
        comments: vec!["a comment".to_string()],
        obj_infos: Vec::new(),
        elements,
    };
    let mut rows = Vec::new();
    for (a, b, c, d, e, f) in [
        (-7i8, 513u16, -70000i32, 1.5f32, -2.25f64, vec![1u32, 4000000000]),
        (127, 0, i32::MAX, -0.0, 1e300, vec![]),
    ] {
        let mut row: DefaultElement = KeyMap::new();
        row.insert("a".to_string(), Property::Char(a));
        row.insert("b".to_string(), Property::UShort(b));
        row.insert("c".to_string(), Property::Int(c));
        row.insert("d".to_string(), float(d));
        row.insert("e".to_string(), double(e));
        row.insert("f".to_string(), Property::List(f.into_iter().map(Property::UInt).collect()));
        rows.push(row);
    }
    let mut payload: Payload<DefaultElement> = KeyMap::new();
    payload.insert("thing".to_string(), rows);
    Ply { header, payload }
}

fn payload_of(encoding: Encoding) -> Vec<u8> {
    let document = document(encoding);
    let mut writer = Writer::new();
    writer.set_newline(NewLine::N);
    let mut out = Vec::new();
    writer.write_payload(&mut out, &document.payload, &document.header).unwrap();
    out
}

#[test]
fn ascii_payload_reads_back() {
    let written = String::from_utf8(payload_of(Encoding::Ascii)).unwrap();
    let lines: Vec<&str> = written.lines().collect();
    assert_eq!(lines.len(), 2);
    let first: Vec<&str> = lines[0].split(' ').collect();
    assert_eq!(first.len(), 8);
    assert_eq!(first[0].parse::<i8>(), Ok(-7));
    assert_eq!(first[1].parse::<u16>(), Ok(513));
    assert_eq!(first[2].parse::<i32>(), Ok(-70000));
    assert_eq!(first[3].parse::<f32>(), Ok(1.5));
    assert_eq!(first[4].parse::<f64>(), Ok(-2.25));
    assert_eq!(first[5].parse::<u8>(), Ok(2));
    assert_eq!(first[6].parse::<u32>(), Ok(1));
    assert_eq!(first[7].parse::<u32>(), Ok(4000000000));
    let second: Vec<&str> = lines[1].split(' ').collect();
    assert_eq!(second.len(), 6);
    assert_eq!(second[0].parse::<i8>(), Ok(127));
    assert_eq!(second[2].parse::<i32>(), Ok(i32::MAX));
    assert_eq!(second[3].parse::<f32>().map(|v| v.to_bits()), Ok((-0.0f32).to_bits()));
    assert_eq!(second[4].parse::<f64>(), Ok(1e300));
    assert_eq!(second[5].parse::<u8>(), Ok(0));
}

fn read_back(bytes: &[u8], big: bool) {
    let u16_at = |at: usize| {
        let field = [bytes[at], bytes[at + 1]];
        if big { u16::from_be_bytes(field) } else { u16::from_le_bytes(field) }
    };
    let u32_at = |at: usize| {
        let field = [bytes[at], bytes[at + 1], bytes[at + 2], bytes[at + 3]];
        if big { u32::from_be_bytes(field) } else { u32::from_le_bytes(field) }
    };
    let u64_at = |at: usize| {
        let mut field = [0u8; 8];
        field.copy_from_slice(&bytes[at..at + 8]);
        if big { u64::from_be_bytes(field) } else { u64::from_le_bytes(field) }
    };
    assert_eq!(bytes.len(), (1 + 2 + 4 + 4 + 8 + 1 + 8) + (1 + 2 + 4 + 4 + 8 + 1));
    assert_eq!(bytes[0] as i8, -7);
    assert_eq!(u16_at(1), 513);
    assert_eq!(u32_at(3) as i32, -70000);
    assert_eq!(f32::from_bits(u32_at(7)), 1.5);
    assert_eq!(f64::from_bits(u64_at(11)), -2.25);
    assert_eq!(bytes[19], 2);
    assert_eq!(u32_at(20), 1);
    assert_eq!(u32_at(24), 4000000000);
    assert_eq!(bytes[28] as i8, 127);
    assert_eq!(u16_at(29), 0);
    assert_eq!(u32_at(31) as i32, i32::MAX);
    assert_eq!(u32_at(35), (-0.0f32).to_bits());
    assert_eq!(f64::from_bits(u64_at(39)), 1e300);
    assert_eq!(bytes[47], 0);
}

#[test]
fn big_endian_payload_reads_back() {
    read_back(&payload_of(Encoding::BinaryBigEndian), true);
}

#[test]
fn little_endian_payload_reads_back() {
    read_back(&payload_of(Encoding::BinaryLittleEndian), false);
}

#[test]
fn header_reads_back_line_by_line() {
    let document = document(Encoding::BinaryLittleEndian);
    let mut writer = Writer::<DefaultElement>::new();
    let mut out = Vec::new();
    writer.write_header(&mut out, &document.header).unwrap();
    let written = String::from_utf8(out).unwrap();
    let lines: Vec<&str> = written.split("\r\n").collect();
    assert_eq!(
        lines,
        vec![
            "ply",
            "format binary_little_endian 1.0",
            "comment a comment",
            "element thing 2",
            "property char a",
            "property ushort b",
            "property int c",
            "property float d",
            "property double e",
            "property list uchar uint f",
            "end_header",
            "",
        ]
    );
}
