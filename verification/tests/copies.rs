use ply_writer::keymap::KeyMap;
use ply_writer::ply::{
    DefaultElement, ElementDef, Encoding, Header, Payload, Ply, Property, PropertyDef,
    PropertyType, Single, Version,
};

fn list(index_type: PropertyType, item_type: PropertyType) -> PropertyType {
    PropertyType::List(Box::new(index_type), Box::new(item_type))
}

#[test]
fn types_and_definitions_are_copied_whole() {
    let nested = list(PropertyType::UChar, list(PropertyType::UShort, PropertyType::Double));
    assert_eq!(nested.clone(), nested);
    let def = PropertyDef { name: "rings".to_string(), data_type: nested };
    assert_eq!(def.clone(), def);
}

#[test]
fn values_are_copied_whole() {
    let value = Property::List(vec![
        Property::Char(-1),
        Property::Float(Single::new(0x3fc00000, "1.5".to_string()).unwrap()),
        Property::List(vec![Property::UInt(7), Property::List(Vec::new())]),
    ]);
    assert_eq!(value.clone(), value);
}

#[test]
fn documents_are_copied_whole() {
    let mut properties = KeyMap::new();
    properties.insert(
        "x".to_string(),
        PropertyDef { name: "x".to_string(), data_type: PropertyType::Int },
    );
    let def = ElementDef { name: "point".to_string(), count: 1, properties };
    assert_eq!(def.clone(), def);
    let mut elements = KeyMap::new();
    elements.insert("point".to_string(), def);
    let header = Header {
        encoding: Encoding::BinaryBigEndian,
        version: Version { major: 1, minor: 0 },
        comments: vec!["c".to_string()],
        obj_infos: vec!["o".to_string()],
        elements,
    };
    assert_eq!(header.clone(), header);
    let mut row: DefaultElement = KeyMap::new();
    row.insert("x".to_string(), Property::Int(3));
    let mut payload: Payload<DefaultElement> = KeyMap::new();
    payload.insert("point".to_string(), vec![row]);
    let document = Ply { header, payload };
    assert_eq!(document.clone(), document);
}
