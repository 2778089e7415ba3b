use ply_writer::keymap::KeyMap;
use ply_writer::ply::{
    DefaultElement, ElementDef, Encoding, Header, Payload, Ply, Property, PropertyDef,
    PropertyType, Single, Version,
};
use ply_writer::validate::{
    check_aligned, check_definition, check_fits, check_header, check_plain, check_rows,
    check_type, check_value, validate,
};
use ply_writer::writer::Writer;

fn float(v: f32) -> Property {
    Property::Float(Single::new(v.to_bits(), v.to_string()).unwrap())
}

fn list(index_type: PropertyType, item_type: PropertyType) -> PropertyType {
    PropertyType::List(Box::new(index_type), Box::new(item_type))
}

fn definition(name: &str, count: usize, properties: Vec<(&str, PropertyType)>) -> ElementDef {
    let mut map = KeyMap::new();
    for (key, data_type) in properties {
        map.insert(key.to_string(), PropertyDef { name: key.to_string(), data_type });
    }
    ElementDef { name: name.to_string(), count, properties: map }
}

fn element(values: Vec<(&str, Property)>) -> DefaultElement {
    let mut element = KeyMap::new();
    for (name, value) in values {
        element.insert(name.to_string(), value);
    }
    element
}

fn document(
    encoding: Encoding,
    def: ElementDef,
    rows: Vec<DefaultElement>,
) -> Ply<DefaultElement> {
    let mut elements = KeyMap::new();
    let key = def.name.clone();
    elements.insert(key.clone(), def);
    let header = Header {
        encoding,
        version: Version { major: 1, minor: 0 },
        comments: vec!["made by hand".to_string()],
        obj_infos: vec!["nothing to see".to_string()],
        elements,
    };
    let mut payload: Payload<DefaultElement> = KeyMap::new();
    payload.insert(key, rows);
    Ply { header, payload }
}

fn vertex_def(count: usize) -> ElementDef {
    definition(
        "vertex",
        count,
        vec![("x", PropertyType::Float), ("n", PropertyType::UChar), ("i", PropertyType::Int)],
    )
}

fn vertex(x: f32, n: u8, i: i32) -> DefaultElement {
    element(vec![("x", float(x)), ("n", Property::UChar(n)), ("i", Property::Int(i))])
}

#[test]
fn well_made_documents_are_valid_in_every_encoding() {
    for encoding in [Encoding::Ascii, Encoding::BinaryBigEndian, Encoding::BinaryLittleEndian] {
        let ply = document(encoding, vertex_def(2), vec![vertex(1.5, 2, -3), vertex(0.0, 0, 0)]);
        assert!(validate(&ply));
        let mut out = Vec::new();
        assert!(Writer::new().write_ply(&mut out, &ply).is_ok());
    }
}

#[test]
fn rows_are_checked_for_the_encoding_asked_for() {
    let def = vertex_def(2);
    let swapped =
        element(vec![("n", Property::UChar(1)), ("x", float(1.0)), ("i", Property::Int(1))]);
    let rows = vec![vertex(1.0, 1, 1), swapped];
    assert!(!check_rows(&rows, &def, Encoding::Ascii));
    assert!(check_rows(&rows, &def, Encoding::BinaryBigEndian));
    assert!(check_rows(&rows, &def, Encoding::BinaryLittleEndian));
    assert!(check_rows(&Vec::<DefaultElement>::new(), &def, Encoding::Ascii));
}

#[test]
fn document_without_elements_is_valid() {
    let header = Header {
        encoding: Encoding::Ascii,
        version: Version { major: 1, minor: 0 },
        comments: Vec::new(),
        obj_infos: Vec::new(),
        elements: KeyMap::new(),
    };
    let ply: Ply<DefaultElement> = Ply { header, payload: KeyMap::new() };
    assert!(validate(&ply));
}

#[test]
fn line_breaks_in_header_texts_are_invalid() {
    let mut ply = document(Encoding::Ascii, vertex_def(0), vec![]);
    assert!(validate(&ply));
    ply.header.comments.push("two\nlines".to_string());
    assert!(!validate(&ply));
    assert!(!check_header(&ply.header));
    let mut ply = document(Encoding::Ascii, vertex_def(0), vec![]);
    ply.header.obj_infos.push("carriage\rreturn".to_string());
    assert!(!validate(&ply));
    assert!(check_plain(&"plain text with spaces".to_string()));
    assert!(check_plain(&String::new()));
    assert!(!check_plain(&"\n".to_string()));
}

#[test]
fn names_must_be_tokens() {
    assert!(check_definition(&vertex_def(1)));
    assert!(!check_definition(&definition("my vertex", 1, vec![])));
    assert!(!check_definition(&definition("", 1, vec![])));
    assert!(!check_definition(&definition("v", 1, vec![("two words", PropertyType::Int)])));
    assert!(!validate(&document(Encoding::Ascii, definition("a b", 0, vec![]), vec![])));
}

#[test]
fn index_types_must_be_integers() {
    assert!(check_type(&PropertyType::Double));
    assert!(check_type(&list(PropertyType::UInt, list(PropertyType::Char, PropertyType::Float))));
    assert!(!check_type(&list(PropertyType::Float, PropertyType::Int)));
    assert!(!check_type(&list(PropertyType::UChar, list(PropertyType::Double, PropertyType::Int))));
    assert!(!check_type(&list(list(PropertyType::UChar, PropertyType::Int), PropertyType::Int)));
    let def = definition("e", 0, vec![("l", list(PropertyType::Float, PropertyType::Int))]);
    assert!(!check_definition(&def));
    for encoding in [Encoding::Ascii, Encoding::BinaryBigEndian] {
        assert!(!validate(&document(encoding, def.clone(), vec![])));
    }
}

#[test]
fn values_must_be_of_the_declared_types() {
    assert!(check_value(&Property::Short(1), &PropertyType::Short));
    assert!(!check_value(&Property::Short(1), &PropertyType::UShort));
    assert!(!check_value(&Property::UChar(1), &PropertyType::Double));
    assert!(check_value(&float(1.0), &PropertyType::Float));
    assert!(!check_value(&float(1.0), &PropertyType::Double));
    let ints = Property::List(vec![Property::Int(1), Property::Int(2)]);
    assert!(check_value(&ints, &list(PropertyType::UChar, PropertyType::Int)));
    assert!(!check_value(&ints, &list(PropertyType::UChar, PropertyType::UInt)));
    assert!(!check_value(&ints, &list(PropertyType::Float, PropertyType::Int)));
    assert!(!check_value(&ints, &PropertyType::Int));
    let mixed = Property::List(vec![Property::Int(1), Property::UChar(2)]);
    assert!(!check_value(&mixed, &list(PropertyType::UChar, PropertyType::Int)));
    let nested = Property::List(vec![Property::List(vec![Property::Char(1)])]);
    let declared = list(PropertyType::Int, list(PropertyType::Char, PropertyType::Char));
    assert!(check_value(&nested, &declared));
    assert!(!check_value(&nested, &list(PropertyType::Int, PropertyType::Char)));
}

#[test]
fn lists_must_not_outgrow_their_index_type() {
    let items = |n: usize| Property::List((0..n).map(|_| Property::UChar(0)).collect());
    let uchar = list(PropertyType::UChar, PropertyType::UChar);
    let char = list(PropertyType::Char, PropertyType::UChar);
    let short = list(PropertyType::Short, PropertyType::UChar);
    assert!(check_value(&items(255), &uchar));
    assert!(!check_value(&items(256), &uchar));
    assert!(check_value(&items(127), &char));
    assert!(!check_value(&items(128), &char));
    assert!(check_value(&items(32767), &short));
    assert!(!check_value(&items(32768), &short));
    assert!(check_value(&items(32768), &list(PropertyType::UShort, PropertyType::UChar)));
    assert!(check_value(&items(70000), &list(PropertyType::Int, PropertyType::UChar)));
}

#[test]
fn payload_must_hold_as_many_rows_as_declared() {
    for encoding in [Encoding::Ascii, Encoding::BinaryLittleEndian] {
        assert!(!validate(&document(encoding, vertex_def(2), vec![vertex(1.0, 1, 1)])));
        assert!(!validate(&document(encoding, vertex_def(0), vec![vertex(1.0, 1, 1)])));
        let mut ply = document(encoding, vertex_def(0), vec![]);
        ply.payload = KeyMap::new();
        assert!(!validate(&ply));
    }
}

#[test]
fn ascii_rows_must_follow_the_order_of_the_definition() {
    let def = vertex_def(1);
    let swapped =
        element(vec![("n", Property::UChar(1)), ("x", float(1.0)), ("i", Property::Int(1))]);
    assert!(!check_aligned(&swapped, &def));
    assert!(check_fits(&swapped, &def));
    assert!(!validate(&document(Encoding::Ascii, vertex_def(1), vec![swapped.clone()])));
    assert!(validate(&document(Encoding::BinaryBigEndian, vertex_def(1), vec![swapped])));
}

#[test]
fn rows_must_hold_a_value_for_each_property() {
    let def = vertex_def(1);
    let short = element(vec![("x", float(1.0)), ("n", Property::UChar(1))]);
    assert!(!check_aligned(&short, &def));
    assert!(!check_fits(&short, &def));
    let long = element(vec![
        ("x", float(1.0)),
        ("n", Property::UChar(1)),
        ("i", Property::Int(1)),
        ("extra", Property::Int(1)),
    ]);
    assert!(!check_aligned(&long, &def));
    assert!(check_fits(&long, &def));
    assert!(check_aligned(&vertex(1.0, 1, 1), &def));
    assert!(check_fits(&vertex(1.0, 1, 1), &def));
}
