use ply_writer::convert::ToElement;
use ply_writer::error::{ConversionError, WriteError};
use ply_writer::keymap::KeyMap;
use ply_writer::ply::{
    DefaultElement, ElementDef, ElementDefView, ElementView, Encoding, Header, Property, Version,
};
use ply_writer::validate::check_rows;
use ply_writer::writer::Writer;

struct Point {
    x: i32,
    broken: bool,
}

impl ToElement<Point> for Point {
    // The ghost half of the trait: proofs speak of it, nothing runs it.
    fn element_for(
        &self,
        _element_def: ElementDefView,
    ) -> Result<ElementView, vstd::seq::Seq<char>> {
        unreachable!()
    }

    fn to_element(&self, _element_def: &ElementDef) -> Result<DefaultElement, ConversionError> {
        if self.broken {
            return Err(ConversionError { message: "no such point".to_string() });
        }
        let mut element = KeyMap::new();
        element.insert("x".to_string(), Property::Int(self.x));
        Ok(element)
    }
}

fn point_def() -> ElementDef {
    ElementDef { name: "point".to_string(), count: 1, properties: KeyMap::new() }
}

#[test]
fn caller_element_is_converted_then_written() {
    let writer = Writer::<Point>::new();
    let mut out = Vec::new();
    let point = Point { x: -12, broken: false };
    let written = writer.write_ascii_element(&mut out, &point, &point_def());
    assert_eq!(written, Ok(5));
    assert_eq!(out, b"-12\r\n".to_vec());
}

#[test]
fn failed_conversion_is_handed_on() {
    let writer = Writer::<Point>::new();
    let mut out = Vec::new();
    let written = writer.write_ascii_element(&mut out, &Point { x: 1, broken: true }, &point_def());
    assert_eq!(
        written,
        Err(WriteError::Conversion(ConversionError { message: "no such point".to_string() }))
    );
    assert!(out.is_empty());
}

#[test]
fn rows_stop_at_the_first_failed_conversion() {
    let header = Header {
        encoding: Encoding::Ascii,
        version: Version { major: 1, minor: 0 },
        comments: Vec::new(),
        obj_infos: Vec::new(),
        elements: KeyMap::new(),
    };
    let points = vec![
        Point { x: 1, broken: false },
        Point { x: 2, broken: true },
        Point { x: 3, broken: false },
    ];
    let mut writer = Writer::<Point>::new();
    let mut out = Vec::new();
    let written = writer.write_payload_of_element(&mut out, &points, &point_def(), &header);
    assert_eq!(
        written,
        Err(WriteError::Conversion(ConversionError { message: "no such point".to_string() }))
    );
    assert_eq!(out, b"1\r\n".to_vec());
}

#[test]
fn outcome_of_a_conversion_made_beforehand() {
    let writer = Writer::<DefaultElement>::new();
    let mut out = Vec::new();
    let mut element: DefaultElement = KeyMap::new();
    element.insert("x".to_string(), Property::UShort(513));
    assert_eq!(
        writer.write_converted(&mut out, Ok(element), &point_def(), Encoding::Ascii),
        Ok(5)
    );
    let failed = Err(ConversionError { message: "gone".to_string() });
    assert_eq!(
        writer.write_converted(&mut out, failed, &point_def(), Encoding::BinaryBigEndian),
        Err(WriteError::Conversion(ConversionError { message: "gone".to_string() }))
    );
    assert_eq!(out, b"513\r\n".to_vec());
}

#[test]
fn rows_that_do_not_convert_are_invalid() {
    let mut def = point_def();
    def.properties.insert(
        "x".to_string(),
        ply_writer::ply::PropertyDef {
            name: "x".to_string(),
            data_type: ply_writer::ply::PropertyType::Int,
        },
    );
    let good = vec![Point { x: 1, broken: false }, Point { x: 2, broken: false }];
    assert!(check_rows(&good, &def, Encoding::Ascii));
    assert!(check_rows(&good, &def, Encoding::BinaryBigEndian));
    let bad = vec![Point { x: 1, broken: false }, Point { x: 2, broken: true }];
    assert!(!check_rows(&bad, &def, Encoding::Ascii));
    assert!(!check_rows(&bad, &def, Encoding::BinaryBigEndian));
}
