//! Checking a document before it is written: whether a reader will find
//! in the file what the document holds.

use crate::convert::ToElement;
use crate::keymap::lookup;
use crate::laws::{valid_element, valid_header, valid_type};
use crate::layout::{invalid_index, text};
use crate::lines::{plain, plain_element, plain_header};
use crate::ply::{
    check_token, is_token, lemma_values_of, DefaultElement, ElementDef, Encoding, Header,
    HeaderView, Ply, Property, PropertyType, Value,
};
use crate::reading::ascii::{aligned, all_aligned, well_formed};
use crate::reading::binary::{all_fit, fits};
use crate::reading::document::readable;
use crate::reading::header_line::{header_token_names, token_names};
use crate::reading::shape::{has_type, max_count};
use crate::wire::lemma_pow256;
use vstd::prelude::*;

verus! {

/// Whether every list in a type counts its items with an integer type.
pub fn check_type(data_type: &PropertyType) -> (ok: bool)
    ensures
        ok == valid_type(*data_type),
    decreases data_type,
{
    match data_type {
        PropertyType::List(index_type, item_type) => match &**index_type {
            PropertyType::Float => false,
            PropertyType::Double => false,
            PropertyType::List(_, _) => false,
            _ => check_type(item_type),
        },
        _ => true,
    }
}

/// Whether a text holds no line break.
pub fn check_plain(chars: &String) -> (ok: bool)
    ensures
        ok == plain(chars@),
{
    let bytes = chars.as_str().as_bytes();
    let mut i: usize = 0;
    while i < bytes.len()
        invariant
            i <= bytes@.len(),
            bytes@ == text(chars@),
            forall|k: int| 0 <= k < i ==> #[trigger] bytes@[k] != 10 && bytes@[k] != 13,
        decreases bytes@.len() - i,
    {
        if bytes[i] == 10 || bytes[i] == 13 {
            assert(!(bytes@[i as int] != 10 && bytes@[i as int] != 13));
            return false;
        }
        i = i + 1;
    }
    true
}

/// The largest length that a list may have under an integer index type.
fn count_limit(index_type: &PropertyType) -> (limit: u64)
    requires
        invalid_index(*index_type) is None,
    ensures
        limit == max_count(*index_type),
{
    proof {
        lemma_pow256();
    }
    match index_type {
        PropertyType::Char => 0x7f,
        PropertyType::UChar => 0xff,
        PropertyType::Short => 0x7fff,
        PropertyType::UShort => 0xffff,
        PropertyType::Int => 0x7fff_ffff,
        _ => 0xffff_ffff,
    }
}

/// Whether a value is of a declared type. The decimal texts of a value
/// that is are tokens.
pub fn check_value(value: &Property, data_type: &PropertyType) -> (ok: bool)
    ensures
        ok == has_type(value@, *data_type),
        ok ==> well_formed(value@),
    decreases value,
{
    match value {
        Property::Char(_) => matches!(data_type, PropertyType::Char),
        Property::UChar(_) => matches!(data_type, PropertyType::UChar),
        Property::Short(_) => matches!(data_type, PropertyType::Short),
        Property::UShort(_) => matches!(data_type, PropertyType::UShort),
        Property::Int(_) => matches!(data_type, PropertyType::Int),
        Property::UInt(_) => matches!(data_type, PropertyType::UInt),
        Property::Float(v) => {
            let _ = v.text();
            matches!(data_type, PropertyType::Float)
        },
        Property::Double(v) => {
            let _ = v.text();
            matches!(data_type, PropertyType::Double)
        },
        Property::List(items) => {
            let ghost values = value@->List_0;
            proof {
                lemma_values_of(items@, items@.len());
            }
            let (index_type, item_type) = match data_type {
                PropertyType::List(index_type, item_type) => (index_type, item_type),
                _ => {
                    return false;
                },
            };
            match &**index_type {
                PropertyType::Float => {
                    return false;
                },
                PropertyType::Double => {
                    return false;
                },
                PropertyType::List(_, _) => {
                    return false;
                },
                _ => {},
            }
            if items.len() as u64 > count_limit(index_type) {
                return false;
            }
            let mut i: usize = 0;
            while i < items.len()
                invariant
                    *value is List,
                    value->List_0 == *items,
                    i <= items@.len(),
                    values.len() == items@.len(),
                    value@ == Value::List(values),
                    *data_type == PropertyType::List(*index_type, *item_type),
                    invalid_index(**index_type) is None,
                    values.len() <= max_count(**index_type),
                    forall|k: int| 0 <= k < items@.len() ==> #[trigger] values[k] == items@[k]@,
                    forall|k: int|
                        0 <= k < i ==> has_type(#[trigger] values[k], **item_type) && well_formed(
                            values[k],
                        ),
                decreases items@.len() - i,
            {
                assert(decreases_to!(*value => value->List_0[i as int]));
                if !check_value(&items[i], item_type) {
                    assert(!has_type(values[i as int], **item_type));
                    return false;
                }
                i = i + 1;
            }
            true
        },
    }
}

/// Whether the types of a definition are valid and its names are tokens,
/// which hold no line break.
pub fn check_definition(element_def: &ElementDef) -> (ok: bool)
    ensures
        ok == (valid_element(element_def@) && plain_element(element_def@) && token_names(
            element_def@,
        )),
{
    if !check_token(&element_def.name) {
        return false;
    }
    let count = element_def.properties.len();
    let mut i: usize = 0;
    while i < count
        invariant
            i <= count,
            count == element_def.properties.entries().len(),
            is_token(text(element_def@.name)),
            forall|j: int|
                0 <= j < i ==> valid_type((#[trigger] element_def@.properties[j]).1.data_type)
                    && is_token(text(element_def@.properties[j].1.name)),
        decreases count - i,
    {
        let (_, property) = element_def.properties.entry(i);
        assert(element_def@.properties[i as int].1 == property@);
        if !check_type(&property.data_type) || !check_token(&property.name) {
            return false;
        }
        i = i + 1;
    }
    true
}

/// A header has valid types exactly when each of its elements has.
pub proof fn lemma_valid_header(header: HeaderView)
    ensures
        valid_header(header) <==> forall|i: int|
            0 <= i < header.elements.len() ==> valid_element((#[trigger] header.elements[i]).1),
{
    if valid_header(header) {
        assert forall|i: int| 0 <= i < header.elements.len() implies valid_element(
            (#[trigger] header.elements[i]).1,
        ) by {
            assert forall|j: int| 0 <= j < header.elements[i].1.properties.len() implies valid_type(
                (#[trigger] header.elements[i].1.properties[j]).1.data_type,
            ) by {}
        }
    }
}

/// Whether a header can be read back: its types are valid, its comments
/// and object information hold no line break, and its names are tokens.
pub fn check_header(header: &Header) -> (ok: bool)
    ensures
        ok == (valid_header(header@) && plain_header(header@) && header_token_names(header@)),
{
    proof {
        lemma_valid_header(header@);
    }
    let mut i: usize = 0;
    while i < header.comments.len()
        invariant
            i <= header.comments@.len(),
            forall|k: int| 0 <= k < i ==> plain(#[trigger] header@.comments[k]),
        decreases header.comments@.len() - i,
    {
        if !check_plain(&header.comments[i]) {
            assert(!plain(header@.comments[i as int]));
            return false;
        }
        i = i + 1;
    }
    let mut i: usize = 0;
    while i < header.obj_infos.len()
        invariant
            i <= header.obj_infos@.len(),
            forall|k: int|
                0 <= k < header@.comments.len() ==> plain(#[trigger] header@.comments[k]),
            forall|k: int| 0 <= k < i ==> plain(#[trigger] header@.obj_infos[k]),
        decreases header.obj_infos@.len() - i,
    {
        if !check_plain(&header.obj_infos[i]) {
            assert(!plain(header@.obj_infos[i as int]));
            return false;
        }
        i = i + 1;
    }
    let count = header.elements.len();
    let mut i: usize = 0;
    while i < count
        invariant
            i <= count,
            count == header.elements.entries().len(),
            forall|k: int|
                0 <= k < header@.comments.len() ==> plain(#[trigger] header@.comments[k]),
            forall|k: int|
                0 <= k < header@.obj_infos.len() ==> plain(#[trigger] header@.obj_infos[k]),
            forall|k: int|
                0 <= k < i ==> valid_element((#[trigger] header@.elements[k]).1) && plain_element(
                    header@.elements[k].1,
                ) && token_names(header@.elements[k].1),
        decreases count - i,
    {
        let (_, element_def) = header.elements.entry(i);
        assert(header@.elements[i as int].1 == element_def@);
        if !check_definition(element_def) {
            return false;
        }
        i = i + 1;
    }
    true
}

/// Whether an element holds, in the order of a definition, one value of
/// the declared type for each property.
pub fn check_aligned(element: &DefaultElement, element_def: &ElementDef) -> (ok: bool)
    ensures
        ok == aligned(element@, element_def@),
{
    let count = element_def.properties.len();
    if element.len() != count {
        return false;
    }
    let mut i: usize = 0;
    while i < count
        invariant
            i <= count,
            count == element_def.properties.entries().len(),
            count == element.entries().len(),
            forall|k: int|
                0 <= k < i ==> has_type(
                    (#[trigger] element@[k]).1,
                    element_def@.properties[k].1.data_type,
                ) && well_formed(element@[k].1),
        decreases count - i,
    {
        let (_, property) = element_def.properties.entry(i);
        let (_, value) = element.entry(i);
        assert(element_def@.properties[i as int].1 == property@);
        assert(element@[i as int].1 == value@);
        if !check_value(value, &property.data_type) {
            return false;
        }
        i = i + 1;
    }
    true
}

/// Whether an element holds, for each property of a definition, a value
/// of the declared type under the property's key.
pub fn check_fits(element: &DefaultElement, element_def: &ElementDef) -> (ok: bool)
    ensures
        ok == fits(element@, element_def@),
{
    let count = element_def.properties.len();
    let mut i: usize = 0;
    while i < count
        invariant
            i <= count,
            count == element_def.properties.entries().len(),
            forall|k: int|
                0 <= k < i ==> (lookup(element@, (#[trigger] element_def@.properties[k]).0)
                    matches Some(value) && has_type(
                    value,
                    element_def@.properties[k].1.data_type,
                )),
        decreases count - i,
    {
        let (key, property) = element_def.properties.entry(i);
        assert(element_def@.properties[i as int] == (key@, property@));
        match element.find(key) {
            None => {
                return false;
            },
            Some(value) => {
                if !check_value(value, &property.data_type) {
                    return false;
                }
            },
        }
        i = i + 1;
    }
    true
}

/// Whether every element of a list converts into one that can be read
/// back under the definition: aligned with it in an ascii document, fit
/// for it in a binary one.
pub fn check_rows<P: ToElement<P>>(
    element_list: &Vec<P>,
    element_def: &ElementDef,
    encoding: Encoding,
) -> (ok: bool)
    ensures
        ok == if encoding is Ascii {
            all_aligned(element_list@, element_def@)
        } else {
            all_fit(element_list@, element_def@)
        },
{
    let mut i: usize = 0;
    while i < element_list.len()
        invariant
            i <= element_list@.len(),
            encoding is Ascii ==> forall|k: int|
                0 <= k < i ==> ((#[trigger] element_list@[k]).element_for(element_def@) matches Ok(
                    element,
                ) && aligned(element, element_def@)),
            !(encoding is Ascii) ==> forall|k: int|
                0 <= k < i ==> ((#[trigger] element_list@[k]).element_for(element_def@) matches Ok(
                    element,
                ) && fits(element, element_def@)),
        decreases element_list@.len() - i,
    {
        let converted = element_list[i].to_element(element_def);
        let row_ok = match converted {
            Err(_) => false,
            Ok(element) => match encoding {
                Encoding::Ascii => check_aligned(&element, element_def),
                _ => check_fits(&element, element_def),
            },
        };
        if !row_ok {
            return false;
        }
        i = i + 1;
    }
    true
}

/// Whether a document can be read back after it is written: a reader then
/// finds in the file what the header states and the values of every row.
pub fn validate<P: ToElement<P>>(ply: &Ply<P>) -> (ok: bool)
    ensures
        ok == readable(ply.header@, ply.payload@),
{
    if !check_header(&ply.header) {
        return false;
    }
    let count = ply.header.elements.len();
    let mut i: usize = 0;
    while i < count
        invariant
            i <= count,
            count == ply.header.elements.entries().len(),
            valid_header(ply.header@),
            plain_header(ply.header@),
            header_token_names(ply.header@),
            ply.header.encoding is Ascii ==> forall|k: int|
                0 <= k < i ==> (lookup(ply.payload@, (#[trigger] ply.header@.elements[k]).0)
                    matches Some(elements) && elements.len() == ply.header@.elements[k].1.count
                    && all_aligned(elements, ply.header@.elements[k].1)),
            !(ply.header.encoding is Ascii) ==> forall|k: int|
                0 <= k < i ==> (lookup(ply.payload@, (#[trigger] ply.header@.elements[k]).0)
                    matches Some(elements) && elements.len() == ply.header@.elements[k].1.count
                    && all_fit(elements, ply.header@.elements[k].1)),
        decreases count - i,
    {
        let (key, element_def) = ply.header.elements.entry(i);
        assert(ply.header@.elements[i as int] == (key@, element_def@));
        match ply.payload.find(key) {
            None => {
                return false;
            },
            Some(element_list) => {
                if element_list.len() != element_def.count {
                    return false;
                }
                if !check_rows(element_list, element_def, ply.header.encoding) {
                    return false;
                }
            },
        }
        i = i + 1;
    }
    true
}

} // verus!
