//! The in-memory PLY document: header, element definitions and payload.

use crate::keymap::KeyMap;
use vstd::prelude::*;
use vstd::utf8::encode_utf8;

verus! {

/// How the payload of a document is laid out.
#[derive(Clone, Copy, Debug, PartialEq, Eq, Structural)]
pub enum Encoding {
    Ascii,
    BinaryBigEndian,
    BinaryLittleEndian,
}

/// The format version named in the header.
#[derive(Clone, Copy, Debug, PartialEq, Eq, Structural)]
pub struct Version {
    pub major: u16,
    pub minor: u8,
}

/// The declared type of a property.
#[derive(Debug, PartialEq, Eq)]
pub enum PropertyType {
    Char,
    UChar,
    Short,
    UShort,
    Int,
    UInt,
    Float,
    Double,
    /// A list: the type of its count, then the type of its items.
    List(Box<PropertyType>, Box<PropertyType>),
}

impl Clone for PropertyType {
    fn clone(&self) -> (copy: PropertyType)
        ensures
            copy == *self,
        decreases self,
    {
        match self {
            PropertyType::Char => PropertyType::Char,
            PropertyType::UChar => PropertyType::UChar,
            PropertyType::Short => PropertyType::Short,
            PropertyType::UShort => PropertyType::UShort,
            PropertyType::Int => PropertyType::Int,
            PropertyType::UInt => PropertyType::UInt,
            PropertyType::Float => PropertyType::Float,
            PropertyType::Double => PropertyType::Double,
            PropertyType::List(index_type, item_type) => {
                let index_copy = (&**index_type).clone();
                let item_copy = (&**item_type).clone();
                PropertyType::List(Box::new(index_copy), Box::new(item_copy))
            },
        }
    }
}

/// Whether `bytes` are a token: at least one byte, each a printable ASCII
/// character other than the space.
pub open spec fn is_token(bytes: Seq<u8>) -> bool {
    bytes.len() > 0 && forall|i: int| 0 <= i < bytes.len() ==> 0x21 <= #[trigger] bytes[i] <= 0x7e
}

/// Whether a text is a token.
pub fn check_token(text: &String) -> (ok: bool)
    ensures
        ok == is_token(encode_utf8(text@)),
{
    let bytes = text.as_str().as_bytes();
    if bytes.len() == 0 {
        return false;
    }
    let mut i: usize = 0;
    while i < bytes.len()
        invariant
            i <= bytes@.len(),
            bytes@ == encode_utf8(text@),
            forall|k: int| 0 <= k < i ==> 0x21 <= #[trigger] bytes@[k] <= 0x7e,
        decreases bytes@.len() - i,
    {
        if bytes[i] < 0x21 || bytes[i] > 0x7e {
            assert(!(0x21 <= bytes@[i as int] <= 0x7e));
            return false;
        }
        i = i + 1;
    }
    true
}

/// A single-precision number as the writer needs it: the IEEE-754 bit
/// pattern for the binary encodings and the decimal text for ascii. The
/// text is a token. The writer takes both as they are given: that the
/// text renders the bit pattern is the maker's affair.
#[derive(Debug, PartialEq, Eq)]
pub struct Single {
    bits: u32,
    text: String,
}

/// A double-precision number as the writer needs it: the IEEE-754 bit
/// pattern for the binary encodings and the decimal text for ascii. The
/// text is a token. The writer takes both as they are given: that the
/// text renders the bit pattern is the maker's affair.
#[derive(Debug, PartialEq, Eq)]
pub struct Double {
    bits: u64,
    text: String,
}

impl Single {
    #[verifier::type_invariant]
    spec fn text_is_token(self) -> bool {
        is_token(encode_utf8(self.text@))
    }

    /// The bit pattern.
    pub closed spec fn pattern(&self) -> u32 {
        self.bits
    }

    /// The decimal text.
    pub closed spec fn digits(&self) -> Seq<char> {
        self.text@
    }

    /// A number of the given bit pattern and decimal text, if the text is
    /// a token.
    pub fn new(bits: u32, text: String) -> (made: Option<Single>)
        ensures
            made is Some <==> is_token(encode_utf8(text@)),
            made matches Some(number) ==> number.pattern() == bits && number.digits() == text@,
    {
        if check_token(&text) {
            Some(Single { bits, text })
        } else {
            None
        }
    }

    /// The bit pattern.
    pub fn bits(&self) -> (bits: u32)
        ensures
            bits == self.pattern(),
    {
        self.bits
    }

    /// The decimal text, which is a token.
    pub fn text(&self) -> (text: &String)
        ensures
            text@ == self.digits(),
            is_token(encode_utf8(text@)),
    {
        proof {
            use_type_invariant(self);
        }
        &self.text
    }
}

impl Clone for Single {
    fn clone(&self) -> (copy: Self)
        ensures
            copy.pattern() == self.pattern(),
            copy.digits() == self.digits(),
    {
        proof {
            use_type_invariant(self);
        }
        Single { bits: self.bits, text: self.text.clone() }
    }
}

impl Double {
    #[verifier::type_invariant]
    spec fn text_is_token(self) -> bool {
        is_token(encode_utf8(self.text@))
    }

    /// The bit pattern.
    pub closed spec fn pattern(&self) -> u64 {
        self.bits
    }

    /// The decimal text.
    pub closed spec fn digits(&self) -> Seq<char> {
        self.text@
    }

    /// A number of the given bit pattern and decimal text, if the text is
    /// a token.
    pub fn new(bits: u64, text: String) -> (made: Option<Double>)
        ensures
            made is Some <==> is_token(encode_utf8(text@)),
            made matches Some(number) ==> number.pattern() == bits && number.digits() == text@,
    {
        if check_token(&text) {
            Some(Double { bits, text })
        } else {
            None
        }
    }

    /// The bit pattern.
    pub fn bits(&self) -> (bits: u64)
        ensures
            bits == self.pattern(),
    {
        self.bits
    }

    /// The decimal text, which is a token.
    pub fn text(&self) -> (text: &String)
        ensures
            text@ == self.digits(),
            is_token(encode_utf8(text@)),
    {
        proof {
            use_type_invariant(self);
        }
        &self.text
    }
}

impl Clone for Double {
    fn clone(&self) -> (copy: Self)
        ensures
            copy.pattern() == self.pattern(),
            copy.digits() == self.digits(),
    {
        proof {
            use_type_invariant(self);
        }
        Double { bits: self.bits, text: self.text.clone() }
    }
}

/// The value of a property.
#[derive(Debug, PartialEq, Eq)]
pub enum Property {
    Char(i8),
    UChar(u8),
    Short(i16),
    UShort(u16),
    Int(i32),
    UInt(u32),
    Float(Single),
    Double(Double),
    List(Vec<Property>),
}

/// The mathematical value of a `Property`.
pub enum Value {
    Char(i8),
    UChar(u8),
    Short(i16),
    UShort(u16),
    Int(i32),
    UInt(u32),
    /// Bit pattern and decimal text.
    Float(u32, Seq<char>),
    /// Bit pattern and decimal text.
    Double(u64, Seq<char>),
    List(Seq<Value>),
}

/// The mathematical value of a property.
pub open spec fn value_of(p: Property) -> Value
    decreases p, 0nat,
{
    match p {
        Property::Char(v) => Value::Char(v),
        Property::UChar(v) => Value::UChar(v),
        Property::Short(v) => Value::Short(v),
        Property::UShort(v) => Value::UShort(v),
        Property::Int(v) => Value::Int(v),
        Property::UInt(v) => Value::UInt(v),
        Property::Float(v) => Value::Float(v.pattern(), v.digits()),
        Property::Double(v) => Value::Double(v.pattern(), v.digits()),
        Property::List(items) => Value::List(values_of(items@, items@.len())),
    }
}

/// The mathematical values of the first `n` of `items`.
pub open spec fn values_of(items: Seq<Property>, n: nat) -> Seq<Value>
    decreases items, n,
{
    if n == 0 || n > items.len() {
        Seq::empty()
    } else {
        values_of(items, (n - 1) as nat).push(value_of(items[n - 1]))
    }
}

/// `values_of` maps `value_of` over a prefix.
pub proof fn lemma_values_of(items: Seq<Property>, n: nat)
    requires
        n <= items.len(),
    ensures
        values_of(items, n).len() == n,
        forall|i: int| 0 <= i < n ==> (#[trigger] values_of(items, n)[i]) == value_of(items[i]),
    decreases n,
{
    if n > 0 {
        lemma_values_of(items, (n - 1) as nat);
    }
}

impl View for Property {
    type V = Value;

    open spec fn view(&self) -> Value {
        value_of(*self)
    }
}

impl Clone for Property {
    fn clone(&self) -> (copy: Property)
        ensures
            copy@ == self@,
        decreases self,
    {
        match self {
            Property::Char(v) => Property::Char(*v),
            Property::UChar(v) => Property::UChar(*v),
            Property::Short(v) => Property::Short(*v),
            Property::UShort(v) => Property::UShort(*v),
            Property::Int(v) => Property::Int(*v),
            Property::UInt(v) => Property::UInt(*v),
            Property::Float(v) => Property::Float(v.clone()),
            Property::Double(v) => Property::Double(v.clone()),
            Property::List(items) => {
                let mut copies: Vec<Property> = Vec::new();
                let mut i: usize = 0;
                while i < items.len()
                    invariant
                        self->List_0 == *items,
                        *self is List,
                        i <= items@.len(),
                        copies@.len() == i,
                        forall|j: int| 0 <= j < i ==> (#[trigger] copies@[j])@ == items@[j]@,
                    decreases items@.len() - i,
                {
                    assert(decreases_to!(*self => self->List_0[i as int]));
                    let copy = items[i].clone();
                    copies.push(copy);
                    i = i + 1;
                }
                let copy = Property::List(copies);
                proof {
                    lemma_values_of(copies@, copies@.len());
                    lemma_values_of(items@, items@.len());
                    assert(copy@->List_0 =~= self@->List_0);
                }
                copy
            },
        }
    }
}

/// The definition of one property of an element.
#[derive(Debug, PartialEq, Eq)]
pub struct PropertyDef {
    pub name: String,
    pub data_type: PropertyType,
}

/// The mathematical value of a `PropertyDef`.
pub struct PropertyDefView {
    pub name: Seq<char>,
    pub data_type: PropertyType,
}

impl View for PropertyDef {
    type V = PropertyDefView;

    open spec fn view(&self) -> PropertyDefView {
        PropertyDefView { name: self.name@, data_type: self.data_type }
    }
}

impl Clone for PropertyDef {
    fn clone(&self) -> (copy: PropertyDef)
        ensures
            copy@ == self@,
    {
        PropertyDef { name: self.name.clone(), data_type: self.data_type.clone() }
    }
}

/// The definition of an element: its name, the number of rows the header
/// declares, and its properties in order.
#[derive(Clone, Debug, PartialEq, Eq)]
pub struct ElementDef {
    pub name: String,
    pub count: usize,
    pub properties: KeyMap<PropertyDef>,
}

/// The mathematical value of an `ElementDef`.
pub struct ElementDefView {
    pub name: Seq<char>,
    pub count: nat,
    pub properties: Seq<(Seq<char>, PropertyDefView)>,
}

impl View for ElementDef {
    type V = ElementDefView;

    open spec fn view(&self) -> ElementDefView {
        ElementDefView {
            name: self.name@,
            count: self.count as nat,
            properties: self.properties@,
        }
    }
}

/// Everything the header of a document states.
#[derive(Clone, Debug, PartialEq, Eq)]
pub struct Header {
    pub encoding: Encoding,
    pub version: Version,
    pub comments: Vec<String>,
    pub obj_infos: Vec<String>,
    pub elements: KeyMap<ElementDef>,
}

/// The mathematical value of a `Header`.
pub struct HeaderView {
    pub encoding: Encoding,
    pub version: Version,
    pub comments: Seq<Seq<char>>,
    pub obj_infos: Seq<Seq<char>>,
    pub elements: Seq<(Seq<char>, ElementDefView)>,
}

/// The characters of each text of a list.
pub open spec fn texts(lines: Seq<String>) -> Seq<Seq<char>> {
    Seq::new(lines.len(), |i: int| lines[i]@)
}

impl View for Header {
    type V = HeaderView;

    open spec fn view(&self) -> HeaderView {
        HeaderView {
            encoding: self.encoding,
            version: self.version,
            comments: texts(self.comments@),
            obj_infos: texts(self.obj_infos@),
            elements: self.elements@,
        }
    }
}

/// The element in canonical form: its property values by name, in order.
pub type DefaultElement = KeyMap<Property>;

/// The mathematical value of a canonical element.
pub type ElementView = Seq<(Seq<char>, Value)>;

/// The rows of a document: for each element name, its rows in order.
pub type Payload<P> = KeyMap<Vec<P>>;

/// A document: header and payload.
#[derive(Clone, Debug, PartialEq, Eq)]
pub struct Ply<P> {
    pub header: Header,
    pub payload: Payload<P>,
}

} // verus!
