//! Colours and the custom properties that elements of a document carry.

use crate::error::TiledError;
use crate::events::XmlEvent;
use crate::text::{chars_of, hex_byte, i32_of, parse_i32, read_hex_byte, same_text};
use crate::util::{
    attr_values, attributes_at, attrs_at, children_at, element_end, name_at, name_is, optional,
    parsed, required, take_text, text_at, walk, Coercion, Descriptor,
};
use vstd::prelude::*;

verus! {

/// A colour with its opacity.
#[derive(Debug, Clone, Copy, PartialEq, Eq, Structural)]
pub struct Color {
    pub alpha: u8,
    pub red: u8,
    pub green: u8,
    pub blue: u8,
}

/// The colour written by six or eight hexadecimal digits (`RRGGBB` or
/// `AARRGGBB`), if the text is that.
pub open spec fn color_of_digits(h: Seq<char>) -> Option<Color> {
    if h.len() == 6 {
        match (hex_byte(h[0], h[1]), hex_byte(h[2], h[3]), hex_byte(h[4], h[5])) {
            (Some(r), Some(g), Some(b)) => Some(Color { alpha: 255, red: r, green: g, blue: b }),
            _ => None,
        }
    } else if h.len() == 8 {
        match (
            hex_byte(h[0], h[1]),
            hex_byte(h[2], h[3]),
            hex_byte(h[4], h[5]),
            hex_byte(h[6], h[7]),
        ) {
            (Some(a), Some(r), Some(g), Some(b)) => Some(
                Color { alpha: a, red: r, green: g, blue: b },
            ),
            _ => None,
        }
    } else {
        None
    }
}

/// The colour that a text writes: an optional `#`, then `RRGGBB` or
/// `AARRGGBB` in hexadecimal. Without the opacity the colour is opaque.
pub open spec fn color_of(s: Seq<char>) -> Option<Color> {
    if s.len() > 0 && s[0] == '#' {
        color_of_digits(s.skip(1))
    } else {
        color_of_digits(s)
    }
}

impl Color {
    /// Reads a colour from its text.
    pub fn parse(text: &str) -> (color: Option<Color>)
        ensures
            color == color_of(text@),
    {
        let chars = chars_of(text);
        let mut start: usize = 0;
        if chars.len() > 0 && chars[0] == '#' {
            start = 1;
        }
        let ghost h = if start == 1 {
            chars@.skip(1)
        } else {
            chars@
        };
        assert(forall|i: int| 0 <= i < h.len() ==> h[i] == chars@[start + i]);
        let count: usize = chars.len() - start;
        if count == 6 {
            let r = read_hex_byte(chars[start], chars[start + 1]);
            let g = read_hex_byte(chars[start + 2], chars[start + 3]);
            let b = read_hex_byte(chars[start + 4], chars[start + 5]);
            match (r, g, b) {
                (Some(r), Some(g), Some(b)) => Some(
                    Color { alpha: 255, red: r, green: g, blue: b },
                ),
                _ => None,
            }
        } else if count == 8 {
            let a = read_hex_byte(chars[start], chars[start + 1]);
            let r = read_hex_byte(chars[start + 2], chars[start + 3]);
            let g = read_hex_byte(chars[start + 4], chars[start + 5]);
            let b = read_hex_byte(chars[start + 6], chars[start + 7]);
            match (a, r, g, b) {
                (Some(a), Some(r), Some(g), Some(b)) => Some(
                    Color { alpha: a, red: r, green: g, blue: b },
                ),
                _ => None,
            }
        } else {
            None
        }
    }
}

/// The value of a custom property.
#[derive(Debug, PartialEq, Eq, Clone)]
pub enum PropertyValue {
    BoolValue(bool),
    /// A number with a fraction, kept as the decimal text that the document
    /// writes.
    FloatValue(String),
    IntValue(i32),
    ColorValue(Color),
    StringValue(String),
}

/// A [`PropertyValue`] as contracts see it.
pub enum PropertyModel {
    Bool(bool),
    Float(Seq<char>),
    Int(i32),
    Color(Color),
    String(Seq<char>),
}

impl View for PropertyValue {
    type V = PropertyModel;

    open spec fn view(&self) -> PropertyModel {
        match self {
            PropertyValue::BoolValue(b) => PropertyModel::Bool(*b),
            PropertyValue::FloatValue(t) => PropertyModel::Float(t@),
            PropertyValue::IntValue(n) => PropertyModel::Int(*n),
            PropertyValue::ColorValue(c) => PropertyModel::Color(*c),
            PropertyValue::StringValue(t) => PropertyModel::String(t@),
        }
    }
}

/// What is reported where the text of a property does not suit its type.
pub const PROPERTY_VALUE: &'static str = "The value of a property does not suit its type";

/// What is reported where a property is of no known type.
pub const PROPERTY_TYPE: &'static str = "Unknown property value type";

/// What is reported where a property lacks an attribute.
pub const PROPERTY_ATTRIBUTES: &'static str = "property must have a name and a value";

/// The value that a property of the given type and text has. The types are
/// `bool` (`true` or `false`), `float`, `int`, `color` and `string`.
pub open spec fn property_of(kind: Seq<char>, text: Seq<char>) -> Result<PropertyModel, TiledError> {
    let rejected = TiledError::MalformedAttributes { attribute: "value", message: PROPERTY_VALUE };
    if kind == "bool"@ {
        if text == "true"@ {
            Ok(PropertyModel::Bool(true))
        } else if text == "false"@ {
            Ok(PropertyModel::Bool(false))
        } else {
            Err(rejected)
        }
    } else if kind == "float"@ {
        Ok(PropertyModel::Float(text))
    } else if kind == "int"@ {
        match i32_of(text) {
            Some(n) => Ok(PropertyModel::Int(n)),
            None => Err(rejected),
        }
    } else if kind == "color"@ {
        match color_of(text) {
            Some(c) => Ok(PropertyModel::Color(c)),
            None => Err(rejected),
        }
    } else if kind == "string"@ {
        Ok(PropertyModel::String(text))
    } else {
        Err(TiledError::InvalidFormat(PROPERTY_TYPE))
    }
}

impl PropertyValue {
    /// Reads the text of a property according to its type.
    pub fn new(kind: &str, text: String) -> (result: Result<PropertyValue, TiledError>)
        ensures
            parsed(result) == property_of(kind@, text@),
    {
        if same_text(kind, "bool") {
            if same_text(text.as_str(), "true") {
                Ok(PropertyValue::BoolValue(true))
            } else if same_text(text.as_str(), "false") {
                Ok(PropertyValue::BoolValue(false))
            } else {
                Err(TiledError::MalformedAttributes { attribute: "value", message: PROPERTY_VALUE })
            }
        } else if same_text(kind, "float") {
            Ok(PropertyValue::FloatValue(text))
        } else if same_text(kind, "int") {
            match parse_i32(text.as_str()) {
                Some(n) => Ok(PropertyValue::IntValue(n)),
                None => Err(
                    TiledError::MalformedAttributes { attribute: "value", message: PROPERTY_VALUE },
                ),
            }
        } else if same_text(kind, "color") {
            match Color::parse(text.as_str()) {
                Some(c) => Ok(PropertyValue::ColorValue(c)),
                None => Err(
                    TiledError::MalformedAttributes { attribute: "value", message: PROPERTY_VALUE },
                ),
            }
        } else if same_text(kind, "string") {
            Ok(PropertyValue::StringValue(text))
        } else {
            Err(TiledError::InvalidFormat(PROPERTY_TYPE))
        }
    }
}

/// The custom properties of an element, by name. Where a name is given
/// twice, the later value counts.
#[derive(Debug, PartialEq, Eq, Clone)]
pub struct Properties {
    /// The properties in the order in which they were added.
    pub entries: Vec<(String, PropertyValue)>,
}

/// The properties that a list of entries stands for: each entry in turn sets
/// the value of its name.
pub open spec fn entries_map(entries: Seq<(String, PropertyValue)>) -> Map<Seq<char>, PropertyModel>
    decreases entries.len(),
{
    if entries.len() == 0 {
        Map::empty()
    } else {
        entries_map(entries.drop_last()).insert(entries.last().0@, entries.last().1@)
    }
}

impl View for Properties {
    type V = Map<Seq<char>, PropertyModel>;

    open spec fn view(&self) -> Map<Seq<char>, PropertyModel> {
        entries_map(self.entries@)
    }
}

/// An optional property value as contracts see it.
pub open spec fn property_view(value: Option<&PropertyValue>) -> Option<PropertyModel> {
    match value {
        Some(v) => Some(v@),
        None => None,
    }
}

impl Default for Properties {
    fn default() -> (properties: Properties)
        ensures
            properties@ == Map::<Seq<char>, PropertyModel>::empty(),
    {
        Properties { entries: Vec::new() }
    }
}

impl Properties {
    /// No properties.
    pub fn new() -> (properties: Properties)
        ensures
            properties@ == Map::<Seq<char>, PropertyModel>::empty(),
    {
        Properties { entries: Vec::new() }
    }

    /// Sets the value of a name.
    pub fn insert(&mut self, name: String, value: PropertyValue)
        ensures
            final(self)@ == old(self)@.insert(name@, value@),
    {
        let ghost before = self.entries@;
        self.entries.push((name, value));
        assert(self.entries@.drop_last() =~= before);
    }

    /// The value of a name, if it has one.
    pub fn get(&self, name: &str) -> (value: Option<&PropertyValue>)
        ensures
            property_view(value) == if self@.contains_key(name@) {
                Some(self@[name@])
            } else {
                None
            },
    {
        let mut i: usize = self.entries.len();
        assert(self.entries@.take(i as int) =~= self.entries@);
        while i > 0
            invariant
                i <= self.entries.len(),
                self@.contains_key(name@) == entries_map(self.entries@.take(i as int)).contains_key(
                    name@,
                ),
                self@.contains_key(name@) ==> self@[name@] == entries_map(
                    self.entries@.take(i as int),
                )[name@],
            decreases i,
        {
            assert(self.entries@.take(i as int).drop_last() =~= self.entries@.take(i - 1));
            if same_text(self.entries[i - 1].0.as_str(), name) {
                return Some(&self.entries[i - 1].1);
            }
            i -= 1;
        }
        None
    }

    /// What one child adds to the properties read so far: a `property`
    /// element sets the value of its name, any other element nothing. A
    /// property without a type is a string.
    pub open spec fn absorb(
        events: Seq<XmlEvent>,
        child: int,
        properties: Map<Seq<char>, PropertyModel>,
    ) -> Result<Map<Seq<char>, PropertyModel>, TiledError> {
        if name_at(events, child) == "property"@ {
            match attr_values(attributes_at(events, child), Properties::table(), PROPERTY_ATTRIBUTES) {
                Err(e) => Err(e),
                Ok(v) => {
                    let kind = match text_at(v, 0) {
                        Some(k) => k,
                        None => "string"@,
                    };
                    match property_of(kind, text_at(v, 2)->0) {
                        Err(e) => Err(e),
                        Ok(value) => Ok(properties.insert(text_at(v, 1)->0, value)),
                    }
                },
            }
        } else {
            Ok(properties)
        }
    }

    /// The attributes that a property declares.
    pub open spec fn table() -> Seq<Descriptor> {
        seq![
            optional("type", Coercion::Text),
            required("name", Coercion::Text),
            required("value", Coercion::Text),
        ]
    }

    /// What the given children add, one after the other, to the properties
    /// read so far; the first child that fails decides the failure.
    pub open spec fn fold(
        events: Seq<XmlEvent>,
        children: Seq<usize>,
        properties: Map<Seq<char>, PropertyModel>,
    ) -> Result<Map<Seq<char>, PropertyModel>, TiledError>
        decreases children.len(),
    {
        if children.len() == 0 {
            Ok(properties)
        } else {
            match Properties::absorb(events, children[0] as int, properties) {
                Err(e) => Err(e),
                Ok(more) => Properties::fold(events, children.skip(1), more),
            }
        }
    }

    /// The properties that the element opening at place `open` lists. It
    /// fails where a property fails, or where the element does not close.
    pub open spec fn at(events: Seq<XmlEvent>, open: int) -> Result<
        Map<Seq<char>, PropertyModel>,
        TiledError,
    > {
        match Properties::fold(events, children_at(events, open), Map::empty()) {
            Err(e) => Err(e),
            Ok(properties) => match element_end(events, open) {
                Err(e) => Err(e),
                Ok(_) => Ok(properties),
            },
        }
    }

    /// Reads the properties element that opens at place `open`.
    pub fn parse_xml(events: &Vec<XmlEvent>, open: usize) -> (result: Result<Properties, TiledError>)
        requires
            open < events.len(),
        ensures
            parsed(result) == Properties::at(events@, open as int),
    {
        let found = walk(events, open);
        let mut properties = Properties::new();
        let mut i: usize = 0;
        assert(found.children@.skip(0) =~= found.children@);
        while i < found.children.len()
            invariant
                i <= found.children.len(),
                forall|k: int|
                    0 <= k < found.children@.len() ==> (#[trigger] found.children@[k])
                        < events.len(),
                Properties::fold(events@, found.children@.skip(i as int), properties@)
                    == Properties::fold(events@, children_at(events@, open as int), Map::empty()),
            decreases found.children.len() - i,
        {
            let child = found.children[i];
            assert(found.children@.skip(i as int).skip(1) =~= found.children@.skip(i + 1));
            if name_is(events, child, "property") {
                let table = vec![
                    Descriptor::optional("type", Coercion::Text),
                    Descriptor::required("name", Coercion::Text),
                    Descriptor::required("value", Coercion::Text),
                ];
                assert(table@ =~= Properties::table());
                let v = attrs_at(events, child, &table, PROPERTY_ATTRIBUTES)?;
                let name = take_text(&v, 1).unwrap();
                let text = take_text(&v, 2).unwrap();
                let value = match take_text(&v, 0) {
                    Some(kind) => PropertyValue::new(kind.as_str(), text)?,
                    None => PropertyValue::new("string", text)?,
                };
                properties.insert(name, value);
            }
            i += 1;
        }
        match found.end {
            Err(e) => Err(e),
            Ok(_) => Ok(properties),
        }
    }
}

} // verus!
