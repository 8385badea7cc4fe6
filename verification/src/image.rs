//! Images that tilesets, tiles and image layers refer to.

use crate::error::TiledError;
use crate::events::XmlEvent;
use crate::properties::Color;
use crate::util::{
    attr_values, attributes_at, attrs_at, color_at, i32_at, parsed, required, strict, take_color,
    take_i32, take_text, text_at, Coercion, Descriptor,
};
use vstd::prelude::*;

verus! {

/// A reference to an image file.
#[derive(Debug, PartialEq, Eq, Clone)]
pub struct Image {
    /// Where the image is, as the document writes it.
    pub source: String,
    pub width: i32,
    pub height: i32,
    /// The colour that stands for transparency, if one is declared.
    pub transparent_color: Option<Color>,
}

/// An [`Image`] as contracts see it.
pub struct ImageModel {
    pub source: Seq<char>,
    pub width: i32,
    pub height: i32,
    pub transparent_color: Option<Color>,
}

impl View for Image {
    type V = ImageModel;

    open spec fn view(&self) -> ImageModel {
        ImageModel {
            source: self.source@,
            width: self.width,
            height: self.height,
            transparent_color: self.transparent_color,
        }
    }
}

/// What is reported where an image lacks an attribute.
pub const IMAGE_ATTRIBUTES: &'static str =
    "image must have a source, width and height with correct types";

impl Image {
    /// The attributes that an image declares.
    pub open spec fn table() -> Seq<Descriptor> {
        seq![
            strict("trans", Coercion::Color),
            required("source", Coercion::Text),
            required("width", Coercion::I32),
            required("height", Coercion::I32),
        ]
    }

    /// The image that the element opening at place `open` describes.
    pub open spec fn at(events: Seq<XmlEvent>, open: int) -> Result<ImageModel, TiledError> {
        match attr_values(attributes_at(events, open), Image::table(), IMAGE_ATTRIBUTES) {
            Err(e) => Err(e),
            Ok(v) => Ok(
                ImageModel {
                    source: text_at(v, 1)->0,
                    width: i32_at(v, 2)->0,
                    height: i32_at(v, 3)->0,
                    transparent_color: color_at(v, 0),
                },
            ),
        }
    }

    /// Reads the image element that opens at place `open`: its source, its
    /// size and, if declared, its transparent colour.
    pub fn new(events: &Vec<XmlEvent>, open: usize) -> (result: Result<Image, TiledError>)
        requires
            open < events.len(),
        ensures
            parsed(result) == Image::at(events@, open as int),
    {
        let table = vec![
            Descriptor::strict("trans", Coercion::Color),
            Descriptor::required("source", Coercion::Text),
            Descriptor::required("width", Coercion::I32),
            Descriptor::required("height", Coercion::I32),
        ];
        assert(table@ =~= Image::table());
        let v = attrs_at(events, open, &table, IMAGE_ATTRIBUTES)?;
        let transparent_color = take_color(&v, 0);
        let source = take_text(&v, 1).unwrap();
        let width = take_i32(&v, 2).unwrap();
        let height = take_i32(&v, 3).unwrap();
        Ok(Image { source, width, height, transparent_color })
    }
}

} // verus!
