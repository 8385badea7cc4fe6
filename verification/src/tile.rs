//! Global tile ids, and what a tileset records of single tiles.

use crate::animation::{Animation, Frame};
use crate::error::TiledError;
use crate::events::XmlEvent;
use crate::image::{Image, ImageModel};
use crate::objects::{text_or, text_or_else, ObjectGroup, ObjectGroupModel};
use crate::properties::{Properties, PropertyModel};
use crate::util::{
    attr_values, attributes_at, attrs_at, children_at, element_end, name_at, name_is, optional,
    parsed, required, take_text, take_u32, text_at, u32_at, values_view, walk, Coercion,
    Descriptor, ValueModel,
};
use vstd::prelude::*;

verus! {

/// A global tile id: the number by which a map names a tile of any of its
/// tilesets. The id 0 stands for no tile.
#[derive(Debug, Clone, Copy, PartialEq, Eq, PartialOrd, Ord, Structural)]
pub struct Gid(pub u32);

impl Gid {
    /// The id of an empty cell.
    pub fn empty() -> (gid: Gid)
        ensures
            gid == Gid(0),
    {
        Gid(0)
    }

    /// Whether this is the id of an empty cell.
    pub fn is_empty(&self) -> (yes: bool)
        ensures
            yes == (self.0 == 0),
    {
        self.0 == 0
    }
}

/// What a tileset records of one of its tiles.
#[derive(Debug, PartialEq, Eq, Clone)]
pub struct Tile {
    /// The tile's id within its tileset.
    pub id: u32,
    pub images: Vec<Image>,
    pub properties: Properties,
    /// The collision shapes of the tile, if it has any.
    pub objectgroup: Option<ObjectGroup>,
    pub animation: Option<Animation>,
    pub tile_type: Option<String>,
    /// How likely the editor is to pick this tile, as decimal text.
    pub probability: String,
}

/// A [`Tile`] as contracts see it.
pub struct TileModel {
    pub id: u32,
    pub images: Seq<ImageModel>,
    pub properties: Map<Seq<char>, PropertyModel>,
    pub objectgroup: Option<ObjectGroupModel>,
    pub animation: Option<Seq<Frame>>,
    pub tile_type: Option<Seq<char>>,
    pub probability: Seq<char>,
}

/// A list of images as contracts see it.
pub open spec fn images_view(images: Seq<Image>) -> Seq<ImageModel> {
    Seq::new(images.len(), |i: int| images[i]@)
}

/// An optional object layer as contracts see it.
pub open spec fn group_view(group: Option<ObjectGroup>) -> Option<ObjectGroupModel> {
    match group {
        Some(g) => Some(g@),
        None => None,
    }
}

/// An optional animation as contracts see it.
pub open spec fn animation_view(animation: Option<Animation>) -> Option<Seq<Frame>> {
    match animation {
        Some(a) => Some(a@),
        None => None,
    }
}

impl View for Tile {
    type V = TileModel;

    open spec fn view(&self) -> TileModel {
        TileModel {
            id: self.id,
            images: images_view(self.images@),
            properties: self.properties@,
            objectgroup: group_view(self.objectgroup),
            animation: animation_view(self.animation),
            tile_type: crate::util::text_view(self.tile_type),
            probability: self.probability@,
        }
    }
}

/// What is reported where a tile lacks its id.
pub const TILE_ATTRIBUTES: &'static str = "tile must have an id with the correct type";

impl Tile {
    /// The attributes that a tile declares.
    pub open spec fn table() -> Seq<Descriptor> {
        seq![
            optional("type", Coercion::Text),
            optional("probability", Coercion::Text),
            required("id", Coercion::U32),
        ]
    }

    /// The tile that its attributes alone describe. An absent probability
    /// is `1`.
    pub open spec fn header(v: Seq<Option<ValueModel>>) -> TileModel {
        TileModel {
            id: u32_at(v, 2)->0,
            images: Seq::empty(),
            properties: Map::empty(),
            objectgroup: None,
            animation: None,
            tile_type: text_at(v, 0),
            probability: text_or(text_at(v, 1), "1"@),
        }
    }

    /// What one child adds to the tile read so far: an `image` element adds
    /// its image; `properties`, `objectgroup` and `animation` set what they
    /// name; any other element changes nothing.
    pub open spec fn absorb(events: Seq<XmlEvent>, child: int, tile: TileModel) -> Result<
        TileModel,
        TiledError,
    > {
        let name = name_at(events, child);
        if name == "image"@ {
            match Image::at(events, child) {
                Err(e) => Err(e),
                Ok(image) => Ok(TileModel { images: tile.images.push(image), ..tile }),
            }
        } else if name == "properties"@ {
            match Properties::at(events, child) {
                Err(e) => Err(e),
                Ok(properties) => Ok(TileModel { properties, ..tile }),
            }
        } else if name == "objectgroup"@ {
            match ObjectGroup::at(events, child, None) {
                Err(e) => Err(e),
                Ok(group) => Ok(TileModel { objectgroup: Some(group), ..tile }),
            }
        } else if name == "animation"@ {
            match Animation::at(events, child) {
                Err(e) => Err(e),
                Ok(frames) => Ok(TileModel { animation: Some(frames), ..tile }),
            }
        } else {
            Ok(tile)
        }
    }

    /// What the given children add, one after the other, to the tile read so
    /// far; the first child that fails decides the failure.
    pub open spec fn fold(events: Seq<XmlEvent>, children: Seq<usize>, tile: TileModel) -> Result<
        TileModel,
        TiledError,
    >
        decreases children.len(),
    {
        if children.len() == 0 {
            Ok(tile)
        } else {
            match Tile::absorb(events, children[0] as int, tile) {
                Err(e) => Err(e),
                Ok(more) => Tile::fold(events, children.skip(1), more),
            }
        }
    }

    /// The tile that the element opening at place `open` describes. It
    /// fails where an attribute or a child fails, or where the element does
    /// not close.
    pub open spec fn at(events: Seq<XmlEvent>, open: int) -> Result<TileModel, TiledError> {
        match attr_values(attributes_at(events, open), Tile::table(), TILE_ATTRIBUTES) {
            Err(e) => Err(e),
            Ok(v) => match Tile::fold(events, children_at(events, open), Tile::header(v)) {
                Err(e) => Err(e),
                Ok(tile) => match element_end(events, open) {
                    Err(e) => Err(e),
                    Ok(_) => Ok(tile),
                },
            },
        }
    }

    /// Reads the tile element that opens at place `open`.
    pub fn new(events: &Vec<XmlEvent>, open: usize) -> (result: Result<Tile, TiledError>)
        requires
            open < events.len(),
        ensures
            parsed(result) == Tile::at(events@, open as int),
    {
        let table = vec![
            Descriptor::optional("type", Coercion::Text),
            Descriptor::optional("probability", Coercion::Text),
            Descriptor::required("id", Coercion::U32),
        ];
        assert(table@ =~= Tile::table());
        let v = attrs_at(events, open, &table, TILE_ATTRIBUTES)?;
        let ghost values = values_view(v@);
        let ghost header = Tile::header(values);
        let tile_type = take_text(&v, 0);
        let probability = text_or_else(take_text(&v, 1), "1");
        let id = take_u32(&v, 2).unwrap();
        let mut images: Vec<Image> = Vec::new();
        let mut properties = Properties::new();
        let mut objectgroup: Option<ObjectGroup> = None;
        let mut animation: Option<Animation> = None;
        let found = walk(events, open);
        let mut i: usize = 0;
        assert(found.children@.skip(0) =~= found.children@);
        assert(images_view(images@) =~= Seq::<ImageModel>::empty());
        while i < found.children.len()
            invariant
                i <= found.children.len(),
                forall|k: int|
                    0 <= k < found.children@.len() ==> (#[trigger] found.children@[k])
                        < events.len(),
                attr_values(attributes_at(events@, open as int), Tile::table(), TILE_ATTRIBUTES)
                    == Ok::<Seq<Option<ValueModel>>, TiledError>(values),
                header == Tile::header(values),
                Tile::fold(
                    events@,
                    found.children@.skip(i as int),
                    TileModel {
                        images: images_view(images@),
                        properties: properties@,
                        objectgroup: group_view(objectgroup),
                        animation: animation_view(animation),
                        ..header
                    },
                ) == Tile::fold(events@, children_at(events@, open as int), header),
            decreases found.children.len() - i,
        {
            let child = found.children[i];
            assert(found.children@.skip(i as int).skip(1) =~= found.children@.skip(i + 1));
            if name_is(events, child, "image") {
                let image = Image::new(events, child)?;
                let ghost before = images_view(images@);
                let ghost added = image@;
                images.push(image);
                assert(images_view(images@) =~= before.push(added));
            } else if name_is(events, child, "properties") {
                properties = Properties::parse_xml(events, child)?;
            } else if name_is(events, child, "objectgroup") {
                objectgroup = Some(ObjectGroup::new(events, child, None)?);
            } else if name_is(events, child, "animation") {
                animation = Some(Animation::parse_xml(events, child)?);
            }
            i += 1;
        }
        match found.end {
            Err(e) => Err(e),
            Ok(_) => Ok(
                Tile { id, images, properties, objectgroup, animation, tile_type, probability },
            ),
        }
    }
}

} // verus!
