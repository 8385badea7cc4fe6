//! Tilesets: the ranges of global tile ids that they stand for, their
//! decoding, and their resolution from a map's reference through a cache.

use crate::cache::{resolved, unshared, ResourceCache};
use crate::error::TiledError;
use crate::events::{document_events, read_events, XmlEvent};
use crate::text::chars_of;
use crate::image::{Image, ImageModel};
use crate::properties::{Properties, PropertyModel};
use crate::tile::{images_view, Gid, Tile, TileModel};
use crate::util::{
    attr_values, attributes_at, attrs_at, children_at, element_end, find_attr, find_root,
    has_attr, name_at, name_is, optional, parsed, required, root_from, take_text, take_u32,
    text_at, text_view, u32_at, values_view, walk, Coercion, Descriptor, ValueModel,
};
use std::sync::Arc;
use vstd::prelude::*;
use vstd::string::StringExecFns;

verus! {

/// A tileset: the tiles cut from one or more images. Within a map it stands
/// for the global ids from `first_gid` up to, not including, `first_gid +
/// tilecount`.
#[derive(Debug, PartialEq, Eq, Clone)]
pub struct Tileset {
    /// The global id of the tileset's first tile.
    pub first_gid: Gid,
    pub name: String,
    pub tile_width: u32,
    pub tile_height: u32,
    pub spacing: u32,
    pub margin: u32,
    pub tilecount: u32,
    /// The images of the tileset; mostly there is one.
    pub images: Vec<Image>,
    /// The tiles of which the tileset records more than their place.
    pub tiles: Vec<Tile>,
    pub properties: Properties,
    /// Where the tileset was read from: its own file, or the file of the map
    /// that holds it, or nothing if that map has no known location.
    pub source: Option<String>,
}

/// A [`Tileset`] as contracts see it.
pub struct TilesetModel {
    pub first_gid: Gid,
    pub name: Seq<char>,
    pub tile_width: u32,
    pub tile_height: u32,
    pub spacing: u32,
    pub margin: u32,
    pub tilecount: u32,
    pub images: Seq<ImageModel>,
    pub tiles: Seq<TileModel>,
    pub properties: Map<Seq<char>, PropertyModel>,
    pub source: Option<Seq<char>>,
}

/// A list of tiles as contracts see it.
pub open spec fn tiles_view(tiles: Seq<Tile>) -> Seq<TileModel> {
    Seq::new(tiles.len(), |i: int| tiles[i]@)
}

impl View for Tileset {
    type V = TilesetModel;

    open spec fn view(&self) -> TilesetModel {
        TilesetModel {
            first_gid: self.first_gid,
            name: self.name@,
            tile_width: self.tile_width,
            tile_height: self.tile_height,
            spacing: self.spacing,
            margin: self.margin,
            tilecount: self.tilecount,
            images: images_view(self.images@),
            tiles: tiles_view(self.tiles@),
            properties: self.properties@,
            source: text_view(self.source),
        }
    }
}

/// What is reported where a tileset lacks an attribute.
pub const TILESET_ATTRIBUTES: &'static str =
    "tileset must have a firstgid, name tile width and height with correct types";

/// What is reported where a tileset document holds no tileset.
pub const NO_TILESET: &'static str = "Tileset Document ended before map was parsed";

/// The place of the first recorded tile of the given local id, if there is
/// one.
pub open spec fn tile_place(tiles: Seq<Tile>, id: u32) -> Option<int>
    decreases tiles.len(),
{
    if tiles.len() == 0 {
        None
    } else if tiles[0].id == id {
        Some(0)
    } else {
        match tile_place(tiles.skip(1), id) {
            Some(i) => Some(i + 1),
            None => None,
        }
    }
}

impl Tileset {
    /// Whether the global id belongs to this tileset: `first_gid <= gid <
    /// first_gid + tilecount`.
    pub open spec fn contains(&self, gid: Gid) -> bool {
        self.first_gid.0 <= gid.0 < self.first_gid.0 + self.tilecount
    }

    /// Whether the global id belongs to this tileset.
    pub fn contains_tile(&self, gid: Gid) -> (yes: bool)
        ensures
            yes == self.contains(gid),
    {
        self.first_gid.0 <= gid.0 && (gid.0 as u64) < self.first_gid.0 as u64
            + self.tilecount as u64
    }

    /// What the tileset records of the tile with the given local id: the
    /// first recorded tile of that id. Nothing is recorded of a tile without
    /// an image, properties, shapes or animation of its own.
    pub fn get_tile(&self, id: u32) -> (tile: Option<&Tile>)
        ensures
            match tile_place(self.tiles@, id) {
                Some(i) => tile == Some(&self.tiles@[i]),
                None => tile is None,
            },
    {
        let mut i: usize = 0;
        assert(self.tiles@.skip(0) =~= self.tiles@);
        while i < self.tiles.len()
            invariant
                i <= self.tiles.len(),
                tile_place(self.tiles@, id) == match tile_place(self.tiles@.skip(i as int), id) {
                    Some(k) => Some(k + i),
                    None => None,
                },
            decreases self.tiles.len() - i,
        {
            assert(self.tiles@.skip(i as int).skip(1) =~= self.tiles@.skip(i + 1));
            assert(self.tiles@.skip(i as int)[0] == self.tiles@[i as int]);
            if self.tiles[i].id == id {
                return Some(&self.tiles[i]);
            }
            i += 1;
        }
        None
    }

    /// What the tileset records of the tile with the given global id: of the
    /// tile whose local id is `gid - first_gid`. Nothing is found for an id
    /// below `first_gid`.
    pub fn get_tile_by_gid(&self, gid: Gid) -> (tile: Option<&Tile>)
        ensures
            tile == if gid.0 < self.first_gid.0 {
                None
            } else {
                match tile_place(self.tiles@, (gid.0 - self.first_gid.0) as u32) {
                    Some(i) => Some(&self.tiles@[i]),
                    None => None,
                }
            },
    {
        if gid.0 < self.first_gid.0 {
            return None;
        }
        self.get_tile(gid.0 - self.first_gid.0)
    }

    /// The attributes that a tileset declares in a file of its own.
    pub open spec fn table() -> Seq<Descriptor> {
        seq![
            optional("spacing", Coercion::U32),
            optional("margin", Coercion::U32),
            required("tilecount", Coercion::U32),
            required("name", Coercion::Text),
            required("tilewidth", Coercion::U32),
            required("tileheight", Coercion::U32),
        ]
    }

    /// The attributes that a tileset declares inside a map: those of
    /// [`Tileset::table`], and after them the global id of its first tile.
    pub open spec fn embedded_table() -> Seq<Descriptor> {
        Tileset::table().push(required("firstgid", Coercion::U32))
    }

    /// The tileset that its attributes alone describe, without images, tiles
    /// or properties. An absent spacing or margin is 0.
    pub open spec fn header(
        v: Seq<Option<ValueModel>>,
        first_gid: Gid,
        source: Option<Seq<char>>,
    ) -> TilesetModel {
        TilesetModel {
            first_gid,
            name: text_at(v, 3)->0,
            tile_width: u32_at(v, 4)->0,
            tile_height: u32_at(v, 5)->0,
            spacing: match u32_at(v, 0) {
                Some(n) => n,
                None => 0,
            },
            margin: match u32_at(v, 1) {
                Some(n) => n,
                None => 0,
            },
            tilecount: u32_at(v, 2)->0,
            images: Seq::empty(),
            tiles: Seq::empty(),
            properties: Map::empty(),
            source,
        }
    }

    /// What one child adds to the tileset read so far: `image` and `tile`
    /// elements add what they describe, `properties` sets the properties,
    /// any other element changes nothing.
    pub open spec fn absorb(events: Seq<XmlEvent>, child: int, tileset: TilesetModel) -> Result<
        TilesetModel,
        TiledError,
    > {
        let name = name_at(events, child);
        if name == "image"@ {
            match Image::at(events, child) {
                Err(e) => Err(e),
                Ok(image) => Ok(TilesetModel { images: tileset.images.push(image), ..tileset }),
            }
        } else if name == "properties"@ {
            match Properties::at(events, child) {
                Err(e) => Err(e),
                Ok(properties) => Ok(TilesetModel { properties, ..tileset }),
            }
        } else if name == "tile"@ {
            match Tile::at(events, child) {
                Err(e) => Err(e),
                Ok(tile) => Ok(TilesetModel { tiles: tileset.tiles.push(tile), ..tileset }),
            }
        } else {
            Ok(tileset)
        }
    }

    /// What the given children add, one after the other, to the tileset read
    /// so far; the first child that fails decides the failure.
    pub open spec fn fold(
        events: Seq<XmlEvent>,
        children: Seq<usize>,
        tileset: TilesetModel,
    ) -> Result<TilesetModel, TiledError>
        decreases children.len(),
    {
        if children.len() == 0 {
            Ok(tileset)
        } else {
            match Tileset::absorb(events, children[0] as int, tileset) {
                Err(e) => Err(e),
                Ok(more) => Tileset::fold(events, children.skip(1), more),
            }
        }
    }

    /// The tileset that the children of the element opening at place `open`
    /// make of the given beginning. It fails where a child fails, or where
    /// the element does not close.
    pub open spec fn body_at(events: Seq<XmlEvent>, open: int, header: TilesetModel) -> Result<
        TilesetModel,
        TiledError,
    > {
        match Tileset::fold(events, children_at(events, open), header) {
            Err(e) => Err(e),
            Ok(tileset) => match element_end(events, open) {
                Err(e) => Err(e),
                Ok(_) => Ok(tileset),
            },
        }
    }

    /// The tileset that the element opening at place `open` describes, read
    /// as the root of a tileset's own file. Such an element names no first
    /// global id: it is the given one.
    pub open spec fn external_at(
        events: Seq<XmlEvent>,
        open: int,
        first_gid: Gid,
        source: Option<Seq<char>>,
    ) -> Result<TilesetModel, TiledError> {
        match attr_values(attributes_at(events, open), Tileset::table(), TILESET_ATTRIBUTES) {
            Err(e) => Err(e),
            Ok(v) => Tileset::body_at(events, open, Tileset::header(v, first_gid, source)),
        }
    }

    /// The tileset that the element opening at place `open` describes, read
    /// as a tileset held in a map. Its first global id is the element's
    /// `firstgid`, and its source the location of the map.
    pub open spec fn embedded_at(
        events: Seq<XmlEvent>,
        open: int,
        map_path: Option<Seq<char>>,
    ) -> Result<TilesetModel, TiledError> {
        match attr_values(attributes_at(events, open), Tileset::embedded_table(), TILESET_ATTRIBUTES) {
            Err(e) => Err(e),
            Ok(v) => Tileset::body_at(
                events,
                open,
                Tileset::header(v, Gid(u32_at(v, 6)->0), map_path),
            ),
        }
    }

    /// The tileset that a tileset document describes: that of the first
    /// `tileset` element among its events.
    pub open spec fn document_at(
        events: Seq<XmlEvent>,
        first_gid: Gid,
        source: Option<Seq<char>>,
    ) -> Result<TilesetModel, TiledError> {
        match root_from(events, 0, "tileset"@, NO_TILESET) {
            Err(e) => Err(e),
            Ok(open) => Tileset::external_at(events, open as int, first_gid, source),
        }
    }

    /// Reads the children of the tileset element that opens at place `open`
    /// into a tileset begun from its attributes.
    fn parse_body(
        events: &Vec<XmlEvent>,
        open: usize,
        v: &Vec<Option<crate::util::Value>>,
        first_gid: Gid,
        source: Option<&str>,
    ) -> (result: Result<Tileset, TiledError>)
        requires
            open < events.len(),
            v.len() >= 6,
            values_view(v@)[2] matches Some(ValueModel::U32(_)),
            values_view(v@)[3] matches Some(ValueModel::Text(_)),
            values_view(v@)[4] matches Some(ValueModel::U32(_)),
            values_view(v@)[5] matches Some(ValueModel::U32(_)),
        ensures
            parsed(result) == Tileset::body_at(
                events@,
                open as int,
                Tileset::header(values_view(v@), first_gid, source_view(source)),
            ),
    {
        let ghost header = Tileset::header(values_view(v@), first_gid, source_view(source));
        let spacing: u32 = match take_u32(v, 0) {
            Some(n) => n,
            None => 0,
        };
        let margin: u32 = match take_u32(v, 1) {
            Some(n) => n,
            None => 0,
        };
        let tilecount = take_u32(v, 2).unwrap();
        let name = take_text(v, 3).unwrap();
        let tile_width = take_u32(v, 4).unwrap();
        let tile_height = take_u32(v, 5).unwrap();
        let mut images: Vec<Image> = Vec::new();
        let mut tiles: Vec<Tile> = Vec::new();
        let mut properties = Properties::new();
        let found = walk(events, open);
        let mut i: usize = 0;
        assert(found.children@.skip(0) =~= found.children@);
        assert(images_view(images@) =~= Seq::<ImageModel>::empty());
        assert(tiles_view(tiles@) =~= Seq::<TileModel>::empty());
        while i < found.children.len()
            invariant
                i <= found.children.len(),
                forall|k: int|
                    0 <= k < found.children@.len() ==> (#[trigger] found.children@[k])
                        < events.len(),
                header == Tileset::header(values_view(v@), first_gid, source_view(source)),
                Tileset::fold(
                    events@,
                    found.children@.skip(i as int),
                    TilesetModel {
                        images: images_view(images@),
                        tiles: tiles_view(tiles@),
                        properties: properties@,
                        ..header
                    },
                ) == Tileset::fold(events@, children_at(events@, open as int), header),
            decreases found.children.len() - i,
        {
            let child = found.children[i];
            assert(found.children@.skip(i as int).skip(1) =~= found.children@.skip(i + 1));
            if name_is(events, child, "image") {
                let image = Image::new(events, child)?;
                let ghost before = images_view(images@);
                let ghost added = image@;
                images.push(image);
                assert(images_view(images@) =~= before.push(added));
            } else if name_is(events, child, "properties") {
                properties = Properties::parse_xml(events, child)?;
            } else if name_is(events, child, "tile") {
                let tile = Tile::new(events, child)?;
                let ghost before = tiles_view(tiles@);
                let ghost added = tile@;
                tiles.push(tile);
                assert(tiles_view(tiles@) =~= before.push(added));
            }
            i += 1;
        }
        let source = match source {
            Some(path) => Some(String::from_str(path)),
            None => None,
        };
        match found.end {
            Err(e) => Err(e),
            Ok(_) => Ok(
                Tileset {
                    first_gid,
                    name,
                    tile_width,
                    tile_height,
                    spacing,
                    margin,
                    tilecount,
                    images,
                    tiles,
                    properties,
                    source,
                },
            ),
        }
    }

    /// Reads the tileset element that opens at place `open` as the root of a
    /// tileset's own file.
    pub fn parse_external_tileset(
        first_gid: Gid,
        events: &Vec<XmlEvent>,
        open: usize,
        source: Option<&str>,
    ) -> (result: Result<Tileset, TiledError>)
        requires
            open < events.len(),
        ensures
            parsed(result) == Tileset::external_at(
                events@,
                open as int,
                first_gid,
                source_view(source),
            ),
    {
        let table = vec![
            Descriptor::optional("spacing", Coercion::U32),
            Descriptor::optional("margin", Coercion::U32),
            Descriptor::required("tilecount", Coercion::U32),
            Descriptor::required("name", Coercion::Text),
            Descriptor::required("tilewidth", Coercion::U32),
            Descriptor::required("tileheight", Coercion::U32),
        ];
        assert(table@ =~= Tileset::table());
        let v = attrs_at(events, open, &table, TILESET_ATTRIBUTES)?;
        Tileset::parse_body(events, open, &v, first_gid, source)
    }

    /// Reads the tileset element that opens at place `open` as a tileset
    /// held in a map.
    pub fn parse_xml_embedded(events: &Vec<XmlEvent>, open: usize, map_path: Option<&str>) -> (result:
        Result<Tileset, TiledError>)
        requires
            open < events.len(),
        ensures
            parsed(result) == Tileset::embedded_at(events@, open as int, source_view(map_path)),
    {
        let table = vec![
            Descriptor::optional("spacing", Coercion::U32),
            Descriptor::optional("margin", Coercion::U32),
            Descriptor::required("tilecount", Coercion::U32),
            Descriptor::required("name", Coercion::Text),
            Descriptor::required("tilewidth", Coercion::U32),
            Descriptor::required("tileheight", Coercion::U32),
            Descriptor::required("firstgid", Coercion::U32),
        ];
        assert(table@ =~= Tileset::embedded_table());
        let v = attrs_at(events, open, &table, TILESET_ATTRIBUTES)?;
        let first_gid = Gid(take_u32(&v, 6).unwrap());
        Tileset::parse_body(events, open, &v, first_gid, map_path)
    }

    /// Reads a tileset from the events of a tileset document. Such a
    /// document names no first global id, so the caller gives it.
    pub fn new_external(events: &Vec<XmlEvent>, first_gid: Gid, source: Option<&str>) -> (result:
        Result<Tileset, TiledError>)
        ensures
            parsed(result) == Tileset::document_at(events@, first_gid, source_view(source)),
    {
        let open = find_root(events, "tileset", NO_TILESET)?;
        Tileset::parse_external_tileset(first_gid, events, open, source)
    }

    /// Reads a tileset from the bytes of a tileset document. Such a
    /// document names no first global id, so the caller gives it; where
    /// global ids are of no interest, 1 will do. `path` is where the
    /// document was found, if that is known.
    pub fn parse_reader(bytes: &[u8], first_gid: Gid, path: Option<&str>) -> (result: Result<
        Tileset,
        TiledError,
    >)
        ensures
            parsed(result) == Tileset::document_at(
                document_events(bytes@),
                first_gid,
                source_view(path),
            ),
    {
        let events = read_events(bytes);
        Tileset::new_external(&events, first_gid, path)
    }
}

/// An optional location as contracts see it.
pub open spec fn source_view(source: Option<&str>) -> Option<Seq<char>> {
    match source {
        Some(s) => Some(s@),
        None => None,
    }
}

/// What is reported where a map without a known location names a tileset
/// in another file.
pub const NO_LOCATION: &'static str =
    "Maps with external tilesets must know their file location.  See parse_with_path(Path).";

/// The length of the directory part of a path: everything up to and with
/// its last `/`, or nothing if it has none.
pub open spec fn directory_len(path: Seq<char>) -> int
    decreases path.len(),
{
    if path.len() == 0 {
        0
    } else if path.last() == '/' {
        path.len() as int
    } else {
        directory_len(path.drop_last())
    }
}

/// The path of a file named beside another: `file` in the directory of
/// `base`. A `file` that starts at the root stays as it is.
pub open spec fn sibling_path(base: Seq<char>, file: Seq<char>) -> Seq<char> {
    if file.len() > 0 && file[0] == '/' {
        file
    } else {
        base.take(directory_len(base)) + file
    }
}

/// Computes the path of `file` in the directory of `base`.
pub fn sibling(base: &str, file: &str) -> (path: String)
    ensures
        path@ == sibling_path(base@, file@),
{
    let name = chars_of(file);
    if name.len() > 0 && name[0] == '/' {
        return String::from_str(file);
    }
    let chars = chars_of(base);
    let mut k: usize = chars.len();
    assert(chars@.take(k as int) =~= chars@);
    while k > 0 && chars[k - 1] != '/'
        invariant
            k <= chars.len(),
            directory_len(chars@.take(k as int)) == directory_len(chars@),
        decreases k,
    {
        assert(chars@.take(k as int).drop_last() =~= chars@.take(k - 1));
        k -= 1;
    }
    assert(directory_len(chars@) == k) by {
        if k > 0 {
            assert(chars@.take(k as int).last() == '/');
        }
    }
    let mut path = String::from_str(base.substring_char(0, k));
    path.append(file);
    assert(base@.subrange(0, k as int) =~= base@.take(k as int));
    path
}

/// A tileset as a map holds it: the tileset itself, which maps share, and
/// the global id that this map gives to its first tile.
#[derive(Debug, PartialEq, Eq, Clone)]
pub struct MapTileset {
    /// The global id of the tileset's first tile in this map.
    pub first_gid: Gid,
    /// The tileset. Its own `first_gid` is the one under which it was first
    /// read, which need not be this map's.
    pub tileset: Arc<Tileset>,
}

/// A [`MapTileset`] as contracts see it.
pub struct MapTilesetModel {
    pub first_gid: Gid,
    pub tileset: TilesetModel,
}

impl View for MapTileset {
    type V = MapTilesetModel;

    open spec fn view(&self) -> MapTilesetModel {
        MapTilesetModel { first_gid: self.first_gid, tileset: (*self.tileset)@ }
    }
}

impl MapTileset {
    /// Whether the global id belongs to this tileset in its map:
    /// `first_gid <= gid < first_gid + tilecount`.
    pub open spec fn contains(&self, gid: Gid) -> bool {
        self.first_gid.0 <= gid.0 < self.first_gid.0 + self.tileset.tilecount
    }

    /// Whether the global id belongs to this tileset in its map.
    pub fn contains_tile(&self, gid: Gid) -> (yes: bool)
        ensures
            yes == self.contains(gid),
    {
        self.first_gid.0 <= gid.0 && (gid.0 as u64) < self.first_gid.0 as u64
            + self.tileset.tilecount as u64
    }

    /// What the tileset records of the tile with the given global id of
    /// this map: of the tile whose local id is `gid - first_gid`, with the
    /// map's own `first_gid`. Nothing is found for an id below it.
    pub fn get_tile_by_gid(&self, gid: Gid) -> (tile: Option<&Tile>)
        ensures
            tile == if gid.0 < self.first_gid.0 {
                None
            } else {
                match tile_place(self.tileset.tiles@, (gid.0 - self.first_gid.0) as u32) {
                    Some(i) => Some(&self.tileset.tiles@[i]),
                    None => None,
                }
            },
    {
        if gid.0 < self.first_gid.0 {
            return None;
        }
        self.tileset.get_tile(gid.0 - self.first_gid.0)
    }
}

/// What a map's tileset element resolves to.
#[derive(Debug, PartialEq, Eq, Clone)]
pub enum Resolution {
    /// The tileset: held in the map, or found in the cache.
    Ready(MapTileset),
    /// The tileset is in a file that the cache does not hold yet: the file
    /// has to be read and entered before the map can be completed.
    Missing { path: String, first_gid: Gid },
}

/// A [`Resolution`] as contracts see it.
pub enum ResolutionModel {
    Ready(MapTilesetModel),
    Missing { path: Seq<char>, first_gid: Gid },
}

impl View for Resolution {
    type V = ResolutionModel;

    open spec fn view(&self) -> ResolutionModel {
        match self {
            Resolution::Ready(tileset) => ResolutionModel::Ready(tileset@),
            Resolution::Missing { path, first_gid } => ResolutionModel::Missing {
                path: path@,
                first_gid: *first_gid,
            },
        }
    }
}

impl Tileset {
    /// The attributes that a reference to a tileset file declares.
    pub open spec fn reference_table() -> Seq<Descriptor> {
        seq![required("firstgid", Coercion::U32), required("source", Coercion::Text)]
    }

    /// Whether the element opening at place `open` refers to a tileset file:
    /// whether it has a `source`.
    pub open spec fn is_reference(events: Seq<XmlEvent>, open: int) -> bool {
        find_attr(attributes_at(events, open), "source"@) is Some
    }

    /// What a reference to a tileset file resolves to. The file is `source`
    /// beside the map, so a map without a known location cannot resolve it.
    /// A file that the cache holds gives the cached tileset under the
    /// reference's own first global id; any other file is missing.
    pub open spec fn reference_at(
        events: Seq<XmlEvent>,
        open: int,
        map_path: Option<Seq<char>>,
        cache: Map<Seq<char>, Tileset>,
    ) -> Result<ResolutionModel, TiledError> {
        match attr_values(
            attributes_at(events, open),
            Tileset::reference_table(),
            TILESET_ATTRIBUTES,
        ) {
            Err(e) => Err(e),
            Ok(v) => match map_path {
                None => Err(TiledError::UnresolvableReference(NO_LOCATION)),
                Some(base) => {
                    let path = sibling_path(base, text_at(v, 1)->0);
                    let first_gid = Gid(u32_at(v, 0)->0);
                    if cache.contains_key(path) {
                        Ok(
                            ResolutionModel::Ready(
                                MapTilesetModel { first_gid, tileset: cache[path]@ },
                            ),
                        )
                    } else {
                        Ok(ResolutionModel::Missing { path, first_gid })
                    }
                },
            },
        }
    }

    /// What the tileset element opening at place `open` in a map resolves
    /// to: a reference as [`Tileset::reference_at`] says, any other element
    /// to the tileset that it holds.
    pub open spec fn resolved_at(
        events: Seq<XmlEvent>,
        open: int,
        map_path: Option<Seq<char>>,
        cache: Map<Seq<char>, Tileset>,
    ) -> Result<ResolutionModel, TiledError> {
        if Tileset::is_reference(events, open) {
            Tileset::reference_at(events, open, map_path, cache)
        } else {
            match Tileset::embedded_at(events, open, map_path) {
                Err(e) => Err(e),
                Ok(tileset) => Ok(
                    ResolutionModel::Ready(
                        MapTilesetModel { first_gid: tileset.first_gid, tileset },
                    ),
                ),
            }
        }
    }

    /// Resolves a reference to a tileset file: the element that opens at
    /// place `open` names the file and the first global id. No file is read:
    /// the tileset comes from the cache, or is reported as missing.
    pub fn parse_xml_reference(
        events: &Vec<XmlEvent>,
        open: usize,
        map_path: Option<&str>,
        cache: &ResourceCache,
    ) -> (result: Result<Resolution, TiledError>)
        requires
            open < events.len(),
        ensures
            parsed(result) == Tileset::reference_at(
                events@,
                open as int,
                source_view(map_path),
                cache@,
            ),
            map_path is None ==> result is Err && !(result->Err_0 is IoError),
    {
        let table = vec![
            Descriptor::required("firstgid", Coercion::U32),
            Descriptor::required("source", Coercion::Text),
        ];
        assert(table@ =~= Tileset::reference_table());
        let v = attrs_at(events, open, &table, TILESET_ATTRIBUTES)?;
        let first_gid = Gid(take_u32(&v, 0).unwrap());
        let source = take_text(&v, 1).unwrap();
        match map_path {
            None => Err(TiledError::UnresolvableReference(NO_LOCATION)),
            Some(base) => {
                let path = sibling(base, source.as_str());
                match cache.get_tileset(path.as_str()) {
                    Some(tileset) => Ok(Resolution::Ready(MapTileset { first_gid, tileset })),
                    None => Ok(Resolution::Missing { path, first_gid }),
                }
            },
        }
    }

    /// Resolves the tileset element that opens at place `open` in a map: a
    /// tileset held in the map is read in place, a reference to a file goes
    /// through the cache.
    pub fn parse_xml(
        events: &Vec<XmlEvent>,
        open: usize,
        map_path: Option<&str>,
        cache: &ResourceCache,
    ) -> (result: Result<Resolution, TiledError>)
        requires
            open < events.len(),
        ensures
            parsed(result) == Tileset::resolved_at(
                events@,
                open as int,
                source_view(map_path),
                cache@,
            ),
    {
        if has_attr(events, open, "source") {
            Tileset::parse_xml_reference(events, open, map_path, cache)
        } else {
            let tileset = Tileset::parse_xml_embedded(events, open, map_path)?;
            Ok(
                Resolution::Ready(
                    MapTileset { first_gid: tileset.first_gid, tileset: Arc::new(tileset) },
                ),
            )
        }
    }

    /// Enters the tileset of a file into the cache, from the bytes of the
    /// file. A path that the cache holds already is not read again: the
    /// cached tileset is the result, whatever the bytes are. Else the bytes
    /// are read as a tileset document whose first global id is the given
    /// one; where that fails, nothing is entered.
    pub fn load_external(cache: &mut ResourceCache, path: &str, bytes: &[u8], first_gid: Gid) -> (result:
        Result<Arc<Tileset>, TiledError>)
        ensures
            (final(cache)@, unshared(result)) == resolved(old(cache)@, path@, unshared(result)),
            !old(cache)@.contains_key(path@) ==> parsed(unshared(result)) == Tileset::document_at(
                document_events(bytes@),
                first_gid,
                Some(path@),
            ),
            result is Err ==> !old(cache)@.contains_key(path@),
    {
        let producer = || -> (produced: Result<Tileset, TiledError>)
            ensures
                parsed(produced) == Tileset::document_at(
                    document_events(bytes@),
                    first_gid,
                    Some(path@),
                ),
            { Tileset::parse_reader(bytes, first_gid, Some(path)) };
        cache.get_or_try_insert_tileset_with(String::from_str(path), producer)
    }
}

/// A reference to a tileset file in a map without a known location never
/// resolves, whatever the cache holds: it fails for want of the location, or
/// earlier for a missing attribute. It never fails as the reading of a file
/// fails, since no file is asked for.
pub proof fn lemma_reference_needs_location(
    events: Seq<XmlEvent>,
    open: int,
    cache: Map<Seq<char>, Tileset>,
)
    ensures
        match Tileset::reference_at(events, open, None, cache) {
            Ok(_) => false,
            Err(e) => e == TiledError::UnresolvableReference(NO_LOCATION)
                || e is MalformedAttributes,
        },
        attr_values(attributes_at(events, open), Tileset::reference_table(), TILESET_ATTRIBUTES)
            is Ok ==> Tileset::reference_at(events, open, None, cache) == Err::<
            ResolutionModel,
            TiledError,
        >(TiledError::UnresolvableReference(NO_LOCATION)),
{
    crate::util::lemma_attr_values_error(
        attributes_at(events, open),
        Tileset::reference_table(),
        TILESET_ATTRIBUTES,
    );
}

} // verus!
