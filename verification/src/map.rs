//! Maps: the root of a document, assembled from its tilesets, its layers
//! and its properties, and the lookup of the tileset of a global tile id.

use crate::cache::ResourceCache;
use crate::error::TiledError;
use crate::events::{document_events, read_events, XmlEvent};
use crate::layers::{ImageLayer, ImageLayerModel, Layer, LayerModel};
use crate::objects::{ObjectGroup, ObjectGroupModel};
use crate::properties::{Color, Properties, PropertyModel};
use crate::text::same_text;
use crate::tile::Gid;
use crate::tileset::{
    source_view, MapTileset, MapTilesetModel, Resolution, ResolutionModel, Tileset,
};
use crate::util::{
    attr_values, attributes_at, attrs_at, children_at, color_at, element_end, find_root, name_at,
    name_is, optional, required, root_from, strict, take_color, take_text, take_u32, text_at,
    text_view, u32_at, values_view, walk, Coercion, Descriptor, ValueModel,
};
use vstd::prelude::*;
use vstd::string::StringExecFns;

verus! {

/// How the tiles of a map are laid out.
#[derive(Debug, Clone, Copy, PartialEq, Eq, Structural)]
pub enum Orientation {
    Orthogonal,
    Isometric,
    Staggered,
    Hexagonal,
}

/// The orientation that a text names, if it names one.
pub open spec fn orientation_of(text: Seq<char>) -> Option<Orientation> {
    if text == "orthogonal"@ {
        Some(Orientation::Orthogonal)
    } else if text == "isometric"@ {
        Some(Orientation::Isometric)
    } else if text == "staggered"@ {
        Some(Orientation::Staggered)
    } else if text == "hexagonal"@ {
        Some(Orientation::Hexagonal)
    } else {
        None
    }
}

impl Orientation {
    /// Reads an orientation from its name.
    pub fn parse(text: &str) -> (orientation: Option<Orientation>)
        ensures
            orientation == orientation_of(text@),
    {
        if same_text(text, "orthogonal") {
            Some(Orientation::Orthogonal)
        } else if same_text(text, "isometric") {
            Some(Orientation::Isometric)
        } else if same_text(text, "staggered") {
            Some(Orientation::Staggered)
        } else if same_text(text, "hexagonal") {
            Some(Orientation::Hexagonal)
        } else {
            None
        }
    }
}

/// The order in which the tiles of a layer are drawn.
#[derive(Debug, Clone, Copy, PartialEq, Eq, Structural)]
pub enum RenderOrder {
    RightDown,
    RightUp,
    LeftDown,
    LeftUp,
}

/// The render order that a text names, if it names one.
pub open spec fn render_order_of(text: Seq<char>) -> Option<RenderOrder> {
    if text == "right-down"@ {
        Some(RenderOrder::RightDown)
    } else if text == "right-up"@ {
        Some(RenderOrder::RightUp)
    } else if text == "left-down"@ {
        Some(RenderOrder::LeftDown)
    } else if text == "left-up"@ {
        Some(RenderOrder::LeftUp)
    } else {
        None
    }
}

/// The render order that a map declares: the named one, or `right-down`
/// where the map names none. A name outside the known ones is rejected.
pub open spec fn declared_render_order(text: Option<Seq<char>>) -> Result<RenderOrder, TiledError> {
    match text {
        None => Ok(RenderOrder::RightDown),
        Some(t) => match render_order_of(t) {
            Some(order) => Ok(order),
            None => Err(TiledError::InvalidFormat(UNKNOWN_RENDER_ORDER)),
        },
    }
}

impl RenderOrder {
    /// Reads a render order from its name.
    pub fn parse(text: &str) -> (order: Option<RenderOrder>)
        ensures
            order == render_order_of(text@),
    {
        if same_text(text, "right-down") {
            Some(RenderOrder::RightDown)
        } else if same_text(text, "right-up") {
            Some(RenderOrder::RightUp)
        } else if same_text(text, "left-down") {
            Some(RenderOrder::LeftDown)
        } else if same_text(text, "left-up") {
            Some(RenderOrder::LeftUp)
        } else {
            None
        }
    }

    /// Reads the render order that a map declares.
    pub fn declared(text: &Option<String>) -> (result: Result<RenderOrder, TiledError>)
        ensures
            result == declared_render_order(text_view(*text)),
    {
        match text {
            None => Ok(RenderOrder::RightDown),
            Some(t) => match RenderOrder::parse(t.as_str()) {
                Some(order) => Ok(order),
                None => Err(TiledError::InvalidFormat(UNKNOWN_RENDER_ORDER)),
            },
        }
    }
}

/// A list of tilesets as contracts see it.
pub open spec fn tilesets_view(tilesets: Seq<MapTileset>) -> Seq<MapTilesetModel> {
    Seq::new(tilesets.len(), |i: int| tilesets[i]@)
}

/// A list of tile layers as contracts see it.
pub open spec fn layers_view(layers: Seq<Layer>) -> Seq<LayerModel> {
    Seq::new(layers.len(), |i: int| layers[i]@)
}

/// A list of image layers as contracts see it.
pub open spec fn image_layers_view(layers: Seq<ImageLayer>) -> Seq<ImageLayerModel> {
    Seq::new(layers.len(), |i: int| layers[i]@)
}

/// A list of object layers as contracts see it.
pub open spec fn groups_view(groups: Seq<ObjectGroup>) -> Seq<ObjectGroupModel> {
    Seq::new(groups.len(), |i: int| groups[i]@)
}

/// Whether the tilesets stand in the order of their first global ids.
pub open spec fn sorted_by_first_gid(tilesets: Seq<MapTilesetModel>) -> bool {
    forall|i: int, j: int|
        0 <= i <= j < tilesets.len() ==> (#[trigger] tilesets[i]).first_gid.0 <= (
        #[trigger] tilesets[j]).first_gid.0
}

/// The list with one more tileset, put behind the last one whose first
/// global id is not larger than its own.
pub open spec fn insert_sorted(
    tilesets: Seq<MapTilesetModel>,
    tileset: MapTilesetModel,
) -> Seq<MapTilesetModel>
    decreases tilesets.len(),
{
    if tilesets.len() == 0 {
        seq![tileset]
    } else if tilesets.last().first_gid.0 <= tileset.first_gid.0 {
        tilesets.push(tileset)
    } else {
        insert_sorted(tilesets.drop_last(), tileset).push(tilesets.last())
    }
}

/// [`insert_sorted`] keeps every tileset and puts the new one at one place:
/// the list grows by the new tileset alone, and an ordered list stays
/// ordered.
pub proof fn lemma_insert_sorted(tilesets: Seq<MapTilesetModel>, tileset: MapTilesetModel)
    ensures
        insert_sorted(tilesets, tileset).len() == tilesets.len() + 1,
        insert_sorted(tilesets, tileset).to_multiset() == tilesets.to_multiset().insert(tileset),
        sorted_by_first_gid(tilesets) ==> sorted_by_first_gid(insert_sorted(tilesets, tileset)),
    decreases tilesets.len(),
{
    broadcast use vstd::seq_lib::group_to_multiset_ensures;

    let result = insert_sorted(tilesets, tileset);
    if tilesets.len() == 0 {
        assert(seq![tileset] =~= Seq::<MapTilesetModel>::empty().push(tileset));
        assert(tilesets =~= Seq::<MapTilesetModel>::empty());
    } else if tilesets.last().first_gid.0 <= tileset.first_gid.0 {
        if sorted_by_first_gid(tilesets) {
            assert forall|i: int, j: int| 0 <= i <= j < result.len() implies (
            #[trigger] result[i]).first_gid.0 <= (#[trigger] result[j]).first_gid.0 by {
                if j == tilesets.len() && i < tilesets.len() {
                    assert(tilesets[i].first_gid.0 <= tilesets[tilesets.len() - 1].first_gid.0);
                }
            }
        }
    } else {
        let rest = tilesets.drop_last();
        let inner = insert_sorted(rest, tileset);
        lemma_insert_sorted(rest, tileset);
        assert(tilesets =~= rest.push(tilesets.last()));
        assert(rest.push(tilesets.last()).to_multiset() =~= rest.to_multiset().insert(
            tilesets.last(),
        ));
        assert(result.to_multiset() =~= tilesets.to_multiset().insert(tileset));
        if sorted_by_first_gid(tilesets) {
            assert(sorted_by_first_gid(rest)) by {
                assert forall|i: int, j: int| 0 <= i <= j < rest.len() implies (
                #[trigger] rest[i]).first_gid.0 <= (#[trigger] rest[j]).first_gid.0 by {
                    assert(rest[i] == tilesets[i] && rest[j] == tilesets[j]);
                }
            }
            assert forall|k: int| 0 <= k < inner.len() implies (#[trigger] inner[k]).first_gid.0
                <= tilesets.last().first_gid.0 by {
                assert(inner.to_multiset().count(inner[k]) > 0);
                if inner[k] != tileset {
                    assert(rest.to_multiset().count(inner[k]) > 0);
                    let m = choose|m: int| 0 <= m < rest.len() && rest[m] == inner[k];
                    assert(tilesets[m].first_gid.0 <= tilesets[tilesets.len() - 1].first_gid.0);
                }
            }
            assert forall|i: int, j: int| 0 <= i <= j < result.len() implies (
            #[trigger] result[i]).first_gid.0 <= (#[trigger] result[j]).first_gid.0 by {
                if j < inner.len() {
                    assert(result[i] == inner[i] && result[j] == inner[j]);
                } else if i < inner.len() {
                    assert(result[i] == inner[i]);
                }
            }
        }
    }
}

/// Puts one more tileset into a list that is kept in the order of the first
/// global ids: behind the last one whose first global id is not larger.
pub fn insert_tileset(tilesets: &mut Vec<MapTileset>, tileset: MapTileset)
    ensures
        tilesets_view(final(tilesets)@) == insert_sorted(tilesets_view(old(tilesets)@), tileset@),
{
    let ghost models = tilesets_view(tilesets@);
    let ghost model = tileset@;
    let mut k: usize = tilesets.len();
    assert(models.take(k as int) =~= models);
    assert(models.skip(k as int) =~= Seq::<MapTilesetModel>::empty());
    assert(insert_sorted(models, model) + Seq::<MapTilesetModel>::empty() =~= insert_sorted(
        models,
        model,
    ));
    while k > 0 && tilesets[k - 1].first_gid.0 > tileset.first_gid.0
        invariant
            k <= tilesets.len(),
            models == tilesets_view(tilesets@),
            model == tileset@,
            insert_sorted(models, model) == insert_sorted(models.take(k as int), model)
                + models.skip(k as int),
        decreases k,
    {
        let ghost head = models.take(k as int);
        assert(head.last() == models[k - 1]);
        assert(head.drop_last() =~= models.take(k - 1));
        assert(insert_sorted(head.drop_last(), model).push(head.last()) + models.skip(k as int)
            =~= insert_sorted(head.drop_last(), model) + models.skip(k - 1));
        k -= 1;
    }
    let ghost head = models.take(k as int);
    assert(insert_sorted(head, model) == head.push(model)) by {
        if k > 0 {
            assert(head.last() == models[k - 1]);
        } else {
            assert(head.push(model) =~= seq![model]);
        }
    }
    tilesets.insert(k, tileset);
    assert(tilesets_view(tilesets@) =~= head.push(model) + models.skip(k as int));
}

/// A map: the root of a document.
#[derive(Debug, PartialEq, Eq, Clone)]
pub struct TileMap {
    /// The version of the format that the document declares.
    pub version: String,
    pub orientation: Orientation,
    pub render_order: RenderOrder,
    /// The width of the map in tiles.
    pub width: u32,
    /// The height of the map in tiles.
    pub height: u32,
    pub tile_width: u32,
    pub tile_height: u32,
    /// The tilesets, in the order of their first global ids.
    pub tilesets: Vec<MapTileset>,
    /// The tile layers in the order of the document.
    pub layers: Vec<Layer>,
    pub image_layers: Vec<ImageLayer>,
    pub object_groups: Vec<ObjectGroup>,
    pub properties: Properties,
    pub background_color: Option<Color>,
    /// Whether the map has no bounds, so that its layers hold chunks.
    pub infinite: bool,
    /// Where the map was read from, if that is known.
    pub source: Option<String>,
}

/// A [`TileMap`] as contracts see it.
pub struct TileMapModel {
    pub version: Seq<char>,
    pub orientation: Orientation,
    pub render_order: RenderOrder,
    pub width: u32,
    pub height: u32,
    pub tile_width: u32,
    pub tile_height: u32,
    pub tilesets: Seq<MapTilesetModel>,
    pub layers: Seq<LayerModel>,
    pub image_layers: Seq<ImageLayerModel>,
    pub object_groups: Seq<ObjectGroupModel>,
    pub properties: Map<Seq<char>, PropertyModel>,
    pub background_color: Option<Color>,
    pub infinite: bool,
    pub source: Option<Seq<char>>,
}

impl View for TileMap {
    type V = TileMapModel;

    open spec fn view(&self) -> TileMapModel {
        TileMapModel {
            version: self.version@,
            orientation: self.orientation,
            render_order: self.render_order,
            width: self.width,
            height: self.height,
            tile_width: self.tile_width,
            tile_height: self.tile_height,
            tilesets: tilesets_view(self.tilesets@),
            layers: layers_view(self.layers@),
            image_layers: image_layers_view(self.image_layers@),
            object_groups: groups_view(self.object_groups@),
            properties: self.properties@,
            background_color: self.background_color,
            infinite: self.infinite,
            source: text_view(self.source),
        }
    }
}

/// What reading a map comes to.
#[derive(Debug, PartialEq, Eq, Clone)]
pub enum Parsed {
    /// The map, with every tileset resolved.
    Complete(TileMap),
    /// The map names a tileset file that the cache does not hold. Once the
    /// file is entered into the cache under `path`, with `first_gid` for its
    /// first tile, the map can be read again.
    NeedsTileset { path: String, first_gid: Gid },
}

/// A [`Parsed`] as contracts see it.
pub enum ParsedModel {
    Complete(TileMapModel),
    NeedsTileset { path: Seq<char>, first_gid: Gid },
}

impl View for Parsed {
    type V = ParsedModel;

    open spec fn view(&self) -> ParsedModel {
        match self {
            Parsed::Complete(map) => ParsedModel::Complete(map@),
            Parsed::NeedsTileset { path, first_gid } => ParsedModel::NeedsTileset {
                path: path@,
                first_gid: *first_gid,
            },
        }
    }
}

/// Why the walk over a map's children stops before their end.
pub enum Stop {
    /// A child failed.
    Failed(TiledError),
    /// A tileset is in a file that the cache does not hold.
    Missing { path: Seq<char>, first_gid: Gid },
}

/// A map in the making: what has been read of it, and how many layers of
/// any kind it has so far.
pub struct Assembly {
    pub map: TileMapModel,
    pub layer_count: nat,
}

/// What is reported where a map lacks an attribute.
pub const MAP_ATTRIBUTES: &'static str =
    "map must have a version, width and height with correct types";

/// What is reported where a map names no known orientation.
pub const UNKNOWN_ORIENTATION: &'static str = "Unknown map orientation";

/// What is reported where a map names no known render order.
pub const UNKNOWN_RENDER_ORDER: &'static str = "Unknown map render order";

/// What is reported where a map has more layers than can be numbered.
pub const TOO_MANY_LAYERS: &'static str = "The map has too many layers";

/// What is reported where a document holds no map.
pub const NO_MAP: &'static str = "Document ended before map was parsed";

impl TileMap {
    /// The attributes that a map declares.
    pub open spec fn table() -> Seq<Descriptor> {
        seq![
            strict("backgroundcolor", Coercion::Color),
            optional("infinite", Coercion::Text),
            required("version", Coercion::Text),
            required("orientation", Coercion::Text),
            required("width", Coercion::U32),
            required("height", Coercion::U32),
            required("tilewidth", Coercion::U32),
            required("tileheight", Coercion::U32),
            optional("renderorder", Coercion::Text),
        ]
    }

    /// The map that its attributes alone describe, without tilesets, layers
    /// or properties. The map has no bounds if `infinite` is `1`.
    pub open spec fn header(
        v: Seq<Option<ValueModel>>,
        orientation: Orientation,
        render_order: RenderOrder,
        source: Option<Seq<char>>,
    ) -> TileMapModel {
        TileMapModel {
            version: text_at(v, 2)->0,
            orientation,
            render_order,
            width: u32_at(v, 4)->0,
            height: u32_at(v, 5)->0,
            tile_width: u32_at(v, 6)->0,
            tile_height: u32_at(v, 7)->0,
            tilesets: Seq::empty(),
            layers: Seq::empty(),
            image_layers: Seq::empty(),
            object_groups: Seq::empty(),
            properties: Map::empty(),
            background_color: color_at(v, 0),
            infinite: text_at(v, 1) == Some("1"@),
            source,
        }
    }

    /// What one child adds to the map read so far.
    ///
    /// A `tileset` is resolved and put among the tilesets in the order of
    /// the first global ids; one whose file the cache lacks stops the walk.
    /// `layer`, `imagelayer` and `objectgroup` add a layer of their kind,
    /// numbered by its place among the layers of all kinds. `properties`
    /// sets the properties. Any other element changes nothing.
    pub open spec fn absorb(
        events: Seq<XmlEvent>,
        child: int,
        cache: Map<Seq<char>, Tileset>,
        so_far: Assembly,
    ) -> Result<Assembly, Stop> {
        let name = name_at(events, child);
        let map = so_far.map;
        let one_more = (so_far.layer_count + 1) as nat;
        if name == "tileset"@ {
            match Tileset::resolved_at(events, child, map.source, cache) {
                Err(e) => Err(Stop::Failed(e)),
                Ok(ResolutionModel::Missing { path, first_gid }) => Err(
                    Stop::Missing { path, first_gid },
                ),
                Ok(ResolutionModel::Ready(tileset)) => Ok(
                    Assembly {
                        map: TileMapModel { tilesets: insert_sorted(map.tilesets, tileset), ..map },
                        ..so_far
                    },
                ),
            }
        } else if name == "layer"@ || name == "imagelayer"@ || name == "objectgroup"@ {
            if so_far.layer_count > u32::MAX {
                Err(Stop::Failed(TiledError::InvalidFormat(TOO_MANY_LAYERS)))
            } else {
                let index = so_far.layer_count as u32;
                if name == "layer"@ {
                    match Layer::at(events, child, map.width, map.height, index, map.infinite) {
                        Err(e) => Err(Stop::Failed(e)),
                        Ok(layer) => Ok(
                            Assembly {
                                map: TileMapModel { layers: map.layers.push(layer), ..map },
                                layer_count: one_more,
                            },
                        ),
                    }
                } else if name == "imagelayer"@ {
                    match ImageLayer::at(events, child, index) {
                        Err(e) => Err(Stop::Failed(e)),
                        Ok(layer) => Ok(
                            Assembly {
                                map: TileMapModel { image_layers: map.image_layers.push(layer), ..map },
                                layer_count: one_more,
                            },
                        ),
                    }
                } else {
                    match ObjectGroup::at(events, child, Some(index)) {
                        Err(e) => Err(Stop::Failed(e)),
                        Ok(group) => Ok(
                            Assembly {
                                map: TileMapModel {
                                    object_groups: map.object_groups.push(group),
                                    ..map
                                },
                                layer_count: one_more,
                            },
                        ),
                    }
                }
            }
        } else if name == "properties"@ {
            match Properties::at(events, child) {
                Err(e) => Err(Stop::Failed(e)),
                Ok(properties) => Ok(Assembly { map: TileMapModel { properties, ..map }, ..so_far }),
            }
        } else {
            Ok(so_far)
        }
    }

    /// What the given children add, one after the other, to the map read so
    /// far; the first child that stops the walk decides how it ends.
    pub open spec fn fold(
        events: Seq<XmlEvent>,
        children: Seq<usize>,
        cache: Map<Seq<char>, Tileset>,
        so_far: Assembly,
    ) -> Result<Assembly, Stop>
        decreases children.len(),
    {
        if children.len() == 0 {
            Ok(so_far)
        } else {
            match TileMap::absorb(events, children[0] as int, cache, so_far) {
                Err(stop) => Err(stop),
                Ok(more) => TileMap::fold(events, children.skip(1), cache, more),
            }
        }
    }

    /// What reading the map element that opens at place `open` comes to,
    /// with the given cache.
    ///
    /// The attributes are read first; the orientation has to be a known
    /// one, and so has the render order if one is named. The children then add to the map in the order of the document.
    /// Where a tileset's file is not in the cache, the result names it.
    /// Where a child fails, or the element does not close, reading fails.
    pub open spec fn at(
        events: Seq<XmlEvent>,
        open: int,
        path: Option<Seq<char>>,
        cache: Map<Seq<char>, Tileset>,
    ) -> Result<ParsedModel, TiledError> {
        match attr_values(attributes_at(events, open), TileMap::table(), MAP_ATTRIBUTES) {
            Err(e) => Err(e),
            Ok(v) => match orientation_of(text_at(v, 3)->0) {
                None => Err(TiledError::InvalidFormat(UNKNOWN_ORIENTATION)),
                Some(orientation) => match declared_render_order(text_at(v, 8)) {
                    Err(e) => Err(e),
                    Ok(render_order) => match TileMap::fold(
                        events,
                        children_at(events, open),
                        cache,
                        Assembly {
                            map: TileMap::header(v, orientation, render_order, path),
                            layer_count: 0,
                        },
                    ) {
                        Err(Stop::Failed(e)) => Err(e),
                        Err(Stop::Missing { path, first_gid }) => Ok(
                            ParsedModel::NeedsTileset { path, first_gid },
                        ),
                        Ok(assembly) => match element_end(events, open) {
                            Err(e) => Err(e),
                            Ok(_) => Ok(ParsedModel::Complete(assembly.map)),
                        },
                    },
                },
            },
        }
    }

    /// What reading a map document comes to: what reading its first `map`
    /// element comes to.
    pub open spec fn document_at(
        events: Seq<XmlEvent>,
        path: Option<Seq<char>>,
        cache: Map<Seq<char>, Tileset>,
    ) -> Result<ParsedModel, TiledError> {
        match root_from(events, 0, "map"@, NO_MAP) {
            Err(e) => Err(e),
            Ok(open) => TileMap::at(events, open as int, path, cache),
        }
    }

}

/// What reading a map gives, as contracts see it.
pub open spec fn parsed_map(result: Result<Parsed, TiledError>) -> Result<ParsedModel, TiledError> {
    match result {
        Ok(parsed) => Ok(parsed@),
        Err(e) => Err(e),
    }
}

/// How many tilesets of the list, counted from its beginning, reach up to
/// the last one whose first global id is not larger than `gid`.
pub open spec fn reach(tilesets: Seq<MapTilesetModel>, gid: Gid) -> int
    decreases tilesets.len(),
{
    if tilesets.len() == 0 {
        0
    } else if tilesets.last().first_gid.0 <= gid.0 {
        tilesets.len() as int
    } else {
        reach(tilesets.drop_last(), gid)
    }
}

/// Whether the global id belongs to the tileset in its map:
/// `first_gid <= gid < first_gid + tilecount`.
pub open spec fn holds(tileset: MapTilesetModel, gid: Gid) -> bool {
    tileset.first_gid.0 <= gid.0 < tileset.first_gid.0 + tileset.tileset.tilecount
}

/// The place of the tileset that the lookup gives for a global id: that of
/// the last tileset whose first global id is not larger, if the id belongs
/// to it. The id 0 stands for no tile and has no tileset.
pub open spec fn tileset_place(tilesets: Seq<MapTilesetModel>, gid: Gid) -> Option<int> {
    let k = reach(tilesets, gid);
    if gid.0 != 0 && k > 0 && holds(tilesets[k - 1], gid) {
        Some(k - 1)
    } else {
        None
    }
}

/// Whether no two tilesets of an ordered list share a global id: each ends
/// where, or before, the next begins.
pub open spec fn ranges_apart(tilesets: Seq<MapTilesetModel>) -> bool {
    forall|i: int, j: int|
        0 <= i < j < tilesets.len() ==> (#[trigger] tilesets[i]).first_gid.0
            + tilesets[i].tileset.tilecount <= (#[trigger] tilesets[j]).first_gid.0
}

/// In an ordered list, [`reach`] parts the tilesets whose first global id
/// is not larger than `gid` from those whose first global id is.
pub proof fn lemma_reach(tilesets: Seq<MapTilesetModel>, gid: Gid)
    requires
        sorted_by_first_gid(tilesets),
    ensures
        0 <= reach(tilesets, gid) <= tilesets.len(),
        forall|i: int|
            0 <= i < reach(tilesets, gid) ==> (#[trigger] tilesets[i]).first_gid.0 <= gid.0,
        forall|i: int|
            reach(tilesets, gid) <= i < tilesets.len() ==> (#[trigger] tilesets[i]).first_gid.0
                > gid.0,
    decreases tilesets.len(),
{
    if tilesets.len() > 0 {
        if tilesets.last().first_gid.0 <= gid.0 {
            assert forall|i: int| 0 <= i < tilesets.len() implies (
            #[trigger] tilesets[i]).first_gid.0 <= gid.0 by {
                assert(tilesets[i].first_gid.0 <= tilesets[tilesets.len() - 1].first_gid.0);
            }
        } else {
            let rest = tilesets.drop_last();
            assert(sorted_by_first_gid(rest)) by {
                assert forall|i: int, j: int| 0 <= i <= j < rest.len() implies (
                #[trigger] rest[i]).first_gid.0 <= (#[trigger] rest[j]).first_gid.0 by {
                    assert(rest[i] == tilesets[i] && rest[j] == tilesets[j]);
                }
            }
            lemma_reach(rest, gid);
            assert forall|i: int| 0 <= i < reach(tilesets, gid) implies (
            #[trigger] tilesets[i]).first_gid.0 <= gid.0 by {
                assert(tilesets[i] == rest[i]);
            }
            assert forall|i: int| reach(tilesets, gid) <= i < tilesets.len() implies (
            #[trigger] tilesets[i]).first_gid.0 > gid.0 by {
                if i < rest.len() {
                    assert(tilesets[i] == rest[i]);
                }
            }
        }
    }
}

/// The lookup finds the tileset of a global id. In an ordered list whose
/// tilesets share no global id, the tileset that the lookup gives for `gid`
/// is the only one to which `gid` belongs; and where it gives none, `gid` is
/// 0 or belongs to none.
pub proof fn lemma_lookup_finds_the_tileset(tilesets: Seq<MapTilesetModel>, gid: Gid)
    requires
        sorted_by_first_gid(tilesets),
        ranges_apart(tilesets),
    ensures
        match tileset_place(tilesets, gid) {
            Some(i) => 0 <= i < tilesets.len() && holds(tilesets[i], gid) && forall|j: int|
                0 <= j < tilesets.len() && holds(#[trigger] tilesets[j], gid) ==> j == i,
            None => gid.0 == 0 || forall|j: int|
                0 <= j < tilesets.len() ==> !holds(#[trigger] tilesets[j], gid),
        },
        gid.0 == 0 ==> tileset_place(tilesets, gid) is None,
{
    lemma_reach(tilesets, gid);
    let k = reach(tilesets, gid);
    assert forall|j: int| 0 <= j < tilesets.len() && holds(#[trigger] tilesets[j], gid) implies k
        > 0 && j == k - 1 by {
        if j >= k {
            assert(tilesets[j].first_gid.0 > gid.0);
        } else if j < k - 1 {
            assert(tilesets[j].first_gid.0 + tilesets[j].tileset.tilecount <= tilesets[k
                - 1].first_gid.0);
            assert(tilesets[k - 1].first_gid.0 <= gid.0);
        }
    }
}

impl TileMap {
    /// Whether the tilesets of the map stand in the order of their first
    /// global ids, as every map that the library reads has them.
    pub open spec fn wf(&self) -> bool {
        sorted_by_first_gid(tilesets_view(self.tilesets@))
    }

    /// The tileset of a global id: found by halving the ordered list of
    /// tilesets, it is the last tileset whose first global id is not larger
    /// than `gid`, if `gid` belongs to it. There is none for the id 0, for
    /// an id beyond every tileset, and in a map without tilesets. Whether
    /// the tilesets share global ids is not looked at: the document is
    /// trusted in that.
    pub fn tileset_by_gid(&self, gid: Gid) -> (found: Option<&MapTileset>)
        requires
            self.wf(),
        ensures
            match tileset_place(tilesets_view(self.tilesets@), gid) {
                Some(i) => found == Some(&self.tilesets@[i]),
                None => found is None,
            },
    {
        let ghost models = tilesets_view(self.tilesets@);
        proof {
            lemma_reach(models, gid);
        }
        if gid.0 == 0 {
            return None;
        }
        let mut low: usize = 0;
        let mut high: usize = self.tilesets.len();
        while low < high
            invariant
                low <= high <= self.tilesets.len(),
                models == tilesets_view(self.tilesets@),
                low <= reach(models, gid) <= high,
                forall|i: int|
                    0 <= i < reach(models, gid) ==> (#[trigger] models[i]).first_gid.0 <= gid.0,
                forall|i: int|
                    reach(models, gid) <= i < models.len() ==> (#[trigger] models[i]).first_gid.0
                        > gid.0,
            decreases high - low,
        {
            let middle: usize = low + (high - low) / 2;
            assert(models[middle as int] == self.tilesets@[middle as int]@);
            if self.tilesets[middle].first_gid.0 <= gid.0 {
                low = middle + 1;
            } else {
                high = middle;
            }
        }
        if low == 0 {
            return None;
        }
        let candidate = &self.tilesets[low - 1];
        assert(models[low - 1] == candidate@);
        if candidate.contains_tile(gid) {
            Some(candidate)
        } else {
            None
        }
    }

    /// Reads the map element that opens at place `open`. `path` is where
    /// the document was found, if that is known; tilesets in files of their
    /// own are taken from `cache`. No file is read here: where the cache
    /// lacks a tileset's file, the result says which.
    pub fn parse_xml(
        events: &Vec<XmlEvent>,
        open: usize,
        path: Option<&str>,
        cache: &ResourceCache,
    ) -> (result: Result<Parsed, TiledError>)
        requires
            open < events.len(),
        ensures
            parsed_map(result) == TileMap::at(events@, open as int, source_view(path), cache@),
            match result {
                Ok(Parsed::Complete(map)) => map.wf(),
                _ => true,
            },
    {
        let table = vec![
            Descriptor::strict("backgroundcolor", Coercion::Color),
            Descriptor::optional("infinite", Coercion::Text),
            Descriptor::required("version", Coercion::Text),
            Descriptor::required("orientation", Coercion::Text),
            Descriptor::required("width", Coercion::U32),
            Descriptor::required("height", Coercion::U32),
            Descriptor::required("tilewidth", Coercion::U32),
            Descriptor::required("tileheight", Coercion::U32),
            Descriptor::optional("renderorder", Coercion::Text),
        ];
        assert(table@ =~= TileMap::table());
        let v = attrs_at(events, open, &table, MAP_ATTRIBUTES)?;
        let ghost values = values_view(v@);
        let background_color = take_color(&v, 0);
        let infinite = match take_text(&v, 1) {
            Some(text) => same_text(text.as_str(), "1"),
            None => false,
        };
        let version = take_text(&v, 2).unwrap();
        let orientation = match Orientation::parse(take_text(&v, 3).unwrap().as_str()) {
            Some(o) => o,
            None => {
                return Err(TiledError::InvalidFormat(UNKNOWN_ORIENTATION));
            },
        };
        let render_order = RenderOrder::declared(&take_text(&v, 8))?;
        let width = take_u32(&v, 4).unwrap();
        let height = take_u32(&v, 5).unwrap();
        let tile_width = take_u32(&v, 6).unwrap();
        let tile_height = take_u32(&v, 7).unwrap();
        let ghost header = TileMap::header(values, orientation, render_order, source_view(path));
        let mut tilesets: Vec<MapTileset> = Vec::new();
        let mut layers: Vec<Layer> = Vec::new();
        let mut image_layers: Vec<ImageLayer> = Vec::new();
        let mut object_groups: Vec<ObjectGroup> = Vec::new();
        let mut properties = Properties::new();
        let mut layer_count: u64 = 0;
        let found = walk(events, open);
        let mut i: usize = 0;
        assert(found.children@.skip(0) =~= found.children@);
        assert(tilesets_view(tilesets@) =~= Seq::<MapTilesetModel>::empty());
        assert(layers_view(layers@) =~= Seq::<LayerModel>::empty());
        assert(image_layers_view(image_layers@) =~= Seq::<ImageLayerModel>::empty());
        assert(groups_view(object_groups@) =~= Seq::<ObjectGroupModel>::empty());
        while i < found.children.len()
            invariant
                i <= found.children.len(),
                layer_count <= i,
                forall|k: int|
                    0 <= k < found.children@.len() ==> (#[trigger] found.children@[k])
                        < events.len(),
                attr_values(attributes_at(events@, open as int), TileMap::table(), MAP_ATTRIBUTES)
                    == Ok::<Seq<Option<ValueModel>>, TiledError>(values),
                orientation_of(text_at(values, 3)->0) == Some(orientation),
                declared_render_order(text_at(values, 8)) == Ok::<RenderOrder, TiledError>(
                    render_order,
                ),
                header == TileMap::header(values, orientation, render_order, source_view(path)),
                header.width == width,
                header.height == height,
                header.infinite == infinite,
                sorted_by_first_gid(tilesets_view(tilesets@)),
                TileMap::fold(
                    events@,
                    found.children@.skip(i as int),
                    cache@,
                    Assembly {
                        map: TileMapModel {
                            tilesets: tilesets_view(tilesets@),
                            layers: layers_view(layers@),
                            image_layers: image_layers_view(image_layers@),
                            object_groups: groups_view(object_groups@),
                            properties: properties@,
                            ..header
                        },
                        layer_count: layer_count as nat,
                    },
                ) == TileMap::fold(
                    events@,
                    children_at(events@, open as int),
                    cache@,
                    Assembly { map: header, layer_count: 0 },
                ),
            decreases found.children.len() - i,
        {
            let child = found.children[i];
            assert(found.children@.skip(i as int).skip(1) =~= found.children@.skip(i + 1));
            if name_is(events, child, "tileset") {
                match Tileset::parse_xml(events, child, path, cache)? {
                    Resolution::Missing { path: missing, first_gid } => {
                        return Ok(Parsed::NeedsTileset { path: missing, first_gid });
                    },
                    Resolution::Ready(tileset) => {
                        proof {
                            lemma_insert_sorted(tilesets_view(tilesets@), tileset@);
                        }
                        insert_tileset(&mut tilesets, tileset);
                    },
                }
            } else if name_is(events, child, "layer") {
                if layer_count > 0xFFFF_FFFF {
                    return Err(TiledError::InvalidFormat(TOO_MANY_LAYERS));
                }
                let layer = Layer::new(events, child, width, height, layer_count as u32, infinite)?;
                let ghost before = layers_view(layers@);
                let ghost added = layer@;
                layers.push(layer);
                assert(layers_view(layers@) =~= before.push(added));
                layer_count += 1;
            } else if name_is(events, child, "imagelayer") {
                if layer_count > 0xFFFF_FFFF {
                    return Err(TiledError::InvalidFormat(TOO_MANY_LAYERS));
                }
                let layer = ImageLayer::new(events, child, layer_count as u32)?;
                let ghost before = image_layers_view(image_layers@);
                let ghost added = layer@;
                image_layers.push(layer);
                assert(image_layers_view(image_layers@) =~= before.push(added));
                layer_count += 1;
            } else if name_is(events, child, "objectgroup") {
                if layer_count > 0xFFFF_FFFF {
                    return Err(TiledError::InvalidFormat(TOO_MANY_LAYERS));
                }
                let group = ObjectGroup::new(events, child, Some(layer_count as u32))?;
                let ghost before = groups_view(object_groups@);
                let ghost added = group@;
                object_groups.push(group);
                assert(groups_view(object_groups@) =~= before.push(added));
                layer_count += 1;
            } else if name_is(events, child, "properties") {
                properties = Properties::parse_xml(events, child)?;
            }
            i += 1;
        }
        let source = match path {
            Some(p) => Some(String::from_str(p)),
            None => None,
        };
        match found.end {
            Err(e) => Err(e),
            Ok(_) => Ok(
                Parsed::Complete(
                    TileMap {
                        version,
                        orientation,
                        render_order,
                        width,
                        height,
                        tile_width,
                        tile_height,
                        tilesets,
                        layers,
                        image_layers,
                        object_groups,
                        properties,
                        background_color,
                        infinite,
                        source,
                    },
                ),
            ),
        }
    }

    /// Reads a map from the events of a map document.
    pub fn parse_events(events: &Vec<XmlEvent>, path: Option<&str>, cache: &ResourceCache) -> (result:
        Result<Parsed, TiledError>)
        ensures
            parsed_map(result) == TileMap::document_at(events@, source_view(path), cache@),
            match result {
                Ok(Parsed::Complete(map)) => map.wf(),
                _ => true,
            },
    {
        let open = find_root(events, "map", NO_MAP)?;
        TileMap::parse_xml(events, open, path, cache)
    }

    /// Reads a map from the bytes of a map document. `path` is where the
    /// document was found; a map that names tilesets in files of their own
    /// has to give it.
    pub fn parse_reader(bytes: &[u8], path: Option<&str>, cache: &ResourceCache) -> (result: Result<
        Parsed,
        TiledError,
    >)
        ensures
            parsed_map(result) == TileMap::document_at(
                document_events(bytes@),
                source_view(path),
                cache@,
            ),
            match result {
                Ok(Parsed::Complete(map)) => map.wf(),
                _ => true,
            },
    {
        let events = read_events(bytes);
        TileMap::parse_events(&events, path, cache)
    }
}

} // verus!
