//! Object layers: free-standing shapes and tile objects placed on a map.
//!
//! Positions, sizes and angles may have a fraction. They are kept as the
//! decimal text that the document writes; turning that text into a machine
//! number is left to the caller.

use crate::error::TiledError;
use crate::events::XmlEvent;
use crate::properties::{Color, Properties, PropertyModel};
use crate::text::{chars_of, pieces_of, split, split_ranges};
use crate::tile::Gid;
use crate::util::{
    attr_values, attributes_at, attrs_at, children_at, color_at, element_end, i32_at, name_at,
    name_is, optional, parsed, required, strict, take_color, take_i32, take_text, take_u32,
    text_at, u32_at, walk, Coercion, Descriptor,
};
use vstd::prelude::*;
use vstd::string::StringExecFns;

verus! {

/// The outline of an object.
#[derive(Debug, PartialEq, Eq, Clone)]
pub enum ObjectShape {
    Rect { width: String, height: String },
    Ellipse { width: String, height: String },
    Polyline { points: Vec<(String, String)> },
    Polygon { points: Vec<(String, String)> },
    Point(String, String),
}

/// An [`ObjectShape`] as contracts see it.
pub enum ShapeModel {
    Rect { width: Seq<char>, height: Seq<char> },
    Ellipse { width: Seq<char>, height: Seq<char> },
    Polyline { points: Seq<(Seq<char>, Seq<char>)> },
    Polygon { points: Seq<(Seq<char>, Seq<char>)> },
    Point(Seq<char>, Seq<char>),
}

/// A list of points as contracts see it.
pub open spec fn points_view(points: Seq<(String, String)>) -> Seq<(Seq<char>, Seq<char>)> {
    Seq::new(points.len(), |i: int| (points[i].0@, points[i].1@))
}

impl View for ObjectShape {
    type V = ShapeModel;

    open spec fn view(&self) -> ShapeModel {
        match self {
            ObjectShape::Rect { width, height } => ShapeModel::Rect {
                width: width@,
                height: height@,
            },
            ObjectShape::Ellipse { width, height } => ShapeModel::Ellipse {
                width: width@,
                height: height@,
            },
            ObjectShape::Polyline { points } => ShapeModel::Polyline {
                points: points_view(points@),
            },
            ObjectShape::Polygon { points } => ShapeModel::Polygon { points: points_view(points@) },
            ObjectShape::Point(x, y) => ShapeModel::Point(x@, y@),
        }
    }
}

/// An object of an object layer.
#[derive(Debug, PartialEq, Eq, Clone)]
pub struct Object {
    /// The object's id, unique within its map.
    pub id: u32,
    /// The tile that the object shows, or the empty id if it shows none.
    pub gid: Gid,
    pub name: String,
    pub obj_type: String,
    /// The width in pixels, as decimal text.
    pub width: String,
    /// The height in pixels, as decimal text.
    pub height: String,
    /// The horizontal position in pixels, as decimal text.
    pub x: String,
    /// The vertical position in pixels, as decimal text.
    pub y: String,
    /// The angle of rotation in degrees, as decimal text.
    pub rotation: String,
    pub visible: bool,
    pub shape: ObjectShape,
    pub properties: Properties,
}

/// An [`Object`] as contracts see it.
pub struct ObjectModel {
    pub id: u32,
    pub gid: Gid,
    pub name: Seq<char>,
    pub obj_type: Seq<char>,
    pub width: Seq<char>,
    pub height: Seq<char>,
    pub x: Seq<char>,
    pub y: Seq<char>,
    pub rotation: Seq<char>,
    pub visible: bool,
    pub shape: ShapeModel,
    pub properties: Map<Seq<char>, PropertyModel>,
}

impl View for Object {
    type V = ObjectModel;

    open spec fn view(&self) -> ObjectModel {
        ObjectModel {
            id: self.id,
            gid: self.gid,
            name: self.name@,
            obj_type: self.obj_type@,
            width: self.width@,
            height: self.height@,
            x: self.x@,
            y: self.y@,
            rotation: self.rotation@,
            visible: self.visible,
            shape: self.shape@,
            properties: self.properties@,
        }
    }
}

/// What is reported where an object lacks its position.
pub const OBJECT_ATTRIBUTES: &'static str = "objects must have an x and a y number";

/// What is reported where a polyline lacks its points.
pub const POLYLINE_ATTRIBUTES: &'static str = "A polyline must have points";

/// What is reported where a polygon lacks its points.
pub const POLYGON_ATTRIBUTES: &'static str = "A polygon must have points";

/// What is reported where a point is no pair of coordinates.
pub const POINT_PAIRS: &'static str =
    "one of a polyline's points does not have an x and y coordinate";

/// The text, or the given one in its absence.
pub open spec fn text_or(text: Option<Seq<char>>, otherwise: Seq<char>) -> Seq<char> {
    match text {
        Some(t) => t,
        None => otherwise,
    }
}

/// Executable form of [`text_or`].
pub fn text_or_else(text: Option<String>, otherwise: &str) -> (result: String)
    ensures
        result@ == text_or(crate::util::text_view(text), otherwise@),
{
    match text {
        Some(t) => t,
        None => String::from_str(otherwise),
    }
}

/// Whether every piece of a list of points is a pair: two texts with one
/// comma between them.
pub open spec fn all_pairs(pieces: Seq<Seq<char>>) -> bool {
    forall|i: int| 0 <= i < pieces.len() ==> split(#[trigger] pieces[i], ',').len() == 2
}

/// The points that a text lists: pairs `x,y` with a blank between one pair
/// and the next. A piece that is no pair makes the list invalid.
pub open spec fn points_of(text: Seq<char>) -> Option<Seq<(Seq<char>, Seq<char>)>> {
    let pieces = split(text, ' ');
    if all_pairs(pieces) {
        Some(
            Seq::new(pieces.len(), |i: int| (split(pieces[i], ',')[0], split(pieces[i], ',')[1])),
        )
    } else {
        None
    }
}

/// The shape that the points of the element opening at place `child` make,
/// closed (a polygon) or open (a polyline).
pub open spec fn outline_at(events: Seq<XmlEvent>, child: int, closed: bool) -> Result<
    ShapeModel,
    TiledError,
> {
    let message = if closed {
        POLYGON_ATTRIBUTES
    } else {
        POLYLINE_ATTRIBUTES
    };
    match attr_values(attributes_at(events, child), seq![required("points", Coercion::Text)], message) {
        Err(e) => Err(e),
        Ok(v) => match points_of(text_at(v, 0)->0) {
            None => Err(TiledError::MalformedAttributes { attribute: "points", message: POINT_PAIRS }),
            Some(points) => if closed {
                Ok(ShapeModel::Polygon { points })
            } else {
                Ok(ShapeModel::Polyline { points })
            },
        },
    }
}

impl Object {
    /// The attributes that an object declares.
    pub open spec fn table() -> Seq<Descriptor> {
        seq![
            optional("id", Coercion::U32),
            optional("gid", Coercion::U32),
            optional("name", Coercion::Text),
            optional("type", Coercion::Text),
            optional("width", Coercion::Text),
            optional("height", Coercion::Text),
            optional("visible", Coercion::I32),
            optional("rotation", Coercion::Text),
            required("x", Coercion::Text),
            required("y", Coercion::Text),
        ]
    }

    /// The object that its attributes alone describe: a rectangle of its
    /// size, without properties. An absent id or tile is 0, an absent size or
    /// angle `0`, an absent name or type empty; the object is visible unless
    /// `visible` is a number other than 1.
    pub open spec fn header(v: Seq<Option<crate::util::ValueModel>>) -> ObjectModel {
        let width = text_or(text_at(v, 4), "0"@);
        let height = text_or(text_at(v, 5), "0"@);
        ObjectModel {
            id: match u32_at(v, 0) {
                Some(n) => n,
                None => 0,
            },
            gid: match u32_at(v, 1) {
                Some(n) => Gid(n),
                None => Gid(0),
            },
            name: text_or(text_at(v, 2), Seq::empty()),
            obj_type: text_or(text_at(v, 3), Seq::empty()),
            width,
            height,
            x: text_at(v, 8)->0,
            y: text_at(v, 9)->0,
            rotation: text_or(text_at(v, 7), "0"@),
            visible: match i32_at(v, 6) {
                Some(n) => n == 1,
                None => true,
            },
            shape: ShapeModel::Rect { width, height },
            properties: Map::empty(),
        }
    }

    /// What one child makes of the object read so far: `ellipse`,
    /// `polyline`, `polygon` and `point` set its shape, `properties` its
    /// properties, any other element changes nothing.
    pub open spec fn absorb(events: Seq<XmlEvent>, child: int, object: ObjectModel) -> Result<
        ObjectModel,
        TiledError,
    > {
        let name = name_at(events, child);
        if name == "ellipse"@ {
            Ok(
                ObjectModel {
                    shape: ShapeModel::Ellipse { width: object.width, height: object.height },
                    ..object
                },
            )
        } else if name == "polyline"@ {
            match outline_at(events, child, false) {
                Err(e) => Err(e),
                Ok(shape) => Ok(ObjectModel { shape, ..object }),
            }
        } else if name == "polygon"@ {
            match outline_at(events, child, true) {
                Err(e) => Err(e),
                Ok(shape) => Ok(ObjectModel { shape, ..object }),
            }
        } else if name == "point"@ {
            Ok(ObjectModel { shape: ShapeModel::Point(object.x, object.y), ..object })
        } else if name == "properties"@ {
            match Properties::at(events, child) {
                Err(e) => Err(e),
                Ok(properties) => Ok(ObjectModel { properties, ..object }),
            }
        } else {
            Ok(object)
        }
    }

    /// What the given children make, one after the other, of the object read
    /// so far; the first child that fails decides the failure.
    pub open spec fn fold(events: Seq<XmlEvent>, children: Seq<usize>, object: ObjectModel) -> Result<
        ObjectModel,
        TiledError,
    >
        decreases children.len(),
    {
        if children.len() == 0 {
            Ok(object)
        } else {
            match Object::absorb(events, children[0] as int, object) {
                Err(e) => Err(e),
                Ok(more) => Object::fold(events, children.skip(1), more),
            }
        }
    }

    /// The object that the element opening at place `open` describes: what
    /// its attributes say, then what its children make of that. It fails
    /// where an attribute or a child fails, or where the element does not
    /// close.
    pub open spec fn at(events: Seq<XmlEvent>, open: int) -> Result<ObjectModel, TiledError> {
        match attr_values(attributes_at(events, open), Object::table(), OBJECT_ATTRIBUTES) {
            Err(e) => Err(e),
            Ok(v) => match Object::fold(events, children_at(events, open), Object::header(v)) {
                Err(e) => Err(e),
                Ok(object) => match element_end(events, open) {
                    Err(e) => Err(e),
                    Ok(_) => Ok(object),
                },
            },
        }
    }

    /// Reads a list of points: pairs `x,y` with a blank between one pair and
    /// the next.
    pub fn parse_points(text: &str) -> (result: Result<Vec<(String, String)>, TiledError>)
        ensures
            match points_of(text@) {
                Some(points) => result is Ok && points_view(result->Ok_0@) == points,
                None => result == Err::<Vec<(String, String)>, TiledError>(
                    TiledError::MalformedAttributes { attribute: "points", message: POINT_PAIRS },
                ),
            },
    {
        let chars = chars_of(text);
        assert(chars@.subrange(0, chars@.len() as int) =~= chars@);
        let ranges = split_ranges(&chars, 0, chars.len(), ' ');
        let ghost pieces = split(text@, ' ');
        let mut points: Vec<(String, String)> = Vec::new();
        let mut i: usize = 0;
        while i < ranges.len()
            invariant
                i <= ranges.len(),
                chars@ == text@,
                pieces == split(text@, ' '),
                pieces_of(chars@, ranges@) == pieces,
                forall|k: int|
                    0 <= k < ranges@.len() ==> (#[trigger] ranges@[k]).0 <= ranges@[k].1
                        <= chars.len(),
                points@.len() == i,
                forall|k: int|
                    0 <= k < i ==> split(#[trigger] pieces[k], ',').len() == 2 && points@[k].0@
                        == split(pieces[k], ',')[0] && points@[k].1@ == split(pieces[k], ',')[1],
            decreases ranges.len() - i,
        {
            let (from, to) = ranges[i];
            assert(pieces[i as int] == chars@.subrange(from as int, to as int));
            let parts = split_ranges(&chars, from, to, ',');
            assert(pieces_of(chars@, parts@).len() == parts@.len());
            if parts.len() != 2 {
                return Err(
                    TiledError::MalformedAttributes { attribute: "points", message: POINT_PAIRS },
                );
            }
            let (xa, xb) = parts[0];
            let (ya, yb) = parts[1];
            assert(pieces_of(chars@, parts@)[0] == chars@.subrange(xa as int, xb as int));
            assert(pieces_of(chars@, parts@)[1] == chars@.subrange(ya as int, yb as int));
            let x = String::from_str(text.substring_char(xa, xb));
            let y = String::from_str(text.substring_char(ya, yb));
            points.push((x, y));
            i += 1;
        }
        assert(points_view(points@) =~= points_of(text@)->0);
        Ok(points)
    }

    /// Reads the points of the `polyline` or `polygon` element that opens at
    /// place `child`.
    fn outline(events: &Vec<XmlEvent>, child: usize, closed: bool) -> (result: Result<
        ObjectShape,
        TiledError,
    >)
        requires
            child < events.len(),
        ensures
            parsed(result) == outline_at(events@, child as int, closed),
    {
        let table = vec![Descriptor::required("points", Coercion::Text)];
        assert(table@ =~= seq![required("points", Coercion::Text)]);
        let message = if closed {
            POLYGON_ATTRIBUTES
        } else {
            POLYLINE_ATTRIBUTES
        };
        let v = attrs_at(events, child, &table, message)?;
        let text = take_text(&v, 0).unwrap();
        let points = Object::parse_points(text.as_str())?;
        if closed {
            Ok(ObjectShape::Polygon { points })
        } else {
            Ok(ObjectShape::Polyline { points })
        }
    }

    /// Reads the object element that opens at place `open`.
    pub fn new(events: &Vec<XmlEvent>, open: usize) -> (result: Result<Object, TiledError>)
        requires
            open < events.len(),
        ensures
            parsed(result) == Object::at(events@, open as int),
    {
        let table = vec![
            Descriptor::optional("id", Coercion::U32),
            Descriptor::optional("gid", Coercion::U32),
            Descriptor::optional("name", Coercion::Text),
            Descriptor::optional("type", Coercion::Text),
            Descriptor::optional("width", Coercion::Text),
            Descriptor::optional("height", Coercion::Text),
            Descriptor::optional("visible", Coercion::I32),
            Descriptor::optional("rotation", Coercion::Text),
            Descriptor::required("x", Coercion::Text),
            Descriptor::required("y", Coercion::Text),
        ];
        assert(table@ =~= Object::table());
        let v = attrs_at(events, open, &table, OBJECT_ATTRIBUTES)?;
        let ghost values = crate::util::values_view(v@);
        let ghost header = Object::header(values);
        proof {
            reveal_strlit("");
            assert(""@ =~= Seq::<char>::empty());
        }
        let id: u32 = match take_u32(&v, 0) {
            Some(n) => n,
            None => 0,
        };
        let gid = match take_u32(&v, 1) {
            Some(n) => Gid(n),
            None => Gid(0),
        };
        let name = text_or_else(take_text(&v, 2), "");
        let obj_type = text_or_else(take_text(&v, 3), "");
        let width = text_or_else(take_text(&v, 4), "0");
        let height = text_or_else(take_text(&v, 5), "0");
        let visible = match take_i32(&v, 6) {
            Some(n) => n == 1,
            None => true,
        };
        let rotation = text_or_else(take_text(&v, 7), "0");
        let x = take_text(&v, 8).unwrap();
        let y = take_text(&v, 9).unwrap();
        let mut shape = ObjectShape::Rect { width: width.clone(), height: height.clone() };
        let mut properties = Properties::new();
        let found = walk(events, open);
        let mut i: usize = 0;
        assert(found.children@.skip(0) =~= found.children@);
        while i < found.children.len()
            invariant
                i <= found.children.len(),
                forall|k: int|
                    0 <= k < found.children@.len() ==> (#[trigger] found.children@[k])
                        < events.len(),
                attr_values(attributes_at(events@, open as int), Object::table(), OBJECT_ATTRIBUTES)
                    == Ok::<Seq<Option<crate::util::ValueModel>>, TiledError>(values),
                header == Object::header(values),
                header.width == width@,
                header.height == height@,
                header.x == x@,
                header.y == y@,
                Object::fold(
                    events@,
                    found.children@.skip(i as int),
                    ObjectModel { shape: shape@, properties: properties@, ..header },
                ) == Object::fold(events@, children_at(events@, open as int), header),
            decreases found.children.len() - i,
        {
            let child = found.children[i];
            assert(found.children@.skip(i as int).skip(1) =~= found.children@.skip(i + 1));
            if name_is(events, child, "ellipse") {
                shape = ObjectShape::Ellipse { width: width.clone(), height: height.clone() };
            } else if name_is(events, child, "polyline") {
                shape = Object::outline(events, child, false)?;
            } else if name_is(events, child, "polygon") {
                shape = Object::outline(events, child, true)?;
            } else if name_is(events, child, "point") {
                shape = ObjectShape::Point(x.clone(), y.clone());
            } else if name_is(events, child, "properties") {
                properties = Properties::parse_xml(events, child)?;
            }
            i += 1;
        }
        match found.end {
            Err(e) => Err(e),
            Ok(_) => Ok(
                Object {
                    id,
                    gid,
                    name,
                    obj_type,
                    width,
                    height,
                    x,
                    y,
                    rotation,
                    visible,
                    shape,
                    properties,
                },
            ),
        }
    }
}

/// A layer of objects.
#[derive(Debug, PartialEq, Eq, Clone)]
pub struct ObjectGroup {
    pub name: String,
    /// How opaque the layer is drawn, from 0 to 1, as decimal text.
    pub opacity: String,
    pub visible: bool,
    /// The objects in the order of the document.
    pub objects: Vec<Object>,
    pub color: Option<Color>,
    /// The layer's place among the layers of its map; none for the
    /// collision shapes of a tile.
    pub layer_index: Option<u32>,
    pub properties: Properties,
}

/// An [`ObjectGroup`] as contracts see it.
pub struct ObjectGroupModel {
    pub name: Seq<char>,
    pub opacity: Seq<char>,
    pub visible: bool,
    pub objects: Seq<ObjectModel>,
    pub color: Option<Color>,
    pub layer_index: Option<u32>,
    pub properties: Map<Seq<char>, PropertyModel>,
}

/// A list of objects as contracts see it.
pub open spec fn objects_view(objects: Seq<Object>) -> Seq<ObjectModel> {
    Seq::new(objects.len(), |i: int| objects[i]@)
}

impl View for ObjectGroup {
    type V = ObjectGroupModel;

    open spec fn view(&self) -> ObjectGroupModel {
        ObjectGroupModel {
            name: self.name@,
            opacity: self.opacity@,
            visible: self.visible,
            objects: objects_view(self.objects@),
            color: self.color,
            layer_index: self.layer_index,
            properties: self.properties@,
        }
    }
}

/// What is reported where an object layer has an attribute that is rejected.
pub const GROUP_ATTRIBUTES: &'static str = "object groups must have a name";

impl ObjectGroup {
    /// The attributes that an object layer declares.
    pub open spec fn table() -> Seq<Descriptor> {
        seq![
            optional("opacity", Coercion::Text),
            optional("visible", Coercion::I32),
            strict("color", Coercion::Color),
            optional("name", Coercion::Text),
        ]
    }

    /// The layer that its attributes alone describe, without objects or
    /// properties. An absent name is empty, an absent opacity `1`; the layer
    /// is visible unless `visible` is a number other than 1.
    pub open spec fn header(
        v: Seq<Option<crate::util::ValueModel>>,
        layer_index: Option<u32>,
    ) -> ObjectGroupModel {
        ObjectGroupModel {
            name: text_or(text_at(v, 3), Seq::empty()),
            opacity: text_or(text_at(v, 0), "1"@),
            visible: match i32_at(v, 1) {
                Some(n) => n == 1,
                None => true,
            },
            objects: Seq::empty(),
            color: color_at(v, 2),
            layer_index,
            properties: Map::empty(),
        }
    }

    /// What one child adds to the layer read so far: an `object` element
    /// adds its object, `properties` sets the properties, any other element
    /// changes nothing.
    pub open spec fn absorb(events: Seq<XmlEvent>, child: int, group: ObjectGroupModel) -> Result<
        ObjectGroupModel,
        TiledError,
    > {
        let name = name_at(events, child);
        if name == "object"@ {
            match Object::at(events, child) {
                Err(e) => Err(e),
                Ok(object) => Ok(ObjectGroupModel { objects: group.objects.push(object), ..group }),
            }
        } else if name == "properties"@ {
            match Properties::at(events, child) {
                Err(e) => Err(e),
                Ok(properties) => Ok(ObjectGroupModel { properties, ..group }),
            }
        } else {
            Ok(group)
        }
    }

    /// What the given children add, one after the other, to the layer read
    /// so far; the first child that fails decides the failure.
    pub open spec fn fold(
        events: Seq<XmlEvent>,
        children: Seq<usize>,
        group: ObjectGroupModel,
    ) -> Result<ObjectGroupModel, TiledError>
        decreases children.len(),
    {
        if children.len() == 0 {
            Ok(group)
        } else {
            match ObjectGroup::absorb(events, children[0] as int, group) {
                Err(e) => Err(e),
                Ok(more) => ObjectGroup::fold(events, children.skip(1), more),
            }
        }
    }

    /// The object layer that the element opening at place `open` describes.
    /// It fails where an attribute or a child fails, or where the element
    /// does not close.
    pub open spec fn at(events: Seq<XmlEvent>, open: int, layer_index: Option<u32>) -> Result<
        ObjectGroupModel,
        TiledError,
    > {
        match attr_values(attributes_at(events, open), ObjectGroup::table(), GROUP_ATTRIBUTES) {
            Err(e) => Err(e),
            Ok(v) => match ObjectGroup::fold(
                events,
                children_at(events, open),
                ObjectGroup::header(v, layer_index),
            ) {
                Err(e) => Err(e),
                Ok(group) => match element_end(events, open) {
                    Err(e) => Err(e),
                    Ok(_) => Ok(group),
                },
            },
        }
    }

    /// Reads the object layer that opens at place `open`.
    pub fn new(events: &Vec<XmlEvent>, open: usize, layer_index: Option<u32>) -> (result: Result<
        ObjectGroup,
        TiledError,
    >)
        requires
            open < events.len(),
        ensures
            parsed(result) == ObjectGroup::at(events@, open as int, layer_index),
    {
        let table = vec![
            Descriptor::optional("opacity", Coercion::Text),
            Descriptor::optional("visible", Coercion::I32),
            Descriptor::strict("color", Coercion::Color),
            Descriptor::optional("name", Coercion::Text),
        ];
        assert(table@ =~= ObjectGroup::table());
        let v = attrs_at(events, open, &table, GROUP_ATTRIBUTES)?;
        let ghost values = crate::util::values_view(v@);
        let ghost header = ObjectGroup::header(values, layer_index);
        proof {
            reveal_strlit("");
            assert(""@ =~= Seq::<char>::empty());
        }
        let opacity = text_or_else(take_text(&v, 0), "1");
        let visible = match take_i32(&v, 1) {
            Some(n) => n == 1,
            None => true,
        };
        let color = take_color(&v, 2);
        let name = text_or_else(take_text(&v, 3), "");
        let mut objects: Vec<Object> = Vec::new();
        let mut properties = Properties::new();
        let found = walk(events, open);
        let mut i: usize = 0;
        assert(found.children@.skip(0) =~= found.children@);
        assert(objects_view(objects@) =~= Seq::<ObjectModel>::empty());
        while i < found.children.len()
            invariant
                i <= found.children.len(),
                forall|k: int|
                    0 <= k < found.children@.len() ==> (#[trigger] found.children@[k])
                        < events.len(),
                attr_values(attributes_at(events@, open as int), ObjectGroup::table(), GROUP_ATTRIBUTES)
                    == Ok::<Seq<Option<crate::util::ValueModel>>, TiledError>(values),
                header == ObjectGroup::header(values, layer_index),
                ObjectGroup::fold(
                    events@,
                    found.children@.skip(i as int),
                    ObjectGroupModel {
                        objects: objects_view(objects@),
                        properties: properties@,
                        ..header
                    },
                ) == ObjectGroup::fold(events@, children_at(events@, open as int), header),
            decreases found.children.len() - i,
        {
            let child = found.children[i];
            assert(found.children@.skip(i as int).skip(1) =~= found.children@.skip(i + 1));
            if name_is(events, child, "object") {
                let object = Object::new(events, child)?;
                let ghost before = objects_view(objects@);
                let ghost added = object@;
                objects.push(object);
                assert(objects_view(objects@) =~= before.push(added));
            } else if name_is(events, child, "properties") {
                properties = Properties::parse_xml(events, child)?;
            }
            i += 1;
        }
        match found.end {
            Err(e) => Err(e),
            Ok(_) => Ok(
                ObjectGroup { name, opacity, visible, objects, color, layer_index, properties },
            ),
        }
    }
}

} // verus!
