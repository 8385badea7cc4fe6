//! Tile animations: the frames that a tile cycles through.

use crate::error::TiledError;
use crate::events::XmlEvent;
use crate::util::{
    attr_values, attributes_at, attrs_at, children_at, element_end, name_at, name_is, parsed,
    required, take_u32, u32_at, walk, Coercion, Descriptor,
};
use vstd::prelude::*;

verus! {

/// One frame of a tile animation.
#[derive(Debug, PartialEq, Eq, Clone, Copy, Structural)]
pub struct Frame {
    /// The tile shown during this frame, by its id within its tileset (not a
    /// global id).
    pub tile_id: u32,
    /// How long the frame is shown before the next one, in milliseconds.
    pub duration: u64,
}

impl View for Frame {
    type V = Frame;

    open spec fn view(&self) -> Frame {
        *self
    }
}

/// What is reported where a frame lacks an attribute.
pub const FRAME_ATTRIBUTES: &'static str = "A frame must have tileid and duration";

impl Frame {
    /// The attributes that a frame declares.
    pub open spec fn table() -> Seq<Descriptor> {
        seq![required("tileid", Coercion::U32), required("duration", Coercion::U32)]
    }

    /// The frame that the element opening at place `open` describes.
    pub open spec fn at(events: Seq<XmlEvent>, open: int) -> Result<Frame, TiledError> {
        match attr_values(attributes_at(events, open), Frame::table(), FRAME_ATTRIBUTES) {
            Err(e) => Err(e),
            Ok(v) => Ok(Frame { tile_id: u32_at(v, 0)->0, duration: u32_at(v, 1)->0 as u64 }),
        }
    }

    /// Reads the frame element that opens at place `open`: the tile it shows
    /// and for how many milliseconds.
    pub fn new(events: &Vec<XmlEvent>, open: usize) -> (result: Result<Frame, TiledError>)
        requires
            open < events.len(),
        ensures
            parsed(result) == Frame::at(events@, open as int),
    {
        let table = vec![
            Descriptor::required("tileid", Coercion::U32),
            Descriptor::required("duration", Coercion::U32),
        ];
        assert(table@ =~= Frame::table());
        let v = attrs_at(events, open, &table, FRAME_ATTRIBUTES)?;
        let tile_id = take_u32(&v, 0).unwrap();
        let millis = take_u32(&v, 1).unwrap();
        Ok(Frame { tile_id, duration: millis as u64 })
    }
}

/// A tile animation: its frames in the order in which they are shown.
#[derive(Debug, PartialEq, Eq, Clone)]
pub struct Animation {
    pub frames: Vec<Frame>,
}

impl View for Animation {
    type V = Seq<Frame>;

    open spec fn view(&self) -> Seq<Frame> {
        self.frames@
    }
}

impl Animation {
    /// What one child adds to the frames read so far: a `frame` element adds
    /// its frame, any other element nothing.
    pub open spec fn absorb(events: Seq<XmlEvent>, child: int, frames: Seq<Frame>) -> Result<
        Seq<Frame>,
        TiledError,
    > {
        if name_at(events, child) == "frame"@ {
            match Frame::at(events, child) {
                Err(e) => Err(e),
                Ok(frame) => Ok(frames.push(frame)),
            }
        } else {
            Ok(frames)
        }
    }

    /// What the given children add, one after the other, to the frames read
    /// so far; the first child that fails decides the failure.
    pub open spec fn fold(events: Seq<XmlEvent>, children: Seq<usize>, frames: Seq<Frame>) -> Result<
        Seq<Frame>,
        TiledError,
    >
        decreases children.len(),
    {
        if children.len() == 0 {
            Ok(frames)
        } else {
            match Animation::absorb(events, children[0] as int, frames) {
                Err(e) => Err(e),
                Ok(more) => Animation::fold(events, children.skip(1), more),
            }
        }
    }

    /// The animation that the element opening at place `open` describes: the
    /// frames of its `frame` children. It fails where a frame fails, or
    /// where the element does not close.
    pub open spec fn at(events: Seq<XmlEvent>, open: int) -> Result<Seq<Frame>, TiledError> {
        match Animation::fold(events, children_at(events, open), Seq::empty()) {
            Err(e) => Err(e),
            Ok(frames) => match element_end(events, open) {
                Err(e) => Err(e),
                Ok(_) => Ok(frames),
            },
        }
    }

    /// Reads the animation element that opens at place `open`.
    pub fn parse_xml(events: &Vec<XmlEvent>, open: usize) -> (result: Result<Animation, TiledError>)
        requires
            open < events.len(),
        ensures
            parsed(result) == Animation::at(events@, open as int),
    {
        let found = walk(events, open);
        let mut frames: Vec<Frame> = Vec::new();
        let mut i: usize = 0;
        assert(found.children@.skip(0) =~= found.children@);
        while i < found.children.len()
            invariant
                i <= found.children.len(),
                forall|k: int|
                    0 <= k < found.children@.len() ==> (#[trigger] found.children@[k])
                        < events.len(),
                Animation::fold(events@, found.children@.skip(i as int), frames@) == Animation::fold(
                    events@,
                    children_at(events@, open as int),
                    Seq::empty(),
                ),
            decreases found.children.len() - i,
        {
            let child = found.children[i];
            assert(found.children@.skip(i as int).skip(1) =~= found.children@.skip(i + 1));
            if name_is(events, child, "frame") {
                frames.push(Frame::new(events, child)?);
            }
            i += 1;
        }
        match found.end {
            Err(e) => Err(e),
            Ok(_) => Ok(Animation { frames }),
        }
    }
}

} // verus!
