//! Tile layers: the cells of a grid, and the decoding of a layer's body from
//! each of the forms in which a document can store it.

use crate::error::{ContentStage, TiledError};
use crate::events::XmlEvent;
use crate::image::{Image, ImageModel};
use crate::objects::{text_or, text_or_else};
use crate::properties::{Properties, PropertyModel};
use crate::text::{
    chars_of, same_text, parse_u32_in, pieces_of, split, split_ranges, trim, trim_range, u32_of,
};
use crate::tile::Gid;
use crate::util::{
    attr_values, attributes_at, attrs_at, children_at, element_end, i32_at, name_at, name_is,
    optional, parsed, required, take_i32, take_text, take_u32, text_at, text_view, u32_at,
    values_view, walk, Coercion, Descriptor, ValueModel,
};
use std::io::Read;
use vstd::prelude::*;

verus! {

/// The bit of a stored cell that says it is flipped along its diagonal.
pub const FLIPPED_DIAGONALLY_FLAG: u32 = 0x8000_0000;

/// The bit of a stored cell that says it is flipped top to bottom.
pub const FLIPPED_VERTICALLY_FLAG: u32 = 0x4000_0000;

/// The bit of a stored cell that says it is flipped left to right.
pub const FLIPPED_HORIZONTALLY_FLAG: u32 = 0x2000_0000;

/// The three flip bits together.
pub const ALL_FLIP_FLAGS: u32 = 0xE000_0000;

/// One cell of a tile layer: the tile that it shows, and how the tile is
/// flipped. A document stores a cell as one 32-bit value, the flips in its
/// three highest bits and the tile's id in the other 29.
#[derive(Debug, Clone, Copy, PartialEq, Eq, Structural)]
pub struct LayerTile {
    pub gid: Gid,
    pub flip_h: bool,
    pub flip_v: bool,
    pub flip_d: bool,
}

impl LayerTile {
    /// The cell that a stored value stands for.
    pub open spec fn of_bits(bits: u32) -> LayerTile {
        LayerTile {
            gid: Gid(bits & !ALL_FLIP_FLAGS),
            flip_h: bits & FLIPPED_HORIZONTALLY_FLAG == FLIPPED_HORIZONTALLY_FLAG,
            flip_v: bits & FLIPPED_VERTICALLY_FLAG == FLIPPED_VERTICALLY_FLAG,
            flip_d: bits & FLIPPED_DIAGONALLY_FLAG == FLIPPED_DIAGONALLY_FLAG,
        }
    }

    /// The value that stores this cell: its id with the bit of each flip set.
    pub open spec fn bits(self) -> u32 {
        self.gid.0 | (if self.flip_d {
            FLIPPED_DIAGONALLY_FLAG
        } else {
            0
        }) | (if self.flip_v {
            FLIPPED_VERTICALLY_FLAG
        } else {
            0
        }) | (if self.flip_h {
            FLIPPED_HORIZONTALLY_FLAG
        } else {
            0
        })
    }

    /// Splits a stored value into the tile's id and the three flips. Packing
    /// the cell again gives the stored value back.
    pub fn new(bits: u32) -> (tile: LayerTile)
        ensures
            tile == LayerTile::of_bits(bits),
            tile.bits() == bits,
            tile.gid.0 <= 0x1FFF_FFFF,
    {
        proof {
            lemma_flip_bits_round_trip(bits);
        }
        LayerTile {
            gid: Gid(bits & !ALL_FLIP_FLAGS),
            flip_h: bits & FLIPPED_HORIZONTALLY_FLAG == FLIPPED_HORIZONTALLY_FLAG,
            flip_v: bits & FLIPPED_VERTICALLY_FLAG == FLIPPED_VERTICALLY_FLAG,
            flip_d: bits & FLIPPED_DIAGONALLY_FLAG == FLIPPED_DIAGONALLY_FLAG,
        }
    }

    /// Packs the cell into the value that stores it.
    pub fn to_bits(&self) -> (bits: u32)
        ensures
            bits == self.bits(),
    {
        let d: u32 = if self.flip_d {
            FLIPPED_DIAGONALLY_FLAG
        } else {
            0
        };
        let v: u32 = if self.flip_v {
            FLIPPED_VERTICALLY_FLAG
        } else {
            0
        };
        let h: u32 = if self.flip_h {
            FLIPPED_HORIZONTALLY_FLAG
        } else {
            0
        };
        self.gid.0 | d | v | h
    }
}

/// Every 32-bit value survives being split into a cell and packed again, and
/// the id of the cell keeps to the lower 29 bits.
pub proof fn lemma_flip_bits_round_trip(bits: u32)
    ensures
        LayerTile::of_bits(bits).bits() == bits,
        LayerTile::of_bits(bits).gid.0 <= 0x1FFF_FFFF,
{
    let d: u32 = if bits & 0x8000_0000u32 == 0x8000_0000u32 {
        0x8000_0000u32
    } else {
        0u32
    };
    let v: u32 = if bits & 0x4000_0000u32 == 0x4000_0000u32 {
        0x4000_0000u32
    } else {
        0u32
    };
    let h: u32 = if bits & 0x2000_0000u32 == 0x2000_0000u32 {
        0x2000_0000u32
    } else {
        0u32
    };
    assert(d == bits & 0x8000_0000u32 && v == bits & 0x4000_0000u32 && h == bits & 0x2000_0000u32)
        by (bit_vector)
        requires
            d == if bits & 0x8000_0000u32 == 0x8000_0000u32 {
                0x8000_0000u32
            } else {
                0u32
            },
            v == if bits & 0x4000_0000u32 == 0x4000_0000u32 {
                0x4000_0000u32
            } else {
                0u32
            },
            h == if bits & 0x2000_0000u32 == 0x2000_0000u32 {
                0x2000_0000u32
            } else {
                0u32
            },
    ;
    assert(((bits & !0xE000_0000u32) | (bits & 0x8000_0000u32) | (bits & 0x4000_0000u32) | (bits
        & 0x2000_0000u32)) == bits && (bits & !0xE000_0000u32) <= 0x1FFF_FFFFu32)
        by (bit_vector);
}

/// The numbers of a comma-separated body. The text is cut at every comma;
/// each piece, with the white space around it removed, has to be an unsigned
/// 32-bit decimal number. One piece that is not makes the whole body invalid.
pub open spec fn csv_values(s: Seq<char>) -> Option<Seq<u32>> {
    let pieces = split(s, ',');
    if forall|i: int| 0 <= i < pieces.len() ==> u32_of(trim(#[trigger] pieces[i])) is Some {
        Some(Seq::new(pieces.len(), |i: int| u32_of(trim(pieces[i]))->0))
    } else {
        None
    }
}

/// Decodes a comma-separated body into its numbers.
pub fn decode_csv(text: &str) -> (result: Result<Vec<u32>, TiledError>)
    ensures
        match csv_values(text@) {
            Some(values) => result is Ok && result->Ok_0@ == values,
            None => result == Err::<Vec<u32>, TiledError>(
                TiledError::ContentDecodingError(ContentStage::Integer),
            ),
        },
{
    let chars = chars_of(text);
    assert(chars@.subrange(0, chars@.len() as int) =~= chars@);
    let ranges = split_ranges(&chars, 0, chars.len(), ',');
    let ghost pieces = split(text@, ',');
    let mut values: Vec<u32> = Vec::new();
    let mut i: usize = 0;
    while i < ranges.len()
        invariant
            i <= ranges.len(),
            chars@ == text@,
            pieces == split(text@, ','),
            pieces_of(chars@, ranges@) == pieces,
            forall|k: int|
                0 <= k < ranges@.len() ==> (#[trigger] ranges@[k]).0 <= ranges@[k].1
                    <= chars.len(),
            values@.len() == i,
            forall|k: int| 0 <= k < i ==> u32_of(trim(#[trigger] pieces[k])) == Some(values@[k]),
        decreases ranges.len() - i,
    {
        let (from, to) = ranges[i];
        assert(pieces[i as int] == chars@.subrange(from as int, to as int));
        let (a, b) = trim_range(&chars, from, to);
        match parse_u32_in(&chars, a, b) {
            None => {
                return Err(TiledError::ContentDecodingError(ContentStage::Integer));
            },
            Some(v) => {
                values.push(v);
            },
        }
        i += 1;
    }
    assert(values@ =~= csv_values(text@)->0);
    Ok(values)
}

/// Whether every character of the text is an ASCII character.
pub open spec fn is_ascii_text(s: Seq<char>) -> bool {
    forall|i: int| 0 <= i < s.len() ==> (#[trigger] s[i] as u32) < 128
}

/// The bytes of an ASCII text, one for each character.
pub open spec fn ascii_bytes(s: Seq<char>) -> Seq<u8> {
    Seq::new(s.len(), |i: int| (s[i] as u32) as u8)
}

/// What `base64::decode` makes of its input: the decoded bytes, or nothing
/// where it reports an error.
pub uninterp spec fn base64_bytes(input: Seq<u8>) -> Option<Seq<u8>>;

/// What reading a zlib stream to its end with `libflate` gives: the inflated
/// bytes, or nothing where the stream is rejected.
pub uninterp spec fn zlib_inflated(input: Seq<u8>) -> Option<Seq<u8>>;

/// What reading a gzip stream to its end with `libflate` gives: the inflated
/// bytes, or nothing where the stream is rejected.
pub uninterp spec fn gzip_inflated(input: Seq<u8>) -> Option<Seq<u8>>;

/// Optional bytes as contracts see them.
pub open spec fn bytes_view(bytes: Option<Vec<u8>>) -> Option<Seq<u8>> {
    match bytes {
        Some(b) => Some(b@),
        None => None,
    }
}

/// Calls `base64::decode`, which decodes with the standard alphabet and
/// padding. The contract only names the result, [`base64_bytes`] of the
/// input; an error of the crate becomes `None`.
#[verifier::external_body]
fn base64_decode(input: &Vec<u8>) -> (output: Option<Vec<u8>>)
    ensures
        bytes_view(output) == base64_bytes(input@),
{
    base64::decode(input).ok()
}

/// Makes a `libflate::zlib::Decoder` on the input and reads it to its end.
/// The contract only names the result, [`zlib_inflated`] of the input; a
/// rejected header or stream becomes `None`.
#[verifier::external_body]
fn zlib_inflate(input: &Vec<u8>) -> (output: Option<Vec<u8>>)
    ensures
        bytes_view(output) == zlib_inflated(input@),
{
    let mut output = Vec::new();
    match libflate::zlib::Decoder::new(input.as_slice()) {
        Ok(mut decoder) => match decoder.read_to_end(&mut output) {
            Ok(_) => Some(output),
            Err(_) => None,
        },
        Err(_) => None,
    }
}

/// Makes a `libflate::gzip::Decoder` on the input and reads it to its end.
/// The contract only names the result, [`gzip_inflated`] of the input; a
/// rejected header or stream becomes `None`.
#[verifier::external_body]
fn gzip_inflate(input: &Vec<u8>) -> (output: Option<Vec<u8>>)
    ensures
        bytes_view(output) == gzip_inflated(input@),
{
    let mut output = Vec::new();
    match libflate::gzip::Decoder::new(input.as_slice()) {
        Ok(mut decoder) => match decoder.read_to_end(&mut output) {
            Ok(_) => Some(output),
            Err(_) => None,
        },
        Err(_) => None,
    }
}

/// The bytes that a base64 body stands for: the text, without the white
/// space around it, has to be ASCII and is then decoded.
pub open spec fn base64_payload(text: Seq<char>) -> Option<Seq<u8>> {
    let t = trim(text);
    if is_ascii_text(t) {
        base64_bytes(ascii_bytes(t))
    } else {
        None
    }
}

/// Decodes a base64 body into bytes.
pub fn decode_base64(text: &str) -> (result: Result<Vec<u8>, TiledError>)
    ensures
        match base64_payload(text@) {
            Some(bytes) => result is Ok && result->Ok_0@ == bytes,
            None => result == Err::<Vec<u8>, TiledError>(
                TiledError::ContentDecodingError(ContentStage::Base64),
            ),
        },
{
    let chars = chars_of(text);
    assert(chars@.subrange(0, chars@.len() as int) =~= chars@);
    let (a, b) = trim_range(&chars, 0, chars.len());
    let ghost t = trim(text@);
    let mut input: Vec<u8> = Vec::new();
    let mut i: usize = a;
    while i < b
        invariant
            a <= i <= b <= chars.len(),
            t == chars@.subrange(a as int, b as int),
            t == trim(text@),
            input@.len() == i - a,
            forall|j: int|
                a <= j < i ==> (#[trigger] chars@[j] as u32) < 128 && input@[j - a] == (chars@[j] as u32) as u8,
        decreases b - i,
    {
        let n: u32 = chars[i] as u32;
        if n >= 128 {
            assert(t[i - a] == chars@[i as int]);
            assert(!is_ascii_text(t));
            return Err(TiledError::ContentDecodingError(ContentStage::Base64));
        }
        let ghost before = input@;
        input.push(n as u8);
        assert forall|j: int| a <= j < i + 1 implies (#[trigger] chars@[j] as u32) < 128 && input@[j
            - a] == (chars@[j] as u32) as u8 by {
            if j < i {
                assert(input@[j - a] == before[j - a]);
            }
        }
        i += 1;
    }
    assert(is_ascii_text(t)) by {
        assert forall|j: int| 0 <= j < t.len() implies (#[trigger] t[j] as u32) < 128 by {
            assert(t[j] == chars@[a + j]);
        }
    }
    assert(input@ =~= ascii_bytes(t)) by {
        assert forall|j: int| 0 <= j < t.len() implies input@[j] == #[trigger] ascii_bytes(t)[j] by {
            assert(t[j] == chars@[a + j]);
        }
    }
    match base64_decode(&input) {
        Some(bytes) => Ok(bytes),
        None => Err(TiledError::ContentDecodingError(ContentStage::Base64)),
    }
}

/// Inflates a zlib stream.
pub fn decode_zlib(data: &Vec<u8>) -> (result: Result<Vec<u8>, TiledError>)
    ensures
        match zlib_inflated(data@) {
            Some(bytes) => result is Ok && result->Ok_0@ == bytes,
            None => result == Err::<Vec<u8>, TiledError>(
                TiledError::ContentDecodingError(ContentStage::Zlib),
            ),
        },
{
    match zlib_inflate(data) {
        Some(bytes) => Ok(bytes),
        None => Err(TiledError::ContentDecodingError(ContentStage::Zlib)),
    }
}

/// Inflates a gzip stream.
pub fn decode_gzip(data: &Vec<u8>) -> (result: Result<Vec<u8>, TiledError>)
    ensures
        match gzip_inflated(data@) {
            Some(bytes) => result is Ok && result->Ok_0@ == bytes,
            None => result == Err::<Vec<u8>, TiledError>(
                TiledError::ContentDecodingError(ContentStage::Gzip),
            ),
        },
{
    match gzip_inflate(data) {
        Some(bytes) => Ok(bytes),
        None => Err(TiledError::ContentDecodingError(ContentStage::Gzip)),
    }
}

/// What a layer holds when its size and its body disagree.
pub const WRONG_CELL_COUNT: &'static str = "The layer data does not match the declared size.";

/// The 32-bit value that four bytes store, lowest byte first.
pub open spec fn le_u32(b0: u8, b1: u8, b2: u8, b3: u8) -> u32 {
    (b0 as int + 256 * (b1 as int) + 65536 * (b2 as int) + 16777216 * (b3 as int)) as u32
}

/// The 32-bit values that a buffer stores, four bytes each, lowest byte
/// first.
pub open spec fn le_values(bytes: Seq<u8>) -> Seq<u32> {
    Seq::new(
        (bytes.len() / 4) as nat,
        |i: int| le_u32(bytes[4 * i], bytes[4 * i + 1], bytes[4 * i + 2], bytes[4 * i + 3]),
    )
}

/// Reads a buffer as 32-bit values, four bytes each, lowest byte first. A
/// buffer whose length is no multiple of four holds no whole number of cells.
pub fn values_from_bytes(bytes: &Vec<u8>) -> (result: Result<Vec<u32>, TiledError>)
    ensures
        if bytes@.len() % 4 == 0 {
            result is Ok && result->Ok_0@ == le_values(bytes@)
        } else {
            result == Err::<Vec<u32>, TiledError>(TiledError::InvalidFormat(WRONG_CELL_COUNT))
        },
{
    let n: usize = bytes.len();
    if n % 4 != 0 {
        return Err(TiledError::InvalidFormat(WRONG_CELL_COUNT));
    }
    let count: usize = n / 4;
    let mut values: Vec<u32> = Vec::new();
    let mut i: usize = 0;
    while i < count
        invariant
            i <= count,
            n == bytes.len(),
            count * 4 == n,
            values@.len() == i,
            forall|j: int| 0 <= j < i ==> #[trigger] values@[j] == le_values(bytes@)[j],
        decreases count - i,
    {
        let b0: u32 = bytes[4 * i] as u32;
        let b1: u32 = bytes[4 * i + 1] as u32;
        let b2: u32 = bytes[4 * i + 2] as u32;
        let b3: u32 = bytes[4 * i + 3] as u32;
        values.push(b0 + 256 * b1 + 65536 * b2 + 16777216 * b3);
        i += 1;
    }
    assert(values@ =~= le_values(bytes@));
    Ok(values)
}

/// The rows of a grid as contracts see them.
pub open spec fn grid_view(rows: Seq<Vec<LayerTile>>) -> Seq<Seq<LayerTile>> {
    Seq::new(rows.len(), |r: int| rows[r]@)
}

/// The grid that stored values fill row by row: `height` rows of `width`
/// cells, the cell of row `r` and column `c` from the value at `r * width + c`.
pub open spec fn grid_of(values: Seq<u32>, width: nat, height: nat) -> Seq<Seq<LayerTile>> {
    Seq::new(
        height,
        |r: int| Seq::new(width, |c: int| LayerTile::of_bits(values[r * width + c])),
    )
}

/// Lays stored values out as a grid of cells, row by row. The number of
/// values has to be `width * height`.
pub fn tiles_from_values(values: &Vec<u32>, width: u32, height: u32) -> (result: Result<
    Vec<Vec<LayerTile>>,
    TiledError,
>)
    ensures
        if values@.len() == width * height {
            result is Ok && grid_view(result->Ok_0@) == grid_of(
                values@,
                width as nat,
                height as nat,
            )
        } else {
            result == Err::<Vec<Vec<LayerTile>>, TiledError>(
                TiledError::InvalidFormat(WRONG_CELL_COUNT),
            )
        },
{
    assert(0 <= width * height <= 0xFFFF_FFFF * 0xFFFF_FFFF) by (nonlinear_arith)
        requires
            0 <= width <= 0xFFFF_FFFF,
            0 <= height <= 0xFFFF_FFFF,
    ;
    let total: u64 = (width as u64) * (height as u64);
    let count: usize = values.len();
    if count as u64 != total {
        return Err(TiledError::InvalidFormat(WRONG_CELL_COUNT));
    }
    let w: usize = width as usize;
    let h: usize = height as usize;
    let mut rows: Vec<Vec<LayerTile>> = Vec::new();
    let mut r: usize = 0;
    while r < h
        invariant
            r <= h,
            w == width,
            h == height,
            values@.len() == w * h,
            values@.len() <= usize::MAX,
            rows@.len() == r,
            forall|i: int|
                0 <= i < r ==> (#[trigger] rows@[i])@ == grid_of(
                    values@,
                    width as nat,
                    height as nat,
                )[i],
        decreases h - r,
    {
        let mut row: Vec<LayerTile> = Vec::new();
        let mut c: usize = 0;
        assert(0 <= r * w && r * w + w <= w * h) by (nonlinear_arith)
            requires
                0 <= r < h,
                0 <= w,
        ;
        let base: usize = r * w;
        while c < w
            invariant
                c <= w,
                base == r * w,
                base + w <= values@.len(),
                values@.len() <= usize::MAX,
                row@.len() == c,
                forall|j: int|
                    0 <= j < c ==> #[trigger] row@[j] == LayerTile::of_bits(values@[r * w + j]),
            decreases w - c,
        {
            row.push(LayerTile::new(values[base + c]));
            c += 1;
        }
        assert(row@ =~= grid_of(values@, width as nat, height as nat)[r as int]);
        rows.push(row);
        r += 1;
    }
    assert(grid_view(rows@) =~= grid_of(values@, width as nat, height as nat));
    Ok(rows)
}

/// The form in which a document stores the body of a tile layer.
#[derive(Debug, Clone, Copy, PartialEq, Eq, Structural)]
pub enum Format {
    /// One child element for each cell.
    Plain,
    /// Decimal numbers with commas between them.
    Csv,
    /// Base64 text of the cells' bytes.
    Base64,
    /// Base64 text of a zlib stream of the cells' bytes.
    Base64Zlib,
    /// Base64 text of a gzip stream of the cells' bytes.
    Base64Gzip,
}

/// What is reported where a layer's encoding or compression is not known.
pub const UNKNOWN_FORMAT: &'static str = "Unknown encoding or compression of the layer data";

/// The form that the `encoding` and `compression` of a layer's data name:
/// neither is the plain form, `csv` and `base64` stand alone, and `base64`
/// goes with `zlib` or `gzip`. Anything else is no known form.
pub open spec fn format_of(encoding: Option<Seq<char>>, compression: Option<Seq<char>>) -> Result<
    Format,
    TiledError,
> {
    match (encoding, compression) {
        (None, None) => Ok(Format::Plain),
        (Some(e), None) => if e == "csv"@ {
            Ok(Format::Csv)
        } else if e == "base64"@ {
            Ok(Format::Base64)
        } else {
            Err(TiledError::InvalidFormat(UNKNOWN_FORMAT))
        },
        (Some(e), Some(c)) => if e == "base64"@ && c == "zlib"@ {
            Ok(Format::Base64Zlib)
        } else if e == "base64"@ && c == "gzip"@ {
            Ok(Format::Base64Gzip)
        } else {
            Err(TiledError::InvalidFormat(UNKNOWN_FORMAT))
        },
        (None, Some(_)) => Err(TiledError::InvalidFormat(UNKNOWN_FORMAT)),
    }
}

/// Executable form of [`format_of`].
pub fn layer_format(encoding: &Option<String>, compression: &Option<String>) -> (result: Result<
    Format,
    TiledError,
>)
    ensures
        result == format_of(text_view(*encoding), text_view(*compression)),
{
    match (encoding, compression) {
        (None, None) => Ok(Format::Plain),
        (Some(e), None) => if same_text(e.as_str(), "csv") {
            Ok(Format::Csv)
        } else if same_text(e.as_str(), "base64") {
            Ok(Format::Base64)
        } else {
            Err(TiledError::InvalidFormat(UNKNOWN_FORMAT))
        },
        (Some(e), Some(c)) => if same_text(e.as_str(), "base64") && same_text(c.as_str(), "zlib") {
            Ok(Format::Base64Zlib)
        } else if same_text(e.as_str(), "base64") && same_text(c.as_str(), "gzip") {
            Ok(Format::Base64Gzip)
        } else {
            Err(TiledError::InvalidFormat(UNKNOWN_FORMAT))
        },
        (None, Some(_)) => Err(TiledError::InvalidFormat(UNKNOWN_FORMAT)),
    }
}

/// The stored values that a buffer of bytes holds, if it holds whole ones.
pub open spec fn bytes_values(bytes: Seq<u8>) -> Result<Seq<u32>, TiledError> {
    if bytes.len() % 4 == 0 {
        Ok(le_values(bytes))
    } else {
        Err(TiledError::InvalidFormat(WRONG_CELL_COUNT))
    }
}

/// The stored values that the text of a layer's body stands for under a
/// form, or the failure of the first step that rejects its input: the
/// numbers of a comma-separated body; else the base64 text is decoded, the
/// bytes are inflated where the form says so, and read as 32-bit values,
/// lowest byte first. The plain form has no text: it gives no value.
pub open spec fn body_values(format: Format, text: Seq<char>) -> Result<Seq<u32>, TiledError> {
    match format {
        Format::Plain => Ok(Seq::empty()),
        Format::Csv => match csv_values(text) {
            Some(values) => Ok(values),
            None => Err(TiledError::ContentDecodingError(ContentStage::Integer)),
        },
        Format::Base64 => match base64_payload(text) {
            Some(bytes) => bytes_values(bytes),
            None => Err(TiledError::ContentDecodingError(ContentStage::Base64)),
        },
        Format::Base64Zlib => match base64_payload(text) {
            Some(packed) => match zlib_inflated(packed) {
                Some(bytes) => bytes_values(bytes),
                None => Err(TiledError::ContentDecodingError(ContentStage::Zlib)),
            },
            None => Err(TiledError::ContentDecodingError(ContentStage::Base64)),
        },
        Format::Base64Gzip => match base64_payload(text) {
            Some(packed) => match gzip_inflated(packed) {
                Some(bytes) => bytes_values(bytes),
                None => Err(TiledError::ContentDecodingError(ContentStage::Gzip)),
            },
            None => Err(TiledError::ContentDecodingError(ContentStage::Base64)),
        },
    }
}

/// What a decoder of values gives, as contracts see it.
pub open spec fn values_result(result: Result<Vec<u32>, TiledError>) -> Result<
    Seq<u32>,
    TiledError,
> {
    match result {
        Ok(values) => Ok(values@),
        Err(e) => Err(e),
    }
}

/// Decodes the text of a layer's body into its stored values.
pub fn decode_body(format: Format, text: &str) -> (result: Result<Vec<u32>, TiledError>)
    ensures
        values_result(result) == body_values(format, text@),
{
    match format {
        Format::Plain => Ok(Vec::new()),
        Format::Csv => decode_csv(text),
        Format::Base64 => {
            let bytes = decode_base64(text)?;
            values_from_bytes(&bytes)
        },
        Format::Base64Zlib => {
            let packed = decode_base64(text)?;
            let bytes = decode_zlib(&packed)?;
            values_from_bytes(&bytes)
        },
        Format::Base64Gzip => {
            let packed = decode_base64(text)?;
            let bytes = decode_gzip(&packed)?;
            values_from_bytes(&bytes)
        },
    }
}

/// The byte of a 32-bit value at place `k`, counted from its lowest byte.
pub open spec fn le_byte(value: u32, k: int) -> u8 {
    if k == 0 {
        (value % 256) as u8
    } else if k == 1 {
        ((value / 256) % 256) as u8
    } else if k == 2 {
        ((value / 65536) % 256) as u8
    } else {
        ((value / 16777216) % 256) as u8
    }
}

/// The bytes that store a list of 32-bit values, four for each, lowest byte
/// first.
pub open spec fn le_bytes(values: Seq<u32>) -> Seq<u8> {
    Seq::new(4 * values.len(), |i: int| le_byte(values[i / 4], i % 4))
}

/// The four bytes of a value, read lowest byte first, give the value back.
pub proof fn lemma_le_value(value: u32)
    ensures
        le_u32(le_byte(value, 0), le_byte(value, 1), le_byte(value, 2), le_byte(value, 3))
            == value,
{
    let v = value as int;
    let b0 = v % 256;
    let b1 = (v / 256) % 256;
    let b2 = (v / 65536) % 256;
    let b3 = (v / 16777216) % 256;
    assert(v / 16777216 < 256);
    assert(v == 256 * (v / 256) + b0);
    assert(v / 256 == 256 * ((v / 256) / 256) + b1);
    assert((v / 256) / 256 == v / 65536);
    assert(v / 65536 == 256 * ((v / 65536) / 256) + b2);
    assert((v / 65536) / 256 == v / 16777216);
    assert(b0 + 256 * b1 + 65536 * b2 + 16777216 * b3 == v);
}

/// Reading the bytes that store a list of values gives the list back.
pub proof fn lemma_le_round_trip(values: Seq<u32>)
    ensures
        le_bytes(values).len() % 4 == 0,
        le_values(le_bytes(values)) == values,
{
    let bytes = le_bytes(values);
    assert(bytes.len() / 4 == values.len());
    assert forall|i: int| 0 <= i < values.len() implies #[trigger] le_values(bytes)[i]
        == values[i] by {
        lemma_le_value(values[i]);
        assert(bytes[4 * i] == le_byte(values[(4 * i) / 4], (4 * i) % 4));
        assert(bytes[4 * i + 1] == le_byte(values[(4 * i + 1) / 4], (4 * i + 1) % 4));
        assert(bytes[4 * i + 2] == le_byte(values[(4 * i + 2) / 4], (4 * i + 2) % 4));
        assert(bytes[4 * i + 3] == le_byte(values[(4 * i + 3) / 4], (4 * i + 3) % 4));
    }
    assert(le_values(bytes) =~= values);
}

/// One grid under every form decodes to the same stored values: where a
/// comma-separated body lists the values, and the base64 bodies carry the
/// bytes that store them, raw or as a zlib or gzip stream, each body decodes
/// to those values, and so to the same cells.
pub proof fn lemma_forms_agree(
    values: Seq<u32>,
    csv: Seq<char>,
    raw: Seq<char>,
    zlib: Seq<char>,
    gzip: Seq<char>,
)
    requires
        csv_values(csv) == Some(values),
        base64_payload(raw) == Some(le_bytes(values)),
        base64_payload(zlib) is Some && zlib_inflated(base64_payload(zlib)->0) == Some(
            le_bytes(values),
        ),
        base64_payload(gzip) is Some && gzip_inflated(base64_payload(gzip)->0) == Some(
            le_bytes(values),
        ),
    ensures
        body_values(Format::Csv, csv) == Ok::<Seq<u32>, TiledError>(values),
        body_values(Format::Base64, raw) == Ok::<Seq<u32>, TiledError>(values),
        body_values(Format::Base64Zlib, zlib) == Ok::<Seq<u32>, TiledError>(values),
        body_values(Format::Base64Gzip, gzip) == Ok::<Seq<u32>, TiledError>(values),
{
    lemma_le_round_trip(values);
}

/// The text of a body, from place `pos` on: that of the first text event,
/// if one comes before anything but comments and white space.
pub open spec fn body_text_from(events: Seq<XmlEvent>, pos: int) -> Option<Seq<char>>
    decreases events.len() - pos,
{
    if pos < 0 || pos >= events.len() {
        None
    } else {
        match events[pos] {
            XmlEvent::Characters(text) => Some(text@),
            XmlEvent::Other => body_text_from(events, pos + 1),
            _ => None,
        }
    }
}

/// An optional borrowed text as contracts see it.
pub open spec fn borrowed_view(text: Option<&String>) -> Option<Seq<char>> {
    match text {
        Some(t) => Some(t@),
        None => None,
    }
}

/// Finds the text of the body of the element that opens at place `open`.
pub fn body_text(events: &Vec<XmlEvent>, open: usize) -> (text: Option<&String>)
    requires
        open < events.len(),
    ensures
        borrowed_view(text) == body_text_from(events@, open + 1),
{
    let mut i: usize = open + 1;
    while i < events.len()
        invariant
            open < i,
            body_text_from(events@, i as int) == body_text_from(events@, open + 1),
        decreases events.len() - i,
    {
        match &events[i] {
            XmlEvent::Characters(text) => {
                return Some(text);
            },
            XmlEvent::Other => {},
            _ => {
                return None;
            },
        }
        i += 1;
    }
    None
}

/// What is reported where a cell of a plain body has a rejected attribute.
pub const CELL_ATTRIBUTES: &'static str = "a tile of a layer must have a valid gid";

/// What is reported where the data of a layer has a rejected attribute.
pub const DATA_ATTRIBUTES: &'static str = "data must have a valid encoding and compression";

/// What is reported where a chunk lacks an attribute.
pub const CHUNK_ATTRIBUTES: &'static str =
    "layer chunk must have x, y, width & height attributes";

/// What is reported where a layer lacks its name.
pub const LAYER_ATTRIBUTES: &'static str = "layer must have a name";

/// The attribute that a cell of a plain body declares.
pub open spec fn cell_table() -> Seq<Descriptor> {
    seq![optional("gid", Coercion::U32)]
}

/// What one child adds to the stored values of a plain body: a `tile`
/// element adds its `gid`, or 0 if it has none; any other element nothing.
pub open spec fn absorb_cell(events: Seq<XmlEvent>, child: int, values: Seq<u32>) -> Result<
    Seq<u32>,
    TiledError,
> {
    if name_at(events, child) == "tile"@ {
        match attr_values(attributes_at(events, child), cell_table(), CELL_ATTRIBUTES) {
            Err(e) => Err(e),
            Ok(v) => Ok(
                values.push(
                    match u32_at(v, 0) {
                        Some(n) => n,
                        None => 0,
                    },
                ),
            ),
        }
    } else {
        Ok(values)
    }
}

/// What the given children add, one after the other, to the stored values
/// of a plain body.
pub open spec fn fold_cells(events: Seq<XmlEvent>, children: Seq<usize>, values: Seq<u32>) -> Result<
    Seq<u32>,
    TiledError,
>
    decreases children.len(),
{
    if children.len() == 0 {
        Ok(values)
    } else {
        match absorb_cell(events, children[0] as int, values) {
            Err(e) => Err(e),
            Ok(more) => fold_cells(events, children.skip(1), more),
        }
    }
}

/// The stored values of the body of the element that opens at place `open`,
/// under the given form: those of its `tile` children for the plain form,
/// else those that its text stands for, none without a text. It fails where
/// the body is rejected, or where the element does not close.
pub open spec fn stored_values_at(events: Seq<XmlEvent>, open: int, format: Format) -> Result<
    Seq<u32>,
    TiledError,
> {
    let values = if format == Format::Plain {
        fold_cells(events, children_at(events, open), Seq::empty())
    } else {
        match body_text_from(events, open + 1) {
            Some(text) => body_values(format, text),
            None => Ok(Seq::empty()),
        }
    };
    match values {
        Err(e) => Err(e),
        Ok(v) => match element_end(events, open) {
            Err(e) => Err(e),
            Ok(_) => Ok(v),
        },
    }
}

/// Reads the stored values of the body of the element that opens at place
/// `open`.
pub fn stored_values(events: &Vec<XmlEvent>, open: usize, format: Format) -> (result: Result<
    Vec<u32>,
    TiledError,
>)
    requires
        open < events.len(),
    ensures
        values_result(result) == stored_values_at(events@, open as int, format),
{
    let found = walk(events, open);
    let mut values: Vec<u32> = Vec::new();
    match format {
        Format::Plain => {
            let mut i: usize = 0;
            assert(found.children@.skip(0) =~= found.children@);
            while i < found.children.len()
                invariant
                    i <= found.children.len(),
                    forall|k: int|
                        0 <= k < found.children@.len() ==> (#[trigger] found.children@[k])
                            < events.len(),
                    fold_cells(events@, found.children@.skip(i as int), values@) == fold_cells(
                        events@,
                        children_at(events@, open as int),
                        Seq::empty(),
                    ),
                    format == Format::Plain,
                decreases found.children.len() - i,
            {
                let child = found.children[i];
                assert(found.children@.skip(i as int).skip(1) =~= found.children@.skip(i + 1));
                if name_is(events, child, "tile") {
                    let table = vec![Descriptor::optional("gid", Coercion::U32)];
                    assert(table@ =~= cell_table());
                    let v = attrs_at(events, child, &table, CELL_ATTRIBUTES)?;
                    let gid: u32 = match take_u32(&v, 0) {
                        Some(n) => n,
                        None => 0,
                    };
                    values.push(gid);
                }
                i += 1;
            }
        },
        _ => {
            match body_text(events, open) {
                Some(text) => {
                    values = decode_body(format, text.as_str())?;
                },
                None => {},
            }
        },
    }
    match found.end {
        Err(e) => Err(e),
        Ok(_) => Ok(values),
    }
}

/// The grid that stored values make for a declared size, if there are as
/// many values as the size asks for.
pub open spec fn grid_result(values: Seq<u32>, width: u32, height: u32) -> Result<
    Seq<Seq<LayerTile>>,
    TiledError,
> {
    if values.len() == width * height {
        Ok(grid_of(values, width as nat, height as nat))
    } else {
        Err(TiledError::InvalidFormat(WRONG_CELL_COUNT))
    }
}

/// A grid that [`grid_result`] gives is complete: it has `height` rows of
/// `width` cells each, as many cells as there are stored values, and the cell
/// of row `r` and column `c` is that of the value at `r * width + c`.
pub proof fn lemma_grid_is_complete(values: Seq<u32>, width: u32, height: u32)
    requires
        grid_result(values, width, height) is Ok,
    ensures
        values.len() == width * height,
        grid_result(values, width, height)->Ok_0.len() == height,
        forall|r: int|
            0 <= r < height ==> (#[trigger] grid_result(values, width, height)->Ok_0[r]).len()
                == width,
        forall|r: int, c: int|
            0 <= r < height && 0 <= c < width ==> #[trigger] grid_result(
                values,
                width,
                height,
            )->Ok_0[r][c] == LayerTile::of_bits(values[r * width + c]),
{
}

/// The attributes that the data of a layer declares.
pub open spec fn data_table() -> Seq<Descriptor> {
    seq![optional("encoding", Coercion::Text), optional("compression", Coercion::Text)]
}

/// The form that the data element opening at place `open` declares.
pub open spec fn data_format_at(events: Seq<XmlEvent>, open: int) -> Result<Format, TiledError> {
    match attr_values(attributes_at(events, open), data_table(), DATA_ATTRIBUTES) {
        Err(e) => Err(e),
        Ok(v) => format_of(text_at(v, 0), text_at(v, 1)),
    }
}

/// Reads the form that the data element opening at place `open` declares.
pub fn data_format(events: &Vec<XmlEvent>, open: usize) -> (result: Result<Format, TiledError>)
    requires
        open < events.len(),
    ensures
        result == data_format_at(events@, open as int),
{
    let table = vec![
        Descriptor::optional("encoding", Coercion::Text),
        Descriptor::optional("compression", Coercion::Text),
    ];
    assert(table@ =~= data_table());
    let v = attrs_at(events, open, &table, DATA_ATTRIBUTES)?;
    let encoding = take_text(&v, 0);
    let compression = take_text(&v, 1);
    layer_format(&encoding, &compression)
}

/// The grid of a layer of fixed size, from the data element that opens at
/// place `open`: `height` rows of `width` cells, in the order of the body.
pub open spec fn finite_at(events: Seq<XmlEvent>, open: int, width: u32, height: u32) -> Result<
    Seq<Seq<LayerTile>>,
    TiledError,
> {
    match data_format_at(events, open) {
        Err(e) => Err(e),
        Ok(format) => match stored_values_at(events, open, format) {
            Err(e) => Err(e),
            Ok(values) => grid_result(values, width, height),
        },
    }
}

/// What a decoder of a grid gives, as contracts see it.
pub open spec fn grid_parsed(result: Result<Vec<Vec<LayerTile>>, TiledError>) -> Result<
    Seq<Seq<LayerTile>>,
    TiledError,
> {
    match result {
        Ok(rows) => Ok(grid_view(rows@)),
        Err(e) => Err(e),
    }
}

/// Reads the grid of a layer of fixed size from the data element that opens
/// at place `open`.
pub fn parse_data(events: &Vec<XmlEvent>, open: usize, width: u32, height: u32) -> (result: Result<
    Vec<Vec<LayerTile>>,
    TiledError,
>)
    requires
        open < events.len(),
    ensures
        grid_parsed(result) == finite_at(events@, open as int, width, height),
{
    let format = data_format(events, open)?;
    let values = stored_values(events, open, format)?;
    tiles_from_values(&values, width, height)
}

/// One piece of a layer without bounds: a grid of its own size at its own
/// place.
#[derive(Debug, PartialEq, Eq, Clone)]
pub struct Chunk {
    /// The column of the map at which the chunk starts.
    pub x: i32,
    /// The row of the map at which the chunk starts.
    pub y: i32,
    pub width: u32,
    pub height: u32,
    /// `height` rows of `width` cells.
    pub tiles: Vec<Vec<LayerTile>>,
}

/// A [`Chunk`] as contracts see it.
pub struct ChunkModel {
    pub x: i32,
    pub y: i32,
    pub width: u32,
    pub height: u32,
    pub tiles: Seq<Seq<LayerTile>>,
}

impl View for Chunk {
    type V = ChunkModel;

    open spec fn view(&self) -> ChunkModel {
        ChunkModel {
            x: self.x,
            y: self.y,
            width: self.width,
            height: self.height,
            tiles: grid_view(self.tiles@),
        }
    }
}

/// A list of chunks as contracts see it.
pub open spec fn chunks_view(chunks: Seq<Chunk>) -> Seq<ChunkModel> {
    Seq::new(chunks.len(), |i: int| chunks[i]@)
}

impl Chunk {
    /// The attributes that a chunk declares.
    pub open spec fn table() -> Seq<Descriptor> {
        seq![
            required("x", Coercion::I32),
            required("y", Coercion::I32),
            required("width", Coercion::U32),
            required("height", Coercion::U32),
        ]
    }

    /// The chunk that the element opening at place `open` describes, its
    /// body read under the form of the layer's data.
    pub open spec fn at(events: Seq<XmlEvent>, open: int, format: Format) -> Result<
        ChunkModel,
        TiledError,
    > {
        match attr_values(attributes_at(events, open), Chunk::table(), CHUNK_ATTRIBUTES) {
            Err(e) => Err(e),
            Ok(v) => match stored_values_at(events, open, format) {
                Err(e) => Err(e),
                Ok(values) => match grid_result(values, u32_at(v, 2)->0, u32_at(v, 3)->0) {
                    Err(e) => Err(e),
                    Ok(tiles) => Ok(
                        ChunkModel {
                            x: i32_at(v, 0)->0,
                            y: i32_at(v, 1)->0,
                            width: u32_at(v, 2)->0,
                            height: u32_at(v, 3)->0,
                            tiles,
                        },
                    ),
                },
            },
        }
    }

    /// Reads the chunk element that opens at place `open`.
    pub fn new(events: &Vec<XmlEvent>, open: usize, format: Format) -> (result: Result<
        Chunk,
        TiledError,
    >)
        requires
            open < events.len(),
        ensures
            parsed(result) == Chunk::at(events@, open as int, format),
    {
        let table = vec![
            Descriptor::required("x", Coercion::I32),
            Descriptor::required("y", Coercion::I32),
            Descriptor::required("width", Coercion::U32),
            Descriptor::required("height", Coercion::U32),
        ];
        assert(table@ =~= Chunk::table());
        let v = attrs_at(events, open, &table, CHUNK_ATTRIBUTES)?;
        let x = take_i32(&v, 0).unwrap();
        let y = take_i32(&v, 1).unwrap();
        let width = take_u32(&v, 2).unwrap();
        let height = take_u32(&v, 3).unwrap();
        let values = stored_values(events, open, format)?;
        let tiles = tiles_from_values(&values, width, height)?;
        Ok(Chunk { x, y, width, height, tiles })
    }
}

/// Every chunk that is read is complete: it holds `height` rows of `width`
/// cells each, for its own width and height.
pub proof fn lemma_chunk_is_complete(events: Seq<XmlEvent>, open: int, format: Format)
    requires
        Chunk::at(events, open, format) is Ok,
    ensures
        ({
            let chunk = Chunk::at(events, open, format)->Ok_0;
            &&& chunk.tiles.len() == chunk.height
            &&& forall|r: int| 0 <= r < chunk.height ==> (#[trigger] chunk.tiles[r]).len() == chunk.width
        }),
{
}

/// What one child adds to the chunks read so far: a `chunk` element adds its
/// chunk, any other element nothing.
pub open spec fn absorb_chunk(
    events: Seq<XmlEvent>,
    child: int,
    format: Format,
    chunks: Seq<ChunkModel>,
) -> Result<Seq<ChunkModel>, TiledError> {
    if name_at(events, child) == "chunk"@ {
        match Chunk::at(events, child, format) {
            Err(e) => Err(e),
            Ok(chunk) => Ok(chunks.push(chunk)),
        }
    } else {
        Ok(chunks)
    }
}

/// What the given children add, one after the other, to the chunks read so
/// far.
pub open spec fn fold_chunks(
    events: Seq<XmlEvent>,
    children: Seq<usize>,
    format: Format,
    chunks: Seq<ChunkModel>,
) -> Result<Seq<ChunkModel>, TiledError>
    decreases children.len(),
{
    if children.len() == 0 {
        Ok(chunks)
    } else {
        match absorb_chunk(events, children[0] as int, format, chunks) {
            Err(e) => Err(e),
            Ok(more) => fold_chunks(events, children.skip(1), format, more),
        }
    }
}

/// The chunks of a layer without bounds, from the data element that opens
/// at place `open`: one for each `chunk` child, in the order of the
/// document. Nothing is asked of how the chunks lie to each other.
pub open spec fn infinite_at(events: Seq<XmlEvent>, open: int) -> Result<
    Seq<ChunkModel>,
    TiledError,
> {
    match data_format_at(events, open) {
        Err(e) => Err(e),
        Ok(format) => match fold_chunks(events, children_at(events, open), format, Seq::empty()) {
            Err(e) => Err(e),
            Ok(chunks) => match element_end(events, open) {
                Err(e) => Err(e),
                Ok(_) => Ok(chunks),
            },
        },
    }
}

/// What a decoder of chunks gives, as contracts see it.
pub open spec fn chunks_parsed(result: Result<Vec<Chunk>, TiledError>) -> Result<
    Seq<ChunkModel>,
    TiledError,
> {
    match result {
        Ok(chunks) => Ok(chunks_view(chunks@)),
        Err(e) => Err(e),
    }
}

/// Reads the chunks of a layer without bounds from the data element that
/// opens at place `open`.
pub fn parse_infinite_data(events: &Vec<XmlEvent>, open: usize) -> (result: Result<
    Vec<Chunk>,
    TiledError,
>)
    requires
        open < events.len(),
    ensures
        chunks_parsed(result) == infinite_at(events@, open as int),
{
    let format = data_format(events, open)?;
    let found = walk(events, open);
    let mut chunks: Vec<Chunk> = Vec::new();
    let mut i: usize = 0;
    assert(found.children@.skip(0) =~= found.children@);
    assert(chunks_view(chunks@) =~= Seq::<ChunkModel>::empty());
    while i < found.children.len()
        invariant
            i <= found.children.len(),
            forall|k: int|
                0 <= k < found.children@.len() ==> (#[trigger] found.children@[k]) < events.len(),
            data_format_at(events@, open as int) == Ok::<Format, TiledError>(format),
            fold_chunks(events@, found.children@.skip(i as int), format, chunks_view(chunks@))
                == fold_chunks(events@, children_at(events@, open as int), format, Seq::empty()),
        decreases found.children.len() - i,
    {
        let child = found.children[i];
        assert(found.children@.skip(i as int).skip(1) =~= found.children@.skip(i + 1));
        if name_is(events, child, "chunk") {
            let chunk = Chunk::new(events, child, format)?;
            let ghost before = chunks_view(chunks@);
            let ghost added = chunk@;
            chunks.push(chunk);
            assert(chunks_view(chunks@) =~= before.push(added));
        }
        i += 1;
    }
    match found.end {
        Err(e) => Err(e),
        Ok(_) => Ok(chunks),
    }
}

/// The cells of a tile layer: one grid of the map's size, or, for a map
/// without bounds, chunks. Which of the two is decided once, by the map.
#[derive(Debug, PartialEq, Eq, Clone)]
pub enum LayerData {
    /// Rows of cells, the first row first and in each row the first column
    /// first.
    Finite(Vec<Vec<LayerTile>>),
    /// The chunks in the order of the document.
    Infinite(Vec<Chunk>),
}

/// A [`LayerData`] as contracts see it.
pub enum LayerDataModel {
    Finite(Seq<Seq<LayerTile>>),
    Infinite(Seq<ChunkModel>),
}

impl View for LayerData {
    type V = LayerDataModel;

    open spec fn view(&self) -> LayerDataModel {
        match self {
            LayerData::Finite(rows) => LayerDataModel::Finite(grid_view(rows@)),
            LayerData::Infinite(chunks) => LayerDataModel::Infinite(chunks_view(chunks@)),
        }
    }
}

/// The place of the last chunk that starts at the given column and row, if
/// there is one.
pub open spec fn chunk_place(chunks: Seq<Chunk>, x: i32, y: i32) -> Option<int>
    decreases chunks.len(),
{
    if chunks.len() == 0 {
        None
    } else if chunks.last().x == x && chunks.last().y == y {
        Some(chunks.len() - 1)
    } else {
        chunk_place(chunks.drop_last(), x, y)
    }
}

impl LayerData {
    /// The chunk that starts at the given column and row. Where two chunks
    /// declare the same start, the later one counts; a grid of fixed size
    /// has no chunks.
    pub fn chunk_at(&self, x: i32, y: i32) -> (chunk: Option<&Chunk>)
        ensures
            match *self {
                LayerData::Finite(_) => chunk is None,
                LayerData::Infinite(chunks) => match chunk_place(chunks@, x, y) {
                    Some(i) => chunk == Some(&chunks@[i]),
                    None => chunk is None,
                },
            },
    {
        match self {
            LayerData::Finite(_) => None,
            LayerData::Infinite(chunks) => {
                let mut i: usize = chunks.len();
                assert(chunks@.take(i as int) =~= chunks@);
                while i > 0
                    invariant
                        i <= chunks.len(),
                        *self == LayerData::Infinite(*chunks),
                        chunk_place(chunks@, x, y) == chunk_place(chunks@.take(i as int), x, y),
                    decreases i,
                {
                    assert(chunks@.take(i as int).drop_last() =~= chunks@.take(i - 1));
                    if chunks[i - 1].x == x && chunks[i - 1].y == y {
                        return Some(&chunks[i - 1]);
                    }
                    i -= 1;
                }
                None
            },
        }
    }
}

/// A tile layer of a map.
#[derive(Debug, PartialEq, Eq, Clone)]
pub struct Layer {
    pub name: String,
    /// How opaque the layer is drawn, from 0 to 1, as decimal text.
    pub opacity: String,
    pub visible: bool,
    /// The horizontal offset in pixels, as decimal text.
    pub offset_x: String,
    /// The vertical offset in pixels, as decimal text.
    pub offset_y: String,
    pub tiles: LayerData,
    pub properties: Properties,
    /// The layer's place among the layers of its map, of whatever kind.
    pub layer_index: u32,
}

/// A [`Layer`] as contracts see it.
pub struct LayerModel {
    pub name: Seq<char>,
    pub opacity: Seq<char>,
    pub visible: bool,
    pub offset_x: Seq<char>,
    pub offset_y: Seq<char>,
    pub tiles: LayerDataModel,
    pub properties: Map<Seq<char>, PropertyModel>,
    pub layer_index: u32,
}

impl View for Layer {
    type V = LayerModel;

    open spec fn view(&self) -> LayerModel {
        LayerModel {
            name: self.name@,
            opacity: self.opacity@,
            visible: self.visible,
            offset_x: self.offset_x@,
            offset_y: self.offset_y@,
            tiles: self.tiles@,
            properties: self.properties@,
            layer_index: self.layer_index,
        }
    }
}

/// The attributes that a tile layer and an image layer declare.
pub open spec fn layer_table() -> Seq<Descriptor> {
    seq![
        optional("opacity", Coercion::Text),
        optional("visible", Coercion::I32),
        optional("offsetx", Coercion::Text),
        optional("offsety", Coercion::Text),
        required("name", Coercion::Text),
    ]
}

/// Reads the attributes of the layer that opens at place `open`.
fn layer_attrs(events: &Vec<XmlEvent>, open: usize) -> (result: Result<
    Vec<Option<crate::util::Value>>,
    TiledError,
>)
    requires
        open < events.len(),
    ensures
        match result {
            Ok(values) => attr_values(
                attributes_at(events@, open as int),
                layer_table(),
                LAYER_ATTRIBUTES,
            ) == Ok::<Seq<Option<ValueModel>>, TiledError>(values_view(values@))
                && crate::util::values_fit(values_view(values@), layer_table()),
            Err(e) => attr_values(attributes_at(events@, open as int), layer_table(), LAYER_ATTRIBUTES)
                == Err::<Seq<Option<ValueModel>>, TiledError>(e),
        },
{
    let table = vec![
        Descriptor::optional("opacity", Coercion::Text),
        Descriptor::optional("visible", Coercion::I32),
        Descriptor::optional("offsetx", Coercion::Text),
        Descriptor::optional("offsety", Coercion::Text),
        Descriptor::required("name", Coercion::Text),
    ];
    assert(table@ =~= layer_table());
    attrs_at(events, open, &table, LAYER_ATTRIBUTES)
}

impl Layer {
    /// The layer that its attributes alone describe, without cells or
    /// properties. An absent opacity is `1`, an absent offset `0`; the layer
    /// is visible unless `visible` is a number other than 1.
    pub open spec fn header(v: Seq<Option<ValueModel>>, layer_index: u32) -> LayerModel {
        LayerModel {
            name: text_at(v, 4)->0,
            opacity: text_or(text_at(v, 0), "1"@),
            visible: match i32_at(v, 1) {
                Some(n) => n == 1,
                None => true,
            },
            offset_x: text_or(text_at(v, 2), "0"@),
            offset_y: text_or(text_at(v, 3), "0"@),
            tiles: LayerDataModel::Finite(Seq::empty()),
            properties: Map::empty(),
            layer_index,
        }
    }

    /// What one child makes of the layer read so far: `data` sets its
    /// cells, as chunks if the map has no bounds and else as a grid of the
    /// map's size; `properties` sets its properties; any other element
    /// changes nothing.
    pub open spec fn absorb(
        events: Seq<XmlEvent>,
        child: int,
        width: u32,
        height: u32,
        infinite: bool,
        layer: LayerModel,
    ) -> Result<LayerModel, TiledError> {
        let name = name_at(events, child);
        if name == "data"@ {
            if infinite {
                match infinite_at(events, child) {
                    Err(e) => Err(e),
                    Ok(chunks) => Ok(LayerModel { tiles: LayerDataModel::Infinite(chunks), ..layer }),
                }
            } else {
                match finite_at(events, child, width, height) {
                    Err(e) => Err(e),
                    Ok(rows) => Ok(LayerModel { tiles: LayerDataModel::Finite(rows), ..layer }),
                }
            }
        } else if name == "properties"@ {
            match Properties::at(events, child) {
                Err(e) => Err(e),
                Ok(properties) => Ok(LayerModel { properties, ..layer }),
            }
        } else {
            Ok(layer)
        }
    }

    /// What the given children make, one after the other, of the layer read
    /// so far; the first child that fails decides the failure.
    pub open spec fn fold(
        events: Seq<XmlEvent>,
        children: Seq<usize>,
        width: u32,
        height: u32,
        infinite: bool,
        layer: LayerModel,
    ) -> Result<LayerModel, TiledError>
        decreases children.len(),
    {
        if children.len() == 0 {
            Ok(layer)
        } else {
            match Layer::absorb(events, children[0] as int, width, height, infinite, layer) {
                Err(e) => Err(e),
                Ok(more) => Layer::fold(events, children.skip(1), width, height, infinite, more),
            }
        }
    }

    /// The tile layer that the element opening at place `open` describes,
    /// in a map of the given size. It fails where an attribute or a child
    /// fails, or where the element does not close.
    pub open spec fn at(
        events: Seq<XmlEvent>,
        open: int,
        width: u32,
        height: u32,
        layer_index: u32,
        infinite: bool,
    ) -> Result<LayerModel, TiledError> {
        match attr_values(attributes_at(events, open), layer_table(), LAYER_ATTRIBUTES) {
            Err(e) => Err(e),
            Ok(v) => match Layer::fold(
                events,
                children_at(events, open),
                width,
                height,
                infinite,
                Layer::header(v, layer_index),
            ) {
                Err(e) => Err(e),
                Ok(layer) => match element_end(events, open) {
                    Err(e) => Err(e),
                    Ok(_) => Ok(layer),
                },
            },
        }
    }

    /// Reads the tile layer that opens at place `open`, in a map of the
    /// given size that has bounds or not.
    pub fn new(
        events: &Vec<XmlEvent>,
        open: usize,
        width: u32,
        height: u32,
        layer_index: u32,
        infinite: bool,
    ) -> (result: Result<Layer, TiledError>)
        requires
            open < events.len(),
        ensures
            parsed(result) == Layer::at(
                events@,
                open as int,
                width,
                height,
                layer_index,
                infinite,
            ),
    {
        let v = layer_attrs(events, open)?;
        let ghost values = values_view(v@);
        let ghost header = Layer::header(values, layer_index);
        let opacity = text_or_else(take_text(&v, 0), "1");
        let visible = match take_i32(&v, 1) {
            Some(n) => n == 1,
            None => true,
        };
        let offset_x = text_or_else(take_text(&v, 2), "0");
        let offset_y = text_or_else(take_text(&v, 3), "0");
        let name = take_text(&v, 4).unwrap();
        let mut tiles = LayerData::Finite(Vec::new());
        let mut properties = Properties::new();
        let found = walk(events, open);
        let mut i: usize = 0;
        assert(found.children@.skip(0) =~= found.children@);
        assert(tiles@ == LayerDataModel::Finite(Seq::empty())) by {
            assert(grid_view(Seq::<Vec<LayerTile>>::empty()) =~= Seq::<Seq<LayerTile>>::empty());
        }
        while i < found.children.len()
            invariant
                i <= found.children.len(),
                forall|k: int|
                    0 <= k < found.children@.len() ==> (#[trigger] found.children@[k])
                        < events.len(),
                attr_values(attributes_at(events@, open as int), layer_table(), LAYER_ATTRIBUTES)
                    == Ok::<Seq<Option<ValueModel>>, TiledError>(values),
                header == Layer::header(values, layer_index),
                Layer::fold(
                    events@,
                    found.children@.skip(i as int),
                    width,
                    height,
                    infinite,
                    LayerModel { tiles: tiles@, properties: properties@, ..header },
                ) == Layer::fold(
                    events@,
                    children_at(events@, open as int),
                    width,
                    height,
                    infinite,
                    header,
                ),
            decreases found.children.len() - i,
        {
            let child = found.children[i];
            assert(found.children@.skip(i as int).skip(1) =~= found.children@.skip(i + 1));
            if name_is(events, child, "data") {
                if infinite {
                    tiles = LayerData::Infinite(parse_infinite_data(events, child)?);
                } else {
                    tiles = LayerData::Finite(parse_data(events, child, width, height)?);
                }
            } else if name_is(events, child, "properties") {
                properties = Properties::parse_xml(events, child)?;
            }
            i += 1;
        }
        match found.end {
            Err(e) => Err(e),
            Ok(_) => Ok(
                Layer {
                    name,
                    opacity,
                    visible,
                    offset_x,
                    offset_y,
                    tiles,
                    properties,
                    layer_index,
                },
            ),
        }
    }
}

/// A layer that shows one image.
#[derive(Debug, PartialEq, Eq, Clone)]
pub struct ImageLayer {
    pub name: String,
    /// How opaque the layer is drawn, from 0 to 1, as decimal text.
    pub opacity: String,
    pub visible: bool,
    /// The horizontal offset in pixels, as decimal text.
    pub offset_x: String,
    /// The vertical offset in pixels, as decimal text.
    pub offset_y: String,
    pub image: Option<Image>,
    pub properties: Properties,
    /// The layer's place among the layers of its map, of whatever kind.
    pub layer_index: u32,
}

/// An [`ImageLayer`] as contracts see it.
pub struct ImageLayerModel {
    pub name: Seq<char>,
    pub opacity: Seq<char>,
    pub visible: bool,
    pub offset_x: Seq<char>,
    pub offset_y: Seq<char>,
    pub image: Option<ImageModel>,
    pub properties: Map<Seq<char>, PropertyModel>,
    pub layer_index: u32,
}

/// An optional image as contracts see it.
pub open spec fn image_view(image: Option<Image>) -> Option<ImageModel> {
    match image {
        Some(i) => Some(i@),
        None => None,
    }
}

impl View for ImageLayer {
    type V = ImageLayerModel;

    open spec fn view(&self) -> ImageLayerModel {
        ImageLayerModel {
            name: self.name@,
            opacity: self.opacity@,
            visible: self.visible,
            offset_x: self.offset_x@,
            offset_y: self.offset_y@,
            image: image_view(self.image),
            properties: self.properties@,
            layer_index: self.layer_index,
        }
    }
}

impl ImageLayer {
    /// The layer that its attributes alone describe, without image or
    /// properties.
    pub open spec fn header(v: Seq<Option<ValueModel>>, layer_index: u32) -> ImageLayerModel {
        ImageLayerModel {
            name: text_at(v, 4)->0,
            opacity: text_or(text_at(v, 0), "1"@),
            visible: match i32_at(v, 1) {
                Some(n) => n == 1,
                None => true,
            },
            offset_x: text_or(text_at(v, 2), "0"@),
            offset_y: text_or(text_at(v, 3), "0"@),
            image: None,
            properties: Map::empty(),
            layer_index,
        }
    }

    /// What one child makes of the layer read so far: `image` sets its
    /// image, `properties` its properties, any other element changes
    /// nothing.
    pub open spec fn absorb(events: Seq<XmlEvent>, child: int, layer: ImageLayerModel) -> Result<
        ImageLayerModel,
        TiledError,
    > {
        let name = name_at(events, child);
        if name == "image"@ {
            match Image::at(events, child) {
                Err(e) => Err(e),
                Ok(image) => Ok(ImageLayerModel { image: Some(image), ..layer }),
            }
        } else if name == "properties"@ {
            match Properties::at(events, child) {
                Err(e) => Err(e),
                Ok(properties) => Ok(ImageLayerModel { properties, ..layer }),
            }
        } else {
            Ok(layer)
        }
    }

    /// What the given children make, one after the other, of the layer read
    /// so far; the first child that fails decides the failure.
    pub open spec fn fold(
        events: Seq<XmlEvent>,
        children: Seq<usize>,
        layer: ImageLayerModel,
    ) -> Result<ImageLayerModel, TiledError>
        decreases children.len(),
    {
        if children.len() == 0 {
            Ok(layer)
        } else {
            match ImageLayer::absorb(events, children[0] as int, layer) {
                Err(e) => Err(e),
                Ok(more) => ImageLayer::fold(events, children.skip(1), more),
            }
        }
    }

    /// The image layer that the element opening at place `open` describes.
    /// It fails where an attribute or a child fails, or where the element
    /// does not close.
    pub open spec fn at(events: Seq<XmlEvent>, open: int, layer_index: u32) -> Result<
        ImageLayerModel,
        TiledError,
    > {
        match attr_values(attributes_at(events, open), layer_table(), LAYER_ATTRIBUTES) {
            Err(e) => Err(e),
            Ok(v) => match ImageLayer::fold(
                events,
                children_at(events, open),
                ImageLayer::header(v, layer_index),
            ) {
                Err(e) => Err(e),
                Ok(layer) => match element_end(events, open) {
                    Err(e) => Err(e),
                    Ok(_) => Ok(layer),
                },
            },
        }
    }

    /// Reads the image layer that opens at place `open`.
    pub fn new(events: &Vec<XmlEvent>, open: usize, layer_index: u32) -> (result: Result<
        ImageLayer,
        TiledError,
    >)
        requires
            open < events.len(),
        ensures
            parsed(result) == ImageLayer::at(events@, open as int, layer_index),
    {
        let v = layer_attrs(events, open)?;
        let ghost values = values_view(v@);
        let ghost header = ImageLayer::header(values, layer_index);
        let opacity = text_or_else(take_text(&v, 0), "1");
        let visible = match take_i32(&v, 1) {
            Some(n) => n == 1,
            None => true,
        };
        let offset_x = text_or_else(take_text(&v, 2), "0");
        let offset_y = text_or_else(take_text(&v, 3), "0");
        let name = take_text(&v, 4).unwrap();
        let mut image: Option<Image> = None;
        let mut properties = Properties::new();
        let found = walk(events, open);
        let mut i: usize = 0;
        assert(found.children@.skip(0) =~= found.children@);
        while i < found.children.len()
            invariant
                i <= found.children.len(),
                forall|k: int|
                    0 <= k < found.children@.len() ==> (#[trigger] found.children@[k])
                        < events.len(),
                attr_values(attributes_at(events@, open as int), layer_table(), LAYER_ATTRIBUTES)
                    == Ok::<Seq<Option<ValueModel>>, TiledError>(values),
                header == ImageLayer::header(values, layer_index),
                ImageLayer::fold(
                    events@,
                    found.children@.skip(i as int),
                    ImageLayerModel { image: image_view(image), properties: properties@, ..header },
                ) == ImageLayer::fold(events@, children_at(events@, open as int), header),
            decreases found.children.len() - i,
        {
            let child = found.children[i];
            assert(found.children@.skip(i as int).skip(1) =~= found.children@.skip(i + 1));
            if name_is(events, child, "image") {
                image = Some(Image::new(events, child)?);
            } else if name_is(events, child, "properties") {
                properties = Properties::parse_xml(events, child)?;
            }
            i += 1;
        }
        match found.end {
            Err(e) => Err(e),
            Ok(_) => Ok(
                ImageLayer {
                    name,
                    opacity,
                    visible,
                    offset_x,
                    offset_y,
                    image,
                    properties,
                    layer_index,
                },
            ),
        }
    }
}

} // verus!
