use std::io::Write;
use tiled::cache::ResourceCache;
use tiled::error::{ContentStage, TiledError};
use tiled::layers::{
    decode_base64, decode_body, decode_csv, decode_gzip, decode_zlib, layer_format, tiles_from_values,
    values_from_bytes, Format, LayerData, LayerTile,
};
use tiled::map::{Parsed, TileMap};
use tiled::properties::Color;
use tiled::text::{chars_of, parse_i32, parse_u32, same_text, split_ranges, trim_range};
use tiled::tile::Gid;

fn zlib_stream(data: &[u8]) -> Vec<u8> {
    let mut encoder = libflate::zlib::Encoder::new(Vec::new()).unwrap();
    encoder.write_all(data).unwrap();
    encoder.finish().into_result().unwrap()
}

fn gzip_stream(data: &[u8]) -> Vec<u8> {
    let mut encoder = libflate::gzip::Encoder::new(Vec::new()).unwrap();
    encoder.write_all(data).unwrap();
    encoder.finish().into_result().unwrap()
}

fn bytes_of(values: &[u32]) -> Vec<u8> {
    let mut bytes = Vec::new();
    for v in values {
        bytes.extend_from_slice(&v.to_le_bytes());
    }
    bytes
}

fn small_map(data: &str) -> String {
    format!(
        "<map version=\"1.0\" orientation=\"orthogonal\" width=\"3\" height=\"2\" tilewidth=\"8\" tileheight=\"8\"><layer name=\"ground\">{}</layer></map>",
        data
    )
}

fn complete(document: &str) -> TileMap {
    match TileMap::parse_reader(document.as_bytes(), None, &ResourceCache::new()).unwrap() {
        Parsed::Complete(map) => map,
        Parsed::NeedsTileset { .. } => panic!("no tileset file is named"),
    }
}

fn failure(document: &str) -> TiledError {
    TileMap::parse_reader(document.as_bytes(), None, &ResourceCache::new()).unwrap_err()
}

#[test]
fn stored_value_splits_into_id_and_flips() {
    let tile = LayerTile::new(0x8000_0005);
    assert_eq!(tile, LayerTile { gid: Gid(5), flip_h: false, flip_v: false, flip_d: true });
    let tile = LayerTile::new(0x4000_0005);
    assert_eq!(tile, LayerTile { gid: Gid(5), flip_h: false, flip_v: true, flip_d: false });
    let tile = LayerTile::new(0x2000_0005);
    assert_eq!(tile, LayerTile { gid: Gid(5), flip_h: true, flip_v: false, flip_d: false });
    let tile = LayerTile::new(0x1FFF_FFFF);
    assert_eq!(tile, LayerTile { gid: Gid(0x1FFF_FFFF), flip_h: false, flip_v: false, flip_d: false });
    let tile = LayerTile::new(0);
    assert_eq!(tile, LayerTile { gid: Gid(0), flip_h: false, flip_v: false, flip_d: false });
}

#[test]
fn stored_value_survives_split_and_pack() {
    for bits in [0u32, 1, 35, 0x1FFF_FFFF, 0x2000_0000, 0x4000_0000, 0x8000_0000, 0xE000_0003, 0xA000_0101, u32::MAX] {
        assert_eq!(LayerTile::new(bits).to_bits(), bits);
    }
}

#[test]
fn cells_differing_in_top_bits_share_their_id() {
    let plain = LayerTile::new(0x0000_0011);
    let flipped = LayerTile::new(0xE000_0011);
    assert_eq!(plain.gid, flipped.gid);
    assert!(flipped.flip_d && flipped.flip_h && flipped.flip_v);
    assert!(!plain.flip_d && !plain.flip_h && !plain.flip_v);
}

#[test]
fn csv_body_gives_its_numbers() {
    assert_eq!(decode_csv("1,2,3"), Ok(vec![1, 2, 3]));
    assert_eq!(decode_csv("\n 1, 2 ,\n3\n"), Ok(vec![1, 2, 3]));
    assert_eq!(decode_csv("+7"), Ok(vec![7]));
    assert_eq!(decode_csv("007,4294967295"), Ok(vec![7, 4294967295]));
    assert_eq!(decode_csv("\u{a0}5\u{2003}"), Ok(vec![5]));
}

#[test]
fn csv_body_with_a_bad_token_is_rejected() {
    let rejected = Err(TiledError::ContentDecodingError(ContentStage::Integer));
    assert_eq!(decode_csv("1,,2"), rejected);
    assert_eq!(decode_csv(""), rejected);
    assert_eq!(decode_csv("1,2,"), rejected);
    assert_eq!(decode_csv("4294967296"), rejected);
    assert_eq!(decode_csv("-1"), rejected);
    assert_eq!(decode_csv("1 2"), rejected);
    assert_eq!(decode_csv("0x10"), rejected);
    assert_eq!(decode_csv("+"), rejected);
}

#[test]
fn base64_body_gives_its_bytes() {
    assert_eq!(decode_base64("AQAAAA=="), Ok(vec![1, 0, 0, 0]));
    assert_eq!(decode_base64("\n   AQAAAAIAAAA=\n  "), Ok(vec![1, 0, 0, 0, 2, 0, 0, 0]));
    assert_eq!(decode_base64(""), Ok(vec![]));
    assert_eq!(decode_base64("aGVsbG8gd29ybGQ="), Ok(b"hello world".to_vec()));
}

#[test]
fn base64_body_that_is_not_base64_is_rejected() {
    let rejected = Err(TiledError::ContentDecodingError(ContentStage::Base64));
    assert_eq!(decode_base64("!!!!"), rejected);
    assert_eq!(decode_base64("AQAA AA=="), rejected);
    assert_eq!(decode_base64("AQAAAA=\u{e9}"), rejected);
    assert_eq!(decode_base64("A"), rejected);
}

#[test]
fn zlib_stream_is_inflated() {
    let data: Vec<u8> = (0..=255u8).cycle().take(5000).collect();
    assert_eq!(decode_zlib(&zlib_stream(&data)), Ok(data));
    assert_eq!(decode_zlib(&zlib_stream(&[])), Ok(vec![]));
}

#[test]
fn broken_zlib_stream_is_rejected() {
    let rejected = Err(TiledError::ContentDecodingError(ContentStage::Zlib));
    assert_eq!(decode_zlib(&vec![1, 2, 3, 4]), rejected);
    assert_eq!(decode_zlib(&vec![]), rejected);
    let mut cut = zlib_stream(&[9u8; 400]);
    cut.truncate(6);
    assert_eq!(decode_zlib(&cut), rejected);
    assert_eq!(decode_zlib(&gzip_stream(&[1, 2, 3])), rejected);
}

#[test]
fn gzip_stream_is_inflated() {
    let data: Vec<u8> = (0..=255u8).rev().cycle().take(3000).collect();
    assert_eq!(decode_gzip(&gzip_stream(&data)), Ok(data));
}

#[test]
fn broken_gzip_stream_is_rejected() {
    let rejected = Err(TiledError::ContentDecodingError(ContentStage::Gzip));
    assert_eq!(decode_gzip(&vec![0x1f, 0x8b, 0, 0]), rejected);
    assert_eq!(decode_gzip(&vec![]), rejected);
    assert_eq!(decode_gzip(&zlib_stream(&[1, 2, 3])), rejected);
}

#[test]
fn bytes_are_read_lowest_byte_first() {
    assert_eq!(values_from_bytes(&vec![1, 0, 0, 0, 0, 1, 0, 0]), Ok(vec![1, 256]));
    assert_eq!(values_from_bytes(&vec![0x78, 0x56, 0x34, 0x12]), Ok(vec![0x1234_5678]));
    assert_eq!(values_from_bytes(&vec![0xFF, 0xFF, 0xFF, 0xFF]), Ok(vec![u32::MAX]));
    assert_eq!(values_from_bytes(&vec![]), Ok(vec![]));
}

#[test]
fn bytes_that_hold_no_whole_values_are_rejected() {
    let rejected = TiledError::InvalidFormat("The layer data does not match the declared size.");
    assert_eq!(values_from_bytes(&vec![1, 0, 0, 0, 0]), Err(rejected.clone()));
    assert_eq!(values_from_bytes(&vec![1]), Err(rejected));
}

#[test]
fn values_fill_the_grid_row_by_row() {
    let rows = tiles_from_values(&vec![1, 2, 3, 4, 5, 0x8000_0006], 3, 2).unwrap();
    assert_eq!(rows.len(), 2);
    assert_eq!(rows[0], vec![LayerTile::new(1), LayerTile::new(2), LayerTile::new(3)]);
    assert_eq!(rows[1], vec![LayerTile::new(4), LayerTile::new(5), LayerTile::new(0x8000_0006)]);
    assert_eq!(rows[1][2].gid, Gid(6));
    assert!(rows[1][2].flip_d);
    let columns = tiles_from_values(&vec![1, 2, 3, 4, 5, 6], 2, 3).unwrap();
    assert_eq!(columns.len(), 3);
    assert_eq!(columns[2][1].gid, Gid(6));
    assert_eq!(tiles_from_values(&vec![], 0, 0), Ok(vec![]));
    assert_eq!(tiles_from_values(&vec![], 0, 2), Ok(vec![vec![], vec![]]));
}

#[test]
fn wrong_number_of_values_is_rejected() {
    let rejected = TiledError::InvalidFormat("The layer data does not match the declared size.");
    assert_eq!(tiles_from_values(&vec![1, 2, 3, 4, 5], 3, 2), Err(rejected.clone()));
    assert_eq!(tiles_from_values(&vec![1, 2, 3, 4, 5, 6, 7], 3, 2), Err(rejected.clone()));
    assert_eq!(tiles_from_values(&vec![], 1, 1), Err(rejected.clone()));
    assert_eq!(tiles_from_values(&vec![1], 65536, 65536), Err(rejected));
}

#[test]
fn encoding_and_compression_name_the_form() {
    let text = |s: &str| Some(s.to_string());
    assert_eq!(layer_format(&None, &None), Ok(Format::Plain));
    assert_eq!(layer_format(&text("csv"), &None), Ok(Format::Csv));
    assert_eq!(layer_format(&text("base64"), &None), Ok(Format::Base64));
    assert_eq!(layer_format(&text("base64"), &text("zlib")), Ok(Format::Base64Zlib));
    assert_eq!(layer_format(&text("base64"), &text("gzip")), Ok(Format::Base64Gzip));
    let unknown = Err(TiledError::InvalidFormat("Unknown encoding or compression of the layer data"));
    assert_eq!(layer_format(&text("hex"), &None), unknown);
    assert_eq!(layer_format(&text("csv"), &text("zlib")), unknown);
    assert_eq!(layer_format(&text("base64"), &text("zstd")), unknown);
    assert_eq!(layer_format(&text("base64"), &text("")), unknown);
    assert_eq!(layer_format(&None, &text("zlib")), unknown);
}

#[test]
fn body_decodes_step_by_step() {
    let values = vec![1u32, 0x4000_0002, 300];
    let bytes = bytes_of(&values);
    assert_eq!(decode_body(Format::Csv, "1,1073741826,300"), Ok(values.clone()));
    assert_eq!(decode_body(Format::Base64, &base64::encode(&bytes)), Ok(values.clone()));
    assert_eq!(decode_body(Format::Base64Zlib, &base64::encode(zlib_stream(&bytes))), Ok(values.clone()));
    assert_eq!(decode_body(Format::Base64Gzip, &base64::encode(gzip_stream(&bytes))), Ok(values.clone()));
    assert_eq!(decode_body(Format::Plain, "whatever"), Ok(vec![]));
    assert_eq!(
        decode_body(Format::Base64Zlib, &base64::encode(&bytes)),
        Err(TiledError::ContentDecodingError(ContentStage::Zlib))
    );
    assert_eq!(
        decode_body(Format::Base64Gzip, "%%%"),
        Err(TiledError::ContentDecodingError(ContentStage::Base64))
    );
    assert_eq!(
        decode_body(Format::Base64, &base64::encode(&bytes[..5])),
        Err(TiledError::InvalidFormat("The layer data does not match the declared size."))
    );
}

#[test]
fn every_form_of_one_grid_decodes_to_the_same_cells() {
    let values = vec![1u32, 2, 0x8000_0003, 0, 0x6000_0005, 6];
    let bytes = bytes_of(&values);
    let mut plain = String::from("<data>");
    for v in &values {
        plain.push_str(&format!("<tile gid=\"{}\"/>", v));
    }
    plain.push_str("</data>");
    let documents = [
        small_map(&plain),
        small_map("<data encoding=\"csv\">1,2,2147483651,\n0,1610612741,6</data>"),
        small_map(&format!("<data encoding=\"base64\">{}</data>", base64::encode(&bytes))),
        small_map(&format!(
            "<data encoding=\"base64\" compression=\"zlib\">\n  {}\n</data>",
            base64::encode(zlib_stream(&bytes))
        )),
        small_map(&format!(
            "<data encoding=\"base64\" compression=\"gzip\">{}</data>",
            base64::encode(gzip_stream(&bytes))
        )),
    ];
    let expected = LayerData::Finite(vec![
        vec![LayerTile::new(1), LayerTile::new(2), LayerTile::new(0x8000_0003)],
        vec![LayerTile::new(0), LayerTile::new(0x6000_0005), LayerTile::new(6)],
    ]);
    for document in &documents {
        let map = complete(document);
        assert_eq!(map.layers.len(), 1);
        assert_eq!(map.layers[0].tiles, expected);
    }
}

#[test]
fn plain_cell_without_gid_is_empty() {
    let map = complete(&small_map(
        "<data><tile gid=\"4\"/><tile/><tile gid=\"1\"/><tile/><tile/><tile gid=\"9\"/></data>",
    ));
    let expected = LayerData::Finite(vec![
        vec![LayerTile::new(4), LayerTile::new(0), LayerTile::new(1)],
        vec![LayerTile::new(0), LayerTile::new(0), LayerTile::new(9)],
    ]);
    assert_eq!(map.layers[0].tiles, expected);
}

#[test]
fn layer_with_wrong_cell_count_fails() {
    let rejected = TiledError::InvalidFormat("The layer data does not match the declared size.");
    assert_eq!(failure(&small_map("<data encoding=\"csv\">1,2,3,4,5</data>")), rejected);
    assert_eq!(failure(&small_map("<data encoding=\"csv\"></data>")), rejected);
    assert_eq!(failure(&small_map("<data encoding=\"base64\">AQAAAA==</data>")), rejected);
    assert_eq!(failure(&small_map("<data><tile gid=\"1\"/></data>")), rejected);
}

#[test]
fn layer_with_unknown_encoding_fails() {
    assert_eq!(
        failure(&small_map("<data encoding=\"hex\">00</data>")),
        TiledError::InvalidFormat("Unknown encoding or compression of the layer data")
    );
}

#[test]
fn layer_with_broken_body_fails_at_its_stage() {
    assert_eq!(
        failure(&small_map("<data encoding=\"csv\">1,2,x,4,5,6</data>")),
        TiledError::ContentDecodingError(ContentStage::Integer)
    );
    assert_eq!(
        failure(&small_map("<data encoding=\"base64\">***</data>")),
        TiledError::ContentDecodingError(ContentStage::Base64)
    );
    assert_eq!(
        failure(&small_map("<data encoding=\"base64\" compression=\"zlib\">AQAAAA==</data>")),
        TiledError::ContentDecodingError(ContentStage::Zlib)
    );
    assert_eq!(
        failure(&small_map("<data encoding=\"base64\" compression=\"gzip\">AQAAAA==</data>")),
        TiledError::ContentDecodingError(ContentStage::Gzip)
    );
}

#[test]
fn chunks_keep_their_own_size_and_place() {
    let first = base64::encode(bytes_of(&[1, 2, 3, 4]));
    let second = base64::encode(bytes_of(&[5, 6]));
    let document = format!(
        "<map version=\"1.0\" orientation=\"orthogonal\" width=\"3\" height=\"2\" tilewidth=\"8\" tileheight=\"8\" infinite=\"1\"><layer name=\"ground\"><data encoding=\"base64\"><chunk x=\"-2\" y=\"4\" width=\"2\" height=\"2\">{}</chunk><chunk x=\"0\" y=\"4\" width=\"2\" height=\"1\">{}</chunk></data></layer></map>",
        first, second
    );
    let map = complete(&document);
    assert!(map.infinite);
    let tiles = &map.layers[0].tiles;
    match tiles {
        LayerData::Infinite(chunks) => assert_eq!(chunks.len(), 2),
        LayerData::Finite(_) => panic!("the map has no bounds"),
    }
    let chunk = tiles.chunk_at(-2, 4).unwrap();
    assert_eq!((chunk.x, chunk.y, chunk.width, chunk.height), (-2, 4, 2, 2));
    assert_eq!(chunk.tiles, vec![vec![LayerTile::new(1), LayerTile::new(2)], vec![LayerTile::new(3), LayerTile::new(4)]]);
    let chunk = tiles.chunk_at(0, 4).unwrap();
    assert_eq!((chunk.width, chunk.height), (2, 1));
    assert_eq!(chunk.tiles, vec![vec![LayerTile::new(5), LayerTile::new(6)]]);
    assert!(tiles.chunk_at(2, 4).is_none());
}

#[test]
fn later_chunk_at_the_same_place_counts() {
    let document = "<map version=\"1.0\" orientation=\"orthogonal\" width=\"1\" height=\"1\" tilewidth=\"8\" tileheight=\"8\" infinite=\"1\"><layer name=\"ground\"><data encoding=\"csv\"><chunk x=\"0\" y=\"0\" width=\"1\" height=\"1\">1</chunk><chunk x=\"0\" y=\"0\" width=\"1\" height=\"1\">2</chunk></data></layer></map>";
    let map = complete(document);
    assert_eq!(map.layers[0].tiles.chunk_at(0, 0).unwrap().tiles[0][0].gid, Gid(2));
}

#[test]
fn chunk_with_wrong_cell_count_fails() {
    let document = "<map version=\"1.0\" orientation=\"orthogonal\" width=\"1\" height=\"1\" tilewidth=\"8\" tileheight=\"8\" infinite=\"1\"><layer name=\"ground\"><data encoding=\"csv\"><chunk x=\"0\" y=\"0\" width=\"2\" height=\"2\">1,2,3</chunk></data></layer></map>";
    assert_eq!(
        failure(document),
        TiledError::InvalidFormat("The layer data does not match the declared size.")
    );
}

#[test]
fn chunk_without_its_place_fails() {
    let document = "<map version=\"1.0\" orientation=\"orthogonal\" width=\"1\" height=\"1\" tilewidth=\"8\" tileheight=\"8\" infinite=\"1\"><layer name=\"ground\"><data encoding=\"csv\"><chunk x=\"0\" width=\"1\" height=\"1\">1</chunk></data></layer></map>";
    assert_eq!(
        failure(document),
        TiledError::MalformedAttributes {
            attribute: "y",
            message: "layer chunk must have x, y, width & height attributes"
        }
    );
}

#[test]
fn finite_layer_has_no_chunks() {
    let map = complete(&small_map("<data encoding=\"csv\">1,2,3,4,5,6</data>"));
    assert!(map.layers[0].tiles.chunk_at(0, 0).is_none());
}

#[test]
fn decimal_numbers_are_read_exactly() {
    assert_eq!(parse_u32("0"), Some(0));
    assert_eq!(parse_u32("35"), Some(35));
    assert_eq!(parse_u32("+35"), Some(35));
    assert_eq!(parse_u32("4294967295"), Some(u32::MAX));
    assert_eq!(parse_u32("4294967296"), None);
    assert_eq!(parse_u32("99999999999999999999999"), None);
    assert_eq!(parse_u32(""), None);
    assert_eq!(parse_u32(" 1"), None);
    assert_eq!(parse_u32("1.0"), None);
    assert_eq!(parse_u32("-0"), None);
    assert_eq!(parse_i32("-32"), Some(-32));
    assert_eq!(parse_i32("+32"), Some(32));
    assert_eq!(parse_i32("-0"), Some(0));
    assert_eq!(parse_i32("2147483647"), Some(i32::MAX));
    assert_eq!(parse_i32("2147483648"), None);
    assert_eq!(parse_i32("-2147483648"), Some(i32::MIN));
    assert_eq!(parse_i32("-2147483649"), None);
    assert_eq!(parse_i32("-"), None);
    assert_eq!(parse_i32("--1"), None);
    assert_eq!(parse_i32("1e3"), None);
}

#[test]
fn trimming_and_splitting_find_the_pieces() {
    let chars = chars_of("  ab, c ,,d\n");
    assert_eq!(chars.len(), 12);
    assert_eq!(trim_range(&chars, 0, chars.len()), (2, 11));
    assert_eq!(split_ranges(&chars, 0, chars.len(), ','), vec![(0, 4), (5, 8), (9, 9), (10, 12)]);
    assert_eq!(trim_range(&chars, 5, 8), (6, 7));
    assert_eq!(trim_range(&chars, 9, 9), (9, 9));
    let blank = chars_of(" \t\r\n");
    assert_eq!(trim_range(&blank, 0, 4), (4, 4));
    assert_eq!(split_ranges(&chars_of(""), 0, 0, ','), vec![(0, 0)]);
}

#[test]
fn texts_compare_by_their_characters() {
    assert!(same_text("tileset", "tileset"));
    assert!(!same_text("tileset", "tilesets"));
    assert!(!same_text("tileset", "Tileset"));
    assert!(same_text("", ""));
    assert!(same_text("gr\u{fc}n", "gr\u{fc}n"));
    assert!(!same_text("gr\u{fc}n", "grun"));
}

#[test]
fn colours_are_read_from_hexadecimal() {
    assert_eq!(Color::parse("#ff8000"), Some(Color { alpha: 255, red: 255, green: 128, blue: 0 }));
    assert_eq!(Color::parse("FF8000"), Some(Color { alpha: 255, red: 255, green: 128, blue: 0 }));
    assert_eq!(Color::parse("#80ff8001"), Some(Color { alpha: 128, red: 255, green: 128, blue: 1 }));
    assert_eq!(Color::parse("#ff80"), None);
    assert_eq!(Color::parse("#gg8000"), None);
    assert_eq!(Color::parse(""), None);
    assert_eq!(Color::parse("##ff8000"), None);
}
