use std::io::Write;
use tiled::cache::ResourceCache;
use tiled::error::TiledError;
use tiled::layers::{LayerData, LayerTile};
use tiled::map::{Parsed, TileMap};
use tiled::properties::PropertyValue;
use tiled::tile::Gid;
use tiled::tileset::{MapTileset, Tileset};

const TILESET_BODY: &str = r#"
  <properties>
   <property name="tileset property" value="tsp"/>
  </properties>
  <image source="tilesheet.png" width="448" height="192"/>
  <tile id="1">
   <properties>
    <property name="a tile property" value="123"/>
   </properties>
  </tile>
"#;

fn tilesheet_tsx() -> String {
    format!(
        "<?xml version=\"1.0\" encoding=\"UTF-8\"?>\n<tileset name=\"tilesheet\" tilewidth=\"32\" tileheight=\"32\" tilecount=\"84\" columns=\"14\">{}</tileset>\n",
        TILESET_BODY
    )
}

fn embedded_tileset() -> String {
    format!(
        " <tileset firstgid=\"1\" name=\"tilesheet\" tilewidth=\"32\" tileheight=\"32\" tilecount=\"84\" columns=\"14\">{}</tileset>\n",
        TILESET_BODY
    )
}

fn external_tileset() -> String {
    " <tileset firstgid=\"1\" source=\"tilesheet.tsx\"/>\n".to_string()
}

/// The stored values of the grid that the map documents of these tests hold:
/// 100 rows of 100 cells.
fn grid_values() -> Vec<u32> {
    let mut values = vec![0u32; 100 * 100];
    values[0] = 35;
    values[100] = 17;
    values[200] = 0;
    values[201] = 17;
    for column in 0..100 {
        values[50 * 100 + column] = 1 + (column as u32 % 80);
    }
    values
}

fn le_bytes(values: &[u32]) -> Vec<u8> {
    let mut bytes = Vec::new();
    for v in values {
        bytes.extend_from_slice(&v.to_le_bytes());
    }
    bytes
}

fn zlib(data: &[u8]) -> Vec<u8> {
    let mut encoder = libflate::zlib::Encoder::new(Vec::new()).unwrap();
    encoder.write_all(data).unwrap();
    encoder.finish().into_result().unwrap()
}

fn gzip(data: &[u8]) -> Vec<u8> {
    let mut encoder = libflate::gzip::Encoder::new(Vec::new()).unwrap();
    encoder.write_all(data).unwrap();
    encoder.finish().into_result().unwrap()
}

fn csv(values: &[u32], width: usize) -> String {
    let mut text = String::from("\n");
    for (i, v) in values.iter().enumerate() {
        text.push_str(&v.to_string());
        if i + 1 < values.len() {
            text.push(',');
        }
        if (i + 1) % width == 0 {
            text.push('\n');
        }
    }
    text
}

fn map_document(size: u32, tileset: &str, data_attributes: &str, body: &str) -> String {
    format!(
        "<?xml version=\"1.0\" encoding=\"UTF-8\"?>\n<map version=\"1.0\" orientation=\"orthogonal\" renderorder=\"right-down\" width=\"{size}\" height=\"{size}\" tilewidth=\"32\" tileheight=\"32\" nextobjectid=\"1\">\n{tileset} <layer name=\"Tile Layer 1\" width=\"{size}\" height=\"{size}\">\n  <data{data_attributes}>\n   {body}\n  </data>\n </layer>\n</map>\n"
    )
}

fn tiled_base64(tileset: &str) -> String {
    let body = base64::encode(le_bytes(&grid_values()));
    map_document(100, tileset, " encoding=\"base64\"", &body)
}

fn tiled_base64_zlib() -> String {
    let body = base64::encode(zlib(&le_bytes(&grid_values())));
    map_document(100, &embedded_tileset(), " encoding=\"base64\" compression=\"zlib\"", &body)
}

fn tiled_base64_gzip() -> String {
    let body = base64::encode(gzip(&le_bytes(&grid_values())));
    map_document(100, &embedded_tileset(), " encoding=\"base64\" compression=\"gzip\"", &body)
}

fn tiled_csv() -> String {
    let body = csv(&grid_values(), 100);
    map_document(100, &embedded_tileset(), " encoding=\"csv\"", &body)
}

/// Reads a map as a program around the library does: whenever the map asks
/// for a tileset file, the file is taken from `files` and entered into the
/// cache, and the map is read again.
fn load(
    document: &str,
    path: Option<&str>,
    files: &[(&str, String)],
    cache: &mut ResourceCache,
) -> Result<TileMap, TiledError> {
    loop {
        match TileMap::parse_reader(document.as_bytes(), path, cache)? {
            Parsed::Complete(map) => return Ok(map),
            Parsed::NeedsTileset { path: wanted, first_gid } => {
                let file = files.iter().find(|(name, _)| *name == wanted);
                let bytes = match file {
                    Some((_, text)) => text.as_bytes(),
                    None => {
                        return Err(TiledError::IoError(format!(
                            "External tileset file not found: {:?}",
                            wanted
                        )))
                    }
                };
                Tileset::load_external(cache, &wanted, bytes, first_gid)?;
            }
        }
    }
}

fn parse_map_without_source(document: &str) -> Result<TileMap, TiledError> {
    load(document, None, &[], &mut ResourceCache::new())
}

fn parse_file(path: &str, document: &str) -> Result<TileMap, TiledError> {
    let files = [("assets/tilesheet.tsx", tilesheet_tsx())];
    load(document, Some(path), &files, &mut ResourceCache::new())
}

fn assert_eq_map_without_source(r: &TileMap, e: &TileMap) {
    assert_eq!(r.version, e.version);
    assert_eq!(r.orientation, e.orientation);
    assert_eq!(r.width, e.width);
    assert_eq!(r.height, e.height);
    assert_eq!(r.tile_width, e.tile_width);
    assert_eq!(r.tile_height, e.tile_height);
    assert_eq!(r.layers, e.layers);
    assert_eq!(r.image_layers, e.image_layers);
    assert_eq!(r.object_groups, e.object_groups);
    assert_eq!(r.properties, e.properties);
    assert_eq!(r.background_color, e.background_color);
    assert_eq!(r.infinite, e.infinite);
    assert_eq!(r.tilesets.len(), e.tilesets.len());
    r.tilesets
        .iter()
        .zip(e.tilesets.iter())
        .for_each(|(t, t2)| assert_eq_map_tileset_without_source(t, t2));
}

fn assert_eq_map_tileset_without_source(t2: &MapTileset, t: &MapTileset) {
    assert_eq!(t2.first_gid, t.first_gid);
    assert_eq_tileset_without_source(&t2.tileset, &t.tileset);
}

fn assert_eq_tileset_without_source(t2: &Tileset, t: &Tileset) {
    assert_eq!(t2.first_gid, t.first_gid);
    assert_eq!(t2.name, t.name);
    assert_eq!(t2.tile_width, t.tile_width);
    assert_eq!(t2.tile_height, t.tile_height);
    assert_eq!(t2.spacing, t.spacing);
    assert_eq!(t2.margin, t.margin);
    assert_eq!(t2.tilecount, t.tilecount);
    assert_eq!(t2.images, t.images);
    assert_eq!(t2.tiles, t.tiles);
    assert_eq!(t2.properties, t.properties);
}

#[test]
fn test_gzip_and_zlib_encoded_and_raw_are_the_same() {
    let z = parse_map_without_source(&tiled_base64_zlib()).unwrap();
    let g = parse_map_without_source(&tiled_base64_gzip()).unwrap();
    let r = parse_map_without_source(&tiled_base64(&embedded_tileset())).unwrap();
    let c = parse_map_without_source(&tiled_csv()).unwrap();
    assert_eq!(z, g);
    assert_eq!(z, r);
    assert_eq!(z, c);

    if let LayerData::Finite(tiles) = &c.layers[0].tiles {
        assert_eq!(tiles.len(), 100);
        assert_eq!(tiles[0].len(), 100);
        assert_eq!(tiles[99].len(), 100);
        assert_eq!(tiles[0][0].gid, Gid(35));
        assert_eq!(tiles[1][0].gid, Gid(17));
        assert_eq!(tiles[2][0].gid, Gid(0));
        assert_eq!(tiles[2][1].gid, Gid(17));
        assert!(tiles[99].iter().map(|t| t.gid).all(|g| g == Gid::empty()));
    } else {
        assert!(false, "It is wrongly recognised as an infinite map");
    }
}

#[test]
fn test_external_tileset() {
    let r = parse_map_without_source(&tiled_base64(&embedded_tileset())).unwrap();
    let e = parse_file(
        "assets/tiled_base64_external.tmx",
        &tiled_base64(&external_tileset()),
    )
    .unwrap();
    // Compare everything BUT source
    assert_eq_map_without_source(&r, &e);
}

#[test]
fn test_just_tileset() {
    let r = parse_file("assets/tiled_base64.tmx", &tiled_base64(&embedded_tileset())).unwrap();
    let path = "assets/tilesheet.tsx";
    let t = Tileset::parse_reader(tilesheet_tsx().as_bytes(), Gid(1), Some(path)).unwrap();
    let t2 = &r.tilesets[0];
    // Compare everything BUT source
    assert_eq_tileset_without_source(&t, &t2.tileset);
}

fn infinite_document() -> String {
    let chunk = base64::encode(zlib(&le_bytes(&vec![7u32; 32 * 32])));
    let mut chunks = String::new();
    for (x, y) in [(0, 0), (-32, 0), (0, 32), (-32, 32)] {
        chunks.push_str(&format!(
            "   <chunk x=\"{}\" y=\"{}\" width=\"32\" height=\"32\">\n    {}\n   </chunk>\n",
            x, y, chunk
        ));
    }
    format!(
        "<?xml version=\"1.0\" encoding=\"UTF-8\"?>\n<map version=\"1.2\" orientation=\"orthogonal\" width=\"32\" height=\"32\" tilewidth=\"32\" tileheight=\"32\" infinite=\"1\">\n{} <layer id=\"1\" name=\"Tile Layer 1\" width=\"32\" height=\"32\">\n  <data encoding=\"base64\" compression=\"zlib\">\n{}  </data>\n </layer>\n</map>\n",
        embedded_tileset(),
        chunks
    )
}

#[test]
fn test_infinite_tileset() {
    let r = parse_file("assets/tiled_base64_zlib_infinite.tmx", &infinite_document()).unwrap();

    if let LayerData::Infinite(chunks) = &r.layers[0].tiles {
        assert_eq!(chunks.len(), 4);

        let tiles = &r.layers[0].tiles;
        assert_eq!(tiles.chunk_at(0, 0).unwrap().width, 32);
        assert_eq!(tiles.chunk_at(0, 0).unwrap().height, 32);
        assert_eq!(tiles.chunk_at(-32, 0).unwrap().width, 32);
        assert_eq!(tiles.chunk_at(0, 32).unwrap().height, 32);
        assert_eq!(tiles.chunk_at(-32, 32).unwrap().height, 32);
    } else {
        assert!(false, "It is wrongly recognised as a finite map");
    }
}

#[test]
fn test_sources() {
    let external = parse_file(
        "assets/tiled_base64_external.tmx",
        &tiled_base64(&external_tileset()),
    )
    .unwrap();
    assert_eq!(
        external.source,
        Some("assets/tiled_base64_external.tmx".to_owned())
    );
    assert_eq!(
        external.tilesets[0].tileset.source,
        Some("assets/tilesheet.tsx".to_owned())
    );

    let embedded = parse_map_without_source(&tiled_base64(&embedded_tileset())).unwrap();
    assert_eq!(embedded.source, None);
    assert_eq!(embedded.tilesets[0].tileset.source, None);
}

#[test]
fn test_external_tileset_from_embedded_map() {
    match parse_map_without_source(&tiled_base64(&external_tileset())).unwrap_err() {
        TiledError::UnresolvableReference(err) if err == "Maps with external tilesets must know their file location.  See parse_with_path(Path)." => (),
        _ => panic!()
    }
}

fn image_layers_document() -> String {
    "<?xml version=\"1.0\" encoding=\"UTF-8\"?>\n<map version=\"1.0\" orientation=\"orthogonal\" width=\"10\" height=\"10\" tilewidth=\"32\" tileheight=\"32\">\n <imagelayer name=\"Image Layer 1\"/>\n <imagelayer name=\"Image Layer 2\">\n  <image source=\"tilesheet.png\" width=\"448\" height=\"192\"/>\n </imagelayer>\n</map>\n".to_string()
}

#[test]
fn test_image_layers() {
    let r = parse_map_without_source(&image_layers_document()).unwrap();
    assert_eq!(r.image_layers.len(), 2);
    {
        let first = &r.image_layers[0];
        assert_eq!(first.name, "Image Layer 1");
        assert!(
            first.image.is_none(),
            "{}'s image should be None",
            first.name
        );
    }
    {
        let second = &r.image_layers[1];
        assert_eq!(second.name, "Image Layer 2");
        let image = second
            .image
            .as_ref()
            .expect(&format!("{}'s image shouldn't be None", second.name));
        assert_eq!(image.source, "tilesheet.png");
        assert_eq!(image.width, 448);
        assert_eq!(image.height, 192);
    }
}

#[test]
fn test_tile_property() {
    let r = parse_map_without_source(&tiled_base64(&embedded_tileset())).unwrap();
    let prop_value: String = if let Some(&PropertyValue::StringValue(ref v)) =
        r.tilesets[0].tileset.tiles[0].properties.get("a tile property")
    {
        v.clone()
    } else {
        String::new()
    };
    assert_eq!("123", prop_value);
}

fn object_groups_document() -> String {
    "<?xml version=\"1.0\" encoding=\"UTF-8\"?>\n<map version=\"1.0\" orientation=\"orthogonal\" width=\"10\" height=\"10\" tilewidth=\"32\" tileheight=\"32\">\n <objectgroup name=\"Object Layer 1\">\n  <properties>\n   <property name=\"an object group property\" type=\"bool\" value=\"true\"/>\n  </properties>\n  <object id=\"1\" x=\"69.3333\" y=\"80\" width=\"138.667\" height=\"92\"/>\n </objectgroup>\n</map>\n".to_string()
}

#[test]
fn test_object_group_property() {
    let r = parse_map_without_source(&object_groups_document()).unwrap();
    let prop_value: bool = if let Some(&PropertyValue::BoolValue(ref v)) = r.object_groups[0]
        .properties
        .get("an object group property")
    {
        *v
    } else {
        false
    };
    assert!(prop_value);
}
#[test]
fn test_tileset_property() {
    let r = parse_map_without_source(&tiled_base64(&embedded_tileset())).unwrap();
    let prop_value: String = if let Some(&PropertyValue::StringValue(ref v)) =
        r.tilesets[0].tileset.properties.get("tileset property")
    {
        v.clone()
    } else {
        String::new()
    };
    assert_eq!("tsp", prop_value);
}

fn flipped_document() -> String {
    let all = LayerTile { gid: Gid(3), flip_h: true, flip_v: true, flip_d: true }.to_bits();
    let v = LayerTile { gid: Gid(3), flip_h: false, flip_v: true, flip_d: false }.to_bits();
    let h = LayerTile { gid: Gid(3), flip_h: true, flip_v: false, flip_d: false }.to_bits();
    let d = LayerTile { gid: Gid(3), flip_h: false, flip_v: false, flip_d: true }.to_bits();
    map_document(2, &embedded_tileset(), " encoding=\"csv\"", &csv(&[all, v, h, d], 2))
}

#[test]
fn test_flipped_gid() {
    let r = parse_file("assets/tiled_flipped.tmx", &flipped_document()).unwrap();

    if let LayerData::Finite(tiles) = &r.layers[0].tiles {
        let t1 = tiles[0][0];
        let t2 = tiles[0][1];
        let t3 = tiles[1][0];
        let t4 = tiles[1][1];
        assert_eq!(t1.gid, t2.gid);
        assert_eq!(t2.gid, t3.gid);
        assert_eq!(t3.gid, t4.gid);
        assert!(t1.flip_d);
        assert!(t1.flip_h);
        assert!(t1.flip_v);
        assert!(!t2.flip_d);
        assert!(!t2.flip_h);
        assert!(t2.flip_v);
        assert!(!t3.flip_d);
        assert!(t3.flip_h);
        assert!(!t3.flip_v);
        assert!(t4.flip_d);
        assert!(!t4.flip_h);
        assert!(!t4.flip_v);
    } else {
        assert!(false, "It is wrongly recognised as an infinite map");
    }
}

fn ldk_document() -> String {
    let mut values = vec![0u32; 64];
    values[8] = 1;
    "<?xml version=\"1.0\"?>\n<map version=\"1.4\" tiledversion=\"1.4.2\" orientation=\"orthogonal\" renderorder=\"right-down\" width=\"8\" height=\"8\" tilewidth=\"16\" tileheight=\"16\" infinite=\"0\">\n <layer id=\"1\" name=\"IntGrid\" width=\"8\" height=\"8\" opacity=\"1\" offsetx=\"0\" offsety=\"0\">\n  <data encoding=\"csv\">".to_string()
        + &csv(&values, 8).trim().to_string()
        + "</data>\n </layer>\n</map>\n"
}

#[test]
fn test_ldk_export() {
    let r = parse_file("assets/ldk_tiled_export.tmx", &ldk_document()).unwrap();
    if let LayerData::Finite(tiles) = &r.layers[0].tiles {
        assert_eq!(tiles.len(), 8);
        assert_eq!(tiles[0].len(), 8);
        assert_eq!(tiles[0][0].gid, Gid::empty());
        assert_eq!(tiles[1][0].gid, Gid(1));
    } else {
        assert!(false, "It is wrongly recognised as an infinite map");
    }
}
