use std::sync::Arc;
use tiled::cache::ResourceCache;
use tiled::error::TiledError;
use tiled::events::read_events;
use tiled::map::{insert_tileset, Parsed, TileMap};
use tiled::tile::Gid;
use tiled::tileset::{sibling, MapTileset, Resolution, Tileset};

fn tileset_file(name: &str, tilecount: u32) -> String {
    format!(
        "<?xml version=\"1.0\"?><tileset name=\"{}\" tilewidth=\"16\" tileheight=\"16\" tilecount=\"{}\" spacing=\"1\"><image source=\"{}.png\" width=\"64\" height=\"64\"/><tile id=\"2\" type=\"b\"/><tile id=\"0\" type=\"a\"/><tile id=\"2\" type=\"c\"/></tileset>",
        name, tilecount, name
    )
}

fn map_with(children: &str) -> String {
    format!(
        "<map version=\"1.4\" orientation=\"orthogonal\" width=\"1\" height=\"1\" tilewidth=\"16\" tileheight=\"16\">{}</map>",
        children
    )
}

fn embedded(first_gid: u32, name: &str, tilecount: u32) -> String {
    format!(
        "<tileset firstgid=\"{}\" name=\"{}\" tilewidth=\"16\" tileheight=\"16\" tilecount=\"{}\"/>",
        first_gid, name, tilecount
    )
}

fn complete(document: &str, path: Option<&str>, cache: &ResourceCache) -> TileMap {
    match TileMap::parse_reader(document.as_bytes(), path, cache).unwrap() {
        Parsed::Complete(map) => map,
        Parsed::NeedsTileset { path, .. } => panic!("the cache lacks {}", path),
    }
}

fn plain_tileset(first_gid: u32, tilecount: u32) -> MapTileset {
    let document = tileset_file("t", tilecount);
    let tileset = Tileset::parse_reader(document.as_bytes(), Gid(first_gid), None).unwrap();
    MapTileset { first_gid: Gid(first_gid), tileset: Arc::new(tileset) }
}

#[test]
fn tileset_document_is_read() {
    let tileset = Tileset::parse_reader(tileset_file("terrain", 16).as_bytes(), Gid(5), Some("maps/terrain.tsx")).unwrap();
    assert_eq!(tileset.first_gid, Gid(5));
    assert_eq!(tileset.name, "terrain");
    assert_eq!((tileset.tile_width, tileset.tile_height), (16, 16));
    assert_eq!((tileset.spacing, tileset.margin, tileset.tilecount), (1, 0, 16));
    assert_eq!(tileset.images.len(), 1);
    assert_eq!(tileset.images[0].source, "terrain.png");
    assert_eq!(tileset.tiles.len(), 3);
    assert_eq!(tileset.source, Some("maps/terrain.tsx".to_string()));
    let events = read_events(tileset_file("terrain", 16).as_bytes());
    assert_eq!(Tileset::new_external(&events, Gid(5), Some("maps/terrain.tsx")), Ok(tileset));
}

#[test]
fn tileset_document_without_tileset_fails() {
    assert_eq!(
        Tileset::parse_reader(b"<map/>", Gid(1), None),
        Err(TiledError::PrematureEnd("Tileset Document ended before map was parsed"))
    );
    assert!(matches!(
        Tileset::parse_reader(b"<tileset name=", Gid(1), None),
        Err(TiledError::XmlDecodingError(_))
    ));
    assert_eq!(
        Tileset::parse_reader(b"<tileset name=\"t\" tilewidth=\"1\" tileheight=\"1\"/>", Gid(1), None),
        Err(TiledError::MalformedAttributes {
            attribute: "tilecount",
            message: "tileset must have a firstgid, name tile width and height with correct types"
        })
    );
}

#[test]
fn tileset_range_holds_its_ids() {
    let tileset = Tileset::parse_reader(tileset_file("t", 4).as_bytes(), Gid(10), None).unwrap();
    assert!(!tileset.contains_tile(Gid(9)));
    assert!(tileset.contains_tile(Gid(10)));
    assert!(tileset.contains_tile(Gid(13)));
    assert!(!tileset.contains_tile(Gid(14)));
    assert!(!tileset.contains_tile(Gid(0)));
    let last = Tileset::parse_reader(tileset_file("t", u32::MAX).as_bytes(), Gid(2), None).unwrap();
    assert!(last.contains_tile(Gid(u32::MAX)));
    assert!(!last.contains_tile(Gid(1)));
}

#[test]
fn recorded_tile_is_found_by_its_global_id() {
    let tileset = Tileset::parse_reader(tileset_file("t", 4).as_bytes(), Gid(10), None).unwrap();
    assert_eq!(tileset.get_tile_by_gid(Gid(10)).unwrap().tile_type, Some("a".to_string()));
    assert_eq!(tileset.get_tile_by_gid(Gid(12)).unwrap().tile_type, Some("b".to_string()));
    assert!(tileset.get_tile_by_gid(Gid(11)).is_none());
    assert!(tileset.get_tile_by_gid(Gid(9)).is_none());
    assert!(tileset.get_tile_by_gid(Gid(0)).is_none());
}

#[test]
fn sibling_path_lies_in_the_directory_of_the_map() {
    assert_eq!(sibling("assets/map.tmx", "tilesheet.tsx"), "assets/tilesheet.tsx");
    assert_eq!(sibling("map.tmx", "tilesheet.tsx"), "tilesheet.tsx");
    assert_eq!(sibling("/a/b/map.tmx", "../sets/t.tsx"), "/a/b/../sets/t.tsx");
    assert_eq!(sibling("a/b/", "t.tsx"), "a/b/t.tsx");
    assert_eq!(sibling("a/map.tmx", "/abs/t.tsx"), "/abs/t.tsx");
    assert_eq!(sibling("", "t.tsx"), "t.tsx");
    assert_eq!(sibling("d\u{e9}j\u{e0}/vu.tmx", "t.tsx"), "d\u{e9}j\u{e0}/t.tsx");
}

#[test]
fn reference_without_location_is_unresolvable() {
    let document = map_with("<tileset firstgid=\"1\" source=\"t.tsx\"/>");
    let mut cache = ResourceCache::new();
    Tileset::load_external(&mut cache, "t.tsx", tileset_file("t", 4).as_bytes(), Gid(1)).unwrap();
    let error = TileMap::parse_reader(document.as_bytes(), None, &cache).unwrap_err();
    assert_eq!(
        error,
        TiledError::UnresolvableReference(
            "Maps with external tilesets must know their file location.  See parse_with_path(Path)."
        )
    );
    assert!(!matches!(error, TiledError::IoError(_)));
    let events = read_events(b"<tileset firstgid=\"1\" source=\"t.tsx\"/>");
    assert_eq!(Tileset::parse_xml(&events, 1, None, &cache), Err(error.clone()));
    assert_eq!(Tileset::parse_xml_reference(&events, 1, None, &cache), Err(error));
}

#[test]
fn reference_without_first_gid_names_the_attribute() {
    let events = read_events(b"<tileset source=\"t.tsx\"/>");
    assert_eq!(
        Tileset::parse_xml(&events, 1, Some("m.tmx"), &ResourceCache::new()),
        Err(TiledError::MalformedAttributes {
            attribute: "firstgid",
            message: "tileset must have a firstgid, name tile width and height with correct types"
        })
    );
}

#[test]
fn reference_asks_for_the_file_beside_the_map() {
    let document = map_with("<tileset firstgid=\"7\" source=\"tilesheet.tsx\"/>");
    let mut cache = ResourceCache::new();
    assert_eq!(
        TileMap::parse_reader(document.as_bytes(), Some("assets/map.tmx"), &cache),
        Ok(Parsed::NeedsTileset { path: "assets/tilesheet.tsx".to_string(), first_gid: Gid(7) })
    );
    let loaded =
        Tileset::load_external(&mut cache, "assets/tilesheet.tsx", tileset_file("sheet", 4).as_bytes(), Gid(7)).unwrap();
    assert_eq!(loaded.source, Some("assets/tilesheet.tsx".to_string()));
    let map = complete(&document, Some("assets/map.tmx"), &cache);
    assert_eq!(map.source, Some("assets/map.tmx".to_string()));
    assert_eq!(map.tilesets.len(), 1);
    assert_eq!(map.tilesets[0].first_gid, Gid(7));
    assert_eq!(map.tilesets[0].tileset.source, Some("assets/tilesheet.tsx".to_string()));
    assert_eq!(map.tilesets[0].tileset.name, "sheet");
    assert!(Arc::ptr_eq(&map.tilesets[0].tileset, &loaded));
}

#[test]
fn embedded_tileset_takes_the_location_of_its_map() {
    let document = map_with(&embedded(3, "inner", 8));
    let cache = ResourceCache::new();
    let map = complete(&document, Some("assets/map.tmx"), &cache);
    assert_eq!(map.tilesets[0].first_gid, Gid(3));
    assert_eq!(map.tilesets[0].tileset.first_gid, Gid(3));
    assert_eq!(map.tilesets[0].tileset.source, Some("assets/map.tmx".to_string()));
    let map = complete(&document, None, &cache);
    assert_eq!(map.tilesets[0].tileset.source, None);
    let events = read_events(embedded(3, "inner", 8).as_bytes());
    match Tileset::parse_xml(&events, 1, None, &cache).unwrap() {
        Resolution::Ready(tileset) => assert_eq!(tileset.tileset.name, "inner"),
        Resolution::Missing { .. } => panic!("the tileset is held in the element"),
    }
    assert_eq!(Tileset::parse_xml_embedded(&events, 1, Some("m.tmx")).unwrap().source, Some("m.tmx".to_string()));
}

#[test]
fn producer_runs_once_for_a_path() {
    let mut cache = ResourceCache::new();
    let mut calls = 0;
    let first = cache
        .get_or_try_insert_tileset_with("a/t.tsx".to_string(), || {
            calls += 1;
            Tileset::parse_reader(tileset_file("first", 4).as_bytes(), Gid(1), Some("a/t.tsx"))
        })
        .unwrap();
    let second = cache
        .get_or_try_insert_tileset_with("a/t.tsx".to_string(), || {
            calls += 1;
            Tileset::parse_reader(tileset_file("second", 9).as_bytes(), Gid(5), Some("a/t.tsx"))
        })
        .unwrap();
    assert_eq!(calls, 1);
    assert!(Arc::ptr_eq(&first, &second));
    assert_eq!(second.name, "first");
    let found = cache.get_tileset("a/t.tsx").unwrap();
    assert!(Arc::ptr_eq(&first, &found));
    assert!(cache.get_tileset("a/other.tsx").is_none());
    let other = cache
        .get_or_try_insert_tileset_with("a/other.tsx".to_string(), || {
            calls += 1;
            Tileset::parse_reader(tileset_file("other", 2).as_bytes(), Gid(1), None)
        })
        .unwrap();
    assert_eq!(calls, 2);
    assert_eq!(other.name, "other");
    assert!(Arc::ptr_eq(&cache.get_tileset("a/t.tsx").unwrap(), &first));
}

#[test]
fn failed_producer_enters_nothing() {
    let mut cache = ResourceCache::new();
    let failed = cache.get_or_try_insert_tileset_with("t.tsx".to_string(), || {
        Err(TiledError::IoError("no such file".to_string()))
    });
    assert_eq!(failed, Err(TiledError::IoError("no such file".to_string())));
    assert!(cache.get_tileset("t.tsx").is_none());
    let failed = Tileset::load_external(&mut cache, "t.tsx", b"<tileset", Gid(1));
    assert!(matches!(failed, Err(TiledError::XmlDecodingError(_))));
    assert!(cache.get_tileset("t.tsx").is_none());
    let loaded = Tileset::load_external(&mut cache, "t.tsx", tileset_file("t", 4).as_bytes(), Gid(1)).unwrap();
    assert!(Arc::ptr_eq(&cache.get_tileset("t.tsx").unwrap(), &loaded));
}

#[test]
fn file_is_read_once_for_a_cache() {
    let mut cache = ResourceCache::new();
    let first = Tileset::load_external(&mut cache, "t.tsx", tileset_file("t", 4).as_bytes(), Gid(1)).unwrap();
    let second = Tileset::load_external(&mut cache, "t.tsx", b"not a tileset at all", Gid(9)).unwrap();
    assert!(Arc::ptr_eq(&first, &second));
    assert_eq!(second.first_gid, Gid(1));
}

#[test]
fn maps_share_a_cached_tileset_under_their_own_first_gid() {
    let mut cache = ResourceCache::new();
    let one = map_with("<tileset firstgid=\"1\" source=\"t.tsx\"/>");
    let two = map_with(&format!("{}<tileset firstgid=\"40\" source=\"t.tsx\"/>", embedded(1, "own", 39)));
    let loaded = Tileset::load_external(&mut cache, "maps/t.tsx", tileset_file("t", 4).as_bytes(), Gid(1)).unwrap();
    let first = complete(&one, Some("maps/one.tmx"), &cache);
    let second = complete(&two, Some("maps/two.tmx"), &cache);
    assert_eq!(first.tilesets[0].first_gid, Gid(1));
    assert_eq!(second.tilesets[1].first_gid, Gid(40));
    assert!(Arc::ptr_eq(&first.tilesets[0].tileset, &loaded));
    assert!(Arc::ptr_eq(&second.tilesets[1].tileset, &loaded));
    assert_eq!(second.tilesets[1].tileset.first_gid, Gid(1));
    assert!(second.tilesets[1].contains_tile(Gid(43)));
    assert!(!second.tilesets[1].contains_tile(Gid(44)));
    assert!(!second.tilesets[1].contains_tile(Gid(2)));
    assert_eq!(second.tileset_by_gid(Gid(41)).unwrap().first_gid, Gid(40));
    assert_eq!(second.tilesets[1].get_tile_by_gid(Gid(42)).unwrap().tile_type, Some("b".to_string()));
    assert_eq!(second.tilesets[1].get_tile_by_gid(Gid(40)).unwrap().tile_type, Some("a".to_string()));
    assert!(second.tilesets[1].get_tile_by_gid(Gid(41)).is_none());
    assert!(second.tilesets[1].get_tile_by_gid(Gid(39)).is_none());
    assert_eq!(loaded.get_tile(2).unwrap().tile_type, Some("b".to_string()));
}

#[test]
fn tilesets_are_kept_in_the_order_of_their_first_gids() {
    let document = map_with(&format!(
        "{}{}{}{}",
        embedded(20, "c", 5),
        embedded(1, "a", 10),
        embedded(11, "b", 9),
        embedded(20, "d", 1)
    ));
    let map = complete(&document, None, &ResourceCache::new());
    let names: Vec<&str> = map.tilesets.iter().map(|t| t.tileset.name.as_str()).collect();
    assert_eq!(names, vec!["a", "b", "c", "d"]);
    let mut tilesets = vec![plain_tileset(1, 4), plain_tileset(9, 4)];
    insert_tileset(&mut tilesets, plain_tileset(5, 4));
    insert_tileset(&mut tilesets, plain_tileset(0, 1));
    insert_tileset(&mut tilesets, plain_tileset(9, 2));
    let order: Vec<(u32, u32)> = tilesets.iter().map(|t| (t.first_gid.0, t.tileset.tilecount)).collect();
    assert_eq!(order, vec![(0, 1), (1, 4), (5, 4), (9, 4), (9, 2)]);
}

#[test]
fn lookup_finds_the_tileset_of_a_global_id() {
    let document = map_with(&format!(
        "{}{}{}",
        embedded(30, "c", 5),
        embedded(1, "a", 10),
        embedded(11, "b", 9)
    ));
    let map = complete(&document, None, &ResourceCache::new());
    let name = |gid: u32| map.tileset_by_gid(Gid(gid)).map(|t| t.tileset.name.as_str());
    assert_eq!(name(0), None);
    assert_eq!(name(1), Some("a"));
    assert_eq!(name(10), Some("a"));
    assert_eq!(name(11), Some("b"));
    assert_eq!(name(19), Some("b"));
    assert_eq!(name(20), None);
    assert_eq!(name(29), None);
    assert_eq!(name(30), Some("c"));
    assert_eq!(name(34), Some("c"));
    assert_eq!(name(35), None);
    assert_eq!(name(u32::MAX), None);
    let empty = complete(&map_with(""), None, &ResourceCache::new());
    assert!(empty.tileset_by_gid(Gid(1)).is_none());
    assert!(empty.tileset_by_gid(Gid(0)).is_none());
}

#[test]
fn lookup_of_the_empty_id_finds_nothing() {
    let document = map_with(&embedded(0, "zero", 10));
    let map = complete(&document, None, &ResourceCache::new());
    assert!(map.tilesets[0].contains_tile(Gid(0)));
    assert!(map.tileset_by_gid(Gid(0)).is_none());
    assert_eq!(map.tileset_by_gid(Gid(3)).unwrap().tileset.name, "zero");
}

#[test]
fn earlier_failure_wins_over_a_missing_tileset() {
    let document = map_with("<layer/><tileset firstgid=\"1\" source=\"t.tsx\"/>");
    assert_eq!(
        TileMap::parse_reader(document.as_bytes(), Some("m.tmx"), &ResourceCache::new()),
        Err(TiledError::MalformedAttributes { attribute: "name", message: "layer must have a name" })
    );
    let document = map_with("<tileset firstgid=\"1\" source=\"t.tsx\"/><layer/>");
    assert_eq!(
        TileMap::parse_reader(document.as_bytes(), Some("m.tmx"), &ResourceCache::new()),
        Ok(Parsed::NeedsTileset { path: "t.tsx".to_string(), first_gid: Gid(1) })
    );
}
