use swfmod::archive::{is_ba2_path, Ba2Path};
use swfmod::batch::{plan_mod, BatchError};
use swfmod::config::{ActionScriptInsertMode, BatchProcessConfig, FileConfig, ModConfig, SwfMapping, SymbolBinding};
use swfmod::model::{Header, Movie, NamedId, Rect, Tag};
use swfmod::script::{
    contains_class_name, extract_class_declaration, extract_package_declaration, first_abc_payload, insert_compiled_script,
    merge_symbol_bindings, prepare_script_source,
};
use swfmod::svg::{path_input, read_svg_paths};

fn movie(tags: Vec<Tag>) -> Movie {
    Movie { header: Header { swf_version: 10, frame_size: Rect { x_min: 0, x_max: 1, y_min: 0, y_max: 1 }, frame_rate: 256, frame_count: 1 }, tags }
}

fn abc(data: &[u8]) -> Tag {
    Tag::DoAbc { header: None, data: data.to_vec() }
}

#[test]
fn package_declaration_is_extracted() {
    let src = "  package com.example.ui {\n class A {}\n}";
    assert_eq!(extract_package_declaration(src), Some("package com.example.ui".to_string()));
    assert_eq!(extract_package_declaration("class A {}"), None);
    assert_eq!(extract_package_declaration("package x"), None);
}

#[test]
fn class_declaration_stops_at_extends_or_implements() {
    assert_eq!(extract_class_declaration("public class Foo extends Bar {"), Some("class Foo".to_string()));
    assert_eq!(extract_class_declaration("class Foo implements IBar {"), Some("class Foo".to_string()));
    assert_eq!(extract_class_declaration("class Foo\n{"), Some("class Foo".to_string()));
    assert_eq!(extract_class_declaration("var x = 1;"), None);
}

#[test]
fn source_gets_new_package_and_class() {
    let src = "package old.pkg {\npublic class Old extends Sprite {\n}\n}";
    let out = prepare_script_source(src, ActionScriptInsertMode::Replace, &Some("New".to_string()), &Some("new.pkg".to_string()));
    assert_eq!(out, "package new.pkg  {\npublic class New  extends Sprite {\n}\n}");
}

#[test]
fn source_without_package_is_wrapped() {
    let out = prepare_script_source("class A {}", ActionScriptInsertMode::Add, &Some("B".to_string()), &Some("p".to_string()));
    assert_eq!(out, "package p {\nclass A {}\n}");
}

#[test]
fn class_name_search_is_byte_level() {
    assert!(contains_class_name(b"\x01\x02MyClass\x00", "MyClass"));
    assert!(!contains_class_name(b"MyClas", "MyClass"));
    assert!(contains_class_name(b"abc", ""));
    assert!(contains_class_name("caf\u{e9}".as_bytes(), "\u{e9}"));
}

#[test]
fn add_mode_appends_script() {
    let mut m = movie(vec![abc(b"one")]);
    insert_compiled_script(&mut m, ActionScriptInsertMode::Add, &None, vec![7]);
    assert_eq!(m.tags, vec![abc(b"one"), abc(&[7])]);
}

#[test]
fn replace_mode_finds_class_or_appends() {
    let mut m = movie(vec![abc(b"first"), abc(b"has Target in it")]);
    insert_compiled_script(&mut m, ActionScriptInsertMode::Replace, &Some("Target".to_string()), vec![1]);
    assert_eq!(m.tags, vec![abc(b"first"), abc(&[1])]);
    insert_compiled_script(&mut m, ActionScriptInsertMode::Replace, &Some("Missing".to_string()), vec![2]);
    assert_eq!(m.tags.len(), 3);
    insert_compiled_script(&mut m, ActionScriptInsertMode::Replace, &None, vec![3]);
    assert_eq!(m.tags[0], abc(&[3]));
}

#[test]
fn payload_of_first_script() {
    assert_eq!(first_abc_payload(movie(vec![Tag::DoAction { actions: vec![] }, abc(b"x"), abc(b"y")])), Some(b"x".to_vec()));
    assert_eq!(first_abc_payload(movie(vec![])), None);
}

#[test]
fn bindings_override_same_id() {
    let mut m = movie(vec![Tag::SymbolClass {
        symbols: vec![NamedId { id: 1, name: "A".to_string() }, NamedId { id: 2, name: "B".to_string() }],
    }]);
    merge_symbol_bindings(&mut m, vec![SymbolBinding { symbol_id: 2, class_name: "C".to_string() }]);
    assert_eq!(m.tags, vec![Tag::SymbolClass {
        symbols: vec![NamedId { id: 1, name: "A".to_string() }, NamedId { id: 2, name: "C".to_string() }],
    }]);
    let mut bare = movie(vec![]);
    merge_symbol_bindings(&mut bare, vec![SymbolBinding { symbol_id: 0, class_name: "Main".to_string() }]);
    assert_eq!(bare.tags, vec![Tag::SymbolClass { symbols: vec![NamedId { id: 0, name: "Main".to_string() }] }]);
}

#[test]
fn archive_locators() {
    let p = Ba2Path::from_string("Interface.ba2//Interface/HUDMenu.swf").unwrap();
    assert_eq!(p.archive_path, "Interface.ba2");
    assert_eq!(p.file_path, "Interface/HUDMenu.swf");
    assert!(Ba2Path::from_string("plain/path.swf").is_none());
    assert!(Ba2Path::from_string("a//b//c").is_none());
    assert!(is_ba2_path("x//y"));
    assert!(!is_ba2_path("x/y"));
}

#[test]
fn svg_paths_are_read_with_their_attributes() {
    let svg = r##"<svg><g transform="translate(5,5)"><path d="M0 0 L10 0" fill="#ff0000" fill-opacity="0.5"/><path fill="blue"/></g></svg>"##;
    let paths = read_svg_paths(svg).unwrap();
    assert_eq!(paths.len(), 1);
    assert_eq!(paths[0].data, "M0 0 L10 0");
    assert_eq!(paths[0].group_transform.as_deref(), Some("translate(5,5)"));
    assert_eq!(paths[0].transform, None);
    assert_eq!(paths[0].fill.as_deref(), Some("#ff0000"));
    assert_eq!(paths[0].fill_opacity.as_deref(), Some("0.5"));
    assert!(read_svg_paths("<svg><path d=").is_err());
}

#[test]
fn path_colours_are_parsed() {
    let svg = r##"<svg><path d="M0 0" fill="#ff8000" stroke="none"/></svg>"##;
    let paths = read_svg_paths(svg).unwrap();
    let input = path_input(&paths[0], 1_000_000, 1_000_000, 20, vec![]);
    assert_eq!(input.fill, Some(swfmod::model::Rgb { r: 255, g: 128, b: 0 }));
    assert_eq!(input.stroke, None);
}

#[test]
fn group_transform_applies_only_inside_the_group() {
    let svg = r##"<svg><g transform="scale(2)"><g transform="translate(1,1)"><g><path d="M1 1" transform="rotate(5)"/></g></g><path d="M2 2"/></g><path d="M3 3"></path></svg>"##;
    let paths = read_svg_paths(svg).unwrap();
    assert_eq!(paths.len(), 3);
    assert_eq!(paths[0].group_transform.as_deref(), Some("translate(1,1)"));
    assert_eq!(paths[0].transform.as_deref(), Some("rotate(5)"));
    assert_eq!(paths[1].group_transform.as_deref(), Some("scale(2)"));
    assert_eq!(paths[2].group_transform, None);
}

#[test]
fn batch_mods_are_planned() {
    let config = BatchProcessConfig {
        config_file: "mods/batch.json".to_string(),
        output_directory: "out".to_string(),
        ba2_path: Some("Data/Interface.ba2".to_string()),
        swf_mappings: vec![SwfMapping { mod_name: "hud".to_string(), swf_path: "game/Interface/HUDMenu.swf".to_string() }],
    };
    let archive_mod = ModConfig {
        ba2: Some(true),
        name: "Interface".to_string(),
        files: Some(vec![FileConfig { path: "//Interface/Pipboy.swf".to_string(), config: "pipboy.json".to_string() }]),
        config: None,
    };
    let jobs = plan_mod(&archive_mod, &config).unwrap();
    assert_eq!(jobs.len(), 1);
    assert_eq!(jobs[0].input, "Data/Interface.ba2//Interface/Pipboy.swf");
    assert_eq!(jobs[0].file_name, "Pipboy.swf");
    assert_eq!(jobs[0].config, "pipboy.json");
    let plain = ModConfig { ba2: None, name: "hud".to_string(), files: None, config: Some("hud.json".to_string()) };
    let jobs = plan_mod(&plain, &config).unwrap();
    assert_eq!((jobs[0].input.as_str(), jobs[0].file_name.as_str()), ("game/Interface/HUDMenu.swf", "HUDMenu.swf"));
    let unknown = ModConfig { ba2: Some(false), name: "other".to_string(), files: None, config: Some("x.json".to_string()) };
    assert_eq!(plan_mod(&unknown, &config), Err(BatchError::NoMapping("other".to_string())));
    let no_archive = BatchProcessConfig { ba2_path: None, ..config };
    assert_eq!(plan_mod(&archive_mod, &no_archive), Err(BatchError::MissingArchive));
    let nameless = ModConfig {
        ba2: Some(true),
        name: "x".to_string(),
        files: Some(vec![FileConfig { path: "..".to_string(), config: "c.json".to_string() }]),
        config: None,
    };
    let with_archive = BatchProcessConfig { ba2_path: Some("a.ba2".to_string()), ..no_archive };
    assert_eq!(plan_mod(&nameless, &with_archive), Err(BatchError::InvalidPath("..".to_string())));
    let windows = ModConfig { ba2: None, name: "win".to_string(), files: None, config: Some("w.json".to_string()) };
    let mapped = BatchProcessConfig {
        swf_mappings: vec![SwfMapping { mod_name: "win".to_string(), swf_path: "C:\\Games\\menu.swf\\".to_string() }],
        ..with_archive
    };
    assert_eq!(plan_mod(&windows, &mapped).unwrap()[0].file_name, "menu.swf");
}

#[test]
fn class_declaration_cuts_at_the_first_keyword() {
    assert_eq!(extract_class_declaration("class Foo implements Iextends {"), Some("class Foo".to_string()));
    assert_eq!(extract_class_declaration("class Foo extends Bimplements {"), Some("class Foo".to_string()));
    let out = prepare_script_source("class Old implements IFooextends {}", ActionScriptInsertMode::Replace, &Some("New".to_string()), &None);
    assert_eq!(out, "class New  implements IFooextends {}");
}
