//! Reading state in its sidecar file.

use svreader::docstate::{DocState, Numerals};
use svreader::lua::{parse_lua_return_table, write_lua_table, LuaError, LuaKey, LuaTable, LuaValue};
use svreader::number::Real32;
use svreader::numeral::to_i64;
use svreader::viewport::{Rotation, ZoomMode};

fn single(x: f32) -> Real32 {
    Real32 { bits: x.to_bits() }
}

fn float(x: Real32) -> f32 {
    f32::from_bits(x.bits)
}

fn numerals(st: &DocState) -> Numerals {
    Numerals {
        zoom_mult: match st.zoom {
            ZoomMode::Custom(m) => format!("{}", float(m)),
            _ => String::new(),
        },
        render_dpi: st.render_dpi.map(|d| format!("{}", float(d))).unwrap_or_default(),
        render_quality: format!("{}", float(st.render_quality)),
    }
}

fn save(st: &DocState) -> String {
    st.to_sidecar("svreader reading state", &numerals(st))
}

fn load(text: &str) -> DocState {
    let table = parse_lua_return_table(text).unwrap();
    let singles: Vec<Real32> = table
        .entries
        .iter()
        .map(|(_, v)| match v {
            LuaValue::Number(t) => single(t.parse::<f64>().unwrap() as f32),
            _ => single(0.0),
        })
        .collect();
    DocState::from_table(table, &singles)
}

#[test]
fn docstate_round_trip() {
    let mut st = DocState::default();
    st.last_page = 42;
    st.zoom = ZoomMode::Custom(single(1.25));
    st.rotation = Rotation::R90;
    st.scroll_x = -10;
    st.scroll_y = 300;
    st.night_mode = true;
    st.render_dpi = Some(single(150.0));
    st.render_quality = single(0.8);
    st.cache_enabled = false;

    let loaded = load(&save(&st));
    assert_eq!(loaded.last_page, 42);
    assert_eq!(loaded.rotation, Rotation::R90);
    assert_eq!(loaded.scroll_x, -10);
    assert_eq!(loaded.scroll_y, 300);
    assert!(loaded.night_mode);
    assert_eq!(loaded.render_dpi, Some(single(150.0)));
    assert!((float(loaded.render_quality) - 0.8).abs() < 1e-5);
    assert!(!loaded.cache_enabled);
    match loaded.zoom {
        ZoomMode::Custom(m) => assert!((float(m) - 1.25).abs() < 1e-5),
        other => panic!("expected Custom, got {other:?}"),
    }
}

#[test]
fn docstate_preserves_unknown_keys() {
    let text = r#"-- test
return {
    ["last_page"] = 7,
    ["zoom"] = "fit-w",
    ["rotation"] = 0,
    ["scroll_x"] = 0,
    ["scroll_y"] = 0,
    ["night_mode"] = false,
    ["render_quality"] = 1.0,
    ["cache_enabled"] = true,
    ["bookmarks"] = {
        [1] = {
            ["notes"] = "koreader wrote this",
            ["page"] = 3,
        },
    },
    ["highlight_drawer"] = "lighten",
}
"#;
    let st = load(text);
    assert_eq!(st.last_page, 7);

    // Re-save: extras should still be in the output.
    let out = save(&st);
    assert!(out.contains("bookmarks"));
    assert!(out.contains("highlight_drawer"));
    assert!(out.contains("koreader wrote this"));
}

#[test]
fn docstate_bookmarks_round_trip() {
    let mut st = DocState::default();
    st.set_bookmark('a', 5, 10, 20);
    st.set_bookmark('b', 100, 0, 1500);
    // Re-set 'a' to confirm it replaces rather than duplicates.
    st.set_bookmark('a', 7, -5, 30);
    st.mouse_enabled = Some(false);

    let loaded = load(&save(&st));
    assert_eq!(loaded.bookmarks.len(), 2);
    let a = loaded.find_bookmark('a').expect("a");
    assert_eq!(a.page, 7);
    assert_eq!(a.x_off, -5);
    assert_eq!(a.y_off, 30);
    let b = loaded.find_bookmark('b').expect("b");
    assert_eq!(b.page, 100);
    assert_eq!(b.y_off, 1500);
    assert_eq!(loaded.mouse_enabled, Some(false));
}

#[test]
fn docstate_delete_bookmark_clears_field_on_save() {
    let mut st = DocState::default();
    st.set_bookmark('a', 1, 0, 0);
    let mut st2 = load(&save(&st));
    assert!(st2.delete_bookmark('a'));
    assert!(!st2.delete_bookmark('a'));
    let st3 = load(&save(&st2));
    assert!(st3.bookmarks.is_empty());
}

#[test]
fn the_sidecar_lies_beside_the_document() {
    assert_eq!(
        DocState::sidecar_file("/books", Some("book.pdf"), Some("pdf")),
        "/books/book.pdf.sdr/metadata.pdf.lua"
    );
    assert_eq!(DocState::sidecar_file("", None, None), "document.sdr/metadata.pdf.lua");
    let cases = [
        ("/books/Book.PDF", "/books/Book.PDF.sdr/metadata.pdf.lua"),
        ("book.epub", "book.epub.sdr/metadata.epub.lua"),
        ("a/b.tar.\u{c4}X", "a/b.tar.\u{c4}X.sdr/metadata.\u{e4}x.lua"),
        ("/d/notes", "/d/notes.sdr/metadata.pdf.lua"),
        ("/d/.epub", "/d/.epub.sdr/metadata.pdf.lua"),
        ("/d/x.", "/d/x..sdr/metadata..lua"),
        ("/x.pdf/", "/x.pdf.sdr/metadata.pdf.lua"),
        ("/", "./document.sdr/metadata.pdf.lua"),
        ("", "./document.sdr/metadata.pdf.lua"),
    ];
    for (path, file) in cases {
        assert_eq!(DocState::sidecar_path(path), file);
    }
}

#[test]
fn tables_are_written_as_they_are_read() {
    let text = "return {\n    [\"a\"] = \"x\\n\\\"y\\\"\",\n    [2] = { [1] = true, [2] = nil },\n}";
    let t = parse_lua_return_table(text).unwrap();
    assert_eq!(t.entries.len(), 2);
    assert!(matches!(&t.entries[0], (LuaKey::Text(k), LuaValue::Text(v)) if k == "a" && v == "x\n\"y\""));
    let mut out = String::from("return ");
    write_lua_table(&t, "", &mut out);
    let again = parse_lua_return_table(&out).unwrap();
    let mut out2 = String::from("return ");
    write_lua_table(&again, "", &mut out2);
    assert_eq!(out, out2);
}

#[test]
fn escapes_stand_for_characters() {
    let t = parse_lua_return_table("return { [\"k\"] = \"\\x41\\66\\233\\n\\q\" }").unwrap();
    assert!(matches!(t.get("k"), Some(LuaValue::Text(s)) if s == "AB\u{e9}\nq"));
}

#[test]
fn broken_tables_are_refused() {
    let cases = [
        ("{}", LuaError::NoReturn),
        ("return", LuaError::EndOfFile),
        ("return 5", LuaError::NotATable),
        ("return foo", LuaError::Identifier),
        ("return @", LuaError::Unexpected('@')),
        ("return -", LuaError::BadNumber),
        ("return {", LuaError::UnterminatedTable),
        ("return { [1] 2 }", LuaError::Expected('=')),
        ("return { [true] = 1 }", LuaError::BadKey),
        ("return { [1] = 1 [2] = 2 }", LuaError::MissingSeparator),
        ("return { [\"a\"] = \"x }", LuaError::UnterminatedString),
        ("return { [\"a\"] = \"x\\", LuaError::BadEscape),
    ];
    for (text, error) in cases {
        assert_eq!(parse_lua_return_table(text), Err(error), "{text}");
    }
}

#[test]
fn an_entry_is_found_replaced_and_removed() {
    let mut t = LuaTable { entries: Vec::new() };
    assert!(t.get("a").is_none());
    t.set("a", LuaValue::Bool(true));
    t.set("b", LuaValue::Nil);
    t.set("a", LuaValue::Bool(false));
    assert_eq!(t.entries.len(), 2);
    assert!(matches!(t.get("a"), Some(LuaValue::Bool(false))));
    t.remove("a");
    assert!(t.get("a").is_none());
    assert_eq!(t.entries.len(), 1);
}

#[test]
fn numerals_are_cut_to_whole_numbers() {
    assert_eq!(to_i64("42"), 42);
    assert_eq!(to_i64("-1.9"), -1);
    assert_eq!(to_i64("1e3"), 1000);
    assert_eq!(to_i64("99999999999999999999"), i64::MAX);
}

#[test]
fn a_table_may_end_the_text() {
    let inner = LuaTable {
        entries: vec![(LuaKey::Int(1), LuaValue::Text("a\"b\\\n\u{7}é".to_string()))],
    };
    let table = LuaTable {
        entries: vec![
            (LuaKey::Text("k ]=".to_string()), LuaValue::Table(inner)),
            (LuaKey::Numeral("1.5".to_string()), LuaValue::Number("-2e3".to_string())),
            (LuaKey::Int(-7), LuaValue::Nil),
        ],
    };
    let mut out = "return ".to_string();
    write_lua_table(&table, "", &mut out);
    assert!(out.ends_with('}'));
    for text in [out.clone(), format!("{out}x"), format!("{out}\n-- end")] {
        let again = parse_lua_return_table(&text).unwrap();
        let mut back = "return ".to_string();
        write_lua_table(&again, "", &mut back);
        assert_eq!(back, out);
    }
    assert_eq!(parse_lua_return_table("return {}").unwrap().entries.len(), 0);
}
