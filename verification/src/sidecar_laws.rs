//! What stands in a document's state file, and where that file is.
use vstd::prelude::*;

use crate::commands;
use crate::docstate::{self, Bookmark, DocView, Field, NumeralTexts};
use crate::docstate_laws;
use crate::lua::{self, Key, Lua};
use crate::number::Real32;
use crate::paths;
use crate::text;
use crate::viewport::{Rotation, ZoomMode};

verus! {

/// Every field is kept under its own name.
pub proof fn lemma_names_of_fields()
    ensures
        docstate::field_name(Field::LastPage) == "last_page"@,
        docstate::field_name(Field::Zoom) == "zoom"@,
        docstate::field_name(Field::ZoomMult) == "zoom_mult"@,
        docstate::field_name(Field::Rotation) == "rotation"@,
        docstate::field_name(Field::ScrollX) == "scroll_x"@,
        docstate::field_name(Field::ScrollY) == "scroll_y"@,
        docstate::field_name(Field::NightMode) == "night_mode"@,
        docstate::field_name(Field::RenderDpi) == "render_dpi"@,
        docstate::field_name(Field::RenderQuality) == "render_quality"@,
        docstate::field_name(Field::CacheEnabled) == "cache_enabled"@,
        docstate::field_name(Field::CacheSize) == "cache_size"@,
        docstate::field_name(Field::ECacheSize) == "ecache_size"@,
        docstate::field_name(Field::MouseEnabled) == "mouse_enabled"@,
        docstate::field_name(Field::Bookmarks) == "svr_bookmarks"@,
{
}

/// An entry of a state file: a name and what it is set to.
pub open spec fn read(d: DocView, name: Seq<char>, v: Lua, single: Real32) -> DocView {
    docstate::absorbed(d, Key::Text(name), v, single)
}

proof fn lemma_fields_found()
    ensures
        docstate::field_of("last_page"@) == Some(Field::LastPage),
        docstate::field_of("zoom"@) == Some(Field::Zoom),
        docstate::field_of("zoom_mult"@) == Some(Field::ZoomMult),
        docstate::field_of("rotation"@) == Some(Field::Rotation),
        docstate::field_of("scroll_x"@) == Some(Field::ScrollX),
        docstate::field_of("scroll_y"@) == Some(Field::ScrollY),
        docstate::field_of("night_mode"@) == Some(Field::NightMode),
        docstate::field_of("render_dpi"@) == Some(Field::RenderDpi),
        docstate::field_of("render_quality"@) == Some(Field::RenderQuality),
        docstate::field_of("cache_enabled"@) == Some(Field::CacheEnabled),
        docstate::field_of("cache_size"@) == Some(Field::CacheSize),
        docstate::field_of("ecache_size"@) == Some(Field::ECacheSize),
        docstate::field_of("mouse_enabled"@) == Some(Field::MouseEnabled),
        docstate::field_of("svr_bookmarks"@) == Some(Field::Bookmarks),
{
    docstate::lemma_field_names(Field::LastPage);
    docstate::lemma_field_names(Field::Zoom);
    docstate::lemma_field_names(Field::ZoomMult);
    docstate::lemma_field_names(Field::Rotation);
    docstate::lemma_field_names(Field::ScrollX);
    docstate::lemma_field_names(Field::ScrollY);
    docstate::lemma_field_names(Field::NightMode);
    docstate::lemma_field_names(Field::RenderDpi);
    docstate::lemma_field_names(Field::RenderQuality);
    docstate::lemma_field_names(Field::CacheEnabled);
    docstate::lemma_field_names(Field::CacheSize);
    docstate::lemma_field_names(Field::ECacheSize);
    docstate::lemma_field_names(Field::MouseEnabled);
    docstate::lemma_field_names(Field::Bookmarks);
}

/// The numbers in a state file are those that are written: the page, counted
/// from 0, the offsets along x and y, and the room of the caches, at least 1.
/// Each sets its own and nothing else.
pub proof fn lemma_numbers_in_file(d: DocView, page: usize, n: i32, single: Real32)
    requires
        page <= i64::MAX,
    ensures
        ({
            let count = Lua::Number(text::decimal(page as nat));
            let off = Lua::Number(text::signed_decimal(n as int));
            let room = if page == 0 {
                1
            } else {
                page
            };
            &&& read(d, "last_page"@, count, single) == (DocView { last_page: page, ..d })
            &&& read(d, "scroll_x"@, off, single) == (DocView { scroll_x: n, ..d })
            &&& read(d, "scroll_y"@, off, single) == (DocView { scroll_y: n, ..d })
            &&& read(d, "cache_size"@, count, single) == (DocView { cache_size: Some(room), ..d })
            &&& read(d, "ecache_size"@, count, single) == (DocView {
                ecache_size: Some(room),
                ..d
            })
        }),
{
    lemma_fields_found();
    docstate_laws::lemma_decimal_integer(page as int, i64::MIN as int, i64::MAX as int);
    docstate_laws::lemma_decimal_integer(n as int, i32::MIN as int, i32::MAX as int);
    assert(text::signed_decimal(page as int) == text::decimal(page as nat));
}

/// The switches in a state file, and the fractions, which are read as the
/// numbers that they stand for.
pub proof fn lemma_switches_in_file(d: DocView, b: bool, s: Seq<char>, single: Real32)
    ensures
        read(d, "night_mode"@, Lua::Bool(b), single) == (DocView { night_mode: b, ..d }),
        read(d, "cache_enabled"@, Lua::Bool(b), single) == (DocView { cache_enabled: b, ..d }),
        read(d, "mouse_enabled"@, Lua::Bool(b), single) == (DocView {
            mouse_enabled: Some(b),
            ..d
        }),
        read(d, "render_dpi"@, Lua::Number(s), single) == (DocView {
            render_dpi: Some(single),
            ..d
        }),
        read(d, "render_dpi"@, Lua::Nil, single) == (DocView { render_dpi: None, ..d }),
        read(d, "render_quality"@, Lua::Number(s), single) == (DocView {
            render_quality: single,
            ..d
        }),
        d.zoom is Custom ==> read(d, "zoom_mult"@, Lua::Number(s), single) == (DocView {
            zoom: ZoomMode::Custom(single),
            ..d
        }),
        !(d.zoom is Custom) ==> read(d, "zoom_mult"@, Lua::Number(s), single) == d,
{
    lemma_fields_found();
}

/// The names of the zooms, old and new; another name changes nothing.
pub proof fn lemma_zooms_in_file(d: DocView, single: Real32)
    ensures
        forall|s: Seq<char>|
            s == "fit-w"@ || s == "fitwidth"@ || s == "fit_width"@ ==> #[trigger] read(
                d,
                "zoom"@,
                Lua::Text(s),
                single,
            ) == (DocView { zoom: ZoomMode::FitWidth, ..d }),
        forall|s: Seq<char>|
            s == "fit-h"@ || s == "fitheight"@ || s == "fit_height"@ ==> #[trigger] read(
                d,
                "zoom"@,
                Lua::Text(s),
                single,
            ) == (DocView { zoom: ZoomMode::FitHeight, ..d }),
        forall|s: Seq<char>|
            s == "fit-p"@ || s == "fitpage"@ || s == "fit_page"@ ==> #[trigger] read(
                d,
                "zoom"@,
                Lua::Text(s),
                single,
            ) == (DocView { zoom: ZoomMode::FitPage, ..d }),
        read(d, "zoom"@, Lua::Text("custom"@), single).zoom is Custom,
        docstate::zoom_name(ZoomMode::FitWidth) == "fit-w"@,
        docstate::zoom_name(ZoomMode::FitHeight) == "fit-h"@,
        docstate::zoom_name(ZoomMode::FitPage) == "fit-p"@,
{
    lemma_fields_found();
    reveal_strlit("fit-w");
    reveal_strlit("fitwidth");
    reveal_strlit("fit_width");
    reveal_strlit("fit-h");
    reveal_strlit("fitheight");
    reveal_strlit("fit_height");
    reveal_strlit("fit-p");
    reveal_strlit("fitpage");
    reveal_strlit("fit_page");
    reveal_strlit("custom");
    assert("fit-w"@[4] == 'w' && "fit-h"@[4] == 'h' && "fit-p"@[4] == 'p');
    assert("fit-w"@[3] == '-' && "fit-h"@[3] == '-' && "fit-p"@[3] == '-');
    assert("fitwidth"@[3] == 'w' && "fitheight"@[3] == 'h' && "fitpage"@[3] == 'p');
    assert("fit_width"@[3] == '_' && "fit_height"@[3] == '_' && "fit_page"@[3] == '_');
    assert("fit_width"@[4] == 'w' && "fit_height"@[4] == 'h' && "fit_page"@[4] == 'p');
    assert("custom"@[0] == 'c' && "fit-w"@[0] == 'f' && "fitwidth"@[0] == 'f' && "fit_width"@[0]
        == 'f' && "fit-h"@[0] == 'f' && "fitheight"@[0] == 'f' && "fit_height"@[0] == 'f'
        && "fit-p"@[0] == 'f' && "fitpage"@[0] == 'f' && "fit_page"@[0] == 'f');
}

/// A rotation is kept in degrees, clockwise.
pub proof fn lemma_rotations_in_file(d: DocView, t: NumeralTexts, degrees: nat, single: Real32)
    requires
        degrees <= i32::MAX,
    ensures
        ({
            let now = read(d, "rotation"@, Lua::Number(text::decimal(degrees)), single);
            &&& now == (DocView { rotation: now.rotation, ..d })
            &&& degrees % 360 == 0 ==> now.rotation == Rotation::R0
            &&& degrees % 360 == 90 ==> now.rotation == Rotation::R90
            &&& degrees % 360 == 180 ==> now.rotation == Rotation::R180
            &&& degrees % 360 == 270 ==> now.rotation == Rotation::R270
        }),
        docstate::field_value(DocView { rotation: Rotation::R0, ..d }, t, Field::Rotation) == Some(
            Lua::Number(text::decimal(0)),
        ),
        docstate::field_value(DocView { rotation: Rotation::R90, ..d }, t, Field::Rotation) == Some(
            Lua::Number(text::decimal(90)),
        ),
        docstate::field_value(DocView { rotation: Rotation::R180, ..d }, t, Field::Rotation)
            == Some(Lua::Number(text::decimal(180))),
        docstate::field_value(DocView { rotation: Rotation::R270, ..d }, t, Field::Rotation)
            == Some(Lua::Number(text::decimal(270))),
{
    lemma_fields_found();
    docstate_laws::lemma_decimal_integer(degrees as int, i32::MIN as int, i32::MAX as int);
    assert(text::signed_decimal(degrees as int) == text::decimal(degrees));
}

/// A document that was never opened shows its first page from the start,
/// upright, as wide as the screen and by day, with the page cache on.
pub proof fn lemma_new_document()
    ensures
        ({
            let d = docstate::initial();
            &&& d.last_page == 0 && d.scroll_x == 0 && d.scroll_y == 0
            &&& d.zoom == ZoomMode::FitWidth && d.rotation == Rotation::R0
            &&& !d.night_mode && d.render_dpi is None
            &&& d.render_quality == (Real32 { bits: 0x3F80_0000 })
            &&& d.cache_enabled && d.cache_size is None && d.ecache_size is None
            &&& d.bookmarks.len() == 0 && d.mouse_enabled is None && d.extras.len() == 0
        }),
{
}

/// A mark in a state file has its letter, its page and its offsets under these
/// names, and is read as it was written.
pub proof fn lemma_marks_in_file(bs: Seq<Bookmark>, b: Bookmark)
    requires
        b.page <= i64::MAX,
    ensures
        docstate::with_mark(
            bs,
            Lua::Table(
                seq![
                    (Key::Text("mark"@), Lua::Text(seq![b.mark])),
                    (Key::Text("page"@), Lua::Number(text::decimal(b.page as nat))),
                    (Key::Text("x_off"@), Lua::Number(text::signed_decimal(b.x_off as int))),
                    (Key::Text("y_off"@), Lua::Number(text::signed_decimal(b.y_off as int))),
                ],
            ),
        ) == docstate::bookmarked(bs, b),
        docstate::mark_value(b) == Lua::Table(
            seq![
                (Key::Text("mark"@), Lua::Text(seq![b.mark])),
                (Key::Text("page"@), Lua::Number(text::decimal(b.page as nat))),
                (Key::Text("x_off"@), Lua::Number(text::signed_decimal(b.x_off as int))),
                (Key::Text("y_off"@), Lua::Number(text::signed_decimal(b.y_off as int))),
            ],
        ),
{
    let es = seq![
        (Key::Text("mark"@), Lua::Text(seq![b.mark])),
        (Key::Text("page"@), Lua::Number(text::decimal(b.page as nat))),
        (Key::Text("x_off"@), Lua::Number(text::signed_decimal(b.x_off as int))),
        (Key::Text("y_off"@), Lua::Number(text::signed_decimal(b.y_off as int))),
    ];
    reveal_strlit("mark");
    reveal_strlit("page");
    reveal_strlit("x_off");
    reveal_strlit("y_off");
    assert("mark"@[0] == 'm' && "page"@[0] == 'p' && "x_off"@[0] == 'x' && "y_off"@[0] == 'y');
    docstate_laws::lemma_decimal_integer(b.page as int, i64::MIN as int, i64::MAX as int);
    docstate_laws::lemma_decimal_integer(b.x_off as int, i32::MIN as int, i32::MAX as int);
    docstate_laws::lemma_decimal_integer(b.y_off as int, i32::MIN as int, i32::MAX as int);
    assert(text::signed_decimal(b.page as int) == text::decimal(b.page as nat));
    reveal_with_fuel(lua::named_at, 5);
    assert(es.skip(1).skip(1) =~= es.skip(2) && es.skip(2).skip(1) =~= es.skip(3)
        && es.skip(3).skip(1) =~= es.skip(4));
    assert(lua::lookup(es, "mark"@) == Some(es[0].1));
    assert(lua::lookup(es, "page"@) == Some(es[1].1));
    assert(lua::lookup(es, "x_off"@) == Some(es[2].1));
    assert(lua::lookup(es, "y_off"@) == Some(es[3].1));
}

/// The state of the document `DIR/STEM.EXT` is kept in
/// `DIR/STEM.EXT.sdr/metadata.EXT.lua`, with the extension in lower case.
pub proof fn lemma_sidecar_path(dir: Seq<char>, stem: Seq<char>, ext: Seq<char>)
    requires
        dir.len() > 1,
        dir.last() != '/' && dir.last() != '.',
        stem.len() > 0,
        stem[0] != '.',
        forall|i: int| 0 <= i < stem.len() ==> #[trigger] stem[i] != '/',
        ext.len() > 0,
        forall|i: int| 0 <= i < ext.len() ==> #[trigger] ext[i] != '/' && ext[i] != '.',
    ensures
        docstate::sidecar_of(dir + seq!['/'] + stem + seq!['.'] + ext) == dir + seq!['/'] + stem
            + seq!['.'] + ext + ".sdr/metadata."@ + docstate::lowercase(ext) + ".lua"@,
{
    let name = stem + seq!['.'] + ext;
    let path = dir + seq!['/'] + stem + seq!['.'] + ext;
    assert(name[0] == stem[0]);
    assert(name.last() == ext[ext.len() - 1]);
    assert forall|i: int| 0 <= i < name.len() implies #[trigger] name[i] != '/' by {
        if i < stem.len() {
            assert(name[i] == stem[i]);
        } else if i > stem.len() {
            assert(name[i] == ext[i - stem.len() - 1]);
        }
    }
    crate::explorer_laws::lemma_enter_and_up(dir, name);
    assert(commands::joined(dir, name) =~= path);
    crate::explorer_laws::lemma_extension_is(stem, ext);
    assert(paths::file_type(name) == Some(ext));
    reveal_strlit(".sdr");
    reveal_strlit("metadata.");
    reveal_strlit(".sdr/metadata.");
    let low = docstate::lowercase(ext);
    let folder = name + ".sdr"@;
    assert(folder[0] == stem[0]);
    let a = commands::joined(dir, folder);
    assert(a == dir.push('/') + folder) by {
        if stem[0] == '/' {
            assert(stem[0] != '/');
        }
    }
    assert(".sdr"@[3] == 'r');
    assert(a.last() == 'r');
    let file = "metadata."@ + low + ".lua"@;
    assert("metadata."@[0] == 'm');
    assert(file[0] == 'm');
    assert(commands::joined(a, file) == a.push('/') + file);
    assert(".sdr/metadata."@ =~= ".sdr"@ + seq!['/'] + "metadata."@);
    assert(docstate::sidecar_of(path) == a.push('/') + file);
    assert(a.push('/') + file =~= dir + seq!['/'] + stem + seq!['.'] + ext + ".sdr/metadata."@ + low
        + ".lua"@);
}

} // verus!
