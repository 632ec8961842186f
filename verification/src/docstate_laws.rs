//! What is saved of a document's state comes back.
use vstd::prelude::*;

use crate::docstate::{self, Bookmark, DocView, Field, NumeralTexts};
use crate::lua::{self, Key, Lua, LuaError};
use crate::lua_laws;
use crate::number::{Real32, ONE};
use crate::numeral;
use crate::text;
use crate::viewport::{Rotation, ZoomMode};

verus! {

proof fn lemma_all_digits_run(d: Seq<char>)
    requires
        text::all_digits(d),
    ensures
        numeral::point_at(d) == d.len(),
        !numeral::has_point(d),
        numeral::mantissa(d) == d,
        numeral::mantissa_end(d) == d.len(),
        text::is_numeral(d),
        numeral::before_point(d, d.len() as int) == text::digits_value(d),
{
    text::lemma_digit_run(d);
    assert(d.take(d.len() as int) == d);
    assert(d.skip(d.len() as int).len() == 0);
}

/// A printed integer stands for itself.
pub proof fn lemma_decimal_integer(n: int, min: int, max: int)
    requires
        min <= n <= max,
    ensures
        numeral::integer_of(text::signed_decimal(n), min, max) == n,
{
    let m: nat = (if n < 0 {
        -n
    } else {
        n
    }) as nat;
    let d = text::decimal(m);
    let s = text::signed_decimal(n);
    text::lemma_decimal_reads_back(m);
    lemma_all_digits_run(d);
    assert(text::is_digit(d[0]));
    assert(d.skip(d.len() as int) == Seq::<char>::empty());
    if n < 0 {
        assert(s[0] == '-');
        assert(s.skip(1) == d);
    } else {
        assert(s == d);
    }
}

/// The state can be written: its counts fit, no letter is marked twice, and it
/// is well formed.
pub open spec fn savable(d: DocView) -> bool {
    &&& d.last_page <= i64::MAX
    &&& d.cache_size matches Some(n) ==> 1 <= n <= i64::MAX
    &&& d.ecache_size matches Some(n) ==> 1 <= n <= i64::MAX
    &&& d.bookmarks.len() < i64::MAX
    &&& docstate::marks_differ(d.bookmarks)
    &&& forall|i: int| 0 <= i < d.bookmarks.len() ==> (#[trigger] d.bookmarks[i]).page <= i64::MAX
    &&& d.wf()
}

/// The entries of the first `n` fields.
spec fn tail(d: DocView, t: NumeralTexts, n: int) -> Seq<(Key, Lua)>
    decreases n,
{
    if n <= 0 {
        Seq::empty()
    } else {
        let f = docstate::fields()[n - 1];
        match docstate::field_value(d, t, f) {
            Some(v) => tail(d, t, n - 1).push((Key::Text(docstate::field_name(f)), v)),
            None => tail(d, t, n - 1),
        }
    }
}

/// The position of a field in the order of writing.
spec fn rank(f: Field) -> int {
    match f {
        Field::LastPage => 0,
        Field::Zoom => 1,
        Field::ZoomMult => 2,
        Field::Rotation => 3,
        Field::ScrollX => 4,
        Field::ScrollY => 5,
        Field::NightMode => 6,
        Field::RenderDpi => 7,
        Field::RenderQuality => 8,
        Field::CacheEnabled => 9,
        Field::CacheSize => 10,
        Field::ECacheSize => 11,
        Field::MouseEnabled => 12,
        Field::Bookmarks => 13,
    }
}

proof fn lemma_rank(n: int)
    requires
        0 <= n < docstate::fields().len(),
    ensures
        rank(docstate::fields()[n]) == n,
{
}

/// The entries of the first fields carry their names.
proof fn lemma_tail_fields(d: DocView, t: NumeralTexts, n: int)
    requires
        0 <= n <= docstate::fields().len(),
    ensures
        forall|i: int|
            0 <= i < tail(d, t, n).len() ==> (docstate::key_field(
                (#[trigger] tail(d, t, n)[i]).0,
            ) matches Some(f) && rank(f) < n),
    decreases n,
{
    if n > 0 {
        lemma_tail_fields(d, t, n - 1);
        let f = docstate::fields()[n - 1];
        docstate::lemma_field_names(f);
        lemma_rank(n - 1);
        assert forall|i: int| 0 <= i < tail(d, t, n).len() implies (docstate::key_field(
            (#[trigger] tail(d, t, n)[i]).0,
        ) matches Some(g) && rank(g) < n) by {
            if i < tail(d, t, n - 1).len() {
                assert(tail(d, t, n)[i] == tail(d, t, n - 1)[i]);
            }
        }
    }
}

proof fn lemma_merged(d: DocView, t: NumeralTexts, n: int)
    requires
        savable(d),
        0 <= n <= docstate::fields().len(),
    ensures
        docstate::merged_upto(d.extras, d, t, n) == d.extras + tail(d, t, n),
    decreases n,
{
    if n == 0 {
        assert(d.extras + tail(d, t, 0) == d.extras);
    } else {
        lemma_merged(d, t, n - 1);
        lemma_tail_fields(d, t, n - 1);
        let f = docstate::fields()[n - 1];
        let name = docstate::field_name(f);
        let before = d.extras + tail(d, t, n - 1);
        docstate::lemma_field_names(f);
        lemma_rank(n - 1);
        lua::lemma_named_at(before, name);
        if let Some(i) = lua::named_at(before, name) {
            assert(docstate::key_field(before[i].0) == Some(f));
            if i < d.extras.len() {
                assert(before[i] == d.extras[i]);
            } else {
                assert(before[i] == tail(d, t, n - 1)[i - d.extras.len()]);
            }
            assert(false);
        }
        lua::lemma_removed_absent(before, name);
        if let Some(v) = docstate::field_value(d, t, f) {
            assert(before.push((Key::Text(name), v)) == d.extras + tail(d, t, n));
        }
    }
}

proof fn lemma_unknown_concat(a: Seq<(Key, Lua)>, b: Seq<(Key, Lua)>)
    ensures
        docstate::unknown(a + b) == docstate::unknown(a) + docstate::unknown(b),
    decreases a.len(),
{
    if a.len() == 0 {
        assert(a + b == b);
        assert(docstate::unknown(a) + docstate::unknown(b) == docstate::unknown(b));
    } else {
        assert((a + b).skip(1) == a.skip(1) + b);
        lemma_unknown_concat(a.skip(1), b);
        assert((a + b)[0] == a[0]);
        if docstate::key_field(a[0].0) is None {
            assert(seq![a[0]] + (docstate::unknown(a.skip(1)) + docstate::unknown(b)) == (
            seq![a[0]] + docstate::unknown(a.skip(1))) + docstate::unknown(b));
        }
    }
}

proof fn lemma_unknown_all(a: Seq<(Key, Lua)>, known: bool)
    requires
        forall|i: int|
            0 <= i < a.len() ==> (docstate::key_field((#[trigger] a[i]).0) is Some <==> known),
    ensures
        docstate::unknown(a) == (if known {
            Seq::empty()
        } else {
            a
        }),
    decreases a.len(),
{
    if a.len() > 0 {
        let rest = a.skip(1);
        assert forall|i: int| 0 <= i < rest.len() implies (docstate::key_field(
            (#[trigger] rest[i]).0,
        ) is Some <==> known) by {
            assert(rest[i] == a[i + 1]);
        }
        lemma_unknown_all(rest, known);
        assert(a[0] == a[0]);
        if !known {
            assert(seq![a[0]] + rest == a);
        }
    }
}

/// Entries that are not understood change nothing.
proof fn lemma_extras_absorb(d: DocView, es: Seq<(Key, Lua)>, singles: Seq<Real32>)
    requires
        forall|i: int| 0 <= i < es.len() ==> docstate::key_field((#[trigger] es[i]).0) is None,
    ensures
        docstate::absorbed_all(d, es, singles) == d,
    decreases es.len(),
{
    if es.len() > 0 {
        let rest = es.drop_last();
        assert forall|i: int| 0 <= i < rest.len() implies docstate::key_field(
            (#[trigger] rest[i]).0,
        ) is None by {
            assert(rest[i] == es[i]);
        }
        lemma_extras_absorb(d, rest, singles);
        assert(es.last() == es[es.len() - 1]);
    }
}

/// The state after the first `n` fields have been read back.
spec fn partial(d: DocView, n: int) -> DocView {
    let z = docstate::initial();
    DocView {
        last_page: if n > 0 {
            d.last_page
        } else {
            z.last_page
        },
        zoom: if n > 2 || (n > 1 && !(d.zoom is Custom)) {
            d.zoom
        } else if n > 1 {
            ZoomMode::Custom(Real32 { bits: ONE })
        } else {
            z.zoom
        },
        rotation: if n > 3 {
            d.rotation
        } else {
            z.rotation
        },
        scroll_x: if n > 4 {
            d.scroll_x
        } else {
            z.scroll_x
        },
        scroll_y: if n > 5 {
            d.scroll_y
        } else {
            z.scroll_y
        },
        night_mode: if n > 6 {
            d.night_mode
        } else {
            z.night_mode
        },
        render_dpi: if n > 7 {
            d.render_dpi
        } else {
            z.render_dpi
        },
        render_quality: if n > 8 {
            d.render_quality
        } else {
            z.render_quality
        },
        cache_enabled: if n > 9 {
            d.cache_enabled
        } else {
            z.cache_enabled
        },
        cache_size: if n > 10 {
            d.cache_size
        } else {
            z.cache_size
        },
        ecache_size: if n > 11 {
            d.ecache_size
        } else {
            z.ecache_size
        },
        mouse_enabled: if n > 12 {
            d.mouse_enabled
        } else {
            z.mouse_enabled
        },
        bookmarks: if n > 13 {
            d.bookmarks
        } else {
            z.bookmarks
        },
        extras: z.extras,
    }
}

/// `singles` are the values of the floating-point settings of `d`, at the
/// places where they stand in `es`.
pub open spec fn singles_of(d: DocView, es: Seq<(Key, Lua)>, singles: Seq<Real32>) -> bool {
    &&& singles.len() == es.len()
    &&& forall|i: int|
        0 <= i < es.len() ==> match docstate::key_field((#[trigger] es[i]).0) {
            Some(Field::ZoomMult) => d.zoom == ZoomMode::Custom(singles[i]),
            Some(Field::RenderDpi) => d.render_dpi == Some(singles[i]),
            Some(Field::RenderQuality) => d.render_quality == singles[i],
            _ => true,
        }
}

proof fn lemma_mark_strings()
    ensures
        "mark"@ != "page"@,
        "mark"@ != "x_off"@,
        "mark"@ != "y_off"@,
        "page"@ != "x_off"@,
        "page"@ != "y_off"@,
        "x_off"@ != "y_off"@,
{
    reveal_strlit("mark");
    reveal_strlit("page");
    reveal_strlit("x_off");
    reveal_strlit("y_off");
    assert("mark"@[0] != "page"@[0]);
    assert("mark"@.len() != "x_off"@.len());
    assert("x_off"@[0] != "y_off"@[0]);
}

proof fn lemma_mark_reads_back(bs: Seq<Bookmark>, b: Bookmark)
    requires
        b.page <= i64::MAX,
    ensures
        docstate::with_mark(bs, docstate::mark_value(b)) == docstate::bookmarked(bs, b),
{
    let es = docstate::mark_value(b)->Table_0;
    lemma_mark_strings();
    lua::lemma_named_at(es, "mark"@);
    lua::lemma_named_at(es, "page"@);
    lua::lemma_named_at(es, "x_off"@);
    lua::lemma_named_at(es, "y_off"@);
    assert(lua::is_named(es[0].0, "mark"@));
    assert(lua::is_named(es[1].0, "page"@));
    assert(lua::is_named(es[2].0, "x_off"@));
    assert(lua::is_named(es[3].0, "y_off"@));
    assert(lua::named_at(es, "mark"@) == Some(0int));
    assert(lua::named_at(es, "page"@) == Some(1int));
    assert(lua::named_at(es, "x_off"@) == Some(2int));
    assert(lua::named_at(es, "y_off"@) == Some(3int));
    assert(text::signed_decimal(b.page as int) == text::decimal(b.page as nat));
    lemma_decimal_integer(b.page as int, i64::MIN as int, i64::MAX as int);
    lemma_decimal_integer(b.x_off as int, i32::MIN as int, i32::MAX as int);
    lemma_decimal_integer(b.y_off as int, i32::MIN as int, i32::MAX as int);
}

proof fn lemma_marks_read_back(bs: Seq<Bookmark>)
    requires
        docstate::marks_differ(bs),
        forall|i: int| 0 <= i < bs.len() ==> (#[trigger] bs[i]).page <= i64::MAX,
    ensures
        docstate::with_marks(Seq::empty(), docstate::mark_entries(bs)) == bs,
    decreases bs.len(),
{
    if bs.len() == 0 {
        assert(bs == Seq::<Bookmark>::empty());
    } else {
        let rest = bs.drop_last();
        assert(docstate::marks_differ(rest)) by {
            assert forall|i: int, j: int|
                0 <= i < rest.len() && 0 <= j < rest.len() && i != j implies #[trigger] rest[i].mark
                != #[trigger] rest[j].mark by {
                assert(rest[i] == bs[i] && rest[j] == bs[j]);
            }
        }
        assert forall|i: int| 0 <= i < rest.len() implies (#[trigger] rest[i]).page <= i64::MAX by {
            assert(rest[i] == bs[i]);
        }
        lemma_marks_read_back(rest);
        let es = docstate::mark_entries(bs);
        assert(es.drop_last() == docstate::mark_entries(rest));
        assert(bs.last() == bs[bs.len() - 1]);
        lemma_mark_reads_back(rest, bs.last());
        docstate::lemma_marked_at(rest, bs.last().mark);
        if let Some(i) = docstate::marked_at(rest, bs.last().mark) {
            assert(rest[i] == bs[i]);
            assert(false);
        }
        assert(rest.push(bs.last()) == bs);
    }
}

proof fn lemma_zoom_names()
    ensures
        docstate::zoom_named("fit-w"@) == Some(ZoomMode::FitWidth),
        docstate::zoom_named("fit-h"@) == Some(ZoomMode::FitHeight),
        docstate::zoom_named("fit-p"@) == Some(ZoomMode::FitPage),
        docstate::zoom_named("custom"@) == Some(ZoomMode::Custom(Real32 { bits: ONE })),
{
    reveal_strlit("fit-w");
    reveal_strlit("fitwidth");
    reveal_strlit("fit_width");
    reveal_strlit("fit-h");
    reveal_strlit("fitheight");
    reveal_strlit("fit_height");
    reveal_strlit("fit-p");
    reveal_strlit("fitpage");
    reveal_strlit("fit_page");
    reveal_strlit("custom");
    assert("custom"@.len() == 6 && "fit-w"@.len() == 5 && "fit-h"@.len() == 5 && "fit-p"@.len() == 5);
    assert("fitwidth"@.len() == 8 && "fit_width"@.len() == 9 && "fitheight"@.len() == 9);
    assert("fit_height"@.len() == 10 && "fitpage"@.len() == 7 && "fit_page"@.len() == 8);
    assert("fit-w"@[4] != "fit-h"@[4] && "fit-w"@[4] != "fit-p"@[4] && "fit-h"@[4] != "fit-p"@[4]);
}

/// Reading back the `n`-th field.
proof fn lemma_field_reads_back(d: DocView, t: NumeralTexts, n: int, single: Real32)
    requires
        savable(d),
        0 < n <= docstate::fields().len(),
        match docstate::fields()[n - 1] {
            Field::ZoomMult => d.zoom is Custom ==> d.zoom == ZoomMode::Custom(single),
            Field::RenderDpi => d.render_dpi is Some ==> d.render_dpi == Some(single),
            Field::RenderQuality => d.render_quality == single,
            _ => true,
        },
    ensures
        match docstate::field_value(d, t, docstate::fields()[n - 1]) {
            Some(v) => docstate::absorbed(
                partial(d, n - 1),
                Key::Text(docstate::field_name(docstate::fields()[n - 1])),
                v,
                single,
            ) == partial(d, n),
            None => partial(d, n) == partial(d, n - 1),
        },
{
    let f = docstate::fields()[n - 1];
    docstate::lemma_field_names(f);
    lemma_rank(n - 1);
    match f {
        Field::LastPage => {
            assert(text::signed_decimal(d.last_page as int) == text::decimal(d.last_page as nat));
            lemma_decimal_integer(d.last_page as int, i64::MIN as int, i64::MAX as int);
        },
        Field::Zoom => {
            lemma_zoom_names();
        },
        Field::Rotation => {
            let deg = 90 * d.rotation.quarters();
            assert(text::signed_decimal(deg) == text::decimal(deg as nat));
            lemma_decimal_integer(deg, i32::MIN as int, i32::MAX as int);
        },
        Field::ScrollX => {
            lemma_decimal_integer(d.scroll_x as int, i32::MIN as int, i32::MAX as int);
        },
        Field::ScrollY => {
            lemma_decimal_integer(d.scroll_y as int, i32::MIN as int, i32::MAX as int);
        },
        Field::CacheSize => {
            if let Some(c) = d.cache_size {
                assert(text::signed_decimal(c as int) == text::decimal(c as nat));
                lemma_decimal_integer(c as int, i64::MIN as int, i64::MAX as int);
            }
        },
        Field::ECacheSize => {
            if let Some(c) = d.ecache_size {
                assert(text::signed_decimal(c as int) == text::decimal(c as nat));
                lemma_decimal_integer(c as int, i64::MIN as int, i64::MAX as int);
            }
        },
        Field::Bookmarks => {
            lemma_marks_read_back(d.bookmarks);
            if d.bookmarks.len() == 0 {
                assert(d.bookmarks == Seq::<Bookmark>::empty());
            }
        },
        _ => {},
    }
}

proof fn lemma_tail_absorbs(
    d: DocView,
    t: NumeralTexts,
    singles: Seq<Real32>,
    n: int,
)
    requires
        savable(d),
        0 <= n <= docstate::fields().len(),
        forall|i: int|
            0 <= i < tail(d, t, n).len() ==> match docstate::key_field(
                (#[trigger] tail(d, t, n)[i]).0,
            ) {
                Some(Field::ZoomMult) => d.zoom == ZoomMode::Custom(singles[d.extras.len() + i]),
                Some(Field::RenderDpi) => d.render_dpi == Some(singles[d.extras.len() + i]),
                Some(Field::RenderQuality) => d.render_quality == singles[d.extras.len() + i],
                _ => true,
            },
    ensures
        docstate::absorbed_all(docstate::initial(), d.extras + tail(d, t, n), singles) == partial(
            d,
            n,
        ),
    decreases n,
{
    if n == 0 {
        assert(d.extras + tail(d, t, 0) == d.extras);
        lemma_extras_absorb(docstate::initial(), d.extras, singles);
        assert(partial(d, 0) =~= docstate::initial());
    } else {
        let f = docstate::fields()[n - 1];
        let before = tail(d, t, n - 1);
        let now = tail(d, t, n);
        assert forall|i: int| 0 <= i < before.len() implies match docstate::key_field(
            (#[trigger] before[i]).0,
        ) {
            Some(Field::ZoomMult) => d.zoom == ZoomMode::Custom(singles[d.extras.len() + i]),
            Some(Field::RenderDpi) => d.render_dpi == Some(singles[d.extras.len() + i]),
            Some(Field::RenderQuality) => d.render_quality == singles[d.extras.len() + i],
            _ => true,
        } by {
            assert(now[i] == before[i]);
        }
        lemma_tail_absorbs(d, t, singles, n - 1);
        docstate::lemma_field_names(f);
        match docstate::field_value(d, t, f) {
            Some(v) => {
                let at = d.extras.len() + before.len();
                assert(now[before.len() as int].0 == Key::Text(docstate::field_name(f)));
                lemma_field_reads_back(d, t, n, singles[at as int]);
                let all = d.extras + now;
                assert(all.drop_last() == d.extras + before);
                assert(all.last() == now[before.len() as int]);
                assert(all.len() - 1 == at);
            },
            None => {
                let single = match d.zoom {
                    ZoomMode::Custom(m) => m,
                    _ => Real32 { bits: ONE },
                };
                lemma_field_reads_back(d, t, n, single);
            },
        }
    }
}

/// A state that is saved and loaded again is the same, down to the entries
/// that were not understood.
pub proof fn lemma_state_survives(d: DocView, t: NumeralTexts, singles: Seq<Real32>)
    requires
        savable(d),
        singles_of(d, docstate::kept(d, t), singles),
    ensures
        docstate::held(docstate::kept(d, t), singles) == d,
{
    let n = docstate::fields().len() as int;
    let es = docstate::kept(d, t);
    let last = tail(d, t, n);
    lemma_merged(d, t, n);
    lemma_tail_fields(d, t, n);
    assert forall|i: int| 0 <= i < last.len() implies match docstate::key_field(
        (#[trigger] last[i]).0,
    ) {
        Some(Field::ZoomMult) => d.zoom == ZoomMode::Custom(singles[d.extras.len() + i]),
        Some(Field::RenderDpi) => d.render_dpi == Some(singles[d.extras.len() + i]),
        Some(Field::RenderQuality) => d.render_quality == singles[d.extras.len() + i],
        _ => true,
    } by {
        assert(es[d.extras.len() + i] == last[i]);
    }
    lemma_tail_absorbs(d, t, singles, n);
    lemma_unknown_concat(d.extras, last);
    lemma_unknown_all(d.extras, false);
    lemma_unknown_all(last, true);
    assert(d.extras + Seq::<(Key, Lua)>::empty() == d.extras);
    assert(docstate::held(es, singles) =~= d);
}

proof fn lemma_writable_concat(a: Seq<(Key, Lua)>, b: Seq<(Key, Lua)>)
    requires
        lua_laws::writable_entries(a),
        lua_laws::writable_entries(b),
    ensures
        lua_laws::writable_entries(a + b),
    decreases a.len(),
{
    if a.len() == 0 {
        assert(a + b == b);
    } else {
        lemma_writable_concat(a.skip(1), b);
        assert((a + b)[0] == a[0]);
        assert((a + b).skip(1) == a.skip(1) + b);
    }
}

proof fn lemma_writable_one(k: Key, v: Lua)
    requires
        lua_laws::writable_key(k),
        lua_laws::writable(v),
    ensures
        lua_laws::writable_entries(seq![(k, v)]),
{
    assert(seq![(k, v)].skip(1).len() == 0);
    assert(lua_laws::writable_entries(seq![(k, v)].skip(1)));
}

proof fn lemma_writable_push(a: Seq<(Key, Lua)>, k: Key, v: Lua)
    requires
        lua_laws::writable_entries(a),
        lua_laws::writable_key(k),
        lua_laws::writable(v),
    ensures
        lua_laws::writable_entries(a.push((k, v))),
{
    lemma_writable_one(k, v);
    lemma_writable_concat(a, seq![(k, v)]);
    assert(a + seq![(k, v)] == a.push((k, v)));
}

proof fn lemma_mark_writable(b: Bookmark)
    requires
        b.page <= i64::MAX,
    ensures
        lua_laws::writable(docstate::mark_value(b)),
{
    let page = Lua::Number(text::decimal(b.page as nat));
    let x = Lua::Number(text::signed_decimal(b.x_off as int));
    let y = Lua::Number(text::signed_decimal(b.y_off as int));
    assert(text::signed_decimal(b.page as int) == text::decimal(b.page as nat));
    lua_laws::lemma_decimal_is_number(b.page as int);
    lua_laws::lemma_decimal_is_number(b.x_off as int);
    lua_laws::lemma_decimal_is_number(b.y_off as int);
    let e0 = Seq::<(Key, Lua)>::empty();
    let e1 = e0.push((Key::Text("mark"@), Lua::Text(seq![b.mark])));
    let e2 = e1.push((Key::Text("page"@), page));
    let e3 = e2.push((Key::Text("x_off"@), x));
    let e4 = e3.push((Key::Text("y_off"@), y));
    lemma_writable_push(e0, Key::Text("mark"@), Lua::Text(seq![b.mark]));
    lemma_writable_push(e1, Key::Text("page"@), page);
    lemma_writable_push(e2, Key::Text("x_off"@), x);
    lemma_writable_push(e3, Key::Text("y_off"@), y);
    assert(docstate::mark_value(b)->Table_0 =~= e4);
}

proof fn lemma_marks_writable(bs: Seq<Bookmark>)
    requires
        bs.len() < i64::MAX,
        forall|i: int| 0 <= i < bs.len() ==> (#[trigger] bs[i]).page <= i64::MAX,
    ensures
        lua_laws::writable_entries(docstate::mark_entries(bs)),
    decreases bs.len(),
{
    if bs.len() > 0 {
        let rest = bs.drop_last();
        assert forall|i: int| 0 <= i < rest.len() implies (#[trigger] rest[i]).page <= i64::MAX by {
            assert(rest[i] == bs[i]);
        }
        lemma_marks_writable(rest);
        assert(bs.last() == bs[bs.len() - 1]);
        lemma_mark_writable(bs.last());
        lemma_writable_push(
            docstate::mark_entries(rest),
            Key::Int(bs.len() as int),
            docstate::mark_value(bs.last()),
        );
    }
}

/// The floating-point settings are numbers.
pub open spec fn are_numbers(t: NumeralTexts) -> bool {
    &&& lua_laws::is_number_token(t.zoom_mult)
    &&& lua_laws::is_number_token(t.render_dpi)
    &&& lua_laws::is_number_token(t.render_quality)
}

proof fn lemma_tail_writable(d: DocView, t: NumeralTexts, n: int)
    requires
        savable(d),
        are_numbers(t),
        0 <= n <= docstate::fields().len(),
    ensures
        lua_laws::writable_entries(tail(d, t, n)),
    decreases n,
{
    if n > 0 {
        lemma_tail_writable(d, t, n - 1);
        let f = docstate::fields()[n - 1];
        if let Some(v) = docstate::field_value(d, t, f) {
            match f {
                Field::LastPage => {
                    assert(text::signed_decimal(d.last_page as int) == text::decimal(
                        d.last_page as nat,
                    ));
                    lua_laws::lemma_decimal_is_number(d.last_page as int);
                },
                Field::Rotation => {
                    let deg = 90 * d.rotation.quarters();
                    assert(text::signed_decimal(deg) == text::decimal(deg as nat));
                    lua_laws::lemma_decimal_is_number(deg);
                },
                Field::ScrollX => lua_laws::lemma_decimal_is_number(d.scroll_x as int),
                Field::ScrollY => lua_laws::lemma_decimal_is_number(d.scroll_y as int),
                Field::CacheSize => {
                    let c = d.cache_size->0;
                    assert(text::signed_decimal(c as int) == text::decimal(c as nat));
                    lua_laws::lemma_decimal_is_number(c as int);
                },
                Field::ECacheSize => {
                    let c = d.ecache_size->0;
                    assert(text::signed_decimal(c as int) == text::decimal(c as nat));
                    lua_laws::lemma_decimal_is_number(c as int);
                },
                Field::Bookmarks => lemma_marks_writable(d.bookmarks),
                _ => {},
            }
            assert(lua_laws::writable(v));
            lemma_writable_push(tail(d, t, n - 1), Key::Text(docstate::field_name(f)), v);
        }
    }
}

/// A document's state survives being written to its sidecar file and read
/// from it, whatever one-line comment heads the file.
pub proof fn lemma_sidecar_survives(
    d: DocView,
    t: NumeralTexts,
    comment: Seq<char>,
    singles: Seq<Real32>,
)
    requires
        savable(d),
        are_numbers(t),
        lua_laws::writable_entries(d.extras),
        forall|i: int| 0 <= i < comment.len() ==> #[trigger] comment[i] != '\n',
        singles_of(d, docstate::kept(d, t), singles),
    ensures
        lua::returned(docstate::sidecar_text(comment, docstate::kept(d, t))) == Ok::<
            Seq<(Key, Lua)>,
            LuaError,
        >(docstate::kept(d, t)),
        docstate::held(docstate::kept(d, t), singles) == d,
{
    let n = docstate::fields().len() as int;
    lemma_merged(d, t, n);
    lemma_tail_writable(d, t, n);
    lemma_writable_concat(d.extras, tail(d, t, n));
    lua_laws::lemma_file_reads_back(comment, docstate::kept(d, t), seq!['\n']);
    lemma_state_survives(d, t, singles);
}

proof fn lemma_unknown_writable(es: Seq<(Key, Lua)>)
    requires
        lua_laws::writable_entries(es),
    ensures
        lua_laws::writable_entries(docstate::unknown(es)),
    decreases es.len(),
{
    if es.len() > 0 {
        let rest = docstate::unknown(es.skip(1));
        lemma_unknown_writable(es.skip(1));
        assert((seq![es[0]] + rest).skip(1) == rest);
    }
}

/// What a file holds beyond the fields stays with the state that is loaded
/// from it, free of fields and fit to be written again.
pub proof fn lemma_loaded_extras(src: Seq<char>, singles: Seq<Real32>)
    requires
        src.len() < i64::MAX,
    ensures
        lua::returned(src) matches Ok(es) ==> {
            let d = docstate::held(es, singles);
            &&& d.extras == docstate::unknown(es)
            &&& lua_laws::writable_entries(d.extras)
            &&& d.wf()
        },
{
    if let Ok(es) = lua::returned(src) {
        lua_laws::lemma_file_survives(src, Seq::empty());
        lemma_unknown_writable(es);
        docstate::lemma_unknown(es);
    }
}

} // verus!
