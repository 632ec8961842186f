//! Persistent per-document reader state, kept in a Lua sidecar file.
use vstd::prelude::*;

use crate::commands::{self, join};
use crate::lua::{self, write_lua_table, Key, Lua, LuaKey, LuaTable, LuaValue};
use crate::number::{Real32, ONE};
use crate::numeral::{self, to_i64};
use crate::paths::{self, file_name_of, file_type_of, parent_of};
use crate::text::{self, push_signed, push_str, same, to_chars};
use crate::viewport::{Rotation, ZoomMode};

verus! {

/// A single-letter mark and the spot that it marks.
#[derive(Debug, Clone, Copy, PartialEq, Eq, Structural)]
pub struct Bookmark {
    pub mark: char,
    pub page: usize,
    pub x_off: i32,
    pub y_off: i32,
}

/// Persistent per-document reader state.
#[derive(Debug)]
pub struct DocState {
    pub last_page: usize,
    pub zoom: ZoomMode,
    pub rotation: Rotation,
    pub scroll_x: i32,
    pub scroll_y: i32,
    pub night_mode: bool,
    pub render_dpi: Option<Real32>,
    pub render_quality: Real32,
    pub cache_enabled: bool,
    /// Page cache capacity the user wants. `None`: use the default.
    pub cache_size: Option<usize>,
    /// Encoded-frame cache capacity.
    pub ecache_size: Option<usize>,
    /// Marks set with `m{a-z}` and recalled with `'{a-z}`.
    pub bookmarks: Vec<Bookmark>,
    /// Whether mouse capture is enabled. `None`: use the global default.
    pub mouse_enabled: Option<bool>,
    /// Entries that are not understood, kept as they were read.
    pub extras: LuaTable,
}

/// What a `DocState` stands for.
#[verifier::ext_equal]
pub struct DocView {
    pub last_page: usize,
    pub zoom: ZoomMode,
    pub rotation: Rotation,
    pub scroll_x: i32,
    pub scroll_y: i32,
    pub night_mode: bool,
    pub render_dpi: Option<Real32>,
    pub render_quality: Real32,
    pub cache_enabled: bool,
    pub cache_size: Option<usize>,
    pub ecache_size: Option<usize>,
    pub bookmarks: Seq<Bookmark>,
    pub mouse_enabled: Option<bool>,
    pub extras: Seq<(Key, Lua)>,
}

impl View for DocState {
    type V = DocView;

    open spec fn view(&self) -> DocView {
        DocView {
            last_page: self.last_page,
            zoom: self.zoom,
            rotation: self.rotation,
            scroll_x: self.scroll_x,
            scroll_y: self.scroll_y,
            night_mode: self.night_mode,
            render_dpi: self.render_dpi,
            render_quality: self.render_quality,
            cache_enabled: self.cache_enabled,
            cache_size: self.cache_size,
            ecache_size: self.ecache_size,
            bookmarks: self.bookmarks@,
            mouse_enabled: self.mouse_enabled,
            extras: self.extras@,
        }
    }
}

/// The state of a document that has never been opened.
pub open spec fn initial() -> DocView {
    DocView {
        last_page: 0,
        zoom: ZoomMode::FitWidth,
        rotation: Rotation::R0,
        scroll_x: 0,
        scroll_y: 0,
        night_mode: false,
        render_dpi: None,
        render_quality: Real32 { bits: ONE },
        cache_enabled: true,
        cache_size: None,
        ecache_size: None,
        bookmarks: Seq::empty(),
        mouse_enabled: None,
        extras: Seq::empty(),
    }
}

impl Default for DocState {
    fn default() -> (s: DocState)
        ensures
            s@ == initial(),
            s@.wf(),
    {
        let s = DocState {
            last_page: 0,
            zoom: ZoomMode::FitWidth,
            rotation: Rotation::R0,
            scroll_x: 0,
            scroll_y: 0,
            night_mode: false,
            render_dpi: None,
            render_quality: Real32 { bits: ONE },
            cache_enabled: true,
            cache_size: None,
            ecache_size: None,
            bookmarks: Vec::new(),
            mouse_enabled: None,
            extras: LuaTable { entries: Vec::new() },
        };
        assert(s@ =~= initial());
        s
    }
}

// ------------------------------ Bookmarks ------------------------------

/// Position of the first bookmark with that letter.
pub open spec fn marked_at(bs: Seq<Bookmark>, mark: char) -> Option<int>
    decreases bs.len(),
{
    if bs.len() == 0 {
        None
    } else if bs[0].mark == mark {
        Some(0)
    } else {
        match marked_at(bs.skip(1), mark) {
            Some(i) => Some(i + 1),
            None => None,
        }
    }
}

/// `marked_at` finds the first bookmark with the letter, or that there is none.
pub proof fn lemma_marked_at(bs: Seq<Bookmark>, mark: char)
    ensures
        marked_at(bs, mark) matches Some(i) ==> {
            &&& 0 <= i < bs.len()
            &&& bs[i].mark == mark
            &&& forall|j: int| 0 <= j < i ==> (#[trigger] bs[j]).mark != mark
        },
        marked_at(bs, mark) is None ==> forall|j: int|
            0 <= j < bs.len() ==> (#[trigger] bs[j]).mark != mark,
    decreases bs.len(),
{
    if bs.len() > 0 && bs[0].mark != mark {
        let rest = bs.skip(1);
        lemma_marked_at(rest, mark);
        assert forall|j: int| 1 <= j < bs.len() implies bs[j] == rest[j - 1] by {}
    }
}

/// The bookmarks with `b` set: in place of one with its letter, else last.
pub open spec fn bookmarked(bs: Seq<Bookmark>, b: Bookmark) -> Seq<Bookmark> {
    match marked_at(bs, b.mark) {
        Some(i) => bs.update(i, b),
        None => bs.push(b),
    }
}

/// The bookmarks without those of that letter.
pub open spec fn unmarked(bs: Seq<Bookmark>, mark: char) -> Seq<Bookmark>
    decreases bs.len(),
{
    if bs.len() == 0 {
        bs
    } else if bs[0].mark == mark {
        unmarked(bs.skip(1), mark)
    } else {
        seq![bs[0]] + unmarked(bs.skip(1), mark)
    }
}

/// No letter is marked twice.
pub open spec fn marks_differ(bs: Seq<Bookmark>) -> bool {
    forall|i: int, j: int|
        0 <= i < bs.len() && 0 <= j < bs.len() && i != j ==> #[trigger] bs[i].mark
            != #[trigger] bs[j].mark
}

/// A bookmark that was set is found; all other letters are as before, and no
/// letter gets two bookmarks.
pub proof fn lemma_set_then_find(bs: Seq<Bookmark>, b: Bookmark, other: char)
    requires
        marks_differ(bs),
    ensures
        marks_differ(bookmarked(bs, b)),
        marked_at(bookmarked(bs, b), b.mark) matches Some(i) && bookmarked(bs, b)[i] == b,
        other != b.mark ==> (match (marked_at(bs, other), marked_at(bookmarked(bs, b), other)) {
            (Some(i), Some(j)) => bs[i] == bookmarked(bs, b)[j],
            (None, None) => true,
            _ => false,
        }),
{
    let after = bookmarked(bs, b);
    lemma_marked_at(bs, b.mark);
    lemma_marked_at(after, b.mark);
    lemma_marked_at(bs, other);
    lemma_marked_at(after, other);
    match marked_at(bs, b.mark) {
        Some(i) => {
            assert(after[i] == b);
            assert forall|j: int| 0 <= j < bs.len() && j != i implies after[j] == bs[j] by {}
        },
        None => {
            assert(after[bs.len() as int] == b);
            assert forall|j: int| 0 <= j < bs.len() implies after[j] == bs[j] by {}
        },
    }
}

/// A deleted letter is not found any more; all others are kept in order.
pub proof fn lemma_delete_forgets(bs: Seq<Bookmark>, mark: char)
    ensures
        marked_at(unmarked(bs, mark), mark) is None,
        forall|b: Bookmark|
            b.mark != mark ==> (unmarked(bs, mark).contains(b) <==> #[trigger] bs.contains(b)),
        marked_at(bs, mark) is None ==> unmarked(bs, mark) == bs,
    decreases bs.len(),
{
    if bs.len() > 0 {
        let rest = bs.skip(1);
        lemma_delete_forgets(rest, mark);
        let less = unmarked(rest, mark);
        let kept = seq![bs[0]] + less;
        assert(kept.skip(1) == less);
        assert forall|b: Bookmark| b.mark != mark implies (unmarked(bs, mark).contains(b)
            <==> #[trigger] bs.contains(b)) by {
            if bs.contains(b) {
                let i = bs.index_of(b);
                assert(bs[i] == b);
                if i > 0 {
                    assert(rest[i - 1] == b);
                    assert(rest.contains(b));
                    let j = less.index_of(b);
                    assert(less[j] == b);
                    assert(kept[j + 1] == b);
                } else {
                    assert(kept[0] == b);
                }
            }
            if unmarked(bs, mark).contains(b) {
                if bs[0].mark == mark {
                    assert(rest.contains(b));
                    let j = rest.index_of(b);
                    assert(bs[j + 1] == b);
                } else {
                    let j = kept.index_of(b);
                    assert(kept[j] == b);
                    if j > 0 {
                        assert(less[j - 1] == b);
                        assert(less.contains(b));
                        assert(rest.contains(b));
                        let m = rest.index_of(b);
                        assert(bs[m + 1] == b);
                    } else {
                        assert(bs[0] == b);
                    }
                }
            }
        }
        if marked_at(bs, mark) is None {
            assert(seq![bs[0]] + rest == bs);
        }
    }
}

impl DocState {
    /// Set or replace a single-letter mark.
    pub fn set_bookmark(&mut self, mark: char, page: usize, x_off: i32, y_off: i32)
        ensures
            final(self)@ == (DocView {
                bookmarks: bookmarked(old(self)@.bookmarks, Bookmark { mark, page, x_off, y_off }),
                ..old(self)@
            }),
    {
        let b = Bookmark { mark, page, x_off, y_off };
        let ghost before = self.bookmarks@;
        let n: usize = self.bookmarks.len();
        let mut i: usize = 0;
        while i < n && self.bookmarks[i].mark != mark
            invariant
                i <= n == self.bookmarks@.len(),
                self.bookmarks@ == before,
                forall|k: int| 0 <= k < i ==> (#[trigger] before[k]).mark != mark,
            decreases n - i,
        {
            i += 1;
        }
        proof {
            lemma_marked_at(before, mark);
        }
        if i < n {
            self.bookmarks[i] = b;
        } else {
            self.bookmarks.push(b);
        }
    }

    /// Delete a mark; whether there was one.
    pub fn delete_bookmark(&mut self, mark: char) -> (found: bool)
        ensures
            final(self)@ == (DocView {
                bookmarks: unmarked(old(self)@.bookmarks, mark),
                ..old(self)@
            }),
            found == (marked_at(old(self)@.bookmarks, mark) is Some),
    {
        let ghost before = self.bookmarks@;
        let mut found: bool = false;
        let mut kept: Vec<Bookmark> = Vec::new();
        let n: usize = self.bookmarks.len();
        let mut i: usize = 0;
        assert(before.skip(0) == before);
        assert(kept@ + unmarked(before, mark) == unmarked(before, mark));
        while i < n
            invariant
                i <= n == self.bookmarks@.len(),
                self.bookmarks@ == before,
                kept@ + unmarked(before.skip(i as int), mark) == unmarked(before, mark),
                found <==> exists|k: int| 0 <= k < i && (#[trigger] before[k]).mark == mark,
            decreases n - i,
        {
            let b: Bookmark = self.bookmarks[i];
            let ghost rest = before.skip(i as int);
            let ghost sofar = kept@;
            assert(rest[0] == before[i as int]);
            assert(rest.skip(1) == before.skip(i + 1));
            if b.mark == mark {
                found = true;
            } else {
                kept.push(b);
                assert(sofar + (seq![b] + unmarked(rest.skip(1), mark)) =~= kept@ + unmarked(
                    rest.skip(1),
                    mark,
                ));
            }
            i += 1;
        }
        proof {
            assert(before.skip(n as int).len() == 0);
            assert(kept@ + unmarked(before.skip(n as int), mark) =~= kept@);
            lemma_marked_at(before, mark);
        }
        self.bookmarks = kept;
        found
    }

    /// The bookmark with that letter.
    pub fn find_bookmark(&self, mark: char) -> (r: Option<&Bookmark>)
        ensures
            match marked_at(self@.bookmarks, mark) {
                Some(i) => r == Some(&self@.bookmarks[i]),
                None => r is None,
            },
    {
        let n: usize = self.bookmarks.len();
        let mut i: usize = 0;
        while i < n && self.bookmarks[i].mark != mark
            invariant
                i <= n == self.bookmarks@.len(),
                forall|k: int| 0 <= k < i ==> (#[trigger] self.bookmarks@[k]).mark != mark,
            decreases n - i,
        {
            i += 1;
        }
        proof {
            lemma_marked_at(self.bookmarks@, mark);
        }
        if i < n {
            Some(&self.bookmarks[i])
        } else {
            None
        }
    }
}

// ------------------------------ Fields ------------------------------

/// The entries of a sidecar file that are understood.
#[derive(Debug, Clone, Copy, PartialEq, Eq, Structural)]
pub enum Field {
    LastPage,
    Zoom,
    ZoomMult,
    Rotation,
    ScrollX,
    ScrollY,
    NightMode,
    RenderDpi,
    RenderQuality,
    CacheEnabled,
    CacheSize,
    ECacheSize,
    MouseEnabled,
    Bookmarks,
}

/// The name under which a field is kept.
pub open spec fn field_name(f: Field) -> Seq<char> {
    match f {
        Field::LastPage => "last_page"@,
        Field::Zoom => "zoom"@,
        Field::ZoomMult => "zoom_mult"@,
        Field::Rotation => "rotation"@,
        Field::ScrollX => "scroll_x"@,
        Field::ScrollY => "scroll_y"@,
        Field::NightMode => "night_mode"@,
        Field::RenderDpi => "render_dpi"@,
        Field::RenderQuality => "render_quality"@,
        Field::CacheEnabled => "cache_enabled"@,
        Field::CacheSize => "cache_size"@,
        Field::ECacheSize => "ecache_size"@,
        Field::MouseEnabled => "mouse_enabled"@,
        Field::Bookmarks => "svr_bookmarks"@,
    }
}

/// The field that is kept under a name.
pub open spec fn field_of(name: Seq<char>) -> Option<Field> {
    if name == "last_page"@ {
        Some(Field::LastPage)
    } else if name == "zoom"@ {
        Some(Field::Zoom)
    } else if name == "zoom_mult"@ {
        Some(Field::ZoomMult)
    } else if name == "rotation"@ {
        Some(Field::Rotation)
    } else if name == "scroll_x"@ {
        Some(Field::ScrollX)
    } else if name == "scroll_y"@ {
        Some(Field::ScrollY)
    } else if name == "night_mode"@ {
        Some(Field::NightMode)
    } else if name == "render_dpi"@ {
        Some(Field::RenderDpi)
    } else if name == "render_quality"@ {
        Some(Field::RenderQuality)
    } else if name == "cache_enabled"@ {
        Some(Field::CacheEnabled)
    } else if name == "cache_size"@ {
        Some(Field::CacheSize)
    } else if name == "ecache_size"@ {
        Some(Field::ECacheSize)
    } else if name == "mouse_enabled"@ {
        Some(Field::MouseEnabled)
    } else if name == "svr_bookmarks"@ {
        Some(Field::Bookmarks)
    } else {
        None
    }
}

/// The field that a key names.
pub open spec fn key_field(k: Key) -> Option<Field> {
    match k {
        Key::Text(name) => field_of(name),
        _ => None,
    }
}

/// Fields have different names.
pub proof fn lemma_field_names(f: Field)
    ensures
        field_of(field_name(f)) == Some(f),
{
    reveal_strlit("last_page");
    reveal_strlit("zoom");
    reveal_strlit("zoom_mult");
    reveal_strlit("rotation");
    reveal_strlit("scroll_x");
    reveal_strlit("scroll_y");
    reveal_strlit("night_mode");
    reveal_strlit("render_dpi");
    reveal_strlit("render_quality");
    reveal_strlit("cache_enabled");
    reveal_strlit("cache_size");
    reveal_strlit("ecache_size");
    reveal_strlit("mouse_enabled");
    reveal_strlit("svr_bookmarks");
    let name = field_name(f);
    assert(name.len() == (match f {
        Field::LastPage => 9int,
        Field::Zoom => 4int,
        Field::ZoomMult => 9int,
        Field::Rotation => 8int,
        Field::ScrollX => 8int,
        Field::ScrollY => 8int,
        Field::NightMode => 10int,
        Field::RenderDpi => 10int,
        Field::RenderQuality => 14int,
        Field::CacheEnabled => 13int,
        Field::CacheSize => 10int,
        Field::ECacheSize => 11int,
        Field::MouseEnabled => 13int,
        Field::Bookmarks => 13int,
    }));
    assert(name[0] == field_name(f)[0]);
    assert("last_page"@[0] != "zoom_mult"@[0]);
    assert("rotation"@[0] != "scroll_x"@[0] && "scroll_x"@[7] != "scroll_y"@[7]);
    assert("night_mode"@[0] != "render_dpi"@[0] && "night_mode"@[0] != "cache_size"@[0]);
    assert("render_dpi"@[0] != "cache_size"@[0]);
    assert("cache_enabled"@[0] != "mouse_enabled"@[0] && "cache_enabled"@[0]
        != "svr_bookmarks"@[0] && "mouse_enabled"@[0] != "svr_bookmarks"@[0]);
}

fn find_field(name: &str) -> (r: Option<Field>)
    ensures
        r == field_of(name@),
{
    if same(name, "last_page") {
        Some(Field::LastPage)
    } else if same(name, "zoom") {
        Some(Field::Zoom)
    } else if same(name, "zoom_mult") {
        Some(Field::ZoomMult)
    } else if same(name, "rotation") {
        Some(Field::Rotation)
    } else if same(name, "scroll_x") {
        Some(Field::ScrollX)
    } else if same(name, "scroll_y") {
        Some(Field::ScrollY)
    } else if same(name, "night_mode") {
        Some(Field::NightMode)
    } else if same(name, "render_dpi") {
        Some(Field::RenderDpi)
    } else if same(name, "render_quality") {
        Some(Field::RenderQuality)
    } else if same(name, "cache_enabled") {
        Some(Field::CacheEnabled)
    } else if same(name, "cache_size") {
        Some(Field::CacheSize)
    } else if same(name, "ecache_size") {
        Some(Field::ECacheSize)
    } else if same(name, "mouse_enabled") {
        Some(Field::MouseEnabled)
    } else if same(name, "svr_bookmarks") {
        Some(Field::Bookmarks)
    } else {
        None
    }
}

fn find_key_field(k: &LuaKey) -> (r: Option<Field>)
    ensures
        r == key_field(k@),
{
    match k {
        LuaKey::Text(name) => find_field(name.as_str()),
        _ => None,
    }
}

/// The entries that are not understood.
pub open spec fn unknown(es: Seq<(Key, Lua)>) -> Seq<(Key, Lua)>
    decreases es.len(),
{
    if es.len() == 0 {
        es
    } else if key_field(es[0].0) is Some {
        unknown(es.skip(1))
    } else {
        seq![es[0]] + unknown(es.skip(1))
    }
}

impl DocView {
    /// What was not understood holds no field. This is so of every state that
    /// is new or was loaded.
    pub open spec fn wf(self) -> bool {
        forall|i: int|
            0 <= i < self.extras.len() ==> key_field((#[trigger] self.extras[i]).0) is None
    }
}

/// Taking the fields out leaves none.
pub(crate) proof fn lemma_unknown(es: Seq<(Key, Lua)>)
    ensures
        forall|i: int|
            0 <= i < unknown(es).len() ==> key_field((#[trigger] unknown(es)[i]).0) is None,
    decreases es.len(),
{
    if es.len() > 0 {
        let rest = unknown(es.skip(1));
        lemma_unknown(es.skip(1));
        if key_field(es[0].0) is None {
            let all = seq![es[0]] + rest;
            assert forall|i: int| 0 <= i < all.len() implies key_field(
                (#[trigger] all[i]).0,
            ) is None by {
                if i > 0 {
                    assert(all[i] == rest[i - 1]);
                }
            }
        }
    }
}

// ------------------------------ Loading ------------------------------

/// The zoom that a name stands for.
pub open spec fn zoom_named(s: Seq<char>) -> Option<ZoomMode> {
    if s == "fit-w"@ || s == "fitwidth"@ || s == "fit_width"@ {
        Some(ZoomMode::FitWidth)
    } else if s == "fit-h"@ || s == "fitheight"@ || s == "fit_height"@ {
        Some(ZoomMode::FitHeight)
    } else if s == "fit-p"@ || s == "fitpage"@ || s == "fit_page"@ {
        Some(ZoomMode::FitPage)
    } else if s == "custom"@ {
        Some(ZoomMode::Custom(Real32 { bits: ONE }))
    } else {
        None
    }
}

/// A number as a count of at least `least`.
pub open spec fn count_of(s: Seq<char>, least: int) -> usize {
    let n = numeral::integer_of(s, i64::MIN as int, i64::MAX as int);
    (if n < least {
        least
    } else {
        n
    }) as usize
}

/// A number as a scroll offset.
pub open spec fn offset_of(s: Seq<char>) -> i32 {
    numeral::integer_of(s, i32::MIN as int, i32::MAX as int) as i32
}

/// An optional number as a scroll offset, zero where there is none.
pub open spec fn offset_or_zero(v: Option<Lua>) -> i32 {
    match v {
        Some(Lua::Number(s)) => offset_of(s),
        _ => 0,
    }
}

/// The rotation nearest below an angle in degrees.
pub open spec fn rotation_of(degrees: int) -> Rotation {
    let q = (degrees % 360) / 90;
    if q == 0 {
        Rotation::R0
    } else if q == 1 {
        Rotation::R90
    } else if q == 2 {
        Rotation::R180
    } else {
        Rotation::R270
    }
}

/// The bookmarks with the one that an entry describes; an entry without a
/// mark or a page describes none.
pub open spec fn with_mark(bs: Seq<Bookmark>, v: Lua) -> Seq<Bookmark> {
    match v {
        Lua::Table(es) => match (lua::lookup(es, "mark"@), lua::lookup(es, "page"@)) {
            (Some(Lua::Text(m)), Some(Lua::Number(p))) => if m.len() > 0 {
                bookmarked(
                    bs,
                    Bookmark {
                        mark: m[0],
                        page: count_of(p, 0),
                        x_off: offset_or_zero(lua::lookup(es, "x_off"@)),
                        y_off: offset_or_zero(lua::lookup(es, "y_off"@)),
                    },
                )
            } else {
                bs
            },
            _ => bs,
        },
        _ => bs,
    }
}

/// The bookmarks with all that a list describes.
pub open spec fn with_marks(bs: Seq<Bookmark>, es: Seq<(Key, Lua)>) -> Seq<Bookmark>
    decreases es.len(),
{
    if es.len() == 0 {
        bs
    } else {
        with_mark(with_marks(bs, es.drop_last()), es.last().1)
    }
}

/// The state after one more entry. `single` is the value of the entry's
/// number, where it has one.
pub open spec fn absorbed(d: DocView, k: Key, v: Lua, single: Real32) -> DocView {
    match (key_field(k), v) {
        (Some(Field::LastPage), Lua::Number(s)) => DocView { last_page: count_of(s, 0), ..d },
        (Some(Field::Zoom), Lua::Text(s)) => match zoom_named(s) {
            Some(zoom) => DocView { zoom, ..d },
            None => d,
        },
        (Some(Field::ZoomMult), Lua::Number(_)) => if d.zoom is Custom {
            DocView { zoom: ZoomMode::Custom(single), ..d }
        } else {
            d
        },
        (Some(Field::Rotation), Lua::Number(s)) => DocView {
            rotation: rotation_of(offset_of(s) as int),
            ..d
        },
        (Some(Field::ScrollX), Lua::Number(s)) => DocView { scroll_x: offset_of(s), ..d },
        (Some(Field::ScrollY), Lua::Number(s)) => DocView { scroll_y: offset_of(s), ..d },
        (Some(Field::NightMode), Lua::Bool(b)) => DocView { night_mode: b, ..d },
        (Some(Field::RenderDpi), Lua::Number(_)) => DocView { render_dpi: Some(single), ..d },
        (Some(Field::RenderDpi), Lua::Nil) => DocView { render_dpi: None, ..d },
        (Some(Field::RenderQuality), Lua::Number(_)) => DocView { render_quality: single, ..d },
        (Some(Field::CacheEnabled), Lua::Bool(b)) => DocView { cache_enabled: b, ..d },
        (Some(Field::CacheSize), Lua::Number(s)) => DocView {
            cache_size: Some(count_of(s, 1)),
            ..d
        },
        (Some(Field::ECacheSize), Lua::Number(s)) => DocView {
            ecache_size: Some(count_of(s, 1)),
            ..d
        },
        (Some(Field::MouseEnabled), Lua::Bool(b)) => DocView { mouse_enabled: Some(b), ..d },
        (Some(Field::Bookmarks), Lua::Table(es)) => DocView {
            bookmarks: with_marks(d.bookmarks, es),
            ..d
        },
        _ => d,
    }
}

/// The state after all entries, in order.
pub open spec fn absorbed_all(d: DocView, es: Seq<(Key, Lua)>, singles: Seq<Real32>) -> DocView
    decreases es.len(),
{
    if es.len() == 0 {
        d
    } else {
        absorbed(
            absorbed_all(d, es.drop_last(), singles),
            es.last().0,
            es.last().1,
            singles[es.len() - 1],
        )
    }
}

/// The state that a table holds.
pub open spec fn held(es: Seq<(Key, Lua)>, singles: Seq<Real32>) -> DocView {
    DocView { extras: unknown(es), ..absorbed_all(initial(), es, singles) }
}

fn parse_zoom(s: &str) -> (r: Option<ZoomMode>)
    ensures
        r == zoom_named(s@),
{
    if same(s, "fit-w") || same(s, "fitwidth") || same(s, "fit_width") {
        Some(ZoomMode::FitWidth)
    } else if same(s, "fit-h") || same(s, "fitheight") || same(s, "fit_height") {
        Some(ZoomMode::FitHeight)
    } else if same(s, "fit-p") || same(s, "fitpage") || same(s, "fit_page") {
        Some(ZoomMode::FitPage)
    } else if same(s, "custom") {
        Some(ZoomMode::Custom(Real32 { bits: ONE }))
    } else {
        None
    }
}

fn read_count(s: &str, least: i64) -> (n: usize)
    requires
        0 <= least,
    ensures
        n == count_of(s@, least as int),
{
    let n: i64 = to_i64(s);
    #[verifier::truncate]
    ((if n < least {
        least
    } else {
        n
    }) as usize)
}

fn read_offset(s: &str) -> (n: i32)
    ensures
        n == offset_of(s@),
{
    let n: i64 = to_i64(s);
    if n < -0x8000_0000 {
        i32::MIN
    } else if n > 0x7FFF_FFFF {
        i32::MAX
    } else {
        n as i32
    }
}

fn read_optional_offset(v: Option<&LuaValue>) -> (n: i32)
    ensures
        n == offset_or_zero(
            match v {
                Some(x) => Some(x@),
                None => None,
            },
        ),
{
    match v {
        Some(LuaValue::Number(s)) => read_offset(s.as_str()),
        _ => 0,
    }
}

impl DocState {
    fn absorb_mark(&mut self, v: &LuaValue)
        ensures
            final(self)@ == (DocView {
                bookmarks: with_mark(old(self)@.bookmarks, v@),
                ..old(self)@
            }),
    {
        if let LuaValue::Table(t) = v {
            let mark: char = match t.get("mark") {
                Some(LuaValue::Text(m)) => {
                    let cs: Vec<char> = to_chars(m.as_str());
                    if cs.len() == 0 {
                        return ;
                    }
                    cs[0]
                },
                _ => return ,
            };
            let page: usize = match t.get("page") {
                Some(LuaValue::Number(p)) => read_count(p.as_str(), 0),
                _ => return ,
            };
            let x_off: i32 = read_optional_offset(t.get("x_off"));
            let y_off: i32 = read_optional_offset(t.get("y_off"));
            self.set_bookmark(mark, page, x_off, y_off);
        }
    }

    fn absorb_marks(&mut self, t: &LuaTable)
        ensures
            final(self)@ == (DocView {
                bookmarks: with_marks(old(self)@.bookmarks, t@),
                ..old(self)@
            }),
    {
        let ghost start = self@;
        proof {
            lua::lemma_view_entries(t.entries@);
        }
        let mut i: usize = 0;
        assert(t@.take(0).len() == 0);
        assert(self@ =~= (DocView {
            bookmarks: with_marks(start.bookmarks, t@.take(0)),
            ..start
        }));
        while i < t.entries.len()
            invariant
                i <= t.entries@.len() == t@.len(),
                forall|k: int|
                    0 <= k < t@.len() ==> #[trigger] t@[k] == (
                        t.entries@[k].0@,
                        t.entries@[k].1@,
                    ),
                self@ == (DocView {
                    bookmarks: with_marks(start.bookmarks, t@.take(i as int)),
                    ..start
                }),
            decreases t.entries@.len() - i,
        {
            let ghost u = t@.take(i + 1);
            assert(u.drop_last() == t@.take(i as int));
            assert(u.last() == t@[i as int]);
            self.absorb_mark(&t.entries[i].1);
            i += 1;
        }
        assert(t@.take(i as int) == t@);
    }

    fn absorb(&mut self, k: &LuaKey, v: &LuaValue, single: Real32)
        ensures
            final(self)@ == absorbed(old(self)@, k@, v@, single),
    {
        let field: Field = match find_key_field(k) {
            Some(f) => f,
            None => return ,
        };
        match (field, v) {
            (Field::LastPage, LuaValue::Number(s)) => {
                self.last_page = read_count(s.as_str(), 0);
            },
            (Field::Zoom, LuaValue::Text(s)) => {
                if let Some(zoom) = parse_zoom(s.as_str()) {
                    self.zoom = zoom;
                }
            },
            (Field::ZoomMult, LuaValue::Number(_)) => {
                // Only a custom zoom has a multiplier.
                if let ZoomMode::Custom(_) = self.zoom {
                    self.zoom = ZoomMode::Custom(single);
                }
            },
            (Field::Rotation, LuaValue::Number(s)) => {
                self.rotation = Rotation::from_degrees(read_offset(s.as_str()));
            },
            (Field::ScrollX, LuaValue::Number(s)) => {
                self.scroll_x = read_offset(s.as_str());
            },
            (Field::ScrollY, LuaValue::Number(s)) => {
                self.scroll_y = read_offset(s.as_str());
            },
            (Field::NightMode, LuaValue::Bool(b)) => {
                self.night_mode = *b;
            },
            (Field::RenderDpi, LuaValue::Number(_)) => {
                self.render_dpi = Some(single);
            },
            (Field::RenderDpi, LuaValue::Nil) => {
                self.render_dpi = None;
            },
            (Field::RenderQuality, LuaValue::Number(_)) => {
                self.render_quality = single;
            },
            (Field::CacheEnabled, LuaValue::Bool(b)) => {
                self.cache_enabled = *b;
            },
            (Field::CacheSize, LuaValue::Number(s)) => {
                self.cache_size = Some(read_count(s.as_str(), 1));
            },
            (Field::ECacheSize, LuaValue::Number(s)) => {
                self.ecache_size = Some(read_count(s.as_str(), 1));
            },
            (Field::MouseEnabled, LuaValue::Bool(b)) => {
                self.mouse_enabled = Some(*b);
            },
            (Field::Bookmarks, LuaValue::Table(t)) => {
                self.absorb_marks(t);
            },
            _ => {},
        }
    }

    /// The state that a table holds. `singles[i]` is the value of entry `i`'s
    /// number, where it has one.
    pub fn from_table(tbl: LuaTable, singles: &Vec<Real32>) -> (st: DocState)
        requires
            singles@.len() == tbl.entries@.len(),
        ensures
            st@ == held(tbl@, singles@),
            st@.wf(),
    {
        let ghost es = tbl@;
        let mut st: DocState = DocState::default();
        proof {
            lua::lemma_view_entries(tbl.entries@);
            lemma_unknown(es);
        }
        let mut i: usize = 0;
        assert(es.take(0).len() == 0);
        while i < tbl.entries.len()
            invariant
                i <= tbl.entries@.len() == es.len() == singles@.len(),
                forall|k: int|
                    0 <= k < es.len() ==> #[trigger] es[k] == (
                        tbl.entries@[k].0@,
                        tbl.entries@[k].1@,
                    ),
                st@ == absorbed_all(initial(), es.take(i as int), singles@),
            decreases tbl.entries@.len() - i,
        {
            let ghost u = es.take(i + 1);
            assert(u.drop_last() == es.take(i as int));
            assert(u.last() == es[i as int]);
            st.absorb(&tbl.entries[i].0, &tbl.entries[i].1, singles[i]);
            i += 1;
        }
        assert(es.take(i as int) == es);
        st.extras = drop_fields(tbl);
        assert(st@ =~= held(es, singles@));
        st
    }
}

/// The table without the entries that are understood.
fn drop_fields(tbl: LuaTable) -> (r: LuaTable)
    ensures
        r@ == unknown(tbl@),
{
    let mut r: LuaTable = tbl;
    let ghost before = r@;
    let mut i: usize = 0;
    proof {
        lua::lemma_view_entries(r.entries@);
        assert(before.skip(0) == before);
        assert(before.take(0) + unknown(before) == unknown(before));
    }
    while i < r.entries.len()
        invariant
            i <= r.entries@.len() == r@.len(),
            r@.take(i as int) + unknown(r@.skip(i as int)) == unknown(before),
        decreases r.entries@.len() - i,
    {
        let ghost now = r@;
        let ghost list = r.entries@;
        let ghost rest = now.skip(i as int);
        proof {
            lua::lemma_view_entries(list);
            assert(now[i as int] == (list[i as int].0@, list[i as int].1@));
            assert(rest[0] == now[i as int]);
            assert(rest.skip(1) == now.skip(i + 1));
        }
        if find_key_field(&r.entries[i].0).is_some() {
            r.entries.remove(i);
            proof {
                lua::lemma_view_entries(r.entries@);
                assert(r@ =~= now.remove(i as int));
                assert(r@.take(i as int) =~= now.take(i as int));
                assert(r@.skip(i as int) =~= now.skip(i + 1));
            }
        } else {
            assert(now.take(i as int) + (seq![rest[0]] + unknown(rest.skip(1))) =~= now.take(
                i + 1,
            ) + unknown(now.skip(i + 1)));
            i += 1;
        }
    }
    assert(r@.skip(i as int).len() == 0);
    assert(r@.take(i as int) + unknown(r@.skip(i as int)) =~= r@);
    r
}

// ------------------------------ Saving ------------------------------

/// The floating-point settings of a state, in text form.
#[derive(Debug)]
pub struct Numerals {
    /// The multiplier of a custom zoom.
    pub zoom_mult: String,
    pub render_dpi: String,
    pub render_quality: String,
}

/// What `Numerals` stand for.
pub struct NumeralTexts {
    pub zoom_mult: Seq<char>,
    pub render_dpi: Seq<char>,
    pub render_quality: Seq<char>,
}

impl View for Numerals {
    type V = NumeralTexts;

    open spec fn view(&self) -> NumeralTexts {
        NumeralTexts {
            zoom_mult: self.zoom_mult@,
            render_dpi: self.render_dpi@,
            render_quality: self.render_quality@,
        }
    }
}

/// A field set to a value, or dropped where there is none; the multiplier of
/// a custom zoom is never dropped.
pub open spec fn put(es: Seq<(Key, Lua)>, f: Field, v: Option<Lua>) -> Seq<(Key, Lua)> {
    match v {
        Some(x) => lua::assigned(es, field_name(f), x),
        None => if f == Field::ZoomMult {
            es
        } else {
            lua::removed(es, field_name(f))
        },
    }
}

/// An optional count as a number.
pub open spec fn count_value(n: Option<usize>) -> Option<Lua> {
    match n {
        Some(n) => Some(Lua::Number(text::decimal(n as nat))),
        None => None,
    }
}

/// The name of a zoom.
pub open spec fn zoom_name(zoom: ZoomMode) -> Seq<char> {
    match zoom {
        ZoomMode::FitWidth => "fit-w"@,
        ZoomMode::FitHeight => "fit-h"@,
        ZoomMode::FitPage => "fit-p"@,
        ZoomMode::Custom(_) => "custom"@,
    }
}

/// A bookmark as a table.
pub open spec fn mark_value(b: Bookmark) -> Lua {
    Lua::Table(
        seq![
            (Key::Text("mark"@), Lua::Text(seq![b.mark])),
            (Key::Text("page"@), Lua::Number(text::decimal(b.page as nat))),
            (Key::Text("x_off"@), Lua::Number(text::signed_decimal(b.x_off as int))),
            (Key::Text("y_off"@), Lua::Number(text::signed_decimal(b.y_off as int))),
        ],
    )
}

/// Bookmarks as a list, numbered from 1.
pub open spec fn mark_entries(bs: Seq<Bookmark>) -> Seq<(Key, Lua)>
    decreases bs.len(),
{
    if bs.len() == 0 {
        Seq::empty()
    } else {
        mark_entries(bs.drop_last()).push((Key::Int(bs.len() as int), mark_value(bs.last())))
    }
}

/// The value that a field of a state is kept as; `None` where it is left out.
pub open spec fn field_value(d: DocView, t: NumeralTexts, f: Field) -> Option<Lua> {
    match f {
        Field::LastPage => Some(Lua::Number(text::decimal(d.last_page as nat))),
        Field::Zoom => Some(Lua::Text(zoom_name(d.zoom))),
        Field::ZoomMult => if d.zoom is Custom {
            Some(Lua::Number(t.zoom_mult))
        } else {
            None
        },
        Field::Rotation => Some(Lua::Number(text::decimal(90 * d.rotation.quarters() as nat))),
        Field::ScrollX => Some(Lua::Number(text::signed_decimal(d.scroll_x as int))),
        Field::ScrollY => Some(Lua::Number(text::signed_decimal(d.scroll_y as int))),
        Field::NightMode => Some(Lua::Bool(d.night_mode)),
        Field::RenderDpi => if d.render_dpi is Some {
            Some(Lua::Number(t.render_dpi))
        } else {
            None
        },
        Field::RenderQuality => Some(Lua::Number(t.render_quality)),
        Field::CacheEnabled => Some(Lua::Bool(d.cache_enabled)),
        Field::CacheSize => count_value(d.cache_size),
        Field::ECacheSize => count_value(d.ecache_size),
        Field::MouseEnabled => match d.mouse_enabled {
            Some(b) => Some(Lua::Bool(b)),
            None => None,
        },
        Field::Bookmarks => if d.bookmarks.len() == 0 {
            None
        } else {
            Some(Lua::Table(mark_entries(d.bookmarks)))
        },
    }
}

/// All fields, in the order in which they are written.
pub open spec fn fields() -> Seq<Field> {
    seq![
        Field::LastPage,
        Field::Zoom,
        Field::ZoomMult,
        Field::Rotation,
        Field::ScrollX,
        Field::ScrollY,
        Field::NightMode,
        Field::RenderDpi,
        Field::RenderQuality,
        Field::CacheEnabled,
        Field::CacheSize,
        Field::ECacheSize,
        Field::MouseEnabled,
        Field::Bookmarks,
    ]
}

/// `es` with the first `n` fields of a state put in.
pub open spec fn merged_upto(es: Seq<(Key, Lua)>, d: DocView, t: NumeralTexts, n: int) -> Seq<
    (Key, Lua),
>
    decreases n,
{
    if n <= 0 {
        es
    } else {
        put(merged_upto(es, d, t, n - 1), fields()[n - 1], field_value(d, t, fields()[n - 1]))
    }
}

/// The table that a state is kept as: what was not understood, then the
/// fields.
pub open spec fn kept(d: DocView, t: NumeralTexts) -> Seq<(Key, Lua)> {
    merged_upto(d.extras, d, t, fields().len() as int)
}

/// The lower case of a text, as the standard library's `str::to_lowercase` has
/// it.
pub uninterp spec fn lowercase(s: Seq<char>) -> Seq<char>;

/// Calls `str::to_lowercase`. The result depends on the text alone, and of a
/// text of ASCII characters the letters from A to Z become those from a to z.
/// What becomes of other characters is not said.
#[verifier::external_body]
fn lower_case(s: &str) -> (r: String)
    ensures
        r@ == lowercase(s@),
        (forall|i: int| 0 <= i < s@.len() ==> (#[trigger] s@[i] as int) < 128) ==> r@
            == text::lowered(s@),
{
    s.to_lowercase()
}

/// The file for the state of a document: `<file>.sdr/metadata.<ext>.lua` in the
/// document's directory.
pub open spec fn beside(
    parent: Seq<char>,
    file_name: Option<Seq<char>>,
    extension: Option<Seq<char>>,
) -> Seq<char> {
    commands::joined(
        commands::joined(
            parent,
            (match file_name {
                Some(name) => name,
                None => "document"@,
            }) + ".sdr"@,
        ),
        "metadata."@ + (match extension {
            Some(ext) => ext,
            None => "pdf"@,
        }) + ".lua"@,
    )
}

/// The file for the state of the document at a path.
pub open spec fn sidecar_of(path: Seq<char>) -> Seq<char> {
    beside(
        match paths::parent(path) {
            Some(p) => p,
            None => "."@,
        },
        paths::file_name(path),
        match paths::file_name(path) {
            Some(name) => match paths::file_type(name) {
                Some(e) => Some(lowercase(e)),
                None => None,
            },
            None => None,
        },
    )
}

/// The text of a sidecar file.
pub open spec fn sidecar_text(comment: Seq<char>, es: Seq<(Key, Lua)>) -> Seq<char> {
    "-- "@ + comment + "\nreturn "@ + lua::value_text(Lua::Table(es), Seq::empty()) + seq!['\n']
}

fn name_of(f: Field) -> (s: &'static str)
    ensures
        s@ == field_name(f),
{
    match f {
        Field::LastPage => "last_page",
        Field::Zoom => "zoom",
        Field::ZoomMult => "zoom_mult",
        Field::Rotation => "rotation",
        Field::ScrollX => "scroll_x",
        Field::ScrollY => "scroll_y",
        Field::NightMode => "night_mode",
        Field::RenderDpi => "render_dpi",
        Field::RenderQuality => "render_quality",
        Field::CacheEnabled => "cache_enabled",
        Field::CacheSize => "cache_size",
        Field::ECacheSize => "ecache_size",
        Field::MouseEnabled => "mouse_enabled",
        Field::Bookmarks => "svr_bookmarks",
    }
}

fn number_value(n: u64) -> (v: LuaValue)
    ensures
        v@ == Lua::Number(text::decimal(n as nat)),
{
    LuaValue::Number(text::decimal_string(n))
}

fn signed_value(n: i64) -> (v: LuaValue)
    ensures
        v@ == Lua::Number(text::signed_decimal(n as int)),
{
    let mut s: String = String::new();
    push_signed(&mut s, n);
    assert(s@ == text::signed_decimal(n as int));
    LuaValue::Number(s)
}

fn count_value_of(n: Option<usize>) -> (v: Option<LuaValue>)
    ensures
        match count_value(n) {
            Some(x) => v matches Some(y) && y@ == x,
            None => v is None,
        },
{
    match n {
        Some(n) => Some(number_value(n as u64)),
        None => None,
    }
}

fn mark_value_of(b: &Bookmark) -> (v: LuaValue)
    ensures
        v@ == mark_value(*b),
{
    let mut mark: String = String::new();
    mark.push(b.mark);
    let mut entries: Vec<(LuaKey, LuaValue)> = Vec::new();
    entries.push((LuaKey::Text(text::owned("mark")), LuaValue::Text(mark)));
    entries.push((LuaKey::Text(text::owned("page")), number_value(b.page as u64)));
    entries.push((LuaKey::Text(text::owned("x_off")), signed_value(b.x_off as i64)));
    entries.push((LuaKey::Text(text::owned("y_off")), signed_value(b.y_off as i64)));
    proof {
        lua::lemma_view_entries(entries@);
        assert(mark@ == seq![b.mark]);
        assert(lua::view_entries(entries@) =~= mark_value(*b)->Table_0);
    }
    LuaValue::Table(LuaTable { entries })
}

impl DocState {
    fn marks_value(&self) -> (v: LuaValue)
        requires
            self.bookmarks@.len() < i64::MAX,
        ensures
            v@ == Lua::Table(mark_entries(self@.bookmarks)),
    {
        let mut t: LuaTable = LuaTable { entries: Vec::new() };
        let mut i: usize = 0;
        assert(self.bookmarks@.take(0).len() == 0);
        while i < self.bookmarks.len()
            invariant
                i <= self.bookmarks@.len() < i64::MAX,
                t@ == mark_entries(self.bookmarks@.take(i as int)),
            decreases self.bookmarks@.len() - i,
        {
            let ghost u = self.bookmarks@.take(i + 1);
            assert(u.drop_last() == self.bookmarks@.take(i as int));
            assert(u.last() == self.bookmarks@[i as int]);
            let k = LuaKey::Int(i as i64 + 1);
            let v = mark_value_of(&self.bookmarks[i]);
            proof {
                lua::lemma_view_push(t.entries@, (k, v));
            }
            t.entries.push((k, v));
            i += 1;
        }
        assert(self.bookmarks@.take(i as int) == self.bookmarks@);
        LuaValue::Table(t)
    }

    fn value_of(&self, f: Field, numerals: &Numerals) -> (v: Option<LuaValue>)
        requires
            self.bookmarks@.len() < i64::MAX,
        ensures
            match field_value(self@, numerals@, f) {
                Some(x) => v matches Some(y) && y@ == x,
                None => v is None,
            },
    {
        match f {
            Field::LastPage => Some(number_value(self.last_page as u64)),
            Field::Zoom => Some(
                LuaValue::Text(
                    text::owned(
                        match self.zoom {
                            ZoomMode::FitWidth => "fit-w",
                            ZoomMode::FitHeight => "fit-h",
                            ZoomMode::FitPage => "fit-p",
                            ZoomMode::Custom(_) => "custom",
                        },
                    ),
                ),
            ),
            Field::ZoomMult => match self.zoom {
                ZoomMode::Custom(_) => Some(LuaValue::Number(numerals.zoom_mult.clone())),
                _ => None,
            },
            Field::Rotation => Some(number_value(self.rotation.degrees() as u64)),
            Field::ScrollX => Some(signed_value(self.scroll_x as i64)),
            Field::ScrollY => Some(signed_value(self.scroll_y as i64)),
            Field::NightMode => Some(LuaValue::Bool(self.night_mode)),
            Field::RenderDpi => match self.render_dpi {
                Some(_) => Some(LuaValue::Number(numerals.render_dpi.clone())),
                None => None,
            },
            Field::RenderQuality => Some(LuaValue::Number(numerals.render_quality.clone())),
            Field::CacheEnabled => Some(LuaValue::Bool(self.cache_enabled)),
            Field::CacheSize => count_value_of(self.cache_size),
            Field::ECacheSize => count_value_of(self.ecache_size),
            Field::MouseEnabled => match self.mouse_enabled {
                Some(b) => Some(LuaValue::Bool(b)),
                None => None,
            },
            Field::Bookmarks => if self.bookmarks.len() == 0 {
                None
            } else {
                Some(self.marks_value())
            },
        }
    }

    /// Put the fields into `tbl`, each in place of one of its name or last.
    /// `numerals` are the floating-point settings in text form.
    pub fn merge_into(&self, tbl: &mut LuaTable, numerals: &Numerals)
        requires
            self.bookmarks@.len() < i64::MAX,
        ensures
            final(tbl)@ == merged_upto(old(tbl)@, self@, numerals@, fields().len() as int),
    {
        let ghost base = tbl@;
        let order: Vec<Field> = vec![
            Field::LastPage,
            Field::Zoom,
            Field::ZoomMult,
            Field::Rotation,
            Field::ScrollX,
            Field::ScrollY,
            Field::NightMode,
            Field::RenderDpi,
            Field::RenderQuality,
            Field::CacheEnabled,
            Field::CacheSize,
            Field::ECacheSize,
            Field::MouseEnabled,
            Field::Bookmarks,
        ];
        assert(order@ =~= fields());
        let mut i: usize = 0;
        while i < order.len()
            invariant
                i <= order@.len(),
                order@ == fields(),
                self.bookmarks@.len() < i64::MAX,
                tbl@ == merged_upto(base, self@, numerals@, i as int),
            decreases order@.len() - i,
        {
            let f: Field = order[i];
            match self.value_of(f, numerals) {
                Some(v) => tbl.set(name_of(f), v),
                None => {
                    if f != Field::ZoomMult {
                        tbl.remove(name_of(f));
                    }
                },
            }
            i += 1;
        }
    }

    /// The text of the sidecar file, headed by a comment.
    pub fn to_sidecar(&self, comment: &str, numerals: &Numerals) -> (s: String)
        requires
            self.bookmarks@.len() < i64::MAX,
        ensures
            s@ == sidecar_text(comment@, kept(self@, numerals@)),
    {
        let mut tbl: LuaTable = self.extras.duplicate();
        self.merge_into(&mut tbl, numerals);
        let mut out: String = text::owned("-- ");
        push_str(&mut out, comment);
        push_str(&mut out, "\nreturn ");
        write_lua_table(&tbl, "", &mut out);
        out.push('\n');
        proof {
            reveal_strlit("");
            assert(""@ == Seq::<char>::empty());
            assert(out@ =~= sidecar_text(comment@, kept(self@, numerals@)));
        }
        out
    }

    /// Where the state of the document at a path is kept.
    pub fn sidecar_path(path: &str) -> (r: String)
        ensures
            r@ == sidecar_of(path@),
    {
        let parent: String = match parent_of(path) {
            Some(p) => p,
            None => text::owned("."),
        };
        match file_name_of(path) {
            None => Self::sidecar_file(parent.as_str(), None, None),
            Some(name) => match file_type_of(name.as_str()) {
                None => Self::sidecar_file(parent.as_str(), Some(name.as_str()), None),
                Some(e) => {
                    let lower: String = lower_case(e.as_str());
                    Self::sidecar_file(parent.as_str(), Some(name.as_str()), Some(lower.as_str()))
                },
            },
        }
    }

    /// Where the state of a document is kept: `<file>.sdr/metadata.<ext>.lua`
    /// in the document's directory. `extension` is in lower case.
    pub fn sidecar_file(parent: &str, file_name: Option<&str>, extension: Option<&str>) -> (path:
        String)
        ensures
            path@ == beside(
                parent@,
                match file_name {
                    Some(name) => Some(name@),
                    None => None,
                },
                match extension {
                    Some(ext) => Some(ext@),
                    None => None,
                },
            ),
    {
        let mut dir: String = match file_name {
            Some(name) => text::owned(name),
            None => text::owned("document"),
        };
        push_str(&mut dir, ".sdr");
        let mut file: String = text::owned("metadata.");
        match extension {
            Some(ext) => push_str(&mut file, ext),
            None => push_str(&mut file, "pdf"),
        }
        push_str(&mut file, ".lua");
        join(join(parent, dir.as_str()).as_str(), file.as_str())
    }
}

} // verus!
