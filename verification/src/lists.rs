//! The table of contents and the list of marks: their entries, how they are
//! written, and moving in them.
use vstd::prelude::*;

use crate::docstate::Bookmark;
use crate::document::Outline;
use crate::screen::{self, draw_overlay};
use crate::text::{self, push_decimal, push_signed, push_str};
use crate::window::CellRect;

verus! {

/// One line of the table of contents.
#[derive(Debug)]
pub struct TocEntry {
    pub depth: usize,
    pub title: String,
    pub page: usize,
}

/// What a line of the table of contents stands for: depth, title and page.
pub struct TocLine {
    pub depth: int,
    pub title: Seq<char>,
    pub page: int,
}

impl View for TocEntry {
    type V = TocLine;

    open spec fn view(&self) -> TocLine {
        TocLine { depth: self.depth as int, title: self.title@, page: self.page as int }
    }
}

/// What the lines stand for.
pub open spec fn toc_lines(entries: Seq<TocEntry>) -> Seq<TocLine> {
    entries.map_values(|e: TocEntry| e@)
}

/// One level further down.
pub open spec fn deeper(depth: int) -> int {
    screen::smaller(depth + 1, usize::MAX as int)
}

/// The line of a node of an outline. One that leads to no page leads to the
/// first.
pub open spec fn toc_line_of(item: Outline, depth: int) -> TocLine {
    TocLine {
        depth,
        title: item.title@,
        page: match item.page {
            Some(p) => p as int,
            None => 0,
        },
    }
}

/// The lines of an outline: each node, then what is below it.
pub open spec fn flattened(items: Seq<Outline>, depth: int) -> Seq<TocLine>
    decreases items,
{
    if items.len() == 0 {
        Seq::empty()
    } else {
        let item = items[items.len() - 1];
        flattened(items.subrange(0, items.len() - 1), depth) + seq![toc_line_of(item, depth)]
            + flattened(item.children@, deeper(depth))
    }
}

/// Append the lines of an outline.
pub fn flatten_outline(items: &Vec<Outline>, depth: usize, out: &mut Vec<TocEntry>)
    ensures
        toc_lines(final(out)@) == toc_lines(old(out)@) + flattened(items@, depth as int),
    decreases items,
{
    let ghost before = toc_lines(out@);
    let n: usize = items.len();
    let mut i: usize = 0;
    assert(before =~= before + flattened(items@.subrange(0, 0), depth as int));
    while i < n
        invariant
            i <= n == items@.len(),
            toc_lines(out@) == before + flattened(items@.subrange(0, i as int), depth as int),
        decreases n - i,
    {
        let ghost part = items@.subrange(0, i + 1);
        let ghost sofar = toc_lines(out@);
        let item: &Outline = &items[i];
        proof {
            assert(part.subrange(0, part.len() - 1) =~= items@.subrange(0, i as int));
            assert(part[part.len() - 1] == *item);
        }
        out.push(
            TocEntry {
                depth,
                title: item.title.clone(),
                page: match item.page {
                    Some(p) => p,
                    None => 0,
                },
            },
        );
        assert(toc_lines(out@) =~= sofar + seq![toc_line_of(*item, depth as int)]);
        let below: usize = if depth == usize::MAX {
            depth
        } else {
            depth + 1
        };
        proof {
            assert(decreases_to!(items => items@[i as int].children));
        }
        flatten_outline(&item.children, below, out);
        assert(toc_lines(out@) =~= before + flattened(part, depth as int));
        i += 1;
    }
    assert(items@.subrange(0, n as int) =~= items@);
}

/// Number of nodes of an outline.
pub open spec fn node_count(items: Seq<Outline>) -> nat
    decreases items,
{
    if items.len() == 0 {
        0
    } else {
        node_count(items.subrange(0, items.len() - 1)) + 1 + node_count(
            items[items.len() - 1].children@,
        )
    }
}

/// Every node of an outline has one line.
pub proof fn lemma_line_per_node(items: Seq<Outline>, depth: int)
    ensures
        flattened(items, depth).len() == node_count(items),
    decreases items,
{
    if items.len() > 0 {
        lemma_line_per_node(items.subrange(0, items.len() - 1), depth);
        lemma_line_per_node(items[items.len() - 1].children@, deeper(depth));
    }
}

/// The last line that leads to `page` or to one before it, else the first.
pub open spec fn line_for(lines: Seq<TocLine>, page: int) -> int
    decreases lines.len(),
{
    if lines.len() == 0 {
        0
    } else if lines.last().page <= page {
        lines.len() - 1
    } else {
        line_for(lines.drop_last(), page)
    }
}

/// `line_for` says where the reader is: no later line leads to `page` or to
/// one before it.
pub proof fn lemma_line_for(lines: Seq<TocLine>, page: int)
    ensures
        lines.len() > 0 ==> 0 <= line_for(lines, page) < lines.len(),
        forall|j: int| line_for(lines, page) < j < lines.len() ==> page < (#[trigger] lines[j]).page,
        line_for(lines, page) > 0 ==> lines[line_for(lines, page)].page <= page,
    decreases lines.len(),
{
    if lines.len() > 0 && page < lines.last().page {
        let rest = lines.drop_last();
        lemma_line_for(rest, page);
        assert forall|j: int| line_for(lines, page) < j < lines.len() implies page < (
        #[trigger] lines[j]).page by {
            if j < rest.len() {
                assert(rest[j] == lines[j]);
            }
        }
    }
}

/// The line of the table of contents that is selected at first.
pub fn initial_line(entries: &Vec<TocEntry>, page: usize) -> (i: usize)
    ensures
        i == line_for(toc_lines(entries@), page as int),
{
    let ghost lines = toc_lines(entries@);
    let mut n: usize = entries.len();
    assert(lines.take(n as int) =~= lines);
    while n > 0
        invariant
            n <= entries@.len(),
            lines == toc_lines(entries@),
            line_for(lines, page as int) == line_for(lines.take(n as int), page as int),
        decreases n,
    {
        let ghost t = lines.take(n as int);
        assert(t.last() == entries@[n - 1]@);
        if entries[n - 1].page <= page {
            return n - 1;
        }
        assert(t.drop_last() =~= lines.take(n - 1));
        n -= 1;
    }
    0
}

/// How a line of the table of contents is written.
pub open spec fn toc_text(e: TocLine) -> Seq<char> {
    indent(screen::smaller(e.depth, 8) as nat) + e.title + "  · p"@ + text::decimal(
        screen::smaller(e.page + 1, usize::MAX as int) as nat,
    )
}

/// Two spaces for each level.
pub open spec fn indent(levels: nat) -> Seq<char>
    decreases levels,
{
    if levels == 0 {
        Seq::empty()
    } else {
        indent((levels - 1) as nat) + "  "@
    }
}

pub(crate) fn push_indent(out: &mut String, levels: usize)
    ensures
        final(out)@ == old(out)@ + indent(levels as nat),
{
    let ghost before = out@;
    let mut i: usize = 0;
    assert(before =~= before + indent(0));
    while i < levels
        invariant
            i <= levels,
            out@ == before + indent(i as nat),
        decreases levels - i,
    {
        let ghost sofar = indent(i as nat);
        push_str(out, "  ");
        i += 1;
        assert(out@ =~= before + (sofar + "  "@));
    }
}

fn toc_string(e: &TocEntry) -> (s: String)
    ensures
        s@ == toc_text(e@),
{
    let levels: usize = if e.depth < 8 {
        e.depth
    } else {
        8
    };
    let mut s: String = String::new();
    push_indent(&mut s, levels);
    assert(s@ =~= indent(levels as nat));
    push_str(&mut s, e.title.as_str());
    push_str(&mut s, "  · p");
    push_decimal(&mut s, e.page.saturating_add(1) as u64);
    s
}

/// The header over the table of contents.
pub open spec fn toc_header(n: nat) -> Seq<char> {
    " TOC — "@ + text::decimal(n)
        + " entries — Enter open · j/k move · gg/G first/last · q close"@
}

/// What draws the table of contents.
pub fn draw_toc_overlay(body: CellRect, entries: &Vec<TocEntry>, selected: usize) -> (s: String)
    requires
        body.on_grid(),
    ensures
        s@ == screen::overlay_text(
            toc_header(entries@.len()),
            Seq::new(entries@.len(), |i: int| toc_text(entries@[i]@)),
            body,
            selected as int,
        ),
{
    let mut lines: Vec<String> = Vec::new();
    let n: usize = entries.len();
    let mut i: usize = 0;
    while i < n
        invariant
            i <= n == entries@.len(),
            lines@.len() == i,
            forall|k: int| 0 <= k < i ==> (#[trigger] lines@[k])@ == toc_text(entries@[k]@),
        decreases n - i,
    {
        lines.push(toc_string(&entries[i]));
        i += 1;
    }
    let mut header: String = String::new();
    push_str(&mut header, " TOC — ");
    assert(header@ =~= " TOC — "@);
    push_decimal(&mut header, n as u64);
    push_str(&mut header, " entries — Enter open · j/k move · gg/G first/last · q close");
    assert(screen::texts(lines@) =~= Seq::new(entries@.len(), |i: int| toc_text(entries@[i]@)));
    draw_overlay(header.as_str(), &lines, body, selected)
}

// ------------------------------ Marks ------------------------------

/// Put a mark after all that do not come after it.
pub open spec fn placed(marks: Seq<Bookmark>, m: Bookmark) -> Seq<Bookmark>
    decreases marks.len(),
{
    if marks.len() == 0 || marks.last().mark <= m.mark {
        marks.push(m)
    } else {
        placed(marks.drop_last(), m).push(marks.last())
    }
}

/// Marks by their letters; marks of one letter keep their order.
pub open spec fn by_letter(marks: Seq<Bookmark>) -> Seq<Bookmark>
    decreases marks.len(),
{
    if marks.len() == 0 {
        marks
    } else {
        placed(by_letter(marks.drop_last()), marks.last())
    }
}

/// No mark comes after one of a later letter.
pub open spec fn alphabetical(marks: Seq<Bookmark>) -> bool {
    forall|i: int, j: int|
        0 <= i < j < marks.len() ==> (#[trigger] marks[i]).mark <= (#[trigger] marks[j]).mark
}

proof fn lemma_placed(marks: Seq<Bookmark>, m: Bookmark)
    requires
        alphabetical(marks),
    ensures
        alphabetical(placed(marks, m)),
        placed(marks, m).len() == marks.len() + 1,
        placed(marks, m).to_multiset() == marks.to_multiset().insert(m),
        forall|i: int|
            0 <= i < placed(marks, m).len() ==> (#[trigger] placed(marks, m)[i]) == m
                || marks.contains(placed(marks, m)[i]),
    decreases marks.len(),
{
    broadcast use vstd::seq_lib::group_to_multiset_ensures;

    if marks.len() == 0 || marks.last().mark <= m.mark {
        assert forall|i: int| 0 <= i < marks.push(m).len() implies (#[trigger] marks.push(m)[i])
            == m || marks.contains(marks.push(m)[i]) by {
            if i < marks.len() {
                assert(marks[i] == marks.push(m)[i]);
            }
        }
    } else {
        let rest = marks.drop_last();
        let p = placed(rest, m);
        lemma_placed(rest, m);
        let now = p.push(marks.last());
        assert(marks =~= rest.push(marks.last()));
        assert(now.to_multiset() =~= marks.to_multiset().insert(m));
        assert forall|i: int| 0 <= i < now.len() implies (#[trigger] now[i]) == m
            || marks.contains(now[i]) by {
            if i < p.len() {
                assert(now[i] == p[i]);
                if p[i] != m {
                    let k = choose|k: int| 0 <= k < rest.len() && rest[k] == p[i];
                    assert(marks[k] == p[i]);
                }
            } else {
                assert(marks[marks.len() - 1] == now[i]);
            }
        }
        assert forall|i: int, j: int| 0 <= i < j < now.len() implies (#[trigger] now[i]).mark <= (
        #[trigger] now[j]).mark by {
            if j == p.len() {
                assert(now[i] == p[i]);
                if p[i] != m {
                    let k = choose|k: int| 0 <= k < rest.len() && rest[k] == p[i];
                    assert(marks[k] == p[i]);
                }
            } else {
                assert(now[i] == p[i] && now[j] == p[j]);
            }
        }
    }
}

/// The list of marks holds every mark, in the order of the letters.
pub proof fn lemma_by_letter(marks: Seq<Bookmark>)
    ensures
        alphabetical(by_letter(marks)),
        by_letter(marks).to_multiset() == marks.to_multiset(),
        by_letter(marks).len() == marks.len(),
    decreases marks.len(),
{
    broadcast use vstd::seq_lib::group_to_multiset_ensures;

    if marks.len() > 0 {
        let rest = marks.drop_last();
        lemma_by_letter(rest);
        lemma_placed(by_letter(rest), marks.last());
        assert(marks =~= rest.push(marks.last()));
    }
}

fn place(marks: &mut Vec<Bookmark>, m: Bookmark)
    ensures
        final(marks)@ == placed(old(marks)@, m),
{
    let ghost all = marks@;
    let mut i: usize = marks.len();
    assert(all.take(i as int) =~= all);
    assert(placed(all, m) =~= placed(all.take(i as int), m) + all.skip(i as int));
    while i > 0 && marks[i - 1].mark > m.mark
        invariant
            i <= all.len(),
            marks@ == all,
            placed(all, m) == placed(all.take(i as int), m) + all.skip(i as int),
        decreases i,
    {
        let ghost t = all.take(i as int);
        proof {
            assert(t.last() == all[i - 1]);
            assert(t.drop_last() =~= all.take(i - 1));
            assert(placed(t, m) + all.skip(i as int) =~= placed(all.take(i - 1), m) + all.skip(
                i - 1,
            ));
        }
        i -= 1;
    }
    proof {
        let t = all.take(i as int);
        if i > 0 {
            assert(t.last() == all[i - 1]);
        }
        assert(placed(t, m) == t.push(m));
        assert(all.insert(i as int, m) =~= t.push(m) + all.skip(i as int));
    }
    marks.insert(i, m);
}

/// The marks of a document by their letters.
pub fn mark_entries(marks: &Vec<Bookmark>) -> (out: Vec<Bookmark>)
    ensures
        out@ == by_letter(marks@),
{
    let mut out: Vec<Bookmark> = Vec::new();
    let n: usize = marks.len();
    let mut i: usize = 0;
    assert(marks@.take(0) =~= Seq::empty());
    while i < n
        invariant
            i <= n == marks@.len(),
            out@ == by_letter(marks@.take(i as int)),
        decreases n - i,
    {
        let ghost t = marks@.take(i + 1);
        assert(t.drop_last() =~= marks@.take(i as int));
        assert(t.last() == marks@[i as int]);
        place(&mut out, marks[i]);
        i += 1;
    }
    assert(marks@.take(n as int) =~= marks@);
    out
}

/// How a mark is written.
pub open spec fn mark_text(m: Bookmark) -> Seq<char> {
    "  '"@ + seq![m.mark] + "    page "@ + text::decimal(
        screen::smaller(m.page + 1, usize::MAX as int) as nat,
    ) + "    ("@ + text::signed_decimal(m.x_off as int) + ","@ + text::signed_decimal(m.y_off as int) + ")"@
}

fn mark_string(m: &Bookmark) -> (s: String)
    ensures
        s@ == mark_text(*m),
{
    let mut s: String = String::new();
    push_str(&mut s, "  '");
    assert(s@ =~= "  '"@);
    s.push(m.mark);
    assert(s@ =~= "  '"@ + seq![m.mark]);
    push_str(&mut s, "    page ");
    push_decimal(&mut s, m.page.saturating_add(1) as u64);
    push_str(&mut s, "    (");
    push_signed(&mut s, m.x_off as i64);
    push_str(&mut s, ",");
    push_signed(&mut s, m.y_off as i64);
    push_str(&mut s, ")");
    s
}

/// The header over the list of marks.
pub open spec fn marks_header(n: nat) -> Seq<char> {
    " marks ("@ + text::decimal(n) + ") — Enter jump · d delete · j/k move · q close"@
}

/// What draws the list of marks.
pub fn draw_marks_overlay(body: CellRect, entries: &Vec<Bookmark>, selected: usize) -> (s: String)
    requires
        body.on_grid(),
    ensures
        s@ == screen::overlay_text(
            marks_header(entries@.len()),
            Seq::new(entries@.len(), |i: int| mark_text(entries@[i])),
            body,
            selected as int,
        ),
{
    let mut lines: Vec<String> = Vec::new();
    let n: usize = entries.len();
    let mut i: usize = 0;
    while i < n
        invariant
            i <= n == entries@.len(),
            lines@.len() == i,
            forall|k: int| 0 <= k < i ==> (#[trigger] lines@[k])@ == mark_text(entries@[k]),
        decreases n - i,
    {
        lines.push(mark_string(&entries[i]));
        i += 1;
    }
    let mut header: String = String::new();
    push_str(&mut header, " marks (");
    assert(header@ =~= " marks ("@);
    push_decimal(&mut header, n as u64);
    push_str(&mut header, ") — Enter jump · d delete · j/k move · q close");
    assert(screen::texts(lines@) =~= Seq::new(entries@.len(), |i: int| mark_text(entries@[i])));
    draw_overlay(header.as_str(), &lines, body, selected)
}

// ------------------------------ Moving ------------------------------

/// The position `delta` further in a list, kept within it. In an empty list
/// nothing moves.
pub open spec fn list_moved(selected: int, total: int, delta: int) -> int {
    if total == 0 {
        selected
    } else if selected + delta < 0 {
        0
    } else if selected + delta >= total {
        total - 1
    } else {
        selected + delta
    }
}

/// Move a selection by `count` lines, up or down.
pub fn list_move(selected: usize, total: usize, count: usize, up: bool) -> (r: usize)
    ensures
        r == list_moved(
            selected as int,
            total as int,
            if up {
                -(count as int)
            } else {
                count as int
            },
        ),
{
    if total == 0 {
        return selected;
    }
    let next: usize = if up {
        selected.saturating_sub(count)
    } else if count >= total || selected >= total - count {
        total - 1
    } else {
        selected + count
    };
    if next >= total {
        total - 1
    } else {
        next
    }
}

} // verus!
