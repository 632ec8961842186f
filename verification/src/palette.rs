//! The command palette: what it offers to complete an input, and choosing.
use vstd::multiset::Multiset;
use vstd::prelude::*;

use crate::command_table::{self, Command, CommandArg, Verb};
use crate::commands::{self, join, CommandRegistry};
use crate::explorer::{self, insert_sorted, is_sidecar_dir, is_supported_doc, DirItem};
use crate::paths;
use crate::text::{self, from_chars, owned, push_str, same, starts_with, to_chars, word_end};

verus! {

/// One row of the palette's list.
#[derive(Debug)]
pub struct PaletteCompletion {
    /// What the user sees.
    pub display: String,
    /// What comes into the input when the row is chosen.
    pub insert: String,
    /// The character of the input from which it replaces.
    pub replace_from: usize,
}

/// What a row of the palette stands for.
pub struct Offer {
    pub display: Seq<char>,
    pub insert: Seq<char>,
    pub from: int,
}

impl View for PaletteCompletion {
    type V = Offer;

    open spec fn view(&self) -> Offer {
        Offer { display: self.display@, insert: self.insert@, from: self.replace_from as int }
    }
}

/// What the rows stand for.
pub open spec fn offers(rows: Seq<PaletteCompletion>) -> Seq<Offer> {
    rows.map_values(|r: PaletteCompletion| r@)
}

/// The commands whose argument is a path.
pub open spec fn path_commands() -> Seq<Seq<char>> {
    seq![
        "edit"@,
        "e"@,
        "open"@,
        "o"@,
        "split"@,
        "sp"@,
        "vsplit"@,
        "vsp"@,
        "tabnew"@,
        "tabe"@,
        "Explore"@,
        "Ex"@,
        "Sexplore"@,
        "Sex"@,
        "Vexplore"@,
        "Vex"@,
    ]
}

/// Whether a command's argument is a path.
pub fn is_path_command(name: &str) -> (b: bool)
    ensures
        b == path_commands().contains(name@),
{
    let ghost all = path_commands();
    let b: bool = same(name, "edit") || same(name, "e") || same(name, "open") || same(name, "o")
        || same(name, "split") || same(name, "sp") || same(name, "vsplit") || same(name, "vsp")
        || same(name, "tabnew") || same(name, "tabe") || same(name, "Explore") || same(name, "Ex")
        || same(name, "Sexplore") || same(name, "Sex") || same(name, "Vexplore") || same(
        name,
        "Vex",
    );
    proof {
        if b {
            assert(exists|i: int| 0 <= i < all.len() && #[trigger] all[i] == name@) by {
                assert(all[0] == "edit"@ && all[1] == "e"@ && all[2] == "open"@ && all[3] == "o"@);
                assert(all[4] == "split"@ && all[5] == "sp"@ && all[6] == "vsplit"@ && all[7]
                    == "vsp"@);
                assert(all[8] == "tabnew"@ && all[9] == "tabe"@ && all[10] == "Explore"@ && all[11]
                    == "Ex"@);
                assert(all[12] == "Sexplore"@ && all[13] == "Sex"@ && all[14] == "Vexplore"@
                    && all[15] == "Vex"@);
            }
        }
    }
    b
}

// ------------------------------ Paths ------------------------------

/// The directory part of a path, with its slash.
pub open spec fn dir_part(arg: Seq<char>) -> Seq<char> {
    arg.take(paths::last_part(arg))
}

/// What stands behind the last slash of a path.
pub open spec fn name_part(arg: Seq<char>) -> Seq<char> {
    arg.skip(paths::last_part(arg))
}

/// Split `"foo/bar/ba"` into `("foo/bar/", "ba")`. Without a slash the
/// directory is empty.
pub fn split_path_prefix(arg: &str) -> (r: (String, String))
    ensures
        r.0@ == dir_part(arg@),
        r.1@ == name_part(arg@),
        r.0@ + r.1@ == arg@,
{
    let cs: Vec<char> = to_chars(arg);
    let n: usize = cs.len();
    let mut i: usize = n;
    assert(cs@.take(n as int) =~= cs@);
    while i > 0 && cs[i - 1] != '/'
        invariant
            i <= n == cs@.len(),
            paths::last_part(cs@) == paths::last_part(cs@.take(i as int)),
        decreases i,
    {
        let ghost t = cs@.take(i as int);
        assert(t.last() == cs@[i - 1]);
        assert(t.drop_last() =~= cs@.take(i - 1));
        i -= 1;
    }
    proof {
        let t = cs@.take(i as int);
        if i > 0 {
            assert(t.last() == cs@[i - 1]);
        }
        assert(paths::last_part(cs@) == i);
        assert(cs@.subrange(0, i as int) =~= arg@.take(i as int));
        assert(cs@.subrange(i as int, n as int) =~= arg@.skip(i as int));
        assert(arg@.take(i as int) + arg@.skip(i as int) =~= arg@);
    }
    (from_chars(&cs, 0, i), from_chars(&cs, i, n))
}

/// The directory that a path's directory part stands for.
pub open spec fn expanded_dir(dir: Seq<char>, home: Option<Seq<char>>) -> Seq<char> {
    if dir.len() == 0 {
        "./"@
    } else if dir == "~"@ && home is Some {
        home->0
    } else {
        commands::expanded(dir, home)
    }
}

/// Expand a leading `~/` or a lone `~` to the home directory. Nothing stands
/// for the current directory.
pub fn expand_home_path(dir: &str, home: Option<&str>) -> (r: String)
    ensures
        r@ == expanded_dir(dir@, commands::home_view(home)),
{
    let cs: Vec<char> = to_chars(dir);
    let n: usize = cs.len();
    if n == 0 {
        return owned("./");
    }
    if let Some(h) = home {
        if same(dir, "~") {
            return owned(h);
        }
        assert(cs@.subrange(0, n as int) =~= cs@);
        if starts_with(&cs, 0, n, "~/") {
            proof {
                reveal_strlit("~/");
            }
            let rest: String = from_chars(&cs, 2, n);
            assert(rest@ =~= dir@.skip("~/"@.len() as int));
            return join(h, rest.as_str());
        }
    }
    owned(dir)
}

/// A directory that completes a path.
pub open spec fn offered_dir(item: DirItem, prefix: Seq<char>) -> bool {
    item.is_dir && prefix.is_prefix_of(item.name@) && !".sdr"@.is_suffix_of(item.name@)
}

/// A document that completes a path.
pub open spec fn offered_doc(item: DirItem, prefix: Seq<char>) -> bool {
    !item.is_dir && prefix.is_prefix_of(item.name@) && explorer::is_supported(item.name@)
}

/// The directories that complete a path.
pub open spec fn offered_dirs(items: Seq<DirItem>, prefix: Seq<char>) -> Multiset<Seq<char>>
    decreases items.len(),
{
    if items.len() == 0 {
        Multiset::empty()
    } else if offered_dir(items.last(), prefix) {
        offered_dirs(items.drop_last(), prefix).insert(items.last().name@)
    } else {
        offered_dirs(items.drop_last(), prefix)
    }
}

/// The documents that complete a path.
pub open spec fn offered_docs(items: Seq<DirItem>, prefix: Seq<char>) -> Multiset<Seq<char>>
    decreases items.len(),
{
    if items.len() == 0 {
        Multiset::empty()
    } else if offered_doc(items.last(), prefix) {
        offered_docs(items.drop_last(), prefix).insert(items.last().name@)
    } else {
        offered_docs(items.drop_last(), prefix)
    }
}

/// How a directory is offered: with a slash.
pub open spec fn dir_offer(dir: Seq<char>, name: Seq<char>, from: int) -> Offer {
    Offer { display: name + "/"@, insert: dir + name + "/"@, from }
}

/// How a document is offered.
pub open spec fn doc_offer(dir: Seq<char>, name: Seq<char>, from: int) -> Offer {
    Offer { display: name, insert: dir + name, from }
}

/// `list` is what a directory's items offer to complete a path: directories
/// first, then documents, each in order.
pub open spec fn path_offers(
    list: Seq<Offer>,
    arg: Seq<char>,
    from: int,
    items: Seq<DirItem>,
) -> bool {
    exists|dirs: Seq<Seq<char>>, docs: Seq<Seq<char>>|
        {
            &&& #[trigger] explorer::ascending(dirs)
            &&& #[trigger] explorer::ascending(docs)
            &&& dirs.to_multiset() == offered_dirs(items, name_part(arg))
            &&& docs.to_multiset() == offered_docs(items, name_part(arg))
            &&& list == Seq::new(dirs.len(), |i: int| dir_offer(dir_part(arg), dirs[i], from))
                + Seq::new(docs.len(), |i: int| doc_offer(dir_part(arg), docs[i], from))
        }
}

/// What the items of a directory offer to complete a path. The input is
/// replaced from its character `replace_from` on.
pub fn path_completions(arg: &str, replace_from: usize, items: &Vec<DirItem>) -> (out: Vec<
    PaletteCompletion,
>)
    ensures
        path_offers(offers(out@), arg@, replace_from as int, items@),
{
    let (dir, prefix): (String, String) = split_path_prefix(arg);
    let mut dirs: Vec<String> = Vec::new();
    let mut docs: Vec<String> = Vec::new();
    let n: usize = items.len();
    let mut i: usize = 0;
    proof {
        broadcast use vstd::seq_lib::group_to_multiset_ensures;

        assert(items@.take(0).len() == 0);
        assert(explorer::texts(dirs@).to_multiset() =~= Multiset::empty());
    }
    while i < n
        invariant
            i <= n == items@.len(),
            prefix@ == name_part(arg@),
            explorer::ascending(explorer::texts(dirs@)),
            explorer::ascending(explorer::texts(docs@)),
            explorer::texts(dirs@).to_multiset() == offered_dirs(items@.take(i as int), prefix@),
            explorer::texts(docs@).to_multiset() == offered_docs(items@.take(i as int), prefix@),
        decreases n - i,
    {
        let item: &DirItem = &items[i];
        let ghost t = items@.take(i + 1);
        assert(t.drop_last() =~= items@.take(i as int));
        assert(t.last() == items@[i as int]);
        let name: Vec<char> = to_chars(item.name.as_str());
        assert(name@.subrange(0, name@.len() as int) =~= name@);
        if starts_with(&name, 0, name.len(), prefix.as_str()) {
            if item.is_dir {
                if !is_sidecar_dir(item.name.as_str()) {
                    insert_sorted(&mut dirs, item.name.clone());
                }
            } else if is_supported_doc(item.name.as_str()) {
                insert_sorted(&mut docs, item.name.clone());
            }
        }
        i += 1;
    }
    assert(items@.take(n as int) =~= items@);
    let ghost ds = explorer::texts(dirs@);
    let ghost fs = explorer::texts(docs@);
    proof {
        explorer::lemma_texts(dirs@);
        explorer::lemma_texts(docs@);
    }
    let mut out: Vec<PaletteCompletion> = Vec::new();
    let ghost first = Seq::new(
        ds.len(),
        |i: int| dir_offer(dir_part(arg@), ds[i], replace_from as int),
    );
    let d: usize = dirs.len();
    let mut j: usize = 0;
    while j < d
        invariant
            j <= d == dirs@.len() == ds.len(),
            dir@ == dir_part(arg@),
            out@.len() == j,
            forall|k: int| 0 <= k < d ==> #[trigger] ds[k] == dirs@[k]@,
            forall|k: int|
                0 <= k < j ==> (#[trigger] out@[k])@ == dir_offer(
                    dir_part(arg@),
                    ds[k],
                    replace_from as int,
                ),
        decreases d - j,
    {
        let mut display: String = String::new();
        push_str(&mut display, dirs[j].as_str());
        assert(display@ =~= ds[j as int]);
        push_str(&mut display, "/");
        let mut insert: String = String::new();
        push_str(&mut insert, dir.as_str());
        assert(insert@ =~= dir@);
        push_str(&mut insert, dirs[j].as_str());
        push_str(&mut insert, "/");
        out.push(PaletteCompletion { display, insert, replace_from });
        j += 1;
    }
    let f: usize = docs.len();
    let mut m: usize = 0;
    while m < f
        invariant
            m <= f == docs@.len() == fs.len(),
            d == ds.len(),
            dir@ == dir_part(arg@),
            out@.len() == d + m,
            forall|k: int| 0 <= k < f ==> #[trigger] fs[k] == docs@[k]@,
            forall|k: int|
                0 <= k < d ==> (#[trigger] out@[k])@ == dir_offer(
                    dir_part(arg@),
                    ds[k],
                    replace_from as int,
                ),
            forall|k: int|
                d <= k < d + m ==> (#[trigger] out@[k])@ == doc_offer(
                    dir_part(arg@),
                    fs[k - d],
                    replace_from as int,
                ),
        decreases f - m,
    {
        let mut insert: String = String::new();
        push_str(&mut insert, dir.as_str());
        assert(insert@ =~= dir@);
        push_str(&mut insert, docs[m].as_str());
        assert(fs[m as int] == docs@[m as int]@);
        out.push(PaletteCompletion { display: docs[m].clone(), insert, replace_from });
        m += 1;
    }
    proof {
        let second = Seq::new(
            fs.len(),
            |i: int| doc_offer(dir_part(arg@), fs[i], replace_from as int),
        );
        assert(offers(out@) =~= first + second) by {
            assert forall|k: int| 0 <= k < out@.len() implies offers(out@)[k] == (first
                + second)[k] by {
                assert(offers(out@)[k] == out@[k]@);
                if k >= d {
                    assert(second[k - d] == doc_offer(
                        dir_part(arg@),
                        fs[k - d],
                        replace_from as int,
                    ));
                }
            }
        }
        assert(explorer::ascending(ds) && explorer::ascending(fs));
    }
    out
}

// ------------------------------ The input ------------------------------

/// Where the argument of an input starts, where it is a path.
pub open spec fn path_argument(input: Seq<char>) -> Option<int> {
    let pos = text::word_len(input) as int;
    if pos < input.len() && path_commands().contains(input.take(pos)) {
        Some(pos + 1)
    } else {
        None
    }
}

fn argument_start(cs: &Vec<char>) -> (r: Option<usize>)
    ensures
        match path_argument(cs@) {
            Some(i) => r == Some(i as usize) && 0 <= i <= cs@.len(),
            None => r is None,
        },
{
    let n: usize = cs.len();
    assert(cs@.subrange(0, n as int) =~= cs@);
    let pos: usize = word_end(cs, 0, n);
    if pos < n {
        let name: String = from_chars(cs, 0, pos);
        assert(name@ =~= cs@.take(pos as int));
        if is_path_command(name.as_str()) {
            return Some(pos + 1);
        }
    }
    None
}

/// The directory whose items complete an input; `None` where the name of a
/// command is completed.
pub fn wanted_dir(input: &str, home: Option<&str>) -> (r: Option<String>)
    ensures
        match path_argument(input@) {
            Some(i) => r matches Some(d) && d@ == expanded_dir(
                dir_part(input@.skip(i)),
                commands::home_view(home),
            ),
            None => r is None,
        },
{
    let cs: Vec<char> = to_chars(input);
    match argument_start(&cs) {
        Some(i) => {
            let arg: String = from_chars(&cs, i, cs.len());
            assert(arg@ =~= input@.skip(i as int));
            let (dir, _): (String, String) = split_path_prefix(arg.as_str());
            Some(expand_home_path(dir.as_str(), home))
        },
        None => None,
    }
}

/// How a command is offered: with a space behind it where it takes an
/// argument.
pub open spec fn command_offer(verb: Verb) -> Offer {
    let name = command_table::spellings(verb)[0];
    Offer {
        display: ":"@ + name + "  — "@ + command_table::description(verb),
        insert: if command_table::argument(verb) is Nothing {
            name
        } else {
            name.push(' ')
        },
        from: 0,
    }
}

fn offer_command(c: &Command) -> (r: PaletteCompletion)
    requires
        c.faithful(),
    ensures
        r@ == command_offer(c.verb),
{
    let mut display: String = String::new();
    push_str(&mut display, ":");
    assert(display@ =~= ":"@);
    push_str(&mut display, c.name);
    push_str(&mut display, "  — ");
    push_str(&mut display, c.description);
    let mut insert: String = owned(c.name);
    match c.arg {
        CommandArg::Nothing => {},
        _ => {
            insert.push(' ');
        },
    }
    PaletteCompletion { display, insert, replace_from: 0 }
}

/// `list` is what the palette offers for an input.
pub open spec fn palette_offers(list: Seq<Offer>, input: Seq<char>, items: Seq<DirItem>) -> bool {
    match path_argument(input) {
        Some(i) => path_offers(list, input.skip(i), i, items),
        None => {
            let hits = command_table::verbs().filter(|v: Verb| commands::completes(v, input));
            list == Seq::new(hits.len(), |i: int| command_offer(hits[i]))
        },
    }
}

/// What the palette offers for an input: commands, or paths where the input
/// has come to a path. `items` are then the items of the wanted directory.
pub fn compute_completions(
    input: &str,
    registry: &CommandRegistry,
    items: &Vec<DirItem>,
) -> (out: Vec<PaletteCompletion>)
    ensures
        palette_offers(offers(out@), input@, items@),
{
    let cs: Vec<char> = to_chars(input);
    if let Some(i) = argument_start(&cs) {
        let arg: String = from_chars(&cs, i, cs.len());
        assert(arg@ =~= input@.skip(i as int));
        return path_completions(arg.as_str(), i, items);
    }
    let found: Vec<&Command> = registry.complete(input);
    let ghost hits = command_table::verbs().filter(|v: Verb| commands::completes(v, input@));
    let mut out: Vec<PaletteCompletion> = Vec::new();
    let n: usize = found.len();
    let mut k: usize = 0;
    while k < n
        invariant
            k <= n == found@.len() == hits.len(),
            out@.len() == k,
            forall|j: int|
                0 <= j < n ==> (#[trigger] found@[j]).verb == hits[j] && found@[j].faithful(),
            forall|j: int| 0 <= j < k ==> (#[trigger] out@[j])@ == command_offer(hits[j]),
        decreases n - k,
    {
        let c: &Command = found[k];
        assert(found@[k as int].verb == hits[k as int]);
        out.push(offer_command(c));
        k += 1;
    }
    assert(offers(out@) =~= Seq::new(hits.len(), |i: int| command_offer(hits[i])));
    out
}

// ------------------------------ Choosing ------------------------------

/// The row that is chosen next, forward or backward, around the ends.
pub open spec fn cycled(total: int, chosen: Option<usize>, reverse: bool) -> Option<int> {
    if total == 0 {
        None
    } else {
        match chosen {
            None => Some(
                if reverse {
                    total - 1
                } else {
                    0
                },
            ),
            Some(i) => Some(
                if !reverse {
                    (i + 1) % total
                } else if i == 0 {
                    total - 1
                } else {
                    i - 1
                },
            ),
        }
    }
}

/// Move the choice among `total` rows.
pub fn cycle_completion(total: usize, chosen: Option<usize>, reverse: bool) -> (r: Option<usize>)
    ensures
        match cycled(total as int, chosen, reverse) {
            Some(i) => r == Some(i as usize) && 0 <= i <= usize::MAX,
            None => r is None,
        },
{
    if total == 0 {
        return None;
    }
    match chosen {
        None => Some(
            if reverse {
                total - 1
            } else {
                0
            },
        ),
        Some(i) => if reverse {
            if i == 0 {
                Some(total - 1)
            } else {
                Some(i - 1)
            }
        } else {
            let next: u128 = (i as u128 + 1) % (total as u128);
            Some(next as usize)
        },
    }
}

/// A row forward and a row backward lead back.
pub proof fn lemma_cycle_returns(total: int, i: usize, reverse: bool)
    requires
        0 <= i < total <= usize::MAX,
    ensures
        cycled(total, Some(cycled(total, Some(i), reverse)->0 as usize), !reverse) == Some(
            i as int,
        ),
{
    let j = cycled(total, Some(i), reverse)->0;
    if reverse {
        if i == 0 {
            assert(j == total - 1);
            assert((j + 1) % total == 0) by (nonlinear_arith)
                requires
                    j + 1 == total,
                    total > 0,
            ;
        } else {
            vstd::arithmetic::div_mod::lemma_small_mod(i as nat, total as nat);
        }
    } else if i + 1 == total {
        assert((i + 1) % total == 0) by (nonlinear_arith)
            requires
                i + 1 == total,
                total > 0,
        ;
    } else {
        vstd::arithmetic::div_mod::lemma_small_mod((i + 1) as nat, total as nat);
    }
}

/// An input with a row taken into it.
pub open spec fn accepted(input: Seq<char>, row: Offer) -> Seq<char> {
    (if row.from < input.len() {
        input.take(row.from)
    } else {
        input
    }) + row.insert
}

/// Take a row into the input.
pub fn accept_completion(input: &str, row: &PaletteCompletion) -> (r: String)
    ensures
        r@ == accepted(input@, row@),
{
    let cs: Vec<char> = to_chars(input);
    let n: usize = cs.len();
    let keep: usize = if row.replace_from < n {
        row.replace_from
    } else {
        n
    };
    let mut r: String = from_chars(&cs, 0, keep);
    assert(r@ =~= (if row.replace_from < input@.len() {
        input@.take(row.replace_from as int)
    } else {
        input@
    }));
    push_str(&mut r, row.insert.as_str());
    r
}

} // verus!
