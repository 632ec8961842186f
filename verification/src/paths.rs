//! Paths as text, with `/` between their parts.
use vstd::prelude::*;

use crate::text::{from_chars, to_chars};

verus! {

/// A path without slashes and `.` parts at its end; a lone slash stays.
pub open spec fn trim_tail(s: Seq<char>) -> Seq<char>
    decreases s.len(),
{
    if s.len() > 1 && s.last() == '/' {
        trim_tail(s.drop_last())
    } else if s.len() > 1 && s.last() == '.' && s[s.len() - 2] == '/' {
        trim_tail(s.drop_last())
    } else {
        s
    }
}

/// Where the last part of a path starts: behind the last slash.
pub open spec fn last_part(s: Seq<char>) -> int
    decreases s.len(),
{
    if s.len() == 0 || s.last() == '/' {
        s.len() as int
    } else {
        last_part(s.drop_last())
    }
}

/// The last part of a path, where that is a name.
pub open spec fn file_name(path: Seq<char>) -> Option<Seq<char>> {
    let t = trim_tail(path);
    let name = t.skip(last_part(t));
    if name.len() == 0 || name == seq!['.'] || name == seq!['.', '.'] {
        None
    } else {
        Some(name)
    }
}

/// The path without its last part; the root and the empty path have none.
pub open spec fn parent(path: Seq<char>) -> Option<Seq<char>> {
    let t = trim_tail(path);
    let i = last_part(t);
    if t.len() == 0 || t == seq!['/'] {
        None
    } else if i == 0 {
        Some(Seq::empty())
    } else if i == 1 {
        Some(seq!['/'])
    } else {
        Some(trim_tail(t.take(i - 1)))
    }
}

/// A last part lies within the path.
pub proof fn lemma_last_part(s: Seq<char>)
    ensures
        0 <= last_part(s) <= s.len(),
        last_part(s) > 0 ==> s[last_part(s) - 1] == '/',
        forall|i: int| last_part(s) <= i < s.len() ==> #[trigger] s[i] != '/',
    decreases s.len(),
{
    if s.len() > 0 && s.last() != '/' {
        let t = s.drop_last();
        lemma_last_part(t);
        assert forall|i: int| last_part(s) <= i < s.len() implies #[trigger] s[i] != '/' by {
            if i < s.len() - 1 {
                assert(t[i] == s[i]);
            }
        }
    }
}

/// End of the trimmed form of `cs[..end]`.
fn trimmed_end(cs: &Vec<char>, end: usize) -> (r: usize)
    requires
        end <= cs@.len(),
    ensures
        r <= end,
        cs@.take(r as int) == trim_tail(cs@.take(end as int)),
{
    let mut r: usize = end;
    while r > 1 && (cs[r - 1] == '/' || (cs[r - 1] == '.' && cs[r - 2] == '/'))
        invariant
            r <= end <= cs@.len(),
            trim_tail(cs@.take(r as int)) == trim_tail(cs@.take(end as int)),
        decreases r,
    {
        let ghost s = cs@.take(r as int);
        assert(s.last() == cs@[r - 1]);
        assert(s[s.len() - 2] == cs@[r - 2]);
        assert(s.drop_last() == cs@.take(r - 1));
        r -= 1;
    }
    let ghost s = cs@.take(r as int);
    assert(r > 1 ==> s.last() == cs@[r - 1] && s[s.len() - 2] == cs@[r - 2]);
    r
}

fn part_start(cs: &Vec<char>, end: usize) -> (i: usize)
    requires
        end <= cs@.len(),
    ensures
        i <= end,
        i == last_part(cs@.take(end as int)),
{
    let mut i: usize = end;
    while i > 0 && cs[i - 1] != '/'
        invariant
            i <= end <= cs@.len(),
            last_part(cs@.take(i as int)) == last_part(cs@.take(end as int)),
        decreases i,
    {
        let ghost s = cs@.take(i as int);
        assert(s.last() == cs@[i - 1]);
        assert(s.drop_last() == cs@.take(i - 1));
        i -= 1;
    }
    let ghost s = cs@.take(i as int);
    assert(i > 0 ==> s.last() == cs@[i - 1]);
    i
}

/// The last part of a path, where that is a name.
pub fn file_name_of(path: &str) -> (r: Option<String>)
    ensures
        match file_name(path@) {
            Some(name) => r matches Some(s) && s@ == name,
            None => r is None,
        },
{
    let cs: Vec<char> = to_chars(path);
    assert(cs@.take(cs@.len() as int) == cs@);
    let end: usize = trimmed_end(&cs, cs.len());
    let i: usize = part_start(&cs, end);
    let ghost t = cs@.take(end as int);
    let ghost name = t.skip(i as int);
    assert(name == cs@.subrange(i as int, end as int));
    let n: usize = end - i;
    assert(n >= 1 ==> name[0] == cs@[i as int]);
    assert(n >= 2 ==> name[1] == cs@[i + 1]);
    if n == 0 {
        return None;
    }
    if n == 1 && cs[i] == '.' {
        assert(name =~= seq!['.']);
        return None;
    }
    if n == 2 && cs[i] == '.' && cs[i + 1] == '.' {
        assert(name =~= seq!['.', '.']);
        return None;
    }
    proof {
        if name == seq!['.'] {
            assert(name.len() == 1 && name[0] == '.');
        }
        if name == seq!['.', '.'] {
            assert(name.len() == 2 && name[0] == '.' && name[1] == '.');
        }
    }
    Some(from_chars(&cs, i, end))
}

/// The path without its last part.
pub fn parent_of(path: &str) -> (r: Option<String>)
    ensures
        match parent(path@) {
            Some(p) => r matches Some(s) && s@ == p,
            None => r is None,
        },
{
    let cs: Vec<char> = to_chars(path);
    assert(cs@.take(cs@.len() as int) == cs@);
    let end: usize = trimmed_end(&cs, cs.len());
    let ghost t = cs@.take(end as int);
    assert(end >= 1 ==> t[0] == cs@[0]);
    if end == 0 {
        return None;
    }
    if end == 1 && cs[0] == '/' {
        assert(t =~= seq!['/']);
        return None;
    }
    proof {
        if t == seq!['/'] {
            assert(t.len() == 1 && t[0] == '/');
        }
    }
    let i: usize = part_start(&cs, end);
    if i == 0 {
        let s: String = from_chars(&cs, 0, 0);
        assert(s@ =~= Seq::<char>::empty());
        Some(s)
    } else if i == 1 {
        let mut s: String = String::new();
        s.push('/');
        assert(s@ =~= seq!['/']);
        Some(s)
    } else {
        let stop: usize = trimmed_end(&cs, i - 1);
        assert(t.take(i - 1) == cs@.take(i - 1));
        assert(cs@.take(stop as int) == cs@.subrange(0, stop as int));
        Some(from_chars(&cs, 0, stop))
    }
}

/// The text behind the last dot of a name.
pub open spec fn extension(name: Seq<char>) -> Option<Seq<char>>
    decreases name.len(),
{
    if name.len() == 0 {
        None
    } else if name.last() == '.' {
        Some(Seq::empty())
    } else {
        match extension(name.drop_last()) {
            Some(e) => Some(e.push(name.last())),
            None => None,
        }
    }
}

/// The text behind the last dot of a name that does not start with that dot.
pub open spec fn file_type(name: Seq<char>) -> Option<Seq<char>> {
    match extension(name) {
        Some(e) => if e.len() + 1 < name.len() {
            Some(e)
        } else {
            None
        },
        None => None,
    }
}

/// The text behind the last dot of a name that does not start with that dot.
pub fn file_type_of(name: &str) -> (r: Option<String>)
    ensures
        match file_type(name@) {
            Some(e) => r matches Some(s) && s@ == e,
            None => r is None,
        },
{
    let cs: Vec<char> = to_chars(name);
    proof {
        lemma_extension(cs@);
    }
    match extension_start(&cs) {
        Some(i) => if i > 1 {
            assert(cs@.subrange(i as int, cs@.len() as int) == cs@.skip(i as int));
            Some(from_chars(&cs, i, cs.len()))
        } else {
            None
        },
        None => None,
    }
}

/// Where the extension of a name starts.
pub fn extension_start(cs: &Vec<char>) -> (r: Option<usize>)
    ensures
        match extension(cs@) {
            Some(e) => r matches Some(i) && i <= cs@.len() && cs@.skip(i as int) == e,
            None => r is None,
        },
{
    let n: usize = cs.len();
    let mut i: usize = n;
    let ghost whole = extension(cs@);
    assert(cs@.take(n as int) == cs@);
    assert(cs@.skip(n as int) == Seq::<char>::empty());
    proof {
        if let Some(e) = whole {
            assert(e + cs@.skip(n as int) == e);
        }
    }
    while i > 0 && cs[i - 1] != '.'
        invariant
            i <= n == cs@.len(),
            whole == extension(cs@),
            whole == (match extension(cs@.take(i as int)) {
                Some(e) => Some(e + cs@.skip(i as int)),
                None => None,
            }),
        decreases i,
    {
        let ghost s = cs@.take(i as int);
        assert(s.last() == cs@[i - 1]);
        assert(s.drop_last() == cs@.take(i - 1));
        proof {
            if let Some(e) = extension(s.drop_last()) {
                assert(e.push(cs@[i - 1]) + cs@.skip(i as int) == e + cs@.skip(i - 1));
            }
        }
        i -= 1;
    }
    let ghost s = cs@.take(i as int);
    if i > 0 {
        assert(s.last() == '.');
        assert(Seq::<char>::empty() + cs@.skip(i as int) == cs@.skip(i as int));
        Some(i)
    } else {
        None
    }
}

/// An extension stands behind a dot.
pub proof fn lemma_extension(name: Seq<char>)
    ensures
        extension(name) matches Some(e) ==> {
            &&& e.len() < name.len()
            &&& name[name.len() - e.len() - 1] == '.'
            &&& name.skip(name.len() - e.len()) == e
        },
    decreases name.len(),
{
    if name.len() > 0 {
        if name.last() == '.' {
            assert(name.skip(name.len() as int) =~= Seq::empty());
        } else {
            let t = name.drop_last();
            lemma_extension(t);
            if extension(t) is Some {
                let e = extension(t)->0;
                assert(name.skip(name.len() - e.len() - 1) =~= t.skip(t.len() - e.len()).push(
                    name.last(),
                ));
            }
        }
    }
}

} // verus!
