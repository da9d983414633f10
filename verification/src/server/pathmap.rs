//! Rewriting the paths of callers into the paths that the server sees.
//!
//! A server in a container sees the working copies of its host under other
//! prefixes. A [`PathMap`] rewrites prefixes of the paths that callers name, so
//! that they land where the working copies are mounted.
use vstd::prelude::*;

use crate::path;
use crate::path::PathBuf;
use crate::text;
use crate::text::{chars_of, string_of, trim};

verus! {

/// Pairs of a prefix that callers use and the prefix that it stands for.
#[derive(Debug)]
pub struct PathMap {
    entries: Vec<(PathBuf, PathBuf)>,
}

/// What a list of pairs of prefixes says.
pub open spec fn entry_views(v: Seq<(PathBuf, PathBuf)>) -> Seq<(Seq<char>, Seq<char>)> {
    v.map_values(|e: (PathBuf, PathBuf)| (e.0@, e.1@))
}

impl View for PathMap {
    type V = Seq<(Seq<char>, Seq<char>)>;

    closed spec fn view(&self) -> Seq<(Seq<char>, Seq<char>)> {
        entry_views(self.entries@)
    }
}

// ---------------------------------------------------------------------------
// Reading a map
// ---------------------------------------------------------------------------

/// Whether a character parts the entries of a map.
pub open spec fn separator(c: char) -> bool {
    c == ',' || c == ';' || c == '\n'
}

/// The length of what stands before the first separator.
pub open spec fn entry_len(s: Seq<char>) -> nat
    decreases s.len(),
{
    if s.len() == 0 || separator(s[0]) {
        0
    } else {
        1 + entry_len(s.skip(1))
    }
}

/// The length of what stands before the first equals sign.
pub open spec fn before_equals(s: Seq<char>) -> nat
    decreases s.len(),
{
    if s.len() == 0 || s[0] == '=' {
        0
    } else {
        1 + before_equals(s.skip(1))
    }
}

/// The pair that an entry gives: what stands on the two sides of its first equals
/// sign, without white space around it. An entry without that sign, or with
/// nothing on one side, gives none.
pub open spec fn parsed_entry(entry: Seq<char>) -> Option<(Seq<char>, Seq<char>)> {
    let t = text::trimmed(entry);
    let n = before_equals(t);
    if n < t.len() {
        let host = text::trimmed(t.take(n as int));
        let container = text::trimmed(t.skip(n as int + 1));
        if host.len() > 0 && container.len() > 0 {
            Some((host, container))
        } else {
            None
        }
    } else {
        None
    }
}

/// The list of an optional pair.
pub open spec fn as_list(entry: Option<(Seq<char>, Seq<char>)>) -> Seq<(Seq<char>, Seq<char>)> {
    match entry {
        Some(e) => seq![e],
        None => seq![],
    }
}

/// The pairs that a text gives, entry by entry.
pub open spec fn parsed(s: Seq<char>) -> Seq<(Seq<char>, Seq<char>)>
    decreases s.len(),
    via parsed_decreases
{
    let n = entry_len(s);
    let first = as_list(parsed_entry(s.take(n as int)));
    if n < s.len() {
        first + parsed(s.skip(n as int + 1))
    } else {
        first
    }
}

#[via_fn]
proof fn parsed_decreases(s: Seq<char>) {
    lemma_entry_len(s);
}

/// An entry is a part of the text.
proof fn lemma_entry_len(s: Seq<char>)
    ensures
        entry_len(s) <= s.len(),
    decreases s.len(),
{
    if s.len() > 0 && !separator(s[0]) {
        lemma_entry_len(s.skip(1));
    }
}

/// Where the first separator stands.
proof fn lemma_entry_len_is(s: Seq<char>, n: nat)
    requires
        n <= s.len(),
        forall|i: int| 0 <= i < n ==> !separator(#[trigger] s[i]),
        n < s.len() ==> separator(s[n as int]),
    ensures
        entry_len(s) == n,
    decreases s.len(),
{
    if n > 0 {
        assert forall|i: int| 0 <= i < n - 1 implies !separator(#[trigger] s.skip(1)[i]) by {
            assert(s.skip(1)[i] == s[i + 1]);
        }
        lemma_entry_len_is(s.skip(1), (n - 1) as nat);
    }
}

/// Where the first equals sign stands.
proof fn lemma_before_equals_is(s: Seq<char>, n: nat)
    requires
        n <= s.len(),
        forall|i: int| 0 <= i < n ==> #[trigger] s[i] != '=',
        n < s.len() ==> s[n as int] == '=',
    ensures
        before_equals(s) == n,
    decreases s.len(),
{
    if n > 0 {
        assert forall|i: int| 0 <= i < n - 1 implies #[trigger] s.skip(1)[i] != '=' by {
            assert(s.skip(1)[i] == s[i + 1]);
        }
        lemma_before_equals_is(s.skip(1), (n - 1) as nat);
    }
}

/// The pair that an entry gives.
fn parse_entry(entry: &str) -> (r: Option<(PathBuf, PathBuf)>)
    ensures
        match r {
            Some(e) => parsed_entry(entry@) == Some((e.0@, e.1@)),
            None => parsed_entry(entry@) is None,
        },
{
    let t = trim(entry);
    let chars = chars_of(t.as_str());
    let mut n: usize = 0;
    while n < chars.len() && chars[n] != '='
        invariant
            n <= chars@.len(),
            forall|i: int| 0 <= i < n ==> #[trigger] chars@[i] != '=',
        decreases chars@.len() - n,
    {
        n += 1;
    }
    proof {
        lemma_before_equals_is(chars@, n as nat);
    }
    if n >= chars.len() {
        return None;
    }
    let host = trim(string_of(&chars, 0, n).as_str());
    let container = trim(string_of(&chars, n + 1, chars.len()).as_str());
    assert(chars@.subrange(0, n as int) =~= chars@.take(n as int));
    assert(chars@.subrange(n + 1, chars@.len() as int) =~= chars@.skip(n + 1));
    if chars_of(host.as_str()).len() > 0 && chars_of(container.as_str()).len() > 0 {
        Some((PathBuf::new(host.as_str()), PathBuf::new(container.as_str())))
    } else {
        None
    }
}

// ---------------------------------------------------------------------------
// Rewriting
// ---------------------------------------------------------------------------

/// The place of the prefix by which a path is rewritten: of those that it lies
/// under, the first of the deepest.
pub open spec fn best_prefix(prefixes: Seq<Seq<char>>, p: Seq<char>) -> Option<int>
    decreases prefixes.len(),
{
    if prefixes.len() == 0 {
        None
    } else {
        let before = best_prefix(prefixes.drop_last(), p);
        let last = prefixes.last();
        if path::under(p, last) {
            match before {
                Some(i) if path::components(last).len() <= path::components(prefixes[i]).len() => {
                    Some(i)
                },
                _ => Some(prefixes.len() - 1),
            }
        } else {
            before
        }
    }
}

/// The prefixes that callers use.
pub open spec fn hosts(entries: Seq<(Seq<char>, Seq<char>)>) -> Seq<Seq<char>> {
    entries.map_values(|e: (Seq<char>, Seq<char>)| e.0)
}

/// The prefixes that the server sees.
pub open spec fn containers(entries: Seq<(Seq<char>, Seq<char>)>) -> Seq<Seq<char>> {
    entries.map_values(|e: (Seq<char>, Seq<char>)| e.1)
}

/// A path with one prefix in the place of another.
pub open spec fn moved(p: Seq<char>, from: Seq<char>, to: Seq<char>) -> Seq<char> {
    path::joined(to, path::stripped(p, from).unwrap())
}

/// A path of a caller as the server sees it.
pub open spec fn mapped(entries: Seq<(Seq<char>, Seq<char>)>, p: Seq<char>) -> Seq<char> {
    match best_prefix(hosts(entries), p) {
        Some(i) => moved(p, entries[i].0, entries[i].1),
        None => p,
    }
}

/// A path that the server sees as callers name it.
pub open spec fn reversed(entries: Seq<(Seq<char>, Seq<char>)>, p: Seq<char>) -> Option<Seq<char>> {
    match best_prefix(containers(entries), p) {
        Some(i) => Some(moved(p, entries[i].1, entries[i].0)),
        None => None,
    }
}

impl PathMap {
    /// The map that `spec` gives: the value of the environment variable
    /// `HENKA_PATH_MAP`. Without a value the map rewrites nothing.
    pub fn from_env(spec: &Option<String>) -> (r: PathMap)
        ensures
            r@ == match *spec {
                Some(s) => parsed(s@),
                None => seq![],
            },
    {
        match spec {
            Some(s) => PathMap::parse(s.as_str()),
            None => {
                let r = PathMap { entries: Vec::new() };
                assert(r@ =~= seq![]);
                r
            },
        }
    }

    /// The map that `spec` gives: `host=container` pairs, parted by commas,
    /// semicolons or line feeds. Entries without an equals sign, or with nothing on
    /// one side of it, are passed over.
    pub fn parse(spec: &str) -> (r: PathMap)
        ensures
            r@ == parsed(spec@),
    {
        let chars = chars_of(spec);
        let ghost all = chars@;
        let mut entries: Vec<(PathBuf, PathBuf)> = Vec::new();
        let mut start: usize = 0;
        let mut more = true;
        assert(all.skip(0) =~= all);
        assert(entry_views(entries@) + parsed(all) =~= parsed(all));
        while more
            invariant
                all == chars@,
                start <= all.len(),
                if more {
                    parsed(all) == entry_views(entries@) + parsed(all.skip(start as int))
                } else {
                    parsed(all) == entry_views(entries@)
                },
            decreases all.len() - start, (if more { 1int } else { 0int }),
        {
            let ghost rest = all.skip(start as int);
            let mut end: usize = start;
            while end < chars.len() && !(chars[end] == ',' || chars[end] == ';' || chars[end]
                == '\n')
                invariant
                    all == chars@,
                    rest == all.skip(start as int),
                    start <= end <= all.len(),
                    forall|i: int| 0 <= i < end - start ==> !separator(#[trigger] rest[i]),
                decreases all.len() - end,
            {
                assert(rest[end - start] == all[end as int]);
                end += 1;
            }
            proof {
                if end < all.len() {
                    assert(rest[end - start] == all[end as int]);
                }
                lemma_entry_len_is(rest, (end - start) as nat);
            }
            let ghost before = entry_views(entries@);
            let entry = parse_entry(string_of(&chars, start, end).as_str());
            let ghost found = parsed_entry(rest.take(end - start));
            assert(all.subrange(start as int, end as int) =~= rest.take(end - start));
            if let Some(e) = entry {
                entries.push(e);
            }
            assert(entry_views(entries@) =~= before + as_list(found));
            if end < chars.len() {
                proof {
                    assert(rest.skip(end - start + 1) =~= all.skip(end + 1));
                    assert(before + (as_list(found) + parsed(all.skip(end + 1))) =~= (before
                        + as_list(found)) + parsed(all.skip(end + 1)));
                }
                start = end + 1;
            } else {
                more = false;
            }
        }
        PathMap { entries }
    }

    /// Whether the map rewrites nothing.
    pub fn is_empty(&self) -> (r: bool)
        ensures
            r == (self@.len() == 0),
    {
        self.entries.len() == 0
    }

    /// The prefixes that the server sees working copies under.
    pub fn container_prefixes(&self) -> (r: Vec<PathBuf>)
        ensures
            path::texts(r@) == containers(self@),
    {
        let mut out: Vec<PathBuf> = Vec::new();
        let mut i: usize = 0;
        while i < self.entries.len()
            invariant
                i <= self.entries@.len(),
                out@.len() == i,
                forall|j: int| 0 <= j < i ==> out@[j]@ == self.entries@[j].1@,
            decreases self.entries@.len() - i,
        {
            out.push(self.entries[i].1.clone());
            i += 1;
        }
        assert(path::texts(out@) =~= containers(self@));
        out
    }

    /// A path of a caller as the server sees it: rewritten by the deepest prefix
    /// that it lies under, or as it is.
    pub fn map(&self, p: &PathBuf) -> (r: PathBuf)
        ensures
            r@ == mapped(self@, p@),
    {
        let ghost prefixes = hosts(self@);
        let mut best: Option<(usize, PathBuf)> = None;
        let mut i: usize = 0;
        assert(prefixes.take(0) =~= seq![]);
        while i < self.entries.len()
            invariant
                i <= self.entries@.len(),
                prefixes == hosts(self@),
                match best {
                    Some(b) => best_prefix(prefixes.take(i as int), p@) matches Some(k) && 0 <= k
                        < i && b.0 == path::components(self@[k].0).len() && b.1@ == moved(
                        p@,
                        self@[k].0,
                        self@[k].1,
                    ),
                    None => best_prefix(prefixes.take(i as int), p@) is None,
                },
            decreases self.entries@.len() - i,
        {
            let ghost now = prefixes.take(i + 1);
            assert(now.drop_last() =~= prefixes.take(i as int));
            assert(now.last() == self.entries@[i as int].0@);
            if let Some(rest) = p.strip_prefix(&self.entries[i].0) {
                let depth = self.entries[i].0.components().len();
                let deeper = match &best {
                    Some(b) => depth > b.0,
                    None => true,
                };
                if deeper {
                    best = Some((depth, self.entries[i].1.join(&rest)));
                }
            }
            i += 1;
        }
        assert(prefixes.take(i as int) =~= prefixes);
        match best {
            Some(b) => b.1,
            None => p.clone(),
        }
    }

    /// A path that the server sees as callers name it: rewritten by the deepest
    /// prefix that it lies under, if there is one.
    pub fn reverse(&self, p: &PathBuf) -> (r: Option<PathBuf>)
        ensures
            path::optional(r) == reversed(self@, p@),
    {
        let ghost prefixes = containers(self@);
        let mut best: Option<(usize, PathBuf)> = None;
        let mut i: usize = 0;
        assert(prefixes.take(0) =~= seq![]);
        while i < self.entries.len()
            invariant
                i <= self.entries@.len(),
                prefixes == containers(self@),
                match best {
                    Some(b) => best_prefix(prefixes.take(i as int), p@) matches Some(k) && 0 <= k
                        < i && b.0 == path::components(self@[k].1).len() && b.1@ == moved(
                        p@,
                        self@[k].1,
                        self@[k].0,
                    ),
                    None => best_prefix(prefixes.take(i as int), p@) is None,
                },
            decreases self.entries@.len() - i,
        {
            let ghost now = prefixes.take(i + 1);
            assert(now.drop_last() =~= prefixes.take(i as int));
            assert(now.last() == self.entries@[i as int].1@);
            if let Some(rest) = p.strip_prefix(&self.entries[i].1) {
                let depth = self.entries[i].1.components().len();
                let deeper = match &best {
                    Some(b) => depth > b.0,
                    None => true,
                };
                if deeper {
                    best = Some((depth, self.entries[i].0.join(&rest)));
                }
            }
            i += 1;
        }
        assert(prefixes.take(i as int) =~= prefixes);
        match best {
            Some(b) => Some(b.1),
            None => None,
        }
    }
}

// ---------------------------------------------------------------------------
// Laws
// ---------------------------------------------------------------------------

/// A path is rewritten by a prefix that it lies under, and by none that is less
/// deep than another; it is left alone exactly where it lies under none.
pub proof fn deepest_prefix_wins(prefixes: Seq<Seq<char>>, p: Seq<char>)
    ensures
        match best_prefix(prefixes, p) {
            Some(i) => 0 <= i < prefixes.len() && path::under(p, prefixes[i]) && forall|j: int|
                0 <= j < prefixes.len() && path::under(p, #[trigger] prefixes[j])
                    ==> path::components(prefixes[j]).len() <= path::components(prefixes[i]).len(),
            None => forall|j: int|
                0 <= j < prefixes.len() ==> !path::under(p, #[trigger] prefixes[j]),
        },
    decreases prefixes.len(),
{
    if prefixes.len() > 0 {
        let front = prefixes.drop_last();
        deepest_prefix_wins(front, p);
        assert forall|j: int| 0 <= j < prefixes.len() - 1 implies #[trigger] prefixes[j]
            == front[j] by {}
    }
}

/// Every pair that is read from a text has something on both sides.
pub proof fn parsed_pairs_are_not_empty(s: Seq<char>)
    ensures
        forall|i: int|
            0 <= i < parsed(s).len() ==> (#[trigger] parsed(s)[i]).0.len() > 0
                && parsed(s)[i].1.len() > 0,
    decreases s.len(),
{
    lemma_entry_len(s);
    let n = entry_len(s);
    let first = as_list(parsed_entry(s.take(n as int)));
    if n < s.len() {
        let rest = parsed(s.skip(n as int + 1));
        parsed_pairs_are_not_empty(s.skip(n as int + 1));
        assert forall|i: int| 0 <= i < parsed(s).len() implies (#[trigger] parsed(s)[i]).0.len()
            > 0 && parsed(s)[i].1.len() > 0 by {
            if i >= first.len() {
                assert(parsed(s)[i] == rest[i - first.len()]);
            }
        }
    }
}

/// Where all prefixes of callers are absolute, relative paths are left alone.
pub proof fn relative_paths_are_left_alone(entries: Seq<(Seq<char>, Seq<char>)>, p: Seq<char>)
    requires
        forall|i: int| 0 <= i < entries.len() ==> path::absolute((#[trigger] entries[i]).0),
        !path::absolute(p),
    ensures
        mapped(entries, p) == p,
{
    let prefixes = hosts(entries);
    deepest_prefix_wins(prefixes, p);
    if let Some(i) = best_prefix(prefixes, p) {
        assert(prefixes[i] == entries[i].0);
        path::lemma_under_absolute(p, prefixes[i]);
    }
}

/// Whether no prefix that the server sees lies under another.
pub open spec fn containers_apart(entries: Seq<(Seq<char>, Seq<char>)>) -> bool {
    forall|i: int, j: int|
        0 <= i < entries.len() && 0 <= j < entries.len() && i != j ==> !path::under(
            (#[trigger] entries[i]).1,
            (#[trigger] entries[j]).1,
        )
}

/// Where no prefix that the server sees lies under another, a path that has been
/// rewritten is rewritten back to the path that the caller named.
pub proof fn reverse_undoes_map(entries: Seq<(Seq<char>, Seq<char>)>, p: Seq<char>)
    requires
        forall|i: int|
            0 <= i < entries.len() ==> (#[trigger] entries[i]).0.len() > 0 && entries[i].1.len()
                > 0,
        containers_apart(entries),
        best_prefix(hosts(entries), p) is Some,
    ensures
        reversed(entries, mapped(entries, p)) matches Some(q) && path::components(q)
            == path::components(p),
{
    let i = best_prefix(hosts(entries), p).unwrap();
    deepest_prefix_wins(hosts(entries), p);
    assert(hosts(entries)[i] == entries[i].0);
    let host = entries[i].0;
    let container = entries[i].1;
    let n = path::components(host).len();
    path::lemma_nonempty_has_component(host);
    path::lemma_behind(p, n);
    let rest = path::behind(p, n);
    let m = path::joined(container, rest);
    path::join_appends_components(container, rest);
    path::strip_undoes_join(container, rest);
    assert(path::under(m, container));
    deepest_prefix_wins(containers(entries), m);
    assert(containers(entries)[i] == container);
    let k = best_prefix(containers(entries), m).unwrap();
    assert(containers(entries)[k] == entries[k].1);
    if k != i {
        // Both prefixes are prefixes of one path, so one lies under the other.
        let a = path::components(entries[k].1);
        let b = path::components(container);
        assert(a =~= path::components(m).take(a.len() as int));
        assert(b =~= path::components(m).take(b.len() as int));
        assert(b.len() <= a.len());
        assert(a.take(b.len() as int) =~= b);
        assert(path::under(entries[k].1, entries[i].1));
    }
    let back = path::stripped(m, container).unwrap();
    path::lemma_nonempty_has_component(container);
    path::lemma_behind(m, path::components(container).len());
    path::join_appends_components(host, back);
    assert(path::components(p).take(n as int) + path::components(p).skip(n as int)
        =~= path::components(p));
}

/// A map is read entry by entry: two maps with a separator between them give the
/// pairs of the one, then those of the other.
pub proof fn separators_part_maps(a: Seq<char>, c: char, b: Seq<char>)
    requires
        separator(c),
    ensures
        parsed(a.push(c) + b) == parsed(a) + parsed(b),
    decreases a.len(),
{
    let all = a.push(c) + b;
    let n = entry_len(a);
    lemma_entry_len(a);
    lemma_before_separator(a);
    assert forall|i: int| 0 <= i < n implies !separator(#[trigger] all[i]) by {
        assert(all[i] == a[i]);
    }
    assert(separator(all[n as int])) by {
        if n < a.len() {
            assert(all[n as int] == a[n as int]);
        } else {
            assert(all[n as int] == c);
        }
    }
    lemma_entry_len_is(all, n);
    assert(all.take(n as int) =~= a.take(n as int));
    let first = as_list(parsed_entry(a.take(n as int)));
    if n < a.len() {
        let rest = a.skip(n as int + 1);
        assert(all.skip(n as int + 1) =~= rest.push(c) + b);
        separators_part_maps(rest, c, b);
        assert(first + (parsed(rest) + parsed(b)) =~= (first + parsed(rest)) + parsed(b));
    } else {
        assert(all.skip(n as int + 1) =~= b);
    }
}

/// An entry holds no separator, and ends before one or at the end.
proof fn lemma_before_separator(s: Seq<char>)
    ensures
        entry_len(s) <= s.len(),
        forall|i: int| 0 <= i < entry_len(s) ==> !separator(#[trigger] s[i]),
        entry_len(s) < s.len() ==> separator(s[entry_len(s) as int]),
    decreases s.len(),
{
    if s.len() > 0 && !separator(s[0]) {
        let rest = s.skip(1);
        lemma_before_separator(rest);
        assert forall|i: int| 0 <= i < entry_len(s) implies !separator(#[trigger] s[i]) by {
            if i > 0 {
                assert(s[i] == rest[i - 1]);
            }
        }
    }
}

/// Whether `to` is `p` with the directory `container` in the place of the directory
/// `host` that it lies in.
pub open spec fn is_moved_over(
    to: Seq<char>,
    p: Seq<char>,
    host: Seq<char>,
    container: Seq<char>,
) -> bool {
    &&& path::under(p, host)
    &&& path::components(to) == path::components(container) + path::components(p).skip(
        path::components(host).len() as int,
    )
}

/// Whether the entry at `i` is the one by which a path of a caller is rewritten: the
/// path lies under it, under none that is deeper, and under none before it that is
/// as deep.
pub open spec fn is_best_for(
    entries: Seq<(Seq<char>, Seq<char>)>,
    p: Seq<char>,
    i: int,
) -> bool {
    &&& 0 <= i < entries.len()
    &&& path::under(p, entries[i].0)
    &&& forall|j: int|
        0 <= j < entries.len() && path::under(p, (#[trigger] entries[j]).0) ==> path::components(
            entries[j].0,
        ).len() < path::components(entries[i].0).len() || (i <= j && path::components(
            entries[j].0,
        ).len() == path::components(entries[i].0).len())
}

/// The first of the deepest prefixes.
proof fn lemma_first_of_the_deepest(prefixes: Seq<Seq<char>>, p: Seq<char>)
    ensures
        best_prefix(prefixes, p) matches Some(i) ==> forall|j: int|
            0 <= j < i && path::under(p, #[trigger] prefixes[j]) ==> path::components(
                prefixes[j],
            ).len() < path::components(prefixes[i]).len(),
    decreases prefixes.len(),
{
    if prefixes.len() > 0 {
        let front = prefixes.drop_last();
        lemma_first_of_the_deepest(front, p);
        deepest_prefix_wins(front, p);
        assert forall|j: int| 0 <= j < prefixes.len() - 1 implies #[trigger] prefixes[j]
            == front[j] by {}
    }
}

/// A path of a caller that lies in a directory of the map is the same path in the
/// directory that the map gives for it; of several such directories, the deepest
/// decides. Any other path is left alone.
pub proof fn paths_keep_their_place_in_the_directory(
    entries: Seq<(Seq<char>, Seq<char>)>,
    p: Seq<char>,
)
    requires
        forall|i: int|
            0 <= i < entries.len() ==> (#[trigger] entries[i]).0.len() > 0 && entries[i].1.len()
                > 0,
    ensures
        forall|i: int| #[trigger] is_best_for(entries, p, i) ==> is_moved_over(
            mapped(entries, p),
            p,
            entries[i].0,
            entries[i].1,
        ),
        (exists|j: int| 0 <= j < entries.len() && path::under(p, (#[trigger] entries[j]).0))
            ==> exists|i: int| #[trigger] is_best_for(entries, p, i),
        (forall|j: int| 0 <= j < entries.len() ==> !path::under(p, (#[trigger] entries[j]).0))
            ==> mapped(entries, p) == p,
{
    let prefixes = hosts(entries);
    deepest_prefix_wins(prefixes, p);
    lemma_first_of_the_deepest(prefixes, p);
    assert forall|j: int| 0 <= j < entries.len() implies (#[trigger] entries[j]).0
        == prefixes[j] by {}
    match best_prefix(prefixes, p) {
        Some(k) => {
            assert(entries[k].0 == prefixes[k]);
            assert(is_best_for(entries, p, k)) by {
                assert forall|j: int|
                    0 <= j < entries.len() && path::under(
                        p,
                        (#[trigger] entries[j]).0,
                    ) implies path::components(entries[j].0).len() < path::components(
                    entries[k].0,
                ).len() || (k <= j && path::components(entries[j].0).len() == path::components(
                    entries[k].0,
                ).len()) by {
                    assert(entries[j].0 == prefixes[j]);
                }
            }
            assert forall|i: int| #[trigger] is_best_for(entries, p, i) implies i == k by {
                assert(path::under(p, entries[k].0));
                assert(path::under(p, entries[i].0));
            }
            let n = path::components(entries[k].0).len();
            path::lemma_nonempty_has_component(entries[k].0);
            path::lemma_behind(p, n);
            path::join_appends_components(entries[k].1, path::behind(p, n));
        },
        None => {
            assert forall|i: int| !(#[trigger] is_best_for(entries, p, i)) by {
                if 0 <= i < entries.len() {
                    assert(entries[i].0 == prefixes[i]);
                }
            }
            assert forall|j: int| 0 <= j < entries.len() implies !path::under(
                p,
                (#[trigger] entries[j]).0,
            ) by {
                assert(entries[j].0 == prefixes[j]);
            }
        },
    }
}

/// Whether a text can be one side of an entry: it is not empty, has no white space
/// at its ends, and holds nothing that parts entries.
pub open spec fn can_be_a_side(s: Seq<char>) -> bool {
    &&& s.len() > 0
    &&& !text::white_space(s[0]) && !text::white_space(s.last())
    &&& forall|i: int| 0 <= i < s.len() ==> !separator(#[trigger] s[i])
}

/// An entry is read as the pair that it was written for: what stands before the
/// first equals sign, and what stands behind it.
pub proof fn entries_are_read_as_they_are_written(host: Seq<char>, container: Seq<char>)
    requires
        can_be_a_side(host),
        can_be_a_side(container),
        forall|i: int| 0 <= i < host.len() ==> #[trigger] host[i] != '=',
    ensures
        parsed(host + seq!['='] + container) == seq![(host, container)],
{
    let all = host + seq!['='] + container;
    let n = host.len();
    assert forall|i: int| 0 <= i < all.len() implies !separator(#[trigger] all[i]) by {
        if i < n {
            assert(all[i] == host[i]);
        } else if i > n {
            assert(all[i] == container[i - n - 1]);
        }
    }
    lemma_entry_len_is(all, all.len());
    assert(all.take(all.len() as int) =~= all);
    assert(all[0] == host[0]);
    assert(all.last() == container.last());
    text::lemma_trimmed_already(all);
    assert forall|i: int| 0 <= i < n implies #[trigger] all[i] != '=' by {
        assert(all[i] == host[i]);
    }
    assert(all[n as int] == '=');
    lemma_before_equals_is(all, n);
    assert(all.take(n as int) =~= host);
    assert(all.skip(n as int + 1) =~= container);
    text::lemma_trimmed_already(host);
    text::lemma_trimmed_already(container);
}

} // verus!
