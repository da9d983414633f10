//! Where the language servers are looked for.
use vstd::prelude::*;

use crate::path;
use crate::path::PathBuf;
use crate::text;
use crate::text::{cat3, chars_of};

verus! {

/// A path, and whether what is wanted is there.
#[derive(Debug)]
pub struct Probed {
    /// The path.
    pub path: PathBuf,
    /// Whether what is wanted is there.
    pub present: bool,
}

/// Where the cache of an application is: in a directory of its own under
/// `$XDG_CACHE_HOME`, unless that is unset or empty, else under `.cache` in
/// `$HOME`, else under `.cache` in the working directory.
pub open spec fn cache_base_of(
    app: Seq<char>,
    xdg: Option<Seq<char>>,
    home: Option<Seq<char>>,
) -> Seq<char> {
    let base = match (xdg, home) {
        (Some(dir), _) if dir.len() > 0 => dir,
        (_, Some(home)) => path::joined(home, ".cache"@),
        (_, None) => ".cache"@,
    };
    path::joined(base, app)
}

/// Where the cache of an application is. `xdg` is `$XDG_CACHE_HOME` and `home` is
/// `$HOME`.
pub fn cache_base(app: &str, xdg: &Option<String>, home: &Option<String>) -> (r: PathBuf)
    ensures
        r@ == cache_base_of(app@, text::optional(*xdg), text::optional(*home)),
{
    let app = PathBuf::new(app);
    if let Some(dir) = xdg {
        if chars_of(dir.as_str()).len() > 0 {
            return PathBuf::new(dir.as_str()).join(&app);
        }
    }
    match home {
        Some(home) => PathBuf::new(home.as_str()).join(&PathBuf::new(".cache")).join(&app),
        None => PathBuf::new(".cache").join(&app),
    }
}

/// Paths, parted by commas.
pub open spec fn listed(paths: Seq<Seq<char>>) -> Seq<char>
    decreases paths.len(),
{
    if paths.len() == 0 {
        ""@
    } else if paths.len() == 1 {
        paths[0]
    } else {
        listed(paths.drop_last()) + ", "@ + paths.last()
    }
}

/// Paths, parted by commas.
pub fn list_paths(paths: &Vec<PathBuf>) -> (r: String)
    ensures
        r@ == listed(path::texts(paths@)),
{
    if paths.len() == 0 {
        return "".to_owned();
    }
    let mut out = paths[0].as_str().to_owned();
    let mut i: usize = 1;
    assert(path::texts(paths@).take(1).drop_last() =~= Seq::empty());
    while i < paths.len()
        invariant
            1 <= i <= paths@.len(),
            out@ == listed(path::texts(paths@).take(i as int)),
        decreases paths@.len() - i,
    {
        assert(path::texts(paths@).take(i + 1).drop_last() =~= path::texts(paths@).take(i as int));
        out = cat3(out.as_str(), ", ", paths[i].as_str());
        i += 1;
    }
    assert(path::texts(paths@).take(i as int) =~= path::texts(paths@));
    out
}

/// The paths of a list of probed paths.
pub open spec fn probed_paths(places: Seq<Probed>) -> Seq<Seq<char>> {
    places.map_values(|p: Probed| p.path@)
}

/// The place of the first path at which what is wanted is there.
pub open spec fn first_present_at(places: Seq<Probed>) -> Option<int>
    decreases places.len(),
{
    if places.len() == 0 {
        None
    } else {
        match first_present_at(places.drop_last()) {
            Some(i) => Some(i),
            None => if places.last().present {
                Some(places.len() - 1)
            } else {
                None
            },
        }
    }
}

/// The first path at which what is wanted is there.
pub open spec fn first_present_path(places: Seq<Probed>) -> Option<Seq<char>> {
    match first_present_at(places) {
        Some(i) => Some(places[i].path@),
        None => None,
    }
}

/// What [`first_present_at`] means: it is the first place of its kind.
proof fn lemma_first_present(places: Seq<Probed>, n: int)
    requires
        0 <= n < places.len(),
        places[n].present,
        forall|i: int| 0 <= i < n ==> !(#[trigger] places[i]).present,
    ensures
        first_present_at(places) == Some(n),
    decreases places.len(),
{
    if n < places.len() - 1 {
        assert(places.drop_last()[n] == places[n]);
        lemma_first_present(places.drop_last(), n);
    } else {
        lemma_none_present(places.drop_last());
    }
}

/// Nothing is found where nothing is there.
proof fn lemma_none_present(places: Seq<Probed>)
    requires
        forall|i: int| 0 <= i < places.len() ==> !(#[trigger] places[i]).present,
    ensures
        first_present_at(places) is None,
    decreases places.len(),
{
    if places.len() > 0 {
        lemma_none_present(places.drop_last());
    }
}

/// The first path at which what is wanted is there.
pub fn first_present(places: &Vec<Probed>) -> (r: Option<PathBuf>)
    ensures
        path::optional(r) == first_present_path(places@),
{
    let mut i: usize = 0;
    while i < places.len()
        invariant
            i <= places@.len(),
            forall|j: int| 0 <= j < i ==> !(#[trigger] places@[j]).present,
        decreases places@.len() - i,
    {
        if places[i].present {
            proof {
                lemma_first_present(places@, i as int);
            }
            return Some(places[i].path.clone());
        }
        i += 1;
    }
    proof {
        lemma_none_present(places@);
    }
    None
}

/// A place in front moves what is found by one.
proof fn lemma_shifted(place: Probed, places: Seq<Probed>)
    ensures
        first_present_at(seq![place] + places) == if place.present {
            Some(0int)
        } else {
            match first_present_at(places) {
                Some(i) => Some(i + 1),
                None => None,
            }
        },
    decreases places.len(),
{
    let all = seq![place] + places;
    if places.len() == 0 {
        assert(all =~= seq![place]);
        assert(all.drop_last() =~= Seq::empty());
        reveal_with_fuel(first_present_at, 2);
    } else {
        lemma_shifted(place, places.drop_last());
        assert(all.drop_last() =~= seq![place] + places.drop_last());
    }
}

/// A search takes what it finds first: with a place in front at which nothing is,
/// it finds the same; with a place in front at which something is, it finds that.
pub proof fn search_takes_the_first(place: Probed, places: Seq<Probed>)
    ensures
        first_present_path(seq![place] + places) == if place.present {
            Some(place.path@)
        } else {
            first_present_path(places)
        },
{
    lemma_shifted(place, places);
    lemma_found_in_range(places);
}

/// What is found is one of the places.
proof fn lemma_found_in_range(places: Seq<Probed>)
    ensures
        first_present_at(places) matches Some(i) ==> 0 <= i < places.len(),
    decreases places.len(),
{
    if places.len() > 0 {
        lemma_found_in_range(places.drop_last());
    }
}

/// The cache of an application is in a directory of its own name: directly in the
/// cache directory that is set, else in `.cache` in the home directory. A setting
/// that is empty is as good as none.
pub proof fn caches_are_under_the_cache_directory(
    app: Seq<char>,
    dir: Seq<char>,
    home: Option<Seq<char>>,
)
    requires
        path::plain_name(app),
        dir.len() > 0,
        home matches Some(h) ==> h.len() > 0,
    ensures
        path::components(cache_base_of(app, Some(dir), home)) == path::components(dir).push(app),
        home matches Some(h) ==> path::components(cache_base_of(app, None, home))
            == path::components(h).push(".cache"@).push(app),
        home is None ==> path::components(cache_base_of(app, None, home)) == seq![
            ".cache"@,
            app,
        ],
        cache_base_of(app, Some(Seq::empty()), home) == cache_base_of(app, None, home),
{
    reveal_strlit(".cache");
    assert(".cache"@.len() == 6);
    assert(path::plain_name(".cache"@));
    path::joined_names_are_file_names(dir, app);
    path::lemma_plain_name(".cache"@);
    path::joined_names_are_file_names(".cache"@, app);
    if let Some(h) = home {
        path::joined_names_are_file_names(h, ".cache"@);
        path::joined_names_are_file_names(path::joined(h, ".cache"@), app);
    } else {
        assert(seq![".cache"@].push(app) =~= seq![".cache"@, app]);
    }
}

/// A list of paths names every one of them.
pub proof fn lists_name_every_path(paths: Seq<Seq<char>>, i: int)
    requires
        0 <= i < paths.len(),
    ensures
        text::contains_text(listed(paths), paths[i]),
{
    let (front, back) = lemma_listed(paths, i);
    text::lemma_stands_between(front, paths[i], back);
}

/// What stands around a path in a list.
proof fn lemma_listed(paths: Seq<Seq<char>>, i: int) -> (r: (Seq<char>, Seq<char>))
    requires
        0 <= i < paths.len(),
    ensures
        listed(paths) == r.0 + paths[i] + r.1,
    decreases paths.len(),
{
    let none = Seq::<char>::empty();
    if paths.len() == 1 {
        assert(listed(paths) =~= none + paths[i] + none);
        (none, none)
    } else if i == paths.len() - 1 {
        let front = listed(paths.drop_last()) + ", "@;
        assert(listed(paths) =~= front + paths[i] + none);
        (front, none)
    } else {
        let (a, b) = lemma_listed(paths.drop_last(), i);
        let back = b + ", "@ + paths.last();
        assert(paths.drop_last()[i] == paths[i]);
        assert(listed(paths) =~= a + paths[i] + back);
        (a, back)
    }
}

} // verus!
