//! Small sets of paths and of texts.
//!
//! Paths are told apart by their components, texts by their characters.
use vstd::prelude::*;

use crate::path;
use crate::path::PathBuf;
use crate::text::same_text;

verus! {

/// The components of the paths in a list.
pub open spec fn path_set(v: Seq<PathBuf>) -> Set<Seq<Seq<char>>> {
    Set::new(|c: Seq<Seq<char>>| exists|i: int| 0 <= i < v.len() && path::components((#[trigger] v[i])@) == c)
}

/// A set of paths.
#[derive(Debug)]
pub struct PathSet {
    items: Vec<PathBuf>,
}

impl View for PathSet {
    type V = Set<Seq<Seq<char>>>;

    /// The components of the paths in the set.
    closed spec fn view(&self) -> Set<Seq<Seq<char>>> {
        path_set(self.items@)
    }
}

impl PathSet {
    /// The paths in the order they were put in.
    pub closed spec fn listing(&self) -> Seq<PathBuf> {
        self.items@
    }

    /// The listing holds exactly the paths of the set.
    pub proof fn lists_its_paths(&self)
        ensures
            path_set(self.listing()) == self@,
    {
    }

    /// No paths.
    pub fn new() -> (r: PathSet)
        ensures
            r@ == Set::<Seq<Seq<char>>>::empty(),
            r.listing().len() == 0,
    {
        let r = PathSet { items: Vec::new() };
        assert(r@ =~= Set::<Seq<Seq<char>>>::empty());
        r
    }

    /// The paths in the order they were put in.
    pub fn items(&self) -> (r: &Vec<PathBuf>)
        ensures
            r@ == self.listing(),
            path_set(r@) == self@,
    {
        &self.items
    }

    /// Whether there are no paths.
    pub fn is_empty(&self) -> (r: bool)
        ensures
            r == (self@ == Set::<Seq<Seq<char>>>::empty()),
    {
        proof {
            if self.items@.len() > 0 {
                assert(self@.contains(path::components(self.items@[0]@)));
            } else {
                assert(self@ =~= Set::<Seq<Seq<char>>>::empty());
            }
        }
        self.items.len() == 0
    }

    /// Whether a path is in the set.
    pub fn contains(&self, p: &PathBuf) -> (r: bool)
        ensures
            r == self@.contains(path::components(p@)),
    {
        let mut i: usize = 0;
        while i < self.items.len()
            invariant
                i <= self.items@.len(),
                forall|j: int|
                    0 <= j < i ==> path::components((#[trigger] self.items@[j])@)
                        != path::components(p@),
            decreases self.items@.len() - i,
        {
            if self.items[i] == *p {
                return true;
            }
            i += 1;
        }
        false
    }

    /// Puts a path in.
    pub fn insert(&mut self, p: PathBuf)
        ensures
            final(self)@ == old(self)@.insert(path::components(p@)),
    {
        let ghost before = self.items@;
        if self.contains(&p) {
            assert(self@ =~= self@.insert(path::components(p@)));
            return;
        }
        self.items.push(p);
        proof {
            let after = self.items@;
            let want = path_set(before).insert(path::components(p@));
            assert forall|c: Seq<Seq<char>>| #[trigger] path_set(after).contains(c)
                <==> want.contains(c) by {
                if path_set(after).contains(c) {
                    let i = choose|i: int|
                        0 <= i < after.len() && path::components((#[trigger] after[i])@) == c;
                    if i < before.len() {
                        assert(before[i] == after[i]);
                    }
                }
                if path_set(before).contains(c) {
                    let i = choose|i: int|
                        0 <= i < before.len() && path::components((#[trigger] before[i])@) == c;
                    assert(after[i] == before[i]);
                }
                if c == path::components(p@) {
                    assert(path::components(after[before.len() as int]@) == c);
                }
            }
            assert(path_set(after) =~= want);
        }
    }

    /// Takes a path out and returns whether it was in.
    pub fn remove(&mut self, p: &PathBuf) -> (r: bool)
        ensures
            r == old(self)@.contains(path::components(p@)),
            final(self)@ == old(self)@.remove(path::components(p@)),
    {
        let ghost all = self.items@;
        let found = self.contains(p);
        let mut kept: Vec<PathBuf> = Vec::new();
        let ghost gone = path::components(p@);
        let mut i: usize = 0;
        assert(path_set(kept@) =~= path_set(all.take(0)).remove(gone));
        while i < self.items.len()
            invariant
                i <= self.items@.len(),
                self.items@ == all,
                gone == path::components(p@),
                path_set(kept@) == path_set(all.take(i as int)).remove(gone),
            decreases self.items@.len() - i,
        {
            let ghost before = kept@;
            let ghost front = all.take(i as int);
            let ghost now = all.take(i + 1);
            if self.items[i] != *p {
                kept.push(self.items[i].clone());
            }
            proof {
                let c0 = path::components(all[i as int]@);
                assert forall|c: Seq<Seq<char>>| #[trigger] path_set(now).contains(c)
                    <==> path_set(front).contains(c) || c == c0 by {
                    if path_set(now).contains(c) {
                        let k = choose|k: int|
                            0 <= k < now.len() && path::components((#[trigger] now[k])@) == c;
                        if k < front.len() {
                            assert(front[k] == now[k]);
                        }
                    }
                    if path_set(front).contains(c) {
                        let k = choose|k: int|
                            0 <= k < front.len() && path::components((#[trigger] front[k])@) == c;
                        assert(now[k] == front[k]);
                    }
                    if c == c0 {
                        assert(path::components(now[i as int]@) == c);
                    }
                }
                if c0 != gone {
                    let after = kept@;
                    assert forall|c: Seq<Seq<char>>| #[trigger] path_set(after).contains(c)
                        <==> path_set(before).contains(c) || c == c0 by {
                        if path_set(after).contains(c) {
                            let k = choose|k: int|
                                0 <= k < after.len() && path::components((#[trigger] after[k])@)
                                    == c;
                            if k < before.len() {
                                assert(before[k] == after[k]);
                            }
                        }
                        if path_set(before).contains(c) {
                            let k = choose|k: int|
                                0 <= k < before.len() && path::components((#[trigger] before[k])@)
                                    == c;
                            assert(after[k] == before[k]);
                        }
                        if c == c0 {
                            assert(path::components(after[before.len() as int]@) == c);
                        }
                    }
                }
                assert(path_set(kept@) =~= path_set(now).remove(gone));
            }
            i += 1;
        }
        assert(all.take(i as int) =~= all);
        self.items = kept;
        found
    }

    /// Takes all paths out.
    pub fn take(&mut self) -> (r: PathSet)
        ensures
            r@ == old(self)@,
            r.listing() == old(self).listing(),
            final(self)@ == Set::<Seq<Seq<char>>>::empty(),
    {
        let mut items: Vec<PathBuf> = Vec::new();
        std::mem::swap(&mut items, &mut self.items);
        assert(self@ =~= Set::<Seq<Seq<char>>>::empty());
        PathSet { items }
    }
}

/// The texts in a list.
pub open spec fn text_set(v: Seq<String>) -> Set<Seq<char>> {
    Set::new(|s: Seq<char>| exists|i: int| 0 <= i < v.len() && (#[trigger] v[i])@ == s)
}

/// A set of texts.
#[derive(Debug)]
pub struct TextSet {
    items: Vec<String>,
}

impl View for TextSet {
    type V = Set<Seq<char>>;

    closed spec fn view(&self) -> Set<Seq<char>> {
        text_set(self.items@)
    }
}

impl TextSet {
    /// No texts.
    pub fn new() -> (r: TextSet)
        ensures
            r@ == Set::<Seq<char>>::empty(),
    {
        let r = TextSet { items: Vec::new() };
        assert(r@ =~= Set::<Seq<char>>::empty());
        r
    }

    /// Whether there are no texts.
    pub fn is_empty(&self) -> (r: bool)
        ensures
            r == (self@ == Set::<Seq<char>>::empty()),
    {
        proof {
            if self.items@.len() > 0 {
                assert(self@.contains(self.items@[0]@));
            } else {
                assert(self@ =~= Set::<Seq<char>>::empty());
            }
        }
        self.items.len() == 0
    }

    /// Puts a text in.
    pub fn insert(&mut self, s: String)
        ensures
            final(self)@ == old(self)@.insert(s@),
    {
        let ghost before = self.items@;
        self.items.push(s);
        proof {
            let after = self.items@;
            let want = text_set(before).insert(s@);
            assert forall|c: Seq<char>| #[trigger] text_set(after).contains(c) <==> want.contains(
                c,
            ) by {
                if text_set(after).contains(c) {
                    let i = choose|i: int| 0 <= i < after.len() && (#[trigger] after[i])@ == c;
                    if i < before.len() {
                        assert(before[i] == after[i]);
                    }
                }
                if text_set(before).contains(c) {
                    let i = choose|i: int| 0 <= i < before.len() && (#[trigger] before[i])@ == c;
                    assert(after[i] == before[i]);
                }
                if c == s@ {
                    assert(after[before.len() as int]@ == c);
                }
            }
            assert(text_set(after) =~= want);
        }
    }

    /// Takes a text out.
    pub fn remove(&mut self, s: &str)
        ensures
            final(self)@ == old(self)@.remove(s@),
    {
        let ghost all = self.items@;
        let mut kept: Vec<String> = Vec::new();
        let mut i: usize = 0;
        assert(text_set(kept@) =~= text_set(all.take(0)).remove(s@));
        while i < self.items.len()
            invariant
                i <= self.items@.len(),
                self.items@ == all,
                text_set(kept@) == text_set(all.take(i as int)).remove(s@),
            decreases self.items@.len() - i,
        {
            let ghost before = kept@;
            let ghost front = all.take(i as int);
            let ghost now = all.take(i + 1);
            let ghost x = all[i as int]@;
            if !same_text(self.items[i].as_str(), s) {
                kept.push(self.items[i].clone());
            }
            proof {
                assert forall|c: Seq<char>| #[trigger] text_set(now).contains(c) <==> text_set(
                    front,
                ).contains(c) || c == x by {
                    if text_set(now).contains(c) {
                        let k = choose|k: int| 0 <= k < now.len() && (#[trigger] now[k])@ == c;
                        if k < front.len() {
                            assert(front[k] == now[k]);
                        }
                    }
                    if text_set(front).contains(c) {
                        let k = choose|k: int| 0 <= k < front.len() && (#[trigger] front[k])@ == c;
                        assert(now[k] == front[k]);
                    }
                    if c == x {
                        assert(now[i as int]@ == c);
                    }
                }
                if x != s@ {
                    let after = kept@;
                    assert forall|c: Seq<char>| #[trigger] text_set(after).contains(c)
                        <==> text_set(before).contains(c) || c == x by {
                        if text_set(after).contains(c) {
                            let k = choose|k: int|
                                0 <= k < after.len() && (#[trigger] after[k])@ == c;
                            if k < before.len() {
                                assert(before[k] == after[k]);
                            }
                        }
                        if text_set(before).contains(c) {
                            let k = choose|k: int|
                                0 <= k < before.len() && (#[trigger] before[k])@ == c;
                            assert(after[k] == before[k]);
                        }
                        if c == x {
                            assert(after[before.len() as int]@ == c);
                        }
                    }
                }
                assert(text_set(kept@) =~= text_set(now).remove(s@));
            }
            i += 1;
        }
        assert(all.take(i as int) =~= all);
        self.items = kept;
    }
}

} // verus!
