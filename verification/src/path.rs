//! Slash-separated file paths.
//!
//! A path is the text it was written as. What it means is the list of its
//! components: the root of an absolute path, the `.` that a relative path may
//! start with, and the names between the slashes. Empty names and every other
//! `.` carry no meaning; `..` is a name like any other.
use vstd::prelude::*;

use crate::text;
use crate::text::{cat2, cat3, chars_of, is_before, same_text, same_texts, string_of};

verus! {

// ---------------------------------------------------------------------------
// Components
// ---------------------------------------------------------------------------

/// The component that stands for the root of an absolute path.
pub open spec fn root_component() -> Seq<char> {
    seq!['/']
}

/// The component that stands for a leading `.`.
pub open spec fn dot_component() -> Seq<char> {
    seq!['.']
}

/// The number of characters before the first slash.
pub open spec fn name_len(s: Seq<char>) -> nat
    decreases s.len(),
{
    if s.len() == 0 || s[0] == '/' {
        0
    } else {
        1 + name_len(s.skip(1))
    }
}

/// What stands before the first slash.
pub open spec fn first_name(s: Seq<char>) -> Seq<char> {
    s.take(name_len(s) as int)
}

/// What stands behind the first slash; nothing where there is none.
pub open spec fn after_first_name(s: Seq<char>) -> Seq<char> {
    if name_len(s) < s.len() {
        s.skip(name_len(s) as int + 1)
    } else {
        seq![]
    }
}

/// Whether a name between two slashes is a component.
pub open spec fn significant(name: Seq<char>) -> bool {
    name.len() > 0 && name != dot_component()
}

/// The names in `s` that are components.
pub open spec fn names(s: Seq<char>) -> Seq<Seq<char>>
    decreases s.len(),
{
    if s.len() == 0 {
        seq![]
    } else if significant(first_name(s)) {
        seq![first_name(s)] + names(after_first_name(s))
    } else {
        names(after_first_name(s))
    }
}

/// Whether a path starts at the root.
pub open spec fn absolute(s: Seq<char>) -> bool {
    s.len() > 0 && s[0] == '/'
}

/// The component before the names: the root, a leading `.`, or none.
pub open spec fn lead(s: Seq<char>) -> Seq<Seq<char>> {
    if absolute(s) {
        seq![root_component()]
    } else if first_name(s) == dot_component() {
        seq![dot_component()]
    } else {
        seq![]
    }
}

/// The components of a path.
pub open spec fn components(s: Seq<char>) -> Seq<Seq<char>> {
    lead(s) + names(s)
}

// ---------------------------------------------------------------------------
// Joining and stripping
// ---------------------------------------------------------------------------

/// The text of `base` followed by `rel`: an absolute `rel` replaces `base`.
pub open spec fn joined(base: Seq<char>, rel: Seq<char>) -> Seq<char> {
    if absolute(rel) {
        rel
    } else if base.len() == 0 || base.last() == '/' {
        base + rel
    } else {
        base + seq!['/'] + rel
    }
}

/// `s` without the front part that holds its first `n` names.
pub open spec fn skip_names(s: Seq<char>, n: nat) -> Seq<char>
    decreases s.len(),
{
    if n == 0 || s.len() == 0 {
        s
    } else if significant(first_name(s)) {
        skip_names(after_first_name(s), (n - 1) as nat)
    } else {
        skip_names(after_first_name(s), n)
    }
}

/// `s` without the slashes and dots in front of its first name.
pub open spec fn clean_front(s: Seq<char>) -> Seq<char>
    decreases s.len(),
{
    if s.len() > 0 && !significant(first_name(s)) {
        clean_front(after_first_name(s))
    } else {
        s
    }
}

/// Whether the last character of `s` belongs to no name.
pub open spec fn idle_end(s: Seq<char>) -> bool {
    s.len() > 0 && (s.last() == '/' || (s.last() == '.' && (s.len() == 1 || s[s.len() - 2]
        == '/')))
}

/// `s` without the slashes and dots behind its last name.
pub open spec fn clean_back(s: Seq<char>) -> Seq<char>
    decreases s.len(),
{
    if idle_end(s) {
        clean_back(s.drop_last())
    } else {
        s
    }
}

/// The number of characters that the leading component takes.
pub open spec fn lead_len(s: Seq<char>) -> nat {
    lead(s).len()
}

/// The text of a path behind its first `n` components.
pub open spec fn behind(s: Seq<char>, n: nat) -> Seq<char> {
    if n == 0 {
        s.take(lead_len(s) as int) + clean_back(s.skip(lead_len(s) as int))
    } else {
        clean_back(clean_front(skip_names(s, (n - lead(s).len()) as nat)))
    }
}

/// Whether the components of `base` are the first components of `s`.
pub open spec fn under(s: Seq<char>, base: Seq<char>) -> bool {
    components(base).len() <= components(s).len() && components(s).take(
        components(base).len() as int,
    ) == components(base)
}

/// `s` relative to `base`, where it lies under it.
pub open spec fn stripped(s: Seq<char>, base: Seq<char>) -> Option<Seq<char>> {
    if under(s, base) {
        Some(behind(s, components(base).len()))
    } else {
        None
    }
}

// ---------------------------------------------------------------------------
// Facts about components
// ---------------------------------------------------------------------------

/// The first name ends at the first slash.
proof fn lemma_name_len(s: Seq<char>)
    ensures
        name_len(s) <= s.len(),
        forall|i: int| 0 <= i < name_len(s) ==> s[i] != '/',
        name_len(s) < s.len() ==> s[name_len(s) as int] == '/',
    decreases s.len(),
{
    if s.len() > 0 && s[0] != '/' {
        lemma_name_len(s.skip(1));
        assert forall|i: int| 0 <= i < name_len(s) implies s[i] != '/' by {
            if i > 0 {
                assert(s[i] == s.skip(1)[i - 1]);
            }
        }
    }
}

/// The first name is the only prefix that ends there.
proof fn lemma_name_len_is(s: Seq<char>, k: nat)
    requires
        k <= s.len(),
        forall|i: int| 0 <= i < k ==> s[i] != '/',
        k < s.len() ==> s[k as int] == '/',
    ensures
        name_len(s) == k,
{
    lemma_name_len(s);
    if name_len(s) < k {
        assert(s[name_len(s) as int] != '/');
    }
}

/// A slash between two texts separates their names.
pub proof fn lemma_names_separated(a: Seq<char>, b: Seq<char>)
    ensures
        names(a + seq!['/'] + b) == names(a) + names(b),
    decreases a.len(),
{
    let s = a + seq!['/'] + b;
    lemma_name_len(a);
    lemma_name_len_is(s, name_len(a));
    assert(first_name(s) =~= first_name(a));
    if a.len() == 0 {
        assert(after_first_name(s) =~= b);
        assert(names(s) =~= names(a) + names(b));
    } else if name_len(a) < a.len() {
        assert(after_first_name(s) =~= after_first_name(a) + seq!['/'] + b);
        lemma_names_separated(after_first_name(a), b);
        assert(names(s) =~= names(a) + names(b));
    } else {
        assert(after_first_name(s) =~= b);
        assert(names(after_first_name(a)) =~= seq![]);
        assert(names(s) =~= names(a) + names(b));
    }
}

/// A slash at the end adds no name.
proof fn lemma_names_trailing_slash(a: Seq<char>)
    ensures
        names(a + seq!['/']) == names(a),
{
    lemma_names_separated(a, seq![]);
    assert(a + seq!['/'] + Seq::<char>::empty() =~= a + seq!['/']);
    assert(names(a) + names(Seq::<char>::empty()) =~= names(a));
}

/// What follows a slash does not change how a path starts.
proof fn lemma_lead_extended(a: Seq<char>, b: Seq<char>)
    requires
        a.len() > 0,
    ensures
        lead(a + seq!['/'] + b) == lead(a),
{
    let s = a + seq!['/'] + b;
    lemma_name_len(a);
    lemma_name_len_is(s, name_len(a));
    assert(first_name(s) =~= first_name(a));
}

/// The components of a joined path are those of its base followed by the names
/// of the relative path.
pub proof fn join_appends_components(base: Seq<char>, rel: Seq<char>)
    requires
        base.len() > 0,
        !absolute(rel),
    ensures
        components(joined(base, rel)) == components(base) + names(rel),
{
    if base.last() == '/' {
        let front = base.drop_last();
        assert(base =~= front + seq!['/']);
        assert(joined(base, rel) =~= front + seq!['/'] + rel);
        lemma_names_separated(front, rel);
        lemma_names_trailing_slash(front);
        if front.len() > 0 {
            lemma_lead_extended(front, rel);
            lemma_lead_extended(front, seq![]);
            assert(front + seq!['/'] + Seq::<char>::empty() =~= base);
        }
    } else {
        lemma_names_separated(base, rel);
        lemma_lead_extended(base, rel);
    }
    assert(components(joined(base, rel)) =~= components(base) + names(rel));
}

/// Cleaning the front keeps the names.
proof fn lemma_clean_front(s: Seq<char>)
    ensures
        names(clean_front(s)) == names(s),
        clean_front(s).len() > 0 ==> significant(first_name(clean_front(s))),
    decreases s.len(),
{
    if s.len() > 0 && !significant(first_name(s)) {
        lemma_clean_front(after_first_name(s));
    }
}

/// Cleaning the back keeps the names and how the text starts.
proof fn lemma_clean_back(s: Seq<char>)
    ensures
        names(clean_back(s)) == names(s),
        significant(first_name(s)) ==> significant(first_name(clean_back(s))),
        clean_back(s).len() <= s.len(),
    decreases s.len(),
{
    if idle_end(s) {
        let t = s.drop_last();
        lemma_clean_back(t);
        lemma_name_len(s);
        lemma_name_len(t);
        if s.last() == '/' {
            assert(s =~= t + seq!['/']);
            lemma_names_trailing_slash(t);
            if significant(first_name(s)) {
                assert(name_len(s) < s.len());
                lemma_name_len_is(t, name_len(s));
                assert(first_name(t) =~= first_name(s));
            }
        } else if s.len() == 1 {
            lemma_name_len_is(s, 1);
            assert(first_name(s) =~= dot_component());
            assert(names(after_first_name(s)) =~= seq![]);
        } else {
            let u = t.drop_last();
            assert(t =~= u + seq!['/']);
            assert(s =~= u + seq!['/'] + seq!['.']);
            lemma_names_separated(u, seq!['.']);
            lemma_names_trailing_slash(u);
            lemma_name_len_is(seq!['.'], 1);
            assert(first_name(seq!['.']) =~= dot_component());
            assert(after_first_name(seq!['.']) =~= Seq::<char>::empty());
            assert(names(seq!['.']) =~= names(Seq::<char>::empty()));
            assert(names(s) =~= names(t));
            if significant(first_name(s)) {
                assert(s[s.len() - 2] == '/');
                assert(name_len(s) <= s.len() - 2);
                lemma_name_len_is(t, name_len(s));
                assert(first_name(t) =~= first_name(s));
            }
        }
    }
}

/// Skipping names drops them from the list.
proof fn lemma_skip_names(s: Seq<char>, n: nat)
    requires
        n <= names(s).len(),
    ensures
        names(skip_names(s, n)) == names(s).skip(n as int),
    decreases s.len(),
{
    if n == 0 || s.len() == 0 {
        assert(names(s).skip(0) =~= names(s));
    } else if significant(first_name(s)) {
        lemma_skip_names(after_first_name(s), (n - 1) as nat);
        assert(names(s).skip(n as int) =~= names(after_first_name(s)).skip(n - 1));
    } else {
        lemma_skip_names(after_first_name(s), n);
    }
}

/// A text whose first name is a component has no leading component.
proof fn lemma_no_lead(s: Seq<char>)
    requires
        s.len() > 0 ==> significant(first_name(s)),
    ensures
        lead(s) == Seq::<Seq<char>>::empty(),
        !absolute(s),
{
    if s.len() == 0 {
        assert(first_name(s) =~= Seq::<char>::empty());
        assert(first_name(s).len() != dot_component().len());
    }
}

/// Behind its first `n` components a path has the components that follow, and
/// its text is that of a relative path without a leading dot.
pub proof fn lemma_behind(s: Seq<char>, n: nat)
    requires
        0 < n <= components(s).len(),
    ensures
        components(behind(s, n)) == components(s).skip(n as int),
        names(behind(s, n)) == components(s).skip(n as int),
        lead(behind(s, n)) == Seq::<Seq<char>>::empty(),
        !absolute(behind(s, n)),
{
    let m = (n - lead(s).len()) as nat;
    let a = skip_names(s, m);
    let b = clean_front(a);
    lemma_skip_names(s, m);
    lemma_clean_front(a);
    lemma_clean_back(b);
    if b.len() == 0 {
        assert(clean_back(b).len() == 0);
    }
    lemma_no_lead(clean_back(b));
    assert(components(s).skip(n as int) =~= names(s).skip(m as int));
    assert(components(behind(s, n)) =~= names(behind(s, n)));
}

// ---------------------------------------------------------------------------
// Parents and file names
// ---------------------------------------------------------------------------

/// `s` without the characters behind its last slash.
pub open spec fn drop_name(s: Seq<char>) -> Seq<char>
    decreases s.len(),
{
    if s.len() == 0 || s.last() == '/' {
        s
    } else {
        drop_name(s.drop_last())
    }
}

/// The text of a path without its last component; nothing for the root and for
/// the empty path.
pub open spec fn parent_of(s: Seq<char>) -> Option<Seq<char>> {
    let k = lead_len(s) as int;
    if names(s).len() > 0 {
        Some(s.take(k) + clean_back(drop_name(clean_back(s.skip(k)))))
    } else if lead(s).len() > 0 && !absolute(s) {
        Some(seq![])
    } else {
        None
    }
}

/// The last name of a path, unless it is `..` or there is none.
pub open spec fn file_name_of(s: Seq<char>) -> Option<Seq<char>> {
    if names(s).len() > 0 && names(s).last() != seq!['.', '.'] {
        Some(names(s).last())
    } else {
        None
    }
}

/// The position of the last dot in a name, -1 where there is none.
pub open spec fn last_dot(name: Seq<char>) -> int
    decreases name.len(),
{
    if name.len() == 0 {
        -1
    } else if name.last() == '.' {
        name.len() - 1
    } else {
        last_dot(name.drop_last())
    }
}

/// What stands behind the last dot of the file name. A name without a dot, or
/// with its only dot in front, has no extension.
pub open spec fn extension_of(s: Seq<char>) -> Option<Seq<char>> {
    match file_name_of(s) {
        Some(name) => if last_dot(name) > 0 {
            Some(name.skip(last_dot(name) + 1))
        } else {
            None
        },
        None => None,
    }
}

// ---------------------------------------------------------------------------
// The path type
// ---------------------------------------------------------------------------

/// An owned path. Two paths are equal when their components are.
#[derive(Debug)]
pub struct PathBuf {
    text: String,
}

impl View for PathBuf {
    type V = Seq<char>;

    closed spec fn view(&self) -> Seq<char> {
        self.text@
    }
}

impl Clone for PathBuf {
    fn clone(&self) -> (r: Self)
        ensures
            r@ == self@,
    {
        PathBuf { text: self.text.clone() }
    }
}

impl PartialEq for PathBuf {
    fn eq(&self, other: &Self) -> (r: bool) {
        same_texts(&self.components(), &other.components())
    }
}

impl vstd::std_specs::cmp::PartialEqSpecImpl for PathBuf {
    open spec fn obeys_eq_spec() -> bool {
        true
    }

    open spec fn eq_spec(&self, other: &Self) -> bool {
        components(self@) == components(other@)
    }
}

impl Eq for PathBuf {

}

/// The length of the first name of `chars` from `from` on.
fn name_end(chars: &Vec<char>, from: usize) -> (r: usize)
    requires
        from <= chars@.len(),
    ensures
        from <= r <= chars@.len(),
        r - from == name_len(chars@.skip(from as int)),
        chars@.subrange(from as int, r as int) == first_name(chars@.skip(from as int)),
        r < chars@.len() ==> after_first_name(chars@.skip(from as int)) == chars@.skip(r + 1),
        r == chars@.len() ==> after_first_name(chars@.skip(from as int)) == Seq::<char>::empty(),
{
    let mut i: usize = from;
    while i < chars.len() && chars[i] != '/'
        invariant
            from <= i <= chars@.len(),
            forall|j: int| from <= j < i ==> chars@[j] != '/',
        decreases chars@.len() - i,
    {
        i += 1;
    }
    proof {
        let s = chars@.skip(from as int);
        lemma_name_len_is(s, (i - from) as nat);
        assert(chars@.subrange(from as int, i as int) =~= first_name(s));
        if i < chars@.len() {
            assert(after_first_name(s) =~= chars@.skip(i + 1));
        }
    }
    i
}

/// Whether the name `from..to` of `chars` is a component.
fn is_significant(chars: &Vec<char>, from: usize, to: usize) -> (r: bool)
    requires
        from <= to <= chars@.len(),
    ensures
        r == significant(chars@.subrange(from as int, to as int)),
{
    let ghost name = chars@.subrange(from as int, to as int);
    if to == from {
        return false;
    }
    if to == from + 1 && chars[from] == '.' {
        assert(name =~= dot_component());
        return false;
    }
    proof {
        if name == dot_component() {
            assert(name.len() == 1 && name[0] == '.');
        }
    }
    true
}

/// The end of `from..to` in `chars` once the slashes and dots behind its last
/// name are left out.
fn clean_end(chars: &Vec<char>, from: usize, to: usize) -> (r: usize)
    requires
        from <= to <= chars@.len(),
    ensures
        from <= r <= to,
        chars@.subrange(from as int, r as int) == clean_back(
            chars@.subrange(from as int, to as int),
        ),
{
    let ghost whole = chars@.subrange(from as int, to as int);
    let mut end: usize = to;
    while from < end && (chars[end - 1] == '/' || (chars[end - 1] == '.' && (end - 1 == from
        || chars[end - 2] == '/')))
        invariant
            from <= end <= to <= chars@.len(),
            clean_back(whole) == clean_back(chars@.subrange(from as int, end as int)),
        decreases end - from,
    {
        assert(chars@.subrange(from as int, end as int).drop_last() =~= chars@.subrange(
            from as int,
            end - 1,
        ));
        end -= 1;
    }
    end
}

impl PathBuf {
    /// The path written as `text`.
    pub fn new(text: &str) -> (r: PathBuf)
        ensures
            r@ == text@,
    {
        PathBuf { text: text.to_owned() }
    }

    /// The text of the path.
    pub fn as_str(&self) -> (r: &str)
        ensures
            r@ == self@,
    {
        self.text.as_str()
    }

    /// The components of the path.
    pub fn components(&self) -> (r: Vec<String>)
        ensures
            text::texts(r@) == components(self@),
    {
        let chars = chars_of(self.text.as_str());
        let mut out: Vec<String> = Vec::new();
        let first = name_end(&chars, 0);
        assert(chars@.skip(0) =~= self@);
        if chars.len() > 0 && chars[0] == '/' {
            out.push(string_of(&chars, 0, 1));
            assert(text::texts(out@) =~= lead(self@)) by {
                assert(out@[0]@ =~= root_component());
            }
        } else if first == 1 && chars[0] == '.' {
            out.push(string_of(&chars, 0, 1));
            assert(text::texts(out@) =~= lead(self@)) by {
                assert(out@[0]@ =~= dot_component());
                assert(first_name(self@) =~= dot_component());
            }
        } else {
            proof {
                if first_name(self@) == dot_component() {
                    assert(first_name(self@).len() == 1);
                    assert(first_name(self@)[0] == '.');
                }
                assert(text::texts(out@) =~= lead(self@));
            }
        }
        let mut from: usize = 0;
        assert(text::texts(out@) + names(chars@.skip(0)) =~= components(self@));
        while from < chars.len()
            invariant
                from <= chars@.len(),
                text::texts(out@) + names(chars@.skip(from as int)) == components(self@),
            decreases chars@.len() - from,
        {
            let ghost s = chars@.skip(from as int);
            let ghost before = text::texts(out@);
            let to = name_end(&chars, from);
            if is_significant(&chars, from, to) {
                out.push(string_of(&chars, from, to));
                assert(text::texts(out@) =~= before.push(first_name(s)));
                assert(before + names(s) =~= text::texts(out@) + names(after_first_name(s)));
            }
            if to < chars.len() {
                from = to + 1;
            } else {
                from = to;
                assert(chars@.skip(from as int) =~= Seq::<char>::empty());
            }
        }
        assert(chars@.skip(from as int) =~= Seq::<char>::empty());
        assert(text::texts(out@) + names(Seq::<char>::empty()) =~= text::texts(out@));
        out
    }

    /// Whether the path starts at the root.
    pub fn is_absolute(&self) -> (r: bool)
        ensures
            r == absolute(self@),
    {
        let chars = chars_of(self.text.as_str());
        chars.len() > 0 && chars[0] == '/'
    }

    /// `rel` seen from this path: an absolute `rel` replaces it.
    pub fn join(&self, rel: &PathBuf) -> (r: PathBuf)
        ensures
            r@ == joined(self@, rel@),
    {
        if rel.is_absolute() {
            return rel.clone();
        }
        let base = chars_of(self.text.as_str());
        if base.len() == 0 || base[base.len() - 1] == '/' {
            PathBuf { text: cat2(self.text.as_str(), rel.text.as_str()) }
        } else {
            proof {
                reveal_strlit("/");
                assert("/"@ =~= seq!['/']);
            }
            PathBuf { text: cat3(self.text.as_str(), "/", rel.text.as_str()) }
        }
    }

    /// Whether this path is `base` or lies under it.
    pub fn starts_with(&self, base: &PathBuf) -> (r: bool)
        ensures
            r == under(self@, base@),
    {
        let mine = self.components();
        let theirs = base.components();
        if theirs.len() > mine.len() {
            return false;
        }
        let mut i: usize = 0;
        while i < theirs.len()
            invariant
                i <= theirs@.len() <= mine@.len(),
                text::texts(mine@) == components(self@),
                text::texts(theirs@) == components(base@),
                forall|j: int| 0 <= j < i ==> components(self@)[j] == components(base@)[j],
            decreases theirs@.len() - i,
        {
            assert(text::texts(mine@)[i as int] == mine@[i as int]@);
            assert(text::texts(theirs@)[i as int] == theirs@[i as int]@);
            if !same_text(mine[i].as_str(), theirs[i].as_str()) {
                assert(components(self@).take(components(base@).len() as int)[i as int]
                    != components(base@)[i as int]);
                return false;
            }
            i += 1;
        }
        assert(components(self@).take(components(base@).len() as int) =~= components(base@));
        true
    }

    /// This path relative to `base`, where it lies under it.
    pub fn strip_prefix(&self, base: &PathBuf) -> (r: Option<PathBuf>)
        ensures
            r is Some == under(self@, base@),
            r matches Some(p) ==> Some(p@) == stripped(self@, base@),
    {
        if !self.starts_with(base) {
            return None;
        }
        let chars = chars_of(self.text.as_str());
        let theirs = base.components();
        let n: usize = theirs.len();
        let led = (chars.len() > 0 && chars[0] == '/') || (chars.len() > 0 && chars[0] == '.'
            && name_end(&chars, 0) == 1);
        proof {
            assert(chars@.skip(0) =~= self@);
            lemma_name_len(self@);
            if first_name(self@) == dot_component() {
                assert(first_name(self@).len() == 1);
                assert(first_name(self@)[0] == '.');
            }
            if led && chars@[0] == '.' {
                assert(first_name(self@) =~= dot_component());
            }
            assert(text::texts(theirs@).len() == n);
        }
        let k: usize = if led { 1 } else { 0 };
        assert(lead_len(self@) == k);
        if n == 0 {
            let end = clean_end(&chars, k, chars.len());
            proof {
                assert(chars@.subrange(k as int, chars@.len() as int) =~= self@.skip(k as int));
                assert(chars@.subrange(0, end as int) =~= self@.take(k as int)
                    + chars@.subrange(k as int, end as int));
            }
            let r = PathBuf { text: string_of(&chars, 0, end) };
            assert(r@ == behind(self@, 0));
            return Some(r);
        }
        let mut left: usize = n - k;
        let mut from: usize = 0;
        while left > 0 && from < chars.len()
            invariant
                from <= chars@.len(),
                skip_names(self@, (n - k) as nat) == skip_names(
                    chars@.skip(from as int),
                    left as nat,
                ),
            decreases chars@.len() - from,
        {
            let to = name_end(&chars, from);
            if is_significant(&chars, from, to) {
                left -= 1;
            }
            if to < chars.len() {
                from = to + 1;
            } else {
                from = to;
                assert(chars@.skip(from as int) =~= Seq::<char>::empty());
            }
        }
        let ghost skipped = chars@.skip(from as int);
        assert(skip_names(self@, (n - k) as nat) == skipped);
        let mut start: usize = from;
        let mut more = true;
        while more && start < chars.len()
            invariant
                start <= chars@.len(),
                clean_front(skipped) == clean_front(chars@.skip(start as int)),
                !more ==> start < chars@.len() && significant(
                    first_name(chars@.skip(start as int)),
                ),
            decreases chars@.len() - start, more as int,
        {
            let to = name_end(&chars, start);
            if is_significant(&chars, start, to) {
                more = false;
            } else if to < chars.len() {
                start = to + 1;
            } else {
                start = to;
                assert(chars@.skip(start as int) =~= Seq::<char>::empty());
            }
        }
        let end = clean_end(&chars, start, chars.len());
        assert(chars@.subrange(start as int, chars@.len() as int) =~= chars@.skip(start as int));
        let r = PathBuf { text: string_of(&chars, start, end) };
        assert(r@ == behind(self@, n as nat));
        Some(r)
    }
}

impl PathBuf {
    /// The path without its last component; `None` for the root and for the
    /// empty path.
    pub fn parent(&self) -> (r: Option<PathBuf>)
        ensures
            r is Some == parent_of(self@) is Some,
            r matches Some(p) ==> Some(p@) == parent_of(self@),
    {
        let chars = chars_of(self.text.as_str());
        let all = self.components();
        let led = chars.len() > 0 && (chars[0] == '/' || (chars[0] == '.' && name_end(&chars, 0)
            == 1));
        proof {
            assert(chars@.skip(0) =~= self@);
            lemma_name_len(self@);
            if first_name(self@) == dot_component() {
                assert(first_name(self@).len() == 1);
                assert(first_name(self@)[0] == '.');
            }
            if led && chars@[0] == '.' {
                assert(first_name(self@) =~= dot_component());
            }
            assert(text::texts(all@).len() == all@.len());
        }
        let k: usize = if led { 1 } else { 0 };
        assert(lead_len(self@) == k);
        if all.len() == k {
            if k == 1 && chars[0] != '/' {
                let r = PathBuf { text: String::new() };
                assert(r@ =~= Seq::<char>::empty());
                return Some(r);
            }
            return None;
        }
        let last = clean_end(&chars, k, chars.len());
        let ghost cleaned = chars@.subrange(k as int, last as int);
        assert(chars@.subrange(k as int, chars@.len() as int) =~= self@.skip(k as int));
        let mut end: usize = last;
        while k < end && chars[end - 1] != '/'
            invariant
                k <= end <= last <= chars@.len(),
                drop_name(cleaned) == drop_name(chars@.subrange(k as int, end as int)),
            decreases end - k,
        {
            assert(chars@.subrange(k as int, end as int).drop_last() =~= chars@.subrange(
                k as int,
                end - 1,
            ));
            end -= 1;
        }
        let stop = clean_end(&chars, k, end);
        assert(chars@.subrange(0, stop as int) =~= self@.take(k as int) + chars@.subrange(
            k as int,
            stop as int,
        ));
        let r = PathBuf { text: string_of(&chars, 0, stop) };
        Some(r)
    }

    /// The last name of the path, unless it is `..` or there is none.
    pub fn file_name(&self) -> (r: Option<String>)
        ensures
            r is Some == file_name_of(self@) is Some,
            r matches Some(n) ==> Some(n@) == file_name_of(self@),
    {
        let mut all = self.components();
        let chars = chars_of(self.text.as_str());
        proof {
            assert(text::texts(all@).len() == all@.len());
            lemma_names_hold_no_slash(self@);
        }
        if all.len() == 0 {
            return None;
        }
        let last = chars_of(all[all.len() - 1].as_str());
        proof {
            assert(text::texts(all@)[all@.len() - 1] == last@);
            if last@ == seq!['.', '.'] {
                assert(last@.len() == 2);
            }
        }
        if last.len() == 1 && (last[0] == '/' || last[0] == '.') {
            proof {
                if names(self@).len() > 0 {
                    assert(last@ == names(self@).last());
                    if last@[0] == '.' {
                        assert(last@ =~= dot_component());
                    }
                }
            }
            return None;
        }
        proof {
            if names(self@).len() == 0 {
                assert(last@ == root_component() || last@ == dot_component());
            }
        }
        if last.len() == 2 && last[0] == '.' && last[1] == '.' {
            assert(last@ =~= seq!['.', '.']);
            return None;
        }
        all.pop()
    }

    /// What stands behind the last dot of the file name.
    pub fn extension(&self) -> (r: Option<String>)
        ensures
            r is Some == extension_of(self@) is Some,
            r matches Some(e) ==> Some(e@) == extension_of(self@),
    {
        match self.file_name() {
            Some(name) => {
                let chars = chars_of(name.as_str());
                let mut i: usize = chars.len();
                assert(chars@.take(chars@.len() as int) =~= chars@);
                while i > 0 && chars[i - 1] != '.'
                    invariant
                        i <= chars@.len(),
                        last_dot(chars@) == last_dot(chars@.take(i as int)),
                    decreases i,
                {
                    assert(chars@.take(i as int).drop_last() =~= chars@.take(i - 1));
                    i -= 1;
                }
                if i > 1 {
                    let r = string_of(&chars, i, chars.len());
                    assert(chars@.subrange(i as int, chars@.len() as int) =~= chars@.skip(
                        i as int,
                    ));
                    Some(r)
                } else {
                    None
                }
            },
            None => None,
        }
    }
}

/// No name holds a slash, and each is a component.
proof fn lemma_names_hold_no_slash(s: Seq<char>)
    ensures
        forall|i: int| 0 <= i < names(s).len() ==> significant(#[trigger] names(s)[i]),
        forall|i: int, j: int|
            0 <= i < names(s).len() && 0 <= j < names(s)[i].len() ==> names(s)[i][j] != '/',
    decreases s.len(),
{
    if s.len() > 0 {
        lemma_names_hold_no_slash(after_first_name(s));
        lemma_name_len(s);
        if significant(first_name(s)) {
            let tail = names(after_first_name(s));
            assert forall|i: int| 0 <= i < names(s).len() implies significant(
                #[trigger] names(s)[i],
            ) by {
                if i > 0 {
                    assert(names(s)[i] == tail[i - 1]);
                }
            }
            assert forall|i: int, j: int|
                0 <= i < names(s).len() && 0 <= j < names(s)[i].len() implies names(s)[i][j]
                != '/' by {
                if i > 0 {
                    assert(names(s)[i] == tail[i - 1]);
                }
            }
        }
    }
}

/// Dropping the last name of a text that ends in one removes it from the list.
proof fn lemma_drop_name(s: Seq<char>)
    requires
        s.len() > 0,
        !idle_end(s),
    ensures
        names(s).len() > 0,
        names(drop_name(s)) == names(s).drop_last(),
        drop_name(s).len() < s.len(),
        drop_name(s) == s.take(drop_name(s).len() as int),
        drop_name(s).len() > 0 ==> drop_name(s).last() == '/',
{
    lemma_drop_name_prefix(s);
    let u = drop_name(s);
    let name = s.skip(u.len() as int);
    assert(name.len() > 0) by {
        if u.len() == s.len() {
            assert(u =~= s);
        }
    }
    lemma_name_len_is(name, name.len());
    assert(first_name(name) =~= name);
    assert(name != dot_component()) by {
        if name == dot_component() {
            assert(s.last() == name[0]);
            if u.len() > 0 {
                assert(s[s.len() - 2] == u.last());
            }
        }
    }
    assert(names(Seq::<char>::empty()) =~= Seq::<Seq<char>>::empty());
    assert(names(name) =~= seq![name]);
    if u.len() == 0 {
        assert(name =~= s);
        assert(names(s).drop_last() =~= names(u));
    } else {
        let v = u.drop_last();
        assert(u =~= v + seq!['/']);
        assert(s =~= v + seq!['/'] + name);
        lemma_names_separated(v, name);
        lemma_names_trailing_slash(v);
        assert(names(s).drop_last() =~= names(v));
    }
}

/// What stays when a name is dropped is a prefix that ends in a slash.
proof fn lemma_drop_name_prefix(s: Seq<char>)
    ensures
        drop_name(s).len() <= s.len(),
        drop_name(s) == s.take(drop_name(s).len() as int),
        drop_name(s).len() > 0 ==> drop_name(s).last() == '/',
        forall|i: int| drop_name(s).len() <= i < s.len() ==> s[i] != '/',
    decreases s.len(),
{
    if s.len() == 0 || s.last() == '/' {
        assert(s.take(s.len() as int) =~= s);
    } else {
        lemma_drop_name_prefix(s.drop_last());
        assert(s.drop_last().take(drop_name(s).len() as int) =~= s.take(
            drop_name(s).len() as int,
        ));
        assert forall|i: int| drop_name(s).len() <= i < s.len() implies s[i] != '/' by {
            if i < s.len() - 1 {
                assert(s[i] == s.drop_last()[i]);
            }
        }
    }
}

/// Cleaning the back leaves a prefix without an idle end.
proof fn lemma_clean_back_prefix(s: Seq<char>)
    ensures
        clean_back(s).len() <= s.len(),
        clean_back(s) == s.take(clean_back(s).len() as int),
        !idle_end(clean_back(s)),
    decreases s.len(),
{
    if idle_end(s) {
        lemma_clean_back_prefix(s.drop_last());
        assert(s.drop_last().take(clean_back(s).len() as int) =~= s.take(
            clean_back(s).len() as int,
        ));
    } else {
        assert(s.take(s.len() as int) =~= s);
    }
}

/// The parent of a path has its components but for the last, and a shorter
/// text.
pub proof fn parent_drops_last_component(s: Seq<char>)
    requires
        parent_of(s) is Some,
    ensures
        components(parent_of(s).unwrap()) == components(s).drop_last(),
        parent_of(s).unwrap().len() < s.len(),
{
    let k = lead_len(s) as int;
    let p = parent_of(s).unwrap();
    lemma_name_len(s);
    if names(s).len() > 0 {
        assert(s.len() > 0);
        let body = s.skip(k);
        let cleaned = clean_back(body);
        let cut = drop_name(cleaned);
        let rest = clean_back(cut);
        lemma_clean_back(body);
        lemma_clean_back_prefix(body);
        lemma_lead_body(s);
        assert(cleaned.len() > 0) by {
            if cleaned.len() == 0 {
                assert(names(cleaned) =~= Seq::<Seq<char>>::empty());
            }
        }
        lemma_drop_name(cleaned);
        lemma_clean_back(cut);
        lemma_clean_back_prefix(cut);
        assert(rest =~= body.take(rest.len() as int));
        assert(names(rest) == names(s).drop_last());
        if k == 0 {
            assert(p =~= rest);
            assert(lead(rest) =~= Seq::<Seq<char>>::empty()) by {
                if cut.len() > 0 {
                    lemma_name_len(cut);
                    assert(cut =~= s.take(cut.len() as int));
                    assert(s[cut.len() - 1] == '/');
                    assert(name_len(s) < cut.len()) by {
                        if name_len(s) >= cut.len() {
                            assert(s[cut.len() - 1] != '/');
                        }
                    }
                    lemma_name_len_is(cut, name_len(s));
                    assert(first_name(cut) =~= first_name(s));
                    assert(name_len(s) > 0);
                    assert(significant(first_name(s)));
                    lemma_no_lead(rest);
                } else {
                    assert(rest =~= Seq::<char>::empty());
                    lemma_no_lead(rest);
                }
            }
        } else if absolute(s) {
            assert(p =~= seq!['/'] + rest);
            lemma_names_separated(seq![], rest);
            assert(Seq::<char>::empty() + seq!['/'] + rest =~= p);
            assert(names(Seq::<char>::empty()) + names(rest) =~= names(rest));
        } else {
            assert(s[0] == '.') by {
                assert(first_name(s)[0] == '.');
            }
            assert(p =~= seq!['.'] + rest);
            assert(name_len(s) == 1) by {
                assert(first_name(s).len() == 1);
            }
            if rest.len() > 0 {
                assert(rest[0] == body[0]);
                assert(rest[0] == '/');
                let tail = rest.skip(1);
                assert(rest =~= Seq::<char>::empty() + seq!['/'] + tail);
                lemma_names_separated(seq![], tail);
                assert(names(Seq::<char>::empty()) + names(tail) =~= names(tail));
                assert(p =~= seq!['.'] + seq!['/'] + tail);
                lemma_names_separated(seq!['.'], tail);
                lemma_dot_alone();
                assert(names(seq!['.']) + names(tail) =~= names(tail));
                lemma_lead_extended(seq!['.'], tail);
            } else {
                lemma_dot_alone();
                assert(p =~= seq!['.']);
                assert(names(rest) =~= Seq::<Seq<char>>::empty());
            }
        }
        assert(components(p) =~= components(s).drop_last());
    } else {
        assert(first_name(s).len() == 1);
        lemma_no_lead(p);
        assert(names(p) =~= Seq::<Seq<char>>::empty());
        assert(components(p) =~= components(s).drop_last());
    }
}

/// The path `.` is its leading component alone.
proof fn lemma_dot_alone()
    ensures
        names(seq!['.']) == Seq::<Seq<char>>::empty(),
        lead(seq!['.']) == seq![dot_component()],
{
    let s = seq!['.'];
    lemma_name_len_is(s, 1);
    assert(first_name(s) =~= dot_component());
    assert(after_first_name(s) =~= Seq::<char>::empty());
    assert(names(Seq::<char>::empty()) =~= Seq::<Seq<char>>::empty());
}

/// The leading component holds no name.
proof fn lemma_lead_body(s: Seq<char>)
    ensures
        lead_len(s) <= s.len(),
        names(s.skip(lead_len(s) as int)) == names(s),
        lead_len(s) == 1 && !absolute(s) && s.len() > 1 ==> s[1] == '/',
{
    lemma_name_len(s);
    if absolute(s) {
        assert(s =~= Seq::<char>::empty() + seq!['/'] + s.skip(1));
        lemma_names_separated(seq![], s.skip(1));
        assert(names(Seq::<char>::empty()) + names(s.skip(1)) =~= names(s.skip(1)));
    } else if first_name(s) == dot_component() {
        assert(first_name(s).len() == 1);
        assert(s[0] == first_name(s)[0]);
        if s.len() > 1 {
            let tail = s.skip(2);
            assert(s =~= seq!['.'] + seq!['/'] + tail);
            lemma_names_separated(seq!['.'], tail);
            lemma_dot_alone();
            assert(s.skip(1) =~= Seq::<char>::empty() + seq!['/'] + tail);
            lemma_names_separated(seq![], tail);
            assert(names(Seq::<char>::empty()) + names(tail) =~= names(tail));
            assert(names(seq!['.']) + names(tail) =~= names(tail));
        } else {
            assert(s =~= seq!['.']);
            lemma_dot_alone();
            assert(s.skip(1) =~= Seq::<char>::empty());
        }
    } else {
        assert(s.skip(0) =~= s);
    }
}

// ---------------------------------------------------------------------------
// Order
// ---------------------------------------------------------------------------

/// The class of a component: the root comes before a leading dot, that before
/// `..`, and that before every other name.
pub open spec fn component_rank(c: Seq<char>) -> int {
    if c == root_component() {
        0
    } else if c == dot_component() {
        1
    } else if c == seq!['.', '.'] {
        2
    } else {
        3
    }
}

/// Whether one component comes before another.
pub open spec fn component_before(a: Seq<char>, b: Seq<char>) -> bool {
    component_rank(a) < component_rank(b) || (component_rank(a) == 3 && component_rank(b) == 3
        && text::text_before(a, b))
}

/// Lexicographic order of component lists.
pub open spec fn components_before(a: Seq<Seq<char>>, b: Seq<Seq<char>>) -> bool
    decreases a.len(),
{
    if b.len() == 0 {
        false
    } else if a.len() == 0 {
        true
    } else if a[0] != b[0] {
        component_before(a[0], b[0])
    } else {
        components_before(a.skip(1), b.skip(1))
    }
}

/// Whether one path comes before another.
pub open spec fn path_before(a: Seq<char>, b: Seq<char>) -> bool {
    components_before(components(a), components(b))
}

/// The class of a component.
fn rank_of(c: &str) -> (r: u8)
    ensures
        r == component_rank(c@),
{
    proof {
        reveal_strlit("/");
        reveal_strlit(".");
        reveal_strlit("..");
        assert("/"@ =~= root_component());
        assert("."@ =~= dot_component());
        assert(".."@ =~= seq!['.', '.']);
    }
    if same_text(c, "/") {
        0
    } else if same_text(c, ".") {
        1
    } else if same_text(c, "..") {
        2
    } else {
        3
    }
}

impl PathBuf {
    /// Whether this path comes before `other`.
    pub fn comes_before(&self, other: &PathBuf) -> (r: bool)
        ensures
            r == path_before(self@, other@),
    {
        let mine = self.components();
        let theirs = other.components();
        let ghost a = text::texts(mine@);
        let ghost b = text::texts(theirs@);
        let mut i: usize = 0;
        assert(a.skip(0) =~= a);
        assert(b.skip(0) =~= b);
        while i < mine.len() && i < theirs.len()
            invariant
                i <= mine@.len(),
                i <= theirs@.len(),
                a == text::texts(mine@),
                b == text::texts(theirs@),
                a == components(self@),
                b == components(other@),
                components_before(a, b) == components_before(a.skip(i as int), b.skip(i as int)),
            decreases mine@.len() - i,
        {
            assert(a[i as int] == mine@[i as int]@);
            assert(b[i as int] == theirs@[i as int]@);
            if !same_text(mine[i].as_str(), theirs[i].as_str()) {
                let x = rank_of(mine[i].as_str());
                let y = rank_of(theirs[i].as_str());
                return x < y || (x == 3 && y == 3 && is_before(
                    mine[i].as_str(),
                    theirs[i].as_str(),
                ));
            }
            assert(a.skip(i as int).skip(1) =~= a.skip(i + 1));
            assert(b.skip(i as int).skip(1) =~= b.skip(i + 1));
            i += 1;
        }
        i < theirs.len()
    }
}

// ---------------------------------------------------------------------------
// Laws
// ---------------------------------------------------------------------------

/// A path that lies under `base` is `base` joined with what stripping `base`
/// leaves of it.
pub proof fn join_undoes_strip(s: Seq<char>, base: Seq<char>)
    requires
        base.len() > 0,
        stripped(s, base) is Some,
    ensures
        components(joined(base, stripped(s, base).unwrap())) == components(s),
{
    let n = components(base).len();
    assert(n > 0) by {
        lemma_nonempty_has_component(base);
    }
    lemma_behind(s, n);
    join_appends_components(base, behind(s, n));
    assert(components(s).take(n as int) + components(s).skip(n as int) =~= components(s));
}

/// Stripping `base` from a path joined onto it leaves the relative path.
pub proof fn strip_undoes_join(base: Seq<char>, rel: Seq<char>)
    requires
        base.len() > 0,
        !absolute(rel),
    ensures
        stripped(joined(base, rel), base) is Some,
        components(stripped(joined(base, rel), base).unwrap()) == names(rel),
{
    let n = components(base).len();
    assert(n > 0) by {
        lemma_nonempty_has_component(base);
    }
    let s = joined(base, rel);
    join_appends_components(base, rel);
    assert(components(s).take(n as int) =~= components(base));
    lemma_behind(s, n);
    assert(components(s).skip(n as int) =~= names(rel));
}

/// Every path but the empty one has a component.
pub proof fn lemma_nonempty_has_component(s: Seq<char>)
    requires
        s.len() > 0,
    ensures
        components(s).len() > 0,
{
    lemma_name_len(s);
    if !absolute(s) && first_name(s) != dot_component() {
        assert(significant(first_name(s)));
    }
}

/// The empty path has no component.
pub proof fn lemma_empty_has_no_component()
    ensures
        components(seq![]) == Seq::<Seq<char>>::empty(),
{
    lemma_no_lead(seq![]);
    assert(components(seq![]) =~= Seq::<Seq<char>>::empty());
}

/// What lies under an absolute path is absolute.
pub proof fn lemma_under_absolute(s: Seq<char>, base: Seq<char>)
    requires
        under(s, base),
        absolute(base),
    ensures
        absolute(s),
{
    assert(components(base)[0] == root_component());
    assert(components(s)[0] == components(s).take(components(base).len() as int)[0]);
    if !absolute(s) {
        lemma_names_hold_no_slash(s);
        assert(root_component()[0] == '/');
        if lead(s).len() > 0 {
            assert(dot_component()[0] == '.');
        } else {
            assert(components(s)[0] == names(s)[0]);
        }
    }
}

/// The texts of a list of paths.
pub open spec fn texts(v: Seq<PathBuf>) -> Seq<Seq<char>> {
    v.map_values(|p: PathBuf| p@)
}

/// The text of a path that may be there.
pub open spec fn optional(p: Option<PathBuf>) -> Option<Seq<char>> {
    match p {
        Some(p) => Some(p@),
        None => None,
    }
}

/// The components of a text are told from each other by their order.
proof fn lemma_component_order(a: Seq<char>, b: Seq<char>, c: Seq<char>)
    ensures
        !component_before(a, a),
        a == b || component_before(a, b) || component_before(b, a),
        component_before(a, b) && component_before(b, c) ==> component_before(a, c),
{
    text::lemma_text_before_irreflexive(a);
    text::lemma_text_before_total(a, b);
    if text::text_before(a, b) && text::text_before(b, c) {
        text::lemma_text_before_transitive(a, b, c);
    }
}

/// Lists of components are told from each other by their order.
proof fn lemma_components_order(a: Seq<Seq<char>>, b: Seq<Seq<char>>, c: Seq<Seq<char>>)
    ensures
        !components_before(a, a),
        a == b || components_before(a, b) || components_before(b, a),
        components_before(a, b) && components_before(b, c) ==> components_before(a, c),
    decreases a.len() + b.len() + c.len(),
{
    if a.len() > 0 {
        let x = if b.len() > 0 {
            b.skip(1)
        } else {
            b
        };
        let y = if c.len() > 0 {
            c.skip(1)
        } else {
            c
        };
        lemma_components_order(a.skip(1), x, y);
        if b.len() > 0 {
            lemma_component_order(a[0], b[0], if c.len() > 0 {
                c[0]
            } else {
                b[0]
            });
            if a[0] == b[0] && x == a.skip(1) {
                assert(a =~= seq![a[0]] + a.skip(1));
                assert(b =~= seq![b[0]] + b.skip(1));
            }
            if c.len() > 0 {
                lemma_component_order(b[0], a[0], b[0]);
            }
        }
    } else if b.len() == 0 {
        assert(a =~= b);
    }
}

/// Paths are in one order: none comes before itself, of two different ones one comes
/// before the other, and what comes before a third by way of a second comes before
/// it. A directory comes before what lies in it.
pub proof fn paths_are_in_one_order(a: Seq<char>, b: Seq<char>, c: Seq<char>)
    ensures
        !path_before(a, a),
        components(a) == components(b) || path_before(a, b) || path_before(b, a),
        !(path_before(a, b) && path_before(b, a)),
        path_before(a, b) && path_before(b, c) ==> path_before(a, c),
        under(b, a) && components(a) != components(b) ==> path_before(a, b),
{
    lemma_components_order(components(a), components(b), components(c));
    lemma_components_order(components(a), components(b), components(a));
    lemma_prefix_before(components(a), components(b));
}

/// A list of components comes before one that goes on from it.
proof fn lemma_prefix_before(a: Seq<Seq<char>>, b: Seq<Seq<char>>)
    ensures
        a.len() < b.len() && b.take(a.len() as int) == a ==> components_before(a, b),
        a.len() <= b.len() && b.take(a.len() as int) == a && a != b ==> a.len() < b.len(),
    decreases a.len(),
{
    if a.len() < b.len() && b.take(a.len() as int) == a {
        if a.len() > 0 {
            assert(a[0] == b.take(a.len() as int)[0]);
            assert(b.skip(1).take(a.len() - 1) =~= b.take(a.len() as int).skip(1));
            lemma_prefix_before(a.skip(1), b.skip(1));
        }
    }
    if a.len() == b.len() {
        assert(b.take(a.len() as int) =~= b);
    }
}

/// Whether a text is a single name: one that can be joined onto a path as its last
/// component.
pub open spec fn plain_name(name: Seq<char>) -> bool {
    &&& name.len() > 0
    &&& name != dot_component()
    &&& name != seq!['.', '.']
    &&& forall|i: int| 0 <= i < name.len() ==> #[trigger] name[i] != '/'
}

/// A single name has itself for its only name.
pub proof fn lemma_plain_name(name: Seq<char>)
    requires
        plain_name(name),
    ensures
        names(name) == seq![name],
        !absolute(name),
        components(name) == seq![name],
{
    assert forall|i: int| 0 <= i < name.len() implies name[i] != '/' by {}
    lemma_name_len_is(name, name.len());
    assert(name.take(name.len() as int) =~= name);
    assert(names(after_first_name(name)) =~= seq![]);
    assert(seq![name] + Seq::<Seq<char>>::empty() =~= seq![name]);
    assert(components(name) =~= seq![name]);
}

/// A name that is joined onto a directory is the file name of the path that results,
/// and the directory is its parent.
pub proof fn joined_names_are_file_names(dir: Seq<char>, name: Seq<char>)
    requires
        dir.len() > 0,
        plain_name(name),
    ensures
        file_name_of(joined(dir, name)) == Some(name),
        components(joined(dir, name)) == components(dir).push(name),
        parent_of(joined(dir, name)) matches Some(p) && components(p) == components(dir),
{
    let s = joined(dir, name);
    lemma_plain_name(name);
    join_appends_components(dir, name);
    assert(components(dir) + seq![name] =~= components(dir).push(name));
    assert(names(s).len() > 0 && names(s).last() == name) by {
        if dir.last() == '/' {
            let front = dir.drop_last();
            assert(s =~= front + seq!['/'] + name);
            lemma_names_separated(front, name);
        } else {
            lemma_names_separated(dir, name);
        }
    }
    parent_drops_last_component(s);
    assert(components(s).drop_last() =~= components(dir));
}

/// The extension of a file is what stands behind the last dot of its name. A name
/// with no dot, or with its only dot in front, has none.
pub proof fn extensions_stand_behind_the_last_dot(s: Seq<char>, stem: Seq<char>, e: Seq<char>)
    requires
        forall|i: int| 0 <= i < e.len() ==> #[trigger] e[i] != '.',
    ensures
        file_name_of(s) == Some(stem + seq!['.'] + e) ==> extension_of(s) == if stem.len() > 0 {
            Some(e)
        } else {
            None
        },
        file_name_of(s) == Some(e) ==> extension_of(s) is None,
{
    let name = stem + seq!['.'] + e;
    lemma_last_dot(stem, e);
    lemma_no_dot(e);
    assert(name.skip(stem.len() as int + 1) =~= e);
}

/// Where the last dot of a name stands.
proof fn lemma_last_dot(stem: Seq<char>, e: Seq<char>)
    requires
        forall|i: int| 0 <= i < e.len() ==> #[trigger] e[i] != '.',
    ensures
        last_dot(stem + seq!['.'] + e) == stem.len(),
    decreases e.len(),
{
    let name = stem + seq!['.'] + e;
    if e.len() > 0 {
        assert(name.last() == e.last());
        assert(e[e.len() - 1] != '.');
        assert(name.drop_last() =~= stem + seq!['.'] + e.drop_last());
        assert forall|i: int| 0 <= i < e.drop_last().len() implies #[trigger] e.drop_last()[i]
            != '.' by {
            assert(e.drop_last()[i] == e[i]);
        }
        lemma_last_dot(stem, e.drop_last());
    } else {
        assert(name.last() == '.');
    }
}

/// A name without a dot has no last one.
proof fn lemma_no_dot(name: Seq<char>)
    requires
        forall|i: int| 0 <= i < name.len() ==> #[trigger] name[i] != '.',
    ensures
        last_dot(name) == -1,
    decreases name.len(),
{
    if name.len() > 0 {
        assert(name[name.len() - 1] != '.');
        assert forall|i: int| 0 <= i < name.drop_last().len() implies #[trigger] name.drop_last()[i]
            != '.' by {
            assert(name.drop_last()[i] == name[i]);
        }
        lemma_no_dot(name.drop_last());
    }
}

/// The last dot of a name, where there is one, is a dot with none behind it.
pub proof fn lemma_behind_last_dot(name: Seq<char>)
    ensures
        -1 <= last_dot(name) < name.len(),
        last_dot(name) >= 0 ==> name[last_dot(name)] == '.',
    decreases name.len(),
{
    if name.len() > 0 && name.last() != '.' {
        lemma_behind_last_dot(name.drop_last());
    }
}

/// Single names that stand in one directory are in the order of their texts.
pub proof fn names_are_in_the_order_of_their_texts(
    dir: Seq<char>,
    a: Seq<char>,
    b: Seq<char>,
)
    requires
        dir.len() > 0,
        plain_name(a),
        plain_name(b),
    ensures
        path_before(joined(dir, a), joined(dir, b)) == text::text_before(a, b),
{
    joined_names_are_file_names(dir, a);
    joined_names_are_file_names(dir, b);
    let front = components(dir);
    assert(a[0] != '/' && b[0] != '/');
    assert(root_component()[0] == '/');
    text::lemma_text_before_irreflexive(a);
    lemma_last_decides(front, a, b);
}

/// Where all but the last components are the same, the last ones decide.
proof fn lemma_last_decides(front: Seq<Seq<char>>, a: Seq<char>, b: Seq<char>)
    requires
        component_rank(a) == 3,
        component_rank(b) == 3,
        !text::text_before(a, a),
    ensures
        components_before(front.push(a), front.push(b)) == text::text_before(a, b),
    decreases front.len(),
{
    let x = front.push(a);
    let y = front.push(b);
    if front.len() > 0 {
        assert(x[0] == y[0]);
        assert(x.skip(1) =~= front.skip(1).push(a));
        assert(y.skip(1) =~= front.skip(1).push(b));
        lemma_last_decides(front.skip(1), a, b);
    } else {
        assert(x[0] == a && y[0] == b);
        if a == b {
            assert(!components_before(x.skip(1), y.skip(1)));
        }
    }
}

} // verus!
