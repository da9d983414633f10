//! File URIs.
//!
//! Of the characters of a path only the blank, `#` and `?` are escaped in its
//! URI. Reading a URI takes every escape back, each as one character.
use vstd::prelude::*;

use crate::path::PathBuf;
use crate::text;
use crate::text::{chars_of, matches_at, string_from};

verus! {

/// What every file URI starts with.
pub open spec fn scheme() -> Seq<char> {
    "file://"@
}

/// Whether a character is escaped in a URI.
pub open spec fn is_escaped(c: char) -> bool {
    c == ' ' || c == '#' || c == '?'
}

/// How a character of a path stands in its URI.
pub open spec fn escaped_char(c: char) -> Seq<char> {
    if c == ' ' {
        seq!['%', '2', '0']
    } else if c == '#' {
        seq!['%', '2', '3']
    } else if c == '?' {
        seq!['%', '3', 'F']
    } else {
        seq![c]
    }
}

/// How a path stands in its URI.
pub open spec fn escaped(s: Seq<char>) -> Seq<char>
    decreases s.len(),
{
    if s.len() == 0 {
        seq![]
    } else {
        escaped_char(s[0]) + escaped(s.skip(1))
    }
}

/// The URI of a path.
pub open spec fn uri_of(p: Seq<char>) -> Seq<char> {
    scheme() + escaped(p)
}

/// The value of a hexadecimal digit.
pub open spec fn hex_digit(c: char) -> Option<int> {
    if '0' <= c <= '9' {
        Some(c as int - 48)
    } else if 'a' <= c <= 'f' {
        Some(c as int - 87)
    } else if 'A' <= c <= 'F' {
        Some(c as int - 55)
    } else {
        None
    }
}

/// The value of the two characters behind a percent sign: two hexadecimal digits,
/// or a plus sign and one.
pub open spec fn escape_value(hi: char, lo: char) -> Option<int> {
    if hi == '+' {
        hex_digit(lo)
    } else {
        match (hex_digit(hi), hex_digit(lo)) {
            (Some(a), Some(b)) => Some(a * 16 + b),
            _ => None,
        }
    }
}

/// A text with its escapes taken back. A percent sign that starts no escape
/// stands for itself, and so do the two characters behind it.
pub open spec fn unescaped(s: Seq<char>) -> Seq<char>
    decreases s.len(),
{
    if s.len() == 0 {
        seq![]
    } else if s[0] != '%' {
        seq![s[0]] + unescaped(s.skip(1))
    } else if s.len() < 3 {
        s
    } else if escape_value(s[1], s[2]) is Some {
        seq![escape_value(s[1], s[2]).unwrap() as char] + unescaped(s.skip(3))
    } else {
        s.take(3) + unescaped(s.skip(3))
    }
}

/// The path that a URI names. A URI without the scheme is taken as a path.
pub open spec fn path_of(uri: Seq<char>) -> Seq<char> {
    if text::begins_with(uri, scheme()) {
        unescaped(uri.skip(scheme().len() as int))
    } else {
        unescaped(uri)
    }
}

/// The URI of a path.
pub fn path_to_file_uri(path: &PathBuf) -> (r: String)
    ensures
        r@ == uri_of(path@),
{
    let chars = chars_of(path.as_str());
    let mut out: Vec<char> = chars_of("file://");
    let mut i: usize = 0;
    assert(chars@.skip(0) =~= path@);
    while i < chars.len()
        invariant
            i <= chars@.len(),
            out@ + escaped(chars@.skip(i as int)) == uri_of(path@),
        decreases chars@.len() - i,
    {
        let ghost before = out@;
        let ghost rest = chars@.skip(i as int);
        assert(rest.skip(1) =~= chars@.skip(i + 1));
        let c = chars[i];
        if c == ' ' {
            out.push('%');
            out.push('2');
            out.push('0');
        } else if c == '#' {
            out.push('%');
            out.push('2');
            out.push('3');
        } else if c == '?' {
            out.push('%');
            out.push('3');
            out.push('F');
        } else {
            out.push(c);
        }
        assert(out@ =~= before + escaped_char(c));
        assert(before + (escaped_char(c) + escaped(chars@.skip(i + 1))) =~= out@ + escaped(
            chars@.skip(i + 1),
        ));
        i += 1;
    }
    assert(chars@.skip(i as int) =~= seq![]);
    assert(out@ =~= uri_of(path@));
    string_from(&out)
}

/// The value of a hexadecimal digit.
fn hex_value(c: char) -> (r: Option<u8>)
    ensures
        r is Some == hex_digit(c) is Some,
        r matches Some(v) ==> Some(v as int) == hex_digit(c) && v < 16,
{
    if '0' <= c && c <= '9' {
        Some(c as u8 - 48)
    } else if 'a' <= c && c <= 'f' {
        Some(c as u8 - 87)
    } else if 'A' <= c && c <= 'F' {
        Some(c as u8 - 55)
    } else {
        None
    }
}

/// The value of the two characters behind a percent sign.
fn pair_value(hi: char, lo: char) -> (r: Option<u8>)
    ensures
        r is Some == escape_value(hi, lo) is Some,
        r matches Some(v) ==> Some(v as int) == escape_value(hi, lo),
{
    if hi == '+' {
        return hex_value(lo);
    }
    match (hex_value(hi), hex_value(lo)) {
        (Some(a), Some(b)) => Some(a * 16 + b),
        _ => None,
    }
}

/// The path that a URI names.
pub fn uri_to_path(uri: &str) -> (r: PathBuf)
    ensures
        r@ == path_of(uri@),
{
    let chars = chars_of(uri);
    let prefix = chars_of("file://");
    let start: usize = if matches_at(&chars, &prefix, 0) {
        prefix.len()
    } else {
        0
    };
    let mut out: Vec<char> = Vec::new();
    let mut i: usize = start;
    let ghost body = chars@.skip(start as int);
    assert(start == 0 ==> body =~= uri@);
    assert(out@ + unescaped(body) =~= unescaped(body));
    while i < chars.len()
        invariant
            i <= chars@.len(),
            out@ + unescaped(chars@.skip(i as int)) == unescaped(body),
        decreases chars@.len() - i,
    {
        let ghost before = out@;
        let ghost rest = chars@.skip(i as int);
        let c = chars[i];
        if c != '%' {
            out.push(c);
            assert(rest.skip(1) =~= chars@.skip(i + 1));
            assert(before + (seq![c] + unescaped(rest.skip(1))) =~= out@ + unescaped(
                rest.skip(1),
            ));
            i += 1;
        } else if chars.len() - i < 3 {
            out.push(c);
            i += 1;
            if i < chars.len() {
                out.push(chars[i]);
                i += 1;
            }
            assert(out@ =~= before + rest);
            assert(chars@.skip(i as int) =~= seq![]);
            assert(out@ + unescaped(chars@.skip(i as int)) =~= before + rest);
        } else {
            assert(rest.skip(3) =~= chars@.skip(i + 3));
            match pair_value(chars[i + 1], chars[i + 2]) {
                Some(v) => {
                    out.push(v as char);
                    assert(before + (seq![v as char] + unescaped(rest.skip(3))) =~= out@
                        + unescaped(rest.skip(3)));
                },
                None => {
                    out.push(c);
                    out.push(chars[i + 1]);
                    out.push(chars[i + 2]);
                    assert(out@ =~= before + rest.take(3));
                    assert(before + (rest.take(3) + unescaped(rest.skip(3))) =~= out@ + unescaped(
                        rest.skip(3),
                    ));
                },
            }
            i += 3;
        }
    }
    assert(chars@.skip(i as int) =~= seq![]);
    assert(out@ =~= unescaped(body));
    PathBuf::new(string_from(&out).as_str())
}

// ---------------------------------------------------------------------------
// Laws
// ---------------------------------------------------------------------------

/// Whether every percent sign of a path stands for itself in the path's URI:
/// what follows it neither reads as an escape nor is escaped.
pub open spec fn percent_signs_stay(s: Seq<char>) -> bool
    decreases s.len(),
{
    if s.len() == 0 {
        true
    } else if s[0] != '%' {
        percent_signs_stay(s.skip(1))
    } else if s.len() == 1 {
        true
    } else if s.len() == 2 {
        !is_escaped(s[1])
    } else {
        !is_escaped(s[1]) && !is_escaped(s[2]) && escape_value(s[1], s[2]) is None
            && percent_signs_stay(s.skip(3))
    }
}

proof fn lemma_unescape_escaped(s: Seq<char>)
    requires
        percent_signs_stay(s),
    ensures
        unescaped(escaped(s)) == s,
    decreases s.len(),
{
    reveal_with_fuel(escaped, 4);
    let e = escaped(s);
    if s.len() == 0 {
        assert(unescaped(e) =~= s);
    } else if s[0] != '%' {
        lemma_unescape_escaped(s.skip(1));
        let tail = escaped(s.skip(1));
        if is_escaped(s[0]) {
            assert(e.skip(3) =~= tail);
            assert(e[0] == '%' && e[1] == escaped_char(s[0])[1] && e[2] == escaped_char(s[0])[2]);
            assert(escape_value(e[1], e[2]) == Some(s[0] as int));
            assert(unescaped(e) =~= seq![s[0]] + unescaped(tail));
        } else {
            assert(e.skip(1) =~= tail);
            assert(e[0] == s[0]);
            assert(unescaped(e) =~= seq![s[0]] + unescaped(tail));
        }
        assert(seq![s[0]] + s.skip(1) =~= s);
    } else if s.len() == 1 {
        assert(s.skip(1) =~= seq![]);
        assert(e =~= s);
    } else if s.len() == 2 {
        assert(s.skip(1).skip(1) =~= seq![]);
        assert(s.skip(1)[0] == s[1]);
        assert(e =~= s);
    } else {
        let tail = s.skip(3);
        lemma_unescape_escaped(tail);
        assert(s.skip(1)[0] == s[1]);
        assert(s.skip(1).skip(1)[0] == s[2]);
        assert(s.skip(1).skip(1).skip(1) =~= tail);
        assert(e =~= s.take(3) + escaped(tail));
        assert(e[0] == '%' && e[1] == s[1] && e[2] == s[2]);
        assert(e.skip(3) =~= escaped(tail));
        assert(e.take(3) =~= s.take(3));
        assert(s.take(3) + tail =~= s);
    }
}

/// Reading the URI of a path gives the path back.
pub proof fn path_survives_its_uri(p: Seq<char>)
    requires
        percent_signs_stay(p),
    ensures
        path_of(uri_of(p)) == p,
{
    let u = uri_of(p);
    assert(u.subrange(0, scheme().len() as int) =~= scheme());
    assert(u.skip(scheme().len() as int) =~= escaped(p));
    lemma_unescape_escaped(p);
}

/// Reading the URI of a path without a percent sign gives the path back.
pub proof fn path_without_percent_sign_survives_its_uri(p: Seq<char>)
    requires
        forall|i: int| 0 <= i < p.len() ==> p[i] != '%',
    ensures
        path_of(uri_of(p)) == p,
{
    lemma_no_percent_sign(p);
    path_survives_its_uri(p);
}

proof fn lemma_no_percent_sign(s: Seq<char>)
    requires
        forall|i: int| 0 <= i < s.len() ==> s[i] != '%',
    ensures
        percent_signs_stay(s),
    decreases s.len(),
{
    if s.len() > 0 {
        assert(s[0] != '%');
        lemma_no_percent_sign(s.skip(1));
    }
}

/// Two paths whose percent signs stand for themselves have the same URI only if
/// they are the same.
pub proof fn uris_tell_paths_apart(a: Seq<char>, b: Seq<char>)
    requires
        percent_signs_stay(a),
        percent_signs_stay(b),
        uri_of(a) == uri_of(b),
    ensures
        a == b,
{
    path_survives_its_uri(a);
    path_survives_its_uri(b);
}

/// A URI begins with its scheme and holds no character that would end its path or has
/// no place in it: no blank, no question mark and no number sign. A path without such
/// characters stands in its URI as it is.
pub proof fn uris_hold_whole_paths(p: Seq<char>)
    ensures
        text::begins_with(uri_of(p), scheme()),
        forall|i: int|
            0 <= i < uri_of(p).len() ==> #[trigger] uri_of(p)[i] != ' ' && uri_of(p)[i] != '?'
                && uri_of(p)[i] != '#',
        (forall|i: int| 0 <= i < p.len() ==> !is_escaped(#[trigger] p[i])) ==> uri_of(p)
            == scheme() + p,
{
    reveal_strlit("file://");
    let u = uri_of(p);
    assert(u.subrange(0, scheme().len() as int) =~= scheme());
    lemma_escaped_holds(p);
    assert forall|i: int| 0 <= i < u.len() implies #[trigger] u[i] != ' ' && u[i] != '?' && u[i]
        != '#' by {
        if i >= scheme().len() {
            assert(u[i] == escaped(p)[i - scheme().len()]);
        }
    }
}

/// What is escaped holds none of the characters that are.
proof fn lemma_escaped_holds(s: Seq<char>)
    ensures
        forall|i: int|
            0 <= i < escaped(s).len() ==> #[trigger] escaped(s)[i] != ' ' && escaped(s)[i] != '?'
                && escaped(s)[i] != '#',
        (forall|i: int| 0 <= i < s.len() ==> !is_escaped(#[trigger] s[i])) ==> escaped(s) == s,
    decreases s.len(),
{
    if s.len() > 0 {
        let rest = s.skip(1);
        let first = escaped_char(s[0]);
        lemma_escaped_holds(rest);
        assert forall|i: int| 0 <= i < escaped(s).len() implies #[trigger] escaped(s)[i] != ' '
            && escaped(s)[i] != '?' && escaped(s)[i] != '#' by {
            if i >= first.len() {
                assert(escaped(s)[i] == escaped(rest)[i - first.len()]);
            }
        }
        if forall|i: int| 0 <= i < s.len() ==> !is_escaped(#[trigger] s[i]) {
            assert forall|i: int| 0 <= i < rest.len() implies !is_escaped(#[trigger] rest[i]) by {
                assert(rest[i] == s[i + 1]);
            }
            assert(!is_escaped(s[0]));
            assert(escaped(s) =~= s);
        }
    } else {
        assert(escaped(s) =~= s);
    }
}

/// An escape stands for the character whose number its two digits give. Any other character stands for itself. A URI with the scheme names what
/// it names without it.
pub proof fn escapes_give_the_number_of_a_character(n: nat, s: Seq<char>, c: char)
    requires
        n < 256,
    ensures
        path_of(seq!['%', text::hex_char(n / 16), text::hex_char(n % 16)] + s) == seq![n as char]
            + unescaped(s),
        c != '%' && c != 'f' ==> path_of(seq![c] + s) == seq![c] + unescaped(s),
        path_of(scheme() + s) == unescaped(s),
{
    reveal_strlit("file://");
    let hi = text::hex_char(n / 16);
    let lo = text::hex_char(n % 16);
    let all = seq!['%', hi, lo] + s;
    assert(scheme()[0] == 'f');
    assert(scheme().len() == 7);
    if text::begins_with(all, scheme()) {
        assert(all.subrange(0, 7)[0] == '%');
    }
    assert(hex_digit(hi) == Some((n / 16) as int));
    assert(hex_digit(lo) == Some((n % 16) as int));
    assert(all.skip(3) =~= s);
    assert(escape_value(all[1], all[2]) == Some(n as int));
    let other = seq![c] + s;
    assert(other.skip(1) =~= s);
    if text::begins_with(other, scheme()) {
        assert(other.subrange(0, 7)[0] == c);
    }
    let whole = scheme() + s;
    assert(whole.subrange(0, 7) =~= scheme());
    assert(whole.skip(7) =~= s);
}

/// A plus sign may stand in the place of the first digit of an escape. Where the two
/// characters behind a percent sign are no number, all three stand for themselves, and
/// so does what is left of an escape at the end.
pub proof fn odd_escapes_are_read(d: nat, a: char, b: char, s: Seq<char>)
    requires
        d < 16,
    ensures
        unescaped(seq!['%', '+', text::hex_char(d)] + s) == seq![d as char] + unescaped(s),
        hex_digit(a) is None && a != '+' || hex_digit(b) is None ==> unescaped(
            seq!['%', a, b] + s,
        ) == seq!['%', a, b] + unescaped(s),
        unescaped(seq!['%']) == seq!['%'],
        unescaped(seq!['%', a]) == seq!['%', a],
{
    let lo = text::hex_char(d);
    let plus = seq!['%', '+', lo] + s;
    assert(plus.skip(3) =~= s);
    assert(hex_digit(lo) == Some(d as int));
    assert(escape_value(plus[1], plus[2]) == Some(d as int));
    let other = seq!['%', a, b] + s;
    assert(other.skip(3) =~= s);
    assert(other.take(3) =~= seq!['%', a, b]);
}

} // verus!
