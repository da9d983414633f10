//! Positions in a text, and the identifiers and ranges that they name.
//!
//! Offsets count characters: a position resolves to the number of characters
//! that stand before it.
use vstd::prelude::*;

use crate::edit::{Position, PositionEncoding, Range};
use crate::text;
use crate::text::{chars_of, is_alphanumeric, string_of};

verus! {

// ---------------------------------------------------------------------------
// From positions to offsets
// ---------------------------------------------------------------------------

/// The number of units that a character takes in an encoding.
pub open spec fn encoded_len(c: char, encoding: PositionEncoding) -> nat {
    let n = c as int;
    match encoding {
        PositionEncoding::Utf8 => if n < 0x80 {
            1
        } else if n < 0x800 {
            2
        } else if n < 0x10000 {
            3
        } else {
            4
        },
        PositionEncoding::Utf16 => if n < 0x10000 {
            1
        } else {
            2
        },
        PositionEncoding::Utf32 => 1,
    }
}

/// The number of units that a text takes in an encoding.
pub open spec fn encoded_width(s: Seq<char>, encoding: PositionEncoding) -> nat
    decreases s.len(),
{
    if s.len() == 0 {
        0
    } else {
        encoded_len(s[0], encoding) + encoded_width(s.skip(1), encoding)
    }
}

/// The offset at which line `n` starts, where the text has that many lines.
pub open spec fn line_start(s: Seq<char>, n: nat) -> Option<nat>
    decreases s.len(),
{
    if n == 0 {
        Some(0)
    } else if s.len() == 0 {
        None
    } else {
        let left = if s[0] == '\n' {
            (n - 1) as nat
        } else {
            n
        };
        match line_start(s.skip(1), left) {
            Some(k) => Some(k + 1),
            None => None,
        }
    }
}

/// The number of characters before the first line feed.
pub open spec fn line_len(s: Seq<char>) -> nat
    decreases s.len(),
{
    if s.len() == 0 || s[0] == '\n' {
        0
    } else {
        1 + line_len(s.skip(1))
    }
}

/// The content of the line that `s` starts with: without its line feed, and
/// without a carriage return before that.
pub open spec fn line_content(s: Seq<char>) -> Seq<char> {
    let line = s.take(line_len(s) as int);
    if line.len() > 0 && line.last() == '\r' {
        line.drop_last()
    } else {
        line
    }
}

/// The number of characters of a line's content that stand before column
/// `units`. A column inside a character counts that character; one past the end
/// counts them all.
pub open spec fn column_offset(content: Seq<char>, units: nat, encoding: PositionEncoding) -> nat
    decreases content.len(),
{
    if content.len() == 0 || units == 0 {
        0
    } else {
        let width = encoded_len(content[0], encoding);
        let left = if width <= units {
            (units - width) as nat
        } else {
            0
        };
        1 + column_offset(content.skip(1), left, encoding)
    }
}

/// The offset of a position; none where the text has no such line.
pub open spec fn offset_of(
    s: Seq<char>,
    pos: Position,
    encoding: PositionEncoding,
) -> Option<nat> {
    match line_start(s, pos.line as nat) {
        Some(k) => Some(
            k + column_offset(line_content(s.skip(k as int)), pos.character as nat, encoding),
        ),
        None => None,
    }
}

/// The number of units that a character takes in an encoding.
fn unit_len(c: char, encoding: PositionEncoding) -> (r: u64)
    ensures
        r == encoded_len(c, encoding),
        1 <= r <= 4,
{
    let n: u32 = c as u32;
    match encoding {
        PositionEncoding::Utf8 => if n < 0x80 {
            1
        } else if n < 0x800 {
            2
        } else if n < 0x10000 {
            3
        } else {
            4
        },
        PositionEncoding::Utf16 => if n < 0x10000 {
            1
        } else {
            2
        },
        PositionEncoding::Utf32 => 1,
    }
}

/// The offset at which line `n` of `chars` starts.
fn nth_line_start(chars: &Vec<char>, n: u32) -> (r: Option<usize>)
    ensures
        r is Some == line_start(chars@, n as nat) is Some,
        r matches Some(k) ==> Some(k as nat) == line_start(chars@, n as nat) && k <= chars@.len(),
{
    let mut left: u32 = n;
    let mut i: usize = 0;
    assert(chars@.skip(0) =~= chars@);
    while left > 0
        invariant
            i <= chars@.len(),
            line_start(chars@, n as nat) == match line_start(chars@.skip(i as int), left as nat) {
                Some(k) => Some(k + i as nat),
                None => None,
            },
        decreases chars@.len() - i,
    {
        if i == chars.len() {
            return None;
        }
        if chars[i] == '\n' {
            left -= 1;
        }
        assert(chars@.skip(i as int).skip(1) =~= chars@.skip(i + 1));
        i += 1;
    }
    Some(i)
}

/// The end of the content of the line that starts at `from`.
fn content_end(chars: &Vec<char>, from: usize) -> (r: usize)
    requires
        from <= chars@.len(),
    ensures
        from <= r <= chars@.len(),
        chars@.subrange(from as int, r as int) == line_content(chars@.skip(from as int)),
{
    let ghost s = chars@.skip(from as int);
    let mut i: usize = from;
    while i < chars.len() && chars[i] != '\n'
        invariant
            from <= i <= chars@.len(),
            s == chars@.skip(from as int),
            line_len(s) == (i - from) + line_len(chars@.skip(i as int)),
        decreases chars@.len() - i,
    {
        assert(chars@.skip(i as int).skip(1) =~= chars@.skip(i + 1));
        i += 1;
    }
    assert(s.take(i - from) =~= chars@.subrange(from as int, i as int));
    if i > from && chars[i - 1] == '\r' {
        assert(chars@.subrange(from as int, i as int).drop_last() =~= chars@.subrange(
            from as int,
            i - 1,
        ));
        i - 1
    } else {
        i
    }
}

/// The offset of `pos` in `chars`; `None` where there is no such line.
pub fn resolve_offset(chars: &Vec<char>, pos: Position, encoding: PositionEncoding) -> (r: Option<
    usize,
>)
    ensures
        r is Some == offset_of(chars@, pos, encoding) is Some,
        r matches Some(k) ==> Some(k as nat) == offset_of(chars@, pos, encoding) && k
            <= chars@.len(),
{
    let start = match nth_line_start(chars, pos.line) {
        Some(start) => start,
        None => {
            return None;
        },
    };
    let end = content_end(chars, start);
    let ghost content = chars@.subrange(start as int, end as int);
    let mut left: u64 = pos.character as u64;
    let mut i: usize = start;
    while i < end && left > 0
        invariant
            start <= i <= end <= chars@.len(),
            column_offset(content, pos.character as nat, encoding) == (i - start) + column_offset(
                chars@.subrange(i as int, end as int),
                left as nat,
                encoding,
            ),
        decreases end - i,
    {
        let width = unit_len(chars[i], encoding);
        assert(chars@.subrange(i as int, end as int).skip(1) =~= chars@.subrange(
            i + 1,
            end as int,
        ));
        left = if width <= left {
            left - width
        } else {
            0
        };
        i += 1;
    }
    Some(i)
}

// ---------------------------------------------------------------------------
// Identifiers and ranges
// ---------------------------------------------------------------------------

/// Whether a character can stand in an identifier.
pub open spec fn identifier_char(c: char) -> bool {
    text::alphanumeric(c) || c == '_' || c == '$'
}

/// The number of identifier characters that `s` starts with.
pub open spec fn identifier_run(s: Seq<char>) -> nat
    decreases s.len(),
{
    if s.len() > 0 && identifier_char(s[0]) {
        1 + identifier_run(s.skip(1))
    } else {
        0
    }
}

/// The number of identifier characters that `s` ends with.
pub open spec fn identifier_run_back(s: Seq<char>) -> nat
    decreases s.len(),
{
    if s.len() > 0 && identifier_char(s.last()) {
        1 + identifier_run_back(s.drop_last())
    } else {
        0
    }
}

/// Where the run of identifier characters that touches `offset` starts and ends.
pub open spec fn identifier_span(s: Seq<char>, offset: nat) -> (int, int) {
    (
        offset - identifier_run_back(s.take(offset as int)),
        offset as int + identifier_run(s.skip(offset as int)),
    )
}

/// The identifier that touches a position.
pub open spec fn identifier_of(
    s: Seq<char>,
    pos: Position,
    encoding: PositionEncoding,
) -> Option<Seq<char>> {
    match offset_of(s, pos, encoding) {
        Some(k) => {
            let (start, end) = identifier_span(s, k);
            if start != end {
                Some(s.subrange(start, end))
            } else {
                None
            }
        },
        None => None,
    }
}

/// The text that a range covers; none where an end has no line or the range is
/// inverted.
pub open spec fn covered_text(
    s: Seq<char>,
    range: Range,
    encoding: PositionEncoding,
) -> Option<Seq<char>> {
    match (offset_of(s, range.start, encoding), offset_of(s, range.end, encoding)) {
        (Some(start), Some(end)) => if start <= end {
            Some(s.subrange(start as int, end as int))
        } else {
            None
        },
        _ => None,
    }
}

/// Whether `c` can stand in an identifier: a letter, a digit, `_` or `$`.
fn is_identifier_char(c: char) -> (r: bool)
    ensures
        r == identifier_char(c),
{
    is_alphanumeric(c) || c == '_' || c == '$'
}

/// The identifier that `source` holds at `pos`; `None` where `pos` touches none.
///
/// A position anywhere in an identifier, or just past its last character, names
/// the whole identifier.
pub fn identifier_at(source: &str, pos: Position, encoding: PositionEncoding) -> (r: Option<String>)
    ensures
        r is Some == identifier_of(source@, pos, encoding) is Some,
        r matches Some(name) ==> Some(name@) == identifier_of(source@, pos, encoding),
{
    let chars = chars_of(source);
    let offset = match resolve_offset(&chars, pos, encoding) {
        Some(offset) => offset,
        None => {
            return None;
        },
    };
    let mut start: usize = offset;
    while start > 0 && is_identifier_char(chars[start - 1])
        invariant
            start <= offset <= chars@.len(),
            identifier_run_back(chars@.take(offset as int)) == (offset - start)
                + identifier_run_back(chars@.take(start as int)),
        decreases start,
    {
        assert(chars@.take(start as int).drop_last() =~= chars@.take(start - 1));
        start -= 1;
    }
    let mut end: usize = offset;
    while end < chars.len() && is_identifier_char(chars[end])
        invariant
            offset <= end <= chars@.len(),
            identifier_run(chars@.skip(offset as int)) == (end - offset) + identifier_run(
                chars@.skip(end as int),
            ),
        decreases chars@.len() - end,
    {
        assert(chars@.skip(end as int).skip(1) =~= chars@.skip(end + 1));
        end += 1;
    }
    if start != end {
        Some(string_of(&chars, start, end))
    } else {
        None
    }
}

/// The text that `range` covers in `source`; `None` where an end is out of range
/// or the range is inverted.
pub fn text_in_range(source: &str, range: Range, encoding: PositionEncoding) -> (r: Option<String>)
    ensures
        r is Some == covered_text(source@, range, encoding) is Some,
        r matches Some(t) ==> Some(t@) == covered_text(source@, range, encoding),
{
    let chars = chars_of(source);
    let start = match resolve_offset(&chars, range.start, encoding) {
        Some(start) => start,
        None => {
            return None;
        },
    };
    let end = match resolve_offset(&chars, range.end, encoding) {
        Some(end) => end,
        None => {
            return None;
        },
    };
    if start <= end {
        Some(string_of(&chars, start, end))
    } else {
        None
    }
}

// ---------------------------------------------------------------------------
// Laws
// ---------------------------------------------------------------------------

/// A line starts within the text, and only behind a line feed unless it is the
/// first.
pub proof fn line_starts_behind_line_feed(s: Seq<char>, n: nat)
    requires
        line_start(s, n) is Some,
    ensures
        line_start(s, n).unwrap() <= s.len(),
        n > 0 ==> line_start(s, n).unwrap() > 0 && s[line_start(s, n).unwrap() - 1] == '\n',
    decreases s.len(),
{
    if n > 0 {
        let left = if s[0] == '\n' {
            (n - 1) as nat
        } else {
            n
        };
        line_starts_behind_line_feed(s.skip(1), left);
        if left > 0 {
            let k = line_start(s.skip(1), left).unwrap();
            assert(s.skip(1)[k - 1] == s[k as int]);
        }
    }
}

/// A line's content is a stretch of the text without a line feed.
proof fn lemma_line_content(s: Seq<char>)
    ensures
        line_content(s).len() <= s.len(),
        line_content(s) == s.take(line_content(s).len() as int),
        forall|i: int| 0 <= i < line_content(s).len() ==> s[i] != '\n',
{
    lemma_line_len(s);
    assert(s.take(line_len(s) as int).take(line_content(s).len() as int) =~= s.take(
        line_content(s).len() as int,
    ));
    assert(line_content(s) =~= s.take(line_content(s).len() as int));
}

proof fn lemma_line_len(s: Seq<char>)
    ensures
        line_len(s) <= s.len(),
        forall|i: int| 0 <= i < line_len(s) ==> s[i] != '\n',
    decreases s.len(),
{
    if s.len() > 0 && s[0] != '\n' {
        lemma_line_len(s.skip(1));
        assert forall|i: int| 0 <= i < line_len(s) implies s[i] != '\n' by {
            if i > 0 {
                assert(s[i] == s.skip(1)[i - 1]);
            }
        }
    }
}

/// A column never leads past the end of its line's content.
proof fn lemma_column_offset_bounded(content: Seq<char>, units: nat, encoding: PositionEncoding)
    ensures
        column_offset(content, units, encoding) <= content.len(),
    decreases content.len(),
{
    if content.len() > 0 && units > 0 {
        let width = encoded_len(content[0], encoding);
        let left = if width <= units {
            (units - width) as nat
        } else {
            0
        };
        lemma_column_offset_bounded(content.skip(1), left, encoding);
    }
}

/// A position resolves to an offset on its own line: no line feed stands
/// between the start of the line and the offset, however large the column.
pub proof fn offset_stays_on_its_line(s: Seq<char>, pos: Position, encoding: PositionEncoding)
    requires
        offset_of(s, pos, encoding) is Some,
    ensures
        line_start(s, pos.line as nat).unwrap() <= offset_of(s, pos, encoding).unwrap(),
        offset_of(s, pos, encoding).unwrap() <= s.len(),
        forall|i: int|
            line_start(s, pos.line as nat).unwrap() <= i < offset_of(s, pos, encoding).unwrap()
                ==> s[i] != '\n',
{
    let k = line_start(s, pos.line as nat).unwrap();
    line_starts_behind_line_feed(s, pos.line as nat);
    let rest = s.skip(k as int);
    let content = line_content(rest);
    lemma_line_content(rest);
    lemma_column_offset_bounded(content, pos.character as nat, encoding);
    assert forall|i: int| k <= i < offset_of(s, pos, encoding).unwrap() implies s[i] != '\n' by {
        assert(s[i] == rest[i - k]);
    }
}

/// The column at which a character of a line starts resolves to that character.
pub proof fn column_of_boundary_resolves(content: Seq<char>, k: nat, encoding: PositionEncoding)
    requires
        k <= content.len(),
    ensures
        column_offset(content, encoded_width(content.take(k as int), encoding), encoding) == k,
    decreases k,
{
    let front = content.take(k as int);
    if k > 0 {
        column_of_boundary_resolves(content.skip(1), (k - 1) as nat, encoding);
        assert(front.skip(1) =~= content.skip(1).take(k - 1));
        assert(front[0] == content[0]);
    }
}

/// A larger column on the same line never resolves to a smaller offset.
pub proof fn offsets_grow_with_columns(
    content: Seq<char>,
    a: nat,
    b: nat,
    encoding: PositionEncoding,
)
    requires
        a <= b,
    ensures
        column_offset(content, a, encoding) <= column_offset(content, b, encoding),
    decreases content.len(),
{
    if content.len() > 0 && a > 0 {
        let width = encoded_len(content[0], encoding);
        let left_a = if width <= a {
            (a - width) as nat
        } else {
            0
        };
        let left_b = if width <= b {
            (b - width) as nat
        } else {
            0
        };
        offsets_grow_with_columns(content.skip(1), left_a, left_b, encoding);
    }
}

/// The run at the front holds identifier characters alone and is as long as it
/// can be.
proof fn lemma_identifier_run(s: Seq<char>)
    ensures
        identifier_run(s) <= s.len(),
        forall|i: int| 0 <= i < identifier_run(s) ==> identifier_char(s[i]),
        identifier_run(s) < s.len() ==> !identifier_char(s[identifier_run(s) as int]),
    decreases s.len(),
{
    if s.len() > 0 && identifier_char(s[0]) {
        lemma_identifier_run(s.skip(1));
        assert forall|i: int| 0 <= i < identifier_run(s) implies identifier_char(s[i]) by {
            if i > 0 {
                assert(s[i] == s.skip(1)[i - 1]);
            }
        }
    }
}

/// The run at the back holds identifier characters alone and is as long as it
/// can be.
proof fn lemma_identifier_run_back(s: Seq<char>)
    ensures
        identifier_run_back(s) <= s.len(),
        forall|i: int|
            s.len() - identifier_run_back(s) <= i < s.len() ==> identifier_char(s[i]),
        identifier_run_back(s) < s.len() ==> !identifier_char(
            s[s.len() - identifier_run_back(s) - 1],
        ),
    decreases s.len(),
{
    if s.len() > 0 && identifier_char(s.last()) {
        lemma_identifier_run_back(s.drop_last());
        assert forall|i: int|
            s.len() - identifier_run_back(s) <= i < s.len() implies identifier_char(s[i]) by {
            if i < s.len() - 1 {
                assert(s[i] == s.drop_last()[i]);
            }
        }
    }
}

/// The span at an offset contains it, holds identifier characters alone, and
/// cannot be made longer on either side.
pub proof fn identifier_span_is_maximal(s: Seq<char>, offset: nat)
    requires
        offset <= s.len(),
    ensures
        0 <= identifier_span(s, offset).0 <= offset <= identifier_span(s, offset).1 <= s.len(),
        forall|i: int|
            identifier_span(s, offset).0 <= i < identifier_span(s, offset).1 ==> identifier_char(
                s[i],
            ),
        identifier_span(s, offset).0 > 0 ==> !identifier_char(
            s[identifier_span(s, offset).0 - 1],
        ),
        identifier_span(s, offset).1 < s.len() ==> !identifier_char(
            s[identifier_span(s, offset).1],
        ),
{
    let front = s.take(offset as int);
    let back = s.skip(offset as int);
    lemma_identifier_run_back(front);
    lemma_identifier_run(back);
    let (start, end) = identifier_span(s, offset);
    assert forall|i: int| start <= i < end implies identifier_char(s[i]) by {
        if i < offset {
            assert(s[i] == front[i]);
        } else {
            assert(s[i] == back[i - offset]);
        }
    }
    if start > 0 {
        assert(s[start - 1] == front[start - 1]);
    }
    if end < s.len() {
        assert(s[end] == back[end - offset]);
    }
}

/// Every offset in an identifier, and the one just past it, names the same
/// identifier.
pub proof fn identifier_is_the_same_throughout(s: Seq<char>, offset: nat, other: nat)
    requires
        offset <= s.len(),
        identifier_span(s, offset).0 <= other <= identifier_span(s, offset).1,
    ensures
        identifier_span(s, other) == identifier_span(s, offset),
{
    identifier_span_is_maximal(s, offset);
    identifier_span_is_maximal(s, other);
    let (a, b) = identifier_span(s, offset);
    let (c, d) = identifier_span(s, other);
    if a < c {
        assert(identifier_char(s[c - 1]));
    }
    if c < a {
        assert(identifier_char(s[a - 1]));
    }
    if b < d {
        assert(identifier_char(s[b]));
    }
    if d < b {
        assert(identifier_char(s[d]));
    }
}

/// How many line feeds a text holds.
pub open spec fn line_feeds(s: Seq<char>) -> nat {
    s.to_multiset().count('\n')
}

/// Before the start of a line stand exactly as many line feeds as the line has
/// predecessors, and the line is there exactly where the text has that many.
pub proof fn lines_are_counted_by_line_feeds(s: Seq<char>, n: nat)
    ensures
        line_start(s, n) is Some <==> n <= line_feeds(s),
        line_start(s, n) matches Some(k) ==> k <= s.len() && line_feeds(s.take(k as int)) == n,
    decreases s.len(),
{
    broadcast use vstd::seq_lib::group_to_multiset_ensures;

    if n == 0 {
        assert(s.take(0) =~= Seq::<char>::empty());
        lemma_no_line_feeds();
    } else if s.len() == 0 {
        assert(s =~= Seq::<char>::empty());
        lemma_no_line_feeds();
    } else {
        let rest = s.skip(1);
        let left = if s[0] == '\n' {
            (n - 1) as nat
        } else {
            n
        };
        lines_are_counted_by_line_feeds(rest, left);
        lemma_line_feeds_behind_first(s);
        if let Some(k) = line_start(rest, left) {
            let front = s.take(k as int + 1);
            assert(front.skip(1) =~= rest.take(k as int));
            assert(front[0] == s[0]);
            lemma_line_feeds_behind_first(front);
        }
    }
}

proof fn lemma_no_line_feeds()
    ensures
        line_feeds(Seq::<char>::empty()) == 0,
{
    broadcast use vstd::seq_lib::group_to_multiset_ensures;

    let none = Seq::<char>::empty();
    if none.to_multiset().count('\n') > 0 {
        assert(none.contains('\n'));
    }
}

proof fn lemma_line_feeds_behind_first(s: Seq<char>)
    requires
        s.len() > 0,
    ensures
        line_feeds(s) == line_feeds(s.skip(1)) + if s[0] == '\n' {
            1nat
        } else {
            0
        },
{
    broadcast use vstd::seq_lib::group_to_multiset_ensures;

    assert(s.remove(0) =~= s.skip(1));
    assert(s.to_multiset().count(s[0]) > 0) by {
        assert(s.contains(s[0]));
    }
    assert(s.remove(0).to_multiset() =~= s.to_multiset().remove(s[0]));
}

/// The content of a line ends where its line does: behind it comes the end of the text,
/// a line feed, or a carriage return with one of these behind it. It holds no line feed,
/// and no carriage return at its end that belongs to the line feed.
pub proof fn content_ends_where_the_line_does(s: Seq<char>)
    ensures
        ({
            let n = line_content(s).len() as int;
            &&& n <= s.len()
            &&& line_content(s) == s.take(n)
            &&& forall|i: int| 0 <= i < n ==> s[i] != '\n'
            &&& n == s.len() || s[n] == '\n' || (s[n] == '\r' && (n + 1 == s.len() || s[n + 1]
                == '\n'))
            &&& n > 0 && s[n - 1] == '\r' ==> n < s.len() && s[n] == '\r'
        }),
{
    lemma_line_content(s);
    lemma_line_len(s);
    lemma_line_len_ends(s);
}

proof fn lemma_line_len_ends(s: Seq<char>)
    ensures
        line_len(s) == s.len() || s[line_len(s) as int] == '\n',
    decreases s.len(),
{
    if s.len() > 0 && s[0] != '\n' {
        let rest = s.skip(1);
        lemma_line_len(rest);
        lemma_line_len_ends(rest);
        if line_len(rest) < rest.len() {
            assert(rest[line_len(rest) as int] == s[line_len(s) as int]);
        }
    }
}

/// A column inside a character counts that character, and one past the end of the line
/// counts the whole line.
pub proof fn columns_round_up_and_stop_at_the_end(
    content: Seq<char>,
    units: nat,
    encoding: PositionEncoding,
    k: nat,
)
    requires
        k < content.len(),
    ensures
        encoded_width(content.take(k as int), encoding) < units <= encoded_width(
            content.take(k as int + 1),
            encoding,
        ) ==> column_offset(content, units, encoding) == k + 1,
        units >= encoded_width(content, encoding) ==> column_offset(content, units, encoding)
            == content.len(),
    decreases content.len(),
{
    lemma_whole_line(content, units, encoding);
    let rest = content.skip(1);
    let width = encoded_len(content[0], encoding);
    let front = content.take(k as int);
    let more = content.take(k as int + 1);
    assert(more[0] == content[0]);
    if k > 0 {
        assert(front[0] == content[0]);
        assert(front.skip(1) =~= rest.take(k - 1));
        assert(more.skip(1) =~= rest.take(k as int));
        if encoded_width(front, encoding) < units <= encoded_width(more, encoding) {
            columns_round_up_and_stop_at_the_end(
                rest,
                (units - width) as nat,
                encoding,
                (k - 1) as nat,
            );
        }
    } else if encoded_width(front, encoding) < units <= encoded_width(more, encoding) {
        assert(more.skip(1) =~= Seq::<char>::empty());
        reveal_with_fuel(encoded_width, 2);
        reveal_with_fuel(column_offset, 2);
        assert(column_offset(rest, 0, encoding) == 0);
    }
}

proof fn lemma_whole_line(content: Seq<char>, units: nat, encoding: PositionEncoding)
    ensures
        units >= encoded_width(content, encoding) ==> column_offset(content, units, encoding)
            == content.len(),
    decreases content.len(),
{
    if content.len() > 0 {
        let width = encoded_len(content[0], encoding);
        lemma_encoded_len(content[0], encoding);
        if units >= encoded_width(content, encoding) {
            lemma_whole_line(content.skip(1), (units - width) as nat, encoding);
        }
    }
}

proof fn lemma_encoded_len(c: char, encoding: PositionEncoding)
    ensures
        encoded_len(c, encoding) >= 1,
{
}

/// The encodings agree with each other and with UTF-8 itself: a text takes as many
/// UTF-8 units as it has bytes, and as many UTF-32 units as it has characters; a
/// character takes two UTF-16 units where it takes four bytes, and one otherwise.
pub proof fn units_are_those_of_the_encodings(s: Seq<char>, c: char)
    ensures
        encoded_width(s, PositionEncoding::Utf8) == vstd::utf8::encode_utf8(s).len(),
        encoded_width(s, PositionEncoding::Utf32) == s.len(),
        encoded_len(c, PositionEncoding::Utf16) == if vstd::utf8::encode_utf8(seq![c]).len() == 4 {
            2nat
        } else {
            1
        },
    decreases s.len(),
{
    lemma_utf8_len(seq![c]);
    reveal_with_fuel(encoded_width, 2);
    assert(seq![c].skip(1) =~= Seq::<char>::empty());
    lemma_utf8_len(s);
    if s.len() > 0 {
        units_are_those_of_the_encodings(s.skip(1), c);
    }
}

proof fn lemma_scalar_len(c: char)
    ensures
        vstd::utf8::encode_scalar(c as u32).len() == encoded_len(c, PositionEncoding::Utf8),
{
    assert((c as u32) as int == c as int);
}

proof fn lemma_utf8_len(s: Seq<char>)
    ensures
        encoded_width(s, PositionEncoding::Utf8) == vstd::utf8::encode_utf8(s).len(),
    decreases s.len(),
{

    if s.len() > 0 {
        lemma_utf8_len(s.skip(1));
        assert(s.drop_first() =~= s.skip(1));
        lemma_scalar_len(s[0]);
    }
}

/// An identifier that is found stands in the text, touches the position, holds nothing
/// but the characters of identifiers, and goes on as far as these do. None is found only
/// where no such character stands next to the position.
pub proof fn identifiers_are_whole(
    s: Seq<char>,
    pos: Position,
    encoding: PositionEncoding,
    k: nat,
)
    requires
        offset_of(s, pos, encoding) == Some(k),
    ensures
        match identifier_of(s, pos, encoding) {
            Some(name) => exists|a: int, b: int|
                #![trigger s.subrange(a, b)]
                0 <= a <= k <= b <= s.len() && a < b && name == s.subrange(a, b) && (forall|i: int|
                    a <= i < b ==> identifier_char(#[trigger] s[i])) && (a > 0
                    ==> !identifier_char(s[a - 1])) && (b < s.len() ==> !identifier_char(s[b])),
            None => (k > 0 ==> !identifier_char(s[k - 1])) && (k < s.len() ==> !identifier_char(
                s[k as int],
            )),
        },
{
    offset_stays_on_its_line(s, pos, encoding);
    identifier_span_is_maximal(s, k);
    let (a, b) = identifier_span(s, k);
    if a != b {
        assert(identifier_of(s, pos, encoding) == Some(s.subrange(a, b)));
    }
}

/// Letters and digits, the underscore and the dollar sign stand in identifiers; white
/// space, brackets and other signs of ASCII do not.
pub proof fn identifiers_are_told_from_signs(c: char)
    ensures
        text::alphanumeric(c) ==> identifier_char(c),
        identifier_char('_') && identifier_char('$'),
        !text::alphanumeric(c) && c != '_' && c != '$' ==> !identifier_char(c),
{
}

} // verus!
