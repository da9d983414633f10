//! The framing of messages: a header with the length of the body, an empty line,
//! and the body, which is the text of a JSON value.
use vstd::prelude::*;

use crate::json;
use crate::json::wire;
use crate::json::wire::{parse_json, print_json};
use crate::json::{Json, JsonView};
use crate::lsp::error::{LspError, LspErrorView};
use crate::text;
use crate::text::{cat3, chars_of, decimal_text, matches_at, parse_usize, string_of, trim};

verus! {

// ---------------------------------------------------------------------------
// Header lines
// ---------------------------------------------------------------------------

/// A line without the line ends behind it.
pub open spec fn without_line_end(s: Seq<char>) -> Seq<char>
    decreases s.len(),
{
    if s.len() > 0 && (s.last() == '\r' || s.last() == '\n') {
        without_line_end(s.drop_last())
    } else {
        s
    }
}

/// The length known once a header line has been read: the line may give it, or
/// be another header.
pub open spec fn length_after(length: Option<nat>, line: Seq<char>) -> Option<nat> {
    if text::begins_with(line, "Content-Length:"@) {
        text::parsed_usize(text::trimmed(line.skip("Content-Length:"@.len() as int)))
    } else {
        length
    }
}

/// What there is to do behind a header line.
#[derive(Debug, Clone, Copy, PartialEq, Eq, Structural)]
pub enum HeaderStep {
    /// Read another line.
    NextLine,
    /// Read a body of this many bytes.
    Body(usize),
    /// The header has ended and gave no length.
    NoLength,
}

/// The header of a message while it is read line by line.
#[derive(Debug, Clone, Copy, PartialEq, Eq, Structural)]
pub struct Header {
    length: Option<usize>,
}

impl View for Header {
    type V = Option<nat>;

    /// The length that the lines so far have given.
    closed spec fn view(&self) -> Option<nat> {
        match self.length {
            Some(n) => Some(n as nat),
            None => None,
        }
    }
}

impl Header {
    /// A header of which no line has been read.
    pub fn new() -> (r: Header)
        ensures
            r@ is None,
    {
        Header { length: None }
    }

    /// Takes in one line, with or without its line end.
    pub fn take_line(&mut self, line: &str) -> (r: HeaderStep)
        ensures
            ({
                let content = without_line_end(line@);
                if content.len() == 0 {
                    &&& final(self)@ == old(self)@
                    &&& match old(self)@ {
                        Some(n) => r matches HeaderStep::Body(k) && k == n,
                        None => r == HeaderStep::NoLength,
                    }
                } else {
                    &&& final(self)@ == length_after(old(self)@, content)
                    &&& r == HeaderStep::NextLine
                }
            }),
    {
        let chars = chars_of(line);
        let mut end: usize = chars.len();
        assert(chars@.take(end as int) =~= line@);
        while end > 0 && (chars[end - 1] == '\r' || chars[end - 1] == '\n')
            invariant
                end <= chars@.len(),
                without_line_end(line@) == without_line_end(chars@.take(end as int)),
            decreases end,
        {
            assert(chars@.take(end as int).drop_last() =~= chars@.take(end - 1));
            end -= 1;
        }
        let ghost content = chars@.take(end as int);
        assert(without_line_end(line@) == content);
        if end == 0 {
            return match self.length {
                Some(n) => HeaderStep::Body(n),
                None => HeaderStep::NoLength,
            };
        }
        let kept = chars_of(string_of(&chars, 0, end).as_str());
        assert(chars@.subrange(0, end as int) =~= content);
        let name = chars_of("Content-Length:");
        if matches_at(&kept, &name, 0) {
            let value = string_of(&kept, name.len(), kept.len());
            assert(kept@.subrange(name@.len() as int, kept@.len() as int) =~= content.skip(
                name@.len() as int,
            ));
            self.length = parse_usize(trim(value.as_str()).as_str());
        }
        HeaderStep::NextLine
    }
}

// ---------------------------------------------------------------------------
// Whole messages
// ---------------------------------------------------------------------------

/// The header of a message with a body of `n` bytes.
pub open spec fn header_text(n: nat) -> Seq<char> {
    "Content-Length: "@ + text::decimal(n) + "\r\n\r\n"@
}

/// A message with its frame.
pub open spec fn framed(body: Seq<u8>) -> Seq<u8> {
    vstd::utf8::encode_utf8(header_text(body.len())) + body
}

/// A message with its frame.
pub fn frame(body: &Vec<u8>) -> (r: Vec<u8>)
    ensures
        r@ == framed(body@),
{
    let length = decimal_text(body.len() as u64);
    let header = cat3("Content-Length: ", length.as_str(), "\r\n\r\n");
    let bytes = header.as_str().as_bytes();
    let mut out: Vec<u8> = Vec::new();
    let mut i: usize = 0;
    while i < bytes.len()
        invariant
            i <= bytes@.len(),
            out@ == bytes@.take(i as int),
        decreases bytes@.len() - i,
    {
        out.push(bytes[i]);
        i += 1;
        assert(bytes@.take(i as int) =~= bytes@.take(i - 1).push(bytes@[i - 1]));
    }
    assert(bytes@.take(i as int) =~= bytes@);
    let ghost head = out@;
    let mut k: usize = 0;
    while k < body.len()
        invariant
            k <= body@.len(),
            out@ == head + body@.take(k as int),
        decreases body@.len() - k,
    {
        out.push(body[k]);
        k += 1;
        assert(body@.take(k as int) =~= body@.take(k - 1).push(body@[k - 1]));
    }
    assert(body@.take(k as int) =~= body@);
    out
}

/// The number of bytes up to and with the first line feed.
pub open spec fn line_size(s: Seq<u8>) -> nat
    decreases s.len(),
{
    if s.len() == 0 {
        0
    } else if s[0] == 10 {
        1
    } else {
        1 + line_size(s.skip(1))
    }
}

/// What reading one message from a stream of bytes gives.
pub enum ReadView {
    /// The stream ended before a message started, or within its header.
    End,
    /// A message, and what stands behind it.
    Message { body: Seq<u8>, rest: Seq<u8> },
    /// The header gave no length.
    NoLength,
    /// The stream ended within the body.
    Truncated,
    /// A header line is not UTF-8.
    NotText,
}

/// Reads one message from a stream of bytes, once `length` is known from earlier
/// header lines.
pub open spec fn read_from(s: Seq<u8>, length: Option<nat>) -> ReadView
    decreases s.len(),
{
    if s.len() == 0 {
        ReadView::End
    } else {
        let n = line_size(s) as int;
        let line = s.take(n);
        let rest = s.skip(n);
        if !vstd::utf8::valid_utf8(line) {
            ReadView::NotText
        } else {
            let content = without_line_end(vstd::utf8::decode_utf8(line));
            if content.len() > 0 {
                if 0 < n <= s.len() {
                    read_from(rest, length_after(length, content))
                } else {
                    ReadView::End
                }
            } else {
                match length {
                    None => ReadView::NoLength,
                    Some(k) => if k <= rest.len() {
                        ReadView::Message { body: rest.take(k as int), rest: rest.skip(k as int) }
                    } else {
                        ReadView::Truncated
                    },
                }
            }
        }
    }
}

/// `String::from_utf8`: the text that the bytes encode, or nothing where they are
/// not UTF-8.
#[verifier::external_body]
fn decode(bytes: Vec<u8>) -> (r: Option<String>)
    ensures
        r is Some == vstd::utf8::valid_utf8(bytes@),
        r matches Some(s) ==> s@ == vstd::utf8::decode_utf8(bytes@),
{
    String::from_utf8(bytes).ok()
}

/// What reading one message from a buffer gives.
#[derive(Debug, Clone, PartialEq, Eq)]
pub enum Read {
    /// The buffer ended before a message started, or within its header.
    End,
    /// The body of a message, and where the next one starts.
    Message {
        /// The body.
        body: Vec<u8>,
        /// Where the next message starts.
        next: usize,
    },
    /// The header gave no length.
    NoLength,
    /// The buffer ended within the body.
    Truncated,
    /// A header line is not UTF-8.
    NotText,
}

/// What a [`Read`] from `input` says.
pub open spec fn read_view(r: Read, input: Seq<u8>) -> ReadView {
    match r {
        Read::End => ReadView::End,
        Read::Message { body, next } => ReadView::Message {
            body: body@,
            rest: input.skip(next as int),
        },
        Read::NoLength => ReadView::NoLength,
        Read::Truncated => ReadView::Truncated,
        Read::NotText => ReadView::NotText,
    }
}

/// The bytes `from..to` of a buffer.
fn copy_bytes(input: &Vec<u8>, from: usize, to: usize) -> (r: Vec<u8>)
    requires
        from <= to <= input@.len(),
    ensures
        r@ == input@.subrange(from as int, to as int),
{
    let mut out: Vec<u8> = Vec::new();
    let mut i: usize = from;
    while i < to
        invariant
            from <= i <= to <= input@.len(),
            out@ == input@.subrange(from as int, i as int),
        decreases to - i,
    {
        out.push(input[i]);
        i += 1;
        assert(input@.subrange(from as int, i as int) =~= input@.subrange(from as int, i - 1).push(
            input@[i - 1],
        ));
    }
    out
}

proof fn lemma_line_size(s: Seq<u8>)
    ensures
        line_size(s) <= s.len(),
        s.len() > 0 ==> line_size(s) > 0,
    decreases s.len(),
{
    if s.len() > 0 && s[0] != 10 {
        lemma_line_size(s.skip(1));
    }
}

/// Reads the frame of the message that starts at `from`.
pub fn read_body(input: &Vec<u8>, from: usize) -> (r: Read)
    requires
        from <= input@.len(),
    ensures
        read_view(r, input@) == read_from(input@.skip(from as int), None),
        r matches Read::Message { next, .. } ==> from <= next <= input@.len(),
{
    let mut header = Header::new();
    let mut at: usize = from;
    let ghost want = read_from(input@.skip(from as int), None);
    while at < input.len()
        invariant
            from <= at <= input@.len(),
            want == read_from(input@.skip(from as int), None),
            want == read_from(input@.skip(at as int), header@),
        decreases input@.len() - at,
    {
        let ghost s = input@.skip(at as int);
        let mut end: usize = at;
        let mut found = false;
        while end < input.len() && !found
            invariant
                at <= end <= input@.len(),
                s == input@.skip(at as int),
                !found ==> line_size(s) == (end - at) + line_size(input@.skip(end as int)),
                found ==> line_size(s) == end - at,
            decreases input@.len() - end,
        {
            assert(input@.skip(end as int).skip(1) =~= input@.skip(end + 1));
            if input[end] == 10 {
                found = true;
            }
            end += 1;
        }
        proof {
            if !found {
                assert(input@.skip(end as int) =~= seq![]);
            }
            lemma_line_size(s);
            assert(s.take(end - at) =~= input@.subrange(at as int, end as int));
            assert(s.skip(end - at) =~= input@.skip(end as int));
        }
        let line = match decode(copy_bytes(input, at, end)) {
            Some(line) => line,
            None => {
                return Read::NotText;
            },
        };
        match header.take_line(line.as_str()) {
            HeaderStep::NextLine => {
                at = end;
            },
            HeaderStep::NoLength => {
                return Read::NoLength;
            },
            HeaderStep::Body(n) => {
                if n <= input.len() - end {
                    let body = copy_bytes(input, end, end + n);
                    proof {
                        let rest = input@.skip(end as int);
                        assert(rest.take(n as int) =~= body@);
                        assert(rest.skip(n as int) =~= input@.skip(end + n));
                    }
                    return Read::Message { body, next: end + n };
                }
                return Read::Truncated;
            },
        }
    }
    assert(input@.skip(at as int) =~= seq![]);
    Read::End
}

// ---------------------------------------------------------------------------
// Bodies
// ---------------------------------------------------------------------------

/// The message in a body.
pub fn parse_body(body: &Vec<u8>) -> (r: Result<Json, LspError>)
    ensures
        match wire::json_in(body@) {
            Some(value) => r matches Ok(j) && j@ == value,
            None => r matches Err(LspError::Json(_)),
        },
{
    match parse_json(body) {
        Ok(value) => Ok(value),
        Err(message) => Err(LspError::Json(message)),
    }
}

/// What reading one message from a stream of bytes gives.
pub enum MessageView {
    /// The stream ended before a message started, or within its header.
    End,
    /// A message, and what stands behind it.
    Message { value: JsonView, rest: Seq<u8> },
    /// The header gave no length.
    NoLength,
    /// The stream ended within the body.
    Truncated,
    /// A header line is not UTF-8.
    NotText,
    /// The body is not JSON text.
    NotJson,
}

/// Reads one message from a stream of bytes.
pub open spec fn received(s: Seq<u8>) -> MessageView {
    match read_from(s, None) {
        ReadView::End => MessageView::End,
        ReadView::NoLength => MessageView::NoLength,
        ReadView::Truncated => MessageView::Truncated,
        ReadView::NotText => MessageView::NotText,
        ReadView::Message { body, rest } => match wire::json_in(body) {
            Some(value) => MessageView::Message { value, rest },
            None => MessageView::NotJson,
        },
    }
}

/// A message that has been read.
#[derive(Debug)]
pub struct Received {
    /// The message.
    pub value: Json,
    /// Where the next one starts.
    pub next: usize,
}

/// Reads the message that starts at `from`; there is none at the end.
pub fn read_message(input: &Vec<u8>, from: usize) -> (r: Result<Option<Received>, LspError>)
    requires
        from <= input@.len(),
    ensures
        match received(input@.skip(from as int)) {
            MessageView::End => r matches Ok(None),
            MessageView::Message { value, rest } => r matches Ok(Some(m)) && m.value@ == value
                && from <= m.next <= input@.len() && input@.skip(m.next as int) == rest,
            MessageView::NoLength => r matches Err(e) && e@ == LspErrorView::Protocol(
                "message had no Content-Length header"@,
            ),
            MessageView::Truncated => r matches Err(e) && e@ == LspErrorView::Io("early eof"@),
            MessageView::NotText => r matches Err(e) && e@ == LspErrorView::Io(
                "stream did not contain valid UTF-8"@,
            ),
            MessageView::NotJson => r matches Err(LspError::Json(_)),
        },
{
    match read_body(input, from) {
        Read::End => Ok(None),
        Read::Message { body, next } => match parse_body(&body) {
            Ok(value) => Ok(Some(Received { value, next })),
            Err(e) => Err(e),
        },
        Read::NoLength => Err(LspError::no_length()),
        Read::Truncated => Err(LspError::Io("early eof".to_owned())),
        Read::NotText => Err(LspError::Io("stream did not contain valid UTF-8".to_owned())),
    }
}

/// Whether these bytes are read as a message, whatever follows them.
pub open spec fn carries(bytes: Seq<u8>, value: JsonView) -> bool {
    forall|rest: Seq<u8>|
        #[trigger] received(bytes + rest) == (MessageView::Message { value, rest })
}

/// The bytes of a message. Those of a message that can be sent are read back as that
/// message, with its members in the order of their keys.
pub fn write_message(message: &Json) -> (r: Result<Vec<u8>, LspError>)
    ensures
        match wire::json_bytes(message@) {
            Some(body) => r matches Ok(bytes) && bytes@ == framed(body),
            None => r matches Err(LspError::Json(_)),
        },
        wire::sendable(message@) ==> r is Ok && carries(r->Ok_0@, json::in_order(message@)),
        wire::sendable(message@) && json::is_in_order(message@) ==> r is Ok && carries(
            r->Ok_0@,
            message@,
        ),
{
    match print_json(message) {
        Ok(body) => {
            let bytes = frame(&body);
            let size: usize = body.len();
            proof {
                assert(size <= usize::MAX);
                if wire::sendable(message@) {
                    assert forall|rest: Seq<u8>| #[trigger] received(bytes@ + rest) == (
                    MessageView::Message { value: json::in_order(message@), rest }) by {
                        reading_undoes_framing(body@, rest);
                    }
                    if json::is_in_order(message@) {
                        json::ordered_values_are_left_alone(message@);
                    }
                }
            }
            Ok(bytes)
        },
        Err(why) => Err(LspError::Json(why)),
    }
}

// ---------------------------------------------------------------------------
// Laws
// ---------------------------------------------------------------------------

/// The bytes of an ASCII text are its characters.
proof fn lemma_ascii(s: Seq<char>)
    requires
        vstd::utf8::is_ascii_chars(s),
    ensures
        vstd::utf8::encode_utf8(s) == s.map_values(|c: char| c as u8),
        vstd::utf8::valid_utf8(vstd::utf8::encode_utf8(s)),
        vstd::utf8::decode_utf8(vstd::utf8::encode_utf8(s)) == s,
{
    vstd::utf8::is_ascii_chars_encode_utf8(s);
    vstd::utf8::encode_utf8_valid_utf8(s);
    vstd::utf8::encode_utf8_decode_utf8(s);
    assert(vstd::utf8::encode_utf8(s) =~= s.map_values(|c: char| c as u8));
}

/// A text whose only line feed is at its end is one line.
proof fn lemma_one_line(s: Seq<u8>, rest: Seq<u8>)
    requires
        s.len() > 0,
        s.last() == 10,
        forall|i: int| 0 <= i < s.len() - 1 ==> s[i] != 10,
    ensures
        line_size(s + rest) == s.len(),
    decreases s.len(),
{
    let all = s + rest;
    if s.len() == 1 {
        assert(all[0] == 10);
    } else {
        assert(all[0] == s[0] && s[0] != 10);
        assert(all.skip(1) =~= s.skip(1) + rest);
        lemma_one_line(s.skip(1), rest);
    }
}

/// Digits are no white space.
proof fn lemma_trimmed_digits(s: Seq<char>)
    requires
        text::all_digits(s),
    ensures
        text::trimmed(seq![' '] + s) == s,
{
    let spaced = seq![' '] + s;
    assert(spaced.skip(1) =~= s);
    assert(text::ascii_digit(s[0]));
    assert(!text::white_space(s[0]));
    assert(text::trimmed_front(s) == s);
    assert(text::trimmed_front(spaced) == s);
    assert(text::ascii_digit(s[s.len() - 1]));
    assert(!text::white_space(s.last()));
}

/// What was framed is read back: the body whole, and nothing of what follows it.
pub proof fn reading_undoes_framing(body: Seq<u8>, rest: Seq<u8>)
    requires
        body.len() <= usize::MAX,
    ensures
        read_from(framed(body) + rest, None) == (ReadView::Message { body, rest }),
{
    let n = body.len();
    let digits = text::decimal(n);
    text::decimal_reads_back(n);
    reveal_strlit("Content-Length: ");
    reveal_strlit("Content-Length:");
    reveal_strlit("\r\n\r\n");
    let name = "Content-Length:"@;
    let first = "Content-Length: "@ + digits + seq!['\r', '\n'];
    let second = seq!['\r', '\n'];
    let header = header_text(n);
    assert(header =~= first + second);
    assert forall|i: int| 0 <= i < digits.len() implies '0' <= #[trigger] digits[i] <= '9' by {
        assert(text::ascii_digit(digits[i]));
    }
    assert(vstd::utf8::is_ascii_chars(first));
    assert(vstd::utf8::is_ascii_chars(second));
    assert(vstd::utf8::is_ascii_chars(header));
    lemma_ascii(first);
    lemma_ascii(second);
    lemma_ascii(header);
    let b1 = vstd::utf8::encode_utf8(first);
    let b2 = vstd::utf8::encode_utf8(second);
    let all = framed(body) + rest;
    assert(all =~= b1 + (b2 + (body + rest)));
    // The first line gives the length.
    assert(b1.last() == 10);
    assert forall|i: int| 0 <= i < b1.len() - 1 implies b1[i] != 10 by {
        assert(b1[i] == first[i] as u8);
        assert(first[i] != '\n');
    }
    lemma_one_line(b1, b2 + (body + rest));
    assert(all.take(b1.len() as int) =~= b1);
    assert(all.skip(b1.len() as int) =~= b2 + (body + rest));
    let content = "Content-Length: "@ + digits;
    assert(without_line_end(first) == content) by {
        let almost = first.drop_last();
        assert(almost =~= content.push('\r'));
        assert(almost.drop_last() =~= content);
        assert(content.last() == digits.last());
        reveal_with_fuel(without_line_end, 3);
    }
    assert(content.subrange(0, name.len() as int) =~= name);
    assert(content.skip(name.len() as int) =~= seq![' '] + digits);
    lemma_trimmed_digits(digits);
    assert(text::parsed_usize(digits) == Some(n)) by {
        assert(digits[0] != '+');
    }
    assert(length_after(None, content) == Some(n));
    // The second line is empty.
    let tail = b2 + (body + rest);
    assert(b2.last() == 10);
    assert(b2[0] == 13);
    lemma_one_line(b2, body + rest);
    assert(tail.take(b2.len() as int) =~= b2);
    assert(tail.skip(b2.len() as int) =~= body + rest);
    assert(without_line_end(second) =~= Seq::<char>::empty()) by {
        assert(second.drop_last() =~= seq!['\r']);
        assert(seq!['\r'].drop_last() =~= Seq::<char>::empty());
        reveal_with_fuel(without_line_end, 3);
    }
    assert((body + rest).take(n as int) =~= body);
    assert((body + rest).skip(n as int) =~= rest);
    assert(read_from(tail, Some(n)) == (ReadView::Message { body, rest }));
}

/// Messages that are written one behind the other are read in turn, and then the
/// stream is at its end.
pub proof fn messages_are_read_in_turn(a: Seq<u8>, first: JsonView, b: Seq<u8>, second: JsonView)
    requires
        carries(a, first),
        carries(b, second),
    ensures
        received(a + b) == (MessageView::Message { value: first, rest: b }),
        received(b) == (MessageView::Message { value: second, rest: Seq::<u8>::empty() }),
        received(Seq::<u8>::empty()) == MessageView::End,
{
    assert(b + Seq::<u8>::empty() =~= b);
    assert(received(b + Seq::<u8>::empty()) == (MessageView::Message {
        value: second,
        rest: Seq::<u8>::empty(),
    }));
}

/// Whether bytes are one header line that says something: a text with its line feed at
/// the end, and something before it.
pub open spec fn is_header_line(line: Seq<u8>, content: Seq<char>) -> bool {
    &&& line.len() > 0
    &&& line.last() == 10
    &&& forall|i: int| 0 <= i < line.len() - 1 ==> line[i] != 10
    &&& vstd::utf8::valid_utf8(line)
    &&& content == without_line_end(vstd::utf8::decode_utf8(line))
    &&& content.len() > 0
}

/// A header that is not the length is passed over, wherever it stands. Of several
/// lengths, the last counts.
pub proof fn other_headers_are_passed_over(
    line: Seq<u8>,
    content: Seq<char>,
    rest: Seq<u8>,
    length: Option<nat>,
    other: Option<nat>,
)
    requires
        is_header_line(line, content),
    ensures
        !text::begins_with(content, "Content-Length:"@) ==> read_from(line + rest, length)
            == read_from(rest, length),
        text::begins_with(content, "Content-Length:"@) ==> read_from(line + rest, length)
            == read_from(line + rest, other),
{
    let all = line + rest;
    lemma_one_line(line, rest);
    assert(all.take(line.len() as int) =~= line);
    assert(all.skip(line.len() as int) =~= rest);
}

/// Behind its header a message has exactly as many bytes as the header says, and the
/// next message starts right behind them. Where there are fewer, the message is cut
/// off; without a length, it is no message; and where nothing is left, there is none.
pub proof fn bodies_are_as_long_as_their_headers_say(rest: Seq<u8>, n: nat)
    ensures
        n <= rest.len() ==> (read_from(seq![13u8, 10u8] + rest, Some(n)) matches ReadView::Message {
            body,
            rest: behind,
        } && body.len() == n && body + behind == rest),
        n > rest.len() ==> read_from(seq![13u8, 10u8] + rest, Some(n)) == ReadView::Truncated,
        read_from(seq![13u8, 10u8] + rest, None) == ReadView::NoLength,
        read_from(Seq::<u8>::empty(), Some(n)) == ReadView::End,
{
    let second = seq!['\r', '\n'];
    assert(vstd::utf8::is_ascii_chars(second));
    lemma_ascii(second);
    let line = seq![13u8, 10u8];
    assert(vstd::utf8::encode_utf8(second) =~= line);
    let all = line + rest;
    lemma_one_line(line, rest);
    assert(all.take(2) =~= line);
    assert(all.skip(2) =~= rest);
    assert(without_line_end(second) =~= Seq::<char>::empty()) by {
        assert(second.drop_last() =~= seq!['\r']);
        assert(seq!['\r'].drop_last() =~= Seq::<char>::empty());
        reveal_with_fuel(without_line_end, 3);
    }
    if n <= rest.len() {
        assert(rest.take(n as int) + rest.skip(n as int) =~= rest);
    }
}

} // verus!
