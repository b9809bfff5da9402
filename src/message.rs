//! The message model: a start line, headers and an optional body, with
//! serialisation to wire text and parsing of requests from it.
use vstd::prelude::*;

use vstd::utf8::{char_is_scalar, encode_scalar};

use crate::request::{request_line_spec, Method, RequestLine};
use crate::response::StatusLine;
use crate::text::{
    chars_of, colon_sp, crlf, crlf2, find, find_at, lemma_find_from, matches_at, occurs_at,
    parse_usize, parse_usize_spec,
    push_char, slice_equals, split, split_pieces, string_of, sub_vec, views,
};

verus! {

/// The protocol version; only HTTP/1.1 is supported.
#[derive(PartialEq, Eq, Structural, Debug, Clone, Copy)]
pub enum Version {
    Http1_1,
}

/// The version a token names, if any.
pub open spec fn version_from_spec(t: Seq<char>) -> Option<Version> {
    if t == "HTTP/1.1"@ {
        Some(Version::Http1_1)
    } else {
        None
    }
}

impl Version {
    pub open spec fn token_spec(self) -> Seq<char> {
        match self {
            Version::Http1_1 => "HTTP/1.1"@,
        }
    }

    /// The version's wire token.
    pub fn token(&self) -> (r: String)
        ensures
            r@ == self.token_spec(),
    {
        match self {
            Version::Http1_1 => String::from_str("HTTP/1.1"),
        }
    }

    /// The version named by a token; any other token is refused.
    pub fn from_token(t: &Vec<char>) -> (r: Result<Version, ParseError>)
        ensures
            r == (match version_from_spec(t@) {
                Some(v) => Ok(v),
                None => Err(ParseError::UnsupportedVersion),
            }),
    {
        let v11 = chars_of("HTTP/1.1");
        assert(t@.subrange(0, t@.len() as int) =~= t@);
        if slice_equals(t, 0, t.len(), &v11) {
            Ok(Version::Http1_1)
        } else {
            Err(ParseError::UnsupportedVersion)
        }
    }
}

/// The version's token names that version.
pub proof fn lemma_version_token(v: Version)
    ensures
        version_from_spec(v.token_spec()) == Some(v),
{
}

/// Why raw text is not a request.
#[derive(PartialEq, Eq, Structural, Debug, Clone, Copy)]
pub enum ParseError {
    /// No line terminator after the start line.
    MissingStartLine,
    /// The start line does not hold exactly three space-separated tokens.
    MalformedStartLine,
    UnknownMethod,
    UnsupportedVersion,
    /// The header block is not closed by an empty line.
    UnterminatedHeaders,
    /// A header line without `": "`.
    MalformedHeader,
    /// A `Content-Length` value that is not a `usize`.
    InvalidContentLength,
    /// Fewer body bytes than `Content-Length` declares.
    TruncatedBody,
    /// `Content-Length` ends inside the encoding of a character.
    MisalignedBody,
}

/// The first line of a message, which also fixes its kind.
pub trait Startline {
    spec fn text_spec(&self) -> Seq<char>;

    /// The line as it appears on the wire, without its terminator.
    fn text(&self) -> (r: String)
        ensures
            r@ == self.text_spec(),
    ;
}

/// Index of the first entry at or after `i` whose key is `k`.
pub open spec fn key_index_from(e: Seq<(Seq<char>, Seq<char>)>, k: Seq<char>, i: int) -> Option<int>
    decreases e.len() - i,
{
    if i < 0 || i >= e.len() {
        None
    } else if e[i].0 == k {
        Some(i)
    } else {
        key_index_from(e, k, i + 1)
    }
}

pub open spec fn key_index(e: Seq<(Seq<char>, Seq<char>)>, k: Seq<char>) -> Option<int> {
    key_index_from(e, k, 0)
}

/// The value stored under `k`.
pub open spec fn lookup(e: Seq<(Seq<char>, Seq<char>)>, k: Seq<char>) -> Option<Seq<char>> {
    match key_index(e, k) {
        Some(i) => Some(e[i].1),
        None => None,
    }
}

/// Stores `v` under `k`: replaces the value of an existing key in place,
/// otherwise appends the pair.
pub open spec fn insert_spec(e: Seq<(Seq<char>, Seq<char>)>, k: Seq<char>, v: Seq<char>) -> Seq<
    (Seq<char>, Seq<char>),
> {
    match key_index(e, k) {
        Some(i) => e.update(i, (k, v)),
        None => e.push((k, v)),
    }
}

pub open spec fn keys_unique(e: Seq<(Seq<char>, Seq<char>)>) -> bool {
    forall|i: int, j: int| 0 <= i < e.len() && 0 <= j < e.len() && i != j ==> #[trigger] e[i].0 != #[trigger] e[j].0
}

pub proof fn lemma_key_index_from(e: Seq<(Seq<char>, Seq<char>)>, k: Seq<char>, i: int)
    requires
        0 <= i,
    ensures
        match key_index_from(e, k, i) {
            Some(j) => i <= j < e.len() && e[j].0 == k && forall|l: int| i <= l < j ==> e[l].0 != k,
            None => forall|l: int| i <= l < e.len() ==> e[l].0 != k,
        },
    decreases e.len() - i,
{
    if i < e.len() && e[i].0 != k {
        lemma_key_index_from(e, k, i + 1);
    }
}

pub proof fn lemma_insert_unique(e: Seq<(Seq<char>, Seq<char>)>, k: Seq<char>, v: Seq<char>)
    requires
        keys_unique(e),
    ensures
        keys_unique(insert_spec(e, k, v)),
        lookup(insert_spec(e, k, v), k) == Some(v),
{
    lemma_key_index_from(e, k, 0);
    let r = insert_spec(e, k, v);
    lemma_key_index_from(r, k, 0);
    match key_index(e, k) {
        Some(i) => {
            assert(r[i].0 == k);
        },
        None => {
            assert(r[e.len() as int].0 == k);
            assert(forall|l: int| 0 <= l < e.len() ==> r[l] == e[l]);
        },
    }
    assert(keys_unique(r));
}

/// The views of name/value pairs.
pub open spec fn pairs_view(v: Seq<(String, String)>) -> Seq<(Seq<char>, Seq<char>)> {
    v.map_values(|p: (String, String)| (p.0@, p.1@))
}

/// Header fields: pairs of name and value with unique, case-sensitive names.
pub struct Headers {
    entries: Vec<(String, String)>,
}

impl View for Headers {
    type V = Seq<(Seq<char>, Seq<char>)>;

    closed spec fn view(&self) -> Self::V {
        pairs_view(self.entries@)
    }
}

impl Headers {
    /// No two entries share a name.
    pub open spec fn wf(&self) -> bool {
        keys_unique(self@)
    }

    pub fn new() -> (r: Headers)
        ensures
            r@ == Seq::<(Seq<char>, Seq<char>)>::empty(),
            r.wf(),
    {
        let r = Headers { entries: Vec::new() };
        assert(r@ =~= Seq::<(Seq<char>, Seq<char>)>::empty());
        r
    }

    pub fn len(&self) -> (r: usize)
        ensures
            r == self@.len(),
    {
        self.entries.len()
    }

    fn index_of(&self, key: &String) -> (r: Option<usize>)
        ensures
            self@.len() == self.entries@.len(),
            match r {
                Some(i) => key_index(self@, key@) == Some(i as int) && i < self.entries@.len(),
                None => key_index(self@, key@) is None,
            },
    {
        proof {
            lemma_key_index_from(self@, key@, 0);
        }
        let mut i: usize = 0;
        while i < self.entries.len()
            invariant
                i <= self.entries.len(),
                key_index(self@, key@) == key_index_from(self@, key@, i as int),
            decreases self.entries.len() - i,
        {
            assert(self@[i as int].0 == self.entries@[i as int].0@);
            if self.entries[i].0 == *key {
                return Some(i);
            }
            i = i + 1;
        }
        None
    }

    /// The value stored under `key`.
    pub fn get(&self, key: &str) -> (r: Option<String>)
        ensures
            match r {
                Some(v) => lookup(self@, key@) == Some(v@),
                None => lookup(self@, key@) is None,
            },
    {
        let k = String::from_str(key);
        match self.index_of(&k) {
            Some(i) => Some(self.entries[i].1.clone()),
            None => None,
        }
    }

    /// Stores `value` under `key`, replacing an earlier value of that name.
    pub fn insert(&mut self, key: String, value: String)
        requires
            old(self).wf(),
        ensures
            final(self)@ == insert_spec(old(self)@, key@, value@),
            final(self).wf(),
    {
        proof {
            lemma_insert_unique(self@, key@, value@);
        }
        match self.index_of(&key) {
            Some(i) => {
                self.entries.set(i, (key, value));
            },
            None => {
                self.entries.push((key, value));
            },
        }
        assert(self@.len() == self.entries@.len());
        assert(self@ =~= insert_spec(old(self)@, key@, value@));
    }

    /// The pairs, in order.
    pub fn to_vec(&self) -> (r: Vec<(String, String)>)
        ensures
            pairs_view(r@) == self@,
    {
        let mut r: Vec<(String, String)> = Vec::new();
        let mut i: usize = 0;
        while i < self.entries.len()
            invariant
                i <= self.entries.len(),
                pairs_view(r@) == self@.take(i as int),
            decreases self.entries.len() - i,
        {
            let k = self.entries[i].0.clone();
            let v = self.entries[i].1.clone();
            let ghost before = r@;
            r.push((k, v));
            assert(pairs_view(r@) =~= pairs_view(before).push((k@, v@)));
            assert(self@[i as int] == (self.entries@[i as int].0@, self.entries@[i as int].1@));
            assert(pairs_view(r@) =~= self@.take(i + 1));
            i = i + 1;
        }
        assert(self@.take(i as int) =~= self@);
        r
    }
}

/// A message: start line, headers and optional body. The start line's type
/// fixes whether it is a request or a response.
pub struct HttpMessage<T: Startline> {
    pub start_line: T,
    pub headers: Headers,
    pub body: Option<String>,
}

pub type Request = HttpMessage<RequestLine>;

pub type Response = HttpMessage<StatusLine>;

pub open spec fn opt_view(o: Option<String>) -> Option<Seq<char>> {
    match o {
        Some(s) => Some(s@),
        None => None,
    }
}

/// The header line `k: v`.
pub open spec fn header_line(p: (Seq<char>, Seq<char>)) -> Seq<char> {
    p.0 + colon_sp() + p.1
}

/// Each pair's header line followed by a line terminator, in order.
pub open spec fn header_text(e: Seq<(Seq<char>, Seq<char>)>) -> Seq<char>
    decreases e.len(),
{
    if e.len() == 0 {
        Seq::empty()
    } else {
        header_line(e[0]) + crlf() + header_text(e.drop_first())
    }
}

/// The wire text of a message.
pub open spec fn wire_text(
    start: Seq<char>,
    e: Seq<(Seq<char>, Seq<char>)>,
    body: Option<Seq<char>>,
) -> Seq<char> {
    start + crlf() + header_text(e) + crlf() + match body {
        Some(b) => b,
        None => Seq::empty(),
    }
}

impl<T: Startline> HttpMessage<T> {
    pub fn new(start_line: T, headers: Headers, body: Option<String>) -> (r: Self)
        ensures
            r.start_line == start_line,
            r.headers == headers,
            r.body == body,
    {
        Self { start_line, headers, body }
    }

    /// Sets the body.
    pub fn write(&mut self, body: String)
        ensures
            final(self).body == Some(body),
            final(self).start_line == old(self).start_line,
            final(self).headers == old(self).headers,
    {
        self.body = Some(body);
    }

    /// The message as wire text.
    pub fn serialize(&self) -> (r: String)
        ensures
            r@ == wire_text(self.start_line.text_spec(), self.headers@, opt_view(self.body)),
    {
        let mut r = self.start_line.text();
        push_char(&mut r, '\r');
        push_char(&mut r, '\n');
        let ghost start = self.start_line.text_spec();
        let entries = self.headers.to_vec();
        let ghost e = self.headers@;
        let mut i: usize = 0;
        assert(e.skip(0) =~= e);
        while i < entries.len()
            invariant
                i <= entries.len(),
                pairs_view(entries@) == e,
                r@ + header_text(e.skip(i as int)) == start + crlf() + header_text(e),
            decreases entries.len() - i,
        {
            assert(entries@[i as int].0@ == e[i as int].0);
            assert(entries@[i as int].1@ == e[i as int].1);
            let ghost before = r@;
            r.append(entries[i].0.as_str());
            push_char(&mut r, ':');
            push_char(&mut r, ' ');
            r.append(entries[i].1.as_str());
            push_char(&mut r, '\r');
            push_char(&mut r, '\n');
            assert(e.skip(i as int).drop_first() =~= e.skip(i + 1));
            assert(e.skip(i as int)[0] == e[i as int]);
            assert(r@ =~= before + header_line(e[i as int]) + crlf());
            assert(r@ + header_text(e.skip(i + 1)) =~= before + header_text(e.skip(i as int)));
            i = i + 1;
        }
        assert(header_text(e.skip(i as int)) == Seq::<char>::empty());
        assert(r@ =~= start + crlf() + header_text(e));
        push_char(&mut r, '\r');
        push_char(&mut r, '\n');
        match &self.body {
            Some(b) => {
                r.append(b.as_str());
            },
            None => {},
        }
        assert(r@ =~= wire_text(start, e, opt_view(self.body)));
        r
    }
}

/// The name of the header that declares the body's length in bytes.
pub open spec fn content_length_name() -> Seq<char> {
    "Content-Length"@
}

/// A header line split once, at the first `": "`.
pub open spec fn header_pair(line: Seq<char>) -> Option<(Seq<char>, Seq<char>)> {
    match find(line, colon_sp()) {
        Some(i) => Some((line.take(i), line.skip(i + 2))),
        None => None,
    }
}

/// The headers that the lines give, each stored in turn.
pub open spec fn fold_headers(lines: Seq<Seq<char>>) -> Result<
    Seq<(Seq<char>, Seq<char>)>,
    ParseError,
>
    decreases lines.len(),
{
    if lines.len() == 0 {
        Ok(Seq::empty())
    } else {
        match fold_headers(lines.drop_last()) {
            Err(e) => Err(e),
            Ok(h) => match header_pair(lines.last()) {
                None => Err(ParseError::MalformedHeader),
                Some(p) => Ok(insert_spec(h, p.0, p.1)),
            },
        }
    }
}

/// The headers of a header block: its lines are separated by line terminators.
pub open spec fn headers_spec(block: Seq<char>) -> Result<Seq<(Seq<char>, Seq<char>)>, ParseError> {
    fold_headers(split(block, crlf()))
}

proof fn lemma_fold_err(lines: Seq<Seq<char>>, i: int)
    requires
        0 <= i <= lines.len(),
        fold_headers(lines.take(i)) is Err,
    ensures
        fold_headers(lines) == fold_headers(lines.take(i)),
    decreases lines.len() - i,
{
    if i < lines.len() {
        assert(lines.take(i + 1).drop_last() =~= lines.take(i));
        lemma_fold_err(lines, i + 1);
    } else {
        assert(lines.take(i) =~= lines);
    }
}

proof fn lemma_fold_unique(lines: Seq<Seq<char>>)
    ensures
        fold_headers(lines) matches Ok(h) ==> keys_unique(h),
    decreases lines.len(),
{
    if lines.len() > 0 {
        lemma_fold_unique(lines.drop_last());
        if let Ok(h) = fold_headers(lines.drop_last()) {
            if let Some(p) = header_pair(lines.last()) {
                lemma_insert_unique(h, p.0, p.1);
            }
        }
    }
}

/// Parses a header block given as characters.
pub fn header_block(block: &Vec<char>) -> (r: Result<Headers, ParseError>)
    ensures
        match r {
            Ok(h) => headers_spec(block@) == Ok::<_, ParseError>(h@) && h.wf(),
            Err(e) => headers_spec(block@) == Err::<Seq<(Seq<char>, Seq<char>)>, _>(e),
        },
{
    let cr = vec!['\r', '\n'];
    let cs = vec![':', ' '];
    assert(cr@ =~= crlf());
    assert(cs@ =~= colon_sp());
    let lines = split_pieces(block, &cr);
    let ghost all = views(lines@);
    let mut h = Headers::new();
    let mut i: usize = 0;
    assert(all.take(0) =~= Seq::<Seq<char>>::empty());
    while i < lines.len()
        invariant
            i <= lines.len(),
            all == views(lines@),
            all == split(block@, crlf()),
            all.len() == lines@.len(),
            cs@ == colon_sp(),
            h.wf(),
            fold_headers(all.take(i as int)) == Ok::<_, ParseError>(h@),
        decreases lines.len() - i,
    {
        let line = &lines[i];
        assert(all[i as int] == line@);
        assert(all.take(i + 1).drop_last() =~= all.take(i as int));
        assert(all.take(i + 1).last() == line@);
        proof {
            lemma_find_from(line@, colon_sp(), 0);
        }
        match find_at(line, &cs, 0) {
            None => {
                proof {
                    lemma_fold_err(all, i + 1);
                }
                return Err(ParseError::MalformedHeader);
            },
            Some(p) => {
                let k = string_of(line, 0, p);
                let v = string_of(line, p + 2, line.len());
                h.insert(k, v);
            },
        }
        i = i + 1;
    }
    assert(all.take(i as int) =~= all);
    Ok(h)
}

/// Parses a header block such as `Name: Value\r\nOther: Value`.
pub fn parse_headers(raw: &str) -> (r: Result<Headers, ParseError>)
    ensures
        match r {
            Ok(h) => headers_spec(raw@) == Ok::<_, ParseError>(h@) && h.wf(),
            Err(e) => headers_spec(raw@) == Err::<Seq<(Seq<char>, Seq<char>)>, _>(e),
        },
{
    let t = chars_of(raw);
    header_block(&t)
}

/// The number of bytes in the UTF-8 encoding of `c`.
pub open spec fn utf8_width(c: char) -> nat {
    encode_scalar(c as u32).len()
}

/// How many characters of `r` the first `n` bytes of its encoding cover.
pub open spec fn body_chars(r: Seq<char>, n: nat) -> Result<nat, ParseError>
    decreases r.len(),
{
    if n == 0 {
        Ok(0)
    } else if r.len() == 0 {
        Err(ParseError::TruncatedBody)
    } else if utf8_width(r[0]) > n {
        Err(ParseError::MisalignedBody)
    } else {
        match body_chars(r.drop_first(), (n - utf8_width(r[0])) as nat) {
            Ok(k) => Ok(k + 1),
            Err(e) => Err(e),
        }
    }
}

fn utf8_width_of(c: char) -> (w: usize)
    ensures
        w == utf8_width(c),
{
    let u = c as u32;
    proof {
        char_is_scalar(c);
    }
    if u < 0x80 {
        1
    } else if u < 0x800 {
        2
    } else if u < 0x10000 {
        3
    } else {
        4
    }
}

pub open spec fn shift_count(r: Result<nat, ParseError>, by: nat) -> Result<nat, ParseError> {
    match r {
        Ok(k) => Ok(k + by),
        Err(e) => Err(e),
    }
}

/// The number of leading characters of `r` that make up exactly `n` bytes.
pub fn body_prefix(r: &Vec<char>, n: usize) -> (res: Result<usize, ParseError>)
    ensures
        match res {
            Ok(k) => body_chars(r@, n as nat) == Ok::<nat, ParseError>(k as nat) && k <= r.len(),
            Err(e) => body_chars(r@, n as nat) == Err::<nat, _>(e),
        },
{
    let mut i: usize = 0;
    let mut m: usize = n;
    assert(r@.subrange(0, r@.len() as int) =~= r@);
    while m > 0
        invariant
            i <= r.len(),
            body_chars(r@, n as nat) == shift_count(
                body_chars(r@.subrange(i as int, r@.len() as int), m as nat),
                i as nat,
            ),
        decreases m,
    {
        let ghost cur = r@.subrange(i as int, r@.len() as int);
        if i == r.len() {
            return Err(ParseError::TruncatedBody);
        }
        let w = utf8_width_of(r[i]);
        assert(cur[0] == r@[i as int]);
        if w > m {
            return Err(ParseError::MisalignedBody);
        }
        assert(cur.drop_first() =~= r@.subrange(i + 1, r@.len() as int));
        m = m - w;
        i = i + 1;
    }
    Ok(i)
}

/// What a request is made of, as values.
pub struct RequestModel {
    pub line: (Method, Seq<char>, Version),
    pub headers: Seq<(Seq<char>, Seq<char>)>,
    pub body: Option<Seq<char>>,
}

/// What raw text parses to: a request line ended by a line terminator; then
/// either a second line terminator (no headers, no body) or a header block
/// ended by an empty line; then, where `Content-Length` is present, exactly
/// that many bytes of body, further bytes being ignored.
pub open spec fn parse_spec(t: Seq<char>) -> Result<RequestModel, ParseError> {
    match find(t, crlf()) {
        None => Err(ParseError::MissingStartLine),
        Some(i) => match request_line_spec(t.take(i)) {
            Err(e) => Err(e),
            Ok(line) => {
                let rest = t.skip(i + 2);
                if occurs_at(rest, crlf(), 0) {
                    Ok(RequestModel { line, headers: Seq::empty(), body: None })
                } else {
                    match find(rest, crlf2()) {
                        None => Err(ParseError::UnterminatedHeaders),
                        Some(j) => match headers_spec(rest.take(j)) {
                            Err(e) => Err(e),
                            Ok(h) => match lookup(h, content_length_name()) {
                                None => Ok(RequestModel { line, headers: h, body: None }),
                                Some(v) => match parse_usize_spec(v) {
                                    None => Err(ParseError::InvalidContentLength),
                                    Some(n) => {
                                        let tail = rest.skip(j + 4);
                                        match body_chars(tail, n as nat) {
                                            Err(e) => Err(e),
                                            Ok(k) => Ok(
                                                RequestModel {
                                                    line,
                                                    headers: h,
                                                    body: Some(tail.take(k as int)),
                                                },
                                            ),
                                        }
                                    },
                                },
                            },
                        },
                    }
                }
            },
        },
    }
}

impl HttpMessage<RequestLine> {
    pub open spec fn model(&self) -> RequestModel {
        RequestModel {
            line: self.start_line.parts(),
            headers: self.headers@,
            body: opt_view(self.body),
        }
    }

    /// Parses raw request text.
    pub fn parse(raw: &str) -> (r: Result<Request, ParseError>)
        ensures
            match r {
                Ok(m) => parse_spec(raw@) == Ok::<_, ParseError>(m.model()) && m.headers.wf(),
                Err(e) => parse_spec(raw@) == Err::<RequestModel, _>(e),
            },
    {
        let t = chars_of(raw);
        let cr = vec!['\r', '\n'];
        let cr2 = vec!['\r', '\n', '\r', '\n'];
        assert(cr@ =~= crlf());
        assert(cr2@ =~= crlf2());
        proof {
            lemma_find_from(t@, crlf(), 0);
        }
        let i = match find_at(&t, &cr, 0) {
            None => {
                return Err(ParseError::MissingStartLine);
            },
            Some(i) => i,
        };
        assert(occurs_at(t@, crlf(), i as int));
        assert(crlf().len() == 2);
        assert(i + 2 <= t@.len());
        let n = t.len();
        let rest = sub_vec(&t, i + 2, n);
        let line_chars = sub_vec(&t, 0, i);
        let line = match RequestLine::from_chars(&line_chars) {
            Ok(l) => l,
            Err(e) => {
                return Err(e);
            },
        };
        assert(rest@ =~= t@.skip(i + 2));
        if matches_at(&rest, &cr, 0) {
            let h = Headers::new();
            return Ok(Request::new(line, h, None));
        }
        proof {
            lemma_find_from(rest@, crlf2(), 0);
        }
        let j = match find_at(&rest, &cr2, 0) {
            None => {
                return Err(ParseError::UnterminatedHeaders);
            },
            Some(j) => j,
        };
        let block = sub_vec(&rest, 0, j);
        let headers = match header_block(&block) {
            Ok(h) => h,
            Err(e) => {
                return Err(e);
            },
        };
        match headers.get("Content-Length") {
            None => Ok(Request::new(line, headers, None)),
            Some(v) => {
                let vc = chars_of(v.as_str());
                assert(vc@.subrange(0, vc@.len() as int) =~= vc@);
                match parse_usize(&vc, 0, vc.len()) {
                    None => Err(ParseError::InvalidContentLength),
                    Some(n) => {
                        let tail = sub_vec(&rest, j + 4, rest.len());
                        assert(tail@ =~= rest@.skip(j + 4));
                        match body_prefix(&tail, n) {
                            Err(e) => Err(e),
                            Ok(k) => {
                                let body = string_of(&tail, 0, k);
                                Ok(Request::new(line, headers, Some(body)))
                            },
                        }
                    },
                }
            },
        }
    }
}

} // verus!
