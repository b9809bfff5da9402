//! Parsing the text that serialising a request produces gives the request
//! back.
use vstd::prelude::*;
use vstd::utf8::encode_utf8;

use crate::message::{
    body_chars, content_length_name, fold_headers, header_line, header_pair, header_text,
    headers_spec, key_index, key_index_from, keys_unique, lemma_key_index_from, lookup,
    opt_view, parse_spec, utf8_width, wire_text, insert_spec, ParseError, Request,
};
use crate::request::{method_from_spec, request_line_spec, request_line_text, Method};
use crate::message::{version_from_spec, Startline, Version};
use crate::text::{
    colon_sp, crlf, crlf2, find, lemma_find_from_at, lemma_split_cons, lemma_split_single,
    occurs_at, parse_usize_spec, split,
};

verus! {

/// `s` holds a line terminator.
pub open spec fn has_crlf(s: Seq<char>) -> bool {
    exists|i: int| 0 <= i && i + 1 < s.len() && #[trigger] s[i] == '\r' && s[i + 1] == '\n'
}

/// `s` holds the separator between a header's name and value.
pub open spec fn has_colon_sp(s: Seq<char>) -> bool {
    exists|i: int| 0 <= i && i + 1 < s.len() && #[trigger] s[i] == ':' && s[i + 1] == ' '
}

/// The body agrees with `Content-Length`: there is a body exactly where the
/// header is present, and the header's value is the body's length in bytes.
pub open spec fn body_agrees(e: Seq<(Seq<char>, Seq<char>)>, body: Option<Seq<char>>) -> bool {
    match lookup(e, content_length_name()) {
        None => body is None,
        Some(v) => body matches Some(b) && encode_utf8(b).len() <= usize::MAX && parse_usize_spec(v)
            == Some(encode_utf8(b).len() as usize),
    }
}

proof fn lemma_occurs_one(s: Seq<char>, c: char, i: int)
    ensures
        occurs_at(s, seq![c], i) <==> (0 <= i < s.len() && s[i] == c),
{
    if 0 <= i < s.len() {
        if s[i] == c {
            assert(s.subrange(i, i + 1) =~= seq![c]);
        } else if s.subrange(i, i + 1) == seq![c] {
            assert(s.subrange(i, i + 1)[0] == c);
        }
    }
}

proof fn lemma_occurs_two(s: Seq<char>, a: char, b: char, i: int)
    ensures
        occurs_at(s, seq![a, b], i) <==> (0 <= i && i + 2 <= s.len() && s[i] == a && s[i + 1]
            == b),
{
    if 0 <= i && i + 2 <= s.len() {
        if s[i] == a && s[i + 1] == b {
            assert(s.subrange(i, i + 2) =~= seq![a, b]);
        } else if s.subrange(i, i + 2) == seq![a, b] {
            assert(s.subrange(i, i + 2)[0] == a);
            assert(s.subrange(i, i + 2)[1] == b);
        }
    }
}

proof fn lemma_occurs_crlf2(s: Seq<char>, i: int)
    ensures
        occurs_at(s, crlf2(), i) ==> (0 <= i && i + 4 <= s.len() && s[i] == '\r' && s[i + 1]
            == '\n' && s[i + 2] == '\r' && s[i + 3] == '\n'),
{
    if occurs_at(s, crlf2(), i) {
        assert(s.subrange(i, i + 4)[0] == '\r');
        assert(s.subrange(i, i + 4)[1] == '\n');
        assert(s.subrange(i, i + 4)[2] == '\r');
        assert(s.subrange(i, i + 4)[3] == '\n');
    }
}

proof fn lemma_no_crlf_concat(a: Seq<char>, b: Seq<char>)
    requires
        !has_crlf(a),
        !has_crlf(b),
        a.len() == 0 || b.len() == 0 || !(a.last() == '\r' && b[0] == '\n'),
    ensures
        !has_crlf(a + b),
{
    let s = a + b;
    assert forall|i: int| 0 <= i && i + 1 < s.len() implies !(#[trigger] s[i] == '\r' && s[i + 1]
        == '\n') by {
        if i + 1 < a.len() {
            assert(s[i] == a[i] && s[i + 1] == a[i + 1]);
        } else if i >= a.len() {
            assert(s[i] == b[i - a.len()] && s[i + 1] == b[i + 1 - a.len()]);
        } else {
            assert(s[i] == a.last());
            assert(s[i + 1] == b[0]);
        }
    }
}

/// The request line holds no line terminator and does not end in `\r`, and
/// it parses to its parts.
proof fn lemma_request_line(m: Method, t: Seq<char>, v: Version)
    requires
        !has_crlf(t),
        forall|i: int| 0 <= i < t.len() ==> t[i] != ' ',
    ensures
        !has_crlf(request_line_text(m, t, v)),
        request_line_text(m, t, v).len() > 0,
        request_line_text(m, t, v).last() != '\r',
        request_line_spec(request_line_text(m, t, v)) == Ok::<_, ParseError>((m, t, v)),
{
    reveal_strlit("GET");
    reveal_strlit("POST");
    reveal_strlit("HTTP/1.1");
    let tok = m.token_spec();
    let vt = v.token_spec();
    let sp = seq![' '];
    let l = request_line_text(m, t, v);
    assert(forall|i: int| 0 <= i < tok.len() ==> tok[i] != ' ' && tok[i] != '\r');
    assert(forall|i: int| 0 <= i < vt.len() ==> vt[i] != ' ' && vt[i] != '\r');
    assert(!has_crlf(tok));
    assert(!has_crlf(vt));
    assert(!has_crlf(sp));
    lemma_no_crlf_concat(tok, sp);
    lemma_no_crlf_concat(tok + sp, t);
    lemma_no_crlf_concat(tok + sp + t, sp);
    lemma_no_crlf_concat(tok + sp + t + sp, vt);
    assert(l.last() == vt.last());
    let rest = t + sp + vt;
    assert(l =~= tok + sp + rest);
    assert forall|k: int| 0 <= k < tok.len() implies !occurs_at(tok + sp + rest, sp, k) by {
        lemma_occurs_one(tok + sp + rest, ' ', k);
        assert((tok + sp + rest)[k] == tok[k]);
    }
    lemma_split_cons(tok, rest, sp);
    assert forall|k: int| 0 <= k < t.len() implies !occurs_at(t + sp + vt, sp, k) by {
        lemma_occurs_one(t + sp + vt, ' ', k);
        assert((t + sp + vt)[k] == t[k]);
    }
    lemma_split_cons(t, vt, sp);
    assert forall|k: int| 0 <= k <= vt.len() implies !occurs_at(vt, sp, k) by {
        lemma_occurs_one(vt, ' ', k);
    }
    lemma_split_single(vt, sp);
    assert(split(l, sp) =~= seq![tok, t, vt]);
    assert(method_from_spec(tok) == Some(m));
    assert(version_from_spec(vt) == Some(v));
}

/// The header lines joined by line terminators, without a final one.
pub open spec fn joined(e: Seq<(Seq<char>, Seq<char>)>) -> Seq<char>
    decreases e.len(),
{
    if e.len() == 0 {
        Seq::empty()
    } else if e.len() == 1 {
        header_line(e[0])
    } else {
        header_line(e[0]) + crlf() + joined(e.drop_first())
    }
}

/// The header lines, in order.
pub open spec fn lines_of(e: Seq<(Seq<char>, Seq<char>)>) -> Seq<Seq<char>> {
    e.map_values(|p: (Seq<char>, Seq<char>)| header_line(p))
}

proof fn lemma_header_text_joined(e: Seq<(Seq<char>, Seq<char>)>)
    requires
        e.len() > 0,
    ensures
        header_text(e) == joined(e) + crlf(),
    decreases e.len(),
{
    if e.len() == 1 {
        assert(e.drop_first().len() == 0);
        assert(header_text(e.drop_first()) == Seq::<char>::empty());
        assert(header_text(e) =~= joined(e) + crlf());
    } else {
        lemma_header_text_joined(e.drop_first());
        assert(header_text(e) =~= joined(e) + crlf());
    }
}

proof fn lemma_joined_starts(e: Seq<(Seq<char>, Seq<char>)>)
    requires
        e.len() > 0,
    ensures
        joined(e).len() >= header_line(e[0]).len(),
        forall|i: int| 0 <= i < header_line(e[0]).len() ==> #[trigger] joined(e)[i] == header_line(e[0])[i],
{
}

proof fn lemma_line_no_crlf(p: (Seq<char>, Seq<char>))
    requires
        !has_crlf(p.0),
        !has_crlf(p.1),
    ensures
        !has_crlf(header_line(p)),
        header_line(p).len() >= 2,
{
    let c = colon_sp();
    assert(!has_crlf(c));
    lemma_no_crlf_concat(p.0, c);
    lemma_no_crlf_concat(p.0 + c, p.1);
}

/// In the header block followed by the blank line and the body, the first
/// end-of-headers marker is the one right after the last header line.
proof fn lemma_no_marker_before(e: Seq<(Seq<char>, Seq<char>)>, bt: Seq<char>)
    requires
        e.len() > 0,
        forall|i: int| 0 <= i < e.len() ==> !has_crlf(#[trigger] header_line(e[i])),
        forall|i: int| 0 <= i < e.len() ==> header_line(#[trigger] e[i]).len() >= 2,
    ensures
        forall|k: int| 0 <= k < joined(e).len() ==> !occurs_at(joined(e) + crlf2() + bt, crlf2(), k),
        occurs_at(joined(e) + crlf2() + bt, crlf2(), joined(e).len() as int),
    decreases e.len(),
{
    let l = header_line(e[0]);
    let y = joined(e) + crlf2() + bt;
    let n = joined(e).len() as int;
    assert(y.subrange(n, n + 4) =~= crlf2());
    assert(!has_crlf(l));
    if e.len() == 1 {
        assert(y =~= l + crlf2() + bt);
        assert forall|k: int| 0 <= k < n implies !occurs_at(y, crlf2(), k) by {
            lemma_occurs_crlf2(y, k);
            if k + 1 < l.len() {
                assert(y[k] == l[k] && y[k + 1] == l[k + 1]);
            } else {
                assert(y[k + 1] == '\r');
            }
        }
    } else {
        let e2 = e.drop_first();
        assert(forall|i: int| 0 <= i < e2.len() ==> e2[i] == e[i + 1]);
        lemma_no_marker_before(e2, bt);
        let y2 = joined(e2) + crlf2() + bt;
        assert(y =~= l + crlf() + y2);
        lemma_joined_starts(e2);
        let l2 = header_line(e2[0]);
        assert(!has_crlf(l2));
        assert(l2.len() >= 2);
        assert(y2[0] == l2[0] && y2[1] == l2[1]);
        assert forall|k: int| 0 <= k < n implies !occurs_at(y, crlf2(), k) by {
            lemma_occurs_crlf2(y, k);
            if k + 1 < l.len() {
                assert(y[k] == l[k] && y[k + 1] == l[k + 1]);
            } else if k + 1 == l.len() {
                assert(y[k + 1] == '\r');
            } else if k == l.len() {
                assert(y[k + 2] == y2[0] && y[k + 3] == y2[1]);
            } else if k == l.len() + 1 {
                assert(y[k] == '\n');
            } else {
                let k2 = k - l.len() - 2;
                assert(!occurs_at(y2, crlf2(), k2));
                assert(y.subrange(k, k + 4) =~= y2.subrange(k2, k2 + 4));
            }
        }
    }
}

proof fn lemma_split_joined(e: Seq<(Seq<char>, Seq<char>)>)
    requires
        e.len() > 0,
        forall|i: int| 0 <= i < e.len() ==> !has_crlf(#[trigger] header_line(e[i])),
    ensures
        split(joined(e), crlf()) == lines_of(e),
    decreases e.len(),
{
    let l = header_line(e[0]);
    assert(!has_crlf(l));
    if e.len() == 1 {
        assert forall|k: int| 0 <= k <= l.len() implies !occurs_at(l, crlf(), k) by {
            lemma_occurs_two(l, '\r', '\n', k);
        }
        lemma_split_single(l, crlf());
        assert(lines_of(e) =~= seq![l]);
    } else {
        let e2 = e.drop_first();
        assert(forall|i: int| 0 <= i < e2.len() ==> e2[i] == e[i + 1]);
        lemma_split_joined(e2);
        let j2 = joined(e2);
        assert forall|k: int| 0 <= k < l.len() implies !occurs_at(l + crlf() + j2, crlf(), k) by {
            lemma_occurs_two(l + crlf() + j2, '\r', '\n', k);
            if k + 1 < l.len() {
                assert((l + crlf() + j2)[k] == l[k] && (l + crlf() + j2)[k + 1] == l[k + 1]);
            } else {
                assert((l + crlf() + j2)[k + 1] == '\r');
            }
        }
        lemma_split_cons(l, j2, crlf());
        assert(lines_of(e) =~= seq![l] + lines_of(e2));
    }
}

proof fn lemma_header_pair(p: (Seq<char>, Seq<char>))
    requires
        !has_colon_sp(p.0),
    ensures
        header_pair(header_line(p)) == Some(p),
{
    let l = header_line(p);
    let n = p.0.len() as int;
    assert(l.subrange(n, n + 2) =~= colon_sp());
    assert forall|k: int| 0 <= k < n implies !occurs_at(l, colon_sp(), k) by {
        lemma_occurs_two(l, ':', ' ', k);
        if k + 1 < n {
            assert(l[k] == p.0[k] && l[k + 1] == p.0[k + 1]);
        } else {
            assert(l[k + 1] == ':');
        }
    }
    lemma_find_from_at(l, colon_sp(), 0, n);
    assert(l.take(n) =~= p.0);
    assert(l.skip(n + 2) =~= p.1);
}

proof fn lemma_fold_lines(e: Seq<(Seq<char>, Seq<char>)>, n: int)
    requires
        0 <= n <= e.len(),
        keys_unique(e),
        forall|i: int| 0 <= i < e.len() ==> !has_colon_sp(#[trigger] e[i].0),
    ensures
        fold_headers(lines_of(e.take(n))) == Ok::<_, ParseError>(e.take(n)),
    decreases n,
{
    if n == 0 {
        assert(lines_of(e.take(0)) =~= Seq::<Seq<char>>::empty());
        assert(e.take(0) =~= Seq::<(Seq<char>, Seq<char>)>::empty());
    } else {
        lemma_fold_lines(e, n - 1);
        let ls = lines_of(e.take(n));
        assert(ls.drop_last() =~= lines_of(e.take(n - 1)));
        assert(ls.last() == header_line(e[n - 1]));
        lemma_header_pair(e[n - 1]);
        let prev = e.take(n - 1);
        lemma_key_index_from(prev, e[n - 1].0, 0);
        if key_index(prev, e[n - 1].0) is Some {
            let j = key_index(prev, e[n - 1].0)->0;
            assert(e[j].0 == e[n - 1].0);
        }
        assert(insert_spec(prev, e[n - 1].0, e[n - 1].1) =~= e.take(n));
    }
}

proof fn lemma_body_exact(b: Seq<char>)
    ensures
        body_chars(b, encode_utf8(b).len()) == Ok::<nat, ParseError>(b.len()),
    decreases b.len(),
{
    if b.len() > 0 {
        lemma_body_exact(b.drop_first());
        assert(utf8_width(b[0]) >= 1);
        assert(encode_utf8(b).len() == utf8_width(b[0]) + encode_utf8(b.drop_first()).len());
    }
}

proof fn lemma_after_start_line(l: Seq<char>, rest: Seq<char>)
    requires
        !has_crlf(l),
        l.len() > 0,
        l.last() != '\r',
    ensures
        find(l + crlf() + rest, crlf()) == Some(l.len() as int),
        (l + crlf() + rest).take(l.len() as int) == l,
        (l + crlf() + rest).skip(l.len() + 2 as int) == rest,
{
    let w = l + crlf() + rest;
    assert(w.subrange(l.len() as int, l.len() + 2 as int) =~= crlf());
    assert forall|k: int| 0 <= k < l.len() implies !occurs_at(w, crlf(), k) by {
        lemma_occurs_two(w, '\r', '\n', k);
        if k + 1 < l.len() {
            assert(w[k] == l[k] && w[k + 1] == l[k + 1]);
        } else {
            assert(w[k] == l.last());
        }
    }
    lemma_find_from_at(w, crlf(), 0, l.len() as int);
    assert(w.take(l.len() as int) =~= l);
    assert(w.skip(l.len() + 2 as int) =~= rest);
}

/// Where there are headers, the text after the start line opens with a
/// header line, its block ends at the first marker and parses to the pairs,
/// and the body text follows the marker.
proof fn lemma_header_section(e: Seq<(Seq<char>, Seq<char>)>, bt: Seq<char>)
    requires
        e.len() > 0,
        keys_unique(e),
        forall|i: int|
            0 <= i < e.len() ==> !has_crlf(#[trigger] e[i].0) && !has_crlf(e[i].1) && !has_colon_sp(
                e[i].0,
            ),
    ensures
        !occurs_at(header_text(e) + crlf() + bt, crlf(), 0),
        find(header_text(e) + crlf() + bt, crlf2()) == Some(joined(e).len() as int),
        (header_text(e) + crlf() + bt).take(joined(e).len() as int) == joined(e),
        headers_spec(joined(e)) == Ok::<_, ParseError>(e),
        (header_text(e) + crlf() + bt).skip(joined(e).len() + 4 as int) == bt,
{
    let rest = header_text(e) + crlf() + bt;
    assert forall|i: int| 0 <= i < e.len() implies !has_crlf(#[trigger] header_line(e[i]))
        && header_line(e[i]).len() >= 2 by {
        lemma_line_no_crlf(e[i]);
    }
    lemma_header_text_joined(e);
    let j = joined(e);
    assert(rest =~= j + crlf2() + bt);
    lemma_joined_starts(e);
    let l0 = header_line(e[0]);
    assert(!has_crlf(l0));
    assert(rest[0] == l0[0] && rest[1] == l0[1]);
    lemma_occurs_two(rest, '\r', '\n', 0);
    lemma_no_marker_before(e, bt);
    lemma_find_from_at(rest, crlf2(), 0, j.len() as int);
    assert(rest.take(j.len() as int) =~= j);
    lemma_split_joined(e);
    assert forall|i: int| 0 <= i < e.len() implies !has_colon_sp(#[trigger] e[i].0) by {}
    lemma_fold_lines(e, e.len() as int);
    assert(e.take(e.len() as int) =~= e);
    assert(lines_of(e.take(e.len() as int)) =~= lines_of(e));
    assert(rest.skip(j.len() + 4 as int) =~= bt);
}

/// Serialising a request and parsing the text gives back the same start
/// line, headers and body, provided the target holds no space, no name,
/// value or target holds a line terminator, no name holds `": "`, and the
/// body agrees with `Content-Length`.
pub proof fn lemma_request_round_trip(req: Request)
    requires
        req.headers.wf(),
        !has_crlf(req.start_line.target@),
        forall|i: int| 0 <= i < req.start_line.target@.len() ==> req.start_line.target@[i] != ' ',
        forall|i: int|
            0 <= i < req.headers@.len() ==> !has_crlf(#[trigger] req.headers@[i].0) && !has_crlf(
                req.headers@[i].1,
            ) && !has_colon_sp(req.headers@[i].0),
        body_agrees(req.headers@, opt_view(req.body)),
    ensures
        parse_spec(wire_text(req.start_line.text_spec(), req.headers@, opt_view(req.body)))
            == Ok::<_, ParseError>(req.model()),
{
    let m = req.start_line.method;
    let t = req.start_line.target@;
    let v = req.start_line.version;
    let e = req.headers@;
    let body = opt_view(req.body);
    let bt = match body {
        Some(b) => b,
        None => Seq::<char>::empty(),
    };
    let l = request_line_text(m, t, v);
    lemma_request_line(m, t, v);
    let rest = header_text(e) + crlf() + bt;
    assert(wire_text(l, e, body) =~= l + crlf() + rest);
    lemma_after_start_line(l, rest);
    if e.len() == 0 {
        assert(header_text(e) == Seq::<char>::empty());
        assert(rest.subrange(0, 2) =~= crlf());
        assert(key_index_from(e, content_length_name(), 0) is None);
        assert(e =~= Seq::<(Seq<char>, Seq<char>)>::empty());
    } else {
        lemma_header_section(e, bt);
        if let Some(b) = body {
            lemma_body_exact(b);
            assert(bt.take(b.len() as int) =~= b);
        }
    }
}

proof fn lemma_body_chars_bytes(r: Seq<char>, n: nat)
    ensures
        body_chars(r, n) matches Ok(k) ==> k <= r.len() && encode_utf8(r.take(k as int)).len() == n,
    decreases r.len(),
{
    if n > 0 && r.len() > 0 && utf8_width(r[0]) <= n {
        let w = utf8_width(r[0]);
        lemma_body_chars_bytes(r.drop_first(), (n - w) as nat);
        if let Ok(k) = body_chars(r.drop_first(), (n - w) as nat) {
            assert(r.take(k + 1 as int).drop_first() =~= r.drop_first().take(k as int));
            assert(r.take(k + 1 as int)[0] == r[0]);
        }
    } else if n == 0 {
        assert(r.take(0).len() == 0);
    }
}

/// A parsed body agrees with `Content-Length`: there is a body exactly where
/// the header is present, and its length in bytes is the header's value.
pub proof fn lemma_parsed_body_agrees(t: Seq<char>)
    ensures
        parse_spec(t) matches Ok(m) ==> body_agrees(m.headers, m.body),
{
    if let Ok(m) = parse_spec(t) {
        if let Some(b) = m.body {
            let i = find(t, crlf())->0;
            let rest = t.skip(i + 2);
            let j = find(rest, crlf2())->0;
            let tail = rest.skip(j + 4);
            let n = parse_usize_spec(lookup(m.headers, content_length_name())->0)->0;
            lemma_body_chars_bytes(tail, n as nat);
        }
    }
}

} // verus!
