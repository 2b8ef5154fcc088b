use vstd::prelude::*;

use crate::text::{
    byte_pieces, byte_views, bytes_eq, copy_range, find_pair, first_pair, pairs_view, parse_usize,
    pieces, split_prefix, usize_of, utf8,
};

verus! {

/// The text that bytes decode to as UTF-8, each invalid sequence replaced by
/// U+FFFD.
pub uninterp spec fn lossy_text(b: Seq<u8>) -> Seq<char>;

/// Relies on `String::from_utf8_lossy`: the decoded text depends on the bytes
/// alone, and it is empty exactly when the bytes are.
#[verifier::external_body]
fn decode(b: &[u8]) -> (r: String)
    ensures
        r@ == lossy_text(b@),
        r@.len() == 0 <==> b@.len() == 0,
{
    String::from_utf8_lossy(b).into_owned()
}

/// An incoming request.
pub struct Request {
    pub headers: Vec<(String, String)>,
    pub path_parameters: Vec<(String, String)>,
    pub method: String,
    pub path: String,
    pub body: Option<String>,
}

/// A request as values: method, path, headers in order, named path
/// parameters in binding order, and the body.
pub struct RequestView {
    pub method: Seq<char>,
    pub path: Seq<char>,
    pub headers: Seq<(Seq<char>, Seq<char>)>,
    pub params: Seq<(Seq<char>, Seq<char>)>,
    pub body: Option<Seq<char>>,
}

impl View for Request {
    type V = RequestView;

    open spec fn view(&self) -> RequestView {
        RequestView {
            method: self.method@,
            path: self.path@,
            headers: pairs_view(self.headers@),
            params: pairs_view(self.path_parameters@),
            body: match self.body {
                Some(b) => Some(b@),
                None => None,
            },
        }
    }
}

/// Why a request could not be parsed.
#[derive(Debug, PartialEq, Eq, Clone, Copy, Structural)]
pub enum ParseError {
    /// The request line lacks a method or a path.
    MalformedRequestLine,
}

/// The lines of the head, reading on from a line that began at `start` with
/// the scan at `i`: lines end at CRLF and the head ends at an empty line, whose
/// end is where the body begins. Without an empty line there is no body
/// start, and bytes after the last CRLF form a last line.
pub open spec fn head_lines(s: Seq<u8>, start: int, i: int) -> (Seq<Seq<u8>>, Option<int>)
    decreases s.len() - i,
{
    if i < 0 || i + 1 >= s.len() {
        if 0 <= start < s.len() {
            (seq![s.subrange(start, s.len() as int)], None)
        } else {
            (Seq::empty(), None)
        }
    } else if s[i] == 13 && s[i + 1] == 10 {
        if i == start {
            (Seq::empty(), Some(i + 2))
        } else {
            let (rest, b) = head_lines(s, i + 2, i + 2);
            (seq![s.subrange(start, i)] + rest, b)
        }
    } else {
        head_lines(s, start, i + 1)
    }
}

/// A header line split at its first `": "` into name and value.
pub open spec fn header_field(line: Seq<u8>) -> Option<(Seq<u8>, Seq<u8>)> {
    match first_pair(line, 58, 32, 0) {
        Some(j) => Some((line.subrange(0, j), line.subrange(j + 2, line.len() as int))),
        None => None,
    }
}

/// The fields of header lines, in order; a line without `": "` gives none.
pub open spec fn header_fields(lines: Seq<Seq<u8>>) -> Seq<(Seq<u8>, Seq<u8>)>
    decreases lines.len(),
{
    if lines.len() == 0 {
        Seq::empty()
    } else {
        let prev = header_fields(lines.drop_last());
        match header_field(lines.last()) {
            Some(f) => prev.push(f),
            None => prev,
        }
    }
}

/// The name of the header that gives the body's length.
pub open spec fn content_length_name() -> Seq<u8> {
    utf8("Content-Length"@)
}

/// The body length that the first `Content-Length` field from `i` on
/// declares; 0 where there is none or its value is not an unsigned integer.
pub open spec fn content_length(fields: Seq<(Seq<u8>, Seq<u8>)>, i: int) -> usize
    decreases fields.len() - i,
{
    if i < 0 || i >= fields.len() {
        0
    } else if fields[i].0 == content_length_name() {
        match usize_of(fields[i].1) {
            Some(v) => v,
            None => 0,
        }
    } else {
        content_length(fields, i + 1)
    }
}

pub open spec fn decode_fields(f: Seq<(Seq<u8>, Seq<u8>)>) -> Seq<(Seq<char>, Seq<char>)> {
    f.map_values(|p: (Seq<u8>, Seq<u8>)| (lossy_text(p.0), lossy_text(p.1)))
}

pub open spec fn byte_pairs(v: Seq<(Vec<u8>, Vec<u8>)>) -> Seq<(Seq<u8>, Seq<u8>)> {
    v.map_values(|p: (Vec<u8>, Vec<u8>)| (p.0@, p.1@))
}

/// The request that raw bytes hold, if its request line has a method and a
/// path (space-separated tokens; the version is ignored). Headers are the
/// `name: value` lines up to the first empty line. The body is present only
/// when a positive length is declared and that many bytes follow the empty
/// line; exactly that many are taken.
pub open spec fn request_of(s: Seq<u8>) -> Option<RequestView> {
    let (lines, body_start) = head_lines(s, 0, 0);
    if lines.len() == 0 || pieces(lines[0], 32u8).len() < 2 {
        None
    } else {
        let tokens = pieces(lines[0], 32u8);
        let fields = header_fields(lines.drop_first());
        let n = content_length(fields, 0);
        let body = match body_start {
            Some(b) => if n > 0 && b + n <= s.len() {
                Some(lossy_text(s.subrange(b, b + n)))
            } else {
                None
            },
            None => None,
        };
        Some(
            RequestView {
                method: lossy_text(tokens[0]),
                path: lossy_text(tokens[1]),
                headers: decode_fields(fields),
                params: Seq::empty(),
                body,
            },
        )
    }
}

/// Splits the head into lines and finds where the body begins.
fn split_head(s: &[u8]) -> (r: (Vec<Vec<u8>>, Option<usize>))
    ensures
        (byte_views(r.0@), match r.1 {
            Some(b) => Some(b as int),
            None => None,
        }) == head_lines(s@, 0, 0),
{
    let ghost whole = head_lines(s@, 0, 0);
    let mut lines: Vec<Vec<u8>> = Vec::new();
    let mut start: usize = 0;
    let mut i: usize = 0;
    while s.len() - i > 1
        invariant
            start <= i <= s@.len(),
            whole == head_lines(s@, 0, 0),
            whole == (byte_views(lines@) + head_lines(s@, start as int, i as int).0, head_lines(
                s@,
                start as int,
                i as int,
            ).1),
        decreases s@.len() - i,
    {
        if s[i] == 13 && s[i + 1] == 10 {
            if i == start {
                assert(byte_views(lines@) + Seq::empty() =~= byte_views(lines@));
                return (lines, Some(i + 2));
            }
            let ghost before = byte_views(lines@);
            let line = copy_range(s, start, i);
            lines.push(line);
            assert(byte_views(lines@) =~= before.push(s@.subrange(start as int, i as int)));
            let ghost rest = head_lines(s@, i + 2, i + 2).0;
            assert(before + (seq![s@.subrange(start as int, i as int)] + rest) =~= byte_views(lines@)
                + rest);
            i = i + 2;
            start = i;
        } else {
            i = i + 1;
        }
    }
    let ghost before = byte_views(lines@);
    if start < s.len() {
        let line = copy_range(s, start, s.len());
        lines.push(line);
        assert(byte_views(lines@) =~= before + seq![s@.subrange(start as int, s@.len() as int)]);
    } else {
        assert(byte_views(lines@) =~= before + Seq::empty());
    }
    (lines, None)
}

/// The header fields of the head's lines after the request line.
fn fields_of(lines: &Vec<Vec<u8>>) -> (fields: Vec<(Vec<u8>, Vec<u8>)>)
    requires
        lines@.len() > 0,
    ensures
        byte_pairs(fields@) == header_fields(byte_views(lines@).drop_first()),
{
    let ghost lv = byte_views(lines@);
    let mut fields: Vec<(Vec<u8>, Vec<u8>)> = Vec::new();
    let mut k: usize = 1;
    while k < lines.len()
        invariant
            1 <= k <= lines@.len(),
            lv == byte_views(lines@),
            byte_pairs(fields@) == header_fields(lv.subrange(1, k as int)),
        decreases lines@.len() - k,
    {
        let line = lines[k].as_slice();
        assert(lv[k as int] == line@);
        assert(lv.subrange(1, k + 1).drop_last() =~= lv.subrange(1, k as int));
        match find_pair(line, 58, 32, 0) {
            Some(j) => {
                let len = line.len();
                assert(j + 1 < len);
                let name = copy_range(line, 0, j);
                let value = copy_range(line, j + 2, len);
                let ghost pf = byte_pairs(fields@);
                let ghost fb = (name@, value@);
                fields.push((name, value));
                assert(byte_pairs(fields@) =~= pf.push(fb));
            },
            None => {},
        }
        assert(byte_pairs(fields@) =~= header_fields(lv.subrange(1, k + 1)));
        k = k + 1;
    }
    assert(lv.subrange(1, k as int) =~= lv.drop_first());
    fields
}

/// Whether bytes hold a whole request: the head has ended with an empty line
/// and the body length it declares has arrived after it.
pub open spec fn is_complete(s: Seq<u8>) -> bool {
    let (lines, body_start) = head_lines(s, 0, 0);
    match body_start {
        Some(b) => lines.len() == 0 || b + content_length(header_fields(lines.drop_first()), 0)
            <= s.len(),
        None => false,
    }
}

/// Whether the bytes read so far hold a whole request, so that reading can
/// stop.
pub fn request_complete(raw: &[u8]) -> (r: bool)
    ensures
        r == is_complete(raw@),
{
    let (lines, body_start) = split_head(raw);
    match body_start {
        None => false,
        Some(b) => {
            if lines.len() == 0 {
                return true;
            }
            let n = declared_length(&fields_of(&lines));
            n <= raw.len() && b <= raw.len() - n
        },
    }
}

/// The body length that the fields declare.
fn declared_length(fields: &Vec<(Vec<u8>, Vec<u8>)>) -> (n: usize)
    ensures
        n == content_length(byte_pairs(fields@), 0),
{
    let cl_name = "Content-Length".as_bytes();
    proof {
        reveal(utf8);
    }
    let ghost fv = byte_pairs(fields@);
    let mut f: usize = 0;
    while f < fields.len()
        invariant
            f <= fields@.len(),
            fv == byte_pairs(fields@),
            cl_name@ == content_length_name(),
            content_length(fv, 0) == content_length(fv, f as int),
        decreases fields@.len() - f,
    {
        assert(fv[f as int] == (fields@[f as int].0@, fields@[f as int].1@));
        if bytes_eq(fields[f].0.as_slice(), cl_name) {
            return match parse_usize(fields[f].1.as_slice()) {
                Some(v) => v,
                None => 0,
            };
        }
        f = f + 1;
    }
    0
}

/// The value bound last to `name`: a later binding of a name shadows an
/// earlier one.
pub open spec fn last_binding(params: Seq<(Seq<char>, Seq<char>)>, name: Seq<char>) -> Option<
    Seq<char>,
>
    decreases params.len(),
{
    if params.len() == 0 {
        None
    } else if params.last().0 == name {
        Some(params.last().1)
    } else {
        last_binding(params.drop_last(), name)
    }
}

impl Request {
    /// The value of the named path parameter, if the route bound it.
    pub fn get_path_parameter(&self, name: &String) -> (r: Option<&String>)
        ensures
            r is Some <==> last_binding(self@.params, name@) is Some,
            r is Some ==> r->0@ == last_binding(self@.params, name@)->0,
    {
        let ghost pv = self@.params;
        let mut i: usize = self.path_parameters.len();
        assert(pv.take(i as int) =~= pv);
        while i > 0
            invariant
                i <= self.path_parameters@.len(),
                pv == pairs_view(self.path_parameters@),
                last_binding(pv, name@) == last_binding(pv.take(i as int), name@),
            decreases i,
        {
            let ghost t = pv.take(i as int);
            assert(t.drop_last() =~= pv.take(i - 1));
            assert(t.last() == (self.path_parameters@[i - 1].0@, self.path_parameters@[i - 1].1@));
            if self.path_parameters[i - 1].0.eq(name) {
                return Some(&self.path_parameters[i - 1].1);
            }
            i = i - 1;
        }
        None
    }

    /// Parses a request from the bytes read from a connection.
    pub fn new(raw: &[u8]) -> (r: Result<Request, ParseError>)
        ensures
            r is Ok <==> request_of(raw@) is Some,
            r is Ok ==> r->Ok_0@ == request_of(raw@)->0,
            r is Ok ==> r->Ok_0.method@.len() > 0 && r->Ok_0.path@.len() > 0,
    {
        let (lines, body_start) = split_head(raw);
        let ghost lv = byte_views(lines@);
        if lines.len() == 0 {
            return Err(ParseError::MalformedRequestLine);
        }
        let tokens = byte_pieces(lines[0].as_slice(), 32);
        assert(lv[0] == lines@[0]@);
        if tokens.len() < 2 {
            return Err(ParseError::MalformedRequestLine);
        }
        assert(byte_views(tokens@)[0] == tokens@[0]@);
        assert(byte_views(tokens@)[1] == tokens@[1]@);
        let method = decode(tokens[0].as_slice());
        let path = decode(tokens[1].as_slice());
        assert(tokens@[0]@.len() > 0 && tokens@[1]@.len() > 0) by {
            lemma_pieces_nonempty(lv[0], 32u8);
        }
        let fields = fields_of(&lines);
        let mut headers: Vec<(String, String)> = Vec::new();
        let mut k: usize = 0;
        while k < fields.len()
            invariant
                k <= fields@.len(),
                pairs_view(headers@) == decode_fields(byte_pairs(fields@).take(k as int)),
            decreases fields@.len() - k,
        {
            let hn = decode(fields[k].0.as_slice());
            let hv = decode(fields[k].1.as_slice());
            let ghost ph = pairs_view(headers@);
            let ghost fb = byte_pairs(fields@)[k as int];
            assert(fb == (fields@[k as int].0@, fields@[k as int].1@));
            headers.push((hn, hv));
            assert(pairs_view(headers@) =~= ph.push((lossy_text(fb.0), lossy_text(fb.1))));
            assert(byte_pairs(fields@).take(k + 1) =~= byte_pairs(fields@).take(k as int).push(fb));
            assert(pairs_view(headers@) =~= decode_fields(byte_pairs(fields@).take(k + 1)));
            k = k + 1;
        }
        assert(byte_pairs(fields@).take(k as int) =~= byte_pairs(fields@));
        let n = declared_length(&fields);
        let body = match body_start {
            Some(b) => if n > 0 && n <= raw.len() && b <= raw.len() - n {
                let bytes = copy_range(raw, b, b + n);
                Some(decode(bytes.as_slice()))
            } else {
                None
            },
            None => None,
        };
        let path_parameters: Vec<(String, String)> = Vec::new();
        let r = Request { headers, path_parameters, method, path, body };
        assert(r@.params =~= Seq::empty());
        assert(r@ == request_of(raw@)->0);
        Ok(r)
    }
}

/// Every piece of a split is non-empty.
proof fn lemma_pieces_nonempty(s: Seq<u8>, d: u8)
    ensures
        forall|i: int| 0 <= i < pieces(s, d).len() ==> #[trigger] pieces(s, d)[i].len() > 0,
{
    lemma_split_prefix_nonempty(s, d);
}

proof fn lemma_split_prefix_nonempty(s: Seq<u8>, d: u8)
    ensures
        forall|i: int|
            0 <= i < split_prefix(s, d).0.len() ==> #[trigger] split_prefix(s, d).0[i].len() > 0,
    decreases s.len(),
{
    if s.len() > 0 {
        lemma_split_prefix_nonempty(s.drop_last(), d);
        let (done, cur) = split_prefix(s.drop_last(), d);
        if s.last() == d && cur.len() > 0 {
            assert(split_prefix(s, d).0 == done.push(cur));
        }
    }
}

} // verus!

verus! {

/// A request with a method and a path whose head declares a zero body length
/// (or none) parses, and has no body.
pub proof fn lemma_zero_length_no_body(raw: Seq<u8>)
    requires
        head_lines(raw, 0, 0).0.len() > 0,
        pieces(head_lines(raw, 0, 0).0[0], 32u8).len() >= 2,
        content_length(header_fields(head_lines(raw, 0, 0).0.drop_first()), 0) == 0,
    ensures
        request_of(raw) is Some,
        request_of(raw).unwrap().body is None,
{
}

} // verus!
