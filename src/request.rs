use vstd::prelude::*;
use crate::mime::lower;

verus! {

pub const SP: u8 = 32;

pub const HTAB: u8 = 9;

pub const CR: u8 = 13;

pub const LF: u8 = 10;

pub const COLON: u8 = 58;

pub const SLASH: u8 = 47;

/// The request method, as a closed set of the methods this server knows.
pub enum Method {
    Get,
    Other(Vec<u8>),
}

/// One header line: its name as received and its value without surrounding
/// optional whitespace.
pub struct Header {
    pub name: Vec<u8>,
    pub value: Vec<u8>,
}

/// A parsed request head: the method, the raw request-target and the headers
/// in the order they were received.
pub struct Request {
    pub method: Method,
    pub path: Vec<u8>,
    pub headers: Vec<Header>,
}

/// Why a request head was refused.
#[derive(PartialEq, Eq, Structural, Clone, Copy, Debug)]
pub enum ParseError {
    MalformedRequestLine,
    MalformedHeader,
}

/// What a request head says, or why it is incomplete or refused.
pub enum HeadParse {
    Incomplete,
    BadRequestLine,
    BadHeader,
    Complete {
        method: Seq<u8>,
        path: Seq<u8>,
        headers: Seq<(Seq<u8>, Seq<u8>)>,
        end: int,
    },
}

/// What remains of a header block starting at some position.
pub enum HeaderScan {
    Incomplete,
    Malformed,
    Done(Seq<(Seq<u8>, Seq<u8>)>, int),
}

pub open spec fn get_token() -> Seq<u8> {
    seq![71u8, 69u8, 84u8]
}

pub open spec fn http_prefix() -> Seq<u8> {
    seq![72u8, 84u8, 84u8, 80u8, 47u8]
}

pub open spec fn is_crlf_at(s: Seq<u8>, i: int) -> bool {
    0 <= i && i + 1 < s.len() && s[i] == CR && s[i + 1] == LF
}

/// The position of the first CRLF at or after `from`.
pub open spec fn crlf_from(s: Seq<u8>, from: int) -> Option<int>
    decreases s.len() - from,
{
    if from < 0 || from + 1 >= s.len() {
        None
    } else if is_crlf_at(s, from) {
        Some(from)
    } else {
        crlf_from(s, from + 1)
    }
}

/// A request line `METHOD SP target SP version`: exactly two spaces, at `i`
/// and `j`, three non-empty tokens, a target that starts with `/` and a
/// version that starts with `HTTP/`.
pub open spec fn request_line_fields(line: Seq<u8>, i: int, j: int) -> bool {
    &&& 0 < i
    &&& i + 1 < j
    &&& j + 1 < line.len()
    &&& line[i] == SP
    &&& line[j] == SP
    &&& forall|k: int| 0 <= k < line.len() && k != i && k != j ==> line[k] != SP
    &&& line[i + 1] == SLASH
    &&& line.len() - (j + 1) >= 5
    &&& line.subrange(j + 1, j + 6) == http_prefix()
}

pub open spec fn valid_request_line(line: Seq<u8>) -> bool {
    exists|i: int, j: int| request_line_fields(line, i, j)
}

pub open spec fn is_ows(b: u8) -> bool {
    b == SP || b == HTAB
}

pub open spec fn trim_start(s: Seq<u8>) -> Seq<u8>
    decreases s.len(),
{
    if s.len() > 0 && is_ows(s[0]) {
        trim_start(s.drop_first())
    } else {
        s
    }
}

pub open spec fn trim_end(s: Seq<u8>) -> Seq<u8>
    decreases s.len(),
{
    if s.len() > 0 && is_ows(s.last()) {
        trim_end(s.drop_last())
    } else {
        s
    }
}

/// `s` without leading and trailing spaces and tabs.
pub open spec fn trim_ows(s: Seq<u8>) -> Seq<u8> {
    trim_end(trim_start(s))
}

/// `c` is the position of the first colon of `line`.
pub open spec fn first_colon(line: Seq<u8>, c: int) -> bool {
    0 <= c < line.len() && line[c] == COLON && forall|k: int| 0 <= k < c ==> line[k] != COLON
}

/// A header line `name ":" OWS value OWS`, split at its first colon.
pub open spec fn header_of(line: Seq<u8>) -> Option<(Seq<u8>, Seq<u8>)> {
    if exists|c: int| first_colon(line, c) {
        let c = choose|c: int| first_colon(line, c);
        Some((line.subrange(0, c), trim_ows(line.subrange(c + 1, line.len() as int))))
    } else {
        None
    }
}

pub open spec fn prepend_headers(
    hs: Seq<(Seq<u8>, Seq<u8>)>,
    r: HeaderScan,
) -> HeaderScan {
    match r {
        HeaderScan::Done(rest, end) => HeaderScan::Done(hs + rest, end),
        other => other,
    }
}

/// The header lines from `pos` up to and including the empty line that ends
/// the block.
pub open spec fn scan_headers(s: Seq<u8>, pos: int) -> HeaderScan
    decreases s.len() - pos,
    via scan_headers_decreases
{
    match crlf_from(s, pos) {
        None => HeaderScan::Incomplete,
        Some(e) => if e == pos {
            HeaderScan::Done(Seq::empty(), e + 2)
        } else {
            match header_of(s.subrange(pos, e)) {
                None => HeaderScan::Malformed,
                Some(h) => prepend_headers(seq![h], scan_headers(s, e + 2)),
            }
        },
    }
}

#[via_fn]
proof fn scan_headers_decreases(s: Seq<u8>, pos: int) {
    if pos >= 0 {
        lemma_crlf_from(s, pos);
    }
}

/// What the bytes received so far say as a request head.
pub open spec fn head_parse(s: Seq<u8>) -> HeadParse {
    match crlf_from(s, 0) {
        None => HeadParse::Incomplete,
        Some(e) => {
            let line = s.subrange(0, e);
            if !valid_request_line(line) {
                HeadParse::BadRequestLine
            } else {
                let (i, j) = choose|i: int, j: int| request_line_fields(line, i, j);
                match scan_headers(s, e + 2) {
                    HeaderScan::Incomplete => HeadParse::Incomplete,
                    HeaderScan::Malformed => HeadParse::BadHeader,
                    HeaderScan::Done(headers, end) => HeadParse::Complete {
                        method: line.subrange(0, i),
                        path: line.subrange(i + 1, j),
                        headers,
                        end,
                    },
                }
            }
        },
    }
}

pub open spec fn method_is(m: Method, token: Seq<u8>) -> bool {
    match m {
        Method::Get => token == get_token(),
        Method::Other(v) => v@ == token && token != get_token(),
    }
}

pub open spec fn headers_view(hs: Seq<Header>) -> Seq<(Seq<u8>, Seq<u8>)> {
    hs.map_values(|h: Header| (h.name@, h.value@))
}

/// `r` is what `parse_request` owes for the head `p`.
pub open spec fn parse_result_matches(r: Result<Option<(Request, usize)>, ParseError>, p: HeadParse) -> bool {
    match p {
        HeadParse::Incomplete => r == Ok::<Option<(Request, usize)>, ParseError>(None),
        HeadParse::BadRequestLine => r == Err::<Option<(Request, usize)>, ParseError>(ParseError::MalformedRequestLine),
        HeadParse::BadHeader => r == Err::<Option<(Request, usize)>, ParseError>(ParseError::MalformedHeader),
        HeadParse::Complete { method, path, headers, end } => match r {
            Ok(Some((req, n))) => {
                &&& method_is(req.method, method)
                &&& req.path@ == path
                &&& headers_view(req.headers@) == headers
                &&& n == end
            },
            _ => false,
        },
    }
}

pub proof fn lemma_crlf_from(s: Seq<u8>, from: int)
    requires
        0 <= from,
    ensures
        match crlf_from(s, from) {
            Some(e) => from <= e && is_crlf_at(s, e) && forall|k: int|
                from <= k < e ==> !is_crlf_at(s, k),
            None => forall|k: int| from <= k ==> !is_crlf_at(s, k),
        },
    decreases s.len() - from,
{
    if from < 0 || from + 1 >= s.len() {
    } else if is_crlf_at(s, from) {
    } else {
        lemma_crlf_from(s, from + 1);
    }
}

/// The position of the first CRLF in `buf` at or after `from`.
fn find_crlf(buf: &[u8], from: usize) -> (r: Option<usize>)
    ensures
        match r {
            Some(e) => crlf_from(buf@, from as int) == Some(e as int),
            None => crlf_from(buf@, from as int) is None,
        },
{
    let mut i = from;
    while i < buf.len() && i + 1 < buf.len()
        invariant
            from <= i,
            crlf_from(buf@, from as int) == crlf_from(buf@, i as int),
        decreases buf@.len() - i,
    {
        if buf[i] == CR && buf[i + 1] == LF {
            return Some(i);
        }
        i = i + 1;
    }
    None
}

/// The position of the first `b` in `s` at or after `from`, or `s.len()`.
fn find_byte(s: &[u8], from: usize, b: u8) -> (r: usize)
    requires
        from <= s@.len(),
    ensures
        from <= r <= s@.len(),
        r < s@.len() ==> s@[r as int] == b,
        forall|k: int| from <= k < r ==> s@[k] != b,
{
    let mut i = from;
    while i < s.len()
        invariant
            from <= i <= s@.len(),
            forall|k: int| from <= k < i ==> s@[k] != b,
        decreases s@.len() - i,
    {
        if s[i] == b {
            return i;
        }
        i = i + 1;
    }
    i
}

/// A copy of `buf[lo..hi]`.
fn copy_range(buf: &[u8], lo: usize, hi: usize) -> (r: Vec<u8>)
    requires
        lo <= hi <= buf@.len(),
    ensures
        r@ == buf@.subrange(lo as int, hi as int),
{
    let mut r: Vec<u8> = Vec::new();
    let mut i = lo;
    while i < hi
        invariant
            lo <= i <= hi <= buf@.len(),
            r@ == buf@.subrange(lo as int, i as int),
        decreases hi - i,
    {
        r.push(buf[i]);
        i = i + 1;
        assert(r@ =~= buf@.subrange(lo as int, i as int));
    }
    r
}

/// The method and target of a request line, or `None` where the line is not
/// `METHOD SP target SP version`.
fn parse_request_line(line: &[u8]) -> (r: Option<(Vec<u8>, Vec<u8>)>)
    ensures
        match r {
            Some((m, p)) => exists|i: int, j: int|
                request_line_fields(line@, i, j) && m@ == line@.subrange(0, i) && p@
                    == line@.subrange(i + 1, j),
            None => !valid_request_line(line@),
        },
{
    let n = line.len();
    let i = find_byte(line, 0, SP);
    if i == n {
        assert forall|a: int, b: int| !request_line_fields(line@, a, b) by {
            if request_line_fields(line@, a, b) {
                assert(line@[a] == SP);
            }
        }
        return None;
    }
    let j = find_byte(line, i + 1, SP);
    if j == n {
        assert forall|a: int, b: int| !request_line_fields(line@, a, b) by {
            if request_line_fields(line@, a, b) {
                if a != i {
                    assert(line@[i as int] != SP);
                }
                assert(line@[b] == SP);
            }
        }
        return None;
    }
    let k = find_byte(line, j + 1, SP);
    let ok = k == n && i > 0 && j > i + 1 && n - (j + 1) >= 5 && line[i + 1] == SLASH
        && line[j + 1] == 72 && line[j + 2] == 84 && line[j + 3] == 84 && line[j + 4] == 80
        && line[j + 5] == 47;
    if !ok {
        assert forall|a: int, b: int| !request_line_fields(line@, a, b) by {
            if request_line_fields(line@, a, b) {
                if a != i {
                    assert(line@[i as int] != SP);
                }
                if b != j {
                    assert(line@[j as int] != SP);
                }
                if k < n {
                    assert(line@[k as int] != SP);
                }
                assert(line@.subrange(b + 1, b + 6)[0] == 72);
                assert(line@.subrange(b + 1, b + 6)[1] == 84);
                assert(line@.subrange(b + 1, b + 6)[2] == 84);
                assert(line@.subrange(b + 1, b + 6)[3] == 80);
                assert(line@.subrange(b + 1, b + 6)[4] == 47);
            }
        }
        return None;
    }
    assert(line@.subrange(j + 1, j + 6) =~= http_prefix());
    assert(request_line_fields(line@, i as int, j as int));
    let m = copy_range(line, 0, i);
    let p = copy_range(line, i + 1, j);
    Some((m, p))
}

/// Positions `a <= b` such that `s[a..b]` is `s[lo..hi]` without leading and
/// trailing optional whitespace.
fn trim_bounds(s: &[u8], lo: usize, hi: usize) -> (r: (usize, usize))
    requires
        lo <= hi <= s@.len(),
    ensures
        lo <= r.0 <= r.1 <= hi,
        s@.subrange(r.0 as int, r.1 as int) == trim_ows(s@.subrange(lo as int, hi as int)),
{
    let mut a = lo;
    while a < hi && (s[a] == SP || s[a] == HTAB)
        invariant
            lo <= a <= hi <= s@.len(),
            trim_start(s@.subrange(a as int, hi as int)) == trim_start(
                s@.subrange(lo as int, hi as int),
            ),
        decreases hi - a,
    {
        assert(s@.subrange(a as int, hi as int).drop_first() =~= s@.subrange(a + 1, hi as int));
        a = a + 1;
    }
    assert(trim_start(s@.subrange(a as int, hi as int)) == s@.subrange(a as int, hi as int));
    let mut b = hi;
    while b > a && (s[b - 1] == SP || s[b - 1] == HTAB)
        invariant
            lo <= a <= b <= hi <= s@.len(),
            trim_end(s@.subrange(a as int, b as int)) == trim_end(
                s@.subrange(a as int, hi as int),
            ),
        decreases b - a,
    {
        assert(s@.subrange(a as int, b as int).drop_last() =~= s@.subrange(a as int, b - 1));
        b = b - 1;
    }
    (a, b)
}

/// The name and trimmed value of a header line, or `None` where it has no
/// colon.
fn parse_header_line(line: &[u8]) -> (r: Option<Header>)
    ensures
        match r {
            Some(h) => header_of(line@) == Some((h.name@, h.value@)),
            None => header_of(line@) is None,
        },
{
    let n = line.len();
    let c = find_byte(line, 0, COLON);
    if c == n {
        assert forall|k: int| !first_colon(line@, k) by {
            if first_colon(line@, k) {
                assert(line@[k] == COLON);
            }
        }
        return None;
    }
    assert(first_colon(line@, c as int));
    assert forall|k: int| first_colon(line@, k) implies k == c by {
        if k < c {
            assert(line@[k] != COLON);
        } else if k > c {
            assert(line@[c as int] != COLON);
        }
    }
    let name = copy_range(line, 0, c);
    let (a, b) = trim_bounds(line, c + 1, n);
    let value = copy_range(line, a, b);
    Some(Header { name, value })
}

proof fn lemma_prepend_assoc(
    a: Seq<(Seq<u8>, Seq<u8>)>,
    b: Seq<(Seq<u8>, Seq<u8>)>,
    r: HeaderScan,
)
    ensures
        prepend_headers(a, prepend_headers(b, r)) == prepend_headers(a + b, r),
{
    match r {
        HeaderScan::Done(rest, end) => {
            assert(a + (b + rest) =~= (a + b) + rest);
        },
        _ => {},
    }
}

/// Parses the head of a request from the bytes received so far.
///
/// Returns `Ok(None)` while the request line or the header block is not yet
/// terminated, `Ok(Some((request, n)))` once it is, where `n` is the number
/// of bytes of the head (body bytes after it are left alone), and an error as
/// soon as a terminated line is malformed.
#[verifier::loop_isolation(false)]
pub fn parse_request(buf: &[u8]) -> (r: Result<Option<(Request, usize)>, ParseError>)
    ensures
        parse_result_matches(r, head_parse(buf@)),
{
    let n = buf.len();
    let e = match find_crlf(buf, 0) {
        None => {
            return Ok(None);
        },
        Some(e) => e,
    };
    proof {
        lemma_crlf_from(buf@, 0);
        assert(is_crlf_at(buf@, e as int));
    }
    let line = copy_range(buf, 0, e);
    let (m, path) = match parse_request_line(line.as_slice()) {
        None => {
            return Err(ParseError::MalformedRequestLine);
        },
        Some(t) => t,
    };
    let ghost lv = buf@.subrange(0, e as int);
    let ghost (gi, gj) = choose|i: int, j: int| request_line_fields(lv, i, j);
    proof {
        let (i, j) = choose|i: int, j: int|
            request_line_fields(lv, i, j) && m@ == lv.subrange(0, i) && path@ == lv.subrange(
                i + 1,
                j,
            );
        if gi != i {
            if gi < i {
                assert(lv[gi] != SP);
            } else {
                assert(lv[i] != SP);
            }
        }
        if gj != j {
            if gj < j {
                assert(lv[gj] != SP);
            } else {
                assert(lv[j] != SP);
            }
        }
    }
    let method = if m.len() == 3 && m[0] == 71 && m[1] == 69 && m[2] == 84 {
        assert(m@ =~= get_token());
        Method::Get
    } else {
        Method::Other(m)
    };
    let mut headers: Vec<Header> = Vec::new();
    let mut pos = e + 2;
    let ghost start = pos as int;
    loop
        invariant
            start <= pos <= buf@.len(),
            prepend_headers(headers_view(headers@), scan_headers(buf@, pos as int))
                == scan_headers(buf@, start),
        decreases buf@.len() - pos,
    {
        proof {
            lemma_crlf_from(buf@, pos as int);
        }
        let le = match find_crlf(buf, pos) {
            None => {
                return Ok(None);
            },
            Some(le) => le,
        };
        assert(is_crlf_at(buf@, le as int));
        if le == pos {
            assert(headers_view(headers@) + Seq::empty() =~= headers_view(headers@));
            return Ok(Some((Request { method, path, headers }, le + 2)));
        }
        let hline = copy_range(buf, pos, le);
        match parse_header_line(hline.as_slice()) {
            None => {
                return Err(ParseError::MalformedHeader);
            },
            Some(h) => {
                let ghost hv = (h.name@, h.value@);
                proof {
                    lemma_prepend_assoc(headers_view(headers@), seq![hv], scan_headers(buf@, le + 2));
                }
                let ghost before = headers@;
                headers.push(h);
                assert(headers_view(headers@) =~= headers_view(before) + seq![hv]);
                pos = le + 2;
            },
        }
    }
}

/// `k` is the first header of `hs` whose name is `name`, in any case.
pub open spec fn first_header(hs: Seq<(Seq<u8>, Seq<u8>)>, name: Seq<u8>, k: int) -> bool {
    &&& 0 <= k < hs.len()
    &&& lower(hs[k].0) == lower(name)
    &&& forall|j: int| 0 <= j < k ==> lower(hs[j].0) != lower(name)
}

/// Whether two names are equal when ASCII letters are compared without case.
pub fn eq_ignore_case(a: &[u8], b: &[u8]) -> (r: bool)
    ensures
        r == (lower(a@) == lower(b@)),
{
    if a.len() != b.len() {
        assert(lower(a@).len() != lower(b@).len());
        return false;
    }
    let mut i: usize = 0;
    while i < a.len()
        invariant
            a@.len() == b@.len(),
            i <= a@.len(),
            forall|k: int| 0 <= k < i ==> lower(a@)[k] == lower(b@)[k],
        decreases a@.len() - i,
    {
        let x = a[i];
        let y = b[i];
        let lx = if 65 <= x && x <= 90 {
            x + 32
        } else {
            x
        };
        let ly = if 65 <= y && y <= 90 {
            y + 32
        } else {
            y
        };
        if lx != ly {
            assert(lower(a@)[i as int] != lower(b@)[i as int]);
            return false;
        }
        i = i + 1;
    }
    assert(lower(a@) =~= lower(b@));
    true
}

impl Request {
    /// The value of the first header named `name`, compared without case.
    pub fn header(&self, name: &[u8]) -> (r: Option<&Vec<u8>>)
        ensures
            match r {
                Some(v) => exists|k: int|
                    first_header(headers_view(self.headers@), name@, k) && v@ == headers_view(
                        self.headers@,
                    )[k].1,
                None => forall|k: int|
                    0 <= k < self.headers@.len() ==> lower(headers_view(self.headers@)[k].0)
                        != lower(name@),
            },
    {
        let ghost hv = headers_view(self.headers@);
        let mut i: usize = 0;
        while i < self.headers.len()
            invariant
                i <= self.headers@.len(),
                hv == headers_view(self.headers@),
                forall|j: int| 0 <= j < i ==> lower(hv[j].0) != lower(name@),
            decreases self.headers@.len() - i,
        {
            let h = &self.headers[i];
            if eq_ignore_case(h.name.as_slice(), name) {
                assert(first_header(hv, name@, i as int));
                return Some(&h.value);
            }
            i = i + 1;
        }
        None
    }
}

} // verus!
