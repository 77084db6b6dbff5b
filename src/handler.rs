use vstd::prelude::*;
use crate::request::{
    crlf_from, get_token, head_parse, http_prefix, is_crlf_at, parse_request, request_line_fields,
    HeadParse, Method, Request,
};
use crate::target::{
    dot_dot, index_name, lemma_dot_dot_refused, resolve_path, resolve_request_path, segs_view,
    split_slash, target_of, resolve_target, FsKind, Target, TargetView,
};
use crate::response::{
    file_head, file_response_head, html_response_bytes, not_found_bytes, not_found_response,
    Status,
};
use crate::listing::{entries_view, listing_body, listing_response, DirEntry};

verus! {

/// A file or directory of a served tree, as the handler sees it.
pub enum Node {
    File(Seq<u8>),
    Dir(Seq<(Seq<u8>, bool)>),
}

/// A served tree: what stands at each path below the root.
pub type Tree = Map<Seq<Seq<u8>>, Node>;

pub open spec fn kind_at(fs: Tree, p: Seq<Seq<u8>>) -> FsKind {
    if !fs.contains_key(p) {
        FsKind::Missing
    } else {
        match fs[p] {
            Node::File(_) => FsKind::File,
            Node::Dir(_) => FsKind::Directory,
        }
    }
}

/// The last segment of a path, which names the file.
pub open spec fn file_name_of(p: Seq<Seq<u8>>) -> Seq<u8> {
    if p.len() == 0 {
        Seq::empty()
    } else {
        p.last()
    }
}

/// The response for a resolved target; a file or directory that has gone
/// by the time it is read is not found.
pub open spec fn serve(fs: Tree, t: TargetView) -> Seq<u8> {
    match t {
        TargetView::File(p) => if fs.contains_key(p) && fs[p] is File {
            file_head(file_name_of(p), fs[p]->File_0.len()) + fs[p]->File_0
        } else {
            not_found_bytes()
        },
        TargetView::Directory(p) => if fs.contains_key(p) && fs[p] is Dir {
            html_response_bytes(Status::Success, listing_body(p, fs[p]->Dir_0))
        } else {
            not_found_bytes()
        },
        TargetView::Missing => not_found_bytes(),
    }
}

/// The target of the path `p` in `fs`.
pub open spec fn target_in(fs: Tree, p: Seq<Seq<u8>>) -> TargetView {
    target_of(p, kind_at(fs, p), kind_at(fs, p.push(index_name())))
}

/// The whole response to the request bytes `buf` on the tree `fs`: a GET
/// for a path that resolves is served, everything else is not found.
pub open spec fn response_for(fs: Tree, buf: Seq<u8>) -> Seq<u8> {
    match head_parse(buf) {
        HeadParse::Complete { method, path, .. } => if method == get_token() {
            match resolve_path(path) {
                Some(p) => serve(fs, target_in(fs, p)),
                None => not_found_bytes(),
            }
        } else {
            not_found_bytes()
        },
        _ => not_found_bytes(),
    }
}

/// The request bytes `buf` are a complete GET whose target resolves to `p`.
pub open spec fn get_for(buf: Seq<u8>, p: Seq<Seq<u8>>) -> bool {
    head_parse(buf) matches HeadParse::Complete { method, path, .. } && method == get_token()
        && resolve_path(path) == Some(p)
}

/// The path below the root that a parsed request asks for, or `None` when
/// it is not a GET or its target is refused.
pub fn route(request: &Request) -> (r: Option<Vec<Vec<u8>>>)
    ensures
        match r {
            Some(v) => request.method is Get && resolve_path(request.path@) == Some(segs_view(v@)),
            None => !(request.method is Get) || resolve_path(request.path@) is None,
        },
{
    match request.method {
        Method::Get => resolve_request_path(request.path.as_slice()),
        Method::Other(_) => None,
    }
}

/// What the connection handler asks of its caller next. Each request for
/// outside work is answered by calling the matching `on_` function.
pub enum Action {
    /// Read more request bytes, then call `on_bytes`.
    Read,
    /// Query the metadata of this path and of its `index.html`, then call
    /// `on_inspected`.
    Inspect(Vec<Vec<u8>>),
    /// Open this file and take its size, then call `on_file`.
    OpenFile(Vec<Vec<u8>>),
    /// Enumerate this directory, then call `on_listing`.
    ListDir(Vec<Vec<u8>>),
    /// Send these bytes and close the connection.
    Send(Vec<u8>),
    /// Send this head, then the bytes of the file at the path, and close.
    SendFile(Vec<u8>, Vec<Vec<u8>>),
}

pub open spec fn sends(a: Action, bytes: Seq<u8>) -> bool {
    a matches Action::Send(b) && b@ == bytes
}

/// What `on_bytes` answers to the request bytes `buf`.
pub open spec fn bytes_step(buf: Seq<u8>, closed: bool, r: Action) -> bool {
    match head_parse(buf) {
        HeadParse::Incomplete => if closed {
            sends(r, not_found_bytes())
        } else {
            r is Read
        },
        HeadParse::Complete { method, path, .. } => if method == get_token() && resolve_path(
            path,
        ) is Some {
            r matches Action::Inspect(v) && Some(segs_view(v@)) == resolve_path(path)
        } else {
            sends(r, not_found_bytes())
        },
        _ => sends(r, not_found_bytes()),
    }
}

/// What `on_inspected` answers for the path `p`.
pub open spec fn inspect_step(p: Seq<Seq<u8>>, kind: FsKind, index_kind: FsKind, r: Action) -> bool {
    match target_of(p, kind, index_kind) {
        TargetView::File(t) => r matches Action::OpenFile(v) && segs_view(v@) == t,
        TargetView::Directory(t) => r matches Action::ListDir(v) && segs_view(v@) == t,
        TargetView::Missing => sends(r, not_found_bytes()),
    }
}

/// What `on_file` answers for the file at `p` of the given size.
pub open spec fn file_step(p: Seq<Seq<u8>>, size: Option<u64>, r: Action) -> bool {
    match size {
        Some(n) => r matches Action::SendFile(h, v) && h@ == file_head(
            file_name_of(p),
            n as nat,
        ) && segs_view(v@) == p,
        None => sends(r, not_found_bytes()),
    }
}

pub open spec fn entries_opt_view(entries: Option<Vec<DirEntry>>) -> Option<Seq<(Seq<u8>, bool)>> {
    match entries {
        Some(es) => Some(entries_view(es@)),
        None => None,
    }
}

/// What `on_listing` answers for the directory `p` with the children found.
pub open spec fn listing_step(p: Seq<Seq<u8>>, entries: Option<Seq<(Seq<u8>, bool)>>, r: Action) -> bool {
    match entries {
        Some(es) => sends(
            r,
            html_response_bytes(
                Status::Success,
                listing_body(p, es),
            ),
        ),
        None => sends(r, not_found_bytes()),
    }
}

/// Decides on the request bytes received so far; `closed` says whether the
/// peer has stopped sending.
pub fn on_bytes(buf: &[u8], closed: bool) -> (r: Action)
    ensures
        bytes_step(buf@, closed, r),
{
    match parse_request(buf) {
        Ok(None) => {
            if closed {
                Action::Send(not_found_response())
            } else {
                Action::Read
            }
        },
        Ok(Some((request, _))) => match route(&request) {
            Some(segs) => Action::Inspect(segs),
            None => Action::Send(not_found_response()),
        },
        Err(_) => Action::Send(not_found_response()),
    }
}

/// Decides on what the metadata of a path and of its `index.html` showed.
pub fn on_inspected(segs: Vec<Vec<u8>>, kind: FsKind, index_kind: FsKind) -> (r: Action)
    ensures
        inspect_step(segs_view(segs@), kind, index_kind, r),
{
    match resolve_target(segs, kind, index_kind) {
        Target::File(p) => Action::OpenFile(p),
        Target::Directory(p) => Action::ListDir(p),
        Target::Missing => Action::Send(not_found_response()),
    }
}

/// The last segment of a path, or nothing for the root.
fn last_segment(p: &Vec<Vec<u8>>) -> (r: &[u8])
    ensures
        r@ == file_name_of(segs_view(p@)),
{
    if p.len() == 0 {
        &[]
    } else {
        p[p.len() - 1].as_slice()
    }
}

/// Decides on the size of the opened file at `p`, or on the failure to open
/// it.
pub fn on_file(p: Vec<Vec<u8>>, size: Option<u64>) -> (r: Action)
    ensures
        file_step(segs_view(p@), size, r),
{
    match size {
        Some(n) => {
            let head = file_response_head(last_segment(&p), n);
            Action::SendFile(head, p)
        },
        None => Action::Send(not_found_response()),
    }
}

/// Decides on the children of the directory `p`, or on the failure to
/// enumerate them.
pub fn on_listing(p: &Vec<Vec<u8>>, entries: Option<Vec<DirEntry>>) -> (r: Action)
    ensures
        listing_step(segs_view(p@), entries_opt_view(entries), r),
{
    match entries {
        Some(es) => Action::Send(listing_response(p, &es)),
        None => Action::Send(not_found_response()),
    }
}

/// A GET for a regular file is answered with status 200, the file's type,
/// a `Content-Length` of its exact size, and its bytes.
pub proof fn lemma_file_served(fs: Tree, buf: Seq<u8>, p: Seq<Seq<u8>>)
    requires
        get_for(buf, p),
        fs.contains_key(p),
        fs[p] is File,
    ensures
        response_for(fs, buf) == file_head(file_name_of(p), fs[p]->File_0.len()) + fs[p]->File_0,
{
}

/// A request whose path does not exist is not found, whatever its method
/// and headers.
pub proof fn lemma_missing_not_found(fs: Tree, buf: Seq<u8>)
    requires
        head_parse(buf) matches HeadParse::Complete { path, .. } && (resolve_path(path) matches Some(
            p,
        ) ==> !fs.contains_key(p)),
    ensures
        response_for(fs, buf) == not_found_bytes(),
{
}

/// A directory that holds a regular `index.html` is answered exactly as a
/// request for that file.
pub proof fn lemma_index_substitution(fs: Tree, dir_req: Seq<u8>, index_req: Seq<u8>, p: Seq<Seq<u8>>)
    requires
        get_for(dir_req, p),
        get_for(index_req, p.push(index_name())),
        kind_at(fs, p) == FsKind::Directory,
        kind_at(fs, p.push(index_name())) == FsKind::File,
    ensures
        response_for(fs, dir_req) == response_for(fs, index_req),
{
}

/// A directory without a regular `index.html` is answered with status 200
/// and a `text/html` listing: one link per child, then one parent link.
pub proof fn lemma_listing_served(fs: Tree, buf: Seq<u8>, p: Seq<Seq<u8>>)
    requires
        get_for(buf, p),
        fs.contains_key(p),
        fs[p] is Dir,
        kind_at(fs, p.push(index_name())) != FsKind::File,
    ensures
        response_for(fs, buf) == html_response_bytes(Status::Success, listing_body(p, fs[p]->Dir_0)),
{
}

/// A target with a `..` segment is never served: it is not found.
pub proof fn lemma_traversal_not_found(fs: Tree, buf: Seq<u8>, i: int)
    requires
        head_parse(buf) matches HeadParse::Complete { path, .. } && 0 <= i < split_slash(path).len()
            && split_slash(path)[i] == dot_dot(),
    ensures
        response_for(fs, buf) == not_found_bytes(),
{
    if let HeadParse::Complete { path, .. } = head_parse(buf) {
        lemma_dot_dot_refused(path, i);
    }
}

/// The size that opening the file at `p` reports, or `None` where no
/// regular file stands there.
pub open spec fn file_size_in(fs: Tree, p: Seq<Seq<u8>>) -> Option<u64> {
    if fs.contains_key(p) && fs[p] is File && fs[p]->File_0.len() <= u64::MAX {
        Some(fs[p]->File_0.len() as u64)
    } else {
        None
    }
}

/// The children that enumerating `p` reports, or `None` where no directory
/// stands there.
pub open spec fn entries_in(fs: Tree, p: Seq<Seq<u8>>) -> Option<Seq<(Seq<u8>, bool)>> {
    if fs.contains_key(p) && fs[p] is Dir {
        Some(fs[p]->Dir_0)
    } else {
        None
    }
}

/// Every file of the tree has a size that a `u64` holds.
pub open spec fn sizes_fit(fs: Tree) -> bool {
    forall|p: Seq<Seq<u8>>| #[trigger] fs.contains_key(p) && fs[p] is File ==> fs[p]->File_0.len() <= u64::MAX
}

/// The file bytes that follow a head sent for the file at `p`.
pub open spec fn file_bytes_in(fs: Tree, p: Seq<Seq<u8>>) -> Seq<u8> {
    if fs.contains_key(p) && fs[p] is File {
        fs[p]->File_0
    } else {
        Seq::empty()
    }
}

proof fn lemma_first_step(fs: Tree, buf: Seq<u8>, closed: bool, first: Action)
    requires
        bytes_step(buf, closed, first),
        head_parse(buf) is Incomplete ==> closed,
    ensures
        first matches Action::Send(b) ==> b@ == response_for(fs, buf),
        first matches Action::Inspect(v) ==> response_for(fs, buf) == serve(
            fs,
            target_in(fs, segs_view(v@)),
        ),
{
}

proof fn lemma_second_step(fs: Tree, p: Seq<Seq<u8>>, second: Action)
    requires
        inspect_step(p, kind_at(fs, p), kind_at(fs, p.push(index_name())), second),
    ensures
        second matches Action::Send(b) ==> b@ == serve(fs, target_in(fs, p)),
        second matches Action::OpenFile(f) ==> serve(fs, target_in(fs, p)) == serve(
            fs,
            TargetView::File(segs_view(f@)),
        ),
        second matches Action::ListDir(d) ==> serve(fs, target_in(fs, p)) == serve(
            fs,
            TargetView::Directory(segs_view(d@)),
        ),
{
}

proof fn lemma_file_step(fs: Tree, p: Seq<Seq<u8>>, third: Action)
    requires
        sizes_fit(fs),
        file_step(p, file_size_in(fs, p), third),
    ensures
        third matches Action::Send(b) ==> b@ == serve(fs, TargetView::File(p)),
        third matches Action::SendFile(h, g) ==> h@ + file_bytes_in(fs, segs_view(g@)) == serve(
            fs,
            TargetView::File(p),
        ),
{
}

proof fn lemma_listing_step(fs: Tree, p: Seq<Seq<u8>>, third: Action)
    requires
        listing_step(p, entries_in(fs, p), third),
    ensures
        sends(third, serve(fs, TargetView::Directory(p))),
{
}

/// The steps of a connection, answered from the tree `fs`, send exactly
/// `response_for(fs, buf)`: `on_bytes` either sends it or names the path to
/// inspect; `on_inspected`, given the kinds found in `fs` at that path and at
/// its `index.html`, either sends it or names the file to open or the
/// directory to list; `on_file`, given that file's size, sends a head that
/// with the file's bytes is the response; `on_listing`, given that
/// directory's children, sends it.
pub proof fn lemma_steps_send_response(
    fs: Tree,
    buf: Seq<u8>,
    closed: bool,
    first: Action,
    second: Action,
    third: Action,
)
    requires
        sizes_fit(fs),
        bytes_step(buf, closed, first),
        head_parse(buf) is Incomplete ==> closed,
    ensures
        first matches Action::Send(b) ==> b@ == response_for(fs, buf),
        first matches Action::Inspect(v) ==> {
            let p = segs_view(v@);
            inspect_step(p, kind_at(fs, p), kind_at(fs, p.push(index_name())), second) ==> {
                &&& second matches Action::Send(b) ==> b@ == response_for(fs, buf)
                &&& second matches Action::OpenFile(f) ==> (file_step(
                    segs_view(f@),
                    file_size_in(fs, segs_view(f@)),
                    third,
                ) ==> {
                    &&& third matches Action::Send(b) ==> b@ == response_for(fs, buf)
                    &&& third matches Action::SendFile(h, g) ==> h@ + file_bytes_in(
                        fs,
                        segs_view(g@),
                    ) == response_for(fs, buf)
                })
                &&& second matches Action::ListDir(d) ==> (listing_step(
                    segs_view(d@),
                    entries_in(fs, segs_view(d@)),
                    third,
                ) ==> sends(third, response_for(fs, buf)))
            }
        },
{
    lemma_first_step(fs, buf, closed, first);
    if let Action::Inspect(v) = first {
        let p = segs_view(v@);
        if inspect_step(p, kind_at(fs, p), kind_at(fs, p.push(index_name())), second) {
            lemma_second_step(fs, p, second);
            if let Action::OpenFile(f) = second {
                if file_step(segs_view(f@), file_size_in(fs, segs_view(f@)), third) {
                    lemma_file_step(fs, segs_view(f@), third);
                }
            }
            if let Action::ListDir(d) = second {
                if listing_step(segs_view(d@), entries_in(fs, segs_view(d@)), third) {
                    lemma_listing_step(fs, segs_view(d@), third);
                }
            }
        }
    }
}

/// Two connections that receive the same request bytes and are answered
/// from the same unchanged tree send the same bytes.
pub proof fn lemma_idempotent(
    fs: Tree,
    buf: Seq<u8>,
    first: (Action, Action, Action),
    second: (Action, Action, Action),
)
    requires
        head_parse(buf) !is Incomplete,
        bytes_step(buf, false, first.0),
        bytes_step(buf, false, second.0),
    ensures
        first.0 matches Action::Send(b1) ==> second.0 matches Action::Send(b2) && b1@ == b2@,
        first.0 matches Action::Inspect(v1) ==> second.0 matches Action::Inspect(v2) && segs_view(
            v1@,
        ) == segs_view(v2@),
{
    lemma_first_step(fs, buf, false, first.0);
    lemma_first_step(fs, buf, false, second.0);
}

/// A target that can stand in a request line: it starts with `/` and holds
/// no space and no CR.
pub open spec fn plain_target(p: Seq<u8>) -> bool {
    p.len() > 0 && p[0] == 0x2f && forall|k: int| 0 <= k < p.len() ==> p[k] != 0x20 && p[k] != 0x0d
}

/// The bytes of `GET <p> HTTP/1.1` followed by an empty header block.
pub open spec fn simple_get(p: Seq<u8>) -> Seq<u8> {
    seq![71u8, 69u8, 84u8, 32u8] + p + seq![32u8, 72u8, 84u8, 84u8, 80u8, 47u8, 49u8, 46u8, 49u8, 13u8, 10u8, 13u8, 10u8]
}

proof fn lemma_crlf_first(s: Seq<u8>, from: int, e: int)
    requires
        0 <= from <= e,
        is_crlf_at(s, e),
        forall|k: int| from <= k < e ==> s[k] != 0x0d,
    ensures
        crlf_from(s, from) == Some(e),
    decreases e - from,
{
    if from < e {
        lemma_crlf_first(s, from + 1, e);
    }
}

/// The request bytes `GET <p> HTTP/1.1` with no headers parse as a complete
/// GET for `p` that takes every byte.
pub proof fn lemma_simple_get_parses(p: Seq<u8>)
    requires
        plain_target(p),
    ensures
        head_parse(simple_get(p)) == (HeadParse::Complete {
            method: get_token(),
            path: p,
            headers: Seq::empty(),
            end: simple_get(p).len() as int,
        }),
{
    let s = simple_get(p);
    let n = p.len() as int;
    let e = 4 + n + 9;
    assert(s.len() == e + 4);
    assert forall|k: int| 0 <= k < e implies s[k] != 0x0d by {
        if 4 <= k < 4 + n {
            assert(s[k] == p[k - 4]);
        }
    }
    assert(is_crlf_at(s, e));
    lemma_crlf_first(s, 0, e);
    let line = s.subrange(0, e);
    let i: int = 3;
    let j: int = 4 + n;
    assert forall|k: int| 0 <= k < line.len() && k != i && k != j implies line[k] != 0x20 by {
        if 4 <= k < 4 + n {
            assert(line[k] == p[k - 4]);
        }
    }
    assert(line[i + 1] == p[0]);
    assert(line.subrange(j + 1, j + 6) =~= http_prefix());
    assert(request_line_fields(line, i, j));
    let (ci, cj) = choose|a: int, b: int| request_line_fields(line, a, b);
    if ci != i {
        if ci < i {
            assert(line[ci] != 0x20);
        } else {
            assert(line[i] != 0x20);
        }
    }
    if cj != j {
        if cj < j {
            assert(line[cj] != 0x20);
        } else {
            assert(line[j] != 0x20);
        }
    }
    assert(line.subrange(0, i) =~= get_token());
    assert(line.subrange(i + 1, j) =~= p);
    assert(is_crlf_at(s, e + 2));
    lemma_crlf_first(s, e + 2, e + 2);
}

/// A GET written out as `GET <p> HTTP/1.1` for a regular file is answered
/// with the file's head (status 200, its type, its exact size) and its bytes.
pub proof fn lemma_simple_get_file(fs: Tree, p: Seq<u8>, q: Seq<Seq<u8>>)
    requires
        plain_target(p),
        resolve_path(p) == Some(q),
        fs.contains_key(q),
        fs[q] is File,
    ensures
        response_for(fs, simple_get(p)) == file_head(file_name_of(q), fs[q]->File_0.len())
            + fs[q]->File_0,
{
    lemma_simple_get_parses(p);
}

/// `GET <p> HTTP/1.1` for a directory that holds a regular `index.html` is
/// answered exactly as `GET <p2> HTTP/1.1` for that file.
pub proof fn lemma_simple_get_index(fs: Tree, p: Seq<u8>, p2: Seq<u8>, q: Seq<Seq<u8>>)
    requires
        plain_target(p),
        plain_target(p2),
        resolve_path(p) == Some(q),
        resolve_path(p2) == Some(q.push(index_name())),
        kind_at(fs, q) == FsKind::Directory,
        kind_at(fs, q.push(index_name())) == FsKind::File,
    ensures
        response_for(fs, simple_get(p)) == response_for(fs, simple_get(p2)),
{
    lemma_simple_get_parses(p);
    lemma_simple_get_parses(p2);
}

/// `GET <p> HTTP/1.1` where a segment of `p` is `..` is not found.
pub proof fn lemma_simple_get_traversal(fs: Tree, p: Seq<u8>, i: int)
    requires
        plain_target(p),
        0 <= i < split_slash(p).len(),
        split_slash(p)[i] == dot_dot(),
    ensures
        response_for(fs, simple_get(p)) == not_found_bytes(),
{
    lemma_simple_get_parses(p);
    lemma_dot_dot_refused(p, i);
}

} // verus!
