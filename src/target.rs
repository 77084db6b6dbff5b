use vstd::prelude::*;
use crate::request::SLASH;

verus! {

pub const DOT: u8 = 46;

pub const PERCENT: u8 = 37;

pub const BACKSLASH: u8 = 92;

/// The pieces of `s` between slashes, empty pieces included.
pub open spec fn split_slash(s: Seq<u8>) -> Seq<Seq<u8>>
    decreases s.len(),
{
    if s.len() == 0 {
        seq![Seq::empty()]
    } else if s.last() == SLASH {
        split_slash(s.drop_last()).push(Seq::empty())
    } else {
        let p = split_slash(s.drop_last());
        p.update(p.len() - 1, p.last().push(s.last()))
    }
}

pub open spec fn dot_dot() -> Seq<u8> {
    seq![DOT, DOT]
}

/// A segment that could name something outside the root, or that is
/// percent-encoded: such a path is refused as a whole.
pub open spec fn segment_refused(seg: Seq<u8>) -> bool {
    seg == dot_dot() || exists|k: int|
        0 <= k < seg.len() && (seg[k] == PERCENT || seg[k] == BACKSLASH || seg[k] == 0)
}

/// A segment that names the directory it stands in.
pub open spec fn segment_skipped(seg: Seq<u8>) -> bool {
    seg.len() == 0 || seg == seq![DOT]
}

/// The segments kept from `segs`, in order, or `None` if one is refused.
pub open spec fn normalize(segs: Seq<Seq<u8>>) -> Option<Seq<Seq<u8>>>
    decreases segs.len(),
{
    if segs.len() == 0 {
        Some(Seq::empty())
    } else {
        match normalize(segs.drop_last()) {
            None => None,
            Some(r) => {
                let x = segs.last();
                if segment_refused(x) {
                    None
                } else if segment_skipped(x) {
                    Some(r)
                } else {
                    Some(r.push(x))
                }
            },
        }
    }
}

/// The path below the root that a request-target names, as segments, or
/// `None` when the target is refused.
pub open spec fn resolve_path(target: Seq<u8>) -> Option<Seq<Seq<u8>>> {
    normalize(split_slash(target))
}

pub open spec fn segs_view(v: Seq<Vec<u8>>) -> Seq<Seq<u8>> {
    v.map_values(|x: Vec<u8>| x@)
}

/// A segment that may stand in a path below the root: not empty, not `.` or
/// `..`, and free of separators, percent signs and NUL.
pub open spec fn plain_segment(seg: Seq<u8>) -> bool {
    &&& seg.len() > 0
    &&& seg != seq![DOT]
    &&& seg != dot_dot()
    &&& forall|k: int|
        0 <= k < seg.len() ==> seg[k] != SLASH && seg[k] != BACKSLASH && seg[k] != PERCENT
            && seg[k] != 0
}

enum SegmentKind {
    Keep,
    Skip,
    Refuse,
}

fn segment_kind(seg: &Vec<u8>) -> (r: SegmentKind)
    ensures
        r is Refuse <==> segment_refused(seg@),
        r is Skip <==> !segment_refused(seg@) && segment_skipped(seg@),
{
    let n = seg.len();
    let mut i: usize = 0;
    while i < n
        invariant
            n == seg@.len(),
            i <= n,
            forall|k: int| 0 <= k < i ==> seg@[k] != PERCENT && seg@[k] != BACKSLASH && seg@[k] != 0,
        decreases n - i,
    {
        let b = seg[i];
        if b == PERCENT || b == BACKSLASH || b == 0 {
            return SegmentKind::Refuse;
        }
        i = i + 1;
    }
    if n == 2 && seg[0] == DOT && seg[1] == DOT {
        assert(seg@ =~= dot_dot());
        SegmentKind::Refuse
    } else if n == 0 {
        SegmentKind::Skip
    } else if n == 1 && seg[0] == DOT {
        assert(seg@ =~= seq![DOT]);
        SegmentKind::Skip
    } else {
        assert(seg@ != dot_dot()) by {
            if seg@ == dot_dot() {
                assert(seg@[0] == DOT);
            }
        }
        assert(seg@ != seq![DOT]) by {
            if seg@ == seq![DOT] {
                assert(seg@[0] == DOT);
            }
        }
        SegmentKind::Keep
    }
}

/// Maps a request-target to the segments of a path below the root.
///
/// Empty and `.` segments are dropped; a target with a `..` segment, a
/// percent sign, a backslash or a NUL byte is refused with `None`, so what is
/// returned never leaves the root.
pub fn resolve_request_path(target: &[u8]) -> (r: Option<Vec<Vec<u8>>>)
    ensures
        match r {
            Some(v) => resolve_path(target@) == Some(segs_view(v@)),
            None => resolve_path(target@) is None,
        },
{
    let n = target.len();
    let mut done: Vec<Vec<u8>> = Vec::new();
    let mut cur: Vec<u8> = Vec::new();
    let ghost mut raw: Seq<Seq<u8>> = Seq::empty();
    let mut refused = false;
    let mut i: usize = 0;
    while i < n
        invariant
            n == target@.len(),
            i <= n,
            split_slash(target@.subrange(0, i as int)) == raw.push(cur@),
            refused ==> normalize(raw) is None,
            !refused ==> normalize(raw) == Some(segs_view(done@)),
        decreases n - i,
    {
        let b = target[i];
        assert(target@.subrange(0, i + 1).drop_last() =~= target@.subrange(0, i as int));
        if b == SLASH {
            proof {
                assert(raw.push(cur@).drop_last() =~= raw);
            }
            match segment_kind(&cur) {
                SegmentKind::Refuse => {
                    refused = true;
                },
                SegmentKind::Skip => {},
                SegmentKind::Keep => {
                    let ghost before = done@;
                    done.push(cur);
                    assert(segs_view(done@) =~= segs_view(before).push(cur@));
                },
            }
            proof {
                raw = raw.push(cur@);
            }
            cur = Vec::new();
        } else {
            let ghost before = cur@;
            cur.push(b);
            assert(raw.push(before).update(raw.len() as int, before.push(b)) =~= raw.push(cur@));
        }
        i = i + 1;
    }
    assert(target@.subrange(0, n as int) =~= target@);
    assert(raw.push(cur@).drop_last() =~= raw);
    if refused {
        return None;
    }
    match segment_kind(&cur) {
        SegmentKind::Refuse => {
            None
        },
        SegmentKind::Skip => {
            Some(done)
        },
        SegmentKind::Keep => {
            let ghost before = done@;
            done.push(cur);
            assert(segs_view(done@) =~= segs_view(before).push(cur@));
            Some(done)
        },
    }
}

/// What a metadata query found at a path: a regular file, a directory, or
/// anything else (absent, a special file, an error).
#[derive(PartialEq, Eq, Structural, Clone, Copy, Debug)]
pub enum FsKind {
    File,
    Directory,
    Missing,
}

/// What a request resolves to, as segments of a path below the root.
pub enum Target {
    File(Vec<Vec<u8>>),
    Directory(Vec<Vec<u8>>),
    Missing,
}

pub enum TargetView {
    File(Seq<Seq<u8>>),
    Directory(Seq<Seq<u8>>),
    Missing,
}

impl View for Target {
    type V = TargetView;

    open spec fn view(&self) -> TargetView {
        match self {
            Target::File(p) => TargetView::File(segs_view(p@)),
            Target::Directory(p) => TargetView::Directory(segs_view(p@)),
            Target::Missing => TargetView::Missing,
        }
    }
}

/// `index.html`
pub open spec fn index_name() -> Seq<u8> {
    seq![105u8, 110u8, 100u8, 101u8, 120u8, 46u8, 104u8, 116u8, 109u8, 108u8]
}

/// The name of the file served in place of a directory listing.
pub fn index_file_name() -> (r: Vec<u8>)
    ensures
        r@ == index_name(),
{
    let r: Vec<u8> = vec![105u8, 110u8, 100u8, 101u8, 120u8, 46u8, 104u8, 116u8, 109u8, 108u8];
    assert(r@ =~= index_name());
    r
}

/// The target for the path `segs`, given what a metadata query found there
/// and, for a directory, what it found at the directory's `index.html`.
pub open spec fn target_of(segs: Seq<Seq<u8>>, kind: FsKind, index_kind: FsKind) -> TargetView {
    match kind {
        FsKind::File => TargetView::File(segs),
        FsKind::Directory => if index_kind == FsKind::File {
            TargetView::File(segs.push(index_name()))
        } else {
            TargetView::Directory(segs)
        },
        FsKind::Missing => TargetView::Missing,
    }
}

/// The segments of a directory's index file.
pub fn index_path(segs: &Vec<Vec<u8>>) -> (r: Vec<Vec<u8>>)
    ensures
        segs_view(r@) == segs_view(segs@).push(index_name()),
{
    let mut r: Vec<Vec<u8>> = Vec::new();
    let mut i: usize = 0;
    while i < segs.len()
        invariant
            i <= segs@.len(),
            segs_view(r@) == segs_view(segs@).subrange(0, i as int),
        decreases segs@.len() - i,
    {
        let seg = copy_bytes(&segs[i]);
        let ghost before = r@;
        r.push(seg);
        assert(segs_view(r@) =~= segs_view(segs@).subrange(0, i + 1)) by {
            assert(segs_view(r@) =~= segs_view(before).push(seg@));
        }
        i = i + 1;
    }
    assert(segs_view(segs@).subrange(0, i as int) =~= segs_view(segs@));
    let ghost before = r@;
    r.push(index_file_name());
    assert(segs_view(r@) =~= segs_view(before).push(index_name()));
    r
}

/// A copy of `b`.
pub fn copy_bytes(b: &[u8]) -> (r: Vec<u8>)
    ensures
        r@ == b@,
{
    let mut r: Vec<u8> = Vec::new();
    crate::text::append_bytes(&mut r, b);
    assert(r@ =~= b@);
    r
}

/// Classifies the path `segs` from what metadata queries found: a regular
/// file is served, a directory is served through its `index.html` when that
/// is a regular file and listed otherwise, and anything else is missing.
pub fn resolve_target(segs: Vec<Vec<u8>>, kind: FsKind, index_kind: FsKind) -> (r: Target)
    ensures
        r@ == target_of(segs_view(segs@), kind, index_kind),
{
    match kind {
        FsKind::File => Target::File(segs),
        FsKind::Directory => {
            if index_kind == FsKind::File {
                Target::File(index_path(&segs))
            } else {
                Target::Directory(segs)
            }
        },
        FsKind::Missing => Target::Missing,
    }
}

proof fn lemma_split_has_no_slash(s: Seq<u8>)
    ensures
        forall|i: int, k: int|
            0 <= i < split_slash(s).len() && 0 <= k < split_slash(s)[i].len() ==> #[trigger] split_slash(s)[i][k] != SLASH,
        split_slash(s).len() >= 1,
    decreases s.len(),
{
    if s.len() > 0 {
        lemma_split_has_no_slash(s.drop_last());
        let p = split_slash(s.drop_last());
        if s.last() != SLASH {
            let q = p.last().push(s.last());
            assert forall|k: int| 0 <= k < q.len() implies q[k] != SLASH by {
                if k < p.last().len() {
                    assert(p[p.len() - 1][k] != SLASH);
                }
            }
        }
    }
}

proof fn lemma_normalize_plain(segs: Seq<Seq<u8>>)
    requires
        forall|i: int, k: int| 0 <= i < segs.len() && 0 <= k < segs[i].len() ==> #[trigger] segs[i][k] != SLASH,
    ensures
        normalize(segs) matches Some(r) ==> forall|i: int| 0 <= i < r.len() ==> plain_segment(#[trigger] r[i]),
    decreases segs.len(),
{
    if segs.len() > 0 {
        let d = segs.drop_last();
        assert forall|i: int, k: int| 0 <= i < d.len() && 0 <= k < d[i].len() implies #[trigger] d[i][k] != SLASH by {
            assert(segs[i][k] != SLASH);
        }
        lemma_normalize_plain(d);
        let x = segs.last();
        if !segment_refused(x) && !segment_skipped(x) {
            assert forall|k: int| 0 <= k < x.len() implies x[k] != SLASH && x[k] != BACKSLASH && x[k] != PERCENT && x[k] != 0 by {
                assert(segs[segs.len() - 1][k] != SLASH);
            }
        }
    }
}

/// A resolved path never leaves the root: each of its segments is a plain
/// name, never empty, `.` or `..`, and holds no separator.
pub proof fn lemma_resolved_path_below_root(target: Seq<u8>)
    ensures
        resolve_path(target) matches Some(segs) ==> forall|i: int|
            0 <= i < segs.len() ==> plain_segment(#[trigger] segs[i]),
{
    lemma_split_has_no_slash(target);
    lemma_normalize_plain(split_slash(target));
}

/// A target with a `..` segment is refused.
pub proof fn lemma_dot_dot_refused(target: Seq<u8>, i: int)
    requires
        0 <= i < split_slash(target).len(),
        split_slash(target)[i] == dot_dot(),
    ensures
        resolve_path(target) is None,
{
    lemma_normalize_refuses(split_slash(target), i);
}

proof fn lemma_normalize_refuses(segs: Seq<Seq<u8>>, i: int)
    requires
        0 <= i < segs.len(),
        segment_refused(segs[i]),
    ensures
        normalize(segs) is None,
    decreases segs.len(),
{
    if i < segs.len() - 1 {
        lemma_normalize_refuses(segs.drop_last(), i);
    }
}

} // verus!
