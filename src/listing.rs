use vstd::prelude::*;
use vstd::string::StringSliceAdditionalSpecFns;
use crate::text::append_bytes;
use crate::target::segs_view;
use crate::response::{html_response, html_response_bytes, Status};

verus! {

/// One child of a listed directory.
pub struct DirEntry {
    pub name: Vec<u8>,
    pub is_dir: bool,
}

pub open spec fn entries_view(es: Seq<DirEntry>) -> Seq<(Seq<u8>, bool)> {
    es.map_values(|e: DirEntry| (e.name@, e.is_dir))
}

/// The bytes that stand for `b` in HTML text and in a quoted attribute.
pub open spec fn escape_byte(b: u8) -> Seq<u8> {
    if b == 38 {
        "&amp;".spec_bytes()
    } else if b == 60 {
        "&lt;".spec_bytes()
    } else if b == 62 {
        "&gt;".spec_bytes()
    } else if b == 34 {
        "&quot;".spec_bytes()
    } else {
        seq![b]
    }
}

/// `s` with `&`, `<`, `>` and `"` replaced by their character references.
pub open spec fn escape_html(s: Seq<u8>) -> Seq<u8>
    decreases s.len(),
{
    if s.len() == 0 {
        Seq::empty()
    } else {
        escape_html(s.drop_last()) + escape_byte(s.last())
    }
}

/// A byte that ends an attribute value or starts or ends a tag.
pub open spec fn is_markup(b: u8) -> bool {
    b == 60 || b == 62 || b == 34
}

/// The URL path of a directory below the root, without a trailing slash:
/// empty for the root itself. Each segment is escaped for HTML.
pub open spec fn url_of(segs: Seq<Seq<u8>>) -> Seq<u8>
    decreases segs.len(),
{
    if segs.len() == 0 {
        Seq::empty()
    } else {
        url_of(segs.drop_last()) + "/".spec_bytes() + escape_html(segs.last())
    }
}

/// The directory above `dir`; the root is its own parent.
pub open spec fn parent_of(dir: Seq<Seq<u8>>) -> Seq<Seq<u8>> {
    if dir.len() == 0 {
        dir
    } else {
        dir.drop_last()
    }
}

pub open spec fn link(href: Seq<u8>, text: Seq<u8>) -> Seq<u8> {
    "<a href=\"".spec_bytes() + href + "\">".spec_bytes() + text + "</a><br>\n".spec_bytes()
}

/// A child's name, escaped for HTML, with a trailing slash for a directory.
pub open spec fn shown_name(name: Seq<u8>, is_dir: bool) -> Seq<u8> {
    if is_dir {
        escape_html(name) + "/".spec_bytes()
    } else {
        escape_html(name)
    }
}

/// The link to one child of `dir`.
pub open spec fn entry_link(dir: Seq<Seq<u8>>, e: (Seq<u8>, bool)) -> Seq<u8> {
    let shown = shown_name(e.0, e.1);
    link(url_of(dir) + "/".spec_bytes() + shown, shown)
}

/// The link to the parent of `dir`.
pub open spec fn parent_link(dir: Seq<Seq<u8>>) -> Seq<u8> {
    link(url_of(parent_of(dir)) + "/".spec_bytes(), "..".spec_bytes())
}

/// The links to the children, in the order given.
pub open spec fn entry_links(dir: Seq<Seq<u8>>, es: Seq<(Seq<u8>, bool)>) -> Seq<u8>
    decreases es.len(),
{
    if es.len() == 0 {
        Seq::empty()
    } else {
        entry_links(dir, es.drop_last()) + entry_link(dir, es.last())
    }
}

/// A listing: one link per child, in the order given, then one link to the
/// parent directory.
pub open spec fn listing_body(dir: Seq<Seq<u8>>, es: Seq<(Seq<u8>, bool)>) -> Seq<u8> {
    entry_links(dir, es) + parent_link(dir)
}

/// Appends `s` escaped for HTML to `out`.
pub fn push_escaped(out: &mut Vec<u8>, s: &[u8])
    ensures
        final(out)@ == old(out)@ + escape_html(s@),
{
    let ghost start = out@;
    let mut i: usize = 0;
    while i < s.len()
        invariant
            i <= s@.len(),
            out@ == start + escape_html(s@.subrange(0, i as int)),
        decreases s@.len() - i,
    {
        let b = s[i];
        let ghost before = out@;
        if b == 38 {
            append_bytes(out, "&amp;".as_bytes());
        } else if b == 60 {
            append_bytes(out, "&lt;".as_bytes());
        } else if b == 62 {
            append_bytes(out, "&gt;".as_bytes());
        } else if b == 34 {
            append_bytes(out, "&quot;".as_bytes());
        } else {
            out.push(b);
            assert(out@ =~= before + seq![b]);
        }
        assert(s@.subrange(0, i + 1).drop_last() =~= s@.subrange(0, i as int));
        assert(out@ =~= start + escape_html(s@.subrange(0, i + 1)));
        i = i + 1;
    }
    assert(s@.subrange(0, s@.len() as int) =~= s@);
}

/// Appends the URL path of `segs` to `out`.
fn push_url(out: &mut Vec<u8>, segs: &Vec<Vec<u8>>, n: usize)
    requires
        n <= segs@.len(),
    ensures
        final(out)@ == old(out)@ + url_of(segs_view(segs@).subrange(0, n as int)),
    decreases n,
{
    let ghost sv = segs_view(segs@).subrange(0, n as int);
    if n > 0 {
        push_url(out, segs, n - 1);
        append_bytes(out, "/".as_bytes());
        push_escaped(out, segs[n - 1].as_slice());
        assert(sv.drop_last() =~= segs_view(segs@).subrange(0, n - 1));
    } else {
        assert(url_of(sv) == Seq::<u8>::empty());
    }
    assert(out@ =~= old(out)@ + url_of(sv));
}

fn push_link(out: &mut Vec<u8>, dir: &Vec<Vec<u8>>, hn: usize, tail: &[u8], text: &[u8])
    requires
        hn <= dir@.len(),
    ensures
        final(out)@ == old(out)@ + link(
            url_of(segs_view(dir@).subrange(0, hn as int)) + tail@,
            text@,
        ),
{
    append_bytes(out, "<a href=\"".as_bytes());
    push_url(out, dir, hn);
    append_bytes(out, tail);
    append_bytes(out, "\">".as_bytes());
    append_bytes(out, text);
    append_bytes(out, "</a><br>\n".as_bytes());
    assert(out@ =~= old(out)@ + link(url_of(segs_view(dir@).subrange(0, hn as int)) + tail@, text@));
}

/// The listing of the directory `dir` (segments below the root) with the
/// children `entries`, in the order given.
pub fn render_listing(dir: &Vec<Vec<u8>>, entries: &Vec<DirEntry>) -> (r: Vec<u8>)
    ensures
        r@ == listing_body(segs_view(dir@), entries_view(entries@)),
{
    let ghost d = segs_view(dir@);
    let ghost ev = entries_view(entries@);
    assert(d.subrange(0, dir@.len() as int) =~= d);
    let mut out: Vec<u8> = Vec::new();
    let mut i: usize = 0;
    while i < entries.len()
        invariant
            i <= entries@.len(),
            d == segs_view(dir@),
            ev == entries_view(entries@),
            d.subrange(0, dir@.len() as int) == d,
            out@ == entry_links(d, ev.subrange(0, i as int)),
        decreases entries@.len() - i,
    {
        let e = &entries[i];
        let mut shown: Vec<u8> = Vec::new();
        push_escaped(&mut shown, e.name.as_slice());
        if e.is_dir {
            append_bytes(&mut shown, "/".as_bytes());
        }
        assert(shown@ =~= shown_name(ev[i as int].0, ev[i as int].1)) by {
            assert(Seq::<u8>::empty() + escape_html(e.name@) =~= escape_html(e.name@));
        }
        let mut tail: Vec<u8> = Vec::new();
        append_bytes(&mut tail, "/".as_bytes());
        append_bytes(&mut tail, shown.as_slice());
        let ghost before = out@;
        push_link(&mut out, dir, dir.len(), tail.as_slice(), shown.as_slice());
        assert(ev.subrange(0, i + 1).drop_last() =~= ev.subrange(0, i as int));
        assert(url_of(d) + tail@ =~= url_of(d) + "/".spec_bytes() + shown@);
        i = i + 1;
    }
    assert(ev.subrange(0, i as int) =~= ev);
    let hn = if dir.len() == 0 {
        0
    } else {
        dir.len() - 1
    };
    assert(d.subrange(0, hn as int) =~= parent_of(d));
    push_link(&mut out, dir, hn, "/".as_bytes(), "..".as_bytes());
    out
}

/// The complete 200 `text/html` response listing `dir`.
pub fn listing_response(dir: &Vec<Vec<u8>>, entries: &Vec<DirEntry>) -> (r: Vec<u8>)
    ensures
        r@ == html_response_bytes(
            Status::Success,
            listing_body(segs_view(dir@), entries_view(entries@)),
        ),
{
    let body = render_listing(dir, entries);
    html_response(Status::Success, body.as_slice())
}

/// No byte of `s` is `<`, `>` or `"`.
pub open spec fn free_of_markup(s: Seq<u8>) -> bool {
    forall|k: int| 0 <= k < s.len() ==> !is_markup(#[trigger] s[k])
}

proof fn lemma_literal_plain(lit: &str)
    requires
        vstd::string::is_ascii(lit),
        forall|k: int| 0 <= k < lit@.len() ==> !is_markup(#[trigger] lit@[k] as u8),
    ensures
        free_of_markup(lit.spec_bytes()),
{
    vstd::string::is_ascii_spec_bytes(lit);
}

proof fn lemma_concat_plain(a: Seq<u8>, b: Seq<u8>)
    requires
        free_of_markup(a),
        free_of_markup(b),
    ensures
        free_of_markup(a + b),
{
    assert forall|k: int| 0 <= k < (a + b).len() implies !is_markup(#[trigger] (a + b)[k]) by {
        if k >= a.len() {
            assert((a + b)[k] == b[k - a.len()]);
        }
    }
}

proof fn lemma_escape_byte_plain(b: u8)
    ensures
        free_of_markup(escape_byte(b)),
{
    reveal_strlit("&amp;");
    reveal_strlit("&lt;");
    reveal_strlit("&gt;");
    reveal_strlit("&quot;");
    if b == 38 {
        lemma_literal_plain("&amp;");
    } else if b == 60 {
        lemma_literal_plain("&lt;");
    } else if b == 62 {
        lemma_literal_plain("&gt;");
    } else if b == 34 {
        lemma_literal_plain("&quot;");
    }
}

/// Escaped text holds no `<`, `>` or `"`: it can neither end an attribute
/// value nor open or close a tag.
pub proof fn lemma_escape_plain(s: Seq<u8>)
    ensures
        free_of_markup(escape_html(s)),
    decreases s.len(),
{
    if s.len() > 0 {
        lemma_escape_plain(s.drop_last());
        lemma_escape_byte_plain(s.last());
        lemma_concat_plain(escape_html(s.drop_last()), escape_byte(s.last()));
    }
}

proof fn lemma_slash_plain()
    ensures
        free_of_markup("/".spec_bytes()),
        free_of_markup("..".spec_bytes()),
{
    reveal_strlit("/");
    reveal_strlit("..");
    lemma_literal_plain("/");
    lemma_literal_plain("..");
}

/// The URL path of a directory holds no `<`, `>` or `"`.
pub proof fn lemma_url_plain(segs: Seq<Seq<u8>>)
    ensures
        free_of_markup(url_of(segs)),
    decreases segs.len(),
{
    if segs.len() > 0 {
        lemma_url_plain(segs.drop_last());
        lemma_slash_plain();
        lemma_escape_plain(segs.last());
        lemma_concat_plain(url_of(segs.drop_last()), "/".spec_bytes());
        lemma_concat_plain(url_of(segs.drop_last()) + "/".spec_bytes(), escape_html(segs.last()));
    }
}

/// Whatever the names of the children, the target and the text of every
/// link of a listing hold no `<`, `>` or `"`, so each entry gives exactly one
/// link and the parent link stays last and whole.
pub proof fn lemma_listing_links_plain(dir: Seq<Seq<u8>>, e: (Seq<u8>, bool))
    ensures
        free_of_markup(url_of(dir) + "/".spec_bytes() + shown_name(e.0, e.1)),
        free_of_markup(shown_name(e.0, e.1)),
        free_of_markup(url_of(parent_of(dir)) + "/".spec_bytes()),
        free_of_markup("..".spec_bytes()),
{
    lemma_url_plain(dir);
    lemma_url_plain(parent_of(dir));
    lemma_slash_plain();
    lemma_escape_plain(e.0);
    if e.1 {
        lemma_concat_plain(escape_html(e.0), "/".spec_bytes());
    }
    lemma_concat_plain(url_of(dir), "/".spec_bytes());
    lemma_concat_plain(url_of(dir) + "/".spec_bytes(), shown_name(e.0, e.1));
    lemma_concat_plain(url_of(parent_of(dir)), "/".spec_bytes());
}

} // verus!
