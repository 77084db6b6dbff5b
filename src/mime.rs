use vstd::prelude::*;
use crate::target::DOT;
use vstd::string::StringSliceAdditionalSpecFns;

verus! {

/// `d` is the position of the last dot of `name`.
pub open spec fn last_dot(name: Seq<u8>, d: int) -> bool {
    0 <= d < name.len() && name[d] == DOT && forall|k: int| d < k < name.len() ==> name[k] != DOT
}

/// What follows the last dot of a file name; empty where it has none.
pub open spec fn extension_of(name: Seq<u8>) -> Seq<u8> {
    if exists|d: int| last_dot(name, d) {
        let d = choose|d: int| last_dot(name, d);
        name.subrange(d + 1, name.len() as int)
    } else {
        Seq::empty()
    }
}

pub open spec fn ascii_lower(b: u8) -> u8 {
    if 65 <= b <= 90 {
        (b + 32) as u8
    } else {
        b
    }
}

pub open spec fn lower(s: Seq<u8>) -> Seq<u8> {
    s.map_values(|b: u8| ascii_lower(b))
}

/// The content type for a lowercase extension.
pub open spec fn mime_of_ext(e: Seq<u8>) -> Seq<u8> {
    if e == "html".spec_bytes() || e == "htm".spec_bytes() {
        "text/html".spec_bytes()
    } else if e == "css".spec_bytes() {
        "text/css".spec_bytes()
    } else if e == "js".spec_bytes() {
        "application/javascript".spec_bytes()
    } else if e == "json".spec_bytes() {
        "application/json".spec_bytes()
    } else if e == "txt".spec_bytes() {
        "text/plain".spec_bytes()
    } else if e == "png".spec_bytes() {
        "image/png".spec_bytes()
    } else if e == "jpg".spec_bytes() || e == "jpeg".spec_bytes() {
        "image/jpeg".spec_bytes()
    } else if e == "gif".spec_bytes() {
        "image/gif".spec_bytes()
    } else if e == "svg".spec_bytes() {
        "image/svg+xml".spec_bytes()
    } else if e == "pdf".spec_bytes() {
        "application/pdf".spec_bytes()
    } else {
        "application/octet-stream".spec_bytes()
    }
}

/// The content type of a file, from its name's extension in any case.
pub open spec fn mime_of_name(name: Seq<u8>) -> Seq<u8> {
    mime_of_ext(lower(extension_of(name)))
}

/// Whether two byte strings are equal.
pub fn bytes_eq(a: &[u8], b: &[u8]) -> (r: bool)
    ensures
        r == (a@ == b@),
{
    if a.len() != b.len() {
        return false;
    }
    let mut i: usize = 0;
    while i < a.len()
        invariant
            a@.len() == b@.len(),
            i <= a@.len(),
            forall|k: int| 0 <= k < i ==> a@[k] == b@[k],
        decreases a@.len() - i,
    {
        if a[i] != b[i] {
            return false;
        }
        i = i + 1;
    }
    assert(a@ =~= b@);
    true
}

/// The extension of `name`, lowercased.
fn lower_extension(name: &[u8]) -> (r: Vec<u8>)
    ensures
        r@ == lower(extension_of(name@)),
{
    let n = name.len();
    let mut d = n;
    while d > 0 && name[d - 1] != DOT
        invariant
            d <= n == name@.len(),
            forall|k: int| d <= k < n ==> name@[k] != DOT,
        decreases d,
    {
        d = d - 1;
    }
    let mut r: Vec<u8> = Vec::new();
    if d == 0 {
        assert forall|x: int| !last_dot(name@, x) by {
            if last_dot(name@, x) {
                assert(name@[x] == DOT);
            }
        }
        assert(lower(Seq::<u8>::empty()) =~= r@);
        return r;
    }
    assert(last_dot(name@, d - 1));
    assert forall|x: int| last_dot(name@, x) implies x == d - 1 by {
        if x < d - 1 {
            assert(name@[d - 1] != DOT);
        }
    }
    let mut i = d;
    while i < n
        invariant
            d <= i <= n == name@.len(),
            r@ == lower(name@.subrange(d as int, i as int)),
        decreases n - i,
    {
        let b = name[i];
        let l = if 65 <= b && b <= 90 {
            b + 32
        } else {
            b
        };
        r.push(l);
        i = i + 1;
        assert(r@ =~= lower(name@.subrange(d as int, i as int)));
    }
    r
}

/// The content type to send for a file name; `application/octet-stream`
/// where the extension is unknown.
pub fn get_mime_type(name: &[u8]) -> (r: &'static str)
    ensures
        r.spec_bytes() == mime_of_name(name@),
{
    let e = lower_extension(name);
    let e = e.as_slice();
    if bytes_eq(e, "html".as_bytes()) || bytes_eq(e, "htm".as_bytes()) {
        "text/html"
    } else if bytes_eq(e, "css".as_bytes()) {
        "text/css"
    } else if bytes_eq(e, "js".as_bytes()) {
        "application/javascript"
    } else if bytes_eq(e, "json".as_bytes()) {
        "application/json"
    } else if bytes_eq(e, "txt".as_bytes()) {
        "text/plain"
    } else if bytes_eq(e, "png".as_bytes()) {
        "image/png"
    } else if bytes_eq(e, "jpg".as_bytes()) || bytes_eq(e, "jpeg".as_bytes()) {
        "image/jpeg"
    } else if bytes_eq(e, "gif".as_bytes()) {
        "image/gif"
    } else if bytes_eq(e, "svg".as_bytes()) {
        "image/svg+xml"
    } else if bytes_eq(e, "pdf".as_bytes()) {
        "application/pdf"
    } else {
        "application/octet-stream"
    }
}

} // verus!
