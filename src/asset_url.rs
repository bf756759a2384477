//! Public URLs of files under the asset root.
//!
//! A path is given as the byte strings of its components, in order; an
//! absolute path starts with the component `/`.
use crate::encoding::{append_encoded, decode_segment, encode_segment, lemma_decode_encoded};
use crate::error::LibraryError;
use vstd::prelude::*;

verus! {

/// The byte strings of a path's components.
pub open spec fn segments_view(p: Seq<Vec<u8>>) -> Seq<Seq<u8>> {
    p.map_values(|v: Vec<u8>| v@)
}

/// `p` is `root` or lies below it, comparing whole components.
pub open spec fn is_within(root: Seq<Seq<u8>>, p: Seq<Seq<u8>>) -> bool {
    root.len() <= p.len() && p.take(root.len() as int) == root
}

/// A component that names an entry of its directory: not empty, no `/`, and
/// neither `.` nor `..`.
pub open spec fn is_normal(seg: Seq<u8>) -> bool {
    seg.len() > 0 && !seg.contains(0x2fu8) && seg != seq![0x2eu8] && seg != seq![0x2eu8, 0x2eu8]
}

/// Every component is normal.
pub open spec fn all_normal(rel: Seq<Seq<u8>>) -> bool {
    forall|i: int| 0 <= i < rel.len() ==> is_normal(#[trigger] rel[i])
}

/// `p` is `root`, or lies below it through normal components only, so that
/// it cannot lead out of the root.
pub open spec fn is_asset_path(root: Seq<Seq<u8>>, p: Seq<Seq<u8>>) -> bool {
    is_within(root, p) && all_normal(relative_to(root, p))
}

/// The components of `p` below `root`.
pub open spec fn relative_to(root: Seq<Seq<u8>>, p: Seq<Seq<u8>>) -> Seq<Seq<u8>> {
    p.skip(root.len() as int)
}

/// `/` and the encoded segment, for each segment in order.
pub open spec fn url_tail(rel: Seq<Seq<u8>>) -> Seq<char>
    decreases rel.len(),
{
    if rel.len() == 0 {
        Seq::empty()
    } else {
        seq!['/'] + encode_segment(rel[0]) + url_tail(rel.skip(1))
    }
}

pub open spec fn assets_prefix() -> Seq<char> {
    seq!['/', 'a', 's', 's', 'e', 't', 's']
}

/// The URL under which the file at relative path `rel` is served.
pub open spec fn asset_url(rel: Seq<Seq<u8>>) -> Seq<char> {
    assets_prefix() + url_tail(rel)
}

/// Splits text of the form `/seg/seg...` at each `/` and percent-decodes each
/// segment.
pub open spec fn decode_path(s: Seq<char>) -> Seq<Seq<u8>>
    decreases s.len(),
{
    if s.len() == 0 || s[0] != '/' {
        Seq::empty()
    } else {
        let (d, r) = decode_segment(s.skip(1));
        if r.len() < s.len() {
            seq![d] + decode_path(r)
        } else {
            Seq::empty()
        }
    }
}

proof fn lemma_url_tail_push(rel: Seq<Seq<u8>>, x: Seq<u8>)
    ensures
        url_tail(rel.push(x)) == url_tail(rel) + seq!['/'] + encode_segment(x),
    decreases rel.len(),
{
    if rel.len() == 0 {
        assert(rel.push(x).skip(1) =~= Seq::<Seq<u8>>::empty());
        assert(url_tail(rel.push(x).skip(1)) == Seq::<char>::empty());
        assert(url_tail(rel.push(x)) =~= url_tail(rel) + seq!['/'] + encode_segment(x));
    } else {
        assert(rel.push(x).skip(1) =~= rel.skip(1).push(x));
        lemma_url_tail_push(rel.skip(1), x);
        assert(url_tail(rel.push(x)) =~= url_tail(rel) + seq!['/'] + encode_segment(x));
    }
}

proof fn lemma_decode_url_tail(rel: Seq<Seq<u8>>)
    ensures
        decode_path(url_tail(rel)) == rel,
    decreases rel.len(),
{
    if rel.len() == 0 {
        assert(decode_path(url_tail(rel)) =~= rel);
    } else {
        let t = url_tail(rel.skip(1));
        lemma_decode_url_tail(rel.skip(1));
        let s = url_tail(rel);
        assert(t.len() == 0 || t[0] == '/');
        assert(s.skip(1) =~= encode_segment(rel[0]) + t);
        lemma_decode_encoded(rel[0], t);
        assert(seq![rel[0]] + rel.skip(1) =~= rel);
    }
}

/// An asset URL starts with `/assets/` as soon as the path is below the root,
/// and percent-decoding what follows `/assets` gives back the path relative to
/// the root, segment by segment.
pub proof fn asset_url_recovers_path(root: Seq<Seq<u8>>, p: Seq<Seq<u8>>)
    requires
        is_within(root, p),
        root.len() < p.len(),
    ensures
        asset_url(relative_to(root, p)).take(8) == seq!['/', 'a', 's', 's', 'e', 't', 's', '/'],
        decode_path(asset_url(relative_to(root, p)).skip(7)) == relative_to(root, p),
{
    let rel = relative_to(root, p);
    assert(asset_url(rel).take(8) =~= seq!['/', 'a', 's', 's', 'e', 't', 's', '/']);
    assert(asset_url(rel).skip(7) =~= url_tail(rel));
    lemma_decode_url_tail(rel);
}

/// Two different paths below the same root never get the same asset URL.
pub proof fn asset_url_injective(root: Seq<Seq<u8>>, p1: Seq<Seq<u8>>, p2: Seq<Seq<u8>>)
    requires
        is_within(root, p1),
        is_within(root, p2),
        p1 != p2,
    ensures
        asset_url(relative_to(root, p1)) != asset_url(relative_to(root, p2)),
{
    let r1 = relative_to(root, p1);
    let r2 = relative_to(root, p2);
    if asset_url(r1) == asset_url(r2) {
        assert(asset_url(r1).skip(7) =~= url_tail(r1));
        assert(asset_url(r2).skip(7) =~= url_tail(r2));
        lemma_decode_url_tail(r1);
        lemma_decode_url_tail(r2);
        assert(p1 =~= root + r1);
        assert(p2 =~= root + r2);
    }
}

/// Whether two byte strings are equal.
pub fn same_bytes(a: &[u8], b: &[u8]) -> (r: bool)
    ensures
        r == (a@ == b@),
{
    if a.len() != b.len() {
        return false;
    }
    let mut i: usize = 0;
    while i < a.len()
        invariant
            a@.len() == b@.len(),
            i <= a@.len(),
            forall|j: int| 0 <= j < i ==> a@[j] == b@[j],
        decreases a@.len() - i,
    {
        if a[i] != b[i] {
            return false;
        }
        i = i + 1;
    }
    assert(a@ =~= b@);
    true
}

/// Whether a component is normal.
pub fn segment_is_normal(seg: &[u8]) -> (r: bool)
    ensures
        r == is_normal(seg@),
{
    let n = seg.len();
    if n == 0 {
        return false;
    }
    if n == 1 && seg[0] == 0x2e {
        assert(seg@ =~= seq![0x2eu8]);
        return false;
    }
    if n == 2 && seg[0] == 0x2e && seg[1] == 0x2e {
        assert(seg@ =~= seq![0x2eu8, 0x2eu8]);
        return false;
    }
    let mut i: usize = 0;
    while i < n
        invariant
            n == seg@.len(),
            i <= n,
            forall|j: int| 0 <= j < i ==> seg@[j] != 0x2fu8,
        decreases n - i,
    {
        if seg[i] == 0x2f {
            assert(seg@.contains(0x2fu8));
            return false;
        }
        i = i + 1;
    }
    if n == 1 {
        assert(seg@ != seq![0x2eu8]) by {
            if seg@ == seq![0x2eu8] {
                assert(seg@[0] == 0x2eu8);
            }
        }
    }
    if n == 2 {
        assert(seg@ != seq![0x2eu8, 0x2eu8]) by {
            if seg@ == seq![0x2eu8, 0x2eu8] {
                assert(seg@[0] == 0x2eu8 && seg@[1] == 0x2eu8);
            }
        }
    }
    true
}

/// Whether the path `p` is `root` or lies below it.
pub fn path_is_within(root: &Vec<Vec<u8>>, p: &Vec<Vec<u8>>) -> (r: bool)
    ensures
        r == is_within(segments_view(root@), segments_view(p@)),
{
    let ghost rv = segments_view(root@);
    let ghost pv = segments_view(p@);
    if root.len() > p.len() {
        return false;
    }
    let mut i: usize = 0;
    while i < root.len()
        invariant
            root@.len() <= p@.len(),
            i <= root@.len(),
            rv == segments_view(root@),
            pv == segments_view(p@),
            forall|j: int| 0 <= j < i ==> pv[j] == rv[j],
        decreases root@.len() - i,
    {
        if !same_bytes(root[i].as_slice(), p[i].as_slice()) {
            assert(pv.take(rv.len() as int)[i as int] != rv[i as int]);
            return false;
        }
        i = i + 1;
    }
    assert(pv.take(rv.len() as int) =~= rv);
    true
}

/// The public URL of the file at `path`: `/assets`, then for each component
/// below `asset_dir` a `/` and the component's bytes percent-encoded.
/// Fails with `OutsideRoot` exactly when `path` does not lie in `asset_dir`
/// through normal components (so `..` below the root is refused).
pub fn path_to_asset_url(asset_dir: &Vec<Vec<u8>>, path: &Vec<Vec<u8>>) -> (r: Result<String, LibraryError>)
    ensures
        match r {
            Ok(url) => is_asset_path(segments_view(asset_dir@), segments_view(path@))
                && url@ == asset_url(relative_to(segments_view(asset_dir@), segments_view(path@))),
            Err(e) => !is_asset_path(segments_view(asset_dir@), segments_view(path@))
                && e == LibraryError::OutsideRoot,
        },
{
    if !path_is_within(asset_dir, path) {
        return Err(LibraryError::OutsideRoot);
    }
    let ghost pv = segments_view(path@);
    let ghost k = asset_dir@.len() as int;
    let mut url = String::from_str("/assets");
    proof {
        reveal_strlit("/assets");
        assert(pv.skip(k).take(0) =~= Seq::<Seq<u8>>::empty());
    }
    let mut i: usize = asset_dir.len();
    while i < path.len()
        invariant
            k <= i <= path@.len(),
            pv == segments_view(path@),
            k == asset_dir@.len(),
            url@ == assets_prefix() + url_tail(pv.skip(k).take(i - k)),
            is_within(segments_view(asset_dir@), pv),
            forall|j: int| k <= j < i ==> is_normal(#[trigger] pv[j]),
        decreases path@.len() - i,
    {
        if !segment_is_normal(path[i].as_slice()) {
            assert(relative_to(segments_view(asset_dir@), pv)[i - k] == pv[i as int]);
            return Err(LibraryError::OutsideRoot);
        }
        proof {
            lemma_url_tail_push(pv.skip(k).take(i - k), pv[i as int]);
            assert(pv.skip(k).take(i - k).push(pv[i as int]) =~= pv.skip(k).take(i + 1 - k));
        }
        url.append("/");
        proof {
            reveal_strlit("/");
        }
        append_encoded(&mut url, path[i].as_slice());
        i = i + 1;
    }
    assert(pv.skip(k).take(i - k) =~= pv.skip(k));
    assert forall|j: int| 0 <= j < relative_to(segments_view(asset_dir@), pv).len() implies is_normal(
        #[trigger] relative_to(segments_view(asset_dir@), pv)[j],
    ) by {
        assert(relative_to(segments_view(asset_dir@), pv)[j] == pv[j + k]);
    }
    Ok(url)
}

} // verus!
