//! The library's model of an absolute URL: a scheme, a host, and a path,
//! each held as plain bytes. Every document discovered by a source carries
//! a URL in this form, so absoluteness holds by construction.

use vstd::prelude::*;
use crate::text;

verus! {

/// An absolute URL, split into the parts the pipeline reads.
///
/// Rendered as text it reads `scheme "://" host path`.
#[derive(Debug, PartialEq, Eq)]
pub struct DocUrl {
    pub scheme: Vec<u8>,
    pub host: Vec<u8>,
    pub path: Vec<u8>,
}

/// The mathematical model of a URL: its three parts as byte sequences.
pub ghost struct UrlModel {
    pub scheme: Seq<u8>,
    pub host: Seq<u8>,
    pub path: Seq<u8>,
}

impl View for DocUrl {
    type V = UrlModel;

    open spec fn view(&self) -> UrlModel {
        UrlModel { scheme: self.scheme@, host: self.host@, path: self.path@ }
    }
}

impl UrlModel {
    /// A well-formed URL: in particular, it is absolute (it has a scheme).
    pub open spec fn wf(self) -> bool {
        scheme_wf(self.scheme) && host_wf(self.host) && path_wf(self.path)
    }

    /// The URL as text.
    pub open spec fn text(self) -> Seq<u8> {
        self.scheme + seq![58u8, 47u8, 47u8] + self.host + self.path
    }
}

pub open spec fn is_lower_alpha(c: u8) -> bool {
    97 <= c <= 122
}

pub open spec fn scheme_wf(s: Seq<u8>) -> bool {
    s.len() > 0 && forall|i: int| 0 <= i < s.len() ==> is_lower_alpha(#[trigger] s[i])
}

pub open spec fn host_wf(h: Seq<u8>) -> bool {
    forall|i: int| 0 <= i < h.len() ==> #[trigger] h[i] != 47
}

pub open spec fn path_wf(p: Seq<u8>) -> bool {
    p.len() > 0 && p[0] == 47
}

impl Clone for DocUrl {
    /// An equal copy, up to the view.
    fn clone(&self) -> (r: Self)
        ensures
            r@ == self@,
    {
        DocUrl { scheme: self.scheme.clone(), host: self.host.clone(), path: self.path.clone() }
    }
}

impl DocUrl {
    /// A well-formed URL: in particular, it is absolute (it has a scheme).
    pub open spec fn wf(self) -> bool {
        self@.wf()
    }

    /// The URL as text.
    pub fn to_text(&self) -> (r: Vec<u8>)
        ensures
            r@ == self@.text(),
    {
        let mut out = self.scheme.clone();
        out.push(58);
        out.push(47);
        out.push(47);
        let ghost head = out@;
        let out2 = crate::text::concat(out.as_slice(), self.host.as_slice());
        let out3 = crate::text::concat(out2.as_slice(), self.path.as_slice());
        proof {
            assert(head =~= self.scheme@ + seq![58u8, 47u8, 47u8]);
            assert(out3@ =~= self@.text());
        }
        out3
    }

    /// Does the URL's path end with a slash?
    pub fn ends_with_slash(&self) -> (r: bool)
        requires
            self.wf(),
        ensures
            r == (self@.path.last() == 47),
    {
        self.path[self.path.len() - 1] == 47
    }
}

/// First index at or after `i` that holds no lower-case letter.
pub open spec fn alpha_run_end(s: Seq<u8>, i: int) -> int
    decreases s.len() - i,
{
    if i < 0 || i >= s.len() || !is_lower_alpha(s[i]) {
        i
    } else {
        alpha_run_end(s, i + 1)
    }
}

/// First index at or after `i` that holds a slash, or the length.
pub open spec fn slash_scan(s: Seq<u8>, i: int) -> int
    decreases s.len() - i,
{
    if i < 0 || i >= s.len() {
        s.len() as int
    } else if s[i] == 47 {
        i
    } else {
        slash_scan(s, i + 1)
    }
}

/// Whether `s` is an absolute URL: a scheme of letters, then `://`.
pub open spec fn url_ok(s: Seq<u8>) -> bool {
    let k = alpha_run_end(s, 0);
    k > 0 && k + 3 <= s.len() && s[k] == 58 && s[k + 1] == 47 && s[k + 2] == 47
}

pub open spec fn spec_scheme(s: Seq<u8>) -> Seq<u8> {
    s.subrange(0, alpha_run_end(s, 0))
}

pub open spec fn spec_host(s: Seq<u8>) -> Seq<u8> {
    s.subrange(alpha_run_end(s, 0) + 3, slash_scan(s, alpha_run_end(s, 0) + 3))
}

/// The path part; a URL with no path renders as the root path.
pub open spec fn spec_path(s: Seq<u8>) -> Seq<u8> {
    if slash_scan(s, alpha_run_end(s, 0) + 3) < s.len() {
        s.subrange(slash_scan(s, alpha_run_end(s, 0) + 3), s.len() as int)
    } else {
        seq![47u8]
    }
}

/// Parse an absolute URL into its parts.
pub fn parse_abs_url(s: &[u8]) -> (r: Option<DocUrl>)
    ensures
        r.is_some() == url_ok(s@),
        r matches Some(u) ==> u@.scheme == spec_scheme(s@) && u@.host == spec_host(s@) && u@.path
            == spec_path(s@) && u.wf(),
{
    let mut k: usize = 0;
    loop
        invariant_except_break
            0 <= k <= s@.len(),
            alpha_run_end(s@, 0) == alpha_run_end(s@, k as int),
            forall|j: int| 0 <= j < k ==> is_lower_alpha(#[trigger] s@[j]),
        ensures
            0 <= k <= s@.len(),
            alpha_run_end(s@, 0) == k as int,
            forall|j: int| 0 <= j < k ==> is_lower_alpha(#[trigger] s@[j]),
        decreases s@.len() - k,
    {
        if k >= s.len() {
            proof {
                assert(alpha_run_end(s@, k as int) == k as int);
            }
            break;
        }
        let c = s[k];
        if !(97 <= c && c <= 122) {
            proof {
                assert(alpha_run_end(s@, k as int) == k as int);
            }
            break;
        }
        k += 1;
    }
    if k == 0 || s.len() < 3 || k > s.len() - 3 {
        return None;
    }
    if !(s[k] == 58 && s[k + 1] == 47 && s[k + 2] == 47) {
        return None;
    }
    let hs: usize = k + 3;
    let mut he: usize = hs;
    loop
        invariant_except_break
            hs <= he <= s@.len(),
            slash_scan(s@, hs as int) == slash_scan(s@, he as int),
            forall|j: int| hs <= j < he ==> #[trigger] s@[j] != 47,
        ensures
            hs <= he <= s@.len(),
            slash_scan(s@, hs as int) == he as int,
            he < s@.len() ==> s@[he as int] == 47,
            forall|j: int| hs <= j < he ==> #[trigger] s@[j] != 47,
        decreases s@.len() - he,
    {
        if he >= s.len() {
            proof {
                assert(slash_scan(s@, he as int) == s@.len() as int);
            }
            break;
        }
        if s[he] == 47 {
            proof {
                assert(slash_scan(s@, he as int) == he as int);
            }
            break;
        }
        he += 1;
    }
    let scheme = text::copy_range(s, 0, k);
    let host = text::copy_range(s, hs, he);
    let path = if he < s.len() {
        text::copy_range(s, he, s.len())
    } else {
        let root: [u8; 1] = [47];
        text::to_vec(root.as_slice())
    };
    proof {
        assert(path@ == spec_path(s@));
    }
    Some(DocUrl { scheme, host, path })
}

/// The index's slash-defensive join: one of two meeting slashes is
/// dropped, otherwise the relative part is appended as it stands.
pub open spec fn join_paths(base: Seq<u8>, rel: Seq<u8>) -> Seq<u8> {
    if base.len() > 0 && base.last() == 47 && rel.len() > 0 && rel[0] == 47 {
        base + rel.skip(1)
    } else {
        base + rel
    }
}

/// Join a path relative to a base URL, as the directory index does.
pub fn join(base: &DocUrl, rel: &[u8]) -> (r: DocUrl)
    requires
        base.wf(),
    ensures
        r@.scheme == base@.scheme,
        r@.host == base@.host,
        r@.path == join_paths(base@.path, rel@),
        r.wf(),
{
    let path = if base.ends_with_slash() && rel.len() > 0 && rel[0] == 47 {
        let tail = text::copy_range(rel, 1, rel.len());
        text::concat(base.path.as_slice(), tail.as_slice())
    } else {
        text::concat(base.path.as_slice(), rel)
    };
    proof {
        assert(rel@.subrange(1, rel@.len() as int) =~= rel@.skip(1));
    }
    DocUrl { scheme: base.scheme.clone(), host: base.host.clone(), path }
}

/// Index of the last slash of a well-formed path.
pub open spec fn last_slash(p: Seq<u8>) -> int
    decreases p.len(),
{
    if p.len() == 0 {
        -1
    } else if p.last() == 47 {
        p.len() - 1
    } else {
        last_slash(p.drop_last())
    }
}

/// The directory part of a path: everything up to its last slash.
pub open spec fn dir_of(p: Seq<u8>) -> Seq<u8> {
    p.subrange(0, last_slash(p) + 1)
}

pub proof fn lemma_last_slash_bounds(p: Seq<u8>)
    requires
        path_wf(p),
    ensures
        0 <= last_slash(p) < p.len(),
        p[last_slash(p)] == 47,
    decreases p.len(),
{
    if p.last() != 47 {
        assert(path_wf(p.drop_last()));
        lemma_last_slash_bounds(p.drop_last());
    }
}

/// Is there a `..` segment in this relative path?
pub open spec fn dotdot_at(p: Seq<u8>, i: int) -> bool {
    &&& 0 <= i
    &&& i + 2 <= p.len()
    &&& (i == 0 || p[i - 1] == 47)
    &&& p[i] == 46
    &&& p[i + 1] == 46
    &&& (i + 2 == p.len() || p[i + 2] == 47)
}

pub open spec fn has_dotdot(p: Seq<u8>) -> bool {
    exists|i: int| dotdot_at(p, i)
}

/// Scan for a `..` segment.
pub fn find_dotdot(p: &[u8]) -> (r: bool)
    ensures
        r == has_dotdot(p@),
{
    if p.len() < 2 {
        proof {
            assert(forall|i: int| !dotdot_at(p@, i));
        }
        return false;
    }
    let mut i: usize = 0;
    while i <= p.len() - 2
        invariant
            p@.len() >= 2,
            0 <= i,
            i <= p@.len(),
            forall|j: int| 0 <= j < i ==> !dotdot_at(p@, j),
        decreases p@.len() - i,
    {
        if p[i] == 46 && p[i + 1] == 46 && (i == 0 || p[i - 1] == 47) && (i + 2 == p.len() || p[i
            + 2] == 47) {
            proof {
                assert(dotdot_at(p@, i as int));
            }
            return true;
        }
        i += 1;
    }
    proof {
        assert(forall|j: int| 0 <= j < i ==> !dotdot_at(p@, j));
        assert(forall|j: int| dotdot_at(p@, j) ==> 0 <= j && j + 2 <= p@.len());
    }
    false
}

/// A usable relative name: nonempty, not absolute, and free of `..`.
pub open spec fn rel_ok(rem: Seq<u8>) -> bool {
    rem.len() > 0 && rem[0] != 47 && !has_dotdot(rem)
}

/// What making a document URL relative to its distribution base yields.
pub open spec fn make_relative_spec(base: UrlModel, doc: UrlModel) -> Option<Seq<u8>> {
    let dir = dir_of(base.path);
    if base.scheme == doc.scheme && base.host == doc.host && text::is_prefix_of(dir, doc.path)
        && rel_ok(doc.path.skip(dir.len() as int)) {
        Some(doc.path.skip(dir.len() as int))
    } else {
        None
    }
}

/// Make `doc` relative to the directory of `base`, if it lies under it.
pub fn make_relative(base: &DocUrl, doc: &DocUrl) -> (r: Option<Vec<u8>>)
    requires
        base.wf(),
        doc.wf(),
    ensures
        r matches Some(v) ==> make_relative_spec(base@, doc@) == Some(v@),
        r.is_none() ==> make_relative_spec(base@, doc@) is None,
{
    proof {
        lemma_last_slash_bounds(base.path@);
    }
    if !text::eq_bytes(base.scheme.as_slice(), doc.scheme.as_slice()) {
        return None;
    }
    if !text::eq_bytes(base.host.as_slice(), doc.host.as_slice()) {
        return None;
    }
    // find the last slash of the base path
    let mut ls: usize = base.path.len() - 1;
    loop
        invariant_except_break
            0 <= ls < base.path@.len(),
            path_wf(base.path@),
            last_slash(base.path@) <= ls as int,
        ensures
            0 <= ls < base.path@.len(),
            ls as int == last_slash(base.path@),
        decreases ls,
    {
        if base.path[ls] == 47 {
            proof {
                lemma_slash_le_last(base.path@, ls as int);
            }
            break;
        }
        proof {
            lemma_last_slash_bounds(base.path@);
        }
        ls -= 1;
    }
    let dir_len: usize = ls + 1;
    let dir = text::copy_range(base.path.as_slice(), 0, dir_len);
    proof {
        assert(dir@ == dir_of(base.path@));
    }
    if !text::starts_with(doc.path.as_slice(), dir.as_slice()) {
        return None;
    }
    let rem = text::copy_range(doc.path.as_slice(), dir_len, doc.path.len());
    proof {
        assert(rem@ =~= doc.path@.skip(dir_of(base.path@).len() as int));
    }
    if rem.len() == 0 || rem[0] == 47 || find_dotdot(rem.as_slice()) {
        return None;
    }
    Some(rem)
}

/// A slash at `i` puts the last slash at or after `i`.
pub proof fn lemma_slash_le_last(p: Seq<u8>, i: int)
    requires
        0 <= i < p.len(),
        p[i] == 47,
    ensures
        i <= last_slash(p),
    decreases p.len(),
{
    if p.last() != 47 {
        lemma_slash_le_last(p.drop_last(), i);
    }
}

/// A run of letters from `i` through `k` ends exactly at `k`.
proof fn lemma_alpha_run_exact(s: Seq<u8>, i: int, k: int)
    requires
        0 <= i <= k <= s.len(),
        forall|j: int| i <= j < k ==> is_lower_alpha(#[trigger] s[j]),
        k < s.len() ==> !is_lower_alpha(s[k]),
    ensures
        alpha_run_end(s, i) == k,
    decreases k - i,
{
    if i < k {
        lemma_alpha_run_exact(s, i + 1, k);
    }
}

/// A slash-free run from `i` through `k` scans exactly to `k`.
proof fn lemma_slash_scan_exact(s: Seq<u8>, i: int, k: int)
    requires
        0 <= i <= k <= s.len(),
        forall|j: int| i <= j < k ==> #[trigger] s[j] != 47,
        k < s.len() ==> s[k] == 47,
    ensures
        slash_scan(s, i) == if k == s.len() {
            s.len() as int
        } else {
            k
        },
    decreases k - i,
{
    if i < k {
        lemma_slash_scan_exact(s, i + 1, k);
    }
}

/// A well-formed URL's text parses back to the very same parts: writing
/// a URL into a stored document and reading it back loses nothing.
pub proof fn lemma_url_text_round_trip(u: UrlModel)
    requires
        u.wf(),
    ensures
        url_ok(u.text()),
        spec_scheme(u.text()) == u.scheme,
        spec_host(u.text()) == u.host,
        spec_path(u.text()) == u.path,
{
    let t = u.text();
    let k = u.scheme.len() as int;
    assert(t[k] == 58);
    assert forall|j: int| 0 <= j < k implies is_lower_alpha(#[trigger] t[j]) by {
        assert(t[j] == u.scheme[j]);
    }
    lemma_alpha_run_exact(t, 0, k);
    assert(spec_scheme(t) =~= u.scheme);
    let hs = k + 3;
    let he = hs + u.host.len() as int;
    assert forall|j: int| hs <= j < he implies #[trigger] t[j] != 47 by {
        assert(t[j] == u.host[j - hs]);
    }
    assert(t[he] == u.path[0]);
    lemma_slash_scan_exact(t, hs, he);
    assert(spec_host(t) =~= u.host);
    assert(spec_path(t) =~= u.path);
}

} // verus!
