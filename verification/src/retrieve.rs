//! Retrieval: a discovered document plus its bytes, optional detached
//! signature, optional expected digests, and retrieval metadata.
//!
//! The digests themselves come from the `sha2` crate through trusted
//! wrappers; everything around them — where to fetch a digest or
//! signature, which token of a digest file counts, and how the document
//! is assembled — is verified.

use vstd::prelude::*;
use sha2::Digest;
use crate::discover::DiscoveredDoc;
use crate::discover::DocModel;
use crate::text;
use crate::urls::DocUrl;
use crate::urls::UrlModel;
use crate::lits;

verus! {

/// What the SHA-256 of a byte string is: the digest depends on the bytes
/// alone.
pub uninterp spec fn sha256_of(data: Seq<u8>) -> Seq<u8>;

/// What the SHA-512 of a byte string is: the digest depends on the bytes
/// alone.
pub uninterp spec fn sha512_of(data: Seq<u8>) -> Seq<u8>;

/// Relies on sha2::Sha256: a 32-byte digest of the data alone.
#[verifier::external_body]
fn sha256_digest(data: &[u8]) -> (r: Vec<u8>)
    ensures
        r@ == sha256_of(data@),
        r@.len() == 32,
{
    sha2::Sha256::digest(data).to_vec()
}

/// Relies on sha2::Sha512: a 64-byte digest of the data alone.
#[verifier::external_body]
fn sha512_digest(data: &[u8]) -> (r: Vec<u8>)
    ensures
        r@ == sha512_of(data@),
        r@.len() == 64,
{
    sha2::Sha512::digest(data).to_vec()
}

/// The lower-case hex digit for a value below sixteen.
pub open spec fn hex_digit(v: int) -> u8 {
    if v < 10 {
        (48 + v) as u8
    } else {
        (87 + v) as u8
    }
}

/// Lower-case hex encoding, two digits per byte.
pub open spec fn hex_lower(s: Seq<u8>) -> Seq<u8>
    decreases s.len(),
{
    if s.len() == 0 {
        seq![]
    } else {
        seq![hex_digit(s[0] as int / 16), hex_digit(s[0] as int % 16)] + hex_lower(s.skip(1))
    }
}

/// Encode bytes as lower-case hex.
pub fn hex_lower_x(s: &[u8]) -> (r: Vec<u8>)
    ensures
        r@ == hex_lower(s@),
{
    let mut out: Vec<u8> = Vec::new();
    let mut i: usize = 0;
    proof {
        assert(s@.skip(0) =~= s@);
        assert(out@ + hex_lower(s@) =~= hex_lower(s@));
    }
    while i < s.len()
        invariant
            i <= s@.len(),
            hex_lower(s@) == out@ + hex_lower(s@.skip(i as int)),
        decreases s@.len() - i,
    {
        let b = s[i];
        proof {
            assert(s@.skip(i as int)[0] == s@[i as int]);
            assert(s@.skip(i as int).skip(1) =~= s@.skip(i + 1));
        }
        let hi: u8 = b / 16;
        let lo: u8 = b % 16;
        let ghost old_out = out@;
        out.push(
            if hi < 10 {
                48 + hi
            } else {
                87 + hi
            },
        );
        out.push(
            if lo < 10 {
                48 + lo
            } else {
                87 + lo
            },
        );
        proof {
            assert(out@ =~= old_out + seq![hex_digit(b as int / 16), hex_digit(b as int % 16)]);
            assert(old_out + (seq![hex_digit(b as int / 16), hex_digit(b as int % 16)]
                + hex_lower(s@.skip(i + 1))) =~= out@ + hex_lower(s@.skip(i + 1)));
        }
        i += 1;
    }
    proof {
        assert(hex_lower(s@.skip(i as int)) =~= Seq::<u8>::empty());
        assert(out@ + Seq::<u8>::empty() =~= out@);
    }
    out
}

pub open spec fn is_ws(c: u8) -> bool {
    c == 32 || c == 9 || c == 10 || c == 13
}

/// First index at or after `i` that is no whitespace.
pub open spec fn ws_end(s: Seq<u8>, i: int) -> int
    decreases s.len() - i,
{
    if i < 0 || i >= s.len() || !is_ws(s[i]) {
        i
    } else {
        ws_end(s, i + 1)
    }
}

/// First index at or after `i` that is whitespace, or the length.
pub open spec fn token_end(s: Seq<u8>, i: int) -> int
    decreases s.len() - i,
{
    if i < 0 || i >= s.len() {
        s.len() as int
    } else if is_ws(s[i]) {
        i
    } else {
        token_end(s, i + 1)
    }
}

/// The first whitespace-delimited token of a digest file line.
pub open spec fn first_token(s: Seq<u8>) -> Seq<u8> {
    s.subrange(ws_end(s, 0), token_end(s, ws_end(s, 0)))
}

/// Take the first whitespace-delimited token: leading whitespace is
/// skipped, anything after the token (a file name, a comment) is dropped.
pub fn first_token_x(s: &[u8]) -> (r: Vec<u8>)
    ensures
        r@ == first_token(s@),
{
    let mut a: usize = 0;
    loop
        invariant_except_break
            0 <= a <= s@.len(),
            ws_end(s@, 0) == ws_end(s@, a as int),
        ensures
            0 <= a <= s@.len(),
            ws_end(s@, 0) == a as int,
        decreases s@.len() - a,
    {
        if a >= s.len() {
            proof {
                assert(ws_end(s@, a as int) == a as int);
            }
            break;
        }
        let c = s[a];
        if !(c == 32 || c == 9 || c == 10 || c == 13) {
            proof {
                assert(ws_end(s@, a as int) == a as int);
            }
            break;
        }
        a += 1;
    }
    let mut b: usize = a;
    loop
        invariant_except_break
            a <= b <= s@.len(),
            token_end(s@, a as int) == token_end(s@, b as int),
        ensures
            a <= b <= s@.len(),
            token_end(s@, a as int) == b as int,
        decreases s@.len() - b,
    {
        if b >= s.len() {
            proof {
                assert(token_end(s@, b as int) == s@.len() as int);
            }
            break;
        }
        let c = s[b];
        if c == 32 || c == 9 || c == 10 || c == 13 {
            proof {
                assert(token_end(s@, b as int) == b as int);
            }
            break;
        }
        b += 1;
    }
    text::copy_range(s, a, b)
}

/// A URL beside the document: the document's URL with a suffix appended.
pub open spec fn sibling(u: UrlModel, suf: Seq<u8>) -> UrlModel {
    UrlModel { scheme: u.scheme, host: u.host, path: u.path + suf }
}

/// Append a suffix to a document URL.
pub fn with_suffix(u: &DocUrl, suf: &[u8]) -> (r: DocUrl)
    requires
        u.wf(),
    ensures
        r@ == sibling(u@, suf@),
        r.wf(),
{
    let path = text::concat(u.path.as_slice(), suf);
    DocUrl { scheme: u.scheme.clone(), host: u.host.clone(), path }
}

/// Where the detached signature is fetched: the URL the index declared,
/// else the conventional `.asc` sibling.
pub open spec fn signature_fetch_spec(d: DocModel) -> UrlModel {
    match d.signature {
        Option::Some(u) => u,
        Option::None => sibling(d.url, lits::spec_dot_asc()),
    }
}

pub fn signature_fetch_url(d: &DiscoveredDoc) -> (r: DocUrl)
    requires
        d@.wf(),
        d@.signature matches Some(u) ==> u.wf(),
    ensures
        r@ == signature_fetch_spec(d@),
        r.wf(),
{
    match &d.signature {
        Option::Some(u) => u.clone(),
        Option::None => {
            let suf = lits::dot_asc();
            with_suffix(&d.url, suf.as_slice())
        },
    }
}

/// Where a digest is fetched: the declared digest URL if its path ends
/// with the algorithm's suffix, nowhere if a digest URL of another kind
/// is declared, else the conventional sibling.
pub open spec fn digest_fetch_spec(d: DocModel, suf: Seq<u8>) -> Option<UrlModel> {
    match d.digest {
        Option::Some(u) => if text::is_suffix_of(suf, u.path) {
            Option::Some(u)
        } else {
            Option::None
        },
        Option::None => Option::Some(sibling(d.url, suf)),
    }
}

fn digest_fetch_url(d: &DiscoveredDoc, suf: &[u8]) -> (r: Option<DocUrl>)
    requires
        d@.wf(),
        d@.digest matches Some(u) ==> u.wf(),
    ensures
        match digest_fetch_spec(d@, suf@) {
            Option::Some(m) => r matches Some(u) && u@ == m && u.wf(),
            Option::None => r is None,
        },
{
    match &d.digest {
        Option::Some(u) => {
            if text::ends_with(u.path.as_slice(), suf) {
                Option::Some(u.clone())
            } else {
                Option::None
            }
        },
        Option::None => Option::Some(with_suffix(&d.url, suf)),
    }
}

/// Where the SHA-256 digest is fetched, if anywhere.
pub fn sha256_fetch_url(d: &DiscoveredDoc) -> (r: Option<DocUrl>)
    requires
        d@.wf(),
        d@.digest matches Some(u) ==> u.wf(),
    ensures
        match digest_fetch_spec(d@, lits::spec_dot_sha256()) {
            Option::Some(m) => r matches Some(u) && u@ == m && u.wf(),
            Option::None => r is None,
        },
{
    let suf = lits::dot_sha256();
    digest_fetch_url(d, suf.as_slice())
}

/// Where the SHA-512 digest is fetched, if anywhere.
pub fn sha512_fetch_url(d: &DiscoveredDoc) -> (r: Option<DocUrl>)
    requires
        d@.wf(),
        d@.digest matches Some(u) ==> u.wf(),
    ensures
        match digest_fetch_spec(d@, lits::spec_dot_sha512()) {
            Option::Some(m) => r matches Some(u) && u@ == m && u.wf(),
            Option::None => r is None,
        },
{
    let suf = lits::dot_sha512();
    digest_fetch_url(d, suf.as_slice())
}

/// An expected digest next to the hash of what was actually retrieved.
#[derive(Debug, PartialEq, Eq)]
pub struct RetrievedDigest {
    /// The first token of the fetched digest file.
    pub expected: Vec<u8>,
    /// The computed digest of the retrieved data, lower-case hex.
    pub actual: Vec<u8>,
}

pub ghost struct DigestModel {
    pub expected: Seq<u8>,
    pub actual: Seq<u8>,
}

impl View for RetrievedDigest {
    type V = DigestModel;

    open spec fn view(&self) -> DigestModel {
        DigestModel { expected: self.expected@, actual: self.actual@ }
    }
}

impl Clone for RetrievedDigest {
    /// An equal copy, up to the view.
    fn clone(&self) -> (r: Self)
        ensures
            r@ == self@,
    {
        RetrievedDigest { expected: self.expected.clone(), actual: self.actual.clone() }
    }
}

/// What the server said about the retrieved representation.
#[derive(Debug, PartialEq, Eq)]
pub struct RetrievalMetadata {
    /// The server-reported last modification, epoch seconds.
    pub last_modification: Option<i64>,
    /// The entity tag, if the server sent one.
    pub etag: Option<Vec<u8>>,
}

pub ghost struct RetrievalMetaModel {
    pub last_modification: Option<int>,
    pub etag: Option<Seq<u8>>,
}

impl View for RetrievalMetadata {
    type V = RetrievalMetaModel;

    open spec fn view(&self) -> RetrievalMetaModel {
        RetrievalMetaModel {
            last_modification: match self.last_modification {
                Option::Some(t) => Option::Some(t as int),
                Option::None => Option::None,
            },
            etag: match self.etag {
                Option::Some(ref e) => Option::Some(e@),
                Option::None => Option::None,
            },
        }
    }
}

impl Clone for RetrievalMetadata {
    /// An equal copy, up to the view.
    fn clone(&self) -> (r: Self)
        ensures
            r@ == self@,
    {
        RetrievalMetadata {
            last_modification: self.last_modification,
            etag: match &self.etag {
                Option::Some(e) => Option::Some(e.clone()),
                Option::None => Option::None,
            },
        }
    }
}

/// A retrieved document: the discovery record plus everything fetched.
#[derive(Debug, PartialEq, Eq)]
pub struct RetrievedDoc {
    pub discovered: DiscoveredDoc,
    pub data: Vec<u8>,
    pub signature: Option<Vec<u8>>,
    pub sha256: Option<RetrievedDigest>,
    pub sha512: Option<RetrievedDigest>,
    pub metadata: RetrievalMetadata,
}

pub ghost struct RetrievedModel {
    pub discovered: DocModel,
    pub data: Seq<u8>,
    pub signature: Option<Seq<u8>>,
    pub sha256: Option<DigestModel>,
    pub sha512: Option<DigestModel>,
    pub metadata: RetrievalMetaModel,
}

impl View for RetrievedDoc {
    type V = RetrievedModel;

    open spec fn view(&self) -> RetrievedModel {
        RetrievedModel {
            discovered: self.discovered@,
            data: self.data@,
            signature: match self.signature {
                Option::Some(ref s) => Option::Some(s@),
                Option::None => Option::None,
            },
            sha256: match self.sha256 {
                Option::Some(ref d) => Option::Some(d@),
                Option::None => Option::None,
            },
            sha512: match self.sha512 {
                Option::Some(ref d) => Option::Some(d@),
                Option::None => Option::None,
            },
            metadata: self.metadata@,
        }
    }
}

/// The digest record an optional digest line gives rise to, once the
/// retrieved data is known.
pub open spec fn digest_of_line(line: Option<Seq<u8>>, digest_hex: Seq<u8>) -> Option<
    DigestModel,
> {
    match line {
        Option::None => Option::None,
        Option::Some(l) => Option::Some(
            DigestModel { expected: first_token(l), actual: digest_hex },
        ),
    }
}

/// Assemble a retrieved document from its fetched parts.
///
/// For each digest line that was fetched, the first token becomes the
/// expected digest, and the data's own hash — SHA-256 or SHA-512 of
/// exactly the retrieved bytes — is recorded beside it.
pub fn assemble_retrieved(
    discovered: DiscoveredDoc,
    data: Vec<u8>,
    signature: Option<Vec<u8>>,
    sha256_line: Option<Vec<u8>>,
    sha512_line: Option<Vec<u8>>,
    last_modification: Option<i64>,
    etag: Option<Vec<u8>>,
) -> (r: RetrievedDoc)
    ensures
        r@.discovered == discovered@,
        r@.data == data@,
        r@.signature == match signature {
            Option::Some(s) => Option::Some(s@),
            Option::None => Option::<Seq<u8>>::None,
        },
        r@.sha256 == digest_of_line(
            match sha256_line {
                Option::Some(l) => Option::Some(l@),
                Option::None => Option::<Seq<u8>>::None,
            },
            hex_lower(sha256_of(data@)),
        ),
        r@.sha512 == digest_of_line(
            match sha512_line {
                Option::Some(l) => Option::Some(l@),
                Option::None => Option::<Seq<u8>>::None,
            },
            hex_lower(sha512_of(data@)),
        ),
        r@.metadata.last_modification == match last_modification {
            Option::Some(t) => Option::Some(t as int),
            Option::None => Option::<int>::None,
        },
        r@.metadata.etag == match etag {
            Option::Some(e) => Option::Some(e@),
            Option::None => Option::<Seq<u8>>::None,
        },
{
    let sha256 = match &sha256_line {
        Option::Some(l) => {
            let expected = first_token_x(l.as_slice());
            let digest = sha256_digest(data.as_slice());
            let actual = hex_lower_x(digest.as_slice());
            Option::Some(RetrievedDigest { expected, actual })
        },
        Option::None => Option::None,
    };
    let sha512 = match &sha512_line {
        Option::Some(l) => {
            let expected = first_token_x(l.as_slice());
            let digest = sha512_digest(data.as_slice());
            let actual = hex_lower_x(digest.as_slice());
            Option::Some(RetrievedDigest { expected, actual })
        },
        Option::None => Option::None,
    };
    RetrievedDoc {
        discovered,
        data,
        signature,
        sha256,
        sha512,
        metadata: RetrievalMetadata { last_modification, etag },
    }
}

} // verus!
