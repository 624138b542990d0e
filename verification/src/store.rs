//! The store: a canonical directory tree under a base path that a file
//! source can later re-read.
//!
//! `metadata/provider-metadata.json` holds the provider metadata,
//! `metadata/keys/<fingerprint>.txt` the keys, and each distribution gets
//! `<host>/<percent-decoded path>` under the base; `..` segments are
//! refused. All writes are described as plain path/data pairs — a plan —
//! which the surrounding application performs atomically.

use vstd::prelude::*;
use crate::errors::StoreError;
use crate::lits;
use crate::metadata::MetadataModel;
use crate::metadata::ProviderMetadata;
use crate::retrieve::RetrievedDoc;
use crate::retrieve::RetrievedModel;
use crate::text;
use crate::urls;
use crate::urls::DocUrl;
use crate::urls::UrlModel;

verus! {

pub open spec fn hex_val(c: u8) -> int {
    if 48 <= c <= 57 {
        c - 48
    } else if 97 <= c <= 102 {
        c - 87
    } else if 65 <= c <= 70 {
        c - 55
    } else {
        -1
    }
}

pub open spec fn is_hex(c: u8) -> bool {
    hex_val(c) >= 0
}

/// Percent-decoding; malformed escapes are carried through unchanged.
pub open spec fn pct_decode(s: Seq<u8>) -> Seq<u8>
    decreases s.len(),
{
    if s.len() == 0 {
        seq![]
    } else if s[0] == 37 && s.len() >= 3 && is_hex(s[1]) && is_hex(s[2]) {
        seq![(hex_val(s[1]) * 16 + hex_val(s[2])) as u8] + pct_decode(s.skip(3))
    } else {
        seq![s[0]] + pct_decode(s.skip(1))
    }
}

fn hex_val_x(c: u8) -> (r: u8)
    requires
        is_hex(c),
    ensures
        r as int == hex_val(c),
        r < 16,
{
    if 48 <= c && c <= 57 {
        c - 48
    } else if 97 <= c && c <= 102 {
        c - 87
    } else {
        c - 55
    }
}

fn is_hex_x(c: u8) -> (r: bool)
    ensures
        r == is_hex(c),
{
    (48 <= c && c <= 57) || (97 <= c && c <= 102) || (65 <= c && c <= 70)
}

/// Percent-decode a byte string.
pub fn pct_decode_x(s: &[u8]) -> (r: Vec<u8>)
    ensures
        r@ == pct_decode(s@),
{
    let mut out: Vec<u8> = Vec::new();
    let mut i: usize = 0;
    proof {
        assert(s@.skip(0) =~= s@);
        assert(out@ + pct_decode(s@) =~= pct_decode(s@));
    }
    while i < s.len()
        invariant
            i <= s@.len(),
            pct_decode(s@) == out@ + pct_decode(s@.skip(i as int)),
        decreases s@.len() - i,
    {
        proof {
            assert(s@.skip(i as int)[0] == s@[i as int]);
        }
        let c = s[i];
        let ghost old_out = out@;
        let ghost rest = s@.skip(i as int);
        if c == 37 && s.len() - i >= 3 && is_hex_x(s[i + 1]) && is_hex_x(s[i + 2]) {
            proof {
                assert(rest[1] == s@[i + 1]);
                assert(rest[2] == s@[i + 2]);
                assert(rest.skip(3) =~= s@.skip(i + 3));
            }
            let v: u8 = hex_val_x(s[i + 1]) * 16 + hex_val_x(s[i + 2]);
            out.push(v);
            proof {
                assert(out@ =~= old_out + seq![v]);
                assert(old_out + (seq![v] + pct_decode(s@.skip(i + 3))) =~= out@ + pct_decode(
                    s@.skip(i + 3),
                ));
            }
            i += 3;
        } else {
            proof {
                assert(rest.skip(1) =~= s@.skip(i + 1));
            }
            out.push(c);
            proof {
                assert(out@ =~= old_out + seq![c]);
                assert(old_out + (seq![c] + pct_decode(s@.skip(i + 1))) =~= out@ + pct_decode(
                    s@.skip(i + 1),
                ));
            }
            i += 1;
        }
    }
    proof {
        assert(pct_decode(s@.skip(i as int)) =~= Seq::<u8>::empty());
        assert(out@ + Seq::<u8>::empty() =~= out@);
    }
    out
}

/// Join two path pieces with exactly one separator between them.
pub open spec fn path_join(a: Seq<u8>, b: Seq<u8>) -> Seq<u8> {
    if a.len() > 0 && a.last() == 47 {
        a + b
    } else {
        a + seq![47u8] + b
    }
}

/// Join two path pieces.
pub fn path_join_x(a: &[u8], b: &[u8]) -> (r: Vec<u8>)
    ensures
        r@ == path_join(a@, b@),
{
    if a.len() > 0 && a[a.len() - 1] == 47 {
        text::concat(a, b)
    } else {
        let sep = lits::slash();
        let head = text::concat(a, sep.as_slice());
        let r = text::concat(head.as_slice(), b);
        proof {
            assert((a@ + lits::spec_slash()) + b@ =~= a@ + seq![47u8] + b@);
        }
        r
    }
}

/// The on-disk directory of a distribution:
/// `<base>/<host><percent-decoded path>`, refused when the decoded path
/// holds a `..` segment and could escape the base.
pub open spec fn dist_dir_spec(base: Seq<u8>, u: UrlModel) -> Option<Seq<u8>> {
    let decoded = pct_decode(u.path);
    if urls::has_dotdot(decoded) {
        Option::None
    } else {
        Option::Some(path_join(base, u.host + decoded))
    }
}

/// Derive a distribution's storage directory.
pub fn dist_dir(base: &[u8], u: &DocUrl) -> (r: Result<Vec<u8>, StoreError>)
    ensures
        r.is_ok() == dist_dir_spec(base@, u@) is Some,
        r matches Ok(v) ==> dist_dir_spec(base@, u@) == Some(v@),
        r matches Err(e) ==> e matches StoreError::Filename(p) && p@ == u@.path,
{
    let decoded = pct_decode_x(u.path.as_slice());
    if urls::find_dotdot(decoded.as_slice()) {
        return Err(StoreError::Filename(u.path.clone()));
    }
    let tail = text::concat(u.host.as_slice(), decoded.as_slice());
    Ok(path_join_x(base, tail.as_slice()))
}

/// What storing a retrieved document can fail with: the store itself,
/// or the retrieval whose result was handed in.
#[derive(Debug, PartialEq, Eq)]
pub enum StoreRetrievedError {
    Store(StoreError),
    Retrieval(crate::errors::SourceError),
}

/// What storing a validated document can fail with: the store itself,
/// or the validation whose result was handed in.
#[derive(Debug, PartialEq, Eq)]
pub enum StoreValidatedError {
    Store(StoreError),
    Validation(crate::errors::ValidationError),
}

/// One file the store will write.
#[derive(Debug, PartialEq, Eq)]
pub struct FileWrite {
    pub path: Vec<u8>,
    pub data: Vec<u8>,
}

pub ghost struct FileWriteModel {
    pub path: Seq<u8>,
    pub data: Seq<u8>,
}

impl View for FileWrite {
    type V = FileWriteModel;

    open spec fn view(&self) -> FileWriteModel {
        FileWriteModel { path: self.path@, data: self.data@ }
    }
}

/// Everything the store does for one document: the files to write (the
/// document first, then its siblings), the modification time to stamp,
/// and the entity tag to persist.
#[derive(Debug, PartialEq, Eq)]
pub struct StorePlan {
    pub writes: Vec<FileWrite>,
    pub mtime: Option<i64>,
    pub etag: Option<Vec<u8>>,
}

/// Where a document is stored: its name relative to the distribution's
/// directory, under the distribution's directory under the base.
pub open spec fn store_path_spec(base: Seq<u8>, ctx: UrlModel, doc: UrlModel) -> Option<Seq<u8>> {
    match urls::make_relative_spec(ctx, doc) {
        Option::None => Option::None,
        Option::Some(rel) => match dist_dir_spec(base, ctx) {
            Option::None => Option::None,
            Option::Some(dir) => Option::Some(path_join(dir, rel)),
        },
    }
}

/// The writes a stored document gives rise to.
pub open spec fn store_writes_spec(path: Seq<u8>, doc: RetrievedModel) -> Seq<FileWriteModel> {
    seq![FileWriteModel { path: path, data: doc.data }] + (match doc.signature {
        Option::Some(s) => seq![
            FileWriteModel { path: path + lits::spec_dot_asc(), data: s },
        ],
        Option::None => seq![],
    }) + (match doc.sha256 {
        Option::Some(d) => seq![
            FileWriteModel { path: path + lits::spec_dot_sha256(), data: d.expected },
        ],
        Option::None => seq![],
    }) + (match doc.sha512 {
        Option::Some(d) => seq![
            FileWriteModel { path: path + lits::spec_dot_sha512(), data: d.expected },
        ],
        Option::None => seq![],
    })
}

/// Stores all data so that a file source can read it back later.
#[derive(Debug, PartialEq, Eq)]
pub struct StoreVisitor {
    /// The output base directory.
    pub base: Vec<u8>,
    /// Do not stamp file modification timestamps.
    pub no_timestamps: bool,
    /// Do not persist entity tags in extended attributes.
    pub no_xattrs: bool,
}

impl StoreVisitor {
    /// A store over `base`, stamping timestamps and entity tags.
    pub fn new(base: Vec<u8>) -> (r: Self)
        ensures
            r.base@ == base@,
            r.no_timestamps == false,
            r.no_xattrs == false,
    {
        StoreVisitor { base, no_timestamps: false, no_xattrs: false }
    }

    /// Switch timestamp stamping off or on.
    pub fn no_timestamps(self, no_timestamps: bool) -> (r: Self)
        ensures
            r.base@ == self.base@,
            r.no_timestamps == no_timestamps,
            r.no_xattrs == self.no_xattrs,
    {
        StoreVisitor { no_timestamps, ..self }
    }

    /// Switch entity-tag persistence off or on.
    pub fn no_xattrs(self, no_xattrs: bool) -> (r: Self)
        ensures
            r.base@ == self.base@,
            r.no_timestamps == self.no_timestamps,
            r.no_xattrs == no_xattrs,
    {
        StoreVisitor { no_xattrs, ..self }
    }

    /// Plan the writes for one retrieved document.
    ///
    /// The document lands under its distribution's directory at its name
    /// relative to the distribution's URL; a URL that yields no usable
    /// relative name is refused. The plan stamps the document's declared
    /// modification time unless `no_timestamps`, and carries the entity
    /// tag unless `no_xattrs`.
    pub fn store_plan(&self, doc: &RetrievedDoc) -> (r: Result<StorePlan, StoreError>)
        requires
            doc@.discovered.context.url.wf(),
            doc@.discovered.url.wf(),
        ensures
            r.is_ok() == store_path_spec(
                self.base@,
                doc@.discovered.context.url,
                doc@.discovered.url,
            ) is Some,
            r matches Ok(plan) ==> {
                let path = store_path_spec(
                    self.base@,
                    doc@.discovered.context.url,
                    doc@.discovered.url,
                ).unwrap();
                &&& plan.writes@.map_values(|w: FileWrite| w@) == store_writes_spec(path, doc@)
                &&& plan.mtime == (if self.no_timestamps {
                    Option::<i64>::None
                } else {
                    Option::Some(doc.discovered.modified)
                })
                &&& (match (self.no_xattrs, doc@.metadata.etag) {
                    (false, Option::Some(e)) => plan.etag matches Some(t) && t@ == e,
                    _ => plan.etag is None,
                })
            },
            r matches Err(e) ==> e is Filename,
    {
        let rel = match urls::make_relative(doc.discovered.context.url(), &doc.discovered.url) {
            Option::Some(rel) => rel,
            Option::None => {
                return Err(StoreError::Filename(doc.discovered.url.path.clone()));
            },
        };
        let dir = match dist_dir(self.base.as_slice(), doc.discovered.context.url()) {
            Ok(d) => d,
            Err(e) => {
                return Err(e);
            },
        };
        let path = path_join_x(dir.as_slice(), rel.as_slice());
        let mut writes: Vec<FileWrite> = Vec::new();
        writes.push(FileWrite { path: path.clone(), data: doc.data.clone() });
        match &doc.signature {
            Option::Some(s) => {
                let suf = lits::dot_asc();
                writes.push(
                    FileWrite {
                        path: text::concat(path.as_slice(), suf.as_slice()),
                        data: s.clone(),
                    },
                );
            },
            Option::None => {},
        }
        match &doc.sha256 {
            Option::Some(d) => {
                let suf = lits::dot_sha256();
                writes.push(
                    FileWrite {
                        path: text::concat(path.as_slice(), suf.as_slice()),
                        data: d.expected.clone(),
                    },
                );
            },
            Option::None => {},
        }
        match &doc.sha512 {
            Option::Some(d) => {
                let suf = lits::dot_sha512();
                writes.push(
                    FileWrite {
                        path: text::concat(path.as_slice(), suf.as_slice()),
                        data: d.expected.clone(),
                    },
                );
            },
            Option::None => {},
        }
        proof {
            assert(writes@.map_values(|w: FileWrite| w@) =~= store_writes_spec(path@, doc@));
        }
        let mtime: Option<i64> = if self.no_timestamps {
            Option::None
        } else {
            Option::Some(doc.discovered.modified)
        };
        let etag: Option<Vec<u8>> = if self.no_xattrs {
            Option::None
        } else {
            match &doc.metadata.etag {
                Option::Some(e) => Option::Some(e.clone()),
                Option::None => Option::None,
            }
        };
        Ok(StorePlan { writes, mtime, etag })
    }

    /// The path of the stored provider metadata:
    /// `<base>/metadata/provider-metadata.json`.
    pub fn provider_metadata_path(&self) -> (r: Vec<u8>)
        ensures
            r@ == path_join(
                path_join(self.base@, lits::spec_metadata_dir()),
                lits::spec_provider_metadata_json(),
            ),
    {
        let md = lits::metadata_dir();
        let dir = path_join_x(self.base.as_slice(), md.as_slice());
        let name = lits::provider_metadata_json();
        path_join_x(dir.as_slice(), name.as_slice())
    }

    /// The path of a stored key: `<base>/metadata/keys/<fingerprint>.txt`.
    pub fn key_path(&self, fingerprint: &[u8]) -> (r: Vec<u8>)
        ensures
            r@ == path_join(
                path_join(path_join(self.base@, lits::spec_metadata_dir()), lits::spec_keys_dir()),
                fingerprint@ + lits::spec_dot_txt(),
            ),
    {
        let md = lits::metadata_dir();
        let dir = path_join_x(self.base.as_slice(), md.as_slice());
        let kd = lits::keys_dir();
        let dir2 = path_join_x(dir.as_slice(), kd.as_slice());
        let suf = lits::dot_txt();
        let name = text::concat(fingerprint, suf.as_slice());
        path_join_x(dir2.as_slice(), name.as_slice())
    }

    /// The distribution directories to create for this metadata, in
    /// metadata order: for each distribution its directory channel's,
    /// then its feeds'.
    pub fn prepare_distributions(&self, meta: &ProviderMetadata) -> (r: Result<
        Vec<Vec<u8>>,
        StoreError,
    >)
        ensures
            r.is_ok() == prepare_dirs_spec(self.base@, meta@) is Some,
            r matches Ok(v) ==> prepare_dirs_spec(self.base@, meta@) == Some(
                v@.map_values(|p: Vec<u8>| p@),
            ),
            r matches Err(e) ==> e is Filename,
    {
        let ghost all = meta@.distributions;
        let mut out: Vec<Vec<u8>> = Vec::new();
        let mut i: usize = 0;
        proof {
            assert(out@.map_values(|p: Vec<u8>| p@) =~= Seq::<Seq<u8>>::empty());
            assert(all.skip(0) =~= all);
        }
        while i < meta.distributions.len()
            invariant
                i <= meta.distributions@.len(),
                all == meta@.distributions,
                prepare_dirs_spec(self.base@, meta@) matches Some(t) ==> dirs_from_spec(
                    self.base@,
                    all.skip(i as int),
                ) matches Some(rest) && t == out@.map_values(|p: Vec<u8>| p@) + rest,
                prepare_dirs_spec(self.base@, meta@) is None ==> dirs_from_spec(
                    self.base@,
                    all.skip(i as int),
                ) is None,
            decreases meta.distributions@.len() - i,
        {
            proof {
                assert(all.skip(i as int)[0] == all[i as int]);
                assert(all.skip(i as int).skip(1) =~= all.skip(i + 1));
            }
            let mut here = match dist_dirs(self.base.as_slice(), &meta.distributions[i]) {
                Ok(h) => h,
                Err(e) => {
                    return Err(e);
                },
            };
            let ghost old_models = out@.map_values(|p: Vec<u8>| p@);
            let ghost here_models = here@.map_values(|p: Vec<u8>| p@);
            let mut k: usize = 0;
            while k < here.len()
                invariant
                    k <= here@.len(),
                    here_models == here@.map_values(|p: Vec<u8>| p@),
                    out@.map_values(|p: Vec<u8>| p@) == old_models + here_models.subrange(
                        0,
                        k as int,
                    ),
                decreases here@.len() - k,
            {
                let p = here[k].clone();
                proof {
                    assert(p@ =~= here@[k as int]@);
                    assert(p@ == here_models[k as int]);
                }
                let ghost before = out@.map_values(|q: Vec<u8>| q@);
                out.push(p);
                k += 1;
                proof {
                    assert(out@.map_values(|q: Vec<u8>| q@) =~= before + seq![
                        here_models[k - 1],
                    ]);
                    assert(here_models.subrange(0, k as int) =~= here_models.subrange(0, k - 1)
                        + seq![here_models[k - 1]]);
                    assert((old_models + here_models.subrange(0, k - 1)) + seq![
                        here_models[k - 1],
                    ] =~= old_models + here_models.subrange(0, k as int));
                }
            }
            proof {
                assert(here_models.subrange(0, here_models.len() as int) =~= here_models);
                if dirs_from_spec(self.base@, all.skip(i + 1)) is Some {
                    let rest = dirs_from_spec(self.base@, all.skip(i + 1)).unwrap();
                    assert(old_models + (here_models + rest) =~= (old_models + here_models)
                        + rest);
                }
            }
            i += 1;
        }
        proof {
            assert(all.skip(i as int) =~= Seq::<crate::metadata::DistributionModel>::empty());
            assert(out@.map_values(|p: Vec<u8>| p@) + Seq::<Seq<u8>>::empty() =~= out@.map_values(
                |p: Vec<u8>| p@,
            ));
        }
        Ok(out)
    }
}

/// The storage directories one distribution needs.
fn dist_dirs(base: &[u8], d: &crate::metadata::Distribution) -> (r: Result<
    Vec<Vec<u8>>,
    StoreError,
>)
    ensures
        r.is_ok() == dist_dirs_spec(base@, d@) is Some,
        r matches Ok(v) ==> dist_dirs_spec(base@, d@) == Some(v@.map_values(|p: Vec<u8>| p@)),
        r matches Err(e) ==> e is Filename,
{
    let mut out: Vec<Vec<u8>> = Vec::new();
    match &d.directory_url {
        Option::Some(u) => {
            match dist_dir(base, u) {
                Ok(p) => {
                    out.push(p);
                },
                Err(e) => {
                    return Err(e);
                },
            }
        },
        Option::None => {},
    }
    let ghost head = out@.map_values(|p: Vec<u8>| p@);
    match &d.rolie {
        Option::Some(rolie) => {
            let ghost feeds = rolie@.feeds;
            let mut j: usize = 0;
            proof {
                assert(feeds.skip(0) =~= feeds);
            }
            while j < rolie.feeds.len()
                invariant
                    j <= rolie.feeds@.len(),
                    feeds == rolie@.feeds,
                    d@.rolie matches Some(rm) && rm.feeds == feeds,
                    feed_dirs_spec(base@, feeds) matches Some(t) ==> feed_dirs_spec(
                        base@,
                        feeds.skip(j as int),
                    ) matches Some(rest) && head + t == out@.map_values(|p: Vec<u8>| p@) + rest,
                    feed_dirs_spec(base@, feeds) is None ==> feed_dirs_spec(
                        base@,
                        feeds.skip(j as int),
                    ) is None,
                    dist_dirs_spec(base@, d@) matches Some(t2) ==> feed_dirs_spec(base@, feeds)
                        matches Some(ft) && t2 == head + ft,
                    dist_dirs_spec(base@, d@) is None ==> feed_dirs_spec(base@, feeds) is None,
                decreases rolie.feeds@.len() - j,
            {
                proof {
                    assert(feeds.skip(j as int)[0] == feeds[j as int]);
                    assert(feeds.skip(j as int).skip(1) =~= feeds.skip(j + 1));
                }
                let f = &rolie.feeds[j];
                proof {
                    assert(f@ == feeds[j as int]);
                }
                match dist_dir(base, &f.url) {
                    Ok(p) => {
                        let ghost old_models = out@.map_values(|q: Vec<u8>| q@);
                        out.push(p);
                        proof {
                            let pm = dist_dir_spec(base@, feeds[j as int].url).unwrap();
                            assert(out@.map_values(|q: Vec<u8>| q@) =~= old_models + seq![pm]);
                            if feed_dirs_spec(base@, feeds.skip(j + 1)) is Some {
                                let rest = feed_dirs_spec(base@, feeds.skip(j + 1)).unwrap();
                                assert(old_models + (seq![pm] + rest) =~= (old_models + seq![pm])
                                    + rest);
                            }
                        }
                    },
                    Err(e) => {
                        return Err(e);
                    },
                }
                j += 1;
            }
            proof {
                assert(feeds.skip(j as int) =~= Seq::<crate::metadata::FeedModel>::empty());
                assert(out@.map_values(|p: Vec<u8>| p@) + Seq::<Seq<u8>>::empty()
                    =~= out@.map_values(|p: Vec<u8>| p@));
            }
        },
        Option::None => {},
    }
    Ok(out)
}

/// The directories of a distribution's feeds.
pub open spec fn feed_dirs_spec(base: Seq<u8>, feeds: Seq<crate::metadata::FeedModel>) -> Option<
    Seq<Seq<u8>>,
>
    decreases feeds.len(),
{
    if feeds.len() == 0 {
        Option::Some(seq![])
    } else {
        match dist_dir_spec(base, feeds[0].url) {
            Option::None => Option::None,
            Option::Some(p) => match feed_dirs_spec(base, feeds.skip(1)) {
                Option::None => Option::None,
                Option::Some(rest) => Option::Some(seq![p] + rest),
            },
        }
    }
}

/// The directories one distribution needs: its directory channel's, then
/// its feeds'.
pub open spec fn dist_dirs_spec(base: Seq<u8>, d: crate::metadata::DistributionModel) -> Option<
    Seq<Seq<u8>>,
> {
    let head = match d.directory_url {
        Option::Some(u) => match dist_dir_spec(base, u) {
            Option::None => Option::None,
            Option::Some(p) => Option::Some(seq![p]),
        },
        Option::None => Option::Some(seq![]),
    };
    match head {
        Option::None => Option::None,
        Option::Some(h) => match d.rolie {
            Option::None => Option::Some(h),
            Option::Some(r) => match feed_dirs_spec(base, r.feeds) {
                Option::None => Option::None,
                Option::Some(f) => Option::Some(h + f),
            },
        },
    }
}

/// The directories of all distributions, from the given one on.
pub open spec fn dirs_from_spec(
    base: Seq<u8>,
    dists: Seq<crate::metadata::DistributionModel>,
) -> Option<Seq<Seq<u8>>>
    decreases dists.len(),
{
    if dists.len() == 0 {
        Option::Some(seq![])
    } else {
        match dist_dirs_spec(base, dists[0]) {
            Option::None => Option::None,
            Option::Some(h) => match dirs_from_spec(base, dists.skip(1)) {
                Option::None => Option::None,
                Option::Some(rest) => Option::Some(h + rest),
            },
        }
    }
}

/// All directories the store pre-creates for this metadata.
pub open spec fn prepare_dirs_spec(base: Seq<u8>, meta: MetadataModel) -> Option<Seq<Seq<u8>>> {
    dirs_from_spec(base, meta.distributions)
}

/// A document stored by a plan that stamps timestamps passes the skip
/// filter on the next run against an unchanged remote: nothing is
/// rewritten.
pub proof fn lemma_plan_skips_next_time(
    plan_mtime: Option<int>,
    modified: int,
    since: Option<int>,
)
    requires
        plan_mtime == Option::Some(modified),
        crate::discover::since_pass(modified, since),
    ensures
        crate::skip::skip_spec(true, plan_mtime, modified, since),
{
}

} // verus!
