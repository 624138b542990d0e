//! The file source: reads back the tree a store run wrote.
//!
//! The provider metadata is re-read from the stored copy, its keys from
//! the key directory, and every distribution URL is rewritten to the
//! `file:` URL of the distribution's storage directory — the very
//! derivation the store used — so that a walk over the store behaves like
//! a walk over the remote.

use vstd::prelude::*;
use crate::discover::CtxModel;
use crate::discover::DiscoveredDoc;
use crate::discover::DistributionContext;
use crate::discover::DocModel;
use crate::discover::since_pass;
use crate::discover::spec_since;
use crate::errors::SourceError;
use crate::lits;
use crate::metadata::Distribution;
use crate::metadata::DistributionModel;
use crate::metadata::Feed;
use crate::metadata::FeedModel;
use crate::metadata::KeyRef;
use crate::metadata::KeyRefModel;
use crate::metadata::ProviderMetadata;
use crate::metadata::Rolie;
use crate::metadata::RolieModel;
use crate::provider;
use crate::store;
use crate::text;
use crate::urls;
use crate::urls::DocUrl;
use crate::urls::UrlModel;
use crate::validate::lower_seq;
use crate::validate::lower_x;

verus! {

/// Options of the file source.
#[derive(Debug, PartialEq, Eq, Clone, Copy)]
pub struct FileOptions {
    /// The watermark: older documents are not discovered.
    pub since: Option<i64>,
}

impl FileOptions {
    /// No watermark.
    pub fn new() -> (r: Self)
        ensures
            r.since is None,
    {
        FileOptions { since: Option::None }
    }

    /// Set the watermark.
    pub fn since(self, since: Option<i64>) -> (r: Self)
        ensures
            r.since == since,
    {
        FileOptions { since }
    }
}

/// A file-based source over a store's base directory.
#[derive(Debug, PartialEq, Eq)]
pub struct FileSource {
    /// The store base, an absolute path.
    pub base: Vec<u8>,
    pub options: FileOptions,
}

/// The `file:` URL of a file path.
pub open spec fn file_url(p: Seq<u8>) -> UrlModel {
    UrlModel { scheme: lits::spec_file_scheme(), host: seq![], path: p }
}

/// The `file:` URL of a directory: its path ends with a slash.
pub open spec fn dir_file_url(p: Seq<u8>) -> UrlModel {
    if p.len() > 0 && p.last() == 47 {
        file_url(p)
    } else {
        file_url(p + seq![47u8])
    }
}

/// The `file` scheme is a well-formed scheme.
pub proof fn lemma_file_scheme_wf()
    ensures
        urls::scheme_wf(lits::spec_file_scheme()),
{
    let s = lits::spec_file_scheme();
    assert forall|i: int| 0 <= i < s.len() implies urls::is_lower_alpha(#[trigger] s[i]) by {
        assert(s[0] == 102 && s[1] == 105 && s[2] == 108 && s[3] == 101);
    }
}

/// Build the `file:` URL of a directory path.
fn dir_file_url_x(p: &[u8]) -> (r: DocUrl)
    requires
        urls::path_wf(p@),
    ensures
        r@ == dir_file_url(p@),
        r.wf(),
{
    proof {
        lemma_file_scheme_wf();
    }
    let path = if p.len() > 0 && p[p.len() - 1] == 47 {
        text::to_vec(p)
    } else {
        let sep = lits::slash();
        let r = text::concat(p, sep.as_slice());
        proof {
            assert(p@ + lits::spec_slash() =~= p@ + seq![47u8]);
        }
        r
    };
    DocUrl { scheme: lits::file_scheme(), host: Vec::new(), path }
}

/// Rewrite one feed list to `file:` URLs under the base.
pub open spec fn rewrite_feeds(base: Seq<u8>, fs: Seq<FeedModel>) -> Option<Seq<FeedModel>>
    decreases fs.len(),
{
    if fs.len() == 0 {
        Option::Some(seq![])
    } else {
        match store::dist_dir_spec(base, fs[0].url) {
            Option::None => Option::None,
            Option::Some(p) => match rewrite_feeds(base, fs.skip(1)) {
                Option::None => Option::None,
                Option::Some(rest) => Option::Some(
                    seq![FeedModel { url: dir_file_url(p) }] + rest,
                ),
            },
        }
    }
}

/// Rewrite one distribution to `file:` URLs under the base.
pub open spec fn rewrite_dist(base: Seq<u8>, d: DistributionModel) -> Option<DistributionModel> {
    let dir = match d.directory_url {
        Option::None => Option::Some(Option::<UrlModel>::None),
        Option::Some(u) => match store::dist_dir_spec(base, u) {
            Option::None => Option::None,
            Option::Some(p) => Option::Some(Option::Some(dir_file_url(p))),
        },
    };
    let rolie = match d.rolie {
        Option::None => Option::Some(Option::<RolieModel>::None),
        Option::Some(r) => match rewrite_feeds(base, r.feeds) {
            Option::None => Option::None,
            Option::Some(fs) => Option::Some(Option::Some(RolieModel { feeds: fs })),
        },
    };
    match (dir, rolie) {
        (Option::Some(a), Option::Some(b)) => Option::Some(
            DistributionModel { directory_url: a, rolie: b },
        ),
        _ => Option::None,
    }
}

/// Rewrite all distributions, in order.
pub open spec fn rewrite_dists(base: Seq<u8>, ds: Seq<DistributionModel>) -> Option<
    Seq<DistributionModel>,
>
    decreases ds.len(),
{
    if ds.len() == 0 {
        Option::Some(seq![])
    } else {
        match rewrite_dist(base, ds[0]) {
            Option::None => Option::None,
            Option::Some(d) => match rewrite_dists(base, ds.skip(1)) {
                Option::None => Option::None,
                Option::Some(rest) => Option::Some(seq![d] + rest),
            },
        }
    }
}

/// Rewriting keeps the metadata's shape: as many distributions, in the
/// same order, each with the same channels, and feed lists of the same
/// length — only the URLs change, to `file:` URLs of the storage
/// directories.
pub proof fn lemma_rewrite_preserves_shape(base: Seq<u8>, ds: Seq<DistributionModel>)
    ensures
        rewrite_dists(base, ds) matches Some(rs) ==> {
            &&& rs.len() == ds.len()
            &&& forall|i: int|
                0 <= i < ds.len() ==> {
                    &&& ((#[trigger] rs[i]).directory_url is Some <==> ds[i].directory_url
                        is Some)
                    &&& (rs[i].rolie is Some <==> ds[i].rolie is Some)
                    &&& (rs[i].rolie matches Some(rr) ==> ds[i].rolie matches Some(dr)
                        && rr.feeds.len() == dr.feeds.len())
                }
        },
    decreases ds.len(),
{
    if ds.len() > 0 {
        lemma_rewrite_preserves_shape(base, ds.skip(1));
        if rewrite_dists(base, ds) is Some {
            let rs = rewrite_dists(base, ds).unwrap();
            let rest = rewrite_dists(base, ds.skip(1)).unwrap();
            lemma_rewrite_feeds_len(base, ds[0]);
            assert forall|i: int| 0 <= i < ds.len() implies {
                &&& ((#[trigger] rs[i]).directory_url is Some <==> ds[i].directory_url is Some)
                &&& (rs[i].rolie is Some <==> ds[i].rolie is Some)
                &&& (rs[i].rolie matches Some(rr) ==> ds[i].rolie matches Some(dr)
                    && rr.feeds.len() == dr.feeds.len())
            } by {
                if i > 0 {
                    assert(rs[i] == rest[i - 1]);
                    assert(ds.skip(1)[i - 1] == ds[i]);
                }
            }
        }
    }
}

/// A rewritten feed list keeps its length.
proof fn lemma_rewrite_feeds_len(base: Seq<u8>, d: DistributionModel)
    ensures
        rewrite_dist(base, d) matches Some(r) ==> {
            &&& (r.directory_url is Some <==> d.directory_url is Some)
            &&& (r.rolie is Some <==> d.rolie is Some)
            &&& (r.rolie matches Some(rr) ==> d.rolie matches Some(dr) && rr.feeds.len()
                == dr.feeds.len())
        },
{
    match d.rolie {
        Option::Some(r) => {
            lemma_rewrite_feeds_len_rec(base, r.feeds);
        },
        Option::None => {},
    }
}

proof fn lemma_rewrite_feeds_len_rec(base: Seq<u8>, fs: Seq<FeedModel>)
    ensures
        rewrite_feeds(base, fs) matches Some(r) ==> r.len() == fs.len(),
    decreases fs.len(),
{
    if fs.len() > 0 {
        lemma_rewrite_feeds_len_rec(base, fs.skip(1));
    }
}

/// The stored key a key-directory entry denotes: `<stem>.txt` holds the
/// key with that fingerprint.
pub open spec fn key_of_name(base: Seq<u8>, name: Seq<u8>) -> Option<KeyRefModel> {
    if name.len() > 4 && text::is_suffix_of(lits::spec_dot_txt(), name) {
        Option::Some(
            KeyRefModel {
                fingerprint: Option::Some(name.subrange(0, name.len() - 4)),
                url: file_url(
                    store::path_join(
                        store::path_join(
                            store::path_join(base, lits::spec_metadata_dir()),
                            lits::spec_keys_dir(),
                        ),
                        name,
                    ),
                ),
            },
        )
    } else {
        Option::None
    }
}

/// The keys of a key-directory listing, in listing order; files that are
/// no `.txt` are ignored.
pub open spec fn keys_of_names(base: Seq<u8>, names: Seq<Seq<u8>>) -> Seq<KeyRefModel>
    decreases names.len(),
{
    if names.len() == 0 {
        seq![]
    } else {
        let rest = keys_of_names(base, names.skip(1));
        match key_of_name(base, names[0]) {
            Option::Some(k) => seq![k] + rest,
            Option::None => rest,
        }
    }
}

impl FileSource {
    /// A file source over an absolute base path.
    pub fn new(base: Vec<u8>, options: Option<FileOptions>) -> (r: Result<Self, SourceError>)
        ensures
            r.is_ok() == urls::path_wf(base@),
            r matches Ok(v) ==> v.base@ == base@ && v.options == (match options {
                Option::Some(o) => o,
                Option::None => FileOptions { since: Option::<i64>::None },
            }),
            r matches Err(e) ==> e == SourceError::Io,
    {
        if base.len() == 0 || base[0] != 47 {
            return Err(SourceError::Io);
        }
        let options = match options {
            Option::Some(o) => o,
            Option::None => FileOptions::new(),
        };
        Ok(FileSource { base, options })
    }

    /// Read the stored provider metadata: parse the stored bytes, attach
    /// the keys found in the key directory (`key_names` is its listing),
    /// and rewrite every distribution URL to the `file:` URL of its
    /// storage directory.
    #[verifier::loop_isolation(false)]
    pub fn load_metadata_from(&self, bytes: &[u8], key_names: &Vec<Vec<u8>>) -> (r: Result<
        ProviderMetadata,
        SourceError,
    >)
        requires
            urls::path_wf(self.base@),
        ensures
            (match provider::parse_metadata(bytes@) {
                Option::None => r == Err::<ProviderMetadata, SourceError>(
                    SourceError::InvalidJson,
                ),
                Option::Some(m) => match rewrite_dists(self.base@, m.distributions) {
                    Option::None => r == Err::<ProviderMetadata, SourceError>(
                        SourceError::InvalidUrl,
                    ),
                    Option::Some(ds) => r matches Ok(v) && v@.distributions == ds
                        && v@.public_openpgp_keys == keys_of_names(
                        self.base@,
                        key_names@.map_values(|n: Vec<u8>| n@),
                    ),
                },
            }),
    {
        let parsed = match provider::parse_metadata_x(bytes) {
            Ok(m) => m,
            Err(_) => {
                return Err(SourceError::InvalidJson);
            },
        };
        let ghost dm = parsed@.distributions;
        let mut dists: Vec<Distribution> = Vec::new();
        let mut i: usize = 0;
        proof {
            assert(dm.skip(0) =~= dm);
            assert(dists@.map_values(|d: Distribution| d@) =~= Seq::<DistributionModel>::empty());
        }
        while i < parsed.distributions.len()
            invariant
                i <= parsed.distributions@.len(),
                dm == parsed@.distributions,
                urls::path_wf(self.base@),
                rewrite_dists(self.base@, dm) matches Some(t) ==> rewrite_dists(
                    self.base@,
                    dm.skip(i as int),
                ) matches Some(rest) && t == dists@.map_values(|d: Distribution| d@) + rest,
                rewrite_dists(self.base@, dm) is None ==> rewrite_dists(
                    self.base@,
                    dm.skip(i as int),
                ) is None,
            decreases parsed.distributions@.len() - i,
        {
            proof {
                assert(dm.skip(i as int)[0] == dm[i as int]);
                assert(dm.skip(i as int).skip(1) =~= dm.skip(i + 1));
            }
            let d = &parsed.distributions[i];
            let directory_url = match &d.directory_url {
                Option::Some(u) => {
                    match store::dist_dir(self.base.as_slice(), u) {
                        Ok(p) => {
                            proof {
                                assert(urls::path_wf(p@)) by {
                                    assert(store::path_join(
                                        self.base@,
                                        u@.host + store::pct_decode(u@.path),
                                    )[0] == self.base@[0]);
                                }
                            }
                            Option::Some(dir_file_url_x(p.as_slice()))
                        },
                        Err(_) => {
                            return Err(SourceError::InvalidUrl);
                        },
                    }
                },
                Option::None => Option::None,
            };
            let rolie = match &d.rolie {
                Option::Some(rolie) => {
                    let ghost feeds = d@.rolie.unwrap().feeds;
                    let mut fs: Vec<Feed> = Vec::new();
                    let mut j: usize = 0;
                    proof {
                        assert(feeds.skip(0) =~= feeds);
                        assert(fs@.map_values(|f: Feed| f@) =~= Seq::<FeedModel>::empty());
                    }
                    while j < rolie.feeds.len()
                        invariant
                            j <= rolie.feeds@.len(),
                            feeds == rolie@.feeds,
                            urls::path_wf(self.base@),
                            rewrite_feeds(self.base@, feeds) matches Some(t) ==> rewrite_feeds(
                                self.base@,
                                feeds.skip(j as int),
                            ) matches Some(rest) && t == fs@.map_values(|f: Feed| f@) + rest,
                            rewrite_feeds(self.base@, feeds) is None ==> rewrite_feeds(
                                self.base@,
                                feeds.skip(j as int),
                            ) is None,
                        decreases rolie.feeds@.len() - j,
                    {
                        proof {
                            assert(feeds.skip(j as int)[0] == feeds[j as int]);
                            assert(feeds.skip(j as int).skip(1) =~= feeds.skip(j + 1));
                        }
                        let f = &rolie.feeds[j];
                        proof {
                            assert(f@ == feeds[j as int]);
                        }
                        match store::dist_dir(self.base.as_slice(), &f.url) {
                            Ok(p) => {
                                proof {
                                    assert(urls::path_wf(p@)) by {
                                        assert(store::path_join(
                                            self.base@,
                                            f.url@.host + store::pct_decode(f.url@.path),
                                        )[0] == self.base@[0]);
                                    }
                                }
                                let nf = Feed { url: dir_file_url_x(p.as_slice()) };
                                let ghost old_models = fs@.map_values(|f2: Feed| f2@);
                                let ghost nfm = nf@;
                                fs.push(nf);
                                proof {
                                    assert(fs@.map_values(|f2: Feed| f2@) =~= old_models + seq![
                                        nfm,
                                    ]);
                                    if rewrite_feeds(self.base@, feeds.skip(j + 1)) is Some {
                                        let rest = rewrite_feeds(
                                            self.base@,
                                            feeds.skip(j + 1),
                                        ).unwrap();
                                        assert(old_models + (seq![nfm] + rest) =~= (old_models
                                            + seq![nfm]) + rest);
                                    }
                                }
                            },
                            Err(_) => {
                                return Err(SourceError::InvalidUrl);
                            },
                        }
                        j += 1;
                    }
                    proof {
                        assert(feeds.skip(j as int) =~= Seq::<FeedModel>::empty());
                        assert(fs@.map_values(|f: Feed| f@) + Seq::<FeedModel>::empty()
                            =~= fs@.map_values(|f: Feed| f@));
                    }
                    Option::Some(Rolie { feeds: fs })
                },
                Option::None => Option::None,
            };
            let nd = Distribution { directory_url, rolie };
            proof {
                assert(rewrite_dist(self.base@, dm[i as int]) == Some(nd@));
            }
            let ghost old_models = dists@.map_values(|d2: Distribution| d2@);
            let ghost ndm = nd@;
            dists.push(nd);
            proof {
                assert(dists@.map_values(|d2: Distribution| d2@) =~= old_models + seq![ndm]);
                if rewrite_dists(self.base@, dm.skip(i + 1)) is Some {
                    let rest = rewrite_dists(self.base@, dm.skip(i + 1)).unwrap();
                    assert(old_models + (seq![ndm] + rest) =~= (old_models + seq![ndm]) + rest);
                }
            }
            i += 1;
        }
        proof {
            assert(dm.skip(i as int) =~= Seq::<DistributionModel>::empty());
            assert(dists@.map_values(|d: Distribution| d@) + Seq::<DistributionModel>::empty()
                =~= dists@.map_values(|d: Distribution| d@));
        }
        // attach the keys found on disk
        let ghost names = key_names@.map_values(|n: Vec<u8>| n@);
        let mut keys: Vec<KeyRef> = Vec::new();
        let mut k: usize = 0;
        proof {
            assert(names.skip(0) =~= names);
            assert(keys@.map_values(|x: KeyRef| x@) =~= Seq::<KeyRefModel>::empty());
            lemma_file_scheme_wf();
        }
        while k < key_names.len()
            invariant
                k <= key_names@.len(),
                names == key_names@.map_values(|n: Vec<u8>| n@),
                keys_of_names(self.base@, names) == keys@.map_values(|x: KeyRef| x@)
                    + keys_of_names(self.base@, names.skip(k as int)),
            decreases key_names@.len() - k,
        {
            proof {
                assert(names.skip(k as int)[0] == names[k as int]);
                assert(names.skip(k as int).skip(1) =~= names.skip(k + 1));
            }
            let name = &key_names[k];
            let suf = lits::dot_txt();
            if name.len() > 4 && text::ends_with(name.as_slice(), suf.as_slice()) {
                let stem = text::copy_range(name.as_slice(), 0, name.len() - 4);
                let md = lits::metadata_dir();
                let kd = lits::keys_dir();
                let dir = store::path_join_x(self.base.as_slice(), md.as_slice());
                let dir2 = store::path_join_x(dir.as_slice(), kd.as_slice());
                let path = store::path_join_x(dir2.as_slice(), name.as_slice());
                let nk = KeyRef {
                    fingerprint: Option::Some(stem),
                    url: DocUrl { scheme: lits::file_scheme(), host: Vec::new(), path },
                };
                proof {
                    assert(key_of_name(self.base@, names[k as int]) == Some(nk@));
                }
                let ghost old_models = keys@.map_values(|x: KeyRef| x@);
                let ghost nkm = nk@;
                keys.push(nk);
                proof {
                    assert(keys@.map_values(|x: KeyRef| x@) =~= old_models + seq![nkm]);
                    assert(old_models + (seq![nkm] + keys_of_names(
                        self.base@,
                        names.skip(k + 1),
                    )) =~= (old_models + seq![nkm]) + keys_of_names(
                        self.base@,
                        names.skip(k + 1),
                    ));
                }
            }
            k += 1;
        }
        proof {
            assert(names.skip(k as int) =~= Seq::<Seq<u8>>::empty());
            assert(keys@.map_values(|x: KeyRef| x@) + Seq::<KeyRefModel>::empty()
                =~= keys@.map_values(|x: KeyRef| x@));
        }
        Ok(ProviderMetadata { distributions: dists, public_openpgp_keys: keys })
    }
}

/// One entry of a directory walk, as plain values.
#[derive(Debug, PartialEq, Eq)]
pub struct FsEntry {
    /// The entry's absolute path.
    pub path: Vec<u8>,
    /// Whether it is a regular file.
    pub is_file: bool,
    /// Its modification time, epoch seconds.
    pub mtime: i64,
}

pub ghost struct FsModel {
    pub path: Seq<u8>,
    pub is_file: bool,
    pub mtime: int,
}

impl View for FsEntry {
    type V = FsModel;

    open spec fn view(&self) -> FsModel {
        FsModel { path: self.path@, is_file: self.is_file, mtime: self.mtime as int }
    }
}

/// Does a walk entry become a discovered document? Regular `.json` files
/// with an absolute path that the watermark admits.
pub open spec fn fs_entry_keep(e: FsModel, since: Option<int>) -> bool {
    e.is_file && text::is_suffix_of(lits::spec_dot_json(), e.path) && urls::path_wf(e.path)
        && since_pass(e.mtime, since)
}

/// The documents of a directory walk, in walk order.
pub open spec fn file_index_spec(ctx: CtxModel, entries: Seq<FsModel>, since: Option<int>) -> Seq<
    DocModel,
>
    decreases entries.len(),
{
    if entries.len() == 0 {
        seq![]
    } else {
        let rest = file_index_spec(ctx, entries.skip(1), since);
        if fs_entry_keep(entries[0], since) {
            seq![
                DocModel {
                    context: ctx,
                    url: file_url(entries[0].path),
                    modified: entries[0].mtime,
                    signature: Option::None,
                    digest: Option::None,
                },
            ] + rest
        } else {
            rest
        }
    }
}

impl FileSource {
    /// Discover the documents of a distribution from a walk of its
    /// directory: regular `.json` files that the watermark admits, in
    /// walk order. An empty directory yields an empty index.
    pub fn load_index_from(&self, context: &DistributionContext, entries: &Vec<FsEntry>) -> (r:
        Vec<DiscoveredDoc>)
        ensures
            r@.map_values(|d: DiscoveredDoc| d@) == file_index_spec(
                context@,
                entries@.map_values(|e: FsEntry| e@),
                spec_since(self.options.since),
            ),
            entries@.len() == 0 ==> r@.len() == 0,
    {
        let ghost all = entries@.map_values(|e: FsEntry| e@);
        let ghost since = spec_since(self.options.since);
        let mut out: Vec<DiscoveredDoc> = Vec::new();
        let mut i: usize = 0;
        proof {
            assert(all.skip(0) =~= all);
            assert(out@.map_values(|d: DiscoveredDoc| d@) =~= Seq::<DocModel>::empty());
            lemma_file_scheme_wf();
        }
        while i < entries.len()
            invariant
                i <= entries@.len(),
                all == entries@.map_values(|e: FsEntry| e@),
                since == spec_since(self.options.since),
                file_index_spec(context@, all, since) == out@.map_values(|d: DiscoveredDoc| d@)
                    + file_index_spec(context@, all.skip(i as int), since),
            decreases entries@.len() - i,
        {
            proof {
                assert(all.skip(i as int)[0] == all[i as int]);
                assert(all.skip(i as int).skip(1) =~= all.skip(i + 1));
            }
            let e = &entries[i];
            let suf = lits::dot_json();
            let keep: bool = e.is_file && text::ends_with(e.path.as_slice(), suf.as_slice())
                && e.path.len() > 0 && e.path[0] == 47 && (match self.options.since {
                Option::Some(t) => e.mtime >= t,
                Option::None => true,
            });
            proof {
                assert(keep == fs_entry_keep(all[i as int], since));
            }
            if keep {
                let doc = DiscoveredDoc {
                    context: context.clone(),
                    url: DocUrl {
                        scheme: lits::file_scheme(),
                        host: Vec::new(),
                        path: e.path.clone(),
                    },
                    modified: e.mtime,
                    signature: Option::None,
                    digest: Option::None,
                };
                proof {
                    assert(doc@ == file_index_spec(context@, all.skip(i as int), since)[0]);
                }
                let ghost old_models = out@.map_values(|d: DiscoveredDoc| d@);
                let ghost docm = doc@;
                out.push(doc);
                proof {
                    assert(out@.map_values(|d: DiscoveredDoc| d@) =~= old_models + seq![docm]);
                    assert(old_models + (seq![docm] + file_index_spec(
                        context@,
                        all.skip(i + 1),
                        since,
                    )) =~= (old_models + seq![docm]) + file_index_spec(
                        context@,
                        all.skip(i + 1),
                        since,
                    ));
                }
            }
            i += 1;
        }
        proof {
            assert(all.skip(i as int) =~= Seq::<FsModel>::empty());
            assert(out@.map_values(|d: DiscoveredDoc| d@) + Seq::<DocModel>::empty()
                =~= out@.map_values(|d: DiscoveredDoc| d@));
        }
        out
    }
}

/// Does a stored key match the fingerprint that was asked for? The
/// comparison folds case, as hex fingerprints differ only in case.
pub fn key_fingerprint_matches(expected: &[u8], actual: &[u8]) -> (r: bool)
    ensures
        r == (lower_seq(expected@) == lower_seq(actual@)),
{
    let a = lower_x(expected);
    let b = lower_x(actual);
    text::eq_bytes(a.as_slice(), b.as_slice())
}

} // verus!
