//! Discovery: turning a distribution's index into documents to fetch.
//!
//! A directory distribution lists documents in `changes.csv`; a ROLIE feed
//! lists them as entries with absolute URLs. Either way discovery yields
//! one document per index entry, in index order, and the `since` watermark
//! drops every document whose modification time lies strictly before it.

use vstd::prelude::*;
use crate::changes::ChangeModel;
use crate::changes::ChangeEntry;
use crate::errors::SourceError;
use crate::text;
use crate::urls;
use crate::urls::DocUrl;
use crate::urls::UrlModel;

verus! {

/// A distribution paired with the URL that relative operations use.
#[derive(Debug, PartialEq, Eq)]
pub enum DistributionContext {
    /// A directory distribution: its base URL.
    Directory(DocUrl),
    /// A ROLIE feed distribution: the feed's URL.
    Feed(DocUrl),
}

/// The model of a context: which kind it is, and its URL.
pub ghost struct CtxModel {
    pub directory: bool,
    pub url: UrlModel,
}

impl View for DistributionContext {
    type V = CtxModel;

    open spec fn view(&self) -> CtxModel {
        match self {
            DistributionContext::Directory(u) => CtxModel { directory: true, url: u@ },
            DistributionContext::Feed(u) => CtxModel { directory: false, url: u@ },
        }
    }
}

impl Clone for DistributionContext {
    /// An equal copy, up to the view.
    fn clone(&self) -> (r: Self)
        ensures
            r@ == self@,
    {
        match self {
            DistributionContext::Directory(u) => DistributionContext::Directory(u.clone()),
            DistributionContext::Feed(u) => DistributionContext::Feed(u.clone()),
        }
    }
}

impl DistributionContext {
    /// The context's URL.
    pub fn url(&self) -> (r: &DocUrl)
        ensures
            r@ == self@.url,
    {
        match self {
            DistributionContext::Directory(u) => u,
            DistributionContext::Feed(u) => u,
        }
    }

    pub open spec fn wf(self) -> bool {
        self@.url.wf()
    }
}

/// A document found in an index, not yet retrieved.
#[derive(Debug, PartialEq, Eq)]
pub struct DiscoveredDoc {
    /// The distribution the document came from.
    pub context: DistributionContext,
    /// The document's absolute URL.
    pub url: DocUrl,
    /// The modification time the index declares, epoch seconds.
    pub modified: i64,
    /// Where the detached signature lives, if the index says.
    pub signature: Option<DocUrl>,
    /// Where the digest lives, if the index says.
    pub digest: Option<DocUrl>,
}

/// The model of a discovered document.
pub ghost struct DocModel {
    pub context: CtxModel,
    pub url: UrlModel,
    pub modified: int,
    pub signature: Option<UrlModel>,
    pub digest: Option<UrlModel>,
}

impl DocModel {
    /// Discovery only ever produces absolute, well-formed URLs.
    pub open spec fn wf(self) -> bool {
        self.url.wf() && self.context.url.wf()
    }
}

impl View for DiscoveredDoc {
    type V = DocModel;

    open spec fn view(&self) -> DocModel {
        DocModel {
            context: self.context@,
            url: self.url@,
            modified: self.modified as int,
            signature: match self.signature {
                Option::Some(u) => Option::Some(u@),
                Option::None => Option::None,
            },
            digest: match self.digest {
                Option::Some(u) => Option::Some(u@),
                Option::None => Option::None,
            },
        }
    }
}

impl Clone for DiscoveredDoc {
    /// An equal copy, up to the view.
    fn clone(&self) -> (r: Self)
        ensures
            r@ == self@,
    {
        DiscoveredDoc {
            context: self.context.clone(),
            url: self.url.clone(),
            modified: self.modified,
            signature: match &self.signature {
                Option::Some(u) => Option::Some(u.clone()),
                Option::None => Option::None,
            },
            digest: match &self.digest {
                Option::Some(u) => Option::Some(u.clone()),
                Option::None => Option::None,
            },
        }
    }
}

/// Does a modification time pass the watermark?
pub open spec fn since_pass(modified: int, since: Option<int>) -> bool {
    match since {
        Option::None => true,
        Option::Some(t) => modified >= t,
    }
}

pub open spec fn spec_since(since: Option<i64>) -> Option<int> {
    match since {
        Option::None => Option::None,
        Option::Some(t) => Option::Some(t as int),
    }
}

/// Keep the documents that pass the watermark, in order.
pub open spec fn since_filter_docs(docs: Seq<DocModel>, since: Option<int>) -> Seq<DocModel>
    decreases docs.len(),
{
    if docs.len() == 0 {
        seq![]
    } else {
        let rest = since_filter_docs(docs.skip(1), since);
        if since_pass(docs[0].modified, since) {
            seq![docs[0]] + rest
        } else {
            rest
        }
    }
}

/// The document a directory index row denotes.
pub open spec fn dir_doc(base: UrlModel, e: ChangeModel) -> DocModel {
    DocModel {
        context: CtxModel { directory: true, url: base },
        url: UrlModel {
            scheme: base.scheme,
            host: base.host,
            path: urls::join_paths(base.path, e.file),
        },
        modified: e.modified,
        signature: Option::None,
        digest: Option::None,
    }
}

/// The documents of a directory index, with the watermark applied.
pub open spec fn directory_index_spec(
    base: UrlModel,
    entries: Seq<ChangeModel>,
    since: Option<int>,
) -> Seq<DocModel>
    decreases entries.len(),
{
    if entries.len() == 0 {
        seq![]
    } else {
        let rest = directory_index_spec(base, entries.skip(1), since);
        if since_pass(entries[0].modified, since) {
            seq![dir_doc(base, entries[0])] + rest
        } else {
            rest
        }
    }
}

/// Discover the documents of a directory distribution from its index.
pub fn directory_index(base: &DocUrl, entries: &Vec<ChangeEntry>, since: Option<i64>) -> (r: Vec<
    DiscoveredDoc,
>)
    requires
        base.wf(),
    ensures
        r@.map_values(|d: DiscoveredDoc| d@) == directory_index_spec(
            base@,
            entries@.map_values(|e: ChangeEntry| e@),
            spec_since(since),
        ),
        forall|i: int| 0 <= i < r@.len() ==> (#[trigger] r@[i])@.wf(),
{
    let ghost all = entries@.map_values(|e: ChangeEntry| e@);
    let mut out: Vec<DiscoveredDoc> = Vec::new();
    let mut i: usize = 0;
    proof {
        assert(out@.map_values(|d: DiscoveredDoc| d@) =~= Seq::<DocModel>::empty());
        assert(all.skip(0) =~= all);
    }
    while i < entries.len()
        invariant
            i <= entries@.len(),
            base.wf(),
            all == entries@.map_values(|e: ChangeEntry| e@),
            directory_index_spec(base@, all, spec_since(since)) == out@.map_values(
                |d: DiscoveredDoc| d@,
            ) + directory_index_spec(base@, all.skip(i as int), spec_since(since)),
            forall|j: int| 0 <= j < out@.len() ==> (#[trigger] out@[j])@.wf(),
        decreases entries@.len() - i,
    {
        let e = &entries[i];
        proof {
            assert(all.skip(i as int)[0] == all[i as int]);
            assert(all.skip(i as int).skip(1) =~= all.skip(i + 1));
        }
        let passes: bool = match since {
            Option::Some(t) => e.modified >= t,
            Option::None => true,
        };
        if passes {
            let url = urls::join(base, e.file.as_slice());
            let doc = DiscoveredDoc {
                context: DistributionContext::Directory(base.clone()),
                url,
                modified: e.modified,
                signature: Option::None,
                digest: Option::None,
            };
            proof {
                assert(doc@ == dir_doc(base@, all[i as int]));
            }
            let ghost old_models = out@.map_values(|d: DiscoveredDoc| d@);
            out.push(doc);
            proof {
                assert(out@.map_values(|d: DiscoveredDoc| d@) =~= old_models + seq![doc@]);
                assert(old_models + (seq![doc@] + directory_index_spec(
                    base@,
                    all.skip(i + 1),
                    spec_since(since),
                )) =~= (old_models + seq![doc@]) + directory_index_spec(
                    base@,
                    all.skip(i + 1),
                    spec_since(since),
                ));
            }
        }
        i += 1;
    }
    proof {
        assert(all.skip(i as int) =~= Seq::<ChangeModel>::empty());
        assert(out@.map_values(|d: DiscoveredDoc| d@) + Seq::<DocModel>::empty()
            =~= out@.map_values(|d: DiscoveredDoc| d@));
    }
    out
}

/// An entry of a ROLIE feed, as plain values.
#[derive(Debug, PartialEq, Eq)]
pub struct SourceFileEntry {
    /// The document's absolute URL, as text.
    pub file: Vec<u8>,
    /// The entry's modification time, epoch seconds.
    pub modified: i64,
    /// The digest URL, as text, if the entry carries one.
    pub digest: Option<Vec<u8>>,
    /// The signature URL, as text, if the entry carries one.
    pub signature: Option<Vec<u8>>,
}

/// The model of a feed entry.
pub ghost struct SourceFileModel {
    pub file: Seq<u8>,
    pub modified: int,
    pub digest: Option<Seq<u8>>,
    pub signature: Option<Seq<u8>>,
}

impl View for SourceFileEntry {
    type V = SourceFileModel;

    open spec fn view(&self) -> SourceFileModel {
        SourceFileModel {
            file: self.file@,
            modified: self.modified as int,
            digest: match self.digest {
                Option::Some(d) => Option::Some(d@),
                Option::None => Option::None,
            },
            signature: match self.signature {
                Option::Some(d) => Option::Some(d@),
                Option::None => Option::None,
            },
        }
    }
}

/// What a feed URL text parses to, if it is an absolute URL.
pub open spec fn parsed_url(s: Seq<u8>) -> Option<UrlModel> {
    if urls::url_ok(s) {
        Option::Some(
            UrlModel {
                scheme: urls::spec_scheme(s),
                host: urls::spec_host(s),
                path: urls::spec_path(s),
            },
        )
    } else {
        Option::None
    }
}

/// The document a feed entry denotes, or nothing on a malformed URL.
pub open spec fn feed_doc(feed: UrlModel, f: SourceFileModel) -> Option<DocModel> {
    match parsed_url(f.file) {
        Option::None => Option::None,
        Option::Some(u) => {
            let digest = match f.digest {
                Option::None => Option::Some(Option::None),
                Option::Some(d) => match parsed_url(d) {
                    Option::None => Option::None,
                    Option::Some(du) => Option::Some(Option::Some(du)),
                },
            };
            let signature = match f.signature {
                Option::None => Option::Some(Option::None),
                Option::Some(d) => match parsed_url(d) {
                    Option::None => Option::None,
                    Option::Some(du) => Option::Some(Option::Some(du)),
                },
            };
            match (digest, signature) {
                (Option::Some(dg), Option::Some(sg)) => Option::Some(
                    DocModel {
                        context: CtxModel { directory: false, url: feed },
                        url: u,
                        modified: f.modified,
                        signature: sg,
                        digest: dg,
                    },
                ),
                _ => Option::None,
            }
        },
    }
}

/// The documents of a feed index, with the watermark applied; nothing if
/// any entry carries a malformed URL.
pub open spec fn feed_index_spec(
    feed: UrlModel,
    files: Seq<SourceFileModel>,
    since: Option<int>,
) -> Option<Seq<DocModel>>
    decreases files.len(),
{
    if files.len() == 0 {
        Option::Some(seq![])
    } else {
        match feed_doc(feed, files[0]) {
            Option::None => Option::None,
            Option::Some(d) => match feed_index_spec(feed, files.skip(1), since) {
                Option::None => Option::None,
                Option::Some(rest) => if since_pass(d.modified, since) {
                    Option::Some(seq![d] + rest)
                } else {
                    Option::Some(rest)
                },
            },
        }
    }
}

/// Parse an optional URL text.
fn parse_opt_url(s: &Option<Vec<u8>>) -> (r: Result<Option<DocUrl>, SourceError>)
    ensures
        match s {
            Option::None => r == Result::<Option<DocUrl>, SourceError>::Ok(
                Option::<DocUrl>::None,
            ),
            Option::Some(v) => match parsed_url(v@) {
                Option::None => r == Result::<Option<DocUrl>, SourceError>::Err(
                    SourceError::InvalidUrl,
                ),
                Option::Some(m) => r matches Ok(Some(u)) && u@ == m && u.wf(),
            },
        },
{
    match s {
        Option::None => Ok(Option::None),
        Option::Some(v) => match urls::parse_abs_url(v.as_slice()) {
            Option::Some(u) => Ok(Option::Some(u)),
            Option::None => Err(SourceError::InvalidUrl),
        },
    }
}

/// Discover the documents of a ROLIE feed distribution from its entries.
#[verifier::rlimit(50)]
pub fn feed_index(feed: &DocUrl, files: &Vec<SourceFileEntry>, since: Option<i64>) -> (r: Result<
    Vec<DiscoveredDoc>,
    SourceError,
>)
    requires
        feed.wf(),
    ensures
        r.is_ok() == feed_index_spec(
            feed@,
            files@.map_values(|f: SourceFileEntry| f@),
            spec_since(since),
        ) is Some,
        r matches Ok(v) ==> feed_index_spec(
            feed@,
            files@.map_values(|f: SourceFileEntry| f@),
            spec_since(since),
        ) == Some(v@.map_values(|d: DiscoveredDoc| d@)),
        r matches Ok(v) ==> forall|i: int| 0 <= i < v@.len() ==> (#[trigger] v@[i])@.wf(),
        r matches Err(e) ==> e == SourceError::InvalidUrl,
{
    let ghost all = files@.map_values(|f: SourceFileEntry| f@);
    let mut out: Vec<DiscoveredDoc> = Vec::new();
    let mut i: usize = 0;
    proof {
        assert(out@.map_values(|d: DiscoveredDoc| d@) =~= Seq::<DocModel>::empty());
        assert(all.skip(0) =~= all);
    }
    while i < files.len()
        invariant
            i <= files@.len(),
            feed.wf(),
            all == files@.map_values(|f: SourceFileEntry| f@),
            feed_index_spec(feed@, all, spec_since(since)) matches Some(t) ==> feed_index_spec(
                feed@,
                all.skip(i as int),
                spec_since(since),
            ) matches Some(rest) && t == out@.map_values(|d: DiscoveredDoc| d@) + rest,
            feed_index_spec(feed@, all, spec_since(since)) is None ==> feed_index_spec(
                feed@,
                all.skip(i as int),
                spec_since(since),
            ) is None,
            forall|j: int| 0 <= j < out@.len() ==> (#[trigger] out@[j])@.wf(),
        decreases files@.len() - i,
    {
        let f = &files[i];
        proof {
            assert(all.skip(i as int)[0] == all[i as int]);
            assert(all.skip(i as int).skip(1) =~= all.skip(i + 1));
        }
        let url = match urls::parse_abs_url(f.file.as_slice()) {
            Option::Some(u) => u,
            Option::None => {
                return Err(SourceError::InvalidUrl);
            },
        };
        let digest = match parse_opt_url(&f.digest) {
            Ok(d) => d,
            Err(e) => {
                return Err(e);
            },
        };
        let signature = match parse_opt_url(&f.signature) {
            Ok(d) => d,
            Err(e) => {
                return Err(e);
            },
        };
        let doc = DiscoveredDoc {
            context: DistributionContext::Feed(feed.clone()),
            url,
            modified: f.modified,
            signature,
            digest,
        };
        proof {
            assert(feed_doc(feed@, all[i as int]) == Some(doc@));
        }
        let passes: bool = match since {
            Option::Some(t) => f.modified >= t,
            Option::None => true,
        };
        if passes {
            let ghost old_models = out@.map_values(|d: DiscoveredDoc| d@);
            out.push(doc);
            proof {
                assert(out@.map_values(|d: DiscoveredDoc| d@) =~= old_models + seq![doc@]);
                if feed_index_spec(feed@, all.skip(i + 1), spec_since(since)) is Some {
                    let rest = feed_index_spec(feed@, all.skip(i + 1), spec_since(since)).unwrap();
                    assert(old_models + (seq![doc@] + rest) =~= (old_models + seq![doc@]) + rest);
                }
            }
        }
        i += 1;
    }
    proof {
        assert(all.skip(i as int) =~= Seq::<SourceFileModel>::empty());
        assert(out@.map_values(|d: DiscoveredDoc| d@) + Seq::<DocModel>::empty()
            =~= out@.map_values(|d: DiscoveredDoc| d@));
    }
    Ok(out)
}

/// Every document of a directory index is well-formed: its URL is
/// absolute, as is its distribution's.
pub proof fn lemma_directory_index_wf(base: UrlModel, entries: Seq<ChangeModel>, since: Option<int>)
    requires
        base.wf(),
    ensures
        forall|i: int|
            0 <= i < directory_index_spec(base, entries, since).len() ==> (
            #[trigger] directory_index_spec(base, entries, since)[i]).wf(),
    decreases entries.len(),
{
    if entries.len() > 0 {
        lemma_directory_index_wf(base, entries.skip(1), since);
        let s = directory_index_spec(base, entries, since);
        let rest = directory_index_spec(base, entries.skip(1), since);
        if since_pass(entries[0].modified, since) {
            let d = dir_doc(base, entries[0]);
            assert(d.url.path[0] == base.path[0]);
            assert(d.wf());
            assert forall|i: int| 0 <= i < s.len() implies (#[trigger] s[i]).wf() by {
                if i > 0 {
                    assert(s[i] == rest[i - 1]);
                }
            }
        }
    }
}

/// Applying the watermark while reading an index is the same as reading
/// the whole index and filtering afterwards.
pub proof fn lemma_directory_index_filter(
    base: UrlModel,
    entries: Seq<ChangeModel>,
    since: Option<int>,
)
    ensures
        directory_index_spec(base, entries, since) == since_filter_docs(
            directory_index_spec(base, entries, Option::None),
            since,
        ),
    decreases entries.len(),
{
    if entries.len() > 0 {
        lemma_directory_index_filter(base, entries.skip(1), since);
        let full = directory_index_spec(base, entries, Option::None);
        if since_pass(entries[0].modified, since) {
        } else {
            assert(full.skip(1) =~= directory_index_spec(
                base,
                entries.skip(1),
                Option::None,
            ));
        }
        if full.len() > 0 {
            assert(full.skip(1) =~= directory_index_spec(base, entries.skip(1), Option::None));
        }
    }
}

/// Raising the watermark filters the already-filtered index: a second run
/// with a later watermark sees a subsequence of the first run's documents.
pub proof fn lemma_since_monotone(docs: Seq<DocModel>, t1: int, t2: int)
    requires
        t1 <= t2,
    ensures
        since_filter_docs(docs, Option::Some(t2)) == since_filter_docs(
            since_filter_docs(docs, Option::Some(t1)),
            Option::Some(t2),
        ),
    decreases docs.len(),
{
    if docs.len() > 0 {
        lemma_since_monotone(docs.skip(1), t1, t2);
        let f1 = since_filter_docs(docs, Option::Some(t1));
        if since_pass(docs[0].modified, Option::Some(t1)) {
            assert(f1 == seq![docs[0]] + since_filter_docs(docs.skip(1), Option::Some(t1)));
            assert(f1.skip(1) =~= since_filter_docs(docs.skip(1), Option::Some(t1)));
            assert(f1[0] == docs[0]);
        }
    }
}

/// Applying the watermark while reading a feed is the same as reading
/// the whole feed and filtering afterwards.
pub proof fn lemma_feed_index_filter(
    feed: UrlModel,
    files: Seq<SourceFileModel>,
    since: Option<int>,
)
    ensures
        feed_index_spec(feed, files, since) is Some <==> feed_index_spec(
            feed,
            files,
            Option::None,
        ) is Some,
        feed_index_spec(feed, files, since) matches Some(docs) ==> docs == since_filter_docs(
            feed_index_spec(feed, files, Option::None).unwrap(),
            since,
        ),
    decreases files.len(),
{
    if files.len() > 0 {
        lemma_feed_index_filter(feed, files.skip(1), since);
        if feed_index_spec(feed, files, Option::None) is Some {
            let full = feed_index_spec(feed, files, Option::None).unwrap();
            let d = feed_doc(feed, files[0]).unwrap();
            let rest_full = feed_index_spec(feed, files.skip(1), Option::None).unwrap();
            assert(full == seq![d] + rest_full);
            assert(full.skip(1) =~= rest_full);
            assert(full[0] == d);
        }
    }
}

} // verus!
