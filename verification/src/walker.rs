//! The walker: which distributions a walk visits, in which order, and how
//! the per-distribution indices flatten into one visit sequence.
//!
//! The surrounding application performs the fetches and drives the
//! visitors; every decision — the contexts to fetch, the order of visits,
//! the progress-bar sizes — is computed and proved here.

use vstd::prelude::*;
use crate::discover::CtxModel;
use crate::discover::DiscoveredDoc;
use crate::discover::DistributionContext;
use crate::discover::DocModel;
use crate::metadata::Distribution;
use crate::metadata::DistributionModel;
use crate::text;
use crate::urls::DocUrl;

verus! {

/// What a walk can fail with: the source, a URL, or the visitor.
#[derive(Debug, PartialEq, Eq)]
pub enum Error<VE, SE> {
    Source(SE),
    Url,
    Visitor(VE),
}

/// A filter over distributions; a rejected distribution is never fetched.
#[derive(Debug, PartialEq, Eq)]
pub enum DistributionFilter {
    /// Keep only directory distributions.
    DirectoriesOnly,
    /// Keep only ROLIE feed distributions.
    FeedsOnly,
    /// Keep only distributions on this host.
    HostEquals(Vec<u8>),
}

/// The model of a filter.
pub ghost enum FilterModel {
    DirectoriesOnly,
    FeedsOnly,
    HostEquals(Seq<u8>),
}

impl View for DistributionFilter {
    type V = FilterModel;

    open spec fn view(&self) -> FilterModel {
        match self {
            DistributionFilter::DirectoriesOnly => FilterModel::DirectoriesOnly,
            DistributionFilter::FeedsOnly => FilterModel::FeedsOnly,
            DistributionFilter::HostEquals(h) => FilterModel::HostEquals(h@),
        }
    }
}

/// Does a context pass the filter?
pub open spec fn filter_pass(f: Option<FilterModel>, c: CtxModel) -> bool {
    match f {
        Option::None => true,
        Option::Some(FilterModel::DirectoriesOnly) => c.directory,
        Option::Some(FilterModel::FeedsOnly) => !c.directory,
        Option::Some(FilterModel::HostEquals(h)) => c.url.host == h,
    }
}

/// The contexts one distribution offers: its feeds, then its directory.
pub open spec fn dist_contexts(d: DistributionModel) -> Seq<CtxModel> {
    (match d.rolie {
        Option::Some(r) => r.feeds.map_values(
            |f: crate::metadata::FeedModel| CtxModel { directory: false, url: f.url },
        ),
        Option::None => seq![],
    }) + (match d.directory_url {
        Option::Some(u) => seq![CtxModel { directory: true, url: u }],
        Option::None => seq![],
    })
}

/// The contexts the filter keeps, in order.
pub open spec fn keep_contexts(cs: Seq<CtxModel>, f: Option<FilterModel>) -> Seq<CtxModel>
    decreases cs.len(),
{
    if cs.len() == 0 {
        seq![]
    } else {
        let rest = keep_contexts(cs.skip(1), f);
        if filter_pass(f, cs[0]) {
            seq![cs[0]] + rest
        } else {
            rest
        }
    }
}

/// All contexts a walk visits, in metadata order, filtered.
pub open spec fn collect_spec(ds: Seq<DistributionModel>, f: Option<FilterModel>) -> Seq<CtxModel>
    decreases ds.len(),
{
    if ds.len() == 0 {
        seq![]
    } else {
        keep_contexts(dist_contexts(ds[0]), f) + collect_spec(ds.skip(1), f)
    }
}

/// The walker: owns the distribution filter; the source and the visitor
/// are the application's.
#[derive(Debug, PartialEq, Eq)]
pub struct Walker {
    pub distribution_filter: Option<DistributionFilter>,
}

impl Walker {
    /// A walker over every distribution.
    pub fn new() -> (r: Self)
        ensures
            r.distribution_filter is None,
    {
        Walker { distribution_filter: Option::None }
    }

    /// Set a filter for distributions: one it rejects is never fetched.
    pub fn with_distribution_filter(self, distribution_filter: DistributionFilter) -> (r: Self)
        ensures
            r.distribution_filter == Some(distribution_filter),
    {
        Walker { distribution_filter: Option::Some(distribution_filter) }
    }

    pub open spec fn filter_model(&self) -> Option<FilterModel> {
        match self.distribution_filter {
            Option::Some(ref f) => Option::Some(f@),
            Option::None => Option::None,
        }
    }

    /// The distribution contexts a walk fetches, in order: for each
    /// distribution its feeds, then its directory; filtered ones are
    /// dropped before any fetch.
    pub fn collect_distributions(&self, distributions: &Vec<Distribution>) -> (r: Vec<
        DistributionContext,
    >)
        ensures
            r@.map_values(|c: DistributionContext| c@) == collect_spec(
                distributions@.map_values(|d: Distribution| d@),
                self.filter_model(),
            ),
    {
        let ghost all = distributions@.map_values(|d: Distribution| d@);
        let ghost fm = self.filter_model();
        let mut out: Vec<DistributionContext> = Vec::new();
        let mut i: usize = 0;
        proof {
            assert(all.skip(0) =~= all);
            assert(out@.map_values(|c: DistributionContext| c@) =~= Seq::<CtxModel>::empty());
        }
        while i < distributions.len()
            invariant
                i <= distributions@.len(),
                all == distributions@.map_values(|d: Distribution| d@),
                fm == self.filter_model(),
                collect_spec(all, fm) == out@.map_values(|c: DistributionContext| c@)
                    + collect_spec(all.skip(i as int), fm),
            decreases distributions@.len() - i,
        {
            proof {
                assert(all.skip(i as int)[0] == all[i as int]);
                assert(all.skip(i as int).skip(1) =~= all.skip(i + 1));
            }
            let d = &distributions[i];
            let mut here: Vec<DistributionContext> = Vec::new();
            match &d.rolie {
                Option::Some(rolie) => {
                    let ghost feeds = d@.rolie.unwrap().feeds;
                    let mut j: usize = 0;
                    proof {
                        assert(here@.map_values(|c: DistributionContext| c@) =~= feeds.map_values(
                            |f: crate::metadata::FeedModel|
                                CtxModel { directory: false, url: f.url },
                        ).subrange(0, 0));
                    }
                    while j < rolie.feeds.len()
                        invariant
                            j <= rolie.feeds@.len(),
                            feeds == rolie@.feeds,
                            here@.map_values(|c: DistributionContext| c@) == feeds.map_values(
                                |f: crate::metadata::FeedModel|
                                    CtxModel { directory: false, url: f.url },
                            ).subrange(0, j as int),
                        decreases rolie.feeds@.len() - j,
                    {
                        let ghost before = here@.map_values(|c: DistributionContext| c@);
                        let ghost fmapped = feeds.map_values(
                            |f: crate::metadata::FeedModel|
                                CtxModel { directory: false, url: f.url },
                        );
                        let ctx = DistributionContext::Feed(rolie.feeds[j].url.clone());
                        proof {
                            assert(rolie.feeds@[j as int]@ == feeds[j as int]);
                            assert(ctx@ == fmapped[j as int]);
                        }
                        here.push(ctx);
                        j += 1;
                        proof {
                            assert(here@.map_values(|c: DistributionContext| c@) =~= before
                                + seq![fmapped[j - 1]]);
                            assert(fmapped.subrange(0, j as int) =~= fmapped.subrange(0, j - 1)
                                + seq![fmapped[j - 1]]);
                        }
                    }
                    proof {
                        let fmapped = feeds.map_values(
                            |f: crate::metadata::FeedModel|
                                CtxModel { directory: false, url: f.url },
                        );
                        assert(fmapped.subrange(0, fmapped.len() as int) =~= fmapped);
                    }
                },
                Option::None => {},
            }
            match &d.directory_url {
                Option::Some(u) => {
                    let ghost before = here@.map_values(|c: DistributionContext| c@);
                    let ctx = DistributionContext::Directory(u.clone());
                    here.push(ctx);
                    proof {
                        assert(here@.map_values(|c: DistributionContext| c@) =~= before + seq![
                            CtxModel { directory: true, url: d@.directory_url.unwrap() },
                        ]);
                    }
                },
                Option::None => {},
            }
            proof {
                assert(here@.map_values(|c: DistributionContext| c@) =~= dist_contexts(
                    all[i as int],
                ));
            }
            // append the kept contexts of this distribution
            let ghost here_models = here@.map_values(|c: DistributionContext| c@);
            let ghost old_models = out@.map_values(|c: DistributionContext| c@);
            let mut k: usize = 0;
            proof {
                assert(here_models.skip(0) =~= here_models);
            }
            while k < here.len()
                invariant
                    k <= here@.len(),
                    here_models == here@.map_values(|c: DistributionContext| c@),
                    fm == self.filter_model(),
                    keep_contexts(here_models, fm) == out@.map_values(
                        |c: DistributionContext| c@,
                    ).skip(old_models.len() as int) + keep_contexts(
                        here_models.skip(k as int),
                        fm,
                    ),
                    out@.map_values(|c: DistributionContext| c@).subrange(
                        0,
                        old_models.len() as int,
                    ) == old_models,
                    out@.len() >= old_models.len(),
                decreases here@.len() - k,
            {
                proof {
                    assert(here_models.skip(k as int)[0] == here_models[k as int]);
                    assert(here_models.skip(k as int).skip(1) =~= here_models.skip(k + 1));
                }
                let c = &here[k];
                let passes: bool = match &self.distribution_filter {
                    Option::None => true,
                    Option::Some(DistributionFilter::DirectoriesOnly) => match c {
                        DistributionContext::Directory(_) => true,
                        DistributionContext::Feed(_) => false,
                    },
                    Option::Some(DistributionFilter::FeedsOnly) => match c {
                        DistributionContext::Directory(_) => false,
                        DistributionContext::Feed(_) => true,
                    },
                    Option::Some(DistributionFilter::HostEquals(h)) => text::eq_bytes(
                        c.url().host.as_slice(),
                        h.as_slice(),
                    ),
                };
                proof {
                    assert(passes == filter_pass(fm, here_models[k as int]));
                }
                if passes {
                    let ghost mid = out@.map_values(|c2: DistributionContext| c2@);
                    out.push(c.clone());
                    proof {
                        assert(out@.map_values(|c2: DistributionContext| c2@) =~= mid + seq![
                            here_models[k as int],
                        ]);
                        assert(out@.map_values(|c2: DistributionContext| c2@).skip(
                            old_models.len() as int,
                        ) =~= mid.skip(old_models.len() as int) + seq![here_models[k as int]]);
                        assert(out@.map_values(|c2: DistributionContext| c2@).subrange(
                            0,
                            old_models.len() as int,
                        ) =~= old_models);
                        assert((mid.skip(old_models.len() as int) + seq![
                            here_models[k as int],
                        ]) + keep_contexts(here_models.skip(k + 1), fm) =~= mid.skip(
                            old_models.len() as int,
                        ) + (seq![here_models[k as int]] + keep_contexts(
                            here_models.skip(k + 1),
                            fm,
                        )));
                    }
                }
                k += 1;
            }
            proof {
                assert(here_models.skip(here_models.len() as int) =~= Seq::<CtxModel>::empty());
                assert(out@.map_values(|c: DistributionContext| c@).skip(old_models.len() as int)
                    + Seq::<CtxModel>::empty() =~= out@.map_values(
                    |c: DistributionContext| c@,
                ).skip(old_models.len() as int));
                assert(out@.map_values(|c: DistributionContext| c@) =~= out@.map_values(
                    |c: DistributionContext| c@,
                ).subrange(0, old_models.len() as int) + out@.map_values(
                    |c: DistributionContext| c@,
                ).skip(old_models.len() as int));
                assert(old_models + (keep_contexts(here_models, fm) + collect_spec(
                    all.skip(i + 1),
                    fm,
                )) =~= (old_models + keep_contexts(here_models, fm)) + collect_spec(
                    all.skip(i + 1),
                    fm,
                ));
            }
            i += 1;
        }
        proof {
            assert(all.skip(i as int) =~= Seq::<DistributionModel>::empty());
            assert(out@.map_values(|c: DistributionContext| c@) + Seq::<CtxModel>::empty()
                =~= out@.map_values(|c: DistributionContext| c@));
        }
        out
    }
}

/// The indices of all distributions, flattened in distribution-then-index
/// order: this is the visit order of the sequential walk and the work
/// list of the bounded-concurrent walk.
pub open spec fn flatten_docs(indices: Seq<Seq<DocModel>>) -> Seq<DocModel>
    decreases indices.len(),
{
    if indices.len() == 0 {
        seq![]
    } else {
        indices[0] + flatten_docs(indices.skip(1))
    }
}

/// The total number of documents across the indices.
pub open spec fn total_docs(indices: Seq<Seq<DocModel>>) -> int
    decreases indices.len(),
{
    if indices.len() == 0 {
        0
    } else {
        indices[0].len() + total_docs(indices.skip(1))
    }
}

/// Flattening visits every document of every index exactly once: the
/// visit count is the sum of the index lengths, and a distribution with
/// an empty index contributes no visits at all.
pub proof fn lemma_flatten_total(indices: Seq<Seq<DocModel>>)
    ensures
        flatten_docs(indices).len() == total_docs(indices),
        total_docs(indices) >= 0,
    decreases indices.len(),
{
    if indices.len() > 0 {
        lemma_flatten_total(indices.skip(1));
    }
}

/// Flatten per-distribution indices into the one visit sequence.
pub fn flatten_indices(indices: Vec<Vec<DiscoveredDoc>>) -> (r: Vec<DiscoveredDoc>)
    ensures
        r@.map_values(|d: DiscoveredDoc| d@) == flatten_docs(
            indices@.map_values(|v: Vec<DiscoveredDoc>| v@.map_values(|d: DiscoveredDoc| d@)),
        ),
{
    let ghost all = indices@.map_values(
        |v: Vec<DiscoveredDoc>| v@.map_values(|d: DiscoveredDoc| d@),
    );
    let mut out: Vec<DiscoveredDoc> = Vec::new();
    let mut i: usize = 0;
    proof {
        assert(all.skip(0) =~= all);
        assert(out@.map_values(|d: DiscoveredDoc| d@) =~= Seq::<DocModel>::empty());
    }
    while i < indices.len()
        invariant
            i <= indices@.len(),
            all == indices@.map_values(
                |v: Vec<DiscoveredDoc>| v@.map_values(|d: DiscoveredDoc| d@),
            ),
            flatten_docs(all) == out@.map_values(|d: DiscoveredDoc| d@) + flatten_docs(
                all.skip(i as int),
            ),
        decreases indices@.len() - i,
    {
        proof {
            assert(all.skip(i as int)[0] == all[i as int]);
            assert(all.skip(i as int).skip(1) =~= all.skip(i + 1));
        }
        let v = &indices[i];
        let ghost old_models = out@.map_values(|d: DiscoveredDoc| d@);
        let mut k: usize = 0;
        while k < v.len()
            invariant
                k <= v@.len(),
                all[i as int] == v@.map_values(|d: DiscoveredDoc| d@),
                i < all.len(),
                out@.map_values(|d: DiscoveredDoc| d@) == old_models + all[i as int].subrange(
                    0,
                    k as int,
                ),
            decreases v@.len() - k,
        {
            let d = v[k].clone();
            proof {
                assert(d@ == all[i as int][k as int]);
            }
            let ghost before = out@.map_values(|d2: DiscoveredDoc| d2@);
            out.push(d);
            k += 1;
            proof {
                assert(out@.map_values(|d2: DiscoveredDoc| d2@) =~= before + seq![
                    all[i as int][k - 1],
                ]);
                assert(all[i as int].subrange(0, k as int) =~= all[i as int].subrange(0, k - 1)
                    + seq![all[i as int][k - 1]]);
                assert((old_models + all[i as int].subrange(0, k - 1)) + seq![
                    all[i as int][k - 1],
                ] =~= old_models + all[i as int].subrange(0, k as int));
            }
        }
        proof {
            assert(all[i as int].subrange(0, all[i as int].len() as int) =~= all[i as int]);
            assert(old_models + (all[i as int] + flatten_docs(all.skip(i + 1)))
                =~= (old_models + all[i as int]) + flatten_docs(all.skip(i + 1)));
        }
        i += 1;
    }
    proof {
        assert(all.skip(i as int) =~= Seq::<Seq<DocModel>>::empty());
        assert(out@.map_values(|d: DiscoveredDoc| d@) + Seq::<DocModel>::empty()
            =~= out@.map_values(|d: DiscoveredDoc| d@));
    }
    out
}

/// The short name shown while a document is visited: what follows the
/// last slash of its URL path.
pub fn progress_name(url: &DocUrl) -> (r: Vec<u8>)
    requires
        url.wf(),
    ensures
        r@ == url@.path.skip(crate::urls::last_slash(url@.path) + 1),
{
    proof {
        crate::urls::lemma_last_slash_bounds(url@.path);
    }
    let mut ls: usize = url.path.len() - 1;
    loop
        invariant_except_break
            0 <= ls < url.path@.len(),
            crate::urls::path_wf(url.path@),
            crate::urls::last_slash(url.path@) <= ls as int,
        ensures
            0 <= ls < url.path@.len(),
            ls as int == crate::urls::last_slash(url.path@),
        decreases ls,
    {
        if url.path[ls] == 47 {
            proof {
                crate::urls::lemma_slash_le_last(url.path@, ls as int);
            }
            break;
        }
        proof {
            crate::urls::lemma_last_slash_bounds(url.path@);
        }
        ls -= 1;
    }
    let r = text::copy_range(url.path.as_slice(), ls + 1, url.path.len());
    proof {
        assert(r@ =~= url@.path.skip(crate::urls::last_slash(url@.path) + 1));
    }
    r
}

} // verus!
