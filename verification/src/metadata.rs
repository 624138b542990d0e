//! The provider's root metadata: its distributions and its public keys.

use vstd::prelude::*;
use crate::urls::DocUrl;
use crate::urls::UrlModel;

verus! {

/// A reference to a public OpenPGP key: where it lives and, if declared,
/// its fingerprint.
#[derive(Debug, PartialEq, Eq)]
pub struct KeyRef {
    pub fingerprint: Option<Vec<u8>>,
    pub url: DocUrl,
}

pub ghost struct KeyRefModel {
    pub fingerprint: Option<Seq<u8>>,
    pub url: UrlModel,
}

impl View for KeyRef {
    type V = KeyRefModel;

    open spec fn view(&self) -> KeyRefModel {
        KeyRefModel {
            fingerprint: match self.fingerprint {
                Option::Some(ref f) => Option::Some(f@),
                Option::None => Option::None,
            },
            url: self.url@,
        }
    }
}

impl Clone for KeyRef {
    /// An equal copy, up to the view.
    fn clone(&self) -> (r: Self)
        ensures
            r@ == self@,
    {
        KeyRef {
            fingerprint: match &self.fingerprint {
                Option::Some(f) => Option::Some(f.clone()),
                Option::None => Option::None,
            },
            url: self.url.clone(),
        }
    }
}

/// One feed of a ROLIE catalogue.
#[derive(Debug, PartialEq, Eq)]
pub struct Feed {
    pub url: DocUrl,
}

pub ghost struct FeedModel {
    pub url: UrlModel,
}

impl View for Feed {
    type V = FeedModel;

    open spec fn view(&self) -> FeedModel {
        FeedModel { url: self.url@ }
    }
}

impl Clone for Feed {
    /// An equal copy, up to the view.
    fn clone(&self) -> (r: Self)
        ensures
            r@ == self@,
    {
        Feed { url: self.url.clone() }
    }
}

/// The ROLIE part of a distribution: its feeds.
#[derive(Debug, PartialEq, Eq)]
pub struct Rolie {
    pub feeds: Vec<Feed>,
}

pub ghost struct RolieModel {
    pub feeds: Seq<FeedModel>,
}

impl View for Rolie {
    type V = RolieModel;

    open spec fn view(&self) -> RolieModel {
        RolieModel { feeds: self.feeds@.map_values(|f: Feed| f@) }
    }
}

impl Clone for Rolie {
    /// An equal copy, up to the view.
    fn clone(&self) -> (r: Self)
        ensures
            r@ == self@,
    {
        let mut feeds: Vec<Feed> = Vec::new();
        let mut i: usize = 0;
        while i < self.feeds.len()
            invariant
                i <= self.feeds@.len(),
                feeds@.map_values(|f: Feed| f@) == self.feeds@.map_values(|f: Feed| f@).subrange(
                    0,
                    i as int,
                ),
            decreases self.feeds@.len() - i,
        {
            let ghost old_models = feeds@.map_values(|f: Feed| f@);
            let c = self.feeds[i].clone();
            proof {
                assert(c@ == self.feeds@[i as int]@);
            }
            feeds.push(c);
            i += 1;
            proof {
                let full = self.feeds@.map_values(|f: Feed| f@);
                assert(feeds@.map_values(|f: Feed| f@) =~= old_models + seq![
                    self.feeds@[i - 1]@,
                ]);
                assert(full.subrange(0, i as int) =~= full.subrange(0, i - 1) + seq![
                    full[i - 1],
                ]);
            }
        }
        proof {
            assert(self.feeds@.map_values(|f: Feed| f@).subrange(
                0,
                self.feeds@.len() as int,
            ) =~= self.feeds@.map_values(|f: Feed| f@));
        }
        Rolie { feeds }
    }
}

/// A distribution: a directory channel, a ROLIE catalogue, or both.
#[derive(Debug, PartialEq, Eq)]
pub struct Distribution {
    pub directory_url: Option<DocUrl>,
    pub rolie: Option<Rolie>,
}

pub ghost struct DistributionModel {
    pub directory_url: Option<UrlModel>,
    pub rolie: Option<RolieModel>,
}

impl View for Distribution {
    type V = DistributionModel;

    open spec fn view(&self) -> DistributionModel {
        DistributionModel {
            directory_url: match self.directory_url {
                Option::Some(ref u) => Option::Some(u@),
                Option::None => Option::None,
            },
            rolie: match self.rolie {
                Option::Some(ref r) => Option::Some(r@),
                Option::None => Option::None,
            },
        }
    }
}

impl Clone for Distribution {
    /// An equal copy, up to the view.
    fn clone(&self) -> (r: Self)
        ensures
            r@ == self@,
    {
        Distribution {
            directory_url: match &self.directory_url {
                Option::Some(u) => Option::Some(u.clone()),
                Option::None => Option::None,
            },
            rolie: match &self.rolie {
                Option::Some(r) => Option::Some(r.clone()),
                Option::None => Option::None,
            },
        }
    }
}

/// The provider's root metadata.
#[derive(Debug, PartialEq, Eq)]
pub struct ProviderMetadata {
    pub distributions: Vec<Distribution>,
    pub public_openpgp_keys: Vec<KeyRef>,
}

pub ghost struct MetadataModel {
    pub distributions: Seq<DistributionModel>,
    pub public_openpgp_keys: Seq<KeyRefModel>,
}

impl View for ProviderMetadata {
    type V = MetadataModel;

    open spec fn view(&self) -> MetadataModel {
        MetadataModel {
            distributions: self.distributions@.map_values(|d: Distribution| d@),
            public_openpgp_keys: self.public_openpgp_keys@.map_values(|k: KeyRef| k@),
        }
    }
}

impl MetadataModel {
    /// Every URL of the metadata is well-formed.
    pub open spec fn wf(self) -> bool {
        &&& forall|i: int|
            0 <= i < self.distributions.len() ==> {
                let d = #[trigger] self.distributions[i];
                &&& (d.directory_url matches Some(u) ==> u.wf())
                &&& (d.rolie matches Some(r) ==> forall|j: int|
                    0 <= j < r.feeds.len() ==> (#[trigger] r.feeds[j]).url.wf())
            }
        &&& forall|i: int|
            0 <= i < self.public_openpgp_keys.len() ==> (
            #[trigger] self.public_openpgp_keys[i]).url.wf()
    }
}

} // verus!
