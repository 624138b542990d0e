//! Reading and writing the provider metadata document.
//!
//! The wire format is JSON: `distributions[*].directory_url`,
//! `distributions[*].rolie.feeds[*].url` and
//! `public_openpgp_keys[*].{fingerprint,url}` are read, unknown fields
//! are ignored. The writer emits the same fields, compactly.

use vstd::prelude::*;
use crate::discover::parsed_url;
use crate::errors::SourceError;
use crate::json;
use crate::json::MemberModel;
use crate::json::MemberSpan;
use crate::lits;
use crate::metadata::Distribution;
use crate::metadata::DistributionModel;
use crate::metadata::Feed;
use crate::metadata::FeedModel;
use crate::metadata::KeyRef;
use crate::metadata::KeyRefModel;
use crate::metadata::MetadataModel;
use crate::metadata::ProviderMetadata;
use crate::metadata::Rolie;
use crate::metadata::RolieModel;
use crate::retrieve::ws_end;
use crate::text;
use crate::urls;
use crate::urls::DocUrl;
use crate::urls::UrlModel;

verus! {

/// A string value at `pos`.
pub open spec fn string_at(s: Seq<u8>, pos: int) -> Option<Seq<u8>> {
    let p = ws_end(s, pos);
    if 0 <= p < s.len() && s[p] == 34 {
        match json::jstr(s, p + 1) {
            Option::None => Option::None,
            Option::Some(t) => Option::Some(t.0),
        }
    } else {
        Option::None
    }
}

/// An absolute URL value at `pos`.
pub open spec fn url_at(s: Seq<u8>, pos: int) -> Option<UrlModel> {
    match string_at(s, pos) {
        Option::None => Option::None,
        Option::Some(t) => parsed_url(t),
    }
}

pub(crate) fn string_at_x(s: &[u8], pos: usize) -> (r: Option<Vec<u8>>)
    requires
        pos <= s@.len(),
    ensures
        (match string_at(s@, pos as int) {
            Option::None => r is None,
            Option::Some(t) => r matches Some(v) && v@ == t,
        }),
{
    let p = json::ws_x(s, pos);
    if p >= s.len() {
        return Option::None;
    }
    if s[p] != 34 {
        return Option::None;
    }
    match json::jstr_x(s, p + 1) {
        Option::Some(t) => Option::Some(t.0),
        Option::None => Option::None,
    }
}

fn url_at_x(s: &[u8], pos: usize) -> (r: Option<DocUrl>)
    requires
        pos <= s@.len(),
    ensures
        (match url_at(s@, pos as int) {
            Option::None => r is None,
            Option::Some(m) => r matches Some(u) && u@ == m && u.wf(),
        }),
{
    match string_at_x(s, pos) {
        Option::Some(t) => urls::parse_abs_url(t.as_slice()),
        Option::None => Option::None,
    }
}

/// Fold a feed object's members: the last `url` wins.
pub open spec fn feed_fold(s: Seq<u8>, ms: Seq<MemberModel>, acc: Option<UrlModel>) -> Option<
    Option<UrlModel>,
>
    decreases ms.len(),
{
    if ms.len() == 0 {
        Option::Some(acc)
    } else if ms[0].key == lits::spec_key_url() {
        match url_at(s, ms[0].vstart) {
            Option::None => Option::None,
            Option::Some(u) => feed_fold(s, ms.skip(1), Option::Some(u)),
        }
    } else {
        feed_fold(s, ms.skip(1), acc)
    }
}

/// A feed object at `pos`: `{"url": <url>, …}`.
pub open spec fn feed_at(s: Seq<u8>, pos: int) -> Option<FeedModel> {
    let p = ws_end(s, pos);
    if 0 <= p < s.len() && s[p] == 123 {
        match json::members_from(s, p + 1, true) {
            Option::None => Option::None,
            Option::Some(t) => match feed_fold(s, t.0, Option::None) {
                Option::None => Option::None,
                Option::Some(Option::None) => Option::None,
                Option::Some(Option::Some(u)) => Option::Some(FeedModel { url: u }),
            },
        }
    } else {
        Option::None
    }
}

fn feed_at_x(s: &[u8], pos: usize) -> (r: Option<Feed>)
    requires
        pos <= s@.len(),
    ensures
        (match feed_at(s@, pos as int) {
            Option::None => r is None,
            Option::Some(m) => r matches Some(f) && f@ == m,
        }),
{
    let p = json::ws_x(s, pos);
    if p >= s.len() {
        return Option::None;
    }
    if s[p] != 123 {
        return Option::None;
    }
    let (ms, _end) = match json::members_from_x(s, p + 1, true) {
        Option::Some(t) => t,
        Option::None => {
            return Option::None;
        },
    };
    proof {
        json::lemma_members_from_advances(s@, p + 1, true);
    }
    let ghost all = ms@.map_values(|m: MemberSpan| m@);
    let mut acc: Option<DocUrl> = Option::None;
    let mut i: usize = 0;
    proof {
        assert(all.skip(0) =~= all);
    }
    while i < ms.len()
        invariant
            i <= ms@.len(),
            all == ms@.map_values(|m: MemberSpan| m@),
            p < s@.len() && ws_end(s@, pos as int) == p as int && s@[p as int] == 123,
            (json::members_from(s@, p as int + 1, true) matches Some(t) && t.0 == all),
            forall|j: int| 0 <= j < all.len() ==> 0 <= (#[trigger] all[j]).vstart <= s@.len(),
            feed_fold(s@, all, Option::None) == feed_fold(
                s@,
                all.skip(i as int),
                match acc {
                    Option::Some(u) => Option::Some(u@),
                    Option::None => Option::None,
                },
            ),
            acc matches Some(u) ==> u.wf(),
        decreases ms@.len() - i,
    {
        proof {
            assert(all.skip(i as int)[0] == all[i as int]);
            assert(all.skip(i as int).skip(1) =~= all.skip(i + 1));
        }
        let m = &ms[i];
        let key_url = lits::key_url();
        if text::eq_bytes(m.key.as_slice(), key_url.as_slice()) {
            match url_at_x(s, m.vstart) {
                Option::Some(u) => {
                    acc = Option::Some(u);
                },
                Option::None => {
                    proof {
                        let accm = match acc {
                            Option::Some(u) => Option::Some(u@),
                            Option::None => Option::<UrlModel>::None,
                        };
                        assert(all.skip(i as int).len() > 0);
                        assert(all.skip(i as int)[0].key == lits::spec_key_url());
                        assert(url_at(s@, all.skip(i as int)[0].vstart) is None);
                        assert(feed_fold(s@, all.skip(i as int), accm) is None);
                        assert(feed_fold(s@, all, Option::None) is None);
                        let pp = ws_end(s@, pos as int);
                        assert(0 <= pp < s@.len() && s@[pp] == 123);
                        let mm = json::members_from(s@, pp + 1, true);
                        assert(mm is Some);
                        assert(mm.unwrap().0 == all);
                        assert(feed_fold(s@, mm.unwrap().0, Option::None) is None);
                        assert(feed_at(s@, pos as int) is None);
                    }
                    return Option::None;
                },
            }
        }
        i += 1;
    }
    proof {
        assert(all.skip(i as int) =~= Seq::<MemberModel>::empty());
    }
    match acc {
        Option::Some(u) => Option::Some(Feed { url: u }),
        Option::None => Option::None,
    }
}

/// Fold an array's elements into feeds.
pub open spec fn feeds_fold(s: Seq<u8>, es: Seq<int>) -> Option<Seq<FeedModel>>
    decreases es.len(),
{
    if es.len() == 0 {
        Option::Some(seq![])
    } else {
        match feed_at(s, es[0]) {
            Option::None => Option::None,
            Option::Some(f) => match feeds_fold(s, es.skip(1)) {
                Option::None => Option::None,
                Option::Some(rest) => Option::Some(seq![f] + rest),
            },
        }
    }
}

/// A feed array at `pos`.
pub open spec fn feeds_at(s: Seq<u8>, pos: int) -> Option<Seq<FeedModel>> {
    let p = ws_end(s, pos);
    if 0 <= p < s.len() && s[p] == 91 {
        match json::elems_from(s, p + 1, true) {
            Option::None => Option::None,
            Option::Some(t) => feeds_fold(s, t.0),
        }
    } else {
        Option::None
    }
}

fn feeds_at_x(s: &[u8], pos: usize) -> (r: Option<Vec<Feed>>)
    requires
        pos <= s@.len(),
    ensures
        (match feeds_at(s@, pos as int) {
            Option::None => r is None,
            Option::Some(m) => r matches Some(v) && v@.map_values(|f: Feed| f@) == m,
        }),
{
    let p = json::ws_x(s, pos);
    if p >= s.len() {
        return Option::None;
    }
    if s[p] != 91 {
        return Option::None;
    }
    let (es, _end) = match json::elems_from_x(s, p + 1, true) {
        Option::Some(t) => t,
        Option::None => {
            return Option::None;
        },
    };
    proof {
        json::lemma_elems_from_advances(s@, p + 1, true);
    }
    let ghost all = es@.map_values(|v: usize| v as int);
    let mut out: Vec<Feed> = Vec::new();
    let mut i: usize = 0;
    proof {
        assert(all.skip(0) =~= all);
        assert(out@.map_values(|f: Feed| f@) =~= Seq::<FeedModel>::empty());
    }
    while i < es.len()
        invariant
            i <= es@.len(),
            all == es@.map_values(|v: usize| v as int),
            p < s@.len() && ws_end(s@, pos as int) == p as int && s@[p as int] == 91,
            (json::elems_from(s@, p as int + 1, true) matches Some(t) && t.0 == all),
            forall|j: int| 0 <= j < all.len() ==> 0 <= #[trigger] all[j] < s@.len(),
            feeds_fold(s@, all) matches Some(t) ==> feeds_fold(s@, all.skip(i as int))
                matches Some(rest) && t == out@.map_values(|f: Feed| f@) + rest,
            feeds_fold(s@, all) is None ==> feeds_fold(s@, all.skip(i as int)) is None,
        decreases es@.len() - i,
    {
        proof {
            assert(all.skip(i as int)[0] == all[i as int]);
            assert(all.skip(i as int).skip(1) =~= all.skip(i + 1));
        }
        let f = match feed_at_x(s, es[i]) {
            Option::Some(f) => f,
            Option::None => {
                return Option::None;
            },
        };
        let ghost old_models = out@.map_values(|f2: Feed| f2@);
        let ghost fm = f@;
        out.push(f);
        proof {
            assert(out@.map_values(|f2: Feed| f2@) =~= old_models + seq![fm]);
            if feeds_fold(s@, all.skip(i + 1)) is Some {
                let rest = feeds_fold(s@, all.skip(i + 1)).unwrap();
                assert(old_models + (seq![fm] + rest) =~= (old_models + seq![fm]) + rest);
            }
        }
        i += 1;
    }
    proof {
        assert(all.skip(i as int) =~= Seq::<int>::empty());
        assert(out@.map_values(|f: Feed| f@) + Seq::<FeedModel>::empty() =~= out@.map_values(
            |f: Feed| f@,
        ));
    }
    Option::Some(out)
}

/// Fold a ROLIE object's members: the last `feeds` wins; absent means
/// no feeds.
pub open spec fn rolie_fold(s: Seq<u8>, ms: Seq<MemberModel>, acc: Seq<FeedModel>) -> Option<
    Seq<FeedModel>,
>
    decreases ms.len(),
{
    if ms.len() == 0 {
        Option::Some(acc)
    } else if ms[0].key == lits::spec_key_feeds() {
        match feeds_at(s, ms[0].vstart) {
            Option::None => Option::None,
            Option::Some(fs) => rolie_fold(s, ms.skip(1), fs),
        }
    } else {
        rolie_fold(s, ms.skip(1), acc)
    }
}

/// A ROLIE object at `pos`: `{"feeds": [...], …}`.
pub open spec fn rolie_at(s: Seq<u8>, pos: int) -> Option<RolieModel> {
    let p = ws_end(s, pos);
    if 0 <= p < s.len() && s[p] == 123 {
        match json::members_from(s, p + 1, true) {
            Option::None => Option::None,
            Option::Some(t) => match rolie_fold(s, t.0, seq![]) {
                Option::None => Option::None,
                Option::Some(fs) => Option::Some(RolieModel { feeds: fs }),
            },
        }
    } else {
        Option::None
    }
}

fn rolie_at_x(s: &[u8], pos: usize) -> (r: Option<Rolie>)
    requires
        pos <= s@.len(),
    ensures
        (match rolie_at(s@, pos as int) {
            Option::None => r is None,
            Option::Some(m) => r matches Some(v) && v@ == m,
        }),
{
    let p = json::ws_x(s, pos);
    if p >= s.len() {
        return Option::None;
    }
    if s[p] != 123 {
        return Option::None;
    }
    let (ms, _end) = match json::members_from_x(s, p + 1, true) {
        Option::Some(t) => t,
        Option::None => {
            return Option::None;
        },
    };
    proof {
        json::lemma_members_from_advances(s@, p + 1, true);
    }
    let ghost all = ms@.map_values(|m: MemberSpan| m@);
    let mut acc: Vec<Feed> = Vec::new();
    let mut i: usize = 0;
    proof {
        assert(all.skip(0) =~= all);
        assert(acc@.map_values(|f: Feed| f@) =~= Seq::<FeedModel>::empty());
    }
    while i < ms.len()
        invariant
            i <= ms@.len(),
            all == ms@.map_values(|m: MemberSpan| m@),
            p < s@.len() && ws_end(s@, pos as int) == p as int && s@[p as int] == 123,
            (json::members_from(s@, p as int + 1, true) matches Some(t) && t.0 == all),
            forall|j: int| 0 <= j < all.len() ==> 0 <= (#[trigger] all[j]).vstart <= s@.len(),
            rolie_fold(s@, all, seq![]) == rolie_fold(
                s@,
                all.skip(i as int),
                acc@.map_values(|f: Feed| f@),
            ),
        decreases ms@.len() - i,
    {
        proof {
            assert(all.skip(i as int)[0] == all[i as int]);
            assert(all.skip(i as int).skip(1) =~= all.skip(i + 1));
        }
        let m = &ms[i];
        let key_feeds = lits::key_feeds();
        if text::eq_bytes(m.key.as_slice(), key_feeds.as_slice()) {
            match feeds_at_x(s, m.vstart) {
                Option::Some(fs) => {
                    acc = fs;
                },
                Option::None => {
                    return Option::None;
                },
            }
        }
        i += 1;
    }
    proof {
        assert(all.skip(i as int) =~= Seq::<MemberModel>::empty());
    }
    Option::Some(Rolie { feeds: acc })
}

/// A distribution-model accumulator.
pub ghost struct DistAcc {
    pub directory_url: Option<UrlModel>,
    pub rolie: Option<RolieModel>,
}

/// Fold a distribution object's members.
pub open spec fn dist_fold(s: Seq<u8>, ms: Seq<MemberModel>, acc: DistAcc) -> Option<DistAcc>
    decreases ms.len(),
{
    if ms.len() == 0 {
        Option::Some(acc)
    } else if ms[0].key == lits::spec_key_directory_url() {
        match url_at(s, ms[0].vstart) {
            Option::None => Option::None,
            Option::Some(u) => dist_fold(
                s,
                ms.skip(1),
                DistAcc { directory_url: Option::Some(u), rolie: acc.rolie },
            ),
        }
    } else if ms[0].key == lits::spec_key_rolie() {
        match rolie_at(s, ms[0].vstart) {
            Option::None => Option::None,
            Option::Some(r) => dist_fold(
                s,
                ms.skip(1),
                DistAcc { directory_url: acc.directory_url, rolie: Option::Some(r) },
            ),
        }
    } else {
        dist_fold(s, ms.skip(1), acc)
    }
}

/// A distribution object at `pos`.
pub open spec fn dist_at(s: Seq<u8>, pos: int) -> Option<DistributionModel> {
    let p = ws_end(s, pos);
    if 0 <= p < s.len() && s[p] == 123 {
        match json::members_from(s, p + 1, true) {
            Option::None => Option::None,
            Option::Some(t) => match dist_fold(
                s,
                t.0,
                DistAcc { directory_url: Option::None, rolie: Option::None },
            ) {
                Option::None => Option::None,
                Option::Some(a) => Option::Some(
                    DistributionModel { directory_url: a.directory_url, rolie: a.rolie },
                ),
            },
        }
    } else {
        Option::None
    }
}

fn dist_at_x(s: &[u8], pos: usize) -> (r: Option<Distribution>)
    requires
        pos <= s@.len(),
    ensures
        (match dist_at(s@, pos as int) {
            Option::None => r is None,
            Option::Some(m) => r matches Some(v) && v@ == m,
        }),
{
    let p = json::ws_x(s, pos);
    if p >= s.len() {
        return Option::None;
    }
    if s[p] != 123 {
        return Option::None;
    }
    let (ms, _end) = match json::members_from_x(s, p + 1, true) {
        Option::Some(t) => t,
        Option::None => {
            return Option::None;
        },
    };
    proof {
        json::lemma_members_from_advances(s@, p + 1, true);
    }
    let ghost all = ms@.map_values(|m: MemberSpan| m@);
    let mut directory_url: Option<DocUrl> = Option::None;
    let mut rolie: Option<Rolie> = Option::None;
    let mut i: usize = 0;
    proof {
        assert(all.skip(0) =~= all);
    }
    while i < ms.len()
        invariant
            i <= ms@.len(),
            all == ms@.map_values(|m: MemberSpan| m@),
            p < s@.len() && ws_end(s@, pos as int) == p as int && s@[p as int] == 123,
            (json::members_from(s@, p as int + 1, true) matches Some(t) && t.0 == all),
            forall|j: int| 0 <= j < all.len() ==> 0 <= (#[trigger] all[j]).vstart <= s@.len(),
            dist_fold(
                s@,
                all,
                DistAcc { directory_url: Option::None, rolie: Option::None },
            ) == dist_fold(
                s@,
                all.skip(i as int),
                DistAcc {
                    directory_url: match directory_url {
                        Option::Some(u) => Option::Some(u@),
                        Option::None => Option::None,
                    },
                    rolie: match rolie {
                        Option::Some(ref r) => Option::Some(r@),
                        Option::None => Option::None,
                    },
                },
            ),
        decreases ms@.len() - i,
    {
        proof {
            assert(all.skip(i as int)[0] == all[i as int]);
            assert(all.skip(i as int).skip(1) =~= all.skip(i + 1));
        }
        let m = &ms[i];
        let key_dir = lits::key_directory_url();
        let key_rolie = lits::key_rolie();
        if text::eq_bytes(m.key.as_slice(), key_dir.as_slice()) {
            match url_at_x(s, m.vstart) {
                Option::Some(u) => {
                    directory_url = Option::Some(u);
                },
                Option::None => {
                    return Option::None;
                },
            }
        } else if text::eq_bytes(m.key.as_slice(), key_rolie.as_slice()) {
            match rolie_at_x(s, m.vstart) {
                Option::Some(r2) => {
                    rolie = Option::Some(r2);
                },
                Option::None => {
                    return Option::None;
                },
            }
        }
        i += 1;
    }
    proof {
        assert(all.skip(i as int) =~= Seq::<MemberModel>::empty());
    }
    Option::Some(Distribution { directory_url, rolie })
}

/// Fold an array's elements into distributions.
pub open spec fn dists_fold(s: Seq<u8>, es: Seq<int>) -> Option<Seq<DistributionModel>>
    decreases es.len(),
{
    if es.len() == 0 {
        Option::Some(seq![])
    } else {
        match dist_at(s, es[0]) {
            Option::None => Option::None,
            Option::Some(d) => match dists_fold(s, es.skip(1)) {
                Option::None => Option::None,
                Option::Some(rest) => Option::Some(seq![d] + rest),
            },
        }
    }
}

/// A distribution array at `pos`.
pub open spec fn dists_at(s: Seq<u8>, pos: int) -> Option<Seq<DistributionModel>> {
    let p = ws_end(s, pos);
    if 0 <= p < s.len() && s[p] == 91 {
        match json::elems_from(s, p + 1, true) {
            Option::None => Option::None,
            Option::Some(t) => dists_fold(s, t.0),
        }
    } else {
        Option::None
    }
}

fn dists_at_x(s: &[u8], pos: usize) -> (r: Option<Vec<Distribution>>)
    requires
        pos <= s@.len(),
    ensures
        (match dists_at(s@, pos as int) {
            Option::None => r is None,
            Option::Some(m) => r matches Some(v) && v@.map_values(|d: Distribution| d@) == m,
        }),
{
    let p = json::ws_x(s, pos);
    if p >= s.len() {
        return Option::None;
    }
    if s[p] != 91 {
        return Option::None;
    }
    let (es, _end) = match json::elems_from_x(s, p + 1, true) {
        Option::Some(t) => t,
        Option::None => {
            return Option::None;
        },
    };
    proof {
        json::lemma_elems_from_advances(s@, p + 1, true);
    }
    let ghost all = es@.map_values(|v: usize| v as int);
    let mut out: Vec<Distribution> = Vec::new();
    let mut i: usize = 0;
    proof {
        assert(all.skip(0) =~= all);
        assert(out@.map_values(|d: Distribution| d@) =~= Seq::<DistributionModel>::empty());
    }
    while i < es.len()
        invariant
            i <= es@.len(),
            all == es@.map_values(|v: usize| v as int),
            p < s@.len() && ws_end(s@, pos as int) == p as int && s@[p as int] == 91,
            (json::elems_from(s@, p as int + 1, true) matches Some(t) && t.0 == all),
            forall|j: int| 0 <= j < all.len() ==> 0 <= #[trigger] all[j] < s@.len(),
            dists_fold(s@, all) matches Some(t) ==> dists_fold(s@, all.skip(i as int))
                matches Some(rest) && t == out@.map_values(|d: Distribution| d@) + rest,
            dists_fold(s@, all) is None ==> dists_fold(s@, all.skip(i as int)) is None,
        decreases es@.len() - i,
    {
        proof {
            assert(all.skip(i as int)[0] == all[i as int]);
            assert(all.skip(i as int).skip(1) =~= all.skip(i + 1));
        }
        let d = match dist_at_x(s, es[i]) {
            Option::Some(d) => d,
            Option::None => {
                return Option::None;
            },
        };
        let ghost old_models = out@.map_values(|d2: Distribution| d2@);
        let ghost dm = d@;
        out.push(d);
        proof {
            assert(out@.map_values(|d2: Distribution| d2@) =~= old_models + seq![dm]);
            if dists_fold(s@, all.skip(i + 1)) is Some {
                let rest = dists_fold(s@, all.skip(i + 1)).unwrap();
                assert(old_models + (seq![dm] + rest) =~= (old_models + seq![dm]) + rest);
            }
        }
        i += 1;
    }
    proof {
        assert(all.skip(i as int) =~= Seq::<int>::empty());
        assert(out@.map_values(|d: Distribution| d@) + Seq::<DistributionModel>::empty()
            =~= out@.map_values(|d: Distribution| d@));
    }
    Option::Some(out)
}

/// A key-model accumulator.
pub ghost struct KeyAcc {
    pub fingerprint: Option<Seq<u8>>,
    pub url: Option<UrlModel>,
}

/// Fold a key object's members.
pub open spec fn key_fold(s: Seq<u8>, ms: Seq<MemberModel>, acc: KeyAcc) -> Option<KeyAcc>
    decreases ms.len(),
{
    if ms.len() == 0 {
        Option::Some(acc)
    } else if ms[0].key == lits::spec_key_fingerprint() {
        match string_at(s, ms[0].vstart) {
            Option::None => Option::None,
            Option::Some(f) => key_fold(
                s,
                ms.skip(1),
                KeyAcc { fingerprint: Option::Some(f), url: acc.url },
            ),
        }
    } else if ms[0].key == lits::spec_key_url() {
        match url_at(s, ms[0].vstart) {
            Option::None => Option::None,
            Option::Some(u) => key_fold(
                s,
                ms.skip(1),
                KeyAcc { fingerprint: acc.fingerprint, url: Option::Some(u) },
            ),
        }
    } else {
        key_fold(s, ms.skip(1), acc)
    }
}

/// A key object at `pos`: the `url` is required.
pub open spec fn key_at(s: Seq<u8>, pos: int) -> Option<KeyRefModel> {
    let p = ws_end(s, pos);
    if 0 <= p < s.len() && s[p] == 123 {
        match json::members_from(s, p + 1, true) {
            Option::None => Option::None,
            Option::Some(t) => match key_fold(
                s,
                t.0,
                KeyAcc { fingerprint: Option::None, url: Option::None },
            ) {
                Option::None => Option::None,
                Option::Some(a) => match a.url {
                    Option::None => Option::None,
                    Option::Some(u) => Option::Some(
                        KeyRefModel { fingerprint: a.fingerprint, url: u },
                    ),
                },
            },
        }
    } else {
        Option::None
    }
}

fn key_at_x(s: &[u8], pos: usize) -> (r: Option<KeyRef>)
    requires
        pos <= s@.len(),
    ensures
        (match key_at(s@, pos as int) {
            Option::None => r is None,
            Option::Some(m) => r matches Some(v) && v@ == m,
        }),
{
    let p = json::ws_x(s, pos);
    if p >= s.len() {
        return Option::None;
    }
    if s[p] != 123 {
        return Option::None;
    }
    let (ms, _end) = match json::members_from_x(s, p + 1, true) {
        Option::Some(t) => t,
        Option::None => {
            return Option::None;
        },
    };
    proof {
        json::lemma_members_from_advances(s@, p + 1, true);
    }
    let ghost all = ms@.map_values(|m: MemberSpan| m@);
    let mut fingerprint: Option<Vec<u8>> = Option::None;
    let mut url: Option<DocUrl> = Option::None;
    let mut i: usize = 0;
    proof {
        assert(all.skip(0) =~= all);
    }
    while i < ms.len()
        invariant
            i <= ms@.len(),
            all == ms@.map_values(|m: MemberSpan| m@),
            p < s@.len() && ws_end(s@, pos as int) == p as int && s@[p as int] == 123,
            (json::members_from(s@, p as int + 1, true) matches Some(t) && t.0 == all),
            forall|j: int| 0 <= j < all.len() ==> 0 <= (#[trigger] all[j]).vstart <= s@.len(),
            key_fold(
                s@,
                all,
                KeyAcc { fingerprint: Option::None, url: Option::None },
            ) == key_fold(
                s@,
                all.skip(i as int),
                KeyAcc {
                    fingerprint: match fingerprint {
                        Option::Some(ref f) => Option::Some(f@),
                        Option::None => Option::None,
                    },
                    url: match url {
                        Option::Some(ref u) => Option::Some(u@),
                        Option::None => Option::None,
                    },
                },
            ),
        decreases ms@.len() - i,
    {
        proof {
            assert(all.skip(i as int)[0] == all[i as int]);
            assert(all.skip(i as int).skip(1) =~= all.skip(i + 1));
        }
        let m = &ms[i];
        let key_fp = lits::key_fingerprint();
        let key_url = lits::key_url();
        if text::eq_bytes(m.key.as_slice(), key_fp.as_slice()) {
            match string_at_x(s, m.vstart) {
                Option::Some(f) => {
                    fingerprint = Option::Some(f);
                },
                Option::None => {
                    return Option::None;
                },
            }
        } else if text::eq_bytes(m.key.as_slice(), key_url.as_slice()) {
            match url_at_x(s, m.vstart) {
                Option::Some(u) => {
                    url = Option::Some(u);
                },
                Option::None => {
                    return Option::None;
                },
            }
        }
        i += 1;
    }
    proof {
        assert(all.skip(i as int) =~= Seq::<MemberModel>::empty());
    }
    match url {
        Option::Some(u) => Option::Some(KeyRef { fingerprint, url: u }),
        Option::None => Option::None,
    }
}

/// Fold an array's elements into keys.
pub open spec fn keys_fold(s: Seq<u8>, es: Seq<int>) -> Option<Seq<KeyRefModel>>
    decreases es.len(),
{
    if es.len() == 0 {
        Option::Some(seq![])
    } else {
        match key_at(s, es[0]) {
            Option::None => Option::None,
            Option::Some(k) => match keys_fold(s, es.skip(1)) {
                Option::None => Option::None,
                Option::Some(rest) => Option::Some(seq![k] + rest),
            },
        }
    }
}

/// A key array at `pos`.
pub open spec fn keys_at(s: Seq<u8>, pos: int) -> Option<Seq<KeyRefModel>> {
    let p = ws_end(s, pos);
    if 0 <= p < s.len() && s[p] == 91 {
        match json::elems_from(s, p + 1, true) {
            Option::None => Option::None,
            Option::Some(t) => keys_fold(s, t.0),
        }
    } else {
        Option::None
    }
}

fn keys_at_x(s: &[u8], pos: usize) -> (r: Option<Vec<KeyRef>>)
    requires
        pos <= s@.len(),
    ensures
        (match keys_at(s@, pos as int) {
            Option::None => r is None,
            Option::Some(m) => r matches Some(v) && v@.map_values(|k: KeyRef| k@) == m,
        }),
{
    let p = json::ws_x(s, pos);
    if p >= s.len() {
        return Option::None;
    }
    if s[p] != 91 {
        return Option::None;
    }
    let (es, _end) = match json::elems_from_x(s, p + 1, true) {
        Option::Some(t) => t,
        Option::None => {
            return Option::None;
        },
    };
    proof {
        json::lemma_elems_from_advances(s@, p + 1, true);
    }
    let ghost all = es@.map_values(|v: usize| v as int);
    let mut out: Vec<KeyRef> = Vec::new();
    let mut i: usize = 0;
    proof {
        assert(all.skip(0) =~= all);
        assert(out@.map_values(|k: KeyRef| k@) =~= Seq::<KeyRefModel>::empty());
    }
    while i < es.len()
        invariant
            i <= es@.len(),
            all == es@.map_values(|v: usize| v as int),
            p < s@.len() && ws_end(s@, pos as int) == p as int && s@[p as int] == 91,
            (json::elems_from(s@, p as int + 1, true) matches Some(t) && t.0 == all),
            forall|j: int| 0 <= j < all.len() ==> 0 <= #[trigger] all[j] < s@.len(),
            keys_fold(s@, all) matches Some(t) ==> keys_fold(s@, all.skip(i as int))
                matches Some(rest) && t == out@.map_values(|k: KeyRef| k@) + rest,
            keys_fold(s@, all) is None ==> keys_fold(s@, all.skip(i as int)) is None,
        decreases es@.len() - i,
    {
        proof {
            assert(all.skip(i as int)[0] == all[i as int]);
            assert(all.skip(i as int).skip(1) =~= all.skip(i + 1));
        }
        let k = match key_at_x(s, es[i]) {
            Option::Some(k) => k,
            Option::None => {
                return Option::None;
            },
        };
        let ghost old_models = out@.map_values(|k2: KeyRef| k2@);
        let ghost km = k@;
        out.push(k);
        proof {
            assert(out@.map_values(|k2: KeyRef| k2@) =~= old_models + seq![km]);
            if keys_fold(s@, all.skip(i + 1)) is Some {
                let rest = keys_fold(s@, all.skip(i + 1)).unwrap();
                assert(old_models + (seq![km] + rest) =~= (old_models + seq![km]) + rest);
            }
        }
        i += 1;
    }
    proof {
        assert(all.skip(i as int) =~= Seq::<int>::empty());
        assert(out@.map_values(|k: KeyRef| k@) + Seq::<KeyRefModel>::empty() =~= out@.map_values(
            |k: KeyRef| k@,
        ));
    }
    Option::Some(out)
}

/// A metadata accumulator.
pub ghost struct MetaAcc {
    pub distributions: Seq<DistributionModel>,
    pub public_openpgp_keys: Seq<KeyRefModel>,
}

/// Fold the top-level object's members; unknown fields are ignored and
/// both known fields default to empty.
pub open spec fn meta_fold(s: Seq<u8>, ms: Seq<MemberModel>, acc: MetaAcc) -> Option<MetaAcc>
    decreases ms.len(),
{
    if ms.len() == 0 {
        Option::Some(acc)
    } else if ms[0].key == lits::spec_key_distributions() {
        match dists_at(s, ms[0].vstart) {
            Option::None => Option::None,
            Option::Some(ds) => meta_fold(
                s,
                ms.skip(1),
                MetaAcc { distributions: ds, public_openpgp_keys: acc.public_openpgp_keys },
            ),
        }
    } else if ms[0].key == lits::spec_key_public_openpgp_keys() {
        match keys_at(s, ms[0].vstart) {
            Option::None => Option::None,
            Option::Some(ks) => meta_fold(
                s,
                ms.skip(1),
                MetaAcc { distributions: acc.distributions, public_openpgp_keys: ks },
            ),
        }
    } else {
        meta_fold(s, ms.skip(1), acc)
    }
}

/// What a provider metadata document denotes, or nothing when it is not
/// in the grammar.
pub open spec fn parse_metadata(s: Seq<u8>) -> Option<MetadataModel> {
    let p = ws_end(s, 0);
    if 0 <= p < s.len() && s[p] == 123 {
        match json::members_from(s, p + 1, true) {
            Option::None => Option::None,
            Option::Some(t) => match meta_fold(
                s,
                t.0,
                MetaAcc { distributions: seq![], public_openpgp_keys: seq![] },
            ) {
                Option::None => Option::None,
                Option::Some(a) => Option::Some(
                    MetadataModel {
                        distributions: a.distributions,
                        public_openpgp_keys: a.public_openpgp_keys,
                    },
                ),
            },
        }
    } else {
        Option::None
    }
}

/// Parse a provider metadata document.
pub fn parse_metadata_x(s: &[u8]) -> (r: Result<ProviderMetadata, SourceError>)
    ensures
        r.is_ok() == parse_metadata(s@) is Some,
        r matches Ok(v) ==> parse_metadata(s@) == Some(v@),
        r matches Err(e) ==> e == SourceError::InvalidJson,
{
    let p = json::ws_x(s, 0);
    if p >= s.len() {
        return Err(SourceError::InvalidJson);
    }
    if s[p] != 123 {
        return Err(SourceError::InvalidJson);
    }
    let (ms, _end) = match json::members_from_x(s, p + 1, true) {
        Option::Some(t) => t,
        Option::None => {
            return Err(SourceError::InvalidJson);
        },
    };
    proof {
        json::lemma_members_from_advances(s@, p + 1, true);
    }
    let ghost all = ms@.map_values(|m: MemberSpan| m@);
    let mut distributions: Vec<Distribution> = Vec::new();
    let mut keys: Vec<KeyRef> = Vec::new();
    let mut i: usize = 0;
    proof {
        assert(all.skip(0) =~= all);
        assert(distributions@.map_values(|d: Distribution| d@)
            =~= Seq::<DistributionModel>::empty());
        assert(keys@.map_values(|k: KeyRef| k@) =~= Seq::<KeyRefModel>::empty());
    }
    while i < ms.len()
        invariant
            i <= ms@.len(),
            all == ms@.map_values(|m: MemberSpan| m@),
            p < s@.len() && ws_end(s@, 0) == p as int && s@[p as int] == 123,
            (json::members_from(s@, p as int + 1, true) matches Some(t2) && t2.0 == all),
            forall|j: int| 0 <= j < all.len() ==> 0 <= (#[trigger] all[j]).vstart <= s@.len(),
            meta_fold(
                s@,
                all,
                MetaAcc { distributions: seq![], public_openpgp_keys: seq![] },
            ) == meta_fold(
                s@,
                all.skip(i as int),
                MetaAcc {
                    distributions: distributions@.map_values(|d: Distribution| d@),
                    public_openpgp_keys: keys@.map_values(|k: KeyRef| k@),
                },
            ),
        decreases ms@.len() - i,
    {
        proof {
            assert(all.skip(i as int)[0] == all[i as int]);
            assert(all.skip(i as int).skip(1) =~= all.skip(i + 1));
        }
        let m = &ms[i];
        let key_dists = lits::key_distributions();
        let key_keys = lits::key_public_openpgp_keys();
        if text::eq_bytes(m.key.as_slice(), key_dists.as_slice()) {
            match dists_at_x(s, m.vstart) {
                Option::Some(ds) => {
                    distributions = ds;
                },
                Option::None => {
                    return Err(SourceError::InvalidJson);
                },
            }
        } else if text::eq_bytes(m.key.as_slice(), key_keys.as_slice()) {
            match keys_at_x(s, m.vstart) {
                Option::Some(ks) => {
                    keys = ks;
                },
                Option::None => {
                    return Err(SourceError::InvalidJson);
                },
            }
        }
        i += 1;
    }
    proof {
        assert(all.skip(i as int) =~= Seq::<MemberModel>::empty());
    }
    Ok(ProviderMetadata { distributions, public_openpgp_keys: keys })
}

} // verus!

verus! {

/// The escape of one string byte.
pub open spec fn esc_byte(b: u8) -> Seq<u8> {
    if b == 34 {
        seq![92u8, 34u8]
    } else if b == 92 {
        seq![92u8, 92u8]
    } else if b == 10 {
        seq![92u8, 110u8]
    } else if b == 9 {
        seq![92u8, 116u8]
    } else if b == 13 {
        seq![92u8, 114u8]
    } else if b == 8 {
        seq![92u8, 98u8]
    } else if b == 12 {
        seq![92u8, 102u8]
    } else {
        seq![b]
    }
}

/// A string body, escaped.
pub open spec fn esc_bytes(t: Seq<u8>) -> Seq<u8>
    decreases t.len(),
{
    if t.len() == 0 {
        seq![]
    } else {
        esc_byte(t[0]) + esc_bytes(t.skip(1))
    }
}

/// A JSON string: quoted and escaped.
pub open spec fn ser_string(t: Seq<u8>) -> Seq<u8> {
    seq![34u8] + esc_bytes(t) + seq![34u8]
}

/// A URL as a JSON string.
pub open spec fn ser_url(u: UrlModel) -> Seq<u8> {
    ser_string(u.text())
}

/// Comma-joined renderings.
pub open spec fn join_comma<A>(xs: Seq<A>, f: spec_fn(A) -> Seq<u8>) -> Seq<u8>
    decreases xs.len(),
{
    if xs.len() == 0 {
        seq![]
    } else if xs.len() == 1 {
        f(xs[0])
    } else {
        f(xs[0]) + seq![44u8] + join_comma(xs.skip(1), f)
    }
}

/// Appending one element extends the join by a comma and its rendering.
pub proof fn lemma_join_comma_snoc<A>(xs: Seq<A>, f: spec_fn(A) -> Seq<u8>, x: A)
    ensures
        xs.len() == 0 ==> join_comma(xs.push(x), f) == f(x),
        xs.len() > 0 ==> join_comma(xs.push(x), f) == join_comma(xs, f) + seq![44u8] + f(x),
    decreases xs.len(),
{
    if xs.len() == 0 {
        assert(xs.push(x) =~= seq![x]);
        assert(join_comma(seq![x], f) == f(x));
    } else {
        lemma_join_comma_snoc(xs.skip(1), f, x);
        assert(xs.push(x).skip(1) =~= xs.skip(1).push(x));
        assert(xs.push(x)[0] == xs[0]);
        assert(xs.push(x).len() == xs.len() + 1);
        if xs.len() == 1 {
            assert(join_comma(xs.push(x), f) == f(xs[0]) + seq![44u8] + f(x));
        } else {
            assert(f(xs[0]) + seq![44u8] + (join_comma(xs.skip(1), f) + seq![44u8] + f(x)) =~= (f(
                xs[0],
            ) + seq![44u8] + join_comma(xs.skip(1), f)) + seq![44u8] + f(x));
        }
    }
}

/// One object member: key, colon, value.
pub open spec fn ser_member(k: Seq<u8>, v: Seq<u8>) -> Seq<u8> {
    ser_string(k) + seq![58u8] + v
}

/// A feed object.
pub open spec fn ser_feed(f: FeedModel) -> Seq<u8> {
    seq![123u8] + ser_member(lits::spec_key_url(), ser_url(f.url)) + seq![125u8]
}

/// A ROLIE object.
pub open spec fn ser_rolie(r: RolieModel) -> Seq<u8> {
    seq![123u8] + ser_member(
        lits::spec_key_feeds(),
        seq![91u8] + join_comma(r.feeds, |f: FeedModel| ser_feed(f)) + seq![93u8],
    ) + seq![125u8]
}

/// A distribution object; only the present channels are written.
pub open spec fn ser_dist(d: DistributionModel) -> Seq<u8> {
    let members = (match d.directory_url {
        Option::Some(u) => seq![ser_member(lits::spec_key_directory_url(), ser_url(u))],
        Option::None => seq![],
    }) + (match d.rolie {
        Option::Some(r) => seq![ser_member(lits::spec_key_rolie(), ser_rolie(r))],
        Option::None => seq![],
    });
    seq![123u8] + join_comma(members, |m: Seq<u8>| m) + seq![125u8]
}

/// A key object; the fingerprint is written only when known.
pub open spec fn ser_key(k: KeyRefModel) -> Seq<u8> {
    let members = (match k.fingerprint {
        Option::Some(f) => seq![ser_member(lits::spec_key_fingerprint(), ser_string(f))],
        Option::None => seq![],
    }) + seq![ser_member(lits::spec_key_url(), ser_url(k.url))];
    seq![123u8] + join_comma(members, |m: Seq<u8>| m) + seq![125u8]
}

/// The whole provider metadata document, compact.
pub open spec fn ser_metadata(m: MetadataModel) -> Seq<u8> {
    seq![123u8] + ser_member(
        lits::spec_key_distributions(),
        seq![91u8] + join_comma(m.distributions, |d: DistributionModel| ser_dist(d)) + seq![93u8],
    ) + seq![44u8] + ser_member(
        lits::spec_key_public_openpgp_keys(),
        seq![91u8] + join_comma(m.public_openpgp_keys, |k: KeyRefModel| ser_key(k)) + seq![93u8],
    ) + seq![125u8]
}

/// A text the string grammar can carry: printable bytes and the few
/// whitespace controls the escapes cover.
pub open spec fn str_ok_bytes(t: Seq<u8>) -> bool {
    forall|j: int|
        0 <= j < t.len() ==> ((#[trigger] t[j]) >= 32 || t[j] == 8 || t[j] == 9 || t[j] == 10
            || t[j] == 12 || t[j] == 13)
}

/// An escaped string body, followed by its closing quote, decodes to the
/// very text it was made from.
proof fn lemma_jstr_of_escaped(t: Seq<u8>, rest: Seq<u8>)
    requires
        str_ok_bytes(t),
    ensures
        json::jstr(esc_bytes(t) + (seq![34u8] + rest), 0) == Some(
            (t, (esc_bytes(t).len() + 1) as int),
        ),
    decreases t.len(),
{
    let s = esc_bytes(t) + (seq![34u8] + rest);
    if t.len() == 0 {
        assert(s[0] == 34);
    } else {
        let t0 = t[0];
        let head = esc_byte(t0);
        let tail = esc_bytes(t.skip(1)) + (seq![34u8] + rest);
        assert(str_ok_bytes(t.skip(1)));
        lemma_jstr_of_escaped(t.skip(1), rest);
        assert(s =~= head + tail);
        json::lemma_jstr_shift(head, tail, 0);
        if t0 == 34 || t0 == 92 || t0 == 10 || t0 == 9 || t0 == 13 || t0 == 8 || t0 == 12 {
            assert(s[0] == 92);
            assert(s[1] == head[1]);
            assert(json::esc_code(head[1]) == Some(t0));
            json::lemma_jstr_shift(head, tail, 0);
            let inner = json::jstr(s, 2);
            assert(inner == Some(
                (t.skip(1), (head.len() + esc_bytes(t.skip(1)).len() + 1) as int),
            ));
            assert(seq![t0] + t.skip(1) =~= t);
        } else {
            assert(t0 >= 32 && t0 != 34 && t0 != 92);
            assert(s[0] == t0);
            let inner = json::jstr(s, 1);
            assert(inner == Some(
                (t.skip(1), (head.len() + esc_bytes(t.skip(1)).len() + 1) as int),
            ));
            assert(seq![t0] + t.skip(1) =~= t);
        }
    }
}

/// A serialized string value reads back as the very text it was made
/// from, whatever follows it.
pub proof fn lemma_string_at_serialized(t: Seq<u8>, rest: Seq<u8>)
    requires
        str_ok_bytes(t),
    ensures
        string_at(ser_string(t) + rest, 0) == Some(t),
{
    let s = ser_string(t) + rest;
    assert(s[0] == 34);
    assert(ws_end(s, 0) == 0);
    let body = esc_bytes(t) + (seq![34u8] + rest);
    assert(s =~= seq![34u8] + body);
    lemma_jstr_of_escaped(t, rest);
    json::lemma_jstr_shift(seq![34u8], body, 0);
}

/// A serialized URL value reads back as the very URL it was made from:
/// the store writes nothing that the file source reads differently.
pub proof fn lemma_url_at_serialized(u: UrlModel, rest: Seq<u8>)
    requires
        u.wf(),
        str_ok_bytes(u.text()),
    ensures
        url_at(ser_url(u) + rest, 0) == Some(u),
{
    lemma_string_at_serialized(u.text(), rest);
    crate::urls::lemma_url_text_round_trip(u);
    let parsed = parsed_url(u.text()).unwrap();
    assert(parsed.scheme == u.scheme && parsed.host == u.host && parsed.path == u.path);
}

/// Serialize a JSON string into `out`.
fn ser_string_x(out: &mut Vec<u8>, t: &[u8])
    ensures
        final(out)@ == old(out)@ + ser_string(t@),
{
    out.push(34);
    let ghost base = out@;
    let mut i: usize = 0;
    proof {
        assert(t@.skip(0) =~= t@);
        assert(base + esc_bytes(t@) =~= base + esc_bytes(t@));
    }
    while i < t.len()
        invariant
            i <= t@.len(),
            base == old(out)@ + seq![34u8],
            base + esc_bytes(t@) == out@ + esc_bytes(t@.skip(i as int)),
        decreases t@.len() - i,
    {
        let b = t[i];
        proof {
            assert(t@.skip(i as int)[0] == t@[i as int]);
            assert(t@.skip(i as int).skip(1) =~= t@.skip(i + 1));
        }
        let ghost before = out@;
        if b == 34 || b == 92 {
            out.push(92);
            out.push(b);
        } else if b == 10 {
            out.push(92);
            out.push(110);
        } else if b == 9 {
            out.push(92);
            out.push(116);
        } else if b == 13 {
            out.push(92);
            out.push(114);
        } else if b == 8 {
            out.push(92);
            out.push(98);
        } else if b == 12 {
            out.push(92);
            out.push(102);
        } else {
            out.push(b);
        }
        proof {
            assert(out@ =~= before + esc_byte(t@[i as int]));
            assert(before + (esc_byte(t@[i as int]) + esc_bytes(t@.skip(i + 1))) =~= out@
                + esc_bytes(t@.skip(i + 1)));
        }
        i += 1;
    }
    proof {
        assert(esc_bytes(t@.skip(i as int)) =~= Seq::<u8>::empty());
        assert(out@ + Seq::<u8>::empty() =~= out@);
    }
    out.push(34);
    proof {
        assert(old(out)@ + (seq![34u8] + esc_bytes(t@) + seq![34u8]) =~= (old(out)@ + seq![34u8]
            + esc_bytes(t@)) + seq![34u8]);
        assert(out@ =~= old(out)@ + ser_string(t@));
    }
}

/// Serialize one feed object into `out`.
fn ser_feed_x(out: &mut Vec<u8>, f: &Feed)
    ensures
        final(out)@ == old(out)@ + ser_feed(f@),
{
    out.push(123);
    let key = lits::key_url();
    ser_string_x(out, key.as_slice());
    out.push(58);
    let url = f.url.to_text();
    ser_string_x(out, url.as_slice());
    out.push(125);
    proof {
        assert(out@ =~= old(out)@ + ser_feed(f@));
    }
}

/// Serialize one distribution object into `out`.
#[verifier::rlimit(100)]
fn ser_dist_x(out: &mut Vec<u8>, d: &Distribution)
    ensures
        final(out)@ == old(out)@ + ser_dist(d@),
{
    out.push(123);
    let mut first = true;
    match &d.directory_url {
        Option::Some(u) => {
            let key = lits::key_directory_url();
            ser_string_x(out, key.as_slice());
            out.push(58);
            let url = u.to_text();
            ser_string_x(out, url.as_slice());
            first = false;
        },
        Option::None => {},
    }
    match &d.rolie {
        Option::Some(r) => {
            if !first {
                out.push(44);
            }
            let key = lits::key_rolie();
            ser_string_x(out, key.as_slice());
            out.push(58);
            out.push(123);
            let key2 = lits::key_feeds();
            ser_string_x(out, key2.as_slice());
            out.push(58);
            out.push(91);
            let ghost fm = r@.feeds;
            let mut i: usize = 0;
            let ghost base = out@;
            while i < r.feeds.len()
                invariant
                    i <= r.feeds@.len(),
                    fm == r@.feeds,
                    out@ == base + join_comma(
                        fm.subrange(0, i as int),
                        |f: FeedModel| ser_feed(f),
                    ),
                decreases r.feeds@.len() - i,
            {
                if i > 0 {
                    out.push(44);
                }
                let ghost mid = out@;
                ser_feed_x(out, &r.feeds[i]);
                proof {
                    lemma_join_comma_snoc(
                        fm.subrange(0, i as int),
                        |f: FeedModel| ser_feed(f),
                        fm[i as int],
                    );
                    assert(fm.subrange(0, i as int).push(fm[i as int]) =~= fm.subrange(
                        0,
                        i + 1,
                    ));
                    assert(r.feeds@[i as int]@ == fm[i as int]);
                    if i > 0 {
                        assert(out@ =~= base + (join_comma(
                            fm.subrange(0, i as int),
                            |f: FeedModel| ser_feed(f),
                        ) + seq![44u8] + ser_feed(fm[i as int])));
                    } else {
                        assert(fm.subrange(0, 0) =~= Seq::<FeedModel>::empty());
                        assert(out@ =~= base + ser_feed(fm[i as int]));
                    }
                }
                i += 1;
            }
            proof {
                assert(fm.subrange(0, fm.len() as int) =~= fm);
            }
            out.push(93);
            out.push(125);
        },
        Option::None => {},
    }
    out.push(125);
    proof {
        let dm = d@;
        let fdir = (match dm.directory_url {
            Option::Some(u) => seq![ser_member(lits::spec_key_directory_url(), ser_url(u))],
            Option::None => seq![],
        });
        let frol = (match dm.rolie {
            Option::Some(r2) => seq![ser_member(lits::spec_key_rolie(), ser_rolie(r2))],
            Option::None => seq![],
        });
        let members = fdir + frol;
        if dm.directory_url is Some && dm.rolie is Some {
            assert(members =~= seq![fdir[0], frol[0]]);
            assert(members.skip(1) =~= seq![frol[0]]);
            assert(join_comma(seq![frol[0]], |m2: Seq<u8>| m2) == frol[0]);
            assert(join_comma(members, |m2: Seq<u8>| m2) == fdir[0] + seq![44u8] + frol[0]);
        } else if dm.directory_url is Some {
            assert(members =~= seq![fdir[0]]);
        } else if dm.rolie is Some {
            assert(members =~= seq![frol[0]]);
        } else {
            assert(members =~= Seq::<Seq<u8>>::empty());
        }
        assert(out@ =~= old(out)@ + ser_dist(dm));
    }
}

/// Serialize one key object into `out`.
#[verifier::rlimit(100)]
fn ser_key_x(out: &mut Vec<u8>, k: &KeyRef)
    ensures
        final(out)@ == old(out)@ + ser_key(k@),
{
    out.push(123);
    match &k.fingerprint {
        Option::Some(f) => {
            let key = lits::key_fingerprint();
            ser_string_x(out, key.as_slice());
            out.push(58);
            ser_string_x(out, f.as_slice());
            out.push(44);
        },
        Option::None => {},
    }
    let key = lits::key_url();
    ser_string_x(out, key.as_slice());
    out.push(58);
    let url = k.url.to_text();
    ser_string_x(out, url.as_slice());
    out.push(125);
    proof {
        let km = k@;
        let ffp = (match km.fingerprint {
            Option::Some(f) => seq![ser_member(lits::spec_key_fingerprint(), ser_string(f))],
            Option::None => seq![],
        });
        let furl = seq![ser_member(lits::spec_key_url(), ser_url(km.url))];
        let members = ffp + furl;
        if km.fingerprint is Some {
            assert(members =~= seq![ffp[0], furl[0]]);
            assert(members.skip(1) =~= seq![furl[0]]);
            assert(join_comma(seq![furl[0]], |m2: Seq<u8>| m2) == furl[0]);
            assert(join_comma(members, |m2: Seq<u8>| m2) == ffp[0] + seq![44u8] + furl[0]);
        } else {
            assert(members =~= seq![furl[0]]);
        }
        assert(out@ =~= old(out)@ + ser_key(km));
    }
}

/// Serialize the provider metadata, compactly.
#[verifier::rlimit(100)]
pub fn serialize_metadata(m: &ProviderMetadata) -> (r: Vec<u8>)
    ensures
        r@ == ser_metadata(m@),
{
    let mut out: Vec<u8> = Vec::new();
    out.push(123);
    let key = lits::key_distributions();
    ser_string_x(&mut out, key.as_slice());
    out.push(58);
    out.push(91);
    let ghost dm = m@.distributions;
    let ghost base = out@;
    let mut i: usize = 0;
    while i < m.distributions.len()
        invariant
            i <= m.distributions@.len(),
            dm == m@.distributions,
            out@ == base + join_comma(
                dm.subrange(0, i as int),
                |d: DistributionModel| ser_dist(d),
            ),
        decreases m.distributions@.len() - i,
    {
        if i > 0 {
            out.push(44);
        }
        ser_dist_x(&mut out, &m.distributions[i]);
        proof {
            lemma_join_comma_snoc(
                dm.subrange(0, i as int),
                |d: DistributionModel| ser_dist(d),
                dm[i as int],
            );
            assert(dm.subrange(0, i as int).push(dm[i as int]) =~= dm.subrange(0, i + 1));
            assert(m.distributions@[i as int]@ == dm[i as int]);
            if i > 0 {
                assert(out@ =~= base + (join_comma(
                    dm.subrange(0, i as int),
                    |d: DistributionModel| ser_dist(d),
                ) + seq![44u8] + ser_dist(dm[i as int])));
            } else {
                assert(dm.subrange(0, 0) =~= Seq::<DistributionModel>::empty());
                assert(out@ =~= base + ser_dist(dm[i as int]));
            }
        }
        i += 1;
    }
    proof {
        assert(dm.subrange(0, dm.len() as int) =~= dm);
    }
    out.push(93);
    out.push(44);
    let key2 = lits::key_public_openpgp_keys();
    ser_string_x(&mut out, key2.as_slice());
    out.push(58);
    out.push(91);
    let ghost km = m@.public_openpgp_keys;
    let ghost base2 = out@;
    let mut j: usize = 0;
    while j < m.public_openpgp_keys.len()
        invariant
            j <= m.public_openpgp_keys@.len(),
            km == m@.public_openpgp_keys,
            out@ == base2 + join_comma(km.subrange(0, j as int), |k: KeyRefModel| ser_key(k)),
        decreases m.public_openpgp_keys@.len() - j,
    {
        if j > 0 {
            out.push(44);
        }
        ser_key_x(&mut out, &m.public_openpgp_keys[j]);
        proof {
            lemma_join_comma_snoc(
                km.subrange(0, j as int),
                |k: KeyRefModel| ser_key(k),
                km[j as int],
            );
            assert(km.subrange(0, j as int).push(km[j as int]) =~= km.subrange(0, j + 1));
            assert(m.public_openpgp_keys@[j as int]@ == km[j as int]);
            if j > 0 {
                assert(out@ =~= base2 + (join_comma(
                    km.subrange(0, j as int),
                    |k: KeyRefModel| ser_key(k),
                ) + seq![44u8] + ser_key(km[j as int])));
            } else {
                assert(km.subrange(0, 0) =~= Seq::<KeyRefModel>::empty());
                assert(out@ =~= base2 + ser_key(km[j as int]));
            }
        }
        j += 1;
    }
    proof {
        assert(km.subrange(0, km.len() as int) =~= km);
    }
    out.push(93);
    out.push(125);
    proof {
        assert(out@ =~= ser_metadata(m@));
    }
    out
}

} // verus!
