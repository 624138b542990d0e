//! Reading a ROLIE feed document.
//!
//! The wire format is JSON: `feed.entry[*]` with an `updated` RFC-3339
//! timestamp and `link[*]` objects carrying `rel` and `href`. An entry's
//! document URL is its first `self` link, its signature the first
//! `signature` link, its digest the first `hash` link. Unknown fields are
//! ignored.

use vstd::prelude::*;
use crate::discover::SourceFileEntry;
use crate::discover::SourceFileModel;
use crate::errors::SourceError;
use crate::json;
use crate::json::MemberModel;
use crate::json::MemberSpan;
use crate::lits;
use crate::provider::string_at;
use crate::provider::string_at_x;
use crate::retrieve::ws_end;
use crate::text;
use crate::timestamp;

verus! {

/// An RFC-3339 timestamp value at `pos`, as epoch seconds.
pub open spec fn ts_at(s: Seq<u8>, pos: int) -> Option<int> {
    match string_at(s, pos) {
        Option::None => Option::None,
        Option::Some(t) => if timestamp::rfc3339_ok(t) {
            Option::Some(timestamp::rfc3339_value(t))
        } else {
            Option::None
        },
    }
}

fn ts_at_x(s: &[u8], pos: usize) -> (r: Option<i64>)
    requires
        pos <= s@.len(),
    ensures
        (match ts_at(s@, pos as int) {
            Option::None => r is None,
            Option::Some(v) => r matches Some(t) && t as int == v,
        }),
{
    match string_at_x(s, pos) {
        Option::Some(t) => timestamp::parse_rfc3339(t.as_slice()),
        Option::None => Option::None,
    }
}

/// One link of an entry.
pub ghost struct LinkModel {
    pub rel: Seq<u8>,
    pub href: Seq<u8>,
}

/// A link accumulator.
pub ghost struct LinkAcc {
    pub rel: Option<Seq<u8>>,
    pub href: Option<Seq<u8>>,
}

/// Fold a link object's members.
pub open spec fn link_fold(s: Seq<u8>, ms: Seq<MemberModel>, acc: LinkAcc) -> Option<LinkAcc>
    decreases ms.len(),
{
    if ms.len() == 0 {
        Option::Some(acc)
    } else if ms[0].key == lits::spec_key_rel() {
        match string_at(s, ms[0].vstart) {
            Option::None => Option::None,
            Option::Some(t) => link_fold(
                s,
                ms.skip(1),
                LinkAcc { rel: Option::Some(t), href: acc.href },
            ),
        }
    } else if ms[0].key == lits::spec_key_href() {
        match string_at(s, ms[0].vstart) {
            Option::None => Option::None,
            Option::Some(t) => link_fold(
                s,
                ms.skip(1),
                LinkAcc { rel: acc.rel, href: Option::Some(t) },
            ),
        }
    } else {
        link_fold(s, ms.skip(1), acc)
    }
}

/// A link object at `pos`: `rel` and `href` are both required.
pub open spec fn link_at(s: Seq<u8>, pos: int) -> Option<LinkModel> {
    let p = ws_end(s, pos);
    if 0 <= p < s.len() && s[p] == 123 {
        match json::members_from(s, p + 1, true) {
            Option::None => Option::None,
            Option::Some(t) => match link_fold(
                s,
                t.0,
                LinkAcc { rel: Option::None, href: Option::None },
            ) {
                Option::None => Option::None,
                Option::Some(a) => match (a.rel, a.href) {
                    (Option::Some(rel), Option::Some(href)) => Option::Some(
                        LinkModel { rel, href },
                    ),
                    _ => Option::None,
                },
            },
        }
    } else {
        Option::None
    }
}

/// A link as plain values.
pub struct LinkEntry {
    pub rel: Vec<u8>,
    pub href: Vec<u8>,
}

impl View for LinkEntry {
    type V = LinkModel;

    open spec fn view(&self) -> LinkModel {
        LinkModel { rel: self.rel@, href: self.href@ }
    }
}

fn link_at_x(s: &[u8], pos: usize) -> (r: Option<LinkEntry>)
    requires
        pos <= s@.len(),
    ensures
        (match link_at(s@, pos as int) {
            Option::None => r is None,
            Option::Some(m) => r matches Some(v) && v@ == m,
        }),
{
    let p = json::ws_x(s, pos);
    if p >= s.len() {
        return Option::None;
    }
    if s[p] != 123 {
        return Option::None;
    }
    let (ms, _end) = match json::members_from_x(s, p + 1, true) {
        Option::Some(t) => t,
        Option::None => {
            return Option::None;
        },
    };
    proof {
        json::lemma_members_from_advances(s@, p + 1, true);
    }
    let ghost all = ms@.map_values(|m: MemberSpan| m@);
    let mut rel: Option<Vec<u8>> = Option::None;
    let mut href: Option<Vec<u8>> = Option::None;
    let mut i: usize = 0;
    proof {
        assert(all.skip(0) =~= all);
    }
    while i < ms.len()
        invariant
            i <= ms@.len(),
            all == ms@.map_values(|m: MemberSpan| m@),
            p < s@.len() && ws_end(s@, pos as int) == p as int && s@[p as int] == 123,
            (json::members_from(s@, p as int + 1, true) matches Some(t) && t.0 == all),
            forall|j: int| 0 <= j < all.len() ==> 0 <= (#[trigger] all[j]).vstart <= s@.len(),
            link_fold(
                s@,
                all,
                LinkAcc { rel: Option::None, href: Option::None },
            ) == link_fold(
                s@,
                all.skip(i as int),
                LinkAcc {
                    rel: match rel {
                        Option::Some(ref t) => Option::Some(t@),
                        Option::None => Option::None,
                    },
                    href: match href {
                        Option::Some(ref t) => Option::Some(t@),
                        Option::None => Option::None,
                    },
                },
            ),
        decreases ms@.len() - i,
    {
        proof {
            assert(all.skip(i as int)[0] == all[i as int]);
            assert(all.skip(i as int).skip(1) =~= all.skip(i + 1));
        }
        let m = &ms[i];
        let key_rel = lits::key_rel();
        let key_href = lits::key_href();
        if text::eq_bytes(m.key.as_slice(), key_rel.as_slice()) {
            match string_at_x(s, m.vstart) {
                Option::Some(t) => {
                    rel = Option::Some(t);
                },
                Option::None => {
                    return Option::None;
                },
            }
        } else if text::eq_bytes(m.key.as_slice(), key_href.as_slice()) {
            match string_at_x(s, m.vstart) {
                Option::Some(t) => {
                    href = Option::Some(t);
                },
                Option::None => {
                    return Option::None;
                },
            }
        }
        i += 1;
    }
    proof {
        assert(all.skip(i as int) =~= Seq::<MemberModel>::empty());
    }
    match (rel, href) {
        (Option::Some(rel), Option::Some(href)) => Option::Some(LinkEntry { rel, href }),
        _ => Option::None,
    }
}

/// Fold an array's elements into links.
pub open spec fn links_fold(s: Seq<u8>, es: Seq<int>) -> Option<Seq<LinkModel>>
    decreases es.len(),
{
    if es.len() == 0 {
        Option::Some(seq![])
    } else {
        match link_at(s, es[0]) {
            Option::None => Option::None,
            Option::Some(l) => match links_fold(s, es.skip(1)) {
                Option::None => Option::None,
                Option::Some(rest) => Option::Some(seq![l] + rest),
            },
        }
    }
}

/// A link array at `pos`.
pub open spec fn links_at(s: Seq<u8>, pos: int) -> Option<Seq<LinkModel>> {
    let p = ws_end(s, pos);
    if 0 <= p < s.len() && s[p] == 91 {
        match json::elems_from(s, p + 1, true) {
            Option::None => Option::None,
            Option::Some(t) => links_fold(s, t.0),
        }
    } else {
        Option::None
    }
}

fn links_at_x(s: &[u8], pos: usize) -> (r: Option<Vec<LinkEntry>>)
    requires
        pos <= s@.len(),
    ensures
        (match links_at(s@, pos as int) {
            Option::None => r is None,
            Option::Some(m) => r matches Some(v) && v@.map_values(|l: LinkEntry| l@) == m,
        }),
{
    let p = json::ws_x(s, pos);
    if p >= s.len() {
        return Option::None;
    }
    if s[p] != 91 {
        return Option::None;
    }
    let (es, _end) = match json::elems_from_x(s, p + 1, true) {
        Option::Some(t) => t,
        Option::None => {
            return Option::None;
        },
    };
    proof {
        json::lemma_elems_from_advances(s@, p + 1, true);
    }
    let ghost all = es@.map_values(|v: usize| v as int);
    let mut out: Vec<LinkEntry> = Vec::new();
    let mut i: usize = 0;
    proof {
        assert(all.skip(0) =~= all);
        assert(out@.map_values(|l: LinkEntry| l@) =~= Seq::<LinkModel>::empty());
    }
    while i < es.len()
        invariant
            i <= es@.len(),
            all == es@.map_values(|v: usize| v as int),
            p < s@.len() && ws_end(s@, pos as int) == p as int && s@[p as int] == 91,
            (json::elems_from(s@, p as int + 1, true) matches Some(t) && t.0 == all),
            forall|j: int| 0 <= j < all.len() ==> 0 <= #[trigger] all[j] < s@.len(),
            links_fold(s@, all) matches Some(t) ==> links_fold(s@, all.skip(i as int))
                matches Some(rest) && t == out@.map_values(|l: LinkEntry| l@) + rest,
            links_fold(s@, all) is None ==> links_fold(s@, all.skip(i as int)) is None,
        decreases es@.len() - i,
    {
        proof {
            assert(all.skip(i as int)[0] == all[i as int]);
            assert(all.skip(i as int).skip(1) =~= all.skip(i + 1));
        }
        let l = match link_at_x(s, es[i]) {
            Option::Some(l) => l,
            Option::None => {
                return Option::None;
            },
        };
        let ghost old_models = out@.map_values(|l2: LinkEntry| l2@);
        let ghost lm = l@;
        out.push(l);
        proof {
            assert(out@.map_values(|l2: LinkEntry| l2@) =~= old_models + seq![lm]);
            if links_fold(s@, all.skip(i + 1)) is Some {
                let rest = links_fold(s@, all.skip(i + 1)).unwrap();
                assert(old_models + (seq![lm] + rest) =~= (old_models + seq![lm]) + rest);
            }
        }
        i += 1;
    }
    proof {
        assert(all.skip(i as int) =~= Seq::<int>::empty());
        assert(out@.map_values(|l: LinkEntry| l@) + Seq::<LinkModel>::empty() =~= out@.map_values(
            |l: LinkEntry| l@,
        ));
    }
    Option::Some(out)
}

/// The `href` of the first link with this `rel`.
pub open spec fn first_with_rel(links: Seq<LinkModel>, rel: Seq<u8>) -> Option<Seq<u8>>
    decreases links.len(),
{
    if links.len() == 0 {
        Option::None
    } else if links[0].rel == rel {
        Option::Some(links[0].href)
    } else {
        first_with_rel(links.skip(1), rel)
    }
}

fn first_with_rel_x(links: &Vec<LinkEntry>, rel: &[u8]) -> (r: Option<Vec<u8>>)
    ensures
        (match first_with_rel(links@.map_values(|l: LinkEntry| l@), rel@) {
            Option::None => r is None,
            Option::Some(h) => r matches Some(v) && v@ == h,
        }),
{
    let ghost all = links@.map_values(|l: LinkEntry| l@);
    let mut i: usize = 0;
    proof {
        assert(all.skip(0) =~= all);
    }
    while i < links.len()
        invariant
            i <= links@.len(),
            all == links@.map_values(|l: LinkEntry| l@),
            first_with_rel(all, rel@) == first_with_rel(all.skip(i as int), rel@),
        decreases links@.len() - i,
    {
        proof {
            assert(all.skip(i as int)[0] == all[i as int]);
            assert(all.skip(i as int).skip(1) =~= all.skip(i + 1));
        }
        if text::eq_bytes(links[i].rel.as_slice(), rel) {
            return Option::Some(links[i].href.clone());
        }
        i += 1;
    }
    proof {
        assert(all.skip(i as int) =~= Seq::<LinkModel>::empty());
    }
    Option::None
}

/// An entry accumulator.
pub ghost struct EntryAcc {
    pub updated: Option<int>,
    pub links: Seq<LinkModel>,
}

/// Fold an entry object's members.
pub open spec fn entry_fold(s: Seq<u8>, ms: Seq<MemberModel>, acc: EntryAcc) -> Option<EntryAcc>
    decreases ms.len(),
{
    if ms.len() == 0 {
        Option::Some(acc)
    } else if ms[0].key == lits::spec_key_updated() {
        match ts_at(s, ms[0].vstart) {
            Option::None => Option::None,
            Option::Some(t) => entry_fold(
                s,
                ms.skip(1),
                EntryAcc { updated: Option::Some(t), links: acc.links },
            ),
        }
    } else if ms[0].key == lits::spec_key_link() {
        match links_at(s, ms[0].vstart) {
            Option::None => Option::None,
            Option::Some(ls) => entry_fold(s, ms.skip(1), EntryAcc { updated: acc.updated, links: ls }),
        }
    } else {
        entry_fold(s, ms.skip(1), acc)
    }
}

/// An entry object at `pos`: the `updated` time and a `self` link are
/// required; `signature` and `hash` links are optional.
pub open spec fn entry_at(s: Seq<u8>, pos: int) -> Option<SourceFileModel> {
    let p = ws_end(s, pos);
    if 0 <= p < s.len() && s[p] == 123 {
        match json::members_from(s, p + 1, true) {
            Option::None => Option::None,
            Option::Some(t) => match entry_fold(
                s,
                t.0,
                EntryAcc { updated: Option::None, links: seq![] },
            ) {
                Option::None => Option::None,
                Option::Some(a) => match (a.updated, first_with_rel(
                    a.links,
                    lits::spec_rel_self(),
                )) {
                    (Option::Some(u), Option::Some(f)) => Option::Some(
                        SourceFileModel {
                            file: f,
                            modified: u,
                            digest: first_with_rel(a.links, lits::spec_rel_hash()),
                            signature: first_with_rel(a.links, lits::spec_rel_signature()),
                        },
                    ),
                    _ => Option::None,
                },
            },
        }
    } else {
        Option::None
    }
}

fn entry_at_x(s: &[u8], pos: usize) -> (r: Option<SourceFileEntry>)
    requires
        pos <= s@.len(),
    ensures
        (match entry_at(s@, pos as int) {
            Option::None => r is None,
            Option::Some(m) => r matches Some(v) && v@ == m,
        }),
{
    let p = json::ws_x(s, pos);
    if p >= s.len() {
        return Option::None;
    }
    if s[p] != 123 {
        return Option::None;
    }
    let (ms, _end) = match json::members_from_x(s, p + 1, true) {
        Option::Some(t) => t,
        Option::None => {
            return Option::None;
        },
    };
    proof {
        json::lemma_members_from_advances(s@, p + 1, true);
    }
    let ghost all = ms@.map_values(|m: MemberSpan| m@);
    let mut updated: Option<i64> = Option::None;
    let mut links: Vec<LinkEntry> = Vec::new();
    let mut i: usize = 0;
    proof {
        assert(all.skip(0) =~= all);
        assert(links@.map_values(|l: LinkEntry| l@) =~= Seq::<LinkModel>::empty());
    }
    while i < ms.len()
        invariant
            i <= ms@.len(),
            all == ms@.map_values(|m: MemberSpan| m@),
            p < s@.len() && ws_end(s@, pos as int) == p as int && s@[p as int] == 123,
            (json::members_from(s@, p as int + 1, true) matches Some(t) && t.0 == all),
            forall|j: int| 0 <= j < all.len() ==> 0 <= (#[trigger] all[j]).vstart <= s@.len(),
            entry_fold(
                s@,
                all,
                EntryAcc { updated: Option::None, links: seq![] },
            ) == entry_fold(
                s@,
                all.skip(i as int),
                EntryAcc {
                    updated: match updated {
                        Option::Some(t) => Option::Some(t as int),
                        Option::None => Option::None,
                    },
                    links: links@.map_values(|l: LinkEntry| l@),
                },
            ),
        decreases ms@.len() - i,
    {
        proof {
            assert(all.skip(i as int)[0] == all[i as int]);
            assert(all.skip(i as int).skip(1) =~= all.skip(i + 1));
        }
        let m = &ms[i];
        let key_updated = lits::key_updated();
        let key_link = lits::key_link();
        if text::eq_bytes(m.key.as_slice(), key_updated.as_slice()) {
            match ts_at_x(s, m.vstart) {
                Option::Some(t) => {
                    updated = Option::Some(t);
                },
                Option::None => {
                    return Option::None;
                },
            }
        } else if text::eq_bytes(m.key.as_slice(), key_link.as_slice()) {
            match links_at_x(s, m.vstart) {
                Option::Some(ls) => {
                    links = ls;
                },
                Option::None => {
                    return Option::None;
                },
            }
        }
        i += 1;
    }
    proof {
        assert(all.skip(i as int) =~= Seq::<MemberModel>::empty());
    }
    let updated = match updated {
        Option::Some(t) => t,
        Option::None => {
            return Option::None;
        },
    };
    let rel_self = lits::rel_self();
    let file = match first_with_rel_x(&links, rel_self.as_slice()) {
        Option::Some(f) => f,
        Option::None => {
            return Option::None;
        },
    };
    let rel_hash = lits::rel_hash();
    let digest = first_with_rel_x(&links, rel_hash.as_slice());
    let rel_sig = lits::rel_signature();
    let signature = first_with_rel_x(&links, rel_sig.as_slice());
    Option::Some(SourceFileEntry { file, modified: updated, digest, signature })
}

/// Fold an array's elements into entries.
pub open spec fn entries_fold(s: Seq<u8>, es: Seq<int>) -> Option<Seq<SourceFileModel>>
    decreases es.len(),
{
    if es.len() == 0 {
        Option::Some(seq![])
    } else {
        match entry_at(s, es[0]) {
            Option::None => Option::None,
            Option::Some(e) => match entries_fold(s, es.skip(1)) {
                Option::None => Option::None,
                Option::Some(rest) => Option::Some(seq![e] + rest),
            },
        }
    }
}

/// An entry array at `pos`.
pub open spec fn entries_at(s: Seq<u8>, pos: int) -> Option<Seq<SourceFileModel>> {
    let p = ws_end(s, pos);
    if 0 <= p < s.len() && s[p] == 91 {
        match json::elems_from(s, p + 1, true) {
            Option::None => Option::None,
            Option::Some(t) => entries_fold(s, t.0),
        }
    } else {
        Option::None
    }
}

fn entries_at_x(s: &[u8], pos: usize) -> (r: Option<Vec<SourceFileEntry>>)
    requires
        pos <= s@.len(),
    ensures
        (match entries_at(s@, pos as int) {
            Option::None => r is None,
            Option::Some(m) => r matches Some(v) && v@.map_values(|e: SourceFileEntry| e@) == m,
        }),
{
    let p = json::ws_x(s, pos);
    if p >= s.len() {
        return Option::None;
    }
    if s[p] != 91 {
        return Option::None;
    }
    let (es, _end) = match json::elems_from_x(s, p + 1, true) {
        Option::Some(t) => t,
        Option::None => {
            return Option::None;
        },
    };
    proof {
        json::lemma_elems_from_advances(s@, p + 1, true);
    }
    let ghost all = es@.map_values(|v: usize| v as int);
    let mut out: Vec<SourceFileEntry> = Vec::new();
    let mut i: usize = 0;
    proof {
        assert(all.skip(0) =~= all);
        assert(out@.map_values(|e: SourceFileEntry| e@) =~= Seq::<SourceFileModel>::empty());
    }
    while i < es.len()
        invariant
            i <= es@.len(),
            all == es@.map_values(|v: usize| v as int),
            p < s@.len() && ws_end(s@, pos as int) == p as int && s@[p as int] == 91,
            (json::elems_from(s@, p as int + 1, true) matches Some(t) && t.0 == all),
            forall|j: int| 0 <= j < all.len() ==> 0 <= #[trigger] all[j] < s@.len(),
            entries_fold(s@, all) matches Some(t) ==> entries_fold(s@, all.skip(i as int))
                matches Some(rest) && t == out@.map_values(|e: SourceFileEntry| e@) + rest,
            entries_fold(s@, all) is None ==> entries_fold(s@, all.skip(i as int)) is None,
        decreases es@.len() - i,
    {
        proof {
            assert(all.skip(i as int)[0] == all[i as int]);
            assert(all.skip(i as int).skip(1) =~= all.skip(i + 1));
        }
        let e = match entry_at_x(s, es[i]) {
            Option::Some(e) => e,
            Option::None => {
                return Option::None;
            },
        };
        let ghost old_models = out@.map_values(|e2: SourceFileEntry| e2@);
        let ghost em = e@;
        out.push(e);
        proof {
            assert(out@.map_values(|e2: SourceFileEntry| e2@) =~= old_models + seq![em]);
            if entries_fold(s@, all.skip(i + 1)) is Some {
                let rest = entries_fold(s@, all.skip(i + 1)).unwrap();
                assert(old_models + (seq![em] + rest) =~= (old_models + seq![em]) + rest);
            }
        }
        i += 1;
    }
    proof {
        assert(all.skip(i as int) =~= Seq::<int>::empty());
        assert(out@.map_values(|e: SourceFileEntry| e@) + Seq::<SourceFileModel>::empty()
            =~= out@.map_values(|e: SourceFileEntry| e@));
    }
    Option::Some(out)
}

/// Fold the feed object's members: the last `entry` wins; absent means no
/// entries.
pub open spec fn feedobj_fold(
    s: Seq<u8>,
    ms: Seq<MemberModel>,
    acc: Seq<SourceFileModel>,
) -> Option<Seq<SourceFileModel>>
    decreases ms.len(),
{
    if ms.len() == 0 {
        Option::Some(acc)
    } else if ms[0].key == lits::spec_key_entry() {
        match entries_at(s, ms[0].vstart) {
            Option::None => Option::None,
            Option::Some(es) => feedobj_fold(s, ms.skip(1), es),
        }
    } else {
        feedobj_fold(s, ms.skip(1), acc)
    }
}

/// The feed object at `pos`.
pub open spec fn feedobj_at(s: Seq<u8>, pos: int) -> Option<Seq<SourceFileModel>> {
    let p = ws_end(s, pos);
    if 0 <= p < s.len() && s[p] == 123 {
        match json::members_from(s, p + 1, true) {
            Option::None => Option::None,
            Option::Some(t) => feedobj_fold(s, t.0, seq![]),
        }
    } else {
        Option::None
    }
}

fn feedobj_at_x(s: &[u8], pos: usize) -> (r: Option<Vec<SourceFileEntry>>)
    requires
        pos <= s@.len(),
    ensures
        (match feedobj_at(s@, pos as int) {
            Option::None => r is None,
            Option::Some(m) => r matches Some(v) && v@.map_values(|e: SourceFileEntry| e@) == m,
        }),
{
    let p = json::ws_x(s, pos);
    if p >= s.len() {
        return Option::None;
    }
    if s[p] != 123 {
        return Option::None;
    }
    let (ms, _end) = match json::members_from_x(s, p + 1, true) {
        Option::Some(t) => t,
        Option::None => {
            return Option::None;
        },
    };
    proof {
        json::lemma_members_from_advances(s@, p + 1, true);
    }
    let ghost all = ms@.map_values(|m: MemberSpan| m@);
    let mut acc: Vec<SourceFileEntry> = Vec::new();
    let mut i: usize = 0;
    proof {
        assert(all.skip(0) =~= all);
        assert(acc@.map_values(|e: SourceFileEntry| e@) =~= Seq::<SourceFileModel>::empty());
    }
    while i < ms.len()
        invariant
            i <= ms@.len(),
            all == ms@.map_values(|m: MemberSpan| m@),
            p < s@.len() && ws_end(s@, pos as int) == p as int && s@[p as int] == 123,
            (json::members_from(s@, p as int + 1, true) matches Some(t) && t.0 == all),
            forall|j: int| 0 <= j < all.len() ==> 0 <= (#[trigger] all[j]).vstart <= s@.len(),
            feedobj_fold(s@, all, seq![]) == feedobj_fold(
                s@,
                all.skip(i as int),
                acc@.map_values(|e: SourceFileEntry| e@),
            ),
        decreases ms@.len() - i,
    {
        proof {
            assert(all.skip(i as int)[0] == all[i as int]);
            assert(all.skip(i as int).skip(1) =~= all.skip(i + 1));
        }
        let m = &ms[i];
        let key_entry = lits::key_entry();
        if text::eq_bytes(m.key.as_slice(), key_entry.as_slice()) {
            match entries_at_x(s, m.vstart) {
                Option::Some(es) => {
                    acc = es;
                },
                Option::None => {
                    return Option::None;
                },
            }
        }
        i += 1;
    }
    proof {
        assert(all.skip(i as int) =~= Seq::<MemberModel>::empty());
    }
    Option::Some(acc)
}

/// Fold the top-level object's members: the last `feed` wins.
pub open spec fn rolie_top_fold(
    s: Seq<u8>,
    ms: Seq<MemberModel>,
    acc: Option<Seq<SourceFileModel>>,
) -> Option<Option<Seq<SourceFileModel>>>
    decreases ms.len(),
{
    if ms.len() == 0 {
        Option::Some(acc)
    } else if ms[0].key == lits::spec_key_feed() {
        match feedobj_at(s, ms[0].vstart) {
            Option::None => Option::None,
            Option::Some(es) => rolie_top_fold(s, ms.skip(1), Option::Some(es)),
        }
    } else {
        rolie_top_fold(s, ms.skip(1), acc)
    }
}

/// What a ROLIE feed document denotes: its entries, in feed order.
pub open spec fn parse_rolie(s: Seq<u8>) -> Option<Seq<SourceFileModel>> {
    let p = ws_end(s, 0);
    if 0 <= p < s.len() && s[p] == 123 {
        match json::members_from(s, p + 1, true) {
            Option::None => Option::None,
            Option::Some(t) => match rolie_top_fold(s, t.0, Option::None) {
                Option::None => Option::None,
                Option::Some(Option::None) => Option::None,
                Option::Some(Option::Some(es)) => Option::Some(es),
            },
        }
    } else {
        Option::None
    }
}

/// Parse a ROLIE feed document; a document without a `feed` object is
/// refused.
pub fn parse_rolie_x(s: &[u8]) -> (r: Result<Vec<SourceFileEntry>, SourceError>)
    ensures
        r.is_ok() == parse_rolie(s@) is Some,
        r matches Ok(v) ==> parse_rolie(s@) == Some(v@.map_values(|e: SourceFileEntry| e@)),
        r matches Err(e) ==> e == SourceError::InvalidJson,
{
    let p = json::ws_x(s, 0);
    if p >= s.len() {
        return Err(SourceError::InvalidJson);
    }
    if s[p] != 123 {
        return Err(SourceError::InvalidJson);
    }
    let (ms, _end) = match json::members_from_x(s, p + 1, true) {
        Option::Some(t) => t,
        Option::None => {
            return Err(SourceError::InvalidJson);
        },
    };
    proof {
        json::lemma_members_from_advances(s@, p + 1, true);
    }
    let ghost all = ms@.map_values(|m: MemberSpan| m@);
    let mut acc: Option<Vec<SourceFileEntry>> = Option::None;
    let mut i: usize = 0;
    proof {
        assert(all.skip(0) =~= all);
    }
    while i < ms.len()
        invariant
            i <= ms@.len(),
            all == ms@.map_values(|m: MemberSpan| m@),
            p < s@.len() && ws_end(s@, 0) == p as int && s@[p as int] == 123,
            (json::members_from(s@, p as int + 1, true) matches Some(t) && t.0 == all),
            forall|j: int| 0 <= j < all.len() ==> 0 <= (#[trigger] all[j]).vstart <= s@.len(),
            rolie_top_fold(s@, all, Option::None) == rolie_top_fold(
                s@,
                all.skip(i as int),
                match acc {
                    Option::Some(ref v) => Option::Some(
                        v@.map_values(|e: SourceFileEntry| e@),
                    ),
                    Option::None => Option::None,
                },
            ),
        decreases ms@.len() - i,
    {
        proof {
            assert(all.skip(i as int)[0] == all[i as int]);
            assert(all.skip(i as int).skip(1) =~= all.skip(i + 1));
        }
        let m = &ms[i];
        let key_feed = lits::key_feed();
        if text::eq_bytes(m.key.as_slice(), key_feed.as_slice()) {
            match feedobj_at_x(s, m.vstart) {
                Option::Some(es) => {
                    acc = Option::Some(es);
                },
                Option::None => {
                    return Err(SourceError::InvalidJson);
                },
            }
        }
        i += 1;
    }
    proof {
        assert(all.skip(i as int) =~= Seq::<MemberModel>::empty());
    }
    match acc {
        Option::Some(v) => Ok(v),
        Option::None => Err(SourceError::InvalidJson),
    }
}

} // verus!
