//! The `changes.csv` index of a directory distribution: one row per
//! document, holding a relative file path and an RFC-3339 timestamp.
//! Blank lines (also a blank trailing line) are ignored; a row without a
//! timestamp column, with a third column, or with an unreadable timestamp
//! is an error.

use vstd::prelude::*;
use crate::errors::SourceError;
use crate::text;
use crate::timestamp;

verus! {

/// One row of the index.
#[derive(Debug, PartialEq, Eq)]
pub struct ChangeEntry {
    /// The document's path, relative to the distribution base.
    pub file: Vec<u8>,
    /// The document's modification time, epoch seconds.
    pub modified: i64,
}

/// The model of a row.
pub ghost struct ChangeModel {
    pub file: Seq<u8>,
    pub modified: int,
}

impl View for ChangeEntry {
    type V = ChangeModel;

    open spec fn view(&self) -> ChangeModel {
        ChangeModel { file: self.file@, modified: self.modified as int }
    }
}

impl Clone for ChangeEntry {
    /// An equal copy, up to the view.
    fn clone(&self) -> (r: Self)
        ensures
            r@ == self@,
    {
        ChangeEntry { file: self.file.clone(), modified: self.modified }
    }
}

/// A line with its carriage return stripped.
pub open spec fn strip_cr(l: Seq<u8>) -> Seq<u8> {
    if l.len() > 0 && l.last() == 13 {
        l.drop_last()
    } else {
        l
    }
}

/// One non-blank row: `file "," timestamp`.
pub open spec fn parse_line(l: Seq<u8>) -> Option<ChangeModel> {
    let k = text::scan_to(l, 0, 44);
    if k >= l.len() {
        None
    } else {
        let file = l.subrange(0, k);
        let ts = l.subrange(k + 1, l.len() as int);
        if text::scan_to(ts, 0, 44) < ts.len() {
            None
        } else if timestamp::rfc3339_ok(ts) {
            Some(ChangeModel { file, modified: timestamp::rfc3339_value(ts) })
        } else {
            None
        }
    }
}

/// The rows of the index from position `pos` on.
pub open spec fn parse_changes_from(s: Seq<u8>, pos: int) -> Option<Seq<ChangeModel>>
    decreases s.len() - pos,
{
    if pos < 0 || pos >= s.len() {
        Some(seq![])
    } else {
        let e = text::scan_to(s, pos, 10);
        let line = strip_cr(s.subrange(pos, e));
        let next = if pos <= e < s.len() {
            e + 1
        } else {
            s.len() as int
        };
        let tail = parse_changes_from(s, next);
        if line.len() == 0 {
            tail
        } else {
            match parse_line(line) {
                Option::None => Option::None,
                Option::Some(m) => match tail {
                    Option::None => Option::None,
                    Option::Some(t) => Option::Some(seq![m] + t),
                },
            }
        }
    }
}

/// The rows of a whole `changes.csv`.
pub open spec fn parse_changes(s: Seq<u8>) -> Option<Seq<ChangeModel>> {
    parse_changes_from(s, 0)
}

/// Prepend parsed rows to a maybe-failed tail.
pub open spec fn opt_prepend(pre: Seq<ChangeModel>, o: Option<Seq<ChangeModel>>) -> Option<
    Seq<ChangeModel>,
> {
    match o {
        Option::None => Option::None,
        Option::Some(t) => Option::Some(pre + t),
    }
}

/// Parse a `changes.csv`.
#[verifier::rlimit(50)]
pub fn parse_changes_x(s: &[u8]) -> (r: Result<Vec<ChangeEntry>, SourceError>)
    ensures
        r.is_ok() == parse_changes(s@) is Some,
        r matches Ok(v) ==> parse_changes(s@) == Some(v@.map_values(|e: ChangeEntry| e@)),
        r matches Err(e) ==> e == SourceError::InvalidCsv,
{
    let mut out: Vec<ChangeEntry> = Vec::new();
    let mut pos: usize = 0;
    proof {
        assert(out@.map_values(|e: ChangeEntry| e@) =~= Seq::<ChangeModel>::empty());
    }
    while pos < s.len()
        invariant
            pos <= s@.len(),
            parse_changes(s@) == opt_prepend(
                out@.map_values(|e: ChangeEntry| e@),
                parse_changes_from(s@, pos as int),
            ),
        decreases s@.len() - pos,
    {
        let e = text::find_byte(s, pos, 10);
        let mut lend: usize = e;
        if lend > pos && s[lend - 1] == 13 {
            lend -= 1;
        }
        let line = text::copy_range(s, pos, lend);
        proof {
            if e > pos && s@[e - 1] == 13 {
                assert(s@.subrange(pos as int, e as int).last() == s@[e - 1]);
                assert(strip_cr(s@.subrange(pos as int, e as int)) =~= s@.subrange(
                    pos as int,
                    e as int,
                ).drop_last());
                assert(s@.subrange(pos as int, e as int).drop_last() =~= line@);
            } else {
                assert(strip_cr(s@.subrange(pos as int, e as int)) =~= line@);
            }
        }
        let next: usize = if e < s.len() {
            e + 1
        } else {
            e
        };
        if line.len() > 0 {
            let k = text::find_byte(line.as_slice(), 0, 44);
            if k == line.len() {
                return Err(SourceError::InvalidCsv);
            }
            let ts = text::copy_range(line.as_slice(), k + 1, line.len());
            if text::find_byte(ts.as_slice(), 0, 44) < ts.len() {
                return Err(SourceError::InvalidCsv);
            }
            let modified = match timestamp::parse_rfc3339(ts.as_slice()) {
                Option::Some(v) => v,
                Option::None => {
                    return Err(SourceError::InvalidCsv);
                },
            };
            let file = text::copy_range(line.as_slice(), 0, k);
            let entry = ChangeEntry { file, modified };
            proof {
                assert(parse_line(line@) == Some(entry@));
            }
            let ghost old_models = out@.map_values(|e2: ChangeEntry| e2@);
            out.push(entry);
            proof {
                assert(out@.map_values(|e2: ChangeEntry| e2@) =~= old_models + seq![entry@]);
                if parse_changes_from(s@, next as int) is Some {
                    let t = parse_changes_from(s@, next as int).unwrap();
                    assert(old_models + (seq![entry@] + t) =~= (old_models + seq![entry@]) + t);
                }
            }
        }
        pos = next;
    }
    proof {
        assert(parse_changes_from(s@, pos as int) == Some(Seq::<ChangeModel>::empty()));
        assert(out@.map_values(|e2: ChangeEntry| e2@) + Seq::<ChangeModel>::empty()
            =~= out@.map_values(|e2: ChangeEntry| e2@));
    }
    Ok(out)
}

} // verus!
