//! The skip filter: a discovered document whose stored copy is already
//! current is dropped before it is even retrieved.

use vstd::prelude::*;
use crate::discover::since_pass;

verus! {

/// Skip when the stored file exists, its modification time is no older
/// than the document's declared one, and no older than the watermark.
pub open spec fn skip_spec(
    exists_file: bool,
    mtime: Option<int>,
    modified: int,
    since: Option<int>,
) -> bool {
    exists_file && match mtime {
        Option::None => false,
        Option::Some(t) => t >= modified && match since {
            Option::None => true,
            Option::Some(s) => t >= s,
        },
    }
}

/// Decide whether a document's retrieval can be skipped.
///
/// `exists_file` and `mtime` describe the would-be storage path;
/// `modified` is the document's declared modification time.
pub fn should_skip(exists_file: bool, mtime: Option<i64>, modified: i64, since: Option<i64>) -> (r:
    bool)
    ensures
        r == skip_spec(
            exists_file,
            match mtime {
                Option::Some(t) => Option::Some(t as int),
                Option::None => Option::None,
            },
            modified as int,
            match since {
                Option::Some(t) => Option::Some(t as int),
                Option::None => Option::None,
            },
        ),
{
    if !exists_file {
        return false;
    }
    match mtime {
        Option::None => false,
        Option::Some(t) => t >= modified && match since {
            Option::None => true,
            Option::Some(s) => t >= s,
        },
    }
}

/// A file just stored with its document's declared timestamp passes the
/// skip filter on the next run, for every document the watermark admits:
/// an unchanged remote is walked again without a single new write.
pub proof fn lemma_store_idempotent(modified: int, since: Option<int>)
    requires
        since_pass(modified, since),
    ensures
        skip_spec(true, Option::Some(modified), modified, since),
{
}

} // verus!
