//! The HTTP source: the decisions around what the fetcher brings back.
//!
//! Fetching itself is the application's; given the fetched bytes of a
//! `changes.csv` or of a ROLIE feed, this module builds the discovered
//! documents, and maps the errors as the walk reports them.

use vstd::prelude::*;
use crate::changes;
use crate::discover;
use crate::discover::DiscoveredDoc;
use crate::discover::spec_since;
use crate::errors::SourceError;
use crate::rolie;
use crate::urls::DocUrl;

verus! {

/// Options of the HTTP source.
#[derive(Debug, PartialEq, Eq, Clone, Copy)]
pub struct HttpOptions {
    /// The watermark: older documents are not discovered.
    pub since: Option<i64>,
}

impl HttpOptions {
    /// No watermark.
    pub fn new() -> (r: Self)
        ensures
            r.since is None,
    {
        HttpOptions { since: Option::None }
    }

    /// Set the watermark.
    pub fn since(self, since: Option<i64>) -> (r: Self)
        ensures
            r.since == since,
    {
        HttpOptions { since }
    }
}

/// An HTTP source: where the provider's metadata lives, and the options.
/// The fetcher itself belongs to the application.
#[derive(Debug, PartialEq, Eq)]
pub struct HttpSource {
    /// The URL of the provider metadata document.
    pub metadata_url: DocUrl,
    pub options: HttpOptions,
}

/// What loading over HTTP can fail with.
#[derive(Debug, PartialEq, Eq, Clone, Copy)]
pub enum HttpSourceError {
    /// Metadata discovery failed.
    Metadata(SourceError),
    /// A fetch failed.
    Fetcher(SourceError),
    /// A URL could not be parsed.
    Url,
    /// A `changes.csv` could not be parsed.
    Csv,
    /// A JSON document could not be parsed.
    Json,
}

/// What loading a `changes.csv` index can fail with.
#[derive(Debug, PartialEq, Eq, Clone, Copy)]
pub enum ChangesError {
    Fetcher(SourceError),
    Url,
    Csv,
}

impl HttpSourceError {
    /// Adopt an index error under the source's own variants.
    pub fn from_changes(value: ChangesError) -> (r: Self)
        ensures
            r == (match value {
                ChangesError::Fetcher(e) => HttpSourceError::Fetcher(e),
                ChangesError::Url => HttpSourceError::Url,
                ChangesError::Csv => HttpSourceError::Csv,
            }),
    {
        match value {
            ChangesError::Fetcher(e) => HttpSourceError::Fetcher(e),
            ChangesError::Url => HttpSourceError::Url,
            ChangesError::Csv => HttpSourceError::Csv,
        }
    }
}

impl HttpSource {
    /// The documents of a directory distribution, from the fetched bytes
    /// of its `changes.csv`, with the watermark applied.
    pub fn directory_index_from(&self, base: &DocUrl, csv: &[u8]) -> (r: Result<
        Vec<DiscoveredDoc>,
        HttpSourceError,
    >)
        requires
            base.wf(),
        ensures
            r.is_ok() == changes::parse_changes(csv@) is Some,
            r matches Ok(v) ==> v@.map_values(|d: DiscoveredDoc| d@)
                == discover::directory_index_spec(
                base@,
                changes::parse_changes(csv@).unwrap(),
                spec_since(self.options.since),
            ),
            r matches Ok(v) ==> forall|i: int| 0 <= i < v@.len() ==> (#[trigger] v@[i])@.wf(),
            r matches Err(e) ==> e == HttpSourceError::Csv,
    {
        let entries = match changes::parse_changes_x(csv) {
            Ok(entries) => entries,
            Err(_) => {
                return Err(HttpSourceError::Csv);
            },
        };
        Ok(discover::directory_index(base, &entries, self.options.since))
    }

    /// The documents of a ROLIE feed distribution, from the fetched bytes
    /// of the feed document, with the watermark applied.
    pub fn feed_index_from(&self, feed: &DocUrl, json: &[u8]) -> (r: Result<
        Vec<DiscoveredDoc>,
        HttpSourceError,
    >)
        requires
            feed.wf(),
        ensures
            (match rolie::parse_rolie(json@) {
                Option::None => r == Err::<Vec<DiscoveredDoc>, HttpSourceError>(
                    HttpSourceError::Json,
                ),
                Option::Some(files) => match discover::feed_index_spec(
                    feed@,
                    files,
                    spec_since(self.options.since),
                ) {
                    Option::None => r == Err::<Vec<DiscoveredDoc>, HttpSourceError>(
                        HttpSourceError::Url,
                    ),
                    Option::Some(docs) => r matches Ok(v) && v@.map_values(
                        |d: DiscoveredDoc| d@,
                    ) == docs,
                },
            }),
            r matches Ok(v) ==> forall|i: int| 0 <= i < v@.len() ==> (#[trigger] v@[i])@.wf(),
    {
        let files = match rolie::parse_rolie_x(json) {
            Ok(files) => files,
            Err(_) => {
                return Err(HttpSourceError::Json);
            },
        };
        match discover::feed_index(feed, &files, self.options.since) {
            Ok(docs) => Ok(docs),
            Err(_) => Err(HttpSourceError::Url),
        }
    }
}

} // verus!
