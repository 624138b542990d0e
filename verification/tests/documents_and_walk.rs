use advisory_walker::checks::init_csaf_security_advisory_verifying_visitor;
use advisory_walker::discover::DistributionContext;
use advisory_walker::filesource::FileOptions;
use advisory_walker::filesource::FileSource;
use advisory_walker::filesource::FsEntry;
use advisory_walker::httpsource::HttpOptions;
use advisory_walker::httpsource::HttpSource;
use advisory_walker::metadata::Distribution;
use advisory_walker::metadata::Feed;
use advisory_walker::metadata::KeyRef;
use advisory_walker::metadata::ProviderMetadata;
use advisory_walker::metadata::Rolie;
use advisory_walker::provider::parse_metadata_x;
use advisory_walker::provider::serialize_metadata;
use advisory_walker::rolie::parse_rolie_x;
use advisory_walker::urls::parse_abs_url;
use advisory_walker::urls::DocUrl;
use advisory_walker::walker::flatten_indices;
use advisory_walker::walker::DistributionFilter;
use advisory_walker::walker::Walker;

fn url(s: &str, h: &str, p: &str) -> DocUrl {
    DocUrl {
        scheme: s.as_bytes().to_vec(),
        host: h.as_bytes().to_vec(),
        path: p.as_bytes().to_vec(),
    }
}

fn sample_metadata() -> ProviderMetadata {
    ProviderMetadata {
        distributions: vec![
            Distribution {
                directory_url: Some(url("https", "ex", "/d/")),
                rolie: Some(Rolie {
                    feeds: vec![Feed { url: url("https", "ex", "/rolie/feed.json") }],
                }),
            },
            Distribution { directory_url: None, rolie: None },
        ],
        public_openpgp_keys: vec![KeyRef {
            fingerprint: Some(b"ABCDEF".to_vec()),
            url: url("https", "ex", "/key.asc"),
        }],
    }
}

#[test]
fn metadata_serialization_round_trips() {
    let m = sample_metadata();
    let bytes = serialize_metadata(&m);
    let back = parse_metadata_x(&bytes).unwrap();
    assert_eq!(back, m);
}

#[test]
fn metadata_parsing_ignores_unknown_fields() {
    let doc = br#"
    {
      "metadata_version": "2.0",
      "publisher": { "name": "Example", "category": "vendor" },
      "distributions": [
        { "directory_url": "https://ex/d/", "extra": [1, 2.5, true, null] },
        { "rolie": { "feeds": [ { "url": "https://ex/rolie/feed.json", "summary": "x" } ] } }
      ],
      "public_openpgp_keys": [
        { "fingerprint": "ABCDEF", "url": "https://ex/key.asc" }
      ]
    }"#;
    let m = parse_metadata_x(doc).unwrap();
    assert_eq!(m.distributions.len(), 2);
    assert_eq!(
        m.distributions[0].directory_url.as_ref().unwrap().host,
        b"ex".to_vec()
    );
    let feeds = &m.distributions[1].rolie.as_ref().unwrap().feeds;
    assert_eq!(feeds.len(), 1);
    assert_eq!(feeds[0].url.path, b"/rolie/feed.json".to_vec());
    assert_eq!(m.public_openpgp_keys.len(), 1);
    assert_eq!(
        m.public_openpgp_keys[0].fingerprint,
        Some(b"ABCDEF".to_vec())
    );
}

#[test]
fn metadata_parsing_rejects_bad_documents() {
    assert!(parse_metadata_x(b"").is_err());
    assert!(parse_metadata_x(b"[1,2]").is_err());
    assert!(parse_metadata_x(b"{\"distributions\": [{\"directory_url\": 7}]}").is_err());
    assert!(parse_metadata_x(b"{\"distributions\": [{\"directory_url\": \"no-scheme\"}]}").is_err());
    assert!(parse_metadata_x(b"{ \"distributions\": [ {} ").is_err());
}

#[test]
fn rolie_feed_entries_parse() {
    let doc = br#"
    {
      "feed": {
        "id": "csaf-feed",
        "entry": [
          {
            "id": "a",
            "updated": "2024-01-01T00:00:00Z",
            "link": [
              { "rel": "self", "href": "https://ex/d/a.json" },
              { "rel": "signature", "href": "https://ex/d/a.json.asc" },
              { "rel": "hash", "href": "https://ex/d/a.json.sha256" }
            ]
          },
          {
            "updated": "2024-06-01T00:00:00Z",
            "link": [ { "rel": "self", "href": "https://ex/d/b.json" } ]
          }
        ]
      }
    }"#;
    let files = parse_rolie_x(doc).unwrap();
    assert_eq!(files.len(), 2);
    assert_eq!(files[0].file, b"https://ex/d/a.json".to_vec());
    assert_eq!(files[0].modified, 1704067200);
    assert_eq!(files[0].signature, Some(b"https://ex/d/a.json.asc".to_vec()));
    assert_eq!(files[0].digest, Some(b"https://ex/d/a.json.sha256".to_vec()));
    assert_eq!(files[1].signature, None);
    assert_eq!(files[1].digest, None);
    // an entry without a self link fails the feed
    assert!(parse_rolie_x(
        b"{\"feed\":{\"entry\":[{\"updated\":\"2024-01-01T00:00:00Z\",\"link\":[]}]}}"
    )
    .is_err());
}

#[test]
fn http_source_builds_indices_from_fetched_bytes() {
    let source = HttpSource {
        metadata_url: url("https", "ex", "/provider-metadata.json"),
        options: HttpOptions::new().since(Some(1709251200)),
    };
    let base = url("https", "ex", "/d/");
    let docs = source
        .directory_index_from(
            &base,
            b"a.json,2024-01-01T00:00:00Z\nb.json,2024-06-01T00:00:00Z\n",
        )
        .unwrap();
    assert_eq!(docs.len(), 1);
    assert_eq!(docs[0].url.path, b"/d/b.json".to_vec());
    assert!(source.directory_index_from(&base, b"bad csv").is_err());

    let feed = url("https", "ex", "/rolie/feed.json");
    let feed_doc = br#"{"feed":{"entry":[
        {"updated":"2024-06-02T00:00:00Z","link":[{"rel":"self","href":"https://ex/d/c.json"}]}
    ]}}"#;
    let fdocs = source.feed_index_from(&feed, feed_doc).unwrap();
    assert_eq!(fdocs.len(), 1);
    assert_eq!(fdocs[0].url.path, b"/d/c.json".to_vec());
}

#[test]
fn walker_collects_feeds_then_directory_per_distribution() {
    let w = Walker::new();
    let ctxs = w.collect_distributions(&sample_metadata().distributions);
    assert_eq!(ctxs.len(), 2);
    match &ctxs[0] {
        DistributionContext::Feed(u) => assert_eq!(u.path, b"/rolie/feed.json".to_vec()),
        other => panic!("expected the feed first, got {other:?}"),
    }
    match &ctxs[1] {
        DistributionContext::Directory(u) => assert_eq!(u.path, b"/d/".to_vec()),
        other => panic!("expected the directory second, got {other:?}"),
    }
}

#[test]
fn walker_filter_prevents_fetches() {
    let w = Walker::new().with_distribution_filter(DistributionFilter::DirectoriesOnly);
    let ctxs = w.collect_distributions(&sample_metadata().distributions);
    assert_eq!(ctxs.len(), 1);
    assert!(matches!(ctxs[0], DistributionContext::Directory(_)));
    let w2 = Walker::new().with_distribution_filter(DistributionFilter::HostEquals(
        b"elsewhere".to_vec(),
    ));
    assert_eq!(w2.collect_distributions(&sample_metadata().distributions).len(), 0);
}

#[test]
fn flattening_preserves_every_document_and_its_order() {
    let base = url("https", "ex", "/d/");
    let mk = |name: &str| advisory_walker::discover::DiscoveredDoc {
        context: DistributionContext::Directory(base.clone()),
        url: url("https", "ex", &format!("/d/{name}")),
        modified: 0,
        signature: None,
        digest: None,
    };
    let indices = vec![
        vec![mk("a.json"), mk("b.json"), mk("c.json")],
        vec![],
        vec![mk("d.json"), mk("e.json"), mk("f.json")],
    ];
    let flat = flatten_indices(indices);
    assert_eq!(flat.len(), 6);
    let names: Vec<Vec<u8>> = flat.iter().map(|d| d.url.path.clone()).collect();
    assert_eq!(
        names,
        vec![
            b"/d/a.json".to_vec(),
            b"/d/b.json".to_vec(),
            b"/d/c.json".to_vec(),
            b"/d/d.json".to_vec(),
            b"/d/e.json".to_vec(),
            b"/d/f.json".to_vec()
        ]
    );
    // a distribution with zero documents contributes zero visits
    let empty: Vec<Vec<advisory_walker::discover::DiscoveredDoc>> = vec![vec![], vec![]];
    assert_eq!(flatten_indices(empty).len(), 0);
}

#[test]
fn file_source_round_trips_stored_metadata() {
    // what an earlier store run wrote, re-read and rewritten to file: URLs
    let m = sample_metadata();
    let bytes = serialize_metadata(&m);
    let fs = FileSource::new(b"/tmp/out".to_vec(), None).unwrap();
    let names = vec![b"ABCDEF.txt".to_vec(), b"README".to_vec()];
    let back = fs.load_metadata_from(&bytes, &names).unwrap();
    assert_eq!(back.distributions.len(), 2);
    let dir = back.distributions[0].directory_url.as_ref().unwrap();
    assert_eq!(dir.scheme, b"file".to_vec());
    assert_eq!(dir.host, b"".to_vec());
    assert_eq!(dir.path, b"/tmp/out/ex/d/".to_vec());
    let feed = &back.distributions[0].rolie.as_ref().unwrap().feeds[0];
    assert_eq!(feed.url.path, b"/tmp/out/ex/rolie/feed.json/".to_vec());
    // the keys are what the key directory holds; other files are ignored
    assert_eq!(back.public_openpgp_keys.len(), 1);
    assert_eq!(
        back.public_openpgp_keys[0].fingerprint,
        Some(b"ABCDEF".to_vec())
    );
    assert_eq!(
        back.public_openpgp_keys[0].url.path,
        b"/tmp/out/metadata/keys/ABCDEF.txt".to_vec()
    );
}

#[test]
fn file_source_index_filters_the_walk() {
    let fs = FileSource::new(
        b"/tmp/out".to_vec(),
        Some(FileOptions::new().since(Some(1709251200))),
    )
    .unwrap();
    let ctx = DistributionContext::Directory(url("file", "", "/tmp/out/ex/d/"));
    let entries = vec![
        FsEntry { path: b"/tmp/out/ex/d".to_vec(), is_file: false, mtime: 1717200000 },
        FsEntry { path: b"/tmp/out/ex/d/a.json".to_vec(), is_file: true, mtime: 1704067200 },
        FsEntry { path: b"/tmp/out/ex/d/b.json".to_vec(), is_file: true, mtime: 1717200000 },
        FsEntry { path: b"/tmp/out/ex/d/b.json.asc".to_vec(), is_file: true, mtime: 1717200000 },
    ];
    let docs = fs.load_index_from(&ctx, &entries);
    assert_eq!(docs.len(), 1);
    assert_eq!(docs[0].url.scheme, b"file".to_vec());
    assert_eq!(docs[0].url.path, b"/tmp/out/ex/d/b.json".to_vec());

    // an empty directory yields an empty index, not an error
    assert_eq!(fs.load_index_from(&ctx, &vec![]).len(), 0);
}

#[test]
fn file_source_requires_an_absolute_base() {
    assert!(FileSource::new(b"relative/dir".to_vec(), None).is_err());
    assert!(FileSource::new(b"".to_vec(), None).is_err());
}

#[test]
fn check_registry_names_the_product_tree_check() {
    let checks = init_csaf_security_advisory_verifying_visitor();
    assert_eq!(checks.len(), 1);
    assert_eq!(
        checks[0],
        b"check_all_products_v11ies_exits_in_product_tree".to_vec()
    );
}

#[test]
fn query_parameters_split_at_the_first_equals() {
    let args = vec![
        b"key=value".to_vec(),
        b"flag".to_vec(),
        b"a=b=c".to_vec(),
        b"=v".to_vec(),
    ];
    let params = advisory_walker::send::parse_query_params(&args);
    assert_eq!(params.len(), 4);
    assert_eq!((params[0].key.clone(), params[0].value.clone()), (b"key".to_vec(), b"value".to_vec()));
    assert_eq!((params[1].key.clone(), params[1].value.clone()), (b"flag".to_vec(), b"".to_vec()));
    assert_eq!((params[2].key.clone(), params[2].value.clone()), (b"a".to_vec(), b"b=c".to_vec()));
    assert_eq!((params[3].key.clone(), params[3].value.clone()), (b"".to_vec(), b"v".to_vec()));
}

#[test]
fn url_texts_round_trip() {
    let u = url("https", "ex", "/d/a.json");
    assert_eq!(parse_abs_url(&u.to_text()), Some(u));
}
