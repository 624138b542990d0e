use advisory_walker::changes::ChangeEntry;
use advisory_walker::discover::directory_index;
use advisory_walker::discover::DiscoveredDoc;
use advisory_walker::discover::DistributionContext;
use advisory_walker::errors::ValidationError;
use advisory_walker::retrieve::assemble_retrieved;
use advisory_walker::retrieve::sha256_fetch_url;
use advisory_walker::retrieve::sha512_fetch_url;
use advisory_walker::retrieve::signature_fetch_url;
use advisory_walker::skip::should_skip;
use advisory_walker::store::pct_decode_x;
use advisory_walker::store::StoreVisitor;
use advisory_walker::urls::join;
use advisory_walker::urls::make_relative;
use advisory_walker::urls::parse_abs_url;
use advisory_walker::urls::DocUrl;
use advisory_walker::validate::validate_retrieved;
use advisory_walker::validate::SignatureOutcome;
use advisory_walker::validate::ValidationOptions;
use sha2::Digest;

fn url(s: &str, h: &str, p: &str) -> DocUrl {
    DocUrl {
        scheme: s.as_bytes().to_vec(),
        host: h.as_bytes().to_vec(),
        path: p.as_bytes().to_vec(),
    }
}

fn entry(file: &str, modified: i64) -> ChangeEntry {
    ChangeEntry { file: file.as_bytes().to_vec(), modified }
}

fn sha256_hex(data: &[u8]) -> Vec<u8> {
    let mut out = Vec::new();
    for b in sha2::Sha256::digest(data) {
        out.extend_from_slice(format!("{b:02x}").as_bytes());
    }
    out
}

#[test]
fn url_parsing_and_joining() {
    let u = parse_abs_url(b"https://ex/d/").unwrap();
    assert_eq!(u.scheme, b"https".to_vec());
    assert_eq!(u.host, b"ex".to_vec());
    assert_eq!(u.path, b"/d/".to_vec());
    assert_eq!(parse_abs_url(b"relative/path"), None);
    assert_eq!(parse_abs_url(b"no scheme at all"), None);
    let no_path = parse_abs_url(b"https://ex").unwrap();
    assert_eq!(no_path.path, b"/".to_vec());

    let joined = join(&u, b"a.json");
    assert_eq!(joined.path, b"/d/a.json".to_vec());
    // the defensive slash: one of two meeting slashes is dropped
    let joined2 = join(&u, b"/a.json");
    assert_eq!(joined2.path, b"/d/a.json".to_vec());
}

#[test]
fn relative_names_stay_under_the_base() {
    let base = url("https", "ex", "/d/");
    let doc = url("https", "ex", "/d/2024/a.json");
    assert_eq!(make_relative(&base, &doc), Some(b"2024/a.json".to_vec()));
    let other_host = url("https", "other", "/d/a.json");
    assert_eq!(make_relative(&base, &other_host), None);
    let escaping = url("https", "ex", "/d/../etc/passwd");
    assert_eq!(make_relative(&base, &escaping), None);
    assert_eq!(make_relative(&base, &base), None);
}

#[test]
fn discovery_applies_the_watermark() {
    // the third scenario: one entry before the watermark, one after
    let base = url("https", "ex", "/d/");
    let entries = vec![
        entry("a.json", 1704067200),  // 2024-01-01
        entry("b.json", 1717200000),  // 2024-06-01
    ];
    let since = 1709251200; // 2024-03-01
    let docs = directory_index(&base, &entries, Some(since));
    assert_eq!(docs.len(), 1);
    assert_eq!(docs[0].url.path, b"/d/b.json".to_vec());
    // every discovered URL is absolute
    assert!(!docs[0].url.scheme.is_empty());

    let all = directory_index(&base, &entries, None);
    assert_eq!(all.len(), 2);
    assert_eq!(all[0].url.path, b"/d/a.json".to_vec());

    // equal to the watermark passes
    let boundary = directory_index(&base, &entries, Some(1704067200));
    assert_eq!(boundary.len(), 2);
}

fn discovered(digest: Option<DocUrl>, signature: Option<DocUrl>) -> DiscoveredDoc {
    DiscoveredDoc {
        context: DistributionContext::Directory(url("https", "ex", "/d/")),
        url: url("https", "ex", "/d/a.json"),
        modified: 1704067200,
        signature,
        digest,
    }
}

#[test]
fn sibling_urls_follow_the_conventions() {
    let d = discovered(None, None);
    assert_eq!(signature_fetch_url(&d).path, b"/d/a.json.asc".to_vec());
    assert_eq!(sha256_fetch_url(&d).unwrap().path, b"/d/a.json.sha256".to_vec());
    assert_eq!(sha512_fetch_url(&d).unwrap().path, b"/d/a.json.sha512".to_vec());

    let with = discovered(
        Some(url("https", "ex", "/d/a.json.sha256")),
        Some(url("https", "ex", "/sig/a.asc")),
    );
    assert_eq!(signature_fetch_url(&with).path, b"/sig/a.asc".to_vec());
    assert_eq!(sha256_fetch_url(&with).unwrap().path, b"/d/a.json.sha256".to_vec());
    // a digest URL of another kind means: no SHA-512 fetch at all
    assert_eq!(sha512_fetch_url(&with), None);
}

#[test]
fn validation_succeeds_exactly_on_matching_sha256() {
    // a digest file with the true hash, leading whitespace and a comment
    let data = b"hello".to_vec();
    let mut line = b" ".to_vec();
    line.extend_from_slice(&sha256_hex(b"hello"));
    line.extend_from_slice(b"  a.json\n");
    let doc = assemble_retrieved(
        discovered(None, None),
        data,
        None,
        Some(line),
        None,
        None,
        None,
    );
    let opts = ValidationOptions::new();
    let ok = validate_retrieved(doc, SignatureOutcome::NoMatchingKey, 0, &opts);
    assert!(ok.is_ok());
}

#[test]
fn validation_reports_digest_mismatch() {
    let doc = assemble_retrieved(
        discovered(None, None),
        b"hello".to_vec(),
        None,
        Some(b"deadbeef".to_vec()),
        None,
        None,
        None,
    );
    let opts = ValidationOptions::new();
    match validate_retrieved(doc, SignatureOutcome::NoMatchingKey, 0, &opts) {
        Err(ValidationError::DigestMismatch { alg, expected, actual }) => {
            assert_eq!(alg, b"sha256".to_vec());
            assert_eq!(expected, b"deadbeef".to_vec());
            assert_eq!(actual, sha256_hex(b"hello"));
        }
        other => panic!("expected a digest mismatch, got {other:?}"),
    }
}

#[test]
fn validation_folds_digest_case() {
    let upper: Vec<u8> = sha256_hex(b"hello").to_ascii_uppercase();
    let doc = assemble_retrieved(
        discovered(None, None),
        b"hello".to_vec(),
        None,
        Some(upper),
        None,
        None,
        None,
    );
    let opts = ValidationOptions::new();
    assert!(validate_retrieved(doc, SignatureOutcome::NoMatchingKey, 0, &opts).is_ok());
}

#[test]
fn missing_signature_is_an_error_only_when_required() {
    // a signature fetch that saw a 404 leaves the document unsigned
    let unsigned = || {
        assemble_retrieved(discovered(None, None), b"{}".to_vec(), None, None, None, None, None)
    };
    let lax = ValidationOptions::new();
    assert!(validate_retrieved(unsigned(), SignatureOutcome::BadSignature, 0, &lax).is_ok());
    let strict = ValidationOptions { require_signature: true, validation_date: None };
    assert_eq!(
        validate_retrieved(unsigned(), SignatureOutcome::BadSignature, 0, &strict),
        Err(ValidationError::NoSignature)
    );
}

#[test]
fn signature_outcomes_map_to_errors() {
    let signed = || {
        assemble_retrieved(
            discovered(None, None),
            b"{}".to_vec(),
            Some(b"-----BEGIN PGP SIGNATURE-----".to_vec()),
            None,
            None,
            None,
            None,
        )
    };
    let opts = ValidationOptions::new();
    assert_eq!(
        validate_retrieved(signed(), SignatureOutcome::NoMatchingKey, 1, &opts),
        Err(ValidationError::UnknownKey)
    );
    assert_eq!(
        validate_retrieved(signed(), SignatureOutcome::BadSignature, 1, &opts),
        Err(ValidationError::SignatureInvalid)
    );
    let ok = validate_retrieved(signed(), SignatureOutcome::Verified { key_index: 0 }, 1, &opts);
    assert!(ok.is_ok());
}

#[test]
fn skip_filter_spares_current_files() {
    // a file just stored with its document's timestamp is skipped
    assert!(should_skip(true, Some(1704067200), 1704067200, Some(1700000000)));
    assert!(should_skip(true, Some(1704067300), 1704067200, None));
    // older on disk than declared: retrieve again
    assert!(!should_skip(true, Some(1704067100), 1704067200, None));
    // older than the watermark: retrieve again
    assert!(!should_skip(true, Some(1704067200), 1704067200, Some(1704067300)));
    // not there yet
    assert!(!should_skip(false, Some(1704067200), 1704067200, None));
    assert!(!should_skip(true, None, 1704067200, None));
}

#[test]
fn store_plan_lays_out_the_tree() {
    let store = StoreVisitor::new(b"/tmp/out".to_vec());
    let doc = assemble_retrieved(
        discovered(None, None),
        b"{}".to_vec(),
        Some(b"sig".to_vec()),
        Some(b"deadbeef".to_vec()),
        None,
        None,
        Some(b"\"etag-1\"".to_vec()),
    );
    let plan = store.store_plan(&doc).unwrap();
    assert_eq!(plan.writes.len(), 3);
    assert_eq!(plan.writes[0].path, b"/tmp/out/ex/d/a.json".to_vec());
    assert_eq!(plan.writes[0].data, b"{}".to_vec());
    assert_eq!(plan.writes[1].path, b"/tmp/out/ex/d/a.json.asc".to_vec());
    assert_eq!(plan.writes[1].data, b"sig".to_vec());
    assert_eq!(plan.writes[2].path, b"/tmp/out/ex/d/a.json.sha256".to_vec());
    assert_eq!(plan.writes[2].data, b"deadbeef".to_vec());
    assert_eq!(plan.mtime, Some(1704067200));
    assert_eq!(plan.etag, Some(b"\"etag-1\"".to_vec()));

    let bare = StoreVisitor::new(b"/tmp/out".to_vec())
        .no_timestamps(true)
        .no_xattrs(true);
    let doc2 = assemble_retrieved(
        discovered(None, None),
        b"{}".to_vec(),
        None,
        None,
        None,
        None,
        Some(b"\"etag-1\"".to_vec()),
    );
    let plan2 = bare.store_plan(&doc2).unwrap();
    assert_eq!(plan2.writes.len(), 1);
    assert_eq!(plan2.mtime, None);
    assert_eq!(plan2.etag, None);
}

#[test]
fn store_refuses_foreign_and_escaping_urls() {
    let store = StoreVisitor::new(b"/tmp/out".to_vec());
    let mut doc = assemble_retrieved(
        discovered(None, None),
        b"{}".to_vec(),
        None,
        None,
        None,
        None,
        None,
    );
    doc.discovered.url = url("https", "other", "/d/a.json");
    assert!(store.store_plan(&doc).is_err());
}

#[test]
fn percent_decoding() {
    assert_eq!(pct_decode_x(b"/a%20b/%41"), b"/a b/A".to_vec());
    // malformed escapes pass through unchanged
    assert_eq!(pct_decode_x(b"/a%2"), b"/a%2".to_vec());
    assert_eq!(pct_decode_x(b"/a%zz"), b"/a%zz".to_vec());
}
