use extension_catalog::digest::{advance, BodyEvent, DigestStreamer, StreamStep};
use extension_catalog::manifest::Manifest;
use extension_catalog::model::{CatalogEntry, OutputRecord, TransferError};
use extension_catalog::page::{page_url, registry_base_text};
use extension_catalog::resolver::{
    assemble, complete, decide, download_url, failure_notice, plan, Decision, Plan,
};

fn entry(key: &str, version: &str) -> CatalogEntry {
    CatalogEntry {
        key: key.to_string(),
        version: version.to_string(),
        compatibility: vec![12, 13],
        description: "Line one\nLine two".to_string(),
    }
}

fn record(version: &str, hash: &str) -> OutputRecord {
    OutputRecord {
        version: version.to_string(),
        compatibility: vec![11],
        description: "An earlier description".to_string(),
        hash: hash.to_string(),
    }
}

fn prior_with_foo() -> Manifest {
    let mut prior = Manifest::new();
    prior.insert("foo".to_string(), record("1.0.0", "sha256-abc"));
    prior
}

fn digest_of(chunks: &[&[u8]]) -> Result<String, TransferError> {
    let mut streamer = DigestStreamer::new();
    for chunk in chunks {
        streamer = match advance(streamer, BodyEvent::Chunk(chunk)) {
            StreamStep::Reading(streamer) => streamer,
            _ => panic!("a chunk must leave the download reading"),
        };
    }
    match advance(streamer, BodyEvent::End) {
        StreamStep::Finished(text) => Ok(text),
        _ => panic!("the end of the body must finish the download"),
    }
}

#[test]
fn decide_reuses_a_hash_of_the_same_version() {
    let old = record("1.0.0", "sha256-abc");
    assert_eq!(decide(Some(&old), &entry("foo", "1.0.0")), Decision::Reuse);
}

#[test]
fn decide_recomputes_without_an_earlier_record() {
    assert_eq!(decide(None, &entry("foo", "1.0.0")), Decision::Recompute);
}

#[test]
fn decide_recomputes_when_the_version_changed() {
    let old = record("1.0.0", "sha256-abc");
    assert_eq!(decide(Some(&old), &entry("foo", "1.1.0")), Decision::Recompute);
}

#[test]
fn decide_recomputes_when_the_earlier_hash_is_empty() {
    let old = record("1.0.0", "");
    assert_eq!(decide(Some(&old), &entry("foo", "1.0.0")), Decision::Recompute);
}

#[test]
fn decide_compares_versions_as_texts() {
    let old = record("1.0", "sha256-abc");
    assert_eq!(decide(Some(&old), &entry("foo", "1.0.0")), Decision::Recompute);
    assert_eq!(decide(Some(&old), &entry("foo", "01.0")), Decision::Recompute);
    assert_eq!(decide(Some(&old), &entry("foo", "1.0 ")), Decision::Recompute);
    assert_eq!(decide(Some(&old), &entry("foo", "1.0")), Decision::Reuse);
}

#[test]
fn decide_does_not_look_at_other_fields() {
    let old = OutputRecord {
        version: "2.3.4".to_string(),
        compatibility: vec![],
        description: String::new(),
        hash: "x".to_string(),
    };
    assert_eq!(decide(Some(&old), &entry("foo", "2.3.4")), Decision::Reuse);
}

#[test]
fn download_url_follows_the_template() {
    assert_eq!(
        download_url("foo", "1.0.0"),
        "https://extensions.typo3.org/api/v1/extension/download/foo/1.0.0/zip"
    );
    assert_eq!(
        download_url("", ""),
        "https://extensions.typo3.org/api/v1/extension/download///zip"
    );
}

#[test]
fn downloads_stand_under_the_base_of_the_listing() {
    let base = registry_base_text();
    assert_eq!(base, "https://extensions.typo3.org/api/v1");
    assert_eq!(download_url("news", "11.0.2"), format!("{}/extension/download/news/11.0.2/zip", base));
    assert_eq!(page_url(3, 50), format!("{}/extension?page=3&per_page=50", base));
}

#[test]
fn download_url_takes_key_and_version_as_they_are() {
    assert_eq!(
        download_url("my ext/ü", "1.0.0-beta+1"),
        "https://extensions.typo3.org/api/v1/extension/download/my ext/ü/1.0.0-beta+1/zip"
    );
}

#[test]
fn failure_notice_names_key_and_reason() {
    assert_eq!(
        failure_notice("foo", "connection reset"),
        "Unable to calculate hash of foo: connection reset"
    );
}

#[test]
fn assemble_cuts_the_description_to_its_first_line() {
    let (key, built) = assemble(entry("foo", "1.0.0"), "sha256-abc".to_string());
    assert_eq!(key, "foo");
    assert_eq!(built.description, "Line one");
}

#[test]
fn assemble_copies_version_and_compatibility() {
    let (_, built) = assemble(entry("foo", "1.0.0"), "sha256-abc".to_string());
    assert_eq!(
        built,
        OutputRecord {
            version: "1.0.0".to_string(),
            compatibility: vec![12, 13],
            description: "Line one".to_string(),
            hash: "sha256-abc".to_string(),
        }
    );
}

#[test]
fn an_unchanged_version_reuses_the_earlier_hash() {
    let prior = prior_with_foo();
    let foo = entry("foo", "1.0.0");
    let planned = plan(&foo, &prior);
    assert_eq!(planned, Plan::UseCached { hash: "sha256-abc".to_string() });
    let hash = match planned {
        Plan::UseCached { hash } => hash,
        Plan::Download { .. } => panic!("nothing is to be downloaded for an unchanged version"),
    };
    let mut out = Manifest::new();
    assert_eq!(complete(foo, Ok(hash), &mut out), Ok(()));
    assert_eq!(out.len(), 1);
    assert_eq!(out.get("foo").unwrap().hash, "sha256-abc");
    assert_eq!(out.get("foo").unwrap().version, "1.0.0");
}

#[test]
fn a_changed_version_is_downloaded_and_hashed_anew() {
    let prior = prior_with_foo();
    let foo = entry("foo", "1.1.0");
    let planned = plan(&foo, &prior);
    assert_eq!(
        planned,
        Plan::Download {
            url: "https://extensions.typo3.org/api/v1/extension/download/foo/1.1.0/zip".to_string()
        }
    );
    let hash = digest_of(&[b"version 1.1.0 ", b"of foo"]);
    let mut out = Manifest::new();
    out.insert("foo".to_string(), record("1.0.0", "sha256-abc"));
    assert_eq!(complete(foo, hash, &mut out), Ok(()));
    assert_eq!(out.len(), 1);
    assert_eq!(
        out.get("foo"),
        Some(&OutputRecord {
            version: "1.1.0".to_string(),
            compatibility: vec![12, 13],
            description: "Line one".to_string(),
            hash: "sha256-TLJkAhPl8g1qQqrBG/Ddgb4Ol20w8yENf9b4Qsj2QqU=".to_string(),
        })
    );
}

#[test]
fn an_unknown_key_is_downloaded() {
    let prior = prior_with_foo();
    assert_eq!(
        plan(&entry("bar", "1.0.0"), &prior),
        Plan::Download {
            url: "https://extensions.typo3.org/api/v1/extension/download/bar/1.0.0/zip".to_string()
        }
    );
}

#[test]
fn an_earlier_empty_hash_is_not_reused() {
    let mut prior = Manifest::new();
    prior.insert("foo".to_string(), record("1.0.0", ""));
    assert_eq!(
        plan(&entry("foo", "1.0.0"), &prior),
        Plan::Download {
            url: "https://extensions.typo3.org/api/v1/extension/download/foo/1.0.0/zip".to_string()
        }
    );
}

#[test]
fn plan_leaves_the_earlier_manifest_as_it_is() {
    let prior = prior_with_foo();
    let _ = plan(&entry("foo", "1.1.0"), &prior);
    let _ = plan(&entry("bar", "1.0.0"), &prior);
    assert_eq!(prior.len(), 1);
    assert_eq!(prior.get("foo"), Some(&record("1.0.0", "sha256-abc")));
}

#[test]
fn a_failed_download_stores_nothing() {
    let mut out = Manifest::new();
    out.insert("bar".to_string(), record("3.0.0", "sha256-bar"));
    let failed = Err(TransferError { detail: "status 503".to_string() });
    assert_eq!(
        complete(entry("foo", "1.1.0"), failed, &mut out),
        Err(TransferError { detail: "status 503".to_string() })
    );
    assert_eq!(out.len(), 1);
    assert!(out.get("foo").is_none());
    assert_eq!(out.get("bar"), Some(&record("3.0.0", "sha256-bar")));
}

#[test]
fn the_keys_of_the_result_are_those_of_the_entries_that_got_a_hash() {
    let mut out = Manifest::new();
    let outcomes: [(&str, Result<String, TransferError>); 4] = [
        ("news", Ok("sha256-news".to_string())),
        ("blog", Err(TransferError { detail: "timed out".to_string() })),
        ("form", Ok("sha256-form".to_string())),
        ("shop", Err(TransferError { detail: "status 404".to_string() })),
    ];
    for (key, outcome) in outcomes {
        let failed = outcome.is_err();
        assert_eq!(complete(entry(key, "1.0.0"), outcome, &mut out).is_err(), failed);
    }
    assert_eq!(out.len(), 2);
    assert!(out.get("news").is_some());
    assert!(out.get("form").is_some());
    assert!(out.get("blog").is_none());
    assert!(out.get("shop").is_none());
}

fn run(prior: &Manifest, catalog: &[CatalogEntry], downloads: &mut usize) -> Manifest {
    let mut out = Manifest::new();
    for found in catalog {
        let hash = match plan(found, prior) {
            Plan::UseCached { hash } => Ok(hash),
            Plan::Download { url } => {
                *downloads += 1;
                digest_of(&[url.as_bytes()])
            }
        };
        assert_eq!(complete(found.clone(), hash, &mut out), Ok(()));
    }
    out.sort_keys();
    out
}

fn pairs(manifest: &Manifest) -> Vec<(String, OutputRecord)> {
    let mut pairs = Vec::new();
    let mut index = 0;
    while let Some((key, found)) = manifest.entry_at(index) {
        pairs.push((key.clone(), found.clone()));
        index += 1;
    }
    pairs
}

#[test]
fn a_second_run_over_an_unchanged_catalog_writes_the_same() {
    let catalog = [entry("news", "11.0.2"), entry("blog", "4.1.0"), entry("form", "0.9.9")];
    let mut downloads = 0;
    let first = run(&prior_with_foo(), &catalog, &mut downloads);
    assert_eq!(downloads, 3);
    let reordered = [catalog[2].clone(), catalog[0].clone(), catalog[1].clone()];
    let second = run(&first, &reordered, &mut downloads);
    assert_eq!(downloads, 3);
    assert_eq!(pairs(&first), pairs(&second));
    let keys: Vec<String> = pairs(&second).into_iter().map(|(key, _)| key).collect();
    assert_eq!(keys, ["blog", "form", "news"]);
}
