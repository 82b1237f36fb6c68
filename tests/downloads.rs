use assembly_downloader::fetch::{FetchError, FetchEvent, RetryingFetch};
use assembly_downloader::pipeline::{download_targets, start_pipeline, Pipeline, PipelineError};
use assembly_downloader::resolve::{ResolutionError, Resolved};

fn run(max: u32, events: &[FetchEvent]) -> RetryingFetch {
    let mut f = RetryingFetch::new("http://h/f".to_string(), "out/f".to_string(), max);
    for e in events {
        assert!(f.is_pending());
        f.record(e.clone());
    }
    f
}

#[test]
fn third_attempt_succeeds_after_two_failures() {
    let f = run(3, &[FetchEvent::Failed, FetchEvent::Failed, FetchEvent::Saved]);
    assert!(!f.is_pending());
    assert_eq!(f.failed_attempts, 2);
    assert_eq!(f.into_outcome(), Ok(()));
}

#[test]
fn all_failed_attempts_exhaust_with_url() {
    let f = run(3, &[FetchEvent::Failed, FetchEvent::Failed, FetchEvent::Failed]);
    assert!(!f.is_pending());
    assert_eq!(
        f.into_outcome(),
        Err(FetchError::ExhaustedRetries { url: "http://h/f".to_string(), attempts: 3 })
    );
}

#[test]
fn two_failures_leave_a_third_attempt() {
    let f = run(3, &[FetchEvent::Failed, FetchEvent::Failed]);
    assert!(f.is_pending());
}

#[test]
fn zero_attempts_gives_up_at_once() {
    let f = RetryingFetch::new("http://h/f".to_string(), "out/f".to_string(), 0);
    assert!(!f.is_pending());
    assert_eq!(
        f.into_outcome(),
        Err(FetchError::ExhaustedRetries { url: "http://h/f".to_string(), attempts: 0 })
    );
}

#[test]
fn unreadable_body_and_write_failure_are_not_retried() {
    let f = run(3, &[FetchEvent::BodyUnreadable]);
    assert_eq!(f.into_outcome(), Err(FetchError::BodyUnreadable { url: "http://h/f".to_string() }));
    let f = run(3, &[FetchEvent::Failed, FetchEvent::WriteFailed]);
    assert_eq!(
        f.into_outcome(),
        Err(FetchError::WriteFailed { url: "http://h/f".to_string(), path: "out/f".to_string() })
    );
}

fn resolved() -> Resolved {
    Resolved { url: "https://h/GCF/000/001/405/GCF_000001405.40_GRCh38".to_string(), name: "GCF_000001405.40_GRCh38".to_string() }
}

#[test]
fn targets_name_urls_and_local_files() {
    let t = download_targets("GCF_000001405.40", "dl", &resolved());
    assert_eq!(t.len(), 3);
    assert_eq!(t[0].url, "https://h/GCF/000/001/405/GCF_000001405.40_GRCh38/GCF_000001405.40_GRCh38_genomic.fna.gz");
    assert_eq!(t[1].url, "https://h/GCF/000/001/405/GCF_000001405.40_GRCh38/GCF_000001405.40_GRCh38_protein.faa.gz");
    assert_eq!(t[2].url, "https://h/GCF/000/001/405/GCF_000001405.40_GRCh38/md5checksums.txt");
    assert_eq!(t[0].path, "dl/GCF_000001405.40_genomic.fna.gz");
    assert_eq!(t[1].path, "dl/GCF_000001405.40_protein.faa.gz");
    assert_eq!(t[2].path, "dl/GCF_000001405.40_md5checksums.txt");
}

#[test]
fn rerun_plans_the_same_files() {
    let a = download_targets("GCF_000001405.40", "dl", &resolved());
    let b = download_targets("GCF_000001405.40", "dl", &resolved());
    assert_eq!(a, b);
}

#[test]
fn pipeline_succeeds_only_when_every_download_does() {
    let targets = download_targets("A_1", ".", &resolved());
    let mut p = Pipeline::new("A_1".to_string(), targets.clone());
    let mut urls = Vec::new();
    while let Some(t) = p.current().cloned() {
        urls.push(t.url);
        p.record(Ok(()));
    }
    assert_eq!(urls.len(), 3);
    assert_eq!(p.finish(), Ok("A_1".to_string()));

    let mut p = Pipeline::new("A_1".to_string(), targets);
    p.record(Ok(()));
    let err = FetchError::ExhaustedRetries { url: "u2".to_string(), attempts: 3 };
    p.record(Err(err.clone()));
    assert!(p.current().is_none());
    assert_eq!(p.completed, 1);
    assert_eq!(p.finish(), Err(("A_1".to_string(), PipelineError::Fetch(err))));
}

#[test]
fn unusual_accessions_still_get_their_files() {
    let t = download_targets("A:B_1", "dl", &resolved());
    assert_eq!(t.len(), 3);
    assert!(t[0].path.ends_with("A:B_1_genomic.fna.gz"));
    let t = download_targets("A_1", "dl/", &resolved());
    assert_eq!(t[0].path, "dl/A_1_genomic.fna.gz");
    let t = download_targets("A_1", "", &resolved());
    assert_eq!(t[0].path, "A_1_genomic.fna.gz");
}

#[test]
fn start_pipeline_turns_resolution_into_outcome() {
    let e = ResolutionError::NoMatch("A_1".to_string());
    let r = start_pipeline("A_1", "dl", Err(e.clone()));
    assert_eq!(r.err(), Some(("A_1".to_string(), PipelineError::Resolution(e))));
    let r = start_pipeline("A:B_1", "dl", Ok(resolved())).unwrap();
    assert_eq!(r.accession, "A:B_1");
    assert_eq!(r.targets.len(), 3);
    let p = start_pipeline("A_1", "dl", Ok(resolved())).unwrap();
    assert_eq!(p.accession, "A_1");
    assert_eq!(p.completed, 0);
    assert_eq!(p.targets[0].path, "dl/A_1_genomic.fna.gz");
    assert_eq!(p.targets[2].path, "dl/A_1_md5checksums.txt");
}
