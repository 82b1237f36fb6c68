use assembly_downloader::batch::{
    collect_accessions, failure_record, windows, Batch, FailureRecord, PipelineOutcome,
    WINDOW_WIDTH,
};
use assembly_downloader::fetch::FetchError;
use assembly_downloader::pipeline::PipelineError;
use assembly_downloader::resolve::ResolutionError;

fn strings(v: &[&str]) -> Vec<String> {
    v.iter().map(|s| s.to_string()).collect()
}

#[test]
fn duplicates_run_once() {
    let mut accs = collect_accessions(&strings(&["A_1", "A_1", "B_2"]));
    accs.sort();
    assert_eq!(accs, strings(&["A_1", "B_2"]));
    let batch = Batch::new(&accs);
    let total: usize = batch.windows.iter().map(|w| w.len()).sum();
    assert_eq!(total, 2);
}

#[test]
fn blank_fields_dropped_and_fields_trimmed() {
    let mut accs = collect_accessions(&strings(&["  A_1 ", "", "   ", "A_1", "\tC_3"]));
    accs.sort();
    assert_eq!(accs, strings(&["A_1", "C_3"]));
    assert!(collect_accessions(&Vec::new()).is_empty());
}

#[test]
fn seven_accessions_make_three_windows() {
    let items = strings(&["a", "b", "c", "d", "e", "f", "g"]);
    let w = windows(&items, WINDOW_WIDTH);
    let sizes: Vec<usize> = w.iter().map(|x| x.len()).collect();
    assert_eq!(sizes, vec![3, 3, 1]);
    assert_eq!(w[2], strings(&["g"]));
    assert!(windows(&Vec::new(), 3).is_empty());
    assert_eq!(windows(&strings(&["a", "b", "c"]), 3).len(), 1);
}

#[test]
fn windows_run_one_after_another() {
    let items = strings(&["a", "b", "c", "d", "e", "f", "g"]);
    let mut batch = Batch::new(&items);
    let mut seen = Vec::new();
    while let Some(w) = batch.current_window().cloned() {
        seen.push(w.len());
        let outcomes: Vec<PipelineOutcome> = w
            .iter()
            .map(|a| {
                if a == "e" {
                    Err((a.clone(), PipelineError::Resolution(ResolutionError::MalformedAccession)))
                } else {
                    Ok(a.clone())
                }
            })
            .collect();
        batch.complete_window(outcomes);
    }
    assert_eq!(seen, vec![3, 3, 1]);
    assert_eq!(batch.next, 3);
    assert_eq!(batch.succeeded.len(), 6);
    assert_eq!(
        batch.failures,
        vec![FailureRecord { accession: "e".to_string(), url: "Unknown URL".to_string() }]
    );
}

#[test]
fn failure_record_carries_the_failing_url() {
    let e = PipelineError::Fetch(FetchError::ExhaustedRetries { url: "https://h/x".to_string(), attempts: 3 });
    let r = failure_record(&"A_1".to_string(), &e);
    assert_eq!(r.accession, "A_1");
    assert_eq!(r.url, "https://h/x");
    let e = PipelineError::Fetch(FetchError::BodyUnreadable { url: "https://h/y".to_string() });
    assert_eq!(failure_record(&"A_1".to_string(), &e).url, "https://h/y");
    let e = PipelineError::Fetch(FetchError::WriteFailed { url: "https://h/z".to_string(), path: "dl/x".to_string() });
    assert_eq!(failure_record(&"A_1".to_string(), &e).url, "https://h/z");
    let e = PipelineError::Resolution(ResolutionError::DirectoryUnreachable { url: "https://h/d".to_string() });
    assert_eq!(failure_record(&"A_1".to_string(), &e).url, "https://h/d");
    let e = PipelineError::Resolution(ResolutionError::MalformedAccession);
    assert_eq!(failure_record(&"A_1".to_string(), &e).url, "Unknown URL");
    let e = PipelineError::Resolution(ResolutionError::NoMatch("A_1".to_string()));
    assert_eq!(failure_record(&"A_1".to_string(), &e).url, "Unknown URL");
    let e = PipelineError::Resolution(ResolutionError::DirectoryUnavailable { url: "https://h/l".to_string(), status: 404 });
    assert_eq!(failure_record(&"A_1".to_string(), &e).url, "https://h/l");
}
