use assembly_downloader::accession::{directory_url, number_path, parse_accession};
use assembly_downloader::resolve::{
    entry_name, is_success, name_matches, resolve_listing, select_entry, start_resolution,
    ListingResponse, ResolutionError,
};

fn listing(entries: &[&str]) -> String {
    let mut body = String::from("<html><body>\n");
    for e in entries {
        body.push_str(&format!("<a href=\"{}\">{}</a>\n", e, e));
    }
    body.push_str("</body></html>\n");
    body
}

#[test]
fn accession_without_underscore_is_malformed() {
    for acc in ["GCF000001405.40", "", "   ", "abc.def"] {
        assert_eq!(start_resolution(acc).err(), Some(ResolutionError::MalformedAccession));
    }
}

#[test]
fn parse_splits_namespace_number_and_version() {
    let p = parse_accession("GCF_000001405.40").unwrap();
    assert_eq!(p.db, "GCF");
    assert_eq!(p.number, "000001405");
    let p = parse_accession("  GCA_123  ").unwrap();
    assert_eq!(p.db, "GCA");
    assert_eq!(p.number, "123");
    let p = parse_accession("\u{3000}GCA_7\u{a0}").unwrap();
    assert_eq!(p.number, "7");
    let p = parse_accession("GCA_12_34.5").unwrap();
    assert_eq!(p.db, "GCA");
    assert_eq!(p.number, "12_34");
    assert!(parse_accession("GCA-123").is_none());
}

#[test]
fn sharded_path_groups_by_three() {
    assert_eq!(number_path("12345"), "123/45");
    assert_eq!(number_path("123456"), "123/456");
    assert_eq!(number_path("000001405"), "000/001/405");
    assert_eq!(number_path("1"), "1");
    assert_eq!(number_path(""), "");
}

#[test]
fn directory_url_joins_root_namespace_and_shards() {
    let p = parse_accession("GCF_000001405.40").unwrap();
    assert_eq!(
        directory_url(&p),
        "https://ftp.ncbi.nlm.nih.gov/genomes/all/GCF/000/001/405"
    );
    let q = start_resolution("GCF_000001405.40").unwrap();
    assert_eq!(q.url, "https://ftp.ncbi.nlm.nih.gov/genomes/all/GCF/000/001/405");
    assert_eq!(q.accession, "GCF_000001405.40");
}

#[test]
fn first_matching_entry_is_chosen_without_slash() {
    let q = start_resolution("GCF_000001405.40").unwrap();
    let body = listing(&["GCF_000001405.40_GRCh38.p14/", "GCF_000001406.1_Other/"]);
    let r = resolve_listing(&q, &ListingResponse::Page { status: 200, body }).unwrap();
    assert_eq!(r.name, "GCF_000001405.40_GRCh38.p14");
    assert_eq!(
        r.url,
        "https://ftp.ncbi.nlm.nih.gov/genomes/all/GCF/000/001/405/GCF_000001405.40_GRCh38.p14"
    );
}

#[test]
fn first_of_two_matches_wins() {
    let q = start_resolution("GCA_000001405.1").unwrap();
    let body = listing(&["../", "GCA_000001405.1_A/", "GCA_000001405.2_B/"]);
    let r = resolve_listing(&q, &ListingResponse::Page { status: 200, body }).unwrap();
    assert_eq!(r.name, "GCA_000001405.1_A");
}

#[test]
fn missing_entry_differs_from_unavailable_directory() {
    let q = start_resolution("GCF_000001405.40").unwrap();
    let missing = resolve_listing(&q, &ListingResponse::Page { status: 404, body: String::new() });
    assert_eq!(
        missing.err(),
        Some(ResolutionError::DirectoryUnavailable { url: q.url.clone(), status: 404 })
    );
    let body = listing(&["GCF_000001406.1_Other/", "GCA_000001405.40_X/"]);
    let none = resolve_listing(&q, &ListingResponse::Page { status: 200, body });
    assert_eq!(none.err(), Some(ResolutionError::NoMatch("GCF_000001405.40".to_string())));
    let empty = resolve_listing(&q, &ListingResponse::Page { status: 200, body: String::new() });
    assert_eq!(empty.err(), Some(ResolutionError::NoMatch("GCF_000001405.40".to_string())));
    let down = resolve_listing(&q, &ListingResponse::Unreachable);
    assert_eq!(down.err(), Some(ResolutionError::DirectoryUnreachable { url: q.url.clone() }));
}

#[test]
fn success_statuses_are_2xx() {
    assert!(is_success(200));
    assert!(is_success(299));
    assert!(!is_success(199));
    assert!(!is_success(300));
    assert!(!is_success(404));
}

#[test]
fn entry_name_reads_inside_the_quotes() {
    assert_eq!(entry_name("href=\"GCF_1.1_X/\"").as_deref(), Some("GCF_1.1_X"));
    assert_eq!(entry_name("href=\"plain\"").as_deref(), Some("plain"));
    assert_eq!(entry_name("href=\"\"").as_deref(), Some(""));
    assert_eq!(entry_name("<b>"), None);
    assert_eq!(entry_name("<a href=\"x\""), None);
}

#[test]
fn name_matching_uses_the_second_field_only() {
    assert!(name_matches("GCF_000001405.40_GRCh38.p14", "GCF", "000001405"));
    assert!(!name_matches("GCF_000001406.1_Other", "GCF", "000001405"));
    assert!(!name_matches("GCA_000001405.1_X", "GCF", "000001405"));
    assert!(!name_matches("GCF", "GCF", ""));
    assert!(!name_matches("GCF_X_000001405", "GCF", "000001405"));
}

#[test]
fn select_entry_reads_regex_matches() {
    let ms = vec![
        "href=\"../\"".to_string(),
        "href=\"GCF_9_a/\"".to_string(),
        "href=\"GCF_9_b/\"".to_string(),
    ];
    assert_eq!(select_entry(&ms, "GCF", "9").as_deref(), Some("GCF_9_a"));
    assert_eq!(select_entry(&ms, "GCF", "8"), None);
    assert_eq!(select_entry(&Vec::new(), "GCF", "9"), None);
}

#[test]
fn any_href_attribute_names_an_entry() {
    let q = start_resolution("GCF_000001405.40").unwrap();
    let body = "<link href=\"GCF_000001405.40_A/\"><a class=\"x\" href=\"GCF_000001405.40_B/\">".to_string();
    let r = resolve_listing(&q, &ListingResponse::Page { status: 200, body }).unwrap();
    assert_eq!(r.name, "GCF_000001405.40_A");
}
