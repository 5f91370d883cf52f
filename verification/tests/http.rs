use launcher::http::{base_url_of, parse_update_ini, resolve_zip_url};

#[test]
fn parse_basic_manifest() {
    let raw = "[Update]\nversion=3\n1=a.zip\n2=b.zip\n3=c.zip\n";
    let info = parse_update_ini(raw, "http://x/y/Update.ini").unwrap();
    assert_eq!(info.server_version, 3);
    assert_eq!(
        info.zips,
        vec![
            (1, "a.zip".into()),
            (2, "b.zip".into()),
            (3, "c.zip".into())
        ]
    );
}

#[test]
fn parse_sorts_and_dedups() {
    let raw = "[Update]\n3=c.zip\nversion=3\n1=a.zip\n2=b.zip\n2=B.zip\n";
    let info = parse_update_ini(raw, "").unwrap();
    assert_eq!(info.zips.len(), 3);
    assert_eq!(info.zips[0].0, 1);
    assert_eq!(info.zips[1].0, 2);
    assert_eq!(info.zips[2].0, 3);
}

#[test]
fn parse_missing_version_returns_none() {
    let raw = "1=a.zip\n";
    assert!(parse_update_ini(raw, "").is_none());
}

#[test]
fn base_url_strips_filename() {
    assert_eq!(base_url_of("http://x/y/Update.ini"), "http://x/y/");
    assert_eq!(base_url_of("http://x/Update.ini"), "http://x/");
}

#[test]
fn resolve_handles_absolute_and_relative() {
    let base = "http://x/y/";
    assert_eq!(resolve_zip_url(base, "a.zip"), "http://x/y/a.zip");
    assert_eq!(
        resolve_zip_url(base, "http://other/foo.zip"),
        "http://other/foo.zip"
    );
    assert_eq!(
        resolve_zip_url(base, "https://other/foo.zip"),
        "https://other/foo.zip"
    );
}
