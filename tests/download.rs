use pngme::download::{Download, DownloadError};

#[test]
fn http_and_https_addresses_are_accepted() {
    let d = Download::new("https://www.rust-lang.org/logos/rust-logo-512x512.png").unwrap();
    assert_eq!(d.url(), "https://www.rust-lang.org/logos/rust-logo-512x512.png");
    assert!(Download::new("http://example.com/a.png").is_ok());
}

#[test]
fn other_addresses_are_refused_with_their_text() {
    match Download::new("ftp://example.com/a.png") {
        Err(DownloadError::InvalidUrl(u)) => assert_eq!(u, "ftp://example.com/a.png"),
        other => panic!("unexpected {:?}", other),
    }
}

#[test]
fn scheme_check_decides() {
    assert_eq!(Download::from_scheme_check("x", true).unwrap().url(), "x");
    assert!(matches!(Download::from_scheme_check("x", false), Err(DownloadError::InvalidUrl(_))));
}
