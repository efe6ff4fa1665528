use bsmcp::bookstack::{
    admin_from_listing, check_addresses, check_content_length, check_fetch_status,
    check_remote_size, choose_source, download_name, export_path, file_name_or_default,
    is_restricted_ip, permissions_path, plan_fetch, plan_fetch_from, retry_step, show_status,
    show_status_with, take_error_chunk, BookStackClient, ContentType, CredentialCheck,
    ExportFormat, FileSource, IpAddress, ResolvedAddress, RetryStep, UrlParts,
    MAX_ERROR_BODY_SIZE,
};

#[test]
fn only_401_and_403_are_credential_rejections() {
    for status in [401u16, 403] {
        assert!(
            matches!(CredentialCheck::from_error_status(status), CredentialCheck::Rejected(_)),
            "{status} should be Rejected"
        );
    }
}

#[test]
fn upstream_failures_are_not_credential_rejections() {
    for status in [500u16, 502, 503, 504, 429, 404] {
        assert!(
            matches!(CredentialCheck::from_error_status(status), CredentialCheck::Unavailable(_)),
            "{status} must not be reported as a credential failure"
        );
    }
}

#[test]
fn the_reason_phrase_is_shown() {
    assert_eq!(show_status(404), "404 Not Found");
    assert_eq!(show_status(799), "799 <unknown status code>");
    assert_eq!(show_status_with(200, Some("Fine")), "200 Fine");
    match CredentialCheck::from_error_status(401) {
        CredentialCheck::Rejected(e) => {
            assert_eq!(e, "BookStack rejected the credentials: 401 Unauthorized")
        }
        _ => panic!("rejected"),
    }
}

#[test]
fn a_success_without_json_is_unavailable() {
    assert!(matches!(CredentialCheck::from_response(200, true), CredentialCheck::Valid));
    assert!(matches!(CredentialCheck::from_response(200, false), CredentialCheck::Unavailable(_)));
    assert!(matches!(CredentialCheck::from_response(403, true), CredentialCheck::Rejected(_)));
}

#[test]
fn path_names_are_checked() {
    assert!(matches!(ExportFormat::parse_str("markdown"), Ok(ExportFormat::Markdown)));
    assert_eq!(
        ExportFormat::parse_str("pdf").err().unwrap(),
        "Invalid export format: 'pdf'. Must be one of: markdown, plaintext, html"
    );
    assert!(matches!(ContentType::parse_str("shelf"), Ok(ContentType::Shelf)));
    assert_eq!(
        ContentType::parse_str("wall").err().unwrap(),
        "Invalid content type: 'wall'. Must be one of: page, chapter, book, shelf"
    );
    assert_eq!(export_path("pages", 7, ExportFormat::Html), "pages/7/export/html");
    assert_eq!(permissions_path(ContentType::Book, 3), "content-permissions/book/3");
}

#[test]
fn a_client_knows_its_addresses_and_forgets_its_token() {
    let mut client = BookStackClient::new("https://wiki.example.com//", "id", "secret");
    assert_eq!(client.base_url(), "https://wiki.example.com");
    assert_eq!(client.api_url("books"), "https://wiki.example.com/api/books");
    assert_eq!(client.auth_header(), "Token id:secret");
    client.wipe();
    assert_eq!(client.token_id(), "");
    assert_eq!(client.auth_header(), "Token :");
}

#[test]
fn a_refusal_means_no_administrator() {
    assert_eq!(admin_from_listing(None), Ok(true));
    assert_eq!(admin_from_listing(Some("BookStack API error: 403 Forbidden")), Ok(false));
    assert_eq!(admin_from_listing(Some("Access FORBIDDEN")), Ok(false));
    assert_eq!(admin_from_listing(Some("Request failed")), Err("Request failed".to_string()));
}

#[test]
fn large_responses_are_refused() {
    assert_eq!(check_content_length(Some(10), 10), Ok(()));
    assert_eq!(check_content_length(None, 10), Ok(()));
    assert_eq!(
        check_content_length(Some(11), 10),
        Err("Response too large: 11 bytes".to_string())
    );
    let mut buf = vec![0u8; MAX_ERROR_BODY_SIZE - 2];
    assert!(take_error_chunk(&mut buf, &[1]));
    assert!(!take_error_chunk(&mut buf, &[2, 3]));
    assert_eq!(buf.len(), MAX_ERROR_BODY_SIZE);
    assert_eq!(buf[MAX_ERROR_BODY_SIZE - 1], 2);
}

#[test]
fn only_load_refusals_are_retried() {
    assert!(matches!(retry_step(0, 200, None, 0), RetryStep::Deliver));
    assert!(matches!(
        retry_step(1, 429, Some("12"), 77),
        RetryStep::Wait { secs: 12, millis: 77 }
    ));
    assert!(matches!(
        retry_step(2, 429, Some("soon"), 1),
        RetryStep::Wait { secs: 0, millis: 2001 }
    ));
    match retry_step(3, 429, None, 0) {
        RetryStep::GiveUp(e) => assert_eq!(e, "BookStack API error: 429 Too Many Requests"),
        _ => panic!("gives up"),
    }
}

#[test]
fn private_addresses_are_restricted() {
    for ip in [
        [127, 0, 0, 1],
        [10, 1, 2, 3],
        [172, 16, 0, 1],
        [192, 168, 1, 1],
        [169, 254, 169, 254],
        [255, 255, 255, 255],
        [0, 0, 0, 0],
        [100, 64, 0, 1],
    ] {
        assert!(is_restricted_ip(&IpAddress::V4(ip)), "{ip:?}");
    }
    for ip in [[8, 8, 8, 8], [172, 32, 0, 1], [100, 128, 0, 1]] {
        assert!(!is_restricted_ip(&IpAddress::V4(ip)), "{ip:?}");
    }
    assert!(is_restricted_ip(&IpAddress::V6([0, 0, 0, 0, 0, 0, 0, 1])));
    assert!(is_restricted_ip(&IpAddress::V6([0xfe80, 0, 0, 0, 0, 0, 0, 1])));
    assert!(is_restricted_ip(&IpAddress::V6([0xfd00, 0, 0, 0, 0, 0, 0, 1])));
    assert!(!is_restricted_ip(&IpAddress::V6([0x2001, 0xdb8, 0, 0, 0, 0, 0, 1])));
}

#[test]
fn files_come_from_one_place() {
    assert!(matches!(choose_source(Some("a"), None), Ok(FileSource::Path("a"))));
    assert!(matches!(choose_source(None, Some("b")), Ok(FileSource::Address("b"))));
    assert_eq!(
        choose_source(Some("a"), Some("b")).err().unwrap(),
        "Provide either file_path or url, not both"
    );
    assert_eq!(
        choose_source(None, None).err().unwrap(),
        "Either file_path or url is required"
    );
    assert_eq!(file_name_or_default(None), "file");
    assert_eq!(file_name_or_default(Some("x.png")), "x.png");
}

#[test]
fn addresses_are_planned() {
    let target = plan_fetch("https://example.com/a/b.png?x=1").unwrap();
    assert_eq!((target.host.as_str(), target.port), ("example.com", 443));
    let target = plan_fetch("http://example.com:8080/").unwrap();
    assert_eq!((target.host.as_str(), target.port), ("example.com", 8080));
    assert_eq!(
        plan_fetch("ftp://example.com/").err().unwrap(),
        "URL scheme 'ftp' is not allowed; only http and https are permitted"
    );
    assert!(plan_fetch("no url").err().unwrap().starts_with("Invalid URL 'no url': "));
    let parts = UrlParts { scheme: "http".to_string(), host: None, port: None };
    assert_eq!(
        plan_fetch_from("http:///", Ok(parts)).err().unwrap(),
        "URL 'http:///' has no host"
    );
    let parts = UrlParts { scheme: "http".to_string(), host: Some("h".to_string()), port: None };
    assert_eq!(plan_fetch_from("http://h", Ok(parts)).unwrap().port, 80);
}

#[test]
fn a_host_with_one_private_address_is_refused() {
    let public = |s: &str| ResolvedAddress {
        ip: IpAddress::V4([8, 8, 8, 8]),
        shown: s.to_string(),
    };
    let private = ResolvedAddress {
        ip: IpAddress::V4([10, 0, 0, 1]),
        shown: "10.0.0.1".to_string(),
    };
    assert_eq!(check_addresses("h", &vec![public("8.8.8.8")]), Ok(()));
    assert_eq!(
        check_addresses("h", &vec![]),
        Err("Host 'h' resolved to no addresses".to_string())
    );
    assert_eq!(
        check_addresses("h", &vec![public("8.8.8.8"), private]),
        Err("URL host 'h' resolves to restricted IP address 10.0.0.1; private, loopback, and link-local addresses are not allowed".to_string())
    );
}

#[test]
fn downloads_are_checked_and_named() {
    assert_eq!(check_remote_size(52_428_800), Ok(()));
    assert_eq!(
        check_remote_size(52_428_801),
        Err("Remote file too large: 52428801 bytes (limit 52428800)".to_string())
    );
    assert_eq!(check_fetch_status(204), Ok(()));
    assert_eq!(
        check_fetch_status(500),
        Err("URL returned status 500 Internal Server Error".to_string())
    );
    assert_eq!(download_name("https://e.com/a/b.png?x=1"), "b.png");
    assert_eq!(download_name("https://e.com/"), "download");
}
