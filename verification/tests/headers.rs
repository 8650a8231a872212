use codeg::app_error::AppErrorCode;
use codeg::header::{HeaderPairError, RemoteWorkspaceHeader, ToHeaderMap};
use codeg::validate::{
    accept_base_url, normalize_base_url, validate_headers, validate_name, validate_token,
};

fn header(name: &str, value: &str) -> RemoteWorkspaceHeader {
    RemoteWorkspaceHeader {
        name: name.to_string(),
        value: value.to_string(),
    }
}

#[test]
fn normalize_base_url_trims_and_removes_trailing_slashes() {
    let actual = normalize_base_url("  http://127.0.0.1:3080///  ").unwrap();
    assert_eq!(actual, "http://127.0.0.1:3080");
}

#[test]
fn normalize_base_url_rejects_non_http_schemes() {
    let err = normalize_base_url("file:///tmp/codeg").unwrap_err();
    assert!(err.message.contains("http"));
}

#[test]
fn validate_headers_trims_and_drops_empty_rows() {
    let actual = validate_headers(&[
        header("  CF-Access-Client-Id  ", "  abc123  "),
        header("", ""),
        header("   ", "  "),
    ])
    .unwrap();
    assert_eq!(actual, vec![header("CF-Access-Client-Id", "abc123")]);
}

#[test]
fn validate_headers_keeps_repeated_names_and_order() {
    let input = vec![header("X-Trace", "a"), header("X-Trace", "b")];
    assert_eq!(validate_headers(&input).unwrap(), input);
}

#[test]
fn to_header_map_keeps_repeats_and_skips_unparsable_rows() {
    let map = [
        header("X-Trace", "a"),
        header("X-Trace", "b"),
        header("bad header", "dropped"),
        header("  ", "dropped"),
    ]
    .to_header_map();
    assert_eq!(
        map.get_all("x-trace")
            .iter()
            .map(|v| v.to_str().unwrap())
            .collect::<Vec<_>>(),
        vec!["a", "b"]
    );
    assert_eq!(map.len(), 2);
}

#[test]
fn to_header_map_marks_every_value_sensitive() {
    // A custom header is a credential. Sensitive keeps it out of the HTTP/2
    // HPACK dynamic table and out of any `{:?}` of the request.
    let map = [header("CF-Access-Client-Secret", "s3cret")].to_header_map();
    let value = map.get("cf-access-client-secret").unwrap();
    assert!(value.is_sensitive());
    assert_eq!(format!("{value:?}"), "Sensitive");
}

#[test]
fn validate_headers_rejects_reserved_names() {
    for name in [
        "Authorization",
        "content-type",
        "Transfer-Encoding",
        "Sec-WebSocket-Protocol",
    ] {
        let err = validate_headers(&[header(name, "x")]).unwrap_err();
        assert!(
            err.message.contains("reserved"),
            "expected {name} to be reserved, got {}",
            err.message
        );
    }
}

#[test]
fn validate_headers_rejects_invalid_name_value_and_missing_name() {
    assert!(validate_headers(&[header("bad header", "x")]).is_err());
    assert!(validate_headers(&[header("X-Bad", "line\nbreak")]).is_err());
    assert!(validate_headers(&[header("", "orphan-value")]).is_err());
}

#[test]
fn every_reserved_name_is_refused_in_any_case() {
    for name in [
        "authorization",
        "content-type",
        "content-length",
        "transfer-encoding",
        "host",
        "connection",
        "upgrade",
        "sec-websocket-key",
        "sec-websocket-version",
        "sec-websocket-protocol",
        "sec-websocket-extensions",
    ] {
        for spelling in [name.to_string(), name.to_uppercase()] {
            let err = validate_headers(&[header(&format!(" {spelling} "), "x")]).unwrap_err();
            assert_eq!(err.code, AppErrorCode::InvalidInput);
            assert_eq!(
                err.message,
                format!("Custom header \"{spelling}\" is reserved by Codeg")
            );
            assert_eq!(err.detail, None);
        }
    }
    // A name that only starts like a reserved one is free.
    assert!(validate_headers(&[header("hosts", "x")]).is_ok());
}

#[test]
fn header_errors_say_what_is_wrong() {
    let err = validate_headers(&[header("", "orphan-value")]).unwrap_err();
    assert_eq!(err.message, "Custom header name is required");
    assert_eq!(err.detail, None);

    let err = validate_headers(&[header(" bad header ", "x")]).unwrap_err();
    assert_eq!(err.message, "Custom header \"bad header\" is invalid");
    assert_eq!(err.detail.as_deref(), Some("invalid HTTP header name"));

    let err = validate_headers(&[header("X-Bad", "line\nbreak")]).unwrap_err();
    assert_eq!(err.message, "Custom header \"X-Bad\" is invalid");
    assert_eq!(err.detail.as_deref(), Some("failed to parse header value"));
}

#[test]
fn the_first_bad_row_is_reported() {
    let rows = [
        header("", ""),
        header("X-Good", "1"),
        header("Host", "x"),
        header("bad header", "x"),
    ];
    let err = validate_headers(&rows).unwrap_err();
    assert_eq!(err.message, "Custom header \"Host\" is reserved by Codeg");
}

#[test]
fn a_value_may_be_empty_or_not_ascii() {
    let rows = vec![header("X-Empty", ""), header("X-Name", "J\u{f6}rg\tM")];
    assert_eq!(validate_headers(&rows).unwrap(), rows);
    let map = rows.as_slice().to_header_map();
    assert_eq!(map.get("x-empty").unwrap().as_bytes(), b"");
    assert_eq!(
        map.get("x-name").unwrap().as_bytes(),
        "J\u{f6}rg\tM".as_bytes()
    );
}

#[test]
fn white_space_beyond_ascii_is_trimmed() {
    let rows = [header("\u{a0}X-A\u{2003}", "\u{3000}v\u{85}")];
    assert_eq!(validate_headers(&rows).unwrap(), vec![header("X-A", "v")]);
    // Blank in the same sense.
    assert_eq!(
        validate_headers(&[header("\u{2028}", "\u{a0}")]).unwrap(),
        vec![]
    );
}

#[test]
fn validated_headers_are_valid_again() {
    let rows = [
        header(" X-A ", " 1 "),
        header(" ", ""),
        header("X-B", "  two words "),
    ];
    let once = validate_headers(&rows).unwrap();
    assert_eq!(once, vec![header("X-A", "1"), header("X-B", "two words")]);
    assert_eq!(validate_headers(&once).unwrap(), once);
}

#[test]
fn every_saved_header_goes_out() {
    let rows = [
        header(" X-A ", "1"),
        header("x-a", "2"),
        header("", " "),
        header("X-B", "3"),
    ];
    let map = validate_headers(&rows).unwrap().as_slice().to_header_map();
    let a: Vec<&[u8]> = map.get_all("x-a").iter().map(|v| v.as_bytes()).collect();
    assert_eq!(a, vec![&b"1"[..], &b"2"[..]]);
    assert_eq!(map.get("x-b").unwrap().as_bytes(), b"3");
    assert_eq!(map.len(), 3);
    assert!(map.values().all(|value| value.is_sensitive()));
}

#[test]
fn a_header_pair_is_trimmed_and_lowered() {
    let pair = header("  X-Trace-ID ", "  V  ").to_header_pair().unwrap();
    assert_eq!(pair.name, "x-trace-id");
    assert_eq!(pair.value, b"V".to_vec());
    assert!(pair.sensitive);
}

#[test]
fn a_header_pair_error_tells_name_and_value_apart() {
    let err = header("", "v").to_header_pair().err().unwrap();
    assert_eq!(
        err,
        HeaderPairError::InvalidName("invalid HTTP header name".to_string())
    );
    let err = header("x", "a\u{7f}b").to_header_pair().err().unwrap();
    assert_eq!(
        err,
        HeaderPairError::InvalidValue("failed to parse header value".to_string())
    );
    assert_eq!(err.into_text(), "failed to parse header value");
    // The name is looked at first.
    assert!(matches!(
        header("a b", "c\nd").to_header_pair(),
        Err(HeaderPairError::InvalidName(_))
    ));
}

#[test]
fn the_longest_name_is_the_longest() {
    let longest = "a".repeat(65535);
    assert!(header(&longest, "v").to_header_pair().is_ok());
    let too_long = "a".repeat(65536);
    assert!(header(&too_long, "v").to_header_pair().is_err());
}

#[test]
fn every_name_character_is_accepted_and_no_other() {
    for byte in 0u8..128 {
        let c = byte as char;
        let token = c.is_ascii_alphanumeric() || "!#$%&'*+-.^_`|~".contains(c);
        let name = format!("x{c}x");
        assert_eq!(header(&name, "v").to_header_pair().is_ok(), token, "{c:?}");
    }
}

#[test]
fn a_header_map_reports_that_it_is_full() {
    let few: Vec<RemoteWorkspaceHeader> =
        (0..6000).map(|i| header(&format!("x-{i}"), "v")).collect();
    assert_eq!(few.as_slice().try_to_header_map().unwrap().len(), 6000);
    let many: Vec<RemoteWorkspaceHeader> =
        (0..40000).map(|i| header(&format!("x-{i}"), "v")).collect();
    assert!(many.as_slice().try_to_header_map().is_err());
}

#[test]
fn a_base_url_is_kept_as_typed_but_for_its_ends() {
    assert_eq!(
        normalize_base_url("\tHTTPS://Codeg.Example.com/a//b/ ").unwrap(),
        "HTTPS://Codeg.Example.com/a//b"
    );
    assert_eq!(normalize_base_url("http://x?q=/").unwrap(), "http://x?q=");
}

#[test]
fn a_base_url_that_is_none_is_refused() {
    let err = normalize_base_url("codeg.example.com").unwrap_err();
    assert_eq!(err.code, AppErrorCode::InvalidInput);
    assert_eq!(err.message, "Remote Workspace URL is invalid");
    assert_eq!(
        err.detail.as_deref(),
        Some("relative URL without a base")
    );

    let err = normalize_base_url("ftp://codeg.example.com").unwrap_err();
    assert_eq!(err.message, "Remote Workspace URL must use http or https");
    assert_eq!(err.detail, None);

    // Nothing is left of the slashes, and `http:` alone has no host.
    assert!(normalize_base_url("///").is_err());
    assert_eq!(
        normalize_base_url("http://").unwrap_err().detail.as_deref(),
        Some("empty host")
    );
}

#[test]
fn a_base_url_is_accepted_by_its_scheme() {
    let accept = |scheme: Result<&str, &str>| {
        accept_base_url(
            "text".to_string(),
            scheme.map(str::to_string).map_err(str::to_string),
        )
    };
    assert_eq!(accept(Ok("http")).unwrap(), "text");
    assert_eq!(accept(Ok("https")).unwrap(), "text");
    assert_eq!(
        accept(Ok("ws")).unwrap_err().message,
        "Remote Workspace URL must use http or https"
    );
    let err = accept(Err("why")).unwrap_err();
    assert_eq!(err.message, "Remote Workspace URL is invalid");
    assert_eq!(err.detail.as_deref(), Some("why"));
}

#[test]
fn a_saved_base_url_stays() {
    let once = normalize_base_url(" https://codeg.example.com/base// ").unwrap();
    assert_eq!(once, "https://codeg.example.com/base");
    assert_eq!(normalize_base_url(&once).unwrap(), once);
    // White space in front of the slashes that are cut is left the first time.
    let odd = normalize_base_url("http://x/ /").unwrap();
    assert_eq!(odd, "http://x/ ");
    assert_eq!(normalize_base_url(&odd).unwrap(), "http://x");
}

#[test]
fn names_and_tokens_must_not_be_blank() {
    assert_eq!(validate_name("  Server A ").unwrap(), "Server A");
    assert_eq!(validate_token("\tsecret\n").unwrap(), "secret");
    let err = validate_name(" \u{3000} ").unwrap_err();
    assert_eq!(err.code, AppErrorCode::InvalidInput);
    assert_eq!(err.message, "Remote connection name is required");
    let err = validate_token("").unwrap_err();
    assert_eq!(err.message, "Remote connection token is required");
    assert_eq!(validate_token(&validate_token(" t ").unwrap()).unwrap(), "t");
}

#[test]
fn saved_headers_go_out_as_typed() {
    let typed = [
        header(" X-A ", " 1"),
        header("x-a", "2 "),
        header("", " "),
        header("X-B", ""),
    ];
    let saved = validate_headers(&typed).unwrap();
    let map = typed.as_slice().to_header_map();
    assert_eq!(map, saved.as_slice().to_header_map());
    assert_eq!(map.len(), saved.len());
    assert_eq!(map.keys_len(), 2);
}
