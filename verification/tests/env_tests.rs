use darkheim_launcher::env::{credentials_from_vars, parse_sftp_host};

fn ok(host: &str, port: u16) -> Result<(String, u16), String> {
    Ok((host.to_string(), port))
}

#[test]
fn host_with_scheme_and_port() {
    assert_eq!(parse_sftp_host("sftp://example.org:2222"), ok("example.org", 2222));
    assert_eq!(parse_sftp_host("ssh://example.org:22"), ok("example.org", 22));
    assert_eq!(parse_sftp_host("ftp://10.0.0.1:2022"), ok("10.0.0.1", 2022));
}

#[test]
fn host_without_port_uses_22() {
    assert_eq!(parse_sftp_host("example.org"), ok("example.org", 22));
    assert_eq!(parse_sftp_host("  sftp://example.org \n"), ok("example.org", 22));
    assert_eq!(parse_sftp_host(""), ok("", 22));
}

#[test]
fn only_one_scheme_is_removed() {
    assert_eq!(parse_sftp_host("sftp://ssh://h:22"), ok("ssh://h", 22));
    assert_eq!(parse_sftp_host("sftp://ssh://h"), Err("Invalid SFTP port: //h".to_string()));
}

#[test]
fn port_follows_last_colon() {
    assert_eq!(parse_sftp_host("[::1]:2200"), ok("[::1]", 2200));
}

#[test]
fn invalid_port_is_reported() {
    assert_eq!(
        parse_sftp_host("example.org:abc"),
        Err("Invalid SFTP port: abc".to_string())
    );
    assert_eq!(parse_sftp_host("example.org:"), Err("Invalid SFTP port: ".to_string()));
    assert_eq!(
        parse_sftp_host("example.org:70000"),
        Err("Invalid SFTP port: 70000".to_string())
    );
}

#[test]
fn missing_variables_are_reported_in_order() {
    let s = |v: &str| Some(v.to_string());
    let e = credentials_from_vars(None, None, None).err();
    assert_eq!(e, Some("SFTP_HOST not set".to_string()));
    let e = credentials_from_vars(s("h"), None, None).err();
    assert_eq!(e, Some("SFTP_USER not set".to_string()));
    let e = credentials_from_vars(s("h"), s("u"), None).err();
    assert_eq!(e, Some("SFTP_PASSWORD not set".to_string()));
    let e = credentials_from_vars(s("h:x"), s("u"), s("p")).err();
    assert_eq!(e, Some("Invalid SFTP port: x".to_string()));
}

#[test]
fn credentials_are_built() {
    let c = credentials_from_vars(
        Some(" sftp://files.example.org:2222 ".to_string()),
        Some("alice".to_string()),
        Some("SECRET-REDACTED".to_string()),
    )
    .ok()
    .unwrap();
    assert_eq!(c.host, "files.example.org");
    assert_eq!(c.port, 2222);
    assert_eq!(c.user, "alice");
    assert_eq!(c.password, "SECRET-REDACTED");
}

#[test]
fn scheme_does_not_change_the_outcome() {
    for rest in ["example.org:2222", "example.org", "h:x", ""] {
        let plain = parse_sftp_host(rest);
        for scheme in ["sftp://", "ssh://", "ftp://"] {
            assert_eq!(parse_sftp_host(&format!("{}{}", scheme, rest)), plain);
        }
    }
}

#[test]
fn host_and_port_round_trip() {
    for (host, port) in [("a.b", 0u16), ("  sftp://h", 65535), ("[::1]", 22), ("", 7)] {
        let expected = host.trim_start();
        let expected = expected.strip_prefix("sftp://").unwrap_or(expected);
        assert_eq!(
            parse_sftp_host(&format!("{}:{}", host, port)),
            Ok((expected.to_string(), port))
        );
    }
}
