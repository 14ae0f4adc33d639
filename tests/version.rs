use std::convert::{TryFrom, TryInto};

use lite_ws::http::version::{parse_num, parse_version};
use lite_ws::{HttpError, HttpVersion, Protocol};

fn parse(text: &str) -> Result<HttpVersion, HttpError> {
    HttpVersion::try_from(text.to_string())
}

#[test]
fn test_parse_version() {
    let src = "1.0";

    match parse_version(src) {
        Ok((major, minor)) => {
            assert_eq!(major, 1);
            assert_eq!(minor, 0);
        }
        Err(_) => {
            assert!(false);
        }
    }
}

#[test]
fn test_parse_http_version() -> Result<(), HttpError> {
    let src = "HTTP/1.0".to_string();

    let http_version: HttpVersion = src.try_into()?;
    assert_eq!(http_version.protocol, Protocol::HTTP);
    assert_eq!(http_version.major, 1);
    assert_eq!(http_version.minor, 0);

    Ok(())
}

#[test]
fn scheme_tokens_in_any_case() {
    for token in ["http", "Http", "HTTP", "hTtP"] {
        assert_eq!(Protocol::try_from(token.to_string()), Ok(Protocol::HTTP));
    }
    for token in ["HTTPS", "https", "Https", "hTTpS"] {
        assert_eq!(Protocol::try_from(token.to_string()), Ok(Protocol::HTTPS));
    }
}

#[test]
fn scheme_other_tokens_fail() {
    for token in ["ftp", "", "htt", "httpx", "http ", " http", "ws", "httpss"] {
        assert_eq!(
            Protocol::try_from(token.to_string()),
            Err(HttpError::HeaderParseError)
        );
    }
}

#[test]
fn scheme_from_lowercase_is_exact() {
    assert_eq!(Protocol::from_lowercase("http"), Ok(Protocol::HTTP));
    assert_eq!(Protocol::from_lowercase("https"), Ok(Protocol::HTTPS));
    assert_eq!(Protocol::from_lowercase("HTTP"), Err(HttpError::HeaderParseError));
    assert_eq!(Protocol::from_lowercase("Https"), Err(HttpError::HeaderParseError));
    assert_eq!(Protocol::from_lowercase(""), Err(HttpError::HeaderParseError));
}

#[test]
fn number_component_values() {
    assert_eq!(parse_num("0"), Ok(0));
    assert_eq!(parse_num("7"), Ok(7));
    assert_eq!(parse_num("42"), Ok(42));
    assert_eq!(parse_num("255"), Ok(255));
    assert_eq!(parse_num("007"), Ok(7));
}

#[test]
fn number_component_rejects() {
    for text in ["", "256", "1000", "99999999999", "+1", "-1", " 1", "1 ", "1x", "x", "1.5"] {
        assert_eq!(parse_num(text), Err(HttpError::HeaderParseError));
    }
}

#[test]
fn version_pair_every_byte_pair() {
    for a in 0..=255u32 {
        for b in 0..=255u32 {
            let text = format!("{}.{}", a, b);
            assert_eq!(parse_version(&text), Ok((a as u8, b as u8)));
        }
    }
}

#[test]
fn version_pair_out_of_range_or_malformed() {
    for text in ["256.0", "0.256", "300.300", "1", "", ".", "1.", ".1", "1.x", "x.1", "a.b"] {
        assert_eq!(parse_version(text), Err(HttpError::HeaderParseError));
    }
}

#[test]
fn version_pair_ignores_after_second_point() {
    assert_eq!(parse_version("1.0.1"), Ok((1, 0)));
    assert_eq!(parse_version("2.3.x"), Ok((2, 3)));
}

#[test]
fn round_trip_normalizes_case() {
    let v = parse("HTTP/1.0").unwrap();
    assert_eq!(v.to_string(), "Http/1.0");
}

#[test]
fn boundary_versions() {
    assert_eq!(parse("http/0.0"), Ok(HttpVersion::new(Protocol::HTTP, 0, 0)));
    assert_eq!(parse("http/256.0"), Err(HttpError::HeaderParseError));
    assert_eq!(parse("http/1"), Err(HttpError::HeaderParseError));
    assert_eq!(parse("/1.0"), Err(HttpError::HeaderParseError));
    assert_eq!(parse("http/1.0.1"), Ok(HttpVersion::new(Protocol::HTTP, 1, 0)));
}

#[test]
fn missing_slash_or_version_fails() {
    for text in ["http", "http1.0", "", "http/", "/", "https/.0"] {
        assert_eq!(parse(text), Err(HttpError::HeaderParseError));
    }
}

#[test]
fn version_part_ends_at_next_slash() {
    assert_eq!(parse("http/1.1/x"), Ok(HttpVersion::new(Protocol::HTTP, 1, 1)));
}

#[test]
fn second_cycle_is_stable() {
    let first = parse("Http/1.0").unwrap().to_string();
    let second = parse(&first).unwrap().to_string();
    assert_eq!(first, "Http/1.0");
    assert_eq!(second, first);
}

#[test]
fn written_form_parses_back() {
    for protocol in [Protocol::HTTP, Protocol::HTTPS] {
        for major in [0u8, 1, 9, 10, 99, 100, 200, 255] {
            for minor in [0u8, 5, 10, 42, 101, 255] {
                let v = HttpVersion::new(protocol, major, minor);
                assert_eq!(parse(&v.to_string()), Ok(v));
            }
        }
    }
}

#[test]
fn written_form_values() {
    assert_eq!(HttpVersion::new(Protocol::HTTP, 0, 7).to_string(), "Http/0.7");
    assert_eq!(HttpVersion::new(Protocol::HTTPS, 255, 10).to_string(), "Https/255.10");
    assert_eq!(HttpVersion::new(Protocol::HTTP, 1, 100).to_string(), "Http/1.100");
}

#[test]
fn scenario_http_1_0() {
    let v = parse("HTTP/1.0").unwrap();
    assert_eq!(v, HttpVersion::new(Protocol::HTTP, 1, 0));
    assert_eq!(v.to_string(), "Http/1.0");
}

#[test]
fn scenario_https_2_0() {
    assert_eq!(parse("https/2.0"), Ok(HttpVersion::new(Protocol::HTTPS, 2, 0)));
}

#[test]
fn scenario_unknown_scheme() {
    assert_eq!(parse("ftp/1.0"), Err(HttpError::HeaderParseError));
}

#[test]
fn scenario_non_numeric_minor() {
    assert_eq!(parse("http/1.x"), Err(HttpError::HeaderParseError));
}

#[test]
fn new_keeps_fields() {
    let v = HttpVersion::new(Protocol::HTTPS, 3, 4);
    assert_eq!(v.protocol, Protocol::HTTPS);
    assert_eq!(v.major, 3);
    assert_eq!(v.minor, 4);
}
