use rlr::error::Error;
use rlr::request::{
    create_url, extract_token_from_html, extract_url_number, format_cookie_header,
    is_login_successful, is_natural_number, parse_cookie_lines, resolve_problem_url,
    valid_problem_url,
};

fn cookie_file_lines() -> Vec<String> {
    vec!["recursion_session=recursion_session".to_string(), "XSRF-TOKEN=xsrf-token".to_string()]
}

#[test]
fn test_create_url() {
    let num_str = "1";
    let actual = create_url(num_str);

    let expected = "https://recursionist.io/dashboard/problems/1";

    assert_eq!(actual, expected);
}

#[test]
fn test_is_natural_number() {
    let num_str = "1";

    assert!(is_natural_number(num_str));

    let num_str = "-1";

    assert!(!is_natural_number(num_str));

    let num_str = "0";

    assert!(is_natural_number(num_str));

    let num_str = "1.5";

    assert!(!is_natural_number(num_str));
}

#[test]
fn natural_number_edges() {
    assert!(is_natural_number("4294967295"));
    assert!(!is_natural_number("4294967296"));
    assert!(!is_natural_number("99999999999999999999999"));
    assert!(is_natural_number("+7"));
    assert!(is_natural_number("007"));
    assert!(!is_natural_number("+"));
    assert!(!is_natural_number(""));
    assert!(!is_natural_number(" 1"));
}

#[test]
fn request_test_load_cookies() {
    let actual = parse_cookie_lines(&cookie_file_lines()).unwrap();

    let expected = vec![
        ("recursion_session".to_string(), "recursion_session".to_string()),
        ("XSRF-TOKEN".to_string(), "xsrf-token".to_string()),
    ];

    assert_eq!(actual, expected);
}

#[test]
fn request_test_format_cookie_header() {
    let cookies = parse_cookie_lines(&cookie_file_lines()).unwrap();

    let actual = format_cookie_header(cookies);

    let expected = "recursion_session=recursion_session; XSRF-TOKEN=xsrf-token";

    assert_eq!(actual, expected);
}

#[test]
fn cookie_lines_are_trimmed_and_split_at_first_equals() {
    let lines = vec![" a = b=c ".to_string()];
    assert_eq!(parse_cookie_lines(&lines).unwrap(), vec![("a".to_string(), "b=c".to_string())]);
}

#[test]
fn cookie_line_without_equals_is_malformed() {
    let lines = vec!["a=1".to_string(), "broken".to_string(), "nope".to_string()];
    assert_eq!(parse_cookie_lines(&lines), Err(Error::MalformedCookie("broken".to_string())));
}

#[test]
fn cookie_header_uses_last_value_and_skips_missing() {
    let lines = vec![
        "XSRF-TOKEN=old".to_string(),
        "other=1".to_string(),
        "XSRF-TOKEN=new".to_string(),
    ];
    let cookies = parse_cookie_lines(&lines).unwrap();
    assert_eq!(format_cookie_header(cookies), "XSRF-TOKEN=new");
    assert_eq!(format_cookie_header(Vec::new()), "");
}

#[test]
fn test_is_login_successful() {
    let location = "https://recursionist.io/dashboard";

    assert!(is_login_successful(location));

    let wrong_location = "https://recursionist.io/";

    assert!(!is_login_successful(wrong_location));
}

#[test]
fn test_valid_problem_url() {
    let url = "https://recursionist.io/dashboard/problems/1";

    assert!(valid_problem_url(url).unwrap());

    let url = "https://recursionist.io/dashboard/problems/1000";

    assert!(valid_problem_url(url).unwrap());

    let url = "https://example.com/dashboard/problems/1";

    assert!(!valid_problem_url(url).unwrap());

    let url = "123https://recursionist.io/dashboard/problems/1";

    assert!(!valid_problem_url(url).unwrap());

    let url = "https://recursionist.io/dashboard/problems/100.000";

    assert!(!valid_problem_url(url).unwrap());
}

#[test]
fn problem_url_is_trimmed_and_needs_digits() {
    assert!(valid_problem_url("  https://recursionist.io/dashboard/problems/5\n").unwrap());
    assert!(!valid_problem_url("https://recursionist.io/dashboard/problems/").unwrap());
    assert!(valid_problem_url("https://recursionistXio/dashboard/problems/5").unwrap());
}

#[test]
fn extract_number_from_problem_url() {
    assert_eq!(extract_url_number("https://recursionist.io/dashboard/problems/42").unwrap(), "42");
    assert_eq!(extract_url_number("/problems/7").unwrap(), "7");
    assert_eq!(extract_url_number("https://example.com/problems/x42"), Err(Error::UrlIncorrectFormat));
    assert_eq!(extract_url_number("https://example.com/problems/"), Err(Error::UrlIncorrectFormat));
}

#[test]
fn resolve_number_or_address() {
    assert_eq!(resolve_problem_url("12").unwrap(), "https://recursionist.io/dashboard/problems/12");
    assert_eq!(
        resolve_problem_url("https://recursionist.io/dashboard/problems/3").unwrap(),
        "https://recursionist.io/dashboard/problems/3"
    );
    assert_eq!(resolve_problem_url("-1"), Err(Error::UrlIncorrectFormat));
    assert_eq!(resolve_problem_url("https://example.com/"), Err(Error::UrlIncorrectFormat));
}

#[test]
fn token_is_read_from_login_form() {
    let html = r#"<form><input name="email"><input type="hidden" name="_token" value="abc123"></form>"#;
    assert_eq!(extract_token_from_html(html).unwrap(), "abc123");
    let missing = r#"<form><input name="email" value="x"></form>"#;
    assert!(matches!(extract_token_from_html(missing), Err(Error::TokenNotFound(_))));
    let no_value = r#"<input name="_token">"#;
    assert!(matches!(extract_token_from_html(no_value), Err(Error::TokenNotFound(_))));
}

#[test]
fn fetch_test_load_cookies() {
    let actual = parse_cookie_lines(&cookie_file_lines()).unwrap();

    assert_eq!(actual[0], ("recursion_session".to_string(), "recursion_session".to_string()));
    assert_eq!(actual[1], ("XSRF-TOKEN".to_string(), "xsrf-token".to_string()));
}

#[test]
fn fetch_test_format_cookie_header() {
    let cookies = parse_cookie_lines(&cookie_file_lines()).unwrap();

    let actual = format_cookie_header(cookies);

    let expected = "recursion_session=recursion_session; XSRF-TOKEN=xsrf-token";

    assert_eq!(actual, expected);
}
