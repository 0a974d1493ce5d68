use rlr::login::{accept_email, valid_email};

#[test]
fn test_valid_email() {
    let email = "email@example.com";

    assert!(valid_email(email).unwrap());
}

#[test]
fn test_valid_email_with_wrong_email() {
    let wrong_email = "email.example.com";
    assert!(!valid_email(wrong_email).unwrap());
}

#[test]
fn email_shapes() {
    assert!(valid_email("a@b.c").unwrap());
    assert!(valid_email("a.b@c.d.e").unwrap());
    assert!(!valid_email("@b.c").unwrap());
    assert!(!valid_email("a@.c").unwrap());
    assert!(!valid_email("a@b.").unwrap());
    assert!(!valid_email("a@b@c.d").unwrap());
    assert!(!valid_email("a b@c.d").unwrap());
    assert!(!valid_email("").unwrap());
}

#[test]
fn accept_email_trims_the_line() {
    assert_eq!(accept_email("  me@example.com\n"), Some("me@example.com".to_string()));
    assert_eq!(accept_email("me at example\n"), None);
}
