use watson::router::fill_url_template;
use watson::text::{contains_ignoring_case, decimal_text, signed_decimal_text};

#[test]
fn decimal_writing() {
    assert_eq!(decimal_text(0), "0");
    assert_eq!(decimal_text(1234567890), "1234567890");
    assert_eq!(decimal_text(u64::MAX), u64::MAX.to_string());
    assert_eq!(signed_decimal_text(-7), "-7");
    assert_eq!(signed_decimal_text(i64::MIN), i64::MIN.to_string());
}

#[test]
fn case_insensitive_containment() {
    assert!(contains_ignoring_case("LockScreen", "KSCR"));
    assert!(contains_ignoring_case("ÉTÉ", "été"));
    assert!(!contains_ignoring_case("lock", "unlock"));
    assert!(contains_ignoring_case("anything", ""));
}

#[test]
fn url_template_filling() {
    assert_eq!(fill_url_template("https://x/?q={query}", &None, "a%20b"), "https://x/?q=a%20b");
    assert_eq!(
        fill_url_template("https://{instance}.example/{query}/{query}", &Some("acme".to_string()), "t"),
        "https://acme.example/t/t"
    );
    assert_eq!(
        fill_url_template("https://{instance}.example/{query}", &None, "t"),
        "https://{instance}.example/t"
    );
}
