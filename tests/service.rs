use st3_cursor_color::service::{
    bin_fields, bin_url, decimal_string, join_bin_url, parse_method, remind_params, resource_url, upload_fields, Method,
};

fn pairs(v: &[(&str, &str)]) -> Vec<(String, String)> {
    v.iter().map(|(k, x)| (k.to_string(), x.to_string())).collect()
}

#[test]
fn methods_by_name() {
    assert_eq!(parse_method("GET"), Some(Method::Get));
    assert_eq!(parse_method("POST"), Some(Method::Post));
    assert_eq!(parse_method("PUT"), Some(Method::Put));
    assert_eq!(parse_method("PATCH"), Some(Method::Patch));
    assert_eq!(parse_method("DELETE"), Some(Method::Delete));
    assert_eq!(parse_method("get"), None);
    assert_eq!(parse_method(""), None);
    assert_eq!(parse_method("GETS"), None);
}

#[test]
fn resource_url_joins_with_slash() {
    assert_eq!(resource_url("https://ameo.link", "upload"), "https://ameo.link/upload");
}

#[test]
fn decimal_forms() {
    assert_eq!(decimal_string(0), "0");
    assert_eq!(decimal_string(-1), "-1");
    assert_eq!(decimal_string(42), "42");
    assert_eq!(decimal_string(i32::MAX), "2147483647");
    assert_eq!(decimal_string(i32::MIN), "-2147483648");
}

#[test]
fn upload_form_defaults_to_no_expiry() {
    assert_eq!(
        upload_fields(true, false, None, "pw"),
        pairs(&[("expiry", "-1"), ("secret", ""), ("oneTime", "1"), ("password", "pw"), ("source", "at-cli")])
    );
    assert_eq!(
        upload_fields(false, true, Some(3600), "x"),
        pairs(&[("expiry", "3600"), ("secret", "1"), ("oneTime", ""), ("password", "x"), ("source", "at-cli")])
    );
}

#[test]
fn reminder_message_with_and_without_time() {
    assert_eq!(
        remind_params("tomorrow 9am", "call", Some("2024-01-01 10:00:00")),
        pairs(&[("dateString", "tomorrow 9am"), ("message", "call\nSent at 2024-01-01 10:00:00")])
    );
    assert_eq!(remind_params("in 2h", "tea", None), pairs(&[("dateString", "in 2h"), ("message", "tea")]));
}

#[test]
fn bin_object_fields() {
    assert_eq!(
        bin_fields("a.rs", "pw", "fn main() {}", false),
        pairs(&[("source", "at-cli"), ("filename", "a.rs"), ("password", "pw"), ("text", "fn main() {}")])
    );
    assert_eq!(
        bin_fields("a.rs", "pw", "t", true),
        pairs(&[("source", "at-cli"), ("filename", "a.rs"), ("password", "pw"), ("text", "t"), ("secret", "1")])
    );
}

#[test]
fn bin_url_from_refresh_response() {
    let response = "<meta http-equiv=\"refresh\" content=\"0; url=./bin/abc\">";
    assert_eq!(bin_url("https://ameo.link", response), Some("https://ameo.link/bin/abc".to_string()));
    assert_eq!(bin_url("https://ameo.link", "no link here"), None);
    assert_eq!(join_bin_url("https://ameo.link", "/bin/x"), "https://ameo.link/bin/x");
}
