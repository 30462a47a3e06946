//! Tests for the string helpers, the CSV text layer and the static tables.

use sfhs_migrate::auth::generate_auth_url;
use sfhs_migrate::auth::generate_state;
use sfhs_migrate::auth::needs_refresh;
use sfhs_migrate::csvtext::column_index;
use sfhs_migrate::csvtext::encode_row;
use sfhs_migrate::csvtext::parse_csv;
use sfhs_migrate::csvtext::table;
use sfhs_migrate::csvtext::CsvError;
use sfhs_migrate::executor::safe_file_name;
use sfhs_migrate::executor::upload_path;
use sfhs_migrate::object_types::build_record_url;
use sfhs_migrate::object_types::get_association_type_id;
use sfhs_migrate::object_types::get_object_type_id;
use sfhs_migrate::strutil::ascii_lowercase;
use sfhs_migrate::strutil::format_date;
use sfhs_migrate::strutil::id_prefix;
use sfhs_migrate::strutil::str_le;
use sfhs_migrate::strutil::tail_after_last;
use sfhs_migrate::strutil::trim_ws;
use sfhs_migrate::strutil::usize_to_string;

#[test]
fn parse_csv_plain_rows() {
    let rows = parse_csv("a,b\n1,2\n3,4\n");
    assert_eq!(rows.len(), 3);
    assert_eq!(rows[0], vec!["a".to_string(), "b".to_string()]);
    assert_eq!(rows[2], vec!["3".to_string(), "4".to_string()]);
}

#[test]
fn parse_csv_quoted_fields() {
    let rows = parse_csv("h1,h2\n\"a,b\",\"say \"\"hi\"\"\"\n");
    assert_eq!(rows.len(), 2);
    assert_eq!(rows[1][0], "a,b");
    assert_eq!(rows[1][1], "say \"hi\"");
}

#[test]
fn parse_csv_quoted_newline_and_crlf() {
    let rows = parse_csv("h1,h2\r\n\"line1\nline2\",x\r\n");
    assert_eq!(rows.len(), 2);
    assert_eq!(rows[1][0], "line1\nline2");
    assert_eq!(rows[1][1], "x");
}

#[test]
fn parse_csv_skips_blank_lines_and_final_row_without_newline() {
    let rows = parse_csv("h\n\n\nv");
    assert_eq!(rows.len(), 2);
    assert_eq!(rows[1][0], "v");
}

#[test]
fn table_rejects_ragged_rows() {
    let r = table("a,b\n1,2,3\n");
    assert_eq!(r.err().unwrap(), CsvError::UnequalRowLength);
    let r2 = table("");
    assert_eq!(r2.err().unwrap(), CsvError::MissingHeader);
}

#[test]
fn column_index_finds_first_occurrence() {
    let t = table("x,y,x\n1,2,3\n").unwrap();
    assert_eq!(column_index(&t.header, "x"), Some(0));
    assert_eq!(column_index(&t.header, "y"), Some(1));
    assert_eq!(column_index(&t.header, "z"), None);
}

#[test]
fn encode_row_quotes_only_when_needed() {
    let row = vec![
        "plain".to_string(),
        "with,comma".to_string(),
        "with \"quote\"".to_string(),
    ];
    assert_eq!(
        encode_row(&row),
        "plain,\"with,comma\",\"with \"\"quote\"\"\""
    );
}

#[test]
fn prefix_of_short_and_long_ids() {
    assert_eq!(id_prefix("0015j00000abc"), Some("001".to_string()));
    assert_eq!(id_prefix("ab"), None);
}

#[test]
fn lowercase_and_trim() {
    assert_eq!(ascii_lowercase("Report.PDF"), "report.pdf");
    assert_eq!(trim_ws("  001abc \t"), "001abc");
    assert_eq!(trim_ws(" \t "), "");
}

#[test]
fn string_order_is_lexicographic() {
    assert!(str_le("2023-01-01", "2023-01-02"));
    assert!(!str_le("2023-01-02", "2023-01-01"));
    assert!(str_le("abc", "abc"));
}

#[test]
fn decimal_rendering() {
    assert_eq!(usize_to_string(0), "0");
    assert_eq!(usize_to_string(42), "42");
    assert_eq!(usize_to_string(1000), "1000");
}

#[test]
fn date_formatting_truncates_and_rewrites() {
    assert_eq!(
        format_date("2023-01-02T03:04:05.000Z"),
        "2023-01-02 03:04:05"
    );
    assert_eq!(format_date("2023-01-02T03:04:05Z"), "2023-01-02 03:04:05");
}

#[test]
fn tail_after_last_slash() {
    assert_eq!(tail_after_last("dir/sub/file.txt", '/'), "file.txt");
    assert_eq!(tail_after_last("file.txt", '/'), "file.txt");
}

#[test]
fn safe_file_names_lowercase_the_extension() {
    assert_eq!(safe_file_name("Report.PDF", "068V"), "Report_068V.pdf");
    assert_eq!(safe_file_name("README", "068V"), "README_068V");
    assert_eq!(
        upload_path("Report.PDF", "068V"),
        "salesforce/Report_068V.pdf"
    );
}

#[test]
fn object_type_ids_and_associations() {
    assert_eq!(get_object_type_id("contacts"), "0-1");
    assert_eq!(get_object_type_id("companies"), "0-2");
    assert_eq!(get_object_type_id("deals"), "0-3");
    assert_eq!(get_object_type_id("tickets"), "0-5");
    assert_eq!(get_object_type_id("widgets"), "2-widgets");
    assert_eq!(get_association_type_id("contacts"), 202);
    assert_eq!(get_association_type_id("companies"), 190);
    assert_eq!(get_association_type_id("deals"), 214);
    assert_eq!(get_association_type_id("tickets"), 226);
    assert_eq!(get_association_type_id("widgets"), 202);
}

#[test]
fn record_urls_use_the_type_table() {
    assert_eq!(
        build_record_url("app.hubspot.com", "123", "contacts", "42"),
        "https://app.hubspot.com/contacts/123/record/0-1/42"
    );
    assert_eq!(
        build_record_url("app.hubspot.com", "123", "widgets", "42"),
        "https://app.hubspot.com/contacts/123/record/2-widgets/42"
    );
}

#[test]
fn auth_url_is_exact() {
    let url = generate_auth_url("CID", "https://w.example", "STATE");
    assert!(url.starts_with(
        "https://app.hubspot.com/oauth/authorize?client_id=CID&redirect_uri=https://w.example/oauth/callback&scope=oauth%20crm.objects.contacts.read%20"
    ));
    assert!(url.ends_with("%20tickets%20files&state=STATE"));
}

#[test]
fn state_tokens_are_32_alphanumerics() {
    let s = generate_state();
    assert_eq!(s.chars().count(), 32);
    assert!(s.chars().all(|c| c.is_ascii_alphanumeric()));
    // two draws almost surely differ; equality would mean the generator
    // ignores its randomness
    let s2 = generate_state();
    assert!(s != s2 || s.len() == 32);
}

#[test]
fn refresh_is_due_inside_the_buffer() {
    assert!(needs_refresh(Some(1000), 700));
    assert!(!needs_refresh(Some(1000), 699));
    assert!(!needs_refresh(None, 700));
}

#[test]
fn encode_row_quotes_newlines() {
    let row = vec!["a\nb".to_string(), "c".to_string()];
    assert_eq!(encode_row(&row), "\"a\nb\",c");
}

#[test]
fn quote_inside_unquoted_field_is_literal() {
    let rows = parse_csv("h\nsay \"hi\"\n");
    assert_eq!(rows[1][0], "say \"hi\"");
}
