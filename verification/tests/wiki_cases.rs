use tidydog::wiki::{
    days_in_month, days_in_year, days_to_ymd, file_page_text, index_text, is_leap, log_text,
    page_file_name, parse_tags_for_wiki, parse_tags_json, unix_secs_to_iso, wiki_dir, IndexRow, LogRow,
};

#[test]
fn leap_years() {
    assert!(is_leap(2000));
    assert!(is_leap(2024));
    assert!(!is_leap(1900));
    assert!(!is_leap(2023));
    assert_eq!(days_in_year(2000), 366);
    assert_eq!(days_in_year(2001), 365);
}

#[test]
fn month_lengths() {
    assert_eq!(days_in_month(2024, 2), 29);
    assert_eq!(days_in_month(2023, 2), 28);
    assert_eq!(days_in_month(2023, 4), 30);
    assert_eq!(days_in_month(2023, 12), 31);
    assert_eq!(days_in_month(2023, 13), 30);
}

#[test]
fn calendar_dates() {
    assert_eq!(days_to_ymd(0), (1970, 1, 1));
    assert_eq!(days_to_ymd(31), (1970, 2, 1));
    assert_eq!(days_to_ymd(364), (1970, 12, 31));
    assert_eq!(days_to_ymd(365), (1971, 1, 1));
    assert_eq!(days_to_ymd(11016), (2000, 2, 29));
    assert_eq!(days_to_ymd(19675), (2023, 11, 14));
}

#[test]
fn iso_end_of_day_and_leap_day() {
    assert_eq!(unix_secs_to_iso(86_399), "1970-01-01T23:59:59Z");
    assert_eq!(unix_secs_to_iso(951_782_400), "2000-02-29T00:00:00Z");
}

#[test]
fn tags_parsing_variants() {
    assert_eq!(parse_tags_json("  [ \"a\" , \"b\" , \"\" ]  "), "a, b");
    assert_eq!(parse_tags_json("[[\"x\"]]"), "x");
    assert_eq!(parse_tags_for_wiki(r#"["세금","tax"]"#), vec!["세금".to_string(), "tax".to_string()]);
    assert_eq!(parse_tags_for_wiki("   "), Vec::<String>::new());
    assert_eq!(parse_tags_for_wiki(" solo "), vec!["solo".to_string()]);
}

#[test]
fn tags_display_joins_the_listed_tags() {
    let s = r#"["a","b","c"]"#;
    assert_eq!(parse_tags_json(s), parse_tags_for_wiki(s).join(", "));
}

#[test]
fn wiki_paths() {
    assert_eq!(wiki_dir("/root"), "/root/.tidydog/wiki");
    assert_eq!(wiki_dir("/root/"), "/root/.tidydog/wiki");
    assert_eq!(page_file_name("abc123"), "abc123.md");
}

#[test]
fn test_write_file_wiki_page_text() {
    let tags = vec!["세금".to_string(), "tax".to_string()];
    let page = file_page_text(
        "invoice.pdf",
        "/home/user/invoice.pdf",
        Some("An invoice document"),
        &tags,
        Some("ko"),
        Some("문서/세금"),
        Some(1_700_000_000),
    );
    assert_eq!(
        page,
        "# invoice.pdf\n\n**Path:** `/home/user/invoice.pdf`  \n**Summary:** An invoice document  \n**Tags:** 세금, tax  \n**Language:** ko  \n**Proposed destination:** 문서/세금  \n**Indexed:** 2023-11-14T22:13:20Z  \n"
    );
}

#[test]
fn page_without_optionals_says_not_set() {
    let page = file_page_text("notes.txt", "/tmp/notes.txt", None, &[], None, None, None);
    assert!(page.contains("**Summary:** (not set)"));
    assert!(page.contains("**Tags:**   \n"));
    assert!(page.contains("**Indexed:** (not set)"));
}

#[test]
fn index_rows_escape_pipes() {
    let rows = vec![IndexRow {
        content_hash: "h1".to_string(),
        current_path: "/a/b|c.txt".to_string(),
        summary: "x | y".to_string(),
        topic_tags: "[\"t\"]".to_string(),
        language: "en".to_string(),
        proposed_dest: None,
    }];
    let t = index_text(&rows, "2024-01-01T00:00:00Z");
    assert!(t.starts_with("# TidyDog Index\n\nGenerated: 2024-01-01T00:00:00Z\n\n| File |"));
    assert!(t.ends_with("| [b|c.txt](h1.md) | x \\| y | t | en | (not set) |\n"), "{t}");
}

#[test]
fn empty_index_and_log_have_headers() {
    let i = index_text(&[], "T");
    assert!(i.contains("# TidyDog Index"));
    let l = log_text(&[], "T");
    assert!(l.contains("# TidyDog Operation Log"));
    assert!(l.ends_with("|-------|------|--------|------|----|----------|-----------|\n"));
}

#[test]
fn log_rows_show_pending_and_negative_ids() {
    let rows = vec![LogRow {
        entry_id: -3,
        plan_id: "p".to_string(),
        action: "move".to_string(),
        from_path: "/a".to_string(),
        to_path: "/b".to_string(),
        executed_at: 0,
        completed_at: None,
    }];
    let l = log_text(&rows, "T");
    assert!(l.ends_with("| -3 | p | move | /a | /b | 1970-01-01T00:00:00Z | (pending) |\n"), "{l}");
}
