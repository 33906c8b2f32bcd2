use tidydog::organizer::{derive_dest, parse_rules, FileAttrs};

#[test]
fn test_derive_dest_basic() {
    let rules = parse_rules("tag:세금,tax -> 문서/세금\nlang:ko -> 문서/기타\n");
    let attrs = FileAttrs {
        filename: "invoice.pdf",
        ext: "pdf",
        topic_tags: &["세금".to_string()],
        language: "ko",
    };
    assert_eq!(derive_dest(&rules, &attrs), Some("문서/세금".to_string()));

    let attrs2 = FileAttrs { filename: "notes.txt", ext: "txt", topic_tags: &[], language: "ko" };
    assert_eq!(derive_dest(&rules, &attrs2), Some("문서/기타".to_string()));

    let attrs3 = FileAttrs { filename: "doc.pdf", ext: "pdf", topic_tags: &[], language: "en" };
    assert_eq!(derive_dest(&rules, &attrs3), None);
}

#[test]
fn test_parse_skips_comments_and_blank() {
    let md = "
# This is a comment

# Another comment
tag:foo -> bar
";
    let rules = parse_rules(md);
    assert_eq!(rules.len(), 1);
    assert_eq!(rules[0].dest, "bar");
}

#[test]
fn test_multi_clause_and_logic() {
    let rules = parse_rules("lang:ko ext:pdf -> 문서/PDF\n");
    let attrs_match = FileAttrs { filename: "doc.pdf", ext: "pdf", topic_tags: &[], language: "ko" };
    assert_eq!(derive_dest(&rules, &attrs_match), Some("문서/PDF".to_string()));

    let attrs_no_ext = FileAttrs { filename: "doc.txt", ext: "txt", topic_tags: &[], language: "ko" };
    assert_eq!(derive_dest(&rules, &attrs_no_ext), None);
}

#[test]
fn test_name_clause() {
    let rules = parse_rules("name:영수증,receipt -> 문서/영수증\n");
    let attrs = FileAttrs { filename: "receipt_2024.pdf", ext: "pdf", topic_tags: &[], language: "en" };
    assert_eq!(derive_dest(&rules, &attrs), Some("문서/영수증".to_string()));

    let attrs_ko = FileAttrs { filename: "영수증001.pdf", ext: "pdf", topic_tags: &[], language: "ko" };
    assert_eq!(derive_dest(&rules, &attrs_ko), Some("문서/영수증".to_string()));
}

#[test]
fn test_first_match_wins() {
    let rules = parse_rules("tag:세금 -> 문서/세금\nlang:ko -> 문서/기타\n");
    let attrs = FileAttrs {
        filename: "세금.pdf",
        ext: "pdf",
        topic_tags: &["세금".to_string()],
        language: "ko",
    };
    assert_eq!(derive_dest(&rules, &attrs), Some("문서/세금".to_string()));
}

#[test]
fn test_tag_case_insensitive() {
    let rules = parse_rules("tag:Tax -> TaxDocs\n");
    let attrs = FileAttrs {
        filename: "tax_2024.pdf",
        ext: "pdf",
        topic_tags: &["TAX".to_string()],
        language: "en",
    };
    assert_eq!(derive_dest(&rules, &attrs), Some("TaxDocs".to_string()));
}
