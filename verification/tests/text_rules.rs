use furnigen_core::bom::{bom_csv, BomCsvFields};
use furnigen_core::export_2d::escape_xml;
use furnigen_core::panels::{shelf_panel_id, shelf_panel_label};
use furnigen_core::spec::{check_spec_version, require_at_least_one, SpecError, WARDROBE_SPEC_VERSION};
use furnigen_core::text::{decimal_len, push_decimal, push_zero_padded};

#[test]
fn escape_xml_replaces_the_four_markup_characters() {
    assert_eq!(escape_xml("a<b & \"c\">"), "a&lt;b &amp; &quot;c&quot;&gt;");
}

#[test]
fn escape_xml_keeps_plain_labels() {
    assert_eq!(escape_xml("Left side"), "Left side");
    assert_eq!(escape_xml(""), "");
    assert_eq!(escape_xml("Ünïcode – ok"), "Ünïcode – ok");
}

#[test]
fn escape_xml_does_not_escape_twice() {
    assert_eq!(escape_xml("&amp;"), "&amp;amp;");
}

#[test]
fn escaped_text_holds_no_markup() {
    let out = escape_xml("<<\">>&\"<");
    assert!(!out.contains('<'));
    assert!(!out.contains('>'));
    assert!(!out.contains('"'));
}

#[test]
fn spec_version_one_is_the_only_supported() {
    assert_eq!(WARDROBE_SPEC_VERSION, 1);
    assert_eq!(check_spec_version(1), Ok(()));
    assert_eq!(check_spec_version(2), Err(SpecError::UnsupportedVersion(2)));
    assert_eq!(check_spec_version(0), Err(SpecError::UnsupportedVersion(0)));
}

#[test]
fn spec_error_messages() {
    assert_eq!(
        SpecError::UnsupportedVersion(2).message(),
        "unsupported spec version 2 (supported: 1)"
    );
    assert_eq!(
        SpecError::UnsupportedVersion(4294967295).message(),
        "unsupported spec version 4294967295 (supported: 1)"
    );
    assert_eq!(
        SpecError::Json("expected value at line 1 column 1".to_owned()).message(),
        "JSON parse error: expected value at line 1 column 1"
    );
    assert_eq!(
        SpecError::Validation("width_mm must be positive, got 0".to_owned()).message(),
        "width_mm must be positive, got 0"
    );
}

#[test]
fn counts_below_one_are_refused() {
    assert_eq!(
        require_at_least_one("shelf_count", 0),
        Err("shelf_count must be at least 1".to_owned())
    );
    assert_eq!(
        require_at_least_one("rungs", 0),
        Err("rungs must be at least 1".to_owned())
    );
    assert_eq!(require_at_least_one("bay_count", 1), Ok(()));
    assert_eq!(require_at_least_one("bay_count", 40), Ok(()));
}

#[test]
fn shelf_ids_are_three_digit_and_sequential() {
    assert_eq!(shelf_panel_id(1), "shelf_001");
    assert_eq!(shelf_panel_id(4), "shelf_004");
    assert_eq!(shelf_panel_id(12), "shelf_012");
    assert_eq!(shelf_panel_id(999), "shelf_999");
    assert_eq!(shelf_panel_id(1000), "shelf_1000");
    assert_eq!(shelf_panel_label(1), "Shelf 1");
    assert_eq!(shelf_panel_label(12), "Shelf 12");
}

#[test]
fn shelf_ids_are_distinct() {
    let ids: Vec<String> = (1..=2000usize).map(shelf_panel_id).collect();
    let mut sorted = ids.clone();
    sorted.sort();
    sorted.dedup();
    assert_eq!(sorted.len(), ids.len());
}

#[test]
fn decimal_text_matches_std() {
    for n in [0u64, 7, 10, 99, 100, 65535, 1_000_000_007, u64::MAX] {
        let mut s = String::new();
        push_decimal(&mut s, n);
        assert_eq!(s, n.to_string());
        assert_eq!(decimal_len(n), n.to_string().len());
    }
}

#[test]
fn zero_padding_never_truncates() {
    let mut s = String::from("x");
    push_zero_padded(&mut s, 7, 3);
    assert_eq!(s, "x007");
    let mut t = String::new();
    push_zero_padded(&mut t, 12345, 3);
    assert_eq!(t, "12345");
    let mut u = String::new();
    push_zero_padded(&mut u, 0, 0);
    assert_eq!(u, "0");
}

#[test]
fn bom_csv_has_header_and_rows_in_order() {
    let rows = vec![
        BomCsvFields {
            id: "back".to_owned(),
            label: "Back".to_owned(),
            width_mm: "2400".to_owned(),
            height_mm: "2200".to_owned(),
            qty: 1,
            thickness_mm: None,
        },
        BomCsvFields {
            id: "shelf_001".to_owned(),
            label: "Shelf 1".to_owned(),
            width_mm: "2400".to_owned(),
            height_mm: "600".to_owned(),
            qty: 2,
            thickness_mm: Some("18".to_owned()),
        },
    ];
    let csv = bom_csv(&rows);
    assert_eq!(
        csv,
        "id,label,width_mm,height_mm,qty,thickness_mm\nback,Back,2400,2200,1,\nshelf_001,Shelf 1,2400,600,2,18\n"
    );
    assert_eq!(bom_csv(&Vec::new()), "id,label,width_mm,height_mm,qty,thickness_mm\n");
}

fn unescape(s: &str) -> String {
    let mut out = String::new();
    let mut rest = s;
    while !rest.is_empty() {
        let mut matched = false;
        for (entity, c) in [("&amp;", '&'), ("&lt;", '<'), ("&gt;", '>'), ("&quot;", '"')] {
            if let Some(tail) = rest.strip_prefix(entity) {
                out.push(c);
                rest = tail;
                matched = true;
                break;
            }
        }
        if !matched {
            let c = rest.chars().next().unwrap();
            out.push(c);
            rest = &rest[c.len_utf8()..];
        }
    }
    out
}

#[test]
fn escaping_loses_nothing() {
    for s in ["", "Back", "a<b>&\"c\"", "&amp;", "&lt;&gt;", "Ü & ü"] {
        assert_eq!(unescape(&escape_xml(s)), s);
    }
}
