use furnigen_core::export_2d::{dxf_document, svg_document, DxfRectText, SvgPanelText};

fn back_panel() -> SvgPanelText {
    SvgPanelText {
        id: "back".to_owned(),
        label: "Back".to_owned(),
        x: "40".to_owned(),
        y: "40".to_owned(),
        width: "2400".to_owned(),
        height: "2200".to_owned(),
        caption_y: "2194".to_owned(),
        width_rounded: "2400".to_owned(),
        height_rounded: "2200".to_owned(),
    }
}

#[test]
fn svg_sheet_has_namespace_and_panel_groups() {
    let mut left = back_panel();
    left.id = "left_side".to_owned();
    left.label = "Left <side> & \"co\"".to_owned();
    let svg = svg_document("2520", "2280", &vec![back_panel(), left]);
    assert!(svg.starts_with(
        "<svg xmlns=\"http://www.w3.org/2000/svg\" width=\"2520\" height=\"2280\" viewBox=\"0 0 2520 2280\">\n"
    ));
    assert!(svg.contains("xmlns=\"http://www.w3.org/2000/svg\""));
    assert!(svg.contains("id=\"back\""));
    assert!(svg.contains("id=\"left_side\""));
    assert!(svg.contains(">Left &lt;side&gt; &amp; &quot;co&quot;</text>"));
    assert!(svg.ends_with("  </g>\n</svg>"));
}

#[test]
fn svg_group_exact_text() {
    let svg = svg_document("10", "20", &vec![back_panel()]);
    assert_eq!(
        svg,
        "<svg xmlns=\"http://www.w3.org/2000/svg\" width=\"10\" height=\"20\" viewBox=\"0 0 10 20\">\n  <g id=\"back\" transform=\"translate(40,40)\">\n    <rect x=\"0\" y=\"0\" width=\"2400\" height=\"2200\" fill=\"none\" stroke=\"#111\" stroke-width=\"2\"/>\n    <text x=\"4\" y=\"18\" font-size=\"16\" fill=\"#333\">Back</text>\n    <text x=\"4\" y=\"2194\" font-size=\"12\" fill=\"#666\">2400 × 2200 mm</text>\n  </g>\n</svg>"
    );
}

#[test]
fn dxf_has_entities_and_eof() {
    let rects = vec![DxfRectText {
        layer: "back".to_owned(),
        left: "0".to_owned(),
        right: "2400".to_owned(),
        bottom: "0".to_owned(),
        top: "2200".to_owned(),
        z: "0".to_owned(),
    }];
    let dxf = dxf_document(&rects);
    assert!(dxf.contains("ENTITIES"));
    assert!(dxf.contains("LINE"));
    assert!(dxf.ends_with("0\nEOF\n"));
    assert_eq!(dxf.matches("0\nLINE\n8\nback\n").count(), 4);
    assert!(dxf.contains("0\nLINE\n8\nback\n10\n0\n20\n0\n30\n0\n11\n2400\n21\n0\n31\n0\n"));
    assert!(dxf.contains("0\nLINE\n8\nback\n10\n0\n20\n2200\n30\n0\n11\n0\n21\n0\n31\n0\n0\nENDSEC\n"));
}

#[test]
fn dxf_without_panels_is_header_and_footer() {
    assert_eq!(
        dxf_document(&Vec::new()),
        "0\nSECTION\n2\nHEADER\n9\n$ACADVER\n1\nAC1014\n0\nENDSEC\n0\nSECTION\n2\nENTITIES\n0\nENDSEC\n0\nEOF\n"
    );
}
