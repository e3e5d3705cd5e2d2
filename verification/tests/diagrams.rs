use sitegen::diagrams::{diagram_svg, render_diagram, NO_DIAGRAM};

#[test]
fn renders_flowchart_to_svg() {
    let svg = render_diagram("flowchart TD\nA[Start] --> B[Done]").unwrap();
    assert!(svg.trim_start().to_lowercase().starts_with("<svg"));
}

#[test]
fn site_theme_applies_pale_slate_palette() {
    let svg = render_diagram("flowchart TD\nA[Start] --> B[Done]").unwrap();
    assert!(svg.contains("background-color: #c5c0ce"), "root background");
    assert!(svg.contains("#d2ceda"), "node fill");
    assert!(!svg.contains("background-color: white"));
}

#[test]
fn init_directive_overrides_site_theme() {
    let md = "%%{init: {\"themeVariables\": {\"lineColor\": \"#123456\"}}}%%\nflowchart TD\nA --> B";
    let svg = render_diagram(md).unwrap();
    assert!(svg.contains("flowchart-link{stroke:#123456"));
}

#[test]
fn edge_label_chips_are_rounded_and_padded() {
    let svg = render_diagram("flowchart TD\nA ==>|blocks| B").unwrap();
    assert!(
        svg.contains("#merman .edgeLabel, #merman .edgeLabel p, #merman .labelBkg { border-radius: 6px; }"),
        "every layer that paints the chip must round"
    );
    assert!(svg.contains("#merman .edgeLabel p { padding: 3px 6px; }"));
}

#[test]
fn invalid_source_is_an_error() {
    assert!(render_diagram("this is not a diagram").is_err());
}

#[test]
fn render_outcomes_map_to_diagrams() {
    assert_eq!(diagram_svg(Ok(Some("<svg/>".to_owned()))).unwrap(), "<svg/>");
    assert_eq!(diagram_svg(Ok(None)).unwrap_err(), NO_DIAGRAM);
    assert_eq!(diagram_svg(Err("bad".to_owned())).unwrap_err(), "bad");
}
