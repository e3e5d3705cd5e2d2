use sitegen::diagrams::render_diagram;
use sitegen::markdown::{
    diagram_figure, diagram_file_name, diagram_name, diagram_title, escape_html, is_mermaid,
    diagram_figures, plan_render, svg_attr, toc_item, DiagramImage, Rendered,
};

#[test]
fn escape_html_escapes_markup_characters() {
    assert_eq!(escape_html("a < b & c > \"d\""), "a &lt; b &amp; c &gt; &quot;d&quot;");
    assert_eq!(escape_html("plain text"), "plain text");
    assert_eq!(escape_html(""), "");
}

#[test]
fn only_fenced_mermaid_blocks_are_diagrams() {
    assert!(is_mermaid(true, "mermaid"));
    assert!(is_mermaid(true, "mermaid Deploy flow"));
    assert!(!is_mermaid(false, "mermaid"));
    assert!(!is_mermaid(true, "rust"));
    assert!(!is_mermaid(true, ""));
    assert!(!is_mermaid(true, "mermaidx"));
}

#[test]
fn mermaid_info_string_title_becomes_alt_text() {
    assert_eq!(diagram_title("mermaid Deploy flow"), "Deploy flow");
    assert_eq!(diagram_title("mermaid"), "Diagram");
    assert_eq!(diagram_title("mermaid   "), "Diagram");
}

#[test]
fn diagrams_are_numbered_from_one() {
    assert_eq!(diagram_name(0), "diagram-1");
    assert_eq!(diagram_file_name(1), "diagram-2.svg");
}

#[test]
fn diagram_figure_has_two_exclusive_panels() {
    let html = diagram_figure("/diagrams/diagram-1.svg", "Diagram", "A[\"a < b & c\"] --> B", Some(640), Some(480), "diagram-1");
    assert!(html.starts_with("<figure class=\"diagram tabs\">"));
    assert!(html.contains("<details name=\"diagram-1\" open>"));
    assert!(html.contains(
        "<img src=\"/diagrams/diagram-1.svg\" alt=\"Diagram\" width=\"640\" height=\"480\" loading=\"lazy\" decoding=\"async\">"
    ));
    assert!(html.contains("<div class=\"diagram-content\"><pre><code class=\"language-mermaid\">"));
    assert!(html.contains("&lt; b &amp; c"));
    assert_eq!(html.matches("name=\"diagram-1\"").count(), 2);
    assert!(!html.contains("<svg"));
    let no_size = diagram_figure("x.svg", "T", "s", None, None, "diagram-2");
    assert!(no_size.contains("alt=\"T\" loading=\"lazy\""));
}

#[test]
fn svg_root_attributes_are_read_from_the_root_tag() {
    let svg = "<svg width=\"640px\" height=\"480\" viewBox=\"0 0 320 240\"><rect width=\"1\"/></svg>";
    assert_eq!(svg_attr(svg, "width").as_deref(), Some("640px"));
    assert_eq!(svg_attr(svg, "height").as_deref(), Some("480"));
    assert_eq!(svg_attr(svg, "viewBox").as_deref(), Some("0 0 320 240"));
    assert_eq!(svg_attr("<svg xmlns=\"x\">", "width"), None);
    assert_eq!(svg_attr("<svg width=12 height=5>", "width").as_deref(), Some("12"));
}

#[test]
fn only_second_and_third_level_headings_enter_the_toc() {
    assert!(toc_item(1, "a".to_owned(), "a".to_owned()).is_none());
    let item = toc_item(2, "Alpha".to_owned(), "alpha".to_owned()).unwrap();
    assert_eq!((item.level, item.text.as_str(), item.id.as_str()), (2, "Alpha", "alpha"));
    assert!(toc_item(3, "b".to_owned(), "b".to_owned()).is_some());
    assert!(toc_item(4, "c".to_owned(), "c".to_owned()).is_none());
}

#[test]
fn escaped_text_holds_no_markup_characters() {
    let out = escape_html("<a href=\"x\">&</a>");
    assert!(!out.contains('<') && !out.contains('>') && !out.contains('"'));
}

/// A size read from the SVG's `viewBox`, rounded.
fn view_box_size(svg: &str) -> (Option<u32>, Option<u32>) {
    let view_box = svg_attr(svg, "viewBox").unwrap_or_default();
    let parts: Vec<f64> = view_box.split_whitespace().filter_map(|p| p.parse().ok()).collect();
    if parts.len() == 4 {
        (Some(parts[2].round() as u32), Some(parts[3].round() as u32))
    } else {
        (None, None)
    }
}

/// Draws the body's planned diagrams.
fn draw(body: &str) -> Result<Vec<DiagramImage>, String> {
    let mut images = Vec::new();
    for diagram in &plan_render(body).diagrams {
        let svg = render_diagram(&diagram.source)?;
        let (width, height) = view_box_size(&svg);
        images.push(DiagramImage { svg, width, height });
    }
    Ok(images)
}

/// Draws the body's diagrams and renders it with comrak's default render options.
fn render(body: &str, diagram_base: &str) -> Result<Rendered, String> {
    let images = draw(body)?;
    sitegen::markdown::render(body, diagram_base, &comrak::options::Render::default(), &images)
}

#[test]
fn toc_ids_match_heading_ids_with_dedup() {
    let rendered = render("## Alpha\n### Alpha\n", "/diagrams").unwrap();
    assert_eq!(rendered.toc.len(), 2);
    assert_eq!(rendered.toc[0].id, "alpha");
    assert_eq!(rendered.toc[1].id, "alpha-1");
    assert!(rendered.html.contains("<h2 id=\"alpha\""));
    assert!(rendered.html.contains("<h3 id=\"alpha-1\""));
}

#[test]
fn headings_outside_toc_keep_dedup_counters_in_sync() {
    let rendered = render("# Same\n## Same\n", "/diagrams").unwrap();
    assert_eq!(rendered.toc.len(), 1);
    assert_eq!(rendered.toc[0].id, "same-1");
    assert!(rendered.html.contains("<h2 id=\"same-1\""));
}

#[test]
fn mermaid_block_becomes_img_figure() {
    let md = "```mermaid\nflowchart TD\nA[Start] --> B[Done]\n```";
    let rendered = render(md, "/diagrams").unwrap();
    assert!(rendered.html.contains("<figure class=\"diagram tabs\">"));
    assert!(rendered.html.contains("<details name=\"diagram-1\" open>"));
    assert_eq!(
        rendered.html.matches("name=\"diagram-1\"").count(),
        2,
        "panels of one figure share an exclusive tab group"
    );
    assert!(rendered
        .html
        .contains("<img src=\"/diagrams/diagram-1.svg\" alt=\"Diagram\" width="));
    assert!(rendered.html.contains(" loading=\"lazy\" decoding=\"async\""));
    assert!(rendered.html.contains("class=\"language-mermaid\""));
    assert!(rendered
        .html
        .contains("<div class=\"diagram-content\"><pre><code class=\"language-mermaid\">"));
    assert!(!rendered.html.contains("<svg"), "no svg subtree in the page dom");
    assert_eq!(rendered.html.matches("<details name=\"diagram-1\" open>").count(), 1);
    assert_eq!(rendered.diagrams.len(), 1);
    assert_eq!(rendered.diagrams[0].file_name, "diagram-1.svg");
    assert!(rendered.diagrams[0].svg.trim_start().to_lowercase().starts_with("<svg"));
    assert_eq!(rendered.html.matches("<figure").count(), 1);
}

#[test]
fn multiple_figures_get_unique_tab_groups() {
    let md = "```mermaid\nflowchart TD\nA --> B\n```\n\nText\n\n```mermaid\nflowchart TD\nC --> D\n```";
    let rendered = render(md, "/diagrams").unwrap();
    assert_eq!(rendered.html.matches("name=\"diagram-1\"").count(), 2);
    assert_eq!(rendered.html.matches("name=\"diagram-2\"").count(), 2);
    assert_eq!(rendered.html.matches("<figure").count(), 2);
}

#[test]
fn mermaid_info_string_title_becomes_alt() {
    let md = "```mermaid Deploy flow\nflowchart TD\nA --> B\n```";
    let rendered = render(md, "/diagrams").unwrap();
    assert!(rendered.html.contains("alt=\"Deploy flow\""));
}

#[test]
fn figures_stand_where_their_code_blocks_stood() {
    let md = "## Before\n\n```mermaid\nflowchart TD\nA --> B\n```\n\n## After\n";
    let rendered = render(md, "/diagrams").unwrap();
    let before = rendered.html.find("<h2 id=\"before\"").unwrap();
    let figure = rendered.html.find("<figure").unwrap();
    let after = rendered.html.find("<h2 id=\"after\"").unwrap();
    assert!(before < figure && figure < after);
    assert!(rendered.html.contains("</figure>\n"));
}

#[test]
fn mermaid_syntax_error_fails_render() {
    let md = "```mermaid\nthis is not a diagram\n```";
    assert!(render(md, "/diagrams").is_err());
}

#[test]
fn code_block_source_is_escaped() {
    let md = "```mermaid\nflowchart TD\nA[\"a < b & c\"] --> B\n```";
    let rendered = render(md, "/diagrams").unwrap();
    assert!(rendered.html.contains("&lt; b &amp; c"));
}

#[test]
fn frontmatter_is_not_rendered() {
    let body = "+++\ntitle = \"x\"\n+++\n\nText";
    let rendered = render(body, "/diagrams").unwrap();
    assert!(rendered.html.contains("<p>Text</p>"));
    assert!(!rendered.html.contains("title"));
}

#[test]
fn images_must_match_the_planned_diagrams() {
    let md = "```mermaid\nflowchart TD\nA --> B\n```";
    let options = comrak::options::Render::default();
    let err = match sitegen::markdown::render(md, "/diagrams", &options, &Vec::new()) {
        Err(e) => e,
        Ok(_) => panic!("a body with a diagram rendered without its image"),
    };
    assert_eq!(err, "the drawn diagrams do not match the body's diagrams");
}

#[test]
fn body_without_diagrams_renders_with_no_images() {
    let rendered = render("## Intro\n\nText\n", "/d").unwrap();
    assert_eq!(rendered.toc.len(), 1);
    assert!(rendered.diagrams.is_empty());
    assert!(rendered.html.contains("id=\"intro\""));
}

#[test]
fn mermaid_blocks_are_planned_with_titles() {
    let plan = sitegen::markdown::plan_render(
        "Intro\n\n```mermaid Deploy flow\nflowchart TD\nA --> B\n```\n\n```rust\nfn x() {}\n```\n",
    );
    assert_eq!(plan.diagrams.len(), 1);
    assert_eq!(plan.diagrams[0].title, "Deploy flow");
    assert_eq!(plan.diagrams[0].source, "flowchart TD\nA --> B");
}

#[test]
fn frontmatter_is_not_planned_as_content() {
    let plan = sitegen::markdown::plan_render("+++\ntitle = \"x\"\n+++\n\n## Text\n");
    assert_eq!(plan.toc.len(), 1);
    assert_eq!(plan.toc[0].text, "Text");
}

#[test]
fn diagram_figures_number_files_under_the_base() {
    let plan = sitegen::markdown::plan_render("```mermaid\nflowchart TD\nA --> B\n```\n");
    let images = vec![sitegen::markdown::DiagramImage { svg: "<svg/>".to_owned(), width: Some(10), height: None }];
    let (figures, assets) = sitegen::markdown::diagram_figures(&plan.diagrams, "/blog/x/diagrams", &images);
    assert_eq!(figures.len(), 1);
    assert_eq!(figures[0].0, plan.diagrams[0].node);
    assert!(figures[0].1.contains("<img src=\"/blog/x/diagrams/diagram-1.svg\" alt=\"Diagram\" width=\"10\" loading"));
    assert!(figures[0].1.contains("name=\"diagram-1\""));
    assert_eq!(assets[0].file_name, "diagram-1.svg");
    assert_eq!(assets[0].svg, "<svg/>");
}
