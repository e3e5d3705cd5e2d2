//! Mermaid diagrams rendered to SVG with the site's theme.
use merman::svg::{RootBackgroundPostprocessor, SvgPipeline};
use vstd::prelude::*;

verus! {

/// The site's diagram theme as Mermaid site configuration.
pub const SITE_THEME: &'static str = "{\"theme\":\"base\",\"themeCSS\":\".edgeLabel, .edgeLabel p, .labelBkg { border-radius: 6px; } .edgeLabel p { padding: 3px 6px; }\",\"themeVariables\":{\"background\":\"#c5c0ce\",\"primaryColor\":\"#d2ceda\",\"primaryBorderColor\":\"#0d0b0f\",\"primaryTextColor\":\"#0d0b0f\",\"secondaryColor\":\"#b7b1c3\",\"secondaryBorderColor\":\"#51495f\",\"secondaryTextColor\":\"#0d0b0f\",\"tertiaryColor\":\"#a8a0b6\",\"tertiaryBorderColor\":\"#51495f\",\"tertiaryTextColor\":\"#0d0b0f\",\"lineColor\":\"#51495f\",\"textColor\":\"#0d0b0f\",\"edgeLabelBackground\":\"#d2ceda\",\"clusterBkg\":\"#b7b1c3\",\"clusterBorder\":\"#51495f\",\"noteBkgColor\":\"#d2ceda\",\"noteBorderColor\":\"#51495f\",\"noteTextColor\":\"#0d0b0f\"}}";

/// The background colour of the site's diagrams.
pub const SITE_BACKGROUND: &'static str = "#c5c0ce";

/// The error for a source in which the renderer finds no diagram.
pub const NO_DIAGRAM: &'static str = "no mermaid diagram detected in source";

/// What merman's render gives for a Mermaid source under the site configuration written
/// as the JSON text `theme`: a diagram's SVG, no diagram, or an error's message.
pub uninterp spec fn mermaid_render(source: Seq<char>, theme: Seq<char>, background: Seq<char>) -> Result<
    Option<Seq<char>>,
    Seq<char>,
>;

/// merman's SVG render of `source` with the site configuration read from the JSON text
/// `theme`, the root `<svg>` element's background colour set to `background` by merman's
/// `RootBackgroundPostprocessor` on the default (parity) pipeline: `Ok(Some(svg))` for a diagram, `Ok(None)` when the output is not an SVG, or
/// the error's message (of the theme's JSON or of the render). The outcome is named by
/// `mermaid_render`: merman's default runtime policy is deterministic (a fixed clock, a
/// fixed seed, UTC) and the operation has no deadline, so the outcome is a function of
/// the three texts. Nothing more of the SVG is stated.
#[verifier::external_body]
fn render_mermaid(source: &str, theme: &str, background: &str) -> (r: Result<Option<String>, String>)
    ensures
        outcome_view(r) == mermaid_render(source@, theme@, background@),
{
    let config: serde_json::Value = serde_json::from_str(theme).map_err(|e| e.to_string())?;
    let engine = merman::Engine::new().with_site_config(merman::MermaidConfig::from_value(config));
    let control = merman::OperationControl::new();
    let pipeline = SvgPipeline::parity().with_postprocessor(RootBackgroundPostprocessor::new(background));
    let options = merman::SvgRequest { pipeline: Some(pipeline), ..Default::default() };
    let request = merman::RenderRequest::svg(source, control, options);
    match merman::Renderer::new().with_engine(engine).render(request) {
        Err(e) => Err(e.to_string()),
        Ok(merman::RenderOutput::Svg(Some(svg))) => Ok(Some(svg.svg().to_owned())),
        Ok(_) => Ok(None),
    }
}

/// The mathematical form of a render outcome.
pub open spec fn outcome_view(o: Result<Option<String>, String>) -> Result<Option<Seq<char>>, Seq<char>> {
    match o {
        Ok(Some(s)) => Ok(Some(s@)),
        Ok(None) => Ok(None),
        Err(e) => Err(e@),
    }
}

/// The mathematical form of a diagram result.
pub open spec fn result_view(r: Result<String, String>) -> Result<Seq<char>, Seq<char>> {
    match r {
        Ok(s) => Ok(s@),
        Err(e) => Err(e@),
    }
}

/// The diagram a render outcome gives: its SVG, the render's error, or the error that no
/// diagram was found.
pub open spec fn spec_diagram_svg(o: Result<Option<Seq<char>>, Seq<char>>) -> Result<Seq<char>, Seq<char>> {
    match o {
        Ok(Some(svg)) => Ok(svg),
        Ok(None) => Err(NO_DIAGRAM@),
        Err(e) => Err(e),
    }
}

/// The diagram a render outcome gives.
pub fn diagram_svg(outcome: Result<Option<String>, String>) -> (r: Result<String, String>)
    ensures
        result_view(r) == spec_diagram_svg(outcome_view(outcome)),
{
    match outcome {
        Ok(Some(svg)) => Ok(svg),
        Ok(None) => Err(String::from_str(NO_DIAGRAM)),
        Err(e) => Err(e),
    }
}

/// Renders a Mermaid source to SVG with the site's theme: the result is what
/// `diagram_svg` makes of the renderer's outcome.
pub fn render_diagram(source: &str) -> (r: Result<String, String>)
    ensures
        result_view(r) == spec_diagram_svg(mermaid_render(source@, SITE_THEME@, SITE_BACKGROUND@)),
{
    let outcome = render_mermaid(source, SITE_THEME, SITE_BACKGROUND);
    diagram_svg(outcome)
}

} // verus!
