use calendar_pdf::pdf_ops::{PdfOp, PdfOps};
use calendar_pdf::style::{Color, Width};

fn kinds(ops: &PdfOps<&'static str>) -> Vec<String> {
    ops.ops()
        .iter()
        .map(|op| match op {
            PdfOp::SetOutlineColor(c) => format!("outline {:?}", c),
            PdfOp::SetFillColor(c) => format!("fill {:?}", c),
            PdfOp::SetOutlineThickness(w) => format!("thickness {:?}", w),
            PdfOp::Draw(s) => format!("draw {}", s),
        })
        .collect()
}

#[test]
fn new_stream_is_empty() {
    let ops: PdfOps<&'static str> = PdfOps::new();
    assert!(ops.ops().is_empty());
    assert_eq!(ops.color(), None);
    assert_eq!(ops.width(), None);
}

#[test]
fn set_color_writes_outline_and_fill() {
    let mut ops: PdfOps<&'static str> = PdfOps::new();
    ops.set_color(Color::Weak);
    assert_eq!(kinds(&ops), vec!["outline Weak", "fill Weak"]);
    assert_eq!(ops.color(), Some(Color::Weak));
}

#[test]
fn repeated_color_is_written_once() {
    let mut ops: PdfOps<&'static str> = PdfOps::new();
    ops.set_color(Color::Strong);
    ops.set_color(Color::Strong);
    assert_eq!(ops.ops().len(), 2);
    ops.set_color(Color::Normal);
    assert_eq!(kinds(&ops), vec!["outline Strong", "fill Strong", "outline Normal", "fill Normal"]);
}

#[test]
fn repeated_width_is_written_once() {
    let mut ops: PdfOps<&'static str> = PdfOps::new();
    ops.set_width(Width::Thick);
    ops.set_width(Width::Thick);
    ops.set_width(Width::Thin);
    assert_eq!(kinds(&ops), vec!["thickness Thick", "thickness Thin"]);
    assert_eq!(ops.width(), Some(Width::Thin));
}

#[test]
fn lines_share_styles() {
    let mut ops: PdfOps<&'static str> = PdfOps::new();
    ops.draw_line(Width::Normal, Color::Strong, "a");
    ops.draw_line(Width::Normal, Color::Strong, "b");
    ops.draw_line(Width::Thick, Color::Strong, "c");
    assert_eq!(
        kinds(&ops),
        vec!["outline Strong", "fill Strong", "thickness Normal", "draw a", "draw b", "thickness Thick", "draw c"]
    );
}

#[test]
fn text_section_after_color() {
    let mut ops: PdfOps<&'static str> = PdfOps::new();
    ops.set_width(Width::Normal);
    ops.draw_text(Color::Normal, vec!["start", "font", "cursor", "show", "end"]);
    assert_eq!(
        kinds(&ops),
        vec![
            "thickness Normal", "outline Normal", "fill Normal", "draw start", "draw font", "draw cursor",
            "draw show", "draw end"
        ]
    );
}

#[test]
fn pushed_ops_are_kept_in_order() {
    let mut ops: PdfOps<&'static str> = PdfOps::new();
    ops.push(PdfOp::Draw("marker"));
    ops.push(PdfOp::Draw("link"));
    let all = ops.into_ops();
    assert_eq!(all.len(), 2);
    assert!(matches!(all[1], PdfOp::Draw("link")));
}
