use swirlr::svg::{format_deci, Path, PathData, Rect, Svg, SvgNode};

#[test]
fn deci_formatting_rounds_to_tenths() {
    assert_eq!(format_deci(0).as_str(), "0.0");
    assert_eq!(format_deci(123_456).as_str(), "123.5");
    assert_eq!(format_deci(-7_890).as_str(), "-7.9");
    assert_eq!(format_deci(50).as_str(), "0.1");
    assert_eq!(format_deci(49).as_str(), "0.0");
    assert_eq!(format_deci(-50).as_str(), "-0.1");
    assert_eq!(format_deci(-49).as_str(), "0.0");
    assert_eq!(format_deci(500_000).as_str(), "500.0");
}

#[test]
fn path_data_accumulates_commands() {
    let mut pd = PathData::new();
    pd.move_to(123_456, -7_890);
    pd.line_to(0, 0);
    pd.close();
    assert_eq!(pd.d.as_str(), "M123.5 -7.9 L0.0 0.0 Z");
}

#[test]
fn path_renders_fill_and_data() {
    let mut path = Path::new().set_fill("#000");
    path.d.move_to(0, 0);
    path.d.close();
    assert_eq!(path.to_svg_string().as_str(), "<path fill=\"#000\" d=\"M0.0 0.0 Z\" />");
}

#[test]
fn rect_renders_with_and_without_fill() {
    let plain = Rect::new(500, 500);
    assert_eq!(plain.to_svg_string().as_str(), "<rect width=\"500\" height=\"500\"  />");
    let filled = Rect::new(500, 500).set_fill(Some(String::from("#fff")));
    assert_eq!(
        filled.to_svg_string().as_str(),
        "<rect width=\"500\" height=\"500\" fill=\"#fff\" />"
    );
}

#[test]
fn svg_renders_children_in_order() {
    let mut doc = Svg::new(500, 500);
    doc.add_child(SvgNode::Rect(Rect::new(500, 500).set_fill(Some(String::from("#fff")))));
    let mut path = Path::new().set_fill("#000");
    path.d.move_to(250_000, 250_000);
    path.d.line_to(100_000, 50_000);
    path.d.close();
    doc.add_child(SvgNode::Path(path));
    let expected = "<svg xmlns=\"http://www.w3.org/2000/svg\" viewBox=\"0 0 500 500\" width=\"500\" height=\"500\"><rect width=\"500\" height=\"500\" fill=\"#fff\" /><path fill=\"#000\" d=\"M250.0 250.0 L100.0 50.0 Z\" /></svg>";
    assert_eq!(doc.to_svg_string().as_str(), expected);
}

#[test]
fn empty_svg_is_just_the_frame() {
    let doc = Svg::new(10, 20);
    assert_eq!(
        doc.to_svg_string().as_str(),
        "<svg xmlns=\"http://www.w3.org/2000/svg\" viewBox=\"0 0 10 20\" width=\"10\" height=\"20\"></svg>"
    );
}
