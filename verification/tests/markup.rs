use tiler::markup::{is_drawable, is_number_text, push_attribute, write_text};

const ROOT: &str = "<svg xmlns=\"http://www.w3.org/2000/svg\" width=\"100\" height=\"50\"";

fn document(body: &str) -> String {
    format!("{ROOT}>\n{body}</svg>")
}

#[test]
fn numbers_have_an_ordinary_size() {
    let is = |s: &str| is_number_text(&s.chars().collect::<Vec<_>>());
    for s in ["0", "1.50", "-0.0", "999999999999", "-999999999999.5", "0.00000000000000000001"] {
        assert!(is(s), "{s}");
    }
    for s in ["NaN", "inf", "-inf"] {
        assert!(is(s), "{s}");
    }
    for s in ["", "-", ".5", "1e9", "1000000000000", "+1", "1.2.3", "--1", " 1", "nan"] {
        assert!(!is(s), "{s}");
    }
}

#[test]
fn shapes_and_texts_can_be_drawn() {
    for body in [
        "",
        "<rect width=\"1\" height=\"2\" fill=\"red\" />\n",
        "<path d=\"M 1 2 L -3.5 4 Z \" stroke=\"url(#a)\" stroke-width=\"0.5\" stroke-dasharray=\"5,3\" />",
        "<polygon points=\"1,2 3,4 5,6\" fill=\"&quot;\" />",
        "<circle cx=\"NaN\" cy=\"1\" r=\"2\" />",
        "<text x=\"1\" y=\"2\" font-weight=\"600\">the filter &amp; co</text>\n",
        "<circle r=\"2\" />\n<text x=\"1\">a</text>\n<text y=\"1\"></text>\n<rect x=\"1\" />\n",
    ] {
        assert!(is_drawable(&document(body)), "{body}");
    }
    assert!(is_drawable(&format!("{ROOT} />")));
    assert!(is_drawable(&format!("{ROOT} viewBox=\"0 0 10 20\">\n</svg>")));
}

#[test]
fn everything_else_cannot() {
    for body in [
        "<filter id=\"f\"><feTurbulence baseFrequency=\"1e39\" /></filter>",
        "<rect width=\"1\" height=\"1\" filter=\"url(#f)\" />",
        "<rect width=\"1\" height=\"1\" filter=\"blur(1e39)\" />",
        "<rect filter='blur(1e39)' width=\"1\" />",
        "<rect width=\"1\" filter='blur(1e39)' />",
        "<rect width=\"1\" style=\"filter:blur(1)\" />",
        "<rect id=\"a\" />",
        "<rect />",
        "<rect width=\"1\">",
        "<rect width=\"1\"></rect>",
        "<rect width=\"1e39\" />",
        "<rect width=\"50%\" />",
        "<circle r=\"1000000000000\" />",
        "<path d=\"M 1 2 A 1 1 0 0 0 3 3\" />",
        "<path d=\"M 1 2\" stroke-dasharray=\"0.001\" />",
        "<text x=\"1\">a",
        "<text x=\"1\"><rect width=\"1\" /></text>",
        "<text x=\"1\" font-family=\"serif\">a</text>",
        "</text>",
        "<g fill=\"red\"><rect width=\"1\" /></g>",
        "<svg width=\"1\" height=\"1\" />",
        "<!-- a -->",
        "<style>rect { filter: url(#f) }</style>",
    ] {
        assert!(!is_drawable(&document(body)), "{body}");
    }
    for svg in [
        "",
        "<svg",
        "x<svg width=\"1\" />",
        "<svg />",
        "<svg width=\"0\" height=\"8\" />",
        "<svg width=\"100000\" height=\"8\" />",
        "<svg width=\"1.5\" height=\"8\" />",
        "<svg width=\"8\" viewBox=\"1 0 8 8\" />",
        "<svg width=\"8\" viewBox=\"0 0 8\" />",
        "<svg width=\"8\">",
        "<!DOCTYPE svg [<!ENTITY a \"b\">]><svg width=\"8\" />",
        "<?xml version=\"1.0\"?><svg width=\"8\" />",
    ] {
        assert!(!is_drawable(svg), "{svg}");
    }
}

#[test]
fn tags_are_written() {
    let mut tag = "<text".to_string();
    push_attribute(&mut tag, " x=", "1.0");
    push_attribute(&mut tag, " fill=", "red");
    assert_eq!(tag, "<text x=\"1.0\" fill=\"red\"");
    assert_eq!(write_text(tag, "a"), "<text x=\"1.0\" fill=\"red\">a</text>\n");
}
