use svg_dimensions::{
    attribute_dimensions, declared_dimensions, has_svg_tag, is_number, numeric_pair,
    view_box_dimensions, view_box_extent, CustomJobs, Dimensions, ElementView, Error,
    ExtractDimensions, PrepareOutcome,
};

fn element(name: &str, attrs: &[(&str, &str)]) -> ElementView {
    let mut e = ElementView::new(name);
    for (n, v) in attrs {
        e.add_attribute(n, v);
    }
    e
}

fn svg(attrs: &[(&str, &str)]) -> ElementView {
    element("svg", attrs)
}

fn pair(d: &Option<Dimensions>) -> Option<(String, String)> {
    d.as_ref().map(|d| (d.width.clone(), d.height.clone()))
}

fn some(w: &str, h: &str) -> Option<(String, String)> {
    Some((w.to_string(), h.to_string()))
}

fn extract(elements: Vec<ElementView>) -> Option<(String, String)> {
    let mut jobs = CustomJobs::default();
    assert!(jobs.run(&elements).is_ok());
    pair(&jobs.extract_dimensions.dimensions())
}

#[test]
fn width_and_height_attributes() {
    assert_eq!(extract(vec![svg(&[("width", "64"), ("height", "32")])]), some("64", "32"));
}

#[test]
fn view_box_only() {
    assert_eq!(extract(vec![svg(&[("viewBox", "0 0 200 100")])]), some("200", "100"));
}

#[test]
fn attributes_win_over_view_box() {
    let root = svg(&[("width", "64"), ("height", "32"), ("viewBox", "0 0 200 100")]);
    assert_eq!(extract(vec![root]), some("64", "32"));
}

#[test]
fn bare_svg_has_no_dimensions() {
    assert_eq!(extract(vec![svg(&[])]), None);
}

#[test]
fn document_without_svg() {
    let elements = vec![element("html", &[]), element("rect", &[("width", "5"), ("height", "5")])];
    let mut jobs = CustomJobs::default();
    assert_eq!(jobs.run(&elements).ok(), Some(1));
    assert!(jobs.extract_dimensions.dimensions().is_none());
}

#[test]
fn non_numeric_width_falls_through() {
    assert_eq!(extract(vec![svg(&[("width", "abc"), ("height", "32")])]), None);
    let root = svg(&[("width", "abc"), ("height", "32"), ("viewBox", "0 0 10 20")]);
    assert_eq!(extract(vec![root]), some("10", "20"));
}

#[test]
fn units_fall_through_to_view_box() {
    let root = svg(&[("width", "10mm"), ("height", "20mm"), ("viewBox", "0 0 30 40")]);
    assert_eq!(extract(vec![root]), some("30", "40"));
}

#[test]
fn view_box_extent_not_origin() {
    assert_eq!(extract(vec![svg(&[("viewBox", "5 7 100 50")])]), some("100", "50"));
}

#[test]
fn view_box_with_three_or_five_tokens() {
    assert_eq!(extract(vec![svg(&[("viewBox", "0 0 100")])]), None);
    assert_eq!(extract(vec![svg(&[("viewBox", "0,0,100,100,1")])]), None);
}

#[test]
fn view_box_separators() {
    for vb in ["0 0 100 50", "0,0,100,50", "0,  0 ,100,  50"] {
        assert_eq!(extract(vec![svg(&[("viewBox", vb)])]), some("100", "50"), "{}", vb);
    }
}

#[test]
fn view_box_leading_or_trailing_separator() {
    assert_eq!(extract(vec![svg(&[("viewBox", " 0 0 100 50")])]), None);
    assert_eq!(extract(vec![svg(&[("viewBox", "0 0 100 50,")])]), None);
    assert_eq!(extract(vec![svg(&[("viewBox", " 0 100 50")])]), None);
    assert_eq!(extract(vec![svg(&[("viewBox", ",0 100 50")])]), None);
    assert_eq!(extract(vec![svg(&[("viewBox", "0 100 50 ")])]), None);
}

#[test]
fn view_box_non_numeric_extent() {
    assert_eq!(extract(vec![svg(&[("viewBox", "0 0 a 50")])]), None);
}

#[test]
fn only_one_of_width_height() {
    assert_eq!(extract(vec![svg(&[("width", "64")])]), None);
    assert_eq!(extract(vec![svg(&[("height", "64"), ("viewBox", "0 0 8 9")])]), some("8", "9"));
}

#[test]
fn prefixed_svg_is_not_root() {
    let mut e = svg(&[("width", "1"), ("height", "2")]);
    e.prefix = Some("x".to_string());
    assert!(!has_svg_tag(&e));
    assert_eq!(extract(vec![e]), None);
    assert!(!has_svg_tag(&element("SVG", &[])));
    assert!(has_svg_tag(&svg(&[])));
}

#[test]
fn first_result_is_kept() {
    let elements = vec![
        svg(&[("width", "1"), ("height", "2")]),
        svg(&[("width", "3"), ("height", "4")]),
    ];
    let mut pass = ExtractDimensions::default();
    pass.visit_all(&elements);
    assert_eq!(pair(&pass.dimensions()), some("1", "2"));
    pass.visit_all(&elements);
    assert_eq!(pair(&pass.dimensions()), some("1", "2"));
    pass.element(&svg(&[("viewBox", "0 0 9 9")]));
    assert_eq!(pair(&pass.dimensions()), some("1", "2"));
}

#[test]
fn only_the_root_is_tried() {
    let mut pass = ExtractDimensions::new(true);
    pass.element(&element("g", &[("width", "5"), ("height", "6")]));
    assert!(pass.dimensions().is_none());
    pass.element(&svg(&[("width", "7"), ("height", "8")]));
    assert!(pass.dimensions().is_none());
}

#[test]
fn nested_svg_after_unusable_root() {
    let elements = vec![svg(&[]), svg(&[("width", "1"), ("height", "2")])];
    assert_eq!(extract(elements), None);
    let elements = vec![element("g", &[]), svg(&[("width", "1"), ("height", "2")])];
    assert_eq!(extract(elements), None);
}

#[test]
fn empty_document_runs_no_pass() {
    let mut jobs = CustomJobs::default();
    assert_eq!(jobs.run(&Vec::new()).ok(), Some(0));
    assert!(jobs.extract_dimensions.dimensions().is_none());
}

#[test]
fn disabled_pass_is_skipped() {
    let mut jobs = CustomJobs { extract_dimensions: ExtractDimensions::new(false) };
    assert_eq!(jobs.extract_dimensions.prepare(), PrepareOutcome::Skip);
    let elements = vec![svg(&[("width", "64"), ("height", "32")])];
    assert_eq!(jobs.run(&elements).ok(), Some(0));
    assert!(jobs.extract_dimensions.dimensions().is_none());
    assert_eq!(CustomJobs::default().extract_dimensions.prepare(), PrepareOutcome::Proceed);
}

#[test]
fn number_text() {
    for s in ["100", "45.5", "-3", "+2.5E-4", ".5", "1.", "1e3", "0"] {
        assert!(is_number(s), "{}", s);
    }
    for s in ["", "abc", "10mm", " 1", "1 ", "1.2.3", ".", "e5", "1e", "1e+", "+", "--1", "inf", "NaN", "1,5"] {
        assert!(!is_number(s), "{}", s);
    }
}

const F64_LIMIT: &str = "179769313486231580793728971405303415079934132710037826936173778980444968292764750946649017977587207096330286416692887910946555547851940402630657488671505820681908902000708383676273854845817711531764475730270069855571366959622842914819860834936475292719074168444365510704342711559699508093042880177904174497792";
const BELOW_F64_LIMIT: &str = "179769313486231580793728971405303415079934132710037826936173778980444968292764750946649017977587207096330286416692887910946555547851940402630657488671505820681908902000708383676273854845817711531764475730270069855571366959622842914819860834936475292719074168444365510704342711559699508093042880177904174497791";

#[test]
fn number_finite_range() {
    let finite = [
        "1e308",
        "10e307",
        "1.7976931348623157e308",
        "1.7976931348623158e308",
        "0e400",
        "0.001e310",
        "1e-400",
        "-1e308",
        "00001e308",
        "0.0000e99999999999999999999999",
        "1e-99999999999999999999999",
        BELOW_F64_LIMIT,
    ];
    for s in finite {
        assert!(is_number(s), "{}", s);
        assert!(s.parse::<f64>().unwrap().is_finite(), "{}", s);
    }
    let overflowing = [
        "1.7976931348623159e308",
        "1.8e308",
        "1e309",
        "1e400",
        "-1e400",
        "0.01e311",
        "1e99999999999999999999999",
        F64_LIMIT,
    ];
    for s in overflowing {
        assert!(!is_number(s), "{}", s);
        assert!(!s.parse::<f64>().unwrap().is_finite(), "{}", s);
    }
}

#[test]
fn largest_finite_width() {
    assert_eq!(extract(vec![svg(&[("width", "1e308"), ("height", "1")])]), some("1e308", "1"));
    let root = svg(&[("width", "1e400"), ("height", "1"), ("viewBox", "0 0 3 4")]);
    assert_eq!(extract(vec![root]), some("3", "4"));
}

#[test]
fn min_x_min_y_do_not_matter() {
    assert_eq!(extract(vec![svg(&[("viewBox", "10 20 200 100")])]), some("200", "100"));
}

#[test]
fn cached_dimensions_stay_through_later_visits() {
    let mut pass = ExtractDimensions::default();
    pass.element(&svg(&[("width", "1"), ("height", "2")]));
    pass.element(&svg(&[("width", "3"), ("height", "4")]));
    pass.element(&svg(&[("viewBox", "0 0 5 6")]));
    assert_eq!(pair(&pass.dimensions()), some("1", "2"));
}

#[test]
fn numeric_pair_needs_both() {
    assert_eq!(pair(&numeric_pair("3", "4")), some("3", "4"));
    assert_eq!(pair(&numeric_pair("3", "x")), None);
    assert_eq!(pair(&numeric_pair("x", "4")), None);
}

#[test]
fn view_box_extent_from_tokens() {
    let tokens: Vec<String> = ["0", "0", "12", "34"].iter().map(|s| s.to_string()).collect();
    assert_eq!(pair(&view_box_extent(&tokens)), some("12", "34"));
    let short: Vec<String> = ["0", "12", "34"].iter().map(|s| s.to_string()).collect();
    assert_eq!(pair(&view_box_extent(&short)), None);
    let empty_first: Vec<String> = ["", "0", "12", "34"].iter().map(|s| s.to_string()).collect();
    assert_eq!(pair(&view_box_extent(&empty_first)), None);
}

#[test]
fn strategies_in_isolation() {
    let root = svg(&[("width", "64"), ("height", "32"), ("viewBox", "1,2,3,4")]);
    assert_eq!(pair(&attribute_dimensions(&root)), some("64", "32"));
    assert_eq!(pair(&view_box_dimensions(&root)), some("3", "4"));
    assert_eq!(pair(&declared_dimensions(&root)), some("64", "32"));
    assert_eq!(pair(&declared_dimensions(&element("g", &[("viewBox", "1,2,3,4")]))), None);
}

#[test]
fn error_message() {
    let e = Error::Generic("pass failed".to_string());
    assert_eq!(e.message(), "pass failed");
}
