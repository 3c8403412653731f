use goose::print::{add_print_css, generate_print_optimized_html_content, PRINT_CSS};

#[test]
fn test_add_print_css_with_head_tag() {
    let html = r#"<!DOCTYPE html>
<html>
<head>
    <title>Test</title>
</head>
<body>
    <h1>Test Content</h1>
</body>
</html>"#;

    let result = add_print_css(html);

    // Should contain the given content
    assert!(result.contains("Test Content"));
    assert!(result.contains("<title>Test</title>"));

    // Should contain the print CSS
    assert!(result.contains("@page"));
    assert!(result.contains("font-family"));
    assert!(result.contains("page-break-inside: avoid"));

    // CSS should be inserted before </head>
    let head_end = result.find("</head>").unwrap();
    let css_start = result.find("<style media=\"print\">").unwrap();
    assert!(css_start < head_end);
}

#[test]
fn test_add_print_css_without_head_tag() {
    let html = "<h1>Simple HTML</h1>";
    let result = add_print_css(html);

    // Should contain the given content
    assert!(result.contains("Simple HTML"));

    // Should contain the print CSS (prepended)
    assert!(result.contains("<style media=\"print\">"));
    assert!(result.trim_start().starts_with("<style media=\"print\">"));
}

#[test]
fn print_css_goes_before_the_first_head_end() {
    let html = "<head>a</head><p>b</head></p>";
    let result = add_print_css(html);
    assert_eq!(result, format!("<head>a{}</head><p>b</head></p>", PRINT_CSS));
}

#[test]
fn print_css_is_prepended_on_its_own_line() {
    let html = "<p>x</p>";
    assert_eq!(add_print_css(html), format!("{}\n<p>x</p>", PRINT_CSS));
    assert_eq!(generate_print_optimized_html_content(html), add_print_css(html));
    assert_eq!(add_print_css(""), format!("{}\n", PRINT_CSS));
}
