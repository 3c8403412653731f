//! Print-ready html: the report with styles for printing and conversion to PDF.

use vstd::prelude::*;

use crate::text::{find_text, first_occurrence, occurs_at};
use crate::util::chars_of;

verus! {

/// The styles added to a report for printing, matching how Chrome lays out a PDF.
pub open spec fn print_css() -> Seq<char> {
    PRINT_CSS@
}

/// The print styles, as they are inserted.
pub const PRINT_CSS: &'static str = "\n        <style media=\"print\">\n            @page {\n                margin: 0.1in;\n                size: 8.5in auto;\n            }\n            \n            /* Match Chrome's internal PDF generation behavior */\n            html, body {\n                font-family: -apple-system, BlinkMacSystemFont, 'Segoe UI', Roboto, sans-serif;\n                font-size: 12px;\n                line-height: 1.4;\n                color: #333;\n                background: white !important;\n                margin: 0;\n                padding: 0;\n                height: auto;\n                overflow: visible;\n            }\n            \n            /* Prevent page breaks in critical elements but allow natural flow */\n            h1, h2, h3, h4, h5, h6 {\n                page-break-after: avoid;\n                break-after: avoid;\n                page-break-inside: avoid;\n                break-inside: avoid;\n            }\n            \n            /* Table handling - prevent breaking table headers but allow content to flow */\n            table {\n                border-collapse: collapse;\n                width: 100% !important;\n                font-size: 11px;\n                margin-bottom: 20px;\n            }\n            \n            thead {\n                display: table-header-group;\n                page-break-inside: avoid;\n                break-inside: avoid;\n            }\n            \n            tbody {\n                display: table-row-group;\n            }\n            \n            tr {\n                page-break-inside: avoid;\n                break-inside: avoid;\n            }\n            \n            th, td {\n                border: 1px solid #ddd !important;\n                padding: 4px 8px !important;\n                text-align: left;\n                page-break-inside: avoid;\n                break-inside: avoid;\n            }\n            \n            th {\n                background-color: #f5f5f5 !important;\n                font-weight: bold;\n            }\n            \n            /* Allow natural page breaks for content sections */\n            .metrics-section, .overview-section {\n                page-break-inside: auto;\n                break-inside: auto;\n            }\n            \n            /* Ensure charts and images scale properly */\n            img, canvas, svg {\n                max-width: 100% !important;\n                height: auto !important;\n                page-break-inside: avoid;\n                break-inside: avoid;\n            }\n        </style>\n        ";

/// The text with the print styles inserted before its first `</head>`, or, when it
/// has none, placed in front of it on a line of their own.
pub open spec fn with_print_css(html: Seq<char>) -> Seq<char> {
    match first_occurrence(html, "</head>"@) {
        Some(i) => html.take(i) + print_css() + html.skip(i),
        None => print_css() + "\n"@ + html,
    }
}

/// Add print-optimized CSS styles to html content, matching Chrome's internal PDF
/// generation: they go just before `</head>`, or in front of the content when it
/// has no head tag.
pub fn add_print_css(html_content: &str) -> (s: String)
    ensures
        s@ == with_print_css(html_content@),
{
    let text = chars_of(html_content);
    let head_end_tag = chars_of("</head>");
    match find_text(&text, &head_end_tag) {
        Some(head_end) => {
            let mut result = String::from_str(html_content.substring_char(0, head_end));
            result.append(PRINT_CSS);
            result.append(html_content.substring_char(head_end, text.len()));
            proof {
                let html = html_content@;
                let first = first_occurrence(html, "</head>"@);
                assert(occurs_at(html, "</head>"@, head_end as int));
                assert(first == Some(head_end as int)) by {
                    let c = choose|i: int| occurs_at(html, "</head>"@, i) && forall|j: int| 0 <= j < i ==> !occurs_at(html, "</head>"@, j);
                    assert(occurs_at(html, "</head>"@, c) && forall|j: int| 0 <= j < c ==> !occurs_at(html, "</head>"@, j));
                    if c < head_end {
                    } else if c > head_end {
                    }
                }
                assert(html.subrange(0, head_end as int) =~= html.take(head_end as int));
                assert(html.subrange(head_end as int, html.len() as int) =~= html.skip(head_end as int));
            }
            result
        },
        None => {
            let mut result = String::from_str(PRINT_CSS);
            result.append("\n");
            result.append(html_content);
            proof {
                assert(!exists|i: int| occurs_at(html_content@, "</head>"@, i));
            }
            result
        },
    }
}

/// Generate print-optimized html content by adding the print styles, for PDF
/// generation as well as for stand-alone html with its styles.
pub fn generate_print_optimized_html_content(html_content: &str) -> (s: String)
    ensures
        s@ == with_print_css(html_content@),
{
    add_print_css(html_content)
}

} // verus!
