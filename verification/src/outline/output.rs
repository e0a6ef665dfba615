//! An outline as a flat HTML page: one paragraph for each line, pushed in by
//! its indent level.

use vstd::prelude::*;
use vstd::string::StringExecFns;
use crate::outline::line::{line_views, Content, Line};
use crate::output_html::SHELL_HEAD;
use crate::parse::{LineSpec, Token};
use crate::text::{decimal, decimal_string};

verus! {

/// The pixels by which one indent level pushes a paragraph in.
pub const MARGIN_STEP: u128 = 20;

/// From the end of the title up to the first line of the page.
pub const PAGE_OPEN: &'static str =
    "</title>\n  <link rel=\"stylesheet\" href=\"https://fleetinglore.github.io/collection/collection.css\">\n</head>\n<body>\n";

/// What closes the page.
pub const PAGE_TAIL: &'static str = "\n</body>\n</html>";

/// The paragraph of one line: its margin is 20 pixels for each indent level.
/// An atom gives its text; a link gives an anchor that opens in a new
/// browsing context; a domain gives its name in bold behind a `+`.
pub open spec fn line_html(line: LineSpec) -> Seq<char> {
    let open = "<p style=\"margin-left: "@ + decimal(line.indent * 20) + "px\">"@;
    match line.token {
        Token::Link(name, value) => open + "<a href=\""@ + value + "\" target=\"_blank\">"@ + name
            + "</a></p>"@,
        Token::Domain(name) => open + "<strong>+ "@ + name + "</strong></p>"@,
        Token::Atom(text) => open + text + "</p>"@,
        _ => Seq::empty(),
    }
}

/// The paragraphs of a sequence of lines, one after the other.
pub open spec fn lines_html(lines: Seq<LineSpec>) -> Seq<char>
    decreases lines.len(),
{
    if lines.len() == 0 {
        Seq::empty()
    } else {
        lines_html(lines.drop_last()) + line_html(lines.last())
    }
}

/// The whole page: the shell with the title, and the paragraphs as its body.
pub open spec fn page_html(title: Seq<char>, lines: Seq<LineSpec>) -> Seq<char> {
    SHELL_HEAD@ + title + PAGE_OPEN@ + lines_html(lines) + PAGE_TAIL@
}

/// Renders one line of an outline as a paragraph.
pub fn line_to_html(line: &Line) -> (html: String)
    ensures
        html@ == line_html(line@),
{
    let margin: u128 = (line.indent as u128) * MARGIN_STEP;
    let mut html = String::from_str("<p style=\"margin-left: ");
    let number = decimal_string(margin);
    html.append(number.as_str());
    html.append("px\">");
    match &line.content {
        Content::Atom(text) => {
            html.append(text.as_str());
            html.append("</p>");
        },
        Content::Link(name, value) => {
            html.append("<a href=\"");
            html.append(value.as_str());
            html.append("\" target=\"_blank\">");
            html.append(name.as_str());
            html.append("</a></p>");
        },
        Content::Domain(name) => {
            html.append("<strong>+ ");
            html.append(name.as_str());
            html.append("</strong></p>");
        },
    }
    html
}

/// Renders an outline as a complete HTML page with the given title.
pub fn lines_to_html(title: &str, lines: &Vec<Line>) -> (html: String)
    ensures
        html@ == page_html(title@, line_views(lines@)),
{
    let mut html = String::from_str(SHELL_HEAD);
    html.append(title);
    html.append(PAGE_OPEN);
    let mut body = String::new();
    let mut i: usize = 0;
    while i < lines.len()
        invariant
            i <= lines.len(),
            body@ == lines_html(line_views(lines@).take(i as int)),
        decreases lines.len() - i,
    {
        let piece = line_to_html(&lines[i]);
        body.append(piece.as_str());
        proof {
            let all = line_views(lines@);
            assert(all.take(i + 1).drop_last() =~= all.take(i as int));
        }
        i += 1;
    }
    proof {
        assert(line_views(lines@).take(lines.len() as int) =~= line_views(lines@));
    }
    html.append(body.as_str());
    html.append(PAGE_TAIL);
    html
}

} // verus!
