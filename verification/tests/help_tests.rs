use shr_daw::help::{help_response, lines, markdown_html, target_index, usable_lan_ipv4, HelpKind, WebHelpUnavailable};

const SAMPLE_HELP: &str = "# SHR-DAW Help\n\
\n\
[Controller basics](#controller-basics)\n\
[Saving & loading](#saving-loading)\n\
\n\
## Controller basics\n\
Turn the master encoder to move between items and click it to choose the highlighted entry.\n\
- Pads start notes; the four command buttons switch pages or items.\n\
See [Saving & loading](#saving-loading) before you switch projects.\n\
\n\
## Saving & loading\n\
Projects are saved as plain text files that <you> can edit.\n\
\n\
\n";

#[test]
fn help_lines_fit_forty_column_inner_width() {
    for line in lines(SAMPLE_HELP, 38) {
        assert!(line.text.chars().count() <= 38, "{line:?}");
    }
}

#[test]
fn web_help_html_contains_internal_links_and_headings() {
    let html = markdown_html(SAMPLE_HELP);
    assert!(html.contains("<h1 id=\"shr-daw-help\">SHR-DAW Help</h1>"));
    assert!(html.contains("<a href=\"#controller-basics\">Controller basics</a>"));
    assert!(html.contains("<h2 id=\"controller-basics\">Controller basics</h2>"));
}

#[test]
fn help_links_target_headings() {
    let lines = lines(SAMPLE_HELP, 38);
    let links = lines
        .iter()
        .filter_map(|line| line.target.as_deref())
        .collect::<Vec<_>>();
    assert!(!links.is_empty());
    for target in links {
        assert!(target_index(&lines, target).is_some(), "missing {target}");
    }
}

#[test]
fn help_lines_are_laid_out_by_kind() {
    let lines = lines(SAMPLE_HELP, 38);
    assert_eq!(lines[0].text, "SHR-DAW Help");
    assert_eq!(lines[0].kind, HelpKind::Heading);
    assert_eq!(lines[0].anchor.as_deref(), Some("shr-daw-help"));
    assert_eq!(lines[1].kind, HelpKind::Blank);
    assert_eq!(lines[2].text, "  Controller basics >");
    assert_eq!(lines[2].kind, HelpKind::Link);
    assert_eq!(lines[2].target.as_deref(), Some("controller-basics"));
    assert_eq!(lines.last().unwrap().kind, HelpKind::Text);
    let item = lines.iter().position(|line| line.text.starts_with("- Pads")).unwrap();
    assert!(lines[item + 1].text.starts_with("  "));
    assert_eq!(target_index(&lines, "saving-loading"), lines.iter().position(|l| l.text == "Saving & loading"));
    assert_eq!(target_index(&lines, "nowhere"), None);
    let narrow = shr_daw::help::lines("# A very long heading that does not fit", 2);
    assert_eq!(narrow[0].text, "A very l");
}

#[test]
fn html_escapes_text_and_collects_paragraphs() {
    let html = markdown_html(SAMPLE_HELP);
    assert!(html.starts_with("<!doctype html>"));
    assert!(html.ends_with("</body></html>"));
    assert!(html.contains("<p class=\"toc\"><a href=\"#saving-loading\">Saving &amp; loading</a></p>"));
    assert!(html.contains("<p>Projects are saved as plain text files that &lt;you&gt; can edit.</p>"));
}

#[test]
fn request_handler_serves_only_help_path() {
    let ok = help_response(b"GET /help HTTP/1.1\r\nHost: test\r\n\r\n", "<html>help</html>");
    assert!(ok.starts_with("HTTP/1.1 200 OK"));
    assert!(ok.contains("Content-Length: 17\r\n"));
    assert!(ok.ends_with("<html>help</html>"));
    let other = help_response(b"GET /other HTTP/1.1\r\nHost: test\r\n\r\n", "<html>help</html>");
    assert!(other.starts_with("HTTP/1.1 404 Not Found"));
    assert!(!other.contains("<html>help</html>"));
    let garbage = help_response(&[0xff, 0xfe], "<html>help</html>");
    assert!(garbage.starts_with("HTTP/1.1 404 Not Found"));
}

#[test]
fn lan_addresses_exclude_special_ranges() {
    assert!(usable_lan_ipv4([192, 168, 1, 20]));
    assert!(!usable_lan_ipv4([127, 0, 0, 1]));
    assert!(!usable_lan_ipv4([169, 254, 3, 4]));
    assert!(!usable_lan_ipv4([0, 0, 0, 0]));
    assert!(!usable_lan_ipv4([224, 0, 0, 251]));
    assert!(!usable_lan_ipv4([192, 0, 2, 7]));
    assert_eq!(WebHelpUnavailable::NoLanIp.label(), "web help unavailable");
}
