use earth_ratings::bookmark_html::{parse_bookmark_line, parse_bookmarks_html, ImportStep};

fn link(url: &str, title: &str) -> ImportStep {
    ImportStep::Link { url: url.to_string(), title: title.to_string() }
}

#[test]
fn folder_and_link_lines() {
    assert_eq!(parse_bookmark_line("<DT><H3>News</H3>"), vec![ImportStep::Folder(String::new())]);
    assert_eq!(
        parse_bookmark_line("<DT><A HREF=\"https://a.org\">A</A>"),
        vec![link("https://a.org", "")]
    );
    assert_eq!(parse_bookmark_line("<H3>Top</H3>"), vec![]);
    assert_eq!(parse_bookmark_line("</DL><p>"), vec![ImportStep::EndFolder]);
    assert_eq!(parse_bookmark_line("</dl><p>"), vec![ImportStep::EndFolder]);
    assert_eq!(parse_bookmark_line("</DL>"), vec![]);
}

#[test]
fn lower_case_links_need_upper_case_href() {
    assert_eq!(parse_bookmark_line("<dt><a href=\"https://b.org\">B</a>"), vec![]);
    assert_eq!(
        parse_bookmark_line("<dt><a HREF=\"https://b.org\">B</a>"),
        vec![link("https://b.org", "")]
    );
    assert_eq!(parse_bookmark_line("<DT><A HREF=https://c.org>C</A>"), vec![]);
}

#[test]
fn whole_file_in_order() {
    let data = "<!DOCTYPE NETSCAPE-Bookmark-file-1>\n<DL><p>\n    <DT><H3>Reading</H3>\n    <DL><p>\n        <DT><A HREF=\"https://x.org\">X</A>\r\n    </DL><p>\n    <DT><A HREF=\"https://y.org/\u{e9}\">Y</A>\n</DL><p>\n";
    let steps = parse_bookmarks_html(data);
    assert_eq!(
        steps,
        vec![
            ImportStep::Folder(String::new()),
            link("https://x.org", ""),
            ImportStep::EndFolder,
            link("https://y.org/\u{e9}", ""),
            ImportStep::EndFolder,
        ]
    );
    assert!(parse_bookmarks_html("").is_empty());
}
