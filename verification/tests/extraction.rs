use boletins::record::{find_by_id, output_path, Bulletin};
use boletins::row::extract_row;
use boletins::scan::extract;
use boletins::text::{apply_caption_tag, clean, has_caption_marker, split_id_name, split_type_prefix};

#[test]
fn clean_removes_newlines_and_trims() {
    assert_eq!(clean("  MP4 101\n - Episode \n"), "MP4 101 - Episode");
    assert_eq!(clean("\n\n"), "");
    assert_eq!(clean("a  b"), "a  b");
    assert_eq!(clean("\t x \r"), "x");
}

#[test]
fn clean_is_idempotent_on_examples() {
    for s in ["", "  x  ", "a\nb", "\n \t r\n n \r", "no change"] {
        let once = clean(s);
        assert_eq!(clean(&once), once);
    }
}

#[test]
fn split_type_prefix_takes_leading_token() {
    let (t, r) = split_type_prefix("MP4 101 - Episode One");
    assert_eq!(t, "MP4");
    assert_eq!(r, "101 - Episode One");
}

#[test]
fn split_type_prefix_boundary_whole_string_is_run() {
    // The alphanumeric run spans the whole string: no split point, so no
    // type code is extracted and the input passes through unchanged.
    let (t, r) = split_type_prefix("NoDashHere");
    assert_eq!(t, "");
    assert_eq!(r, "NoDashHere");
}

#[test]
fn split_type_prefix_without_leading_run() {
    let (t, r) = split_type_prefix("- anonymous");
    assert_eq!(t, "");
    assert_eq!(r, "- anonymous");
}

#[test]
fn split_type_prefix_trailing_whitespace_only() {
    let (t, r) = split_type_prefix("MP4   ");
    assert_eq!(t, "MP4");
    assert_eq!(r, "");
}

#[test]
fn split_id_name_on_first_dash() {
    let (id, name, ok) = split_id_name("101 - Episode One");
    assert!(ok);
    assert_eq!(id, "101");
    assert_eq!(name, "Episode One");

    let (id2, name2, ok2) = split_id_name("a - b - c");
    assert!(ok2);
    assert_eq!(id2, "a");
    assert_eq!(name2, "b - c");
}

#[test]
fn split_id_name_without_dash_degrades_to_empty() {
    let (id, name, ok) = split_id_name("NoDashHere");
    assert!(!ok);
    assert_eq!(id, "");
    assert_eq!(name, "");
}

#[test]
fn caption_tagging() {
    assert_eq!(apply_caption_tag("12", "Title (com legendas)"), "112");
    assert_eq!(apply_caption_tag("12", "Title"), "12");
    assert_eq!(apply_caption_tag("12", "Title (Com legendas)"), "112");
    // The check is case-sensitive and only covers the two literal forms.
    assert_eq!(apply_caption_tag("12", "Title (COM LEGENDAS)"), "12");
    assert!(has_caption_marker("x (com legendas) y"));
    assert!(!has_caption_marker("x (sem legendas) y"));
}

#[test]
fn row_end_to_end_example() {
    let r = extract_row(
        "MP4 101 - Episode One (com legendas)",
        "45 MB",
        "<a href=\"/files/101.mp4\">link</a>",
    )
    .expect("row with an anchor must yield a record");
    assert_eq!(r.id, "1101");
    assert_eq!(r.name, "Episode One (com legendas)");
    assert_eq!(r.url, "/files/101.mp4");
    assert_eq!(r.size, "45 MB");
    assert_eq!(r.file_type, "MP4");
}

#[test]
fn row_end_to_end_malformed_title() {
    let r = extract_row("NoDashHere", "10 MB", "<a href=\"/x\">l</a>")
        .expect("a malformed title must not drop the row");
    assert_eq!(r.id, "");
    assert_eq!(r.name, "");
    assert_eq!(r.url, "/x");
    assert_eq!(r.size, "10 MB");
    assert_eq!(r.file_type, "");
}

#[test]
fn row_without_anchor_is_skipped() {
    assert!(extract_row("MP4 1 - a", "1 MB", "no anchor in here").is_none());
    assert!(extract_row("MP4 1 - a", "1 MB", "").is_none());
}

#[test]
fn row_with_anchor_but_no_href_keeps_empty_url() {
    let r = extract_row("MP4 1 - a", "1 MB", "<a>plain</a>")
        .expect("an anchor without href still yields a record");
    assert_eq!(r.url, "");
    assert_eq!(r.id, "1");
    assert_eq!(r.name, "a");
}

#[test]
fn extract_preserves_row_order_and_skips() {
    let html = "<html><body><table>\
        <tr><th>Name</th><th>Size</th><th>Link</th></tr>\
        <tr><td>MP4 101 - Episode One (com legendas)</td><td>45 MB</td>\
        <td><a href=\"/files/101.mp4\">link</a></td></tr>\
        <tr><td>PDF 102 - Episode Two</td><td>2 MB</td>\
        <td><a href=\"/files/102.pdf\">link</a></td></tr>\
        <tr><td>NoDashHere</td><td>10 MB</td><td><a href=\"/x\">l</a></td></tr>\
        <tr><td>MP4 103 - Episode Three</td><td>50 MB</td><td>no link</td></tr>\
        </table></body></html>";
    let recs = extract(html);
    assert_eq!(recs.len(), 3);
    assert_eq!(recs[0].id, "1101");
    assert_eq!(recs[0].file_type, "MP4");
    assert_eq!(recs[0].url, "/files/101.mp4");
    assert_eq!(recs[1].id, "102");
    assert_eq!(recs[1].name, "Episode Two");
    assert_eq!(recs[1].file_type, "PDF");
    assert_eq!(recs[1].size, "2 MB");
    assert_eq!(recs[2].id, "");
    assert_eq!(recs[2].url, "/x");
}

#[test]
fn extract_cleans_whitespace_polluted_cells() {
    let html = "<table><tr><td>\n  MP4 7 - Seven\n</td><td>\n 1 MB </td>\
        <td><a href=\"/7\">l</a></td></tr></table>";
    let recs = extract(html);
    assert_eq!(recs.len(), 1);
    assert_eq!(recs[0].file_type, "MP4");
    assert_eq!(recs[0].id, "7");
    assert_eq!(recs[0].name, "Seven");
    assert_eq!(recs[0].size, "1 MB");
}

#[test]
fn extract_of_page_without_table_is_empty() {
    assert!(extract("<html><body><p>nothing</p></body></html>").is_empty());
}

fn rec(id: &str, name: &str, url: &str, size: &str, file_type: &str) -> Bulletin {
    Bulletin {
        id: id.to_string(),
        name: name.to_string(),
        url: url.to_string(),
        size: size.to_string(),
        file_type: file_type.to_string(),
    }
}

#[test]
fn find_by_id_returns_first_match() {
    let catalog = vec![
        rec("101", "a", "/a", "1", "mp4"),
        rec("102", "b", "/b", "2", "mp4"),
        rec("102", "c", "/c", "3", "pdf"),
    ];
    let id = "102".to_string();
    assert_eq!(find_by_id(&catalog, &id), Some(1));
    let missing = "999".to_string();
    assert_eq!(find_by_id(&catalog, &missing), None);
}

#[test]
fn output_path_concatenates_exactly() {
    assert_eq!(output_path("out/", "Episode One", "mp4"), "out/Episode One.mp4");
    assert_eq!(output_path("", "n", ""), "n.");
}
