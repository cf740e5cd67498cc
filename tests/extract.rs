use notice_diff::extract::{clean_text, date_text, make_link};

#[test]
fn clean_text_strips_junk() {
    assert_eq!(clean_text("  | Notice title |\u{a0}\n"), "Notice title");
    assert_eq!(clean_text("\t\tA | B\t"), "A | B");
    assert_eq!(clean_text("||"), "");
    assert_eq!(clean_text(""), "");
    assert_eq!(clean_text("| \r x \u{2003}|"), "x");
}

#[test]
fn date_text_drops_label() {
    assert_eq!(date_text("  Date: 12 Jan 2024 "), "12 Jan 2024");
    assert_eq!(date_text("date :: 3 Mar"), "3 Mar");
    assert_eq!(date_text("DateDate 1"), "1");
    assert_eq!(date_text("5 May"), "5 May");
}

#[test]
fn make_link_resolves_against_site() {
    let l = make_link("/files/a.pdf").expect("relative link resolves");
    assert_eq!(l.0, "https://dtu.ac.in/files/a.pdf");
    let l = make_link("http://x/1").expect("absolute link parses");
    assert_eq!(l.0, "http://x/1");
    assert!(make_link("http://[::1").is_none());
}
