use notice_diff::html::{is_well_formed, Html, HtmlNode};
use notice_diff::scrape::{is_notice_board, scrape, try_scrape};

enum T {
    E(&'static str, Vec<(&'static str, &'static str)>, Vec<T>),
    X(&'static str),
}

fn build(t: &T, nodes: &mut Vec<HtmlNode>) -> usize {
    let idx = nodes.len();
    let (name, attrs, content, children): (Option<String>, Vec<(String, String)>, Option<String>, &[T]) =
        match t {
            T::E(n, a, c) => (
                Some(n.to_string()),
                a.iter().map(|(k, v)| (k.to_string(), v.to_string())).collect(),
                None,
                c.as_slice(),
            ),
            T::X(s) => (None, vec![], Some(s.to_string()), &[]),
        };
    nodes.push(HtmlNode {
        name,
        attrs,
        content,
        children: vec![],
        descendants: vec![],
        next: None,
    });
    let kids: Vec<usize> = children.iter().map(|c| build(c, nodes)).collect();
    nodes[idx].descendants = (idx + 1..nodes.len()).collect();
    for w in kids.windows(2) {
        nodes[w[0]].next = Some(w[1]);
    }
    nodes[idx].children = kids;
    idx
}

fn page(root: T) -> Html {
    let mut nodes = Vec::new();
    build(&root, &mut nodes);
    Html { nodes }
}

fn e(name: &'static str, attrs: Vec<(&'static str, &'static str)>, children: Vec<T>) -> T {
    T::E(name, attrs, children)
}

fn x(s: &'static str) -> T {
    T::X(s)
}

fn notice_li() -> T {
    e(
        "li",
        vec![],
        vec![
            e(
                "h6",
                vec![],
                vec![
                    e("a", vec![("href", "/n1")], vec![x(" Notice 1 |")]),
                    e("a", vec![("href", "/n1.pdf")], vec![x("| PDF")]),
                    e("span", vec![], vec![x("no link")]),
                ],
            ),
            e("small", vec![], vec![x(" Date: 1 Jan ")]),
        ],
    )
}

fn board(li: T) -> Html {
    page(e(
        "html",
        vec![],
        vec![
            e("a", vec![("href", "#t1")], vec![x(" Exams \n")]),
            e(
                "div",
                vec![("class", "tab_content active"), ("id", "t1")],
                vec![e("div", vec![("class", "latest_tab")], vec![e("ul", vec![], vec![li])])],
            ),
            e("div", vec![("class", "tab_content")], vec![]),
        ],
    ))
}

#[test]
fn scrape_reads_tab_notice_links_and_date() {
    let h = board(notice_li());
    assert!(is_well_formed(&h));
    assert!(is_notice_board(&h));
    let info = scrape(&h);
    assert_eq!(info.0.len(), 1);
    let t = &info.0[0];
    assert_eq!(t.title, "Exams");
    assert_eq!(t.data.len(), 1);
    let d = &t.data[0];
    assert_eq!(d.title, "Notice 1");
    assert_eq!(d.link.as_ref().map(|l| l.0.as_str()), Some("https://dtu.ac.in/n1"));
    assert_eq!(d.date.as_deref(), Some("1 Jan"));
    assert_eq!(d.children.len(), 1);
    assert_eq!(d.children[0].title, "PDF");
    assert_eq!(d.children[0].link.0, "https://dtu.ac.in/n1.pdf");
}

#[test]
fn scrape_refuses_h6_without_anchor() {
    let li = e("li", vec![], vec![e("h6", vec![], vec![x("plain"), e("a", vec![("href", "/a")], vec![])])]);
    let h = board(li);
    assert!(!is_notice_board(&h));
    assert!(try_scrape(&h).is_none());
}

#[test]
fn scrape_skips_li_without_h6() {
    let li = e("li", vec![], vec![e("p", vec![], vec![x("text")])]);
    let info = try_scrape(&board(li)).expect("nothing malformed");
    assert_eq!(info.0.len(), 1);
    assert!(info.0[0].data.is_empty());
}

#[test]
fn scrape_skips_tab_without_title() {
    let h = page(e(
        "html",
        vec![],
        vec![e(
            "div",
            vec![("class", "tab_content"), ("id", "t9")],
            vec![e("div", vec![("class", "latest_tab")], vec![])],
        )],
    ));
    let info = try_scrape(&h).expect("nothing malformed");
    assert!(info.0.is_empty());
}

#[test]
fn scrape_notice_without_date() {
    let li = e(
        "li",
        vec![],
        vec![
            e("h6", vec![], vec![e("a", vec![], vec![x("Untitled link")])]),
            e("p", vec![], vec![x("Date: 2 Feb")]),
        ],
    );
    let info = try_scrape(&board(li)).expect("nothing malformed");
    let d = &info.0[0].data[0];
    assert_eq!(d.title, "Untitled link");
    assert!(d.link.is_none());
    assert!(d.date.is_none());
    assert!(d.children.is_empty());
}

#[test]
fn well_formed_detects_bad_index() {
    let mut h = board(notice_li());
    assert!(is_well_formed(&h));
    let n = h.nodes.len();
    h.nodes[0].next = Some(n);
    assert!(!is_well_formed(&h));
}

#[test]
fn scrape_leaves_out_empty_titles() {
    let li = e(
        "li",
        vec![],
        vec![e(
            "h6",
            vec![],
            vec![
                e("a", vec![("href", "/n2")], vec![x(" | ")]),
                e("a", vec![("href", "/n2.pdf")], vec![x("PDF")]),
            ],
        )],
    );
    let info = try_scrape(&board(li)).expect("nothing malformed");
    assert_eq!(info.0.len(), 1);
    assert!(info.0[0].data.is_empty());

    let li = e(
        "li",
        vec![],
        vec![e(
            "h6",
            vec![],
            vec![
                e("a", vec![], vec![x("Notice")]),
                e("a", vec![("href", "/blank.pdf")], vec![x("\u{a0}|")]),
                e("a", vec![("href", "/b.pdf")], vec![x(" B ")]),
            ],
        )],
    );
    let info = try_scrape(&board(li)).expect("nothing malformed");
    let d = &info.0[0].data[0];
    assert_eq!(d.children.len(), 1);
    assert_eq!(d.children[0].title, "B");
}

#[test]
fn scrape_skips_tab_with_blank_title() {
    let h = page(e(
        "html",
        vec![],
        vec![
            e("a", vec![("href", "#t2")], vec![x("  ")]),
            e(
                "div",
                vec![("class", "tab_content"), ("id", "t2")],
                vec![e("div", vec![("class", "latest_tab")], vec![])],
            ),
        ],
    ));
    let info = try_scrape(&h).expect("nothing malformed");
    assert!(info.0.is_empty());
}
