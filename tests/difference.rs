use notice_diff::{
    diff_data, diff_link_node, diff_tabs, difference, Configuration, Data, DataUpdate, Information,
    Link, LinkNode, LinkNodeUpdate, Tab, Update,
};

fn link(s: &str) -> Link {
    Link(s.to_string())
}

fn node(title: &str, l: &str) -> LinkNode {
    LinkNode { title: title.to_string(), link: link(l) }
}

fn notice(title: &str, l: Option<&str>, children: Vec<LinkNode>, date: Option<&str>) -> Data {
    Data {
        title: title.to_string(),
        link: l.map(link),
        children,
        date: date.map(|d| d.to_string()),
    }
}

fn tab(title: &str, data: Vec<Data>) -> Tab {
    Tab { title: title.to_string(), data }
}

fn all() -> Configuration {
    Configuration::new(true, true, true, true)
}

fn link_text(l: &Option<Link>) -> Option<&str> {
    l.as_ref().map(|x| x.0.as_str())
}

#[test]
fn modified_notice_in_unchanged_tab() {
    let older = Information(vec![tab(
        "Exam",
        vec![notice("N1", Some("http://x/1"), vec![], Some("1 Jan"))],
    )]);
    let newer = Information(vec![tab(
        "Exam",
        vec![notice("N1", Some("http://x/2"), vec![], Some("1 Jan"))],
    )]);
    let r = difference(newer, older, Configuration::default());
    assert_eq!(r.0.len(), 1);
    assert_eq!(r.0[0].title, "Exam");
    assert_eq!(r.0[0].update, Update::Unchanged);
    assert_eq!(r.0[0].data.len(), 1);
    let d = &r.0[0].data[0];
    assert_eq!(d.title, "N1");
    assert_eq!(d.update, Update::Modified);
    assert_eq!(link_text(&d.link), Some("http://x/2"));
    assert_eq!(d.date.as_deref(), Some("1 Jan"));
    assert!(d.children.is_empty());
}

#[test]
fn removed_tab_inherits() {
    let older = Information(vec![tab(
        "Placements",
        vec![
            notice("Drive", Some("http://x/drive"), vec![node("pdf", "http://x/drive.pdf")], None),
            notice("Results", None, vec![], Some("2 Feb")),
        ],
    )]);
    let newer = Information(vec![]);
    let c = Configuration::new(true, true, true, false);
    let r = difference(newer, older, c);
    assert_eq!(r.0.len(), 1);
    assert_eq!(r.0[0].title, "Placements");
    assert_eq!(r.0[0].update, Update::Removed);
    assert_eq!(r.0[0].data.len(), 2);
    for d in &r.0[0].data {
        assert_eq!(d.update, Update::Inherit);
        for ch in &d.children {
            assert_eq!(ch.update, Update::Inherit);
        }
    }
    assert_eq!(r.0[0].data[0].children.len(), 1);
    assert_eq!(r.0[0].data[0].children[0].link.0, "http://x/drive.pdf");
}

#[test]
fn removed_tab_hidden_when_not_reported() {
    let older = Information(vec![tab("Placements", vec![])]);
    let c = Configuration::new(true, true, false, false);
    let r = difference(Information(vec![]), older, c);
    assert!(r.0.is_empty());
}

#[test]
fn last_duplicate_wins() {
    let older = vec![node("T", "b")];
    let newer = vec![node("T", "a"), node("T", "b")];
    let r = diff_link_node(&newer, &older, all());
    assert_eq!(r.len(), 1);
    assert_eq!(r[0].title, "T");
    assert_eq!(r[0].link.0, "b");
    assert_eq!(r[0].update, Update::Unchanged);

    let newer = vec![node("T", "b"), node("T", "a")];
    let r = diff_link_node(&newer, &older, all());
    assert_eq!(r.len(), 1);
    assert_eq!(r[0].link.0, "a");
    assert_eq!(r[0].update, Update::Modified);
}

#[test]
fn duplicates_in_older_report_last() {
    let older = vec![node("T", "a"), node("T", "b")];
    let r = diff_link_node(&vec![], &older, all());
    assert_eq!(r.len(), 1);
    assert_eq!(r[0].link.0, "b");
    assert_eq!(r[0].update, Update::Removed);
}

fn sample() -> Vec<Tab> {
    vec![
        tab(
            "Exam",
            vec![
                notice("N1", Some("http://x/1"), vec![node("a", "http://x/a")], Some("1 Jan")),
                notice("N2", None, vec![], None),
            ],
        ),
        tab("News", vec![notice("N3", Some("http://x/3"), vec![], None)]),
    ]
}

#[test]
fn self_difference_all_unchanged() {
    let r = difference(Information(sample()), Information(sample()), all());
    assert_eq!(r.0.len(), 2);
    for t in &r.0 {
        assert_eq!(t.update, Update::Unchanged);
        for d in &t.data {
            assert_eq!(d.update, Update::Unchanged);
            for ch in &d.children {
                assert_eq!(ch.update, Update::Unchanged);
            }
        }
    }
    assert_eq!(r.0[0].data.len(), 2);
    assert_eq!(r.0[0].data[0].children.len(), 1);
}

#[test]
fn self_difference_default_is_empty() {
    let r = difference(Information(sample()), Information(sample()), Configuration::default());
    assert!(r.0.is_empty());
}

#[test]
fn tab_kept_for_changed_notice() {
    let older = vec![tab(
        "Exam",
        vec![notice("N1", Some("http://x/1"), vec![], None), notice("N2", None, vec![], None)],
    )];
    let newer = vec![tab(
        "Exam",
        vec![notice("N1", Some("http://x/9"), vec![], None), notice("N2", None, vec![], None)],
    )];
    let c = Configuration::new(true, false, false, false);
    let r = diff_tabs(&newer, &older, c);
    assert_eq!(r.len(), 1);
    assert_eq!(r[0].update, Update::Unchanged);
    assert_eq!(r[0].data.len(), 1);
    assert_eq!(r[0].data[0].title, "N1");
    assert_eq!(r[0].data[0].update, Update::Modified);
}

#[test]
fn notice_kept_for_changed_sub_link() {
    let older = vec![notice("N", None, vec![node("s", "http://x/1")], None)];
    let newer = vec![notice("N", None, vec![node("s", "http://x/2")], None)];
    let c = Configuration::new(true, false, false, false);
    let r = diff_data(&newer, &older, c);
    assert_eq!(r.len(), 1);
    assert_eq!(r[0].update, Update::Unchanged);
    assert_eq!(r[0].children.len(), 1);
    assert_eq!(r[0].children[0].update, Update::Modified);
    assert_eq!(r[0].children[0].link.0, "http://x/2");
}

#[test]
fn partition_of_titles() {
    let older = vec![node("A", "1"), node("B", "2")];
    let newer = vec![node("B", "2"), node("C", "3")];
    let r = diff_link_node(&newer, &older, all());
    let got: Vec<(&str, Update)> = r.iter().map(|u| (u.title.as_str(), u.update)).collect();
    assert_eq!(got, vec![("A", Update::Removed), ("B", Update::Unchanged), ("C", Update::Added)]);
}

#[test]
fn matched_titles_never_added_or_removed() {
    let older = vec![notice("A", Some("1"), vec![], None), notice("B", None, vec![], Some("d"))];
    let newer = vec![notice("B", None, vec![], Some("e")), notice("A", Some("1"), vec![], None)];
    let r = diff_data(&newer, &older, all());
    assert_eq!(r.len(), 2);
    assert_eq!(r[0].title, "A");
    assert_eq!(r[0].update, Update::Unchanged);
    assert_eq!(r[1].title, "B");
    assert_eq!(r[1].update, Update::Modified);
    assert_eq!(r[1].date.as_deref(), Some("e"));
}

#[test]
fn added_notice_carries_inherited_children() {
    let newer = vec![notice("N", Some("http://x/n"), vec![node("s", "http://x/s")], None)];
    let r = diff_data(&newer, &vec![], Configuration::default());
    assert_eq!(r.len(), 1);
    assert_eq!(r[0].update, Update::Added);
    assert_eq!(link_text(&r[0].link), Some("http://x/n"));
    assert_eq!(r[0].children.len(), 1);
    assert_eq!(r[0].children[0].update, Update::Inherit);
}

#[test]
fn added_hidden_when_not_reported() {
    let newer = vec![node("A", "1")];
    let r = diff_link_node(&newer, &vec![], Configuration::new(true, false, true, true));
    assert!(r.is_empty());
}

#[test]
fn removed_sub_link_reported_when_asked() {
    let older = vec![node("A", "1")];
    let r = diff_link_node(&vec![], &older, Configuration::new(false, false, true, false));
    assert_eq!(r.len(), 1);
    assert_eq!(r[0].update, Update::Removed);
    assert_eq!(r[0].link.0, "1");
    let r = diff_link_node(&vec![], &older, Configuration::new(true, true, false, true));
    assert!(r.is_empty());
}

#[test]
fn modified_hidden_when_not_reported() {
    let older = vec![node("A", "1")];
    let newer = vec![node("A", "2")];
    let r = diff_link_node(&newer, &older, Configuration::new(false, true, true, true));
    assert!(r.is_empty());
}

#[test]
fn empty_snapshots() {
    let r = difference(Information(vec![]), Information(vec![]), all());
    assert!(r.0.is_empty());
}

#[test]
fn duplicate_tabs_last_wins() {
    let older = vec![tab("T", vec![notice("x", None, vec![], None)]), tab("T", vec![])];
    let newer = vec![tab("T", vec![])];
    let r = diff_tabs(&newer, &older, all());
    assert_eq!(r.len(), 1);
    assert_eq!(r[0].update, Update::Unchanged);
    assert!(r[0].data.is_empty());
}

#[test]
fn configuration_constructors() {
    let d = Configuration::default();
    assert!(d.modified && d.added && d.removed && !d.unchanged);
    let w = Configuration::default_wasm_config();
    assert!(w.modified && w.added && w.removed && !w.unchanged);
    let n = Configuration::new(false, true, false, true);
    assert!(!n.modified && n.added && !n.removed && n.unchanged);
}

#[test]
fn conversions_mark_inherit() {
    let l = LinkNodeUpdate::from(node("s", "http://x/s"));
    assert_eq!(l.update, Update::Inherit);
    assert_eq!(l.title, "s");
    let d = DataUpdate::from(notice("N", None, vec![node("a", "1"), node("b", "2")], Some("d")));
    assert_eq!(d.update, Update::Inherit);
    assert_eq!(d.children.len(), 2);
    assert_eq!(d.children[1].title, "b");
    assert_eq!(d.children[1].update, Update::Inherit);
    assert_eq!(d.date.as_deref(), Some("d"));
}

#[test]
fn sub_links_self_difference_one_per_title() {
    let l = vec![node("A", "1"), node("B", "2"), node("A", "3")];
    let r = diff_link_node(&l, &l, all());
    let got: Vec<(&str, &str, Update)> =
        r.iter().map(|u| (u.title.as_str(), u.link.0.as_str(), u.update)).collect();
    assert_eq!(got, vec![("B", "2", Update::Unchanged), ("A", "3", Update::Unchanged)]);
    assert!(diff_link_node(&l, &l, Configuration::default()).is_empty());
}

#[test]
fn notices_self_difference_one_per_title() {
    let d = vec![
        notice("N", Some("http://x/1"), vec![node("s", "1"), node("s", "2")], None),
        notice("M", None, vec![], Some("d")),
        notice("N", Some("http://x/2"), vec![node("t", "3")], Some("e")),
    ];
    let r = diff_data(&d, &d, all());
    assert_eq!(r.len(), 2);
    assert_eq!(r[0].title, "M");
    assert_eq!(r[1].title, "N");
    assert_eq!(link_text(&r[1].link), Some("http://x/2"));
    assert_eq!(r[1].date.as_deref(), Some("e"));
    assert_eq!(r[1].children.len(), 1);
    assert_eq!(r[1].children[0].title, "t");
    assert!(r.iter().all(|e| e.update == Update::Unchanged));
    assert!(diff_data(&d, &d, Configuration::default()).is_empty());
}

#[test]
fn matched_tab_left_out_without_changes_below() {
    let older = vec![tab("Exam", vec![notice("N1", None, vec![], None)])];
    let newer = vec![tab("Exam", vec![notice("N1", None, vec![], None)])];
    let r = diff_tabs(&newer, &older, Configuration::new(true, true, true, false));
    assert!(r.is_empty());
}
