//! Extraction of the notice board from a parsed page.
//!
//! Each element of class `tab_content` with an `id` is a tab, titled by the
//! cleaned text of the first element whose `href` is `#` followed by that id. Its
//! notices are the `li` elements below its first element of class
//! `latest_tab`. A notice is read from the first `h6` below its `li`: the
//! anchor that opens the `h6` gives title and link, the other children of the
//! `h6` that have a resolvable `href` are its sub-links, and a `small` element
//! right after the `h6` gives its date. Titles are cleaned with
//! `clean_text`, and a tab, notice or sub-link whose title cleans to nothing
//! is left out.
use vstd::prelude::*;
use crate::snapshot::{Data, DataV, Information, LinkNode, LinkNodeV, Tab, TabV, link_nodes_view, notices_view, opt_text, tabs_in_view};
use crate::html::{Html, HtmlNode, Pred, PredV, attr, attr_value, find_first, find_in, first_from, first_in, passes, node_matches, node_ok, node_text, text_of, well_formed};
use crate::extract::{BASE_URL, clean_text, cleaned, date_of, date_text, joined_url, make_link, presentable};
use crate::diff::entry_view;

verus! {

/// The sub-link that child `d` of a notice's `h6` gives, if any.
pub open spec fn sub_link(h: Seq<HtmlNode>, d: int) -> Seq<LinkNodeV> {
    match attr_value(h[d], "href"@) {
        Some(href) => match joined_url(BASE_URL@, href) {
            Some(l) => if cleaned(text_of(h, d)).len() == 0 {
                seq![]
            } else {
                seq![LinkNodeV { title: cleaned(text_of(h, d)), link: l }]
            },
            None => seq![],
        },
        None => seq![],
    }
}

/// The sub-links that the children of an `h6` after the first, up to the
/// `n`th, give.
pub open spec fn sub_links(h: Seq<HtmlNode>, cs: Seq<usize>, n: int) -> Seq<LinkNodeV>
    decreases n,
{
    if n <= 1 {
        seq![]
    } else {
        sub_links(h, cs, n - 1) + sub_link(h, cs[n - 1] as int)
    }
}

/// The date that the node after `h6` node `p` gives, if it is a `small`.
pub open spec fn date_after(h: Seq<HtmlNode>, p: int) -> Option<Seq<char>> {
    match h[p].next {
        Some(x) => if opt_text(h[x as int].name) == Some("small"@) {
            Some(date_of(text_of(h, x as int)))
        } else {
            None
        },
        None => None,
    }
}

/// The notice of `li` node `e`: none where it has no `h6` with a child or its
/// title cleans to nothing, and `None` where that child is not an anchor.
pub open spec fn notice_at(h: Seq<HtmlNode>, e: int) -> Option<Seq<DataV>> {
    match first_in(h, h[e].descendants@, PredV::Name("h6"@)) {
        None => Some(seq![]),
        Some(p) => if h[p as int].children@.len() == 0 {
            Some(seq![])
        } else {
            let a = h[p as int].children@[0] as int;
            if opt_text(h[a].name) != Some("a"@) {
                None
            } else if cleaned(text_of(h, a)).len() == 0 {
                Some(seq![])
            } else {
                Some(
                    seq![
                        DataV {
                            title: cleaned(text_of(h, a)),
                            link: match attr_value(h[a], "href"@) {
                                Some(x) => joined_url(BASE_URL@, x),
                                None => None,
                            },
                            children: sub_links(
                                h,
                                h[p as int].children@,
                                h[p as int].children@.len() as int,
                            ),
                            date: date_after(h, p as int),
                        },
                    ],
                )
            }
        },
    }
}

/// The notices of the `li` nodes among the first `n` of `ds`, or `None` where
/// one of them is not shaped as a notice.
pub open spec fn notices(h: Seq<HtmlNode>, ds: Seq<usize>, n: int) -> Option<Seq<DataV>>
    decreases n,
{
    if n <= 0 {
        Some(seq![])
    } else {
        match notices(h, ds, n - 1) {
            None => None,
            Some(a) => if passes(PredV::Name("li"@), h[ds[n - 1] as int]) {
                match notice_at(h, ds[n - 1] as int) {
                    None => None,
                    Some(b) => Some(a + b),
                }
            } else {
                Some(a)
            },
        }
    }
}

/// The tab of `tab_content` node `i`, if it has an id, a non-empty title and
/// a list.
pub open spec fn tab_at(h: Seq<HtmlNode>, i: int) -> Option<Seq<TabV>> {
    match attr_value(h[i], "id"@) {
        None => Some(seq![]),
        Some(id) => match first_from(h, 0, PredV::Attr("href"@, seq!['#'] + id)) {
            None => Some(seq![]),
            Some(t) => if cleaned(text_of(h, t as int)).len() == 0 {
                Some(seq![])
            } else {
                match first_in(h, h[i].descendants@, PredV::Class("latest_tab"@)) {
                    None => Some(seq![]),
                    Some(l) => match notices(
                        h,
                        h[l as int].descendants@,
                        h[l as int].descendants@.len() as int,
                    ) {
                        None => None,
                        Some(ds) => Some(
                            seq![TabV { title: cleaned(text_of(h, t as int)), data: ds }],
                        ),
                    },
                }
            },
        },
    }
}

/// The tabs of the first `n` nodes of the page.
pub open spec fn tabs(h: Seq<HtmlNode>, n: int) -> Option<Seq<TabV>>
    decreases n,
{
    if n <= 0 {
        Some(seq![])
    } else {
        match tabs(h, n - 1) {
            None => None,
            Some(a) => if passes(PredV::Class("tab_content"@), h[n - 1]) {
                match tab_at(h, n - 1) {
                    None => None,
                    Some(b) => Some(a + b),
                }
            } else {
                Some(a)
            },
        }
    }
}

/// The notice board of a page, or `None` where a notice's `h6` does not open
/// with an anchor.
pub open spec fn scraped(h: Seq<HtmlNode>) -> Option<Seq<TabV>> {
    tabs(h, h.len() as int)
}

proof fn lemma_notices_broken(h: Seq<HtmlNode>, ds: Seq<usize>, k: int, n: int)
    requires
        0 <= k <= n,
        notices(h, ds, k) is None,
    ensures
        notices(h, ds, n) is None,
    decreases n - k,
{
    if k < n {
        lemma_notices_broken(h, ds, k + 1, n);
    }
}

proof fn lemma_tabs_broken(h: Seq<HtmlNode>, k: int, n: int)
    requires
        0 <= k <= n,
        tabs(h, k) is None,
    ensures
        tabs(h, n) is None,
    decreases n - k,
{
    if k < n {
        lemma_tabs_broken(h, k + 1, n);
    }
}

/// Every title of a notice and of its sub-links is presentable.
pub open spec fn notice_ok(d: DataV) -> bool {
    &&& presentable(d.title)
    &&& forall|k: int| 0 <= k < d.children.len() ==> presentable(#[trigger] d.children[k].title)
}

/// Every title of a tab, of its notices and of their sub-links is presentable.
pub open spec fn tab_ok(t: TabV) -> bool {
    &&& presentable(t.title)
    &&& forall|k: int| 0 <= k < t.data.len() ==> notice_ok(#[trigger] t.data[k])
}

/// Every title of the notice board is presentable: non-empty and trimmed.
pub open spec fn board_ok(s: Seq<TabV>) -> bool {
    forall|k: int| 0 <= k < s.len() ==> tab_ok(#[trigger] s[k])
}

/// The sub-links of `h6` node `p`.
fn sub_links_of(h: &Html, p: usize) -> (r: Vec<LinkNode>)
    requires
        p < h.nodes@.len(),
        well_formed(h.nodes@),
    ensures
        link_nodes_view(r@) == sub_links(
            h.nodes@,
            h.nodes@[p as int].children@,
            h.nodes@[p as int].children@.len() as int,
        ),
        forall|k: int| 0 <= k < r@.len() ==> presentable(#[trigger] r@[k].title@),
{
    let cs = &h.nodes[p].children;
    assert(node_ok(h.nodes@[p as int], h.nodes@.len() as int));
    let mut r: Vec<LinkNode> = Vec::new();
    if cs.len() == 0 {
        assert(link_nodes_view(r@) =~= seq![]);
        return r;
    }
    let mut k: usize = 1;
    assert(link_nodes_view(r@) =~= seq![]);
    while k < cs.len()
        invariant
            1 <= k <= cs.len(),
            *cs == h.nodes@[p as int].children,
            node_ok(h.nodes@[p as int], h.nodes@.len() as int),
            well_formed(h.nodes@),
            link_nodes_view(r@) == sub_links(h.nodes@, cs@, k as int),
            forall|j: int| 0 <= j < r@.len() ==> presentable(#[trigger] r@[j].title@),
        decreases cs.len() - k,
    {
        let d = cs[k];
        assert(d < h.nodes@.len());
        let ghost prev = r@;
        match attr(&h.nodes[d], "href") {
            Some(href) => match make_link(href.as_str()) {
                Some(link) => {
                    let title = clean_text(node_text(h, d).as_str());
                    if !title.as_str().is_empty() {
                        r.push(LinkNode { title, link });
                    }
                    assert(link_nodes_view(r@) =~= link_nodes_view(prev) + sub_link(h.nodes@, d as int));
                },
                None => {
                    assert(link_nodes_view(r@) =~= link_nodes_view(prev) + sub_link(h.nodes@, d as int));
                },
            },
            None => {
                assert(link_nodes_view(r@) =~= link_nodes_view(prev) + sub_link(h.nodes@, d as int));
            },
        }
        k += 1;
    }
    r
}

/// The date after `h6` node `p`.
fn date_after_of(h: &Html, p: usize) -> (r: Option<String>)
    requires
        p < h.nodes@.len(),
        well_formed(h.nodes@),
    ensures
        opt_text(r) == date_after(h.nodes@, p as int),
{
    assert(node_ok(h.nodes@[p as int], h.nodes@.len() as int));
    match h.nodes[p].next {
        Some(x) => {
            let small = String::from_str("small");
            let named = match &h.nodes[x].name {
                Some(n) => *n == small,
                None => false,
            };
            if named {
                Some(date_text(node_text(h, x).as_str()))
            } else {
                None
            }
        },
        None => None,
    }
}

/// The notice of `li` node `e`: `None` where it is not shaped as a notice.
fn notice_of(h: &Html, e: usize) -> (r: Option<Option<Data>>)
    requires
        e < h.nodes@.len(),
        well_formed(h.nodes@),
    ensures
        match r {
            Some(x) => notice_at(h.nodes@, e as int) == Some(entry_view(x)),
            None => notice_at(h.nodes@, e as int) is None,
        },
        r matches Some(Some(d)) ==> notice_ok(d@),
{
    assert(node_ok(h.nodes@[e as int], h.nodes@.len() as int));
    let h6 = Pred::Name(String::from_str("h6"));
    match find_in(h, &h.nodes[e].descendants, &h6) {
        None => Some(None),
        Some(p) => {
            proof {
                lemma_first_in_member(h.nodes@, h.nodes@[e as int].descendants@, h6@);
            }
            assert(node_ok(h.nodes@[p as int], h.nodes@.len() as int));
            if h.nodes[p].children.len() == 0 {
                return Some(None);
            }
            let a = h.nodes[p].children[0];
            let anchor = String::from_str("a");
            let is_anchor = match &h.nodes[a].name {
                Some(n) => *n == anchor,
                None => false,
            };
            if !is_anchor {
                return None;
            }
            let title = clean_text(node_text(h, a).as_str());
            if title.as_str().is_empty() {
                return Some(None);
            }
            let link = match attr(&h.nodes[a], "href") {
                Some(x) => make_link(x.as_str()),
                None => None,
            };
            let children = sub_links_of(h, p);
            let d = Data { title, link, children, date: date_after_of(h, p) };
            assert forall|k: int| 0 <= k < d@.children.len() implies presentable(
                #[trigger] d@.children[k].title,
            ) by {
                assert(d@.children[k] == d.children@[k]@);
            }
            Some(Some(d))
        },
    }
}

/// The first of the nodes `ds` that passes `p` is one of them.
proof fn lemma_first_in_member(h: Seq<HtmlNode>, ds: Seq<usize>, p: PredV)
    ensures
        first_in(h, ds, p) matches Some(x) ==> ds.contains(x),
    decreases ds.len(),
{
    if ds.len() > 0 && !passes(p, h[ds[0] as int]) {
        lemma_first_in_member(h, ds.drop_first(), p);
        if let Some(x) = first_in(h, ds.drop_first(), p) {
            let k = choose|k: int| 0 <= k < ds.drop_first().len() && ds.drop_first()[k] == x;
            assert(ds[k + 1] == x);
        }
    }
}

/// The notices of the `li` nodes below node `l`.
fn notices_of(h: &Html, l: usize) -> (r: Option<Vec<Data>>)
    requires
        l < h.nodes@.len(),
        well_formed(h.nodes@),
    ensures
        match r {
            Some(v) => notices(
                h.nodes@,
                h.nodes@[l as int].descendants@,
                h.nodes@[l as int].descendants@.len() as int,
            ) == Some(notices_view(v@)),
            None => notices(
                h.nodes@,
                h.nodes@[l as int].descendants@,
                h.nodes@[l as int].descendants@.len() as int,
            ) is None,
        },
        r matches Some(v) ==> forall|k: int| 0 <= k < v@.len() ==> notice_ok(#[trigger] v@[k]@),
{
    let ds = &h.nodes[l].descendants;
    assert(node_ok(h.nodes@[l as int], h.nodes@.len() as int));
    let li = Pred::Name(String::from_str("li"));
    let mut r: Vec<Data> = Vec::new();
    let mut k: usize = 0;
    assert(notices_view(r@) =~= seq![]);
    while k < ds.len()
        invariant
            k <= ds.len(),
            *ds == h.nodes@[l as int].descendants,
            node_ok(h.nodes@[l as int], h.nodes@.len() as int),
            well_formed(h.nodes@),
            li@ == PredV::Name("li"@),
            notices(h.nodes@, ds@, k as int) == Some(notices_view(r@)),
            forall|j: int| 0 <= j < r@.len() ==> notice_ok(#[trigger] r@[j]@),
        decreases ds.len() - k,
    {
        let e = ds[k];
        assert(e < h.nodes@.len());
        let ghost prev = r@;
        if node_matches(&li, &h.nodes[e]) {
            match notice_of(h, e) {
                None => {
                    proof {
                        lemma_notices_broken(h.nodes@, ds@, k + 1, ds@.len() as int);
                    }
                    return None;
                },
                Some(x) => {
                    match x {
                        Some(d) => {
                            r.push(d);
                        },
                        None => {},
                    }
                    assert(notices_view(r@) =~= notices_view(prev) + entry_view(x));
                },
            }
        }
        k += 1;
    }
    Some(r)
}

/// The tab of `tab_content` node `i`: `None` where one of its notices is not
/// shaped as a notice.
fn tab_of(h: &Html, i: usize) -> (r: Option<Option<Tab>>)
    requires
        i < h.nodes@.len(),
        well_formed(h.nodes@),
    ensures
        match r {
            Some(x) => tab_at(h.nodes@, i as int) == Some(entry_view(x)),
            None => tab_at(h.nodes@, i as int) is None,
        },
        r matches Some(Some(t)) ==> tab_ok(t@),
{
    assert(node_ok(h.nodes@[i as int], h.nodes@.len() as int));
    let id = match attr(&h.nodes[i], "id") {
        Some(id) => id,
        None => return Some(None),
    };
    let mut selector = String::from_str("#");
    selector.append(id.as_str());
    proof {
        reveal_strlit("#");
        assert("#"@ =~= seq!['#']);
    }
    let by_href = Pred::Attr(String::from_str("href"), selector);
    let t = match find_first(h, &by_href) {
        Some(t) => t,
        None => return Some(None),
    };
    proof {
        lemma_first_from_bound(h.nodes@, 0, by_href@);
    }
    let title = clean_text(node_text(h, t).as_str());
    if title.as_str().is_empty() {
        return Some(None);
    }
    let latest = Pred::Class(String::from_str("latest_tab"));
    let l = match find_in(h, &h.nodes[i].descendants, &latest) {
        Some(l) => l,
        None => return Some(None),
    };
    proof {
        lemma_first_in_member(h.nodes@, h.nodes@[i as int].descendants@, latest@);
    }
    match notices_of(h, l) {
        None => None,
        Some(data) => {
            let tab = Tab { title, data };
            assert forall|k: int| 0 <= k < tab@.data.len() implies notice_ok(
                #[trigger] tab@.data[k],
            ) by {
                assert(tab@.data[k] == tab.data@[k]@);
            }
            Some(Some(tab))
        },
    }
}

/// The first node from index `k` on that passes `p` is a node of the page.
proof fn lemma_first_from_bound(h: Seq<HtmlNode>, k: int, p: PredV)
    ensures
        first_from(h, k, p) matches Some(x) ==> x < h.len(),
    decreases h.len() - k,
{
    if 0 <= k < h.len() && !passes(p, h[k]) {
        lemma_first_from_bound(h, k + 1, p);
    }
}

/// The notice board of a parsed page, or `None` where the page has a notice
/// whose `h6` does not open with an anchor.
fn walk(html: &Html) -> (r: Option<Information>)
    requires
        well_formed(html.nodes@),
    ensures
        match r {
            Some(info) => scraped(html.nodes@) == Some(info@) && board_ok(info@),
            None => scraped(html.nodes@) is None,
        },
{
    let tab_content = Pred::Class(String::from_str("tab_content"));
    let mut r: Vec<Tab> = Vec::new();
    let mut i: usize = 0;
    assert(tabs_in_view(r@) =~= seq![]);
    while i < html.nodes.len()
        invariant
            i <= html.nodes.len(),
            well_formed(html.nodes@),
            tab_content@ == PredV::Class("tab_content"@),
            tabs(html.nodes@, i as int) == Some(tabs_in_view(r@)),
            forall|j: int| 0 <= j < r@.len() ==> tab_ok(#[trigger] r@[j]@),
        decreases html.nodes.len() - i,
    {
        let ghost prev = r@;
        if node_matches(&tab_content, &html.nodes[i]) {
            match tab_of(html, i) {
                None => {
                    proof {
                        lemma_tabs_broken(html.nodes@, i + 1, html.nodes@.len() as int);
                    }
                    return None;
                },
                Some(x) => {
                    match x {
                        Some(t) => {
                            r.push(t);
                        },
                        None => {},
                    }
                    assert(tabs_in_view(r@) =~= tabs_in_view(prev) + entry_view(x));
                },
            }
        }
        i += 1;
    }
    let info = Information(r);
    assert forall|k: int| 0 <= k < info@.len() implies tab_ok(#[trigger] info@[k]) by {
        assert(info@[k] == r@[k]@);
    }
    Some(info)
}

/// Whether the page is shaped as a notice board: every notice's `h6` opens
/// with an anchor.
pub fn is_notice_board(html: &Html) -> (r: bool)
    requires
        well_formed(html.nodes@),
    ensures
        r == scraped(html.nodes@) is Some,
{
    walk(html).is_some()
}

/// The notice board of a parsed page that is shaped as one. Every title in it
/// is non-empty and trimmed.
pub fn scrape(html: &Html) -> (r: Information)
    requires
        well_formed(html.nodes@),
        scraped(html.nodes@) is Some,
    ensures
        scraped(html.nodes@) == Some(r@),
        board_ok(r@),
{
    match walk(html) {
        Some(info) => info,
        None => Information(Vec::new()),
    }
}

/// The notice board of a parsed page, or `None` where the page is not shaped
/// as one.
pub fn try_scrape(html: &Html) -> (r: Option<Information>)
    requires
        well_formed(html.nodes@),
    ensures
        match r {
            Some(info) => scraped(html.nodes@) == Some(info@) && board_ok(info@),
            None => scraped(html.nodes@) is None,
        },
{
    if is_notice_board(html) {
        Some(scrape(html))
    } else {
        None
    }
}

} // verus!
