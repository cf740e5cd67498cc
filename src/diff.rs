//! The difference between two snapshots, level by level.
use vstd::prelude::*;
use crate::snapshot::{Data, Information, LinkNode, Tab, copy_link, copy_text, link_text, opt_text, same_link, same_text};
use crate::update::{
    Configuration, DataUpdate, DataUpdateV, InformationUpdate, LinkNodeUpdate, LinkNodeUpdateV,
    TabUpdate, TabUpdateV, Update, data_view, inherit_links, inherit_notices, inherited_links,
    inherited_notices, links_view, tabs_view,
};
use crate::matching::{contains_title, find_last, fresh_part, is_last_at, last_with, level_diff, matched_part};

verus! {

/// The models of an optional entry: none or one.
pub open spec fn entry_view<T: View>(e: Option<T>) -> Seq<T::V> {
    match e {
        Some(x) => seq![x@],
        None => seq![],
    }
}

/// What became of older sub-link `o`, where `m` stands for its title in the
/// newer sub-links.
pub open spec fn link_entry(o: LinkNode, m: Option<LinkNode>, c: Configuration) -> Seq<
    LinkNodeUpdateV,
> {
    match m {
        Some(n) => if n.link.0@ == o.link.0@ {
            if c.unchanged {
                seq![LinkNodeUpdateV { title: o.title@, link: n.link.0@, update: Update::Unchanged }]
            } else {
                seq![]
            }
        } else if c.modified {
            seq![LinkNodeUpdateV { title: o.title@, link: n.link.0@, update: Update::Modified }]
        } else {
            seq![]
        },
        None => if c.removed {
            seq![LinkNodeUpdateV { title: o.title@, link: o.link.0@, update: Update::Removed }]
        } else {
            seq![]
        },
    }
}

pub open spec fn link_entry_fn(c: Configuration) -> spec_fn(LinkNode, Option<LinkNode>) -> Seq<
    LinkNodeUpdateV,
> {
    |o: LinkNode, m: Option<LinkNode>| link_entry(o, m, c)
}

/// A sub-link that only the newer sub-links have.
pub open spec fn link_added_fn() -> spec_fn(LinkNode) -> Seq<LinkNodeUpdateV> {
    |n: LinkNode| seq![LinkNodeUpdateV { title: n.title@, link: n.link.0@, update: Update::Added }]
}

/// The difference between two lists of sub-links.
pub open spec fn link_updates(newer: Seq<LinkNode>, older: Seq<LinkNode>, c: Configuration) -> Seq<
    LinkNodeUpdateV,
> {
    level_diff(newer, older, c.added, link_entry_fn(c), link_added_fn())
}

/// What became of older notice `o`, where `m` stands for its title in the
/// newer notices.
pub open spec fn data_entry(o: Data, m: Option<Data>, c: Configuration) -> Seq<DataUpdateV> {
    match m {
        Some(n) => {
            let children = link_updates(n.children@, o.children@, c);
            let same = link_text(n.link) == link_text(o.link) && opt_text(n.date) == opt_text(
                o.date,
            );
            let shown = if same {
                c.unchanged
            } else {
                c.modified
            };
            if children.len() == 0 && !shown {
                seq![]
            } else {
                seq![
                    DataUpdateV {
                        title: o.title@,
                        link: link_text(n.link),
                        children,
                        date: opt_text(n.date),
                        update: if same {
                            Update::Unchanged
                        } else {
                            Update::Modified
                        },
                    },
                ]
            }
        },
        None => if c.removed {
            seq![
                DataUpdateV {
                    title: o.title@,
                    link: link_text(o.link),
                    children: inherited_links(o.children@),
                    date: opt_text(o.date),
                    update: Update::Removed,
                },
            ]
        } else {
            seq![]
        },
    }
}

pub open spec fn data_entry_fn(c: Configuration) -> spec_fn(Data, Option<Data>) -> Seq<DataUpdateV> {
    |o: Data, m: Option<Data>| data_entry(o, m, c)
}

/// A notice that only the newer notices have.
pub open spec fn data_added_fn() -> spec_fn(Data) -> Seq<DataUpdateV> {
    |n: Data|
        seq![
            DataUpdateV {
                title: n.title@,
                link: link_text(n.link),
                children: inherited_links(n.children@),
                date: opt_text(n.date),
                update: Update::Added,
            },
        ]
}

/// The difference between two lists of notices.
pub open spec fn data_updates(newer: Seq<Data>, older: Seq<Data>, c: Configuration) -> Seq<
    DataUpdateV,
> {
    level_diff(newer, older, c.added, data_entry_fn(c), data_added_fn())
}

/// What became of older tab `o`, where `m` stands for its title in the newer
/// tabs.
pub open spec fn tab_entry(o: Tab, m: Option<Tab>, c: Configuration) -> Seq<TabUpdateV> {
    match m {
        Some(n) => {
            let data = data_updates(n.data@, o.data@, c);
            if data.len() == 0 && !c.unchanged {
                seq![]
            } else {
                seq![TabUpdateV { title: o.title@, data, update: Update::Unchanged }]
            }
        },
        None => if c.removed {
            seq![
                TabUpdateV {
                    title: o.title@,
                    data: inherited_notices(o.data@),
                    update: Update::Removed,
                },
            ]
        } else {
            seq![]
        },
    }
}

pub open spec fn tab_entry_fn(c: Configuration) -> spec_fn(Tab, Option<Tab>) -> Seq<TabUpdateV> {
    |o: Tab, m: Option<Tab>| tab_entry(o, m, c)
}

/// A tab that only the newer tabs have.
pub open spec fn tab_added_fn() -> spec_fn(Tab) -> Seq<TabUpdateV> {
    |n: Tab|
        seq![
            TabUpdateV {
                title: n.title@,
                data: inherited_notices(n.data@),
                update: Update::Added,
            },
        ]
}

/// The difference between two lists of tabs.
pub open spec fn tab_updates(newer: Seq<Tab>, older: Seq<Tab>, c: Configuration) -> Seq<
    TabUpdateV,
> {
    level_diff(newer, older, c.added, tab_entry_fn(c), tab_added_fn())
}

proof fn lemma_links_push(s: Seq<LinkNodeUpdate>, e: Option<LinkNodeUpdate>)
    ensures
        links_view(
            match e {
                Some(x) => s.push(x),
                None => s,
            },
        ) == links_view(s) + entry_view(e),
{
    match e {
        Some(x) => assert(links_view(s.push(x)) =~= links_view(s) + entry_view(e)),
        None => assert(links_view(s) =~= links_view(s) + entry_view(e)),
    }
}

proof fn lemma_data_push(s: Seq<DataUpdate>, e: Option<DataUpdate>)
    ensures
        data_view(
            match e {
                Some(x) => s.push(x),
                None => s,
            },
        ) == data_view(s) + entry_view(e),
{
    match e {
        Some(x) => assert(data_view(s.push(x)) =~= data_view(s) + entry_view(e)),
        None => assert(data_view(s) =~= data_view(s) + entry_view(e)),
    }
}

proof fn lemma_tabs_push(s: Seq<TabUpdate>, e: Option<TabUpdate>)
    ensures
        tabs_view(
            match e {
                Some(x) => s.push(x),
                None => s,
            },
        ) == tabs_view(s) + entry_view(e),
{
    match e {
        Some(x) => assert(tabs_view(s.push(x)) =~= tabs_view(s) + entry_view(e)),
        None => assert(tabs_view(s) =~= tabs_view(s) + entry_view(e)),
    }
}

/// What became of older sub-link `o`.
fn link_entry_of(newer: &Vec<LinkNode>, o: &LinkNode, config: Configuration) -> (r: Option<
    LinkNodeUpdate,
>)
    ensures
        entry_view(r) == link_entry(*o, last_with(newer@, o.title@), config),
{
    match find_last(newer, &o.title) {
        Some(j) => {
            let n = &newer[j];
            if n.link.0 == o.link.0 {
                if config.unchanged {
                    Some(
                        LinkNodeUpdate {
                            title: o.title.clone(),
                            link: n.link.copy(),
                            update: Update::Unchanged,
                        },
                    )
                } else {
                    None
                }
            } else if config.modified {
                Some(
                    LinkNodeUpdate {
                        title: o.title.clone(),
                        link: n.link.copy(),
                        update: Update::Modified,
                    },
                )
            } else {
                None
            }
        },
        None => {
            if config.removed {
                Some(
                    LinkNodeUpdate {
                        title: o.title.clone(),
                        link: o.link.copy(),
                        update: Update::Removed,
                    },
                )
            } else {
                None
            }
        },
    }
}

/// The difference between two lists of sub-links: each older title in order,
/// then, if `config.added`, each title that only `newer` has.
pub fn diff_link_node(newer: &Vec<LinkNode>, older: &Vec<LinkNode>, config: Configuration) -> (r:
    Vec<LinkNodeUpdate>)
    ensures
        links_view(r@) == link_updates(newer@, older@, config),
{
    let mut diff: Vec<LinkNodeUpdate> = Vec::new();
    let mut i: usize = 0;
    while i < older.len()
        invariant
            i <= older.len(),
            links_view(diff@) == matched_part(newer@, older@, i as int, link_entry_fn(config)),
        decreases older.len() - i,
    {
        if is_last_at(older, i) {
            let e = link_entry_of(newer, &older[i], config);
            proof {
                lemma_links_push(diff@, e);
            }
            match e {
                Some(x) => diff.push(x),
                None => {},
            }
        }
        i += 1;
    }
    let ghost old_part = diff@;
    if config.added {
        let mut j: usize = 0;
        while j < newer.len()
            invariant
                j <= newer.len(),
                links_view(diff@) == links_view(old_part) + fresh_part(
                    newer@,
                    older@,
                    j as int,
                    link_added_fn(),
                ),
            decreases newer.len() - j,
        {
            let n = &newer[j];
            if is_last_at(newer, j) && !contains_title(older, &n.title) {
                let x = LinkNodeUpdate {
                    title: n.title.clone(),
                    link: n.link.copy(),
                    update: Update::Added,
                };
                proof {
                    lemma_links_push(diff@, Some(x));
                }
                diff.push(x);
            }
            j += 1;
        }
    }
    assert(links_view(diff@) =~= link_updates(newer@, older@, config));
    diff
}

/// What became of older notice `o`.
fn data_entry_of(newer: &Vec<Data>, o: &Data, config: Configuration) -> (r: Option<DataUpdate>)
    ensures
        entry_view(r) == data_entry(*o, last_with(newer@, o.title@), config),
{
    match find_last(newer, &o.title) {
        Some(j) => {
            let n = &newer[j];
            let children = diff_link_node(&n.children, &o.children, config);
            let same = same_link(&n.link, &o.link) && same_text(&n.date, &o.date);
            let shown = if same {
                config.unchanged
            } else {
                config.modified
            };
            if children.len() == 0 && !shown {
                None
            } else {
                Some(
                    DataUpdate {
                        title: o.title.clone(),
                        link: copy_link(&n.link),
                        children,
                        date: copy_text(&n.date),
                        update: if same {
                            Update::Unchanged
                        } else {
                            Update::Modified
                        },
                    },
                )
            }
        },
        None => {
            if config.removed {
                Some(
                    DataUpdate {
                        title: o.title.clone(),
                        link: copy_link(&o.link),
                        children: inherit_links(&o.children),
                        date: copy_text(&o.date),
                        update: Update::Removed,
                    },
                )
            } else {
                None
            }
        },
    }
}

/// The difference between two lists of notices: each older title in order,
/// then, if `config.added`, each title that only `newer` has.
pub fn diff_data(newer: &Vec<Data>, older: &Vec<Data>, config: Configuration) -> (r: Vec<
    DataUpdate,
>)
    ensures
        data_view(r@) == data_updates(newer@, older@, config),
{
    let mut diff: Vec<DataUpdate> = Vec::new();
    let mut i: usize = 0;
    while i < older.len()
        invariant
            i <= older.len(),
            data_view(diff@) == matched_part(newer@, older@, i as int, data_entry_fn(config)),
        decreases older.len() - i,
    {
        if is_last_at(older, i) {
            let e = data_entry_of(newer, &older[i], config);
            proof {
                lemma_data_push(diff@, e);
            }
            match e {
                Some(x) => diff.push(x),
                None => {},
            }
        }
        i += 1;
    }
    let ghost old_part = diff@;
    if config.added {
        let mut j: usize = 0;
        while j < newer.len()
            invariant
                j <= newer.len(),
                data_view(diff@) == data_view(old_part) + fresh_part(
                    newer@,
                    older@,
                    j as int,
                    data_added_fn(),
                ),
            decreases newer.len() - j,
        {
            let n = &newer[j];
            if is_last_at(newer, j) && !contains_title(older, &n.title) {
                let x = DataUpdate {
                    title: n.title.clone(),
                    link: copy_link(&n.link),
                    children: inherit_links(&n.children),
                    date: copy_text(&n.date),
                    update: Update::Added,
                };
                proof {
                    lemma_data_push(diff@, Some(x));
                }
                diff.push(x);
            }
            j += 1;
        }
    }
    assert(data_view(diff@) =~= data_updates(newer@, older@, config));
    diff
}

/// What became of older tab `o`.
fn tab_entry_of(newer: &Vec<Tab>, o: &Tab, config: Configuration) -> (r: Option<TabUpdate>)
    ensures
        entry_view(r) == tab_entry(*o, last_with(newer@, o.title@), config),
{
    match find_last(newer, &o.title) {
        Some(j) => {
            let data = diff_data(&newer[j].data, &o.data, config);
            if data.len() == 0 && !config.unchanged {
                None
            } else {
                Some(TabUpdate { title: o.title.clone(), data, update: Update::Unchanged })
            }
        },
        None => {
            if config.removed {
                Some(
                    TabUpdate {
                        title: o.title.clone(),
                        data: inherit_notices(&o.data),
                        update: Update::Removed,
                    },
                )
            } else {
                None
            }
        },
    }
}

/// The difference between two lists of tabs: each older title in order,
/// then, if `config.added`, each title that only `newer` has.
pub fn diff_tabs(newer: &Vec<Tab>, older: &Vec<Tab>, config: Configuration) -> (r: Vec<TabUpdate>)
    ensures
        tabs_view(r@) == tab_updates(newer@, older@, config),
{
    let mut diff: Vec<TabUpdate> = Vec::new();
    let mut i: usize = 0;
    while i < older.len()
        invariant
            i <= older.len(),
            tabs_view(diff@) == matched_part(newer@, older@, i as int, tab_entry_fn(config)),
        decreases older.len() - i,
    {
        if is_last_at(older, i) {
            let e = tab_entry_of(newer, &older[i], config);
            proof {
                lemma_tabs_push(diff@, e);
            }
            match e {
                Some(x) => diff.push(x),
                None => {},
            }
        }
        i += 1;
    }
    let ghost old_part = diff@;
    if config.added {
        let mut j: usize = 0;
        while j < newer.len()
            invariant
                j <= newer.len(),
                tabs_view(diff@) == tabs_view(old_part) + fresh_part(
                    newer@,
                    older@,
                    j as int,
                    tab_added_fn(),
                ),
            decreases newer.len() - j,
        {
            let n = &newer[j];
            if is_last_at(newer, j) && !contains_title(older, &n.title) {
                let x = TabUpdate {
                    title: n.title.clone(),
                    data: inherit_notices(&n.data),
                    update: Update::Added,
                };
                proof {
                    lemma_tabs_push(diff@, Some(x));
                }
                diff.push(x);
            }
            j += 1;
        }
    }
    assert(tabs_view(diff@) =~= tab_updates(newer@, older@, config));
    diff
}

/// The difference between the `newer` and the `older` snapshot, reported as
/// `config` asks.
pub fn difference(newer: Information, older: Information, config: Configuration) -> (r:
    InformationUpdate)
    ensures
        r@ == tab_updates(newer.0@, older.0@, config),
{
    InformationUpdate(diff_tabs(&newer.0, &older.0, config))
}

} // verus!
