//! Laws of the difference.
use vstd::prelude::*;
use crate::snapshot::{Data, LinkNode, Tab, Titled, link_text, opt_text};
use crate::update::{
    Configuration, DataUpdateV, LinkNodeUpdateV, TabUpdateV, Update, inherited_data, inherited_link,
    inherited_links, inherited_notices,
};
use crate::matching::{
    all_of, at_most_one, classified, distinct_titles, exactly_one, exactly_one_fresh, fresh_part,
    has_key, has_title, is_last, last_with, lemma_fresh_all, lemma_last_exists, lemma_last_with,
    lemma_matched_covers,
    lemma_last_with_self, lemma_level_classified, lemma_level_covers, lemma_matched_all,
    lemma_matched_contains, level_diff, marks_added, marks_matches, matched_part,
};
use crate::diff::{
    data_added_fn, data_entry_fn, data_updates, link_added_fn, link_entry_fn, link_updates,
    tab_added_fn, tab_entry_fn, tab_updates,
};

verus! {

pub open spec fn link_title() -> spec_fn(LinkNodeUpdateV) -> Seq<char> {
    |u: LinkNodeUpdateV| u.title
}

pub open spec fn link_status() -> spec_fn(LinkNodeUpdateV) -> Update {
    |u: LinkNodeUpdateV| u.update
}

pub open spec fn data_title() -> spec_fn(DataUpdateV) -> Seq<char> {
    |u: DataUpdateV| u.title
}

pub open spec fn data_status() -> spec_fn(DataUpdateV) -> Update {
    |u: DataUpdateV| u.update
}

pub open spec fn tab_title() -> spec_fn(TabUpdateV) -> Seq<char> {
    |u: TabUpdateV| u.title
}

pub open spec fn tab_status() -> spec_fn(TabUpdateV) -> Update {
    |u: TabUpdateV| u.update
}

/// Every category of change is reported.
pub open spec fn reports_all(c: Configuration) -> bool {
    c.modified && c.added && c.removed && c.unchanged
}

proof fn lemma_link_shape(c: Configuration)
    ensures
        at_most_one(link_entry_fn(c), link_title()),
        exactly_one_fresh(link_added_fn(), link_title()),
        marks_matches(link_entry_fn(c), link_status()),
        marks_added(link_added_fn(), link_status()),
        reports_all(c) ==> exactly_one(link_entry_fn(c), link_title()),
{
}

proof fn lemma_data_shape(c: Configuration)
    ensures
        at_most_one(data_entry_fn(c), data_title()),
        exactly_one_fresh(data_added_fn(), data_title()),
        marks_matches(data_entry_fn(c), data_status()),
        marks_added(data_added_fn(), data_status()),
        reports_all(c) ==> exactly_one(data_entry_fn(c), data_title()),
{
}

proof fn lemma_tab_shape(c: Configuration)
    ensures
        at_most_one(tab_entry_fn(c), tab_title()),
        exactly_one_fresh(tab_added_fn(), tab_title()),
        marks_matches(tab_entry_fn(c), tab_status()),
        marks_added(tab_added_fn(), tab_status()),
        reports_all(c) ==> exactly_one(tab_entry_fn(c), tab_title()),
{
}

/// A sub-link whose title both sides have is never reported added or removed.
pub proof fn lemma_links_identity_stable(newer: Seq<LinkNode>, older: Seq<LinkNode>, c: Configuration)
    ensures
        forall|k: int|
            0 <= k < link_updates(newer, older, c).len() && has_key(
                newer,
                #[trigger] link_updates(newer, older, c)[k].title,
            ) && has_key(older, link_updates(newer, older, c)[k].title) ==> {
                let u = link_updates(newer, older, c)[k].update;
                u == Update::Modified || u == Update::Unchanged
            },
{
    lemma_link_shape(c);
    lemma_level_classified(
        newer,
        older,
        c.added,
        link_entry_fn(c),
        link_added_fn(),
        link_title(),
        link_status(),
    );
}

/// A notice whose title both sides have is never reported added or removed.
pub proof fn lemma_notices_identity_stable(newer: Seq<Data>, older: Seq<Data>, c: Configuration)
    ensures
        forall|k: int|
            0 <= k < data_updates(newer, older, c).len() && has_key(
                newer,
                #[trigger] data_updates(newer, older, c)[k].title,
            ) && has_key(older, data_updates(newer, older, c)[k].title) ==> {
                let u = data_updates(newer, older, c)[k].update;
                u == Update::Modified || u == Update::Unchanged
            },
{
    lemma_data_shape(c);
    lemma_level_classified(
        newer,
        older,
        c.added,
        data_entry_fn(c),
        data_added_fn(),
        data_title(),
        data_status(),
    );
}

/// A tab whose title both sides have is never reported added or removed.
pub proof fn lemma_tabs_identity_stable(newer: Seq<Tab>, older: Seq<Tab>, c: Configuration)
    ensures
        forall|k: int|
            0 <= k < tab_updates(newer, older, c).len() && has_key(
                newer,
                #[trigger] tab_updates(newer, older, c)[k].title,
            ) && has_key(older, tab_updates(newer, older, c)[k].title) ==> {
                let u = tab_updates(newer, older, c)[k].update;
                u == Update::Modified || u == Update::Unchanged
            },
{
    lemma_tab_shape(c);
    lemma_level_classified(
        newer,
        older,
        c.added,
        tab_entry_fn(c),
        tab_added_fn(),
        tab_title(),
        tab_status(),
    );
}

/// Where every category is reported, the difference of two lists of sub-links
/// names each title of either side exactly once: modified or unchanged where
/// both sides have it, removed where only the older side has it, added where
/// only the newer side has it.
pub proof fn lemma_links_partition(newer: Seq<LinkNode>, older: Seq<LinkNode>, c: Configuration)
    requires
        reports_all(c),
    ensures
        distinct_titles(link_updates(newer, older, c), link_title()),
        forall|t: Seq<char>|
            has_key(older, t) || has_key(newer, t) ==> has_title(
                #[trigger] link_updates(newer, older, c),
                link_title(),
                t,
            ),
        forall|k: int|
            0 <= k < link_updates(newer, older, c).len() ==> {
                let u = #[trigger] link_updates(newer, older, c)[k];
                classified(has_key(newer, u.title), has_key(older, u.title), u.update)
            },
{
    lemma_link_shape(c);
    lemma_level_classified(
        newer,
        older,
        c.added,
        link_entry_fn(c),
        link_added_fn(),
        link_title(),
        link_status(),
    );
    lemma_level_covers(newer, older, link_entry_fn(c), link_added_fn(), link_title());
}

/// Where every category is reported, the difference of two lists of notices
/// names each title of either side exactly once: modified or unchanged where
/// both sides have it, removed where only the older side has it, added where
/// only the newer side has it.
pub proof fn lemma_notices_partition(newer: Seq<Data>, older: Seq<Data>, c: Configuration)
    requires
        reports_all(c),
    ensures
        distinct_titles(data_updates(newer, older, c), data_title()),
        forall|t: Seq<char>|
            has_key(older, t) || has_key(newer, t) ==> has_title(
                #[trigger] data_updates(newer, older, c),
                data_title(),
                t,
            ),
        forall|k: int|
            0 <= k < data_updates(newer, older, c).len() ==> {
                let u = #[trigger] data_updates(newer, older, c)[k];
                classified(has_key(newer, u.title), has_key(older, u.title), u.update)
            },
{
    lemma_data_shape(c);
    lemma_level_classified(
        newer,
        older,
        c.added,
        data_entry_fn(c),
        data_added_fn(),
        data_title(),
        data_status(),
    );
    lemma_level_covers(newer, older, data_entry_fn(c), data_added_fn(), data_title());
}

/// Where every category is reported, the difference of two lists of tabs
/// names each title of either side exactly once: unchanged where both sides
/// have it, removed where only the older side has it, added where only the
/// newer side has it.
pub proof fn lemma_tabs_partition(newer: Seq<Tab>, older: Seq<Tab>, c: Configuration)
    requires
        reports_all(c),
    ensures
        distinct_titles(tab_updates(newer, older, c), tab_title()),
        forall|t: Seq<char>|
            has_key(older, t) || has_key(newer, t) ==> has_title(
                #[trigger] tab_updates(newer, older, c),
                tab_title(),
                t,
            ),
        forall|k: int|
            0 <= k < tab_updates(newer, older, c).len() ==> {
                let u = #[trigger] tab_updates(newer, older, c)[k];
                classified(has_key(newer, u.title), has_key(older, u.title), u.update)
            },
{
    lemma_tab_shape(c);
    lemma_level_classified(
        newer,
        older,
        c.added,
        tab_entry_fn(c),
        tab_added_fn(),
        tab_title(),
        tab_status(),
    );
    lemma_level_covers(newer, older, tab_entry_fn(c), tab_added_fn(), tab_title());
}

pub open spec fn unchanged_link() -> spec_fn(LinkNodeUpdateV) -> bool {
    |u: LinkNodeUpdateV| u.update == Update::Unchanged
}

pub open spec fn unchanged_notice() -> spec_fn(DataUpdateV) -> bool {
    |u: DataUpdateV| u.update == Update::Unchanged && all_of(u.children, unchanged_link())
}

/// The tab and everything below it are unchanged.
pub open spec fn unchanged_tab() -> spec_fn(TabUpdateV) -> bool {
    |u: TabUpdateV| u.update == Update::Unchanged && all_of(u.data, unchanged_notice())
}

pub open spec fn never<U>() -> spec_fn(U) -> bool {
    |u: U| false
}

proof fn lemma_never_empty<U>(s: Seq<U>)
    requires
        all_of(s, never()),
    ensures
        s.len() == 0,
{
    if s.len() > 0 {
        assert(never()(s[0]));
    }
}

proof fn lemma_no_fresh<T: Titled, U>(s: Seq<T>, g: spec_fn(T) -> Seq<U>)
    ensures
        fresh_part(s, s, s.len() as int, g).len() == 0,
{
    assert forall|j: int|
        0 <= j < s.len() && #[trigger] is_last(s, j) && !has_key(s, s[j].key()) implies all_of(
        g(s[j]),
        never(),
    ) by {
        assert(has_key(s, s[j].key()));
    }
    lemma_fresh_all(s, s, s.len() as int, g, never());
    lemma_never_empty(fresh_part(s, s, s.len() as int, g));
}

/// Where each sibling that stands for its title is named in `part`, each
/// title of the siblings is.
proof fn lemma_keys_covered<T: Titled, U>(s: Seq<T>, part: Seq<U>, ku: spec_fn(U) -> Seq<char>)
    requires
        forall|i: int| 0 <= i < s.len() && #[trigger] is_last(s, i) ==> has_title(part, ku, s[i].key()),
    ensures
        forall|t: Seq<char>| has_key(s, t) ==> has_title(part, ku, t),
{
    assert forall|t: Seq<char>| has_key(s, t) implies has_title(part, ku, t) by {
        let j = choose|j: int| 0 <= j < s.len() && #[trigger] s[j].key() == t;
        lemma_last_exists(s, j);
        let i = choose|i: int| is_last(s, i) && s[i].key() == s[j].key();
    }
}

/// The entry of sub-link title `t` when sub-links `s` are compared with
/// themselves.
pub open spec fn self_link(s: Seq<LinkNode>, t: Seq<char>) -> LinkNodeUpdateV {
    LinkNodeUpdateV { title: t, link: last_with(s, t)->0.link.0@, update: Update::Unchanged }
}

/// Comparing sub-links with themselves: where unchanged nodes are reported,
/// each title appears once, unchanged, with the link of the sub-link that
/// stands for it; where they are not, nothing is reported.
pub proof fn lemma_links_self_difference(s: Seq<LinkNode>, c: Configuration)
    ensures
        c.unchanged ==> distinct_titles(link_updates(s, s, c), link_title()),
        c.unchanged ==> forall|t: Seq<char>|
            has_key(s, t) ==> has_title(#[trigger] link_updates(s, s, c), link_title(), t),
        c.unchanged ==> forall|k: int|
            0 <= k < link_updates(s, s, c).len() ==> #[trigger] link_updates(s, s, c)[k] == self_link(
                s,
                link_updates(s, s, c)[k].title,
            ),
        c.unchanged ==> all_of(link_updates(s, s, c), unchanged_link()),
        !c.unchanged ==> link_updates(s, s, c).len() == 0,
{
    let f = link_entry_fn(c);
    let p = if c.unchanged {
        |u: LinkNodeUpdateV| u == self_link(s, u.title)
    } else {
        never()
    };
    assert forall|i: int| 0 <= i < s.len() && #[trigger] is_last(s, i) implies all_of(
        f(s[i], last_with(s, s[i].key())),
        p,
    ) && (c.unchanged ==> f(s[i], last_with(s, s[i].key())).len() == 1 && link_title()(
        f(s[i], last_with(s, s[i].key()))[0],
    ) == s[i].key()) by {
        lemma_last_with_self(s, i);
    }
    lemma_matched_all(s, s, s.len() as int, f, p);
    lemma_no_fresh(s, link_added_fn());
    let a = matched_part(s, s, s.len() as int, f);
    let r = link_updates(s, s, c);
    assert(r =~= a);
    if c.unchanged {
        lemma_link_shape(c);
        lemma_level_classified(s, s, c.added, f, link_added_fn(), link_title(), link_status());
        lemma_matched_covers(s, s, s.len() as int, f, link_title());
        lemma_keys_covered(s, a, link_title());
        assert forall|k: int| 0 <= k < r.len() implies unchanged_link()(#[trigger] r[k]) by {
            assert(p(r[k]));
        }
    } else {
        lemma_never_empty(a);
    }
}

/// The entry of notice title `t` when notices `s` are compared with
/// themselves.
pub open spec fn self_notice(s: Seq<Data>, t: Seq<char>, c: Configuration) -> DataUpdateV {
    let x = last_with(s, t)->0;
    DataUpdateV {
        title: t,
        link: link_text(x.link),
        children: link_updates(x.children@, x.children@, c),
        date: opt_text(x.date),
        update: Update::Unchanged,
    }
}

/// Comparing notices with themselves: where unchanged nodes are reported,
/// each title appears once, unchanged, with the fields of the notice that
/// stands for it and its sub-links compared with themselves; where they are
/// not, nothing is reported.
pub proof fn lemma_notices_self_difference(s: Seq<Data>, c: Configuration)
    ensures
        c.unchanged ==> distinct_titles(data_updates(s, s, c), data_title()),
        c.unchanged ==> forall|t: Seq<char>|
            has_key(s, t) ==> has_title(#[trigger] data_updates(s, s, c), data_title(), t),
        c.unchanged ==> forall|k: int|
            0 <= k < data_updates(s, s, c).len() ==> #[trigger] data_updates(s, s, c)[k]
                == self_notice(s, data_updates(s, s, c)[k].title, c),
        c.unchanged ==> all_of(data_updates(s, s, c), unchanged_notice()),
        !c.unchanged ==> data_updates(s, s, c).len() == 0,
{
    let f = data_entry_fn(c);
    let p = if c.unchanged {
        |u: DataUpdateV| u == self_notice(s, u.title, c) && unchanged_notice()(u)
    } else {
        never()
    };
    assert forall|i: int| 0 <= i < s.len() && #[trigger] is_last(s, i) implies all_of(
        f(s[i], last_with(s, s[i].key())),
        p,
    ) && (c.unchanged ==> f(s[i], last_with(s, s[i].key())).len() == 1 && data_title()(
        f(s[i], last_with(s, s[i].key()))[0],
    ) == s[i].key()) by {
        lemma_last_with_self(s, i);
        lemma_links_self_difference(s[i].children@, c);
    }
    lemma_matched_all(s, s, s.len() as int, f, p);
    lemma_no_fresh(s, data_added_fn());
    let a = matched_part(s, s, s.len() as int, f);
    let r = data_updates(s, s, c);
    assert(r =~= a);
    if c.unchanged {
        lemma_data_shape(c);
        lemma_level_classified(s, s, c.added, f, data_added_fn(), data_title(), data_status());
        lemma_matched_covers(s, s, s.len() as int, f, data_title());
        lemma_keys_covered(s, a, data_title());
        assert forall|k: int| 0 <= k < r.len() implies unchanged_notice()(#[trigger] r[k]) by {
            assert(p(r[k]));
        }
    } else {
        lemma_never_empty(a);
    }
}

/// The entry of tab title `t` when tabs `s` are compared with themselves.
pub open spec fn self_tab(s: Seq<Tab>, t: Seq<char>, c: Configuration) -> TabUpdateV {
    let x = last_with(s, t)->0;
    TabUpdateV { title: t, data: data_updates(x.data@, x.data@, c), update: Update::Unchanged }
}

/// Comparing a snapshot with itself: where unchanged nodes are reported, each
/// tab title appears once, unchanged, with its notices compared with
/// themselves, and every node below is unchanged too; where they are not,
/// nothing is reported.
pub proof fn lemma_self_difference(s: Seq<Tab>, c: Configuration)
    ensures
        c.unchanged ==> distinct_titles(tab_updates(s, s, c), tab_title()),
        c.unchanged ==> forall|t: Seq<char>|
            has_key(s, t) ==> has_title(#[trigger] tab_updates(s, s, c), tab_title(), t),
        c.unchanged ==> forall|k: int|
            0 <= k < tab_updates(s, s, c).len() ==> #[trigger] tab_updates(s, s, c)[k] == self_tab(
                s,
                tab_updates(s, s, c)[k].title,
                c,
            ),
        c.unchanged ==> all_of(tab_updates(s, s, c), unchanged_tab()),
        !c.unchanged ==> tab_updates(s, s, c).len() == 0,
{
    let f = tab_entry_fn(c);
    let p = if c.unchanged {
        |u: TabUpdateV| u == self_tab(s, u.title, c) && unchanged_tab()(u)
    } else {
        never()
    };
    assert forall|i: int| 0 <= i < s.len() && #[trigger] is_last(s, i) implies all_of(
        f(s[i], last_with(s, s[i].key())),
        p,
    ) && (c.unchanged ==> f(s[i], last_with(s, s[i].key())).len() == 1 && tab_title()(
        f(s[i], last_with(s, s[i].key()))[0],
    ) == s[i].key()) by {
        lemma_last_with_self(s, i);
        lemma_notices_self_difference(s[i].data@, c);
    }
    lemma_matched_all(s, s, s.len() as int, f, p);
    lemma_no_fresh(s, tab_added_fn());
    let a = matched_part(s, s, s.len() as int, f);
    let r = tab_updates(s, s, c);
    assert(r =~= a);
    if c.unchanged {
        lemma_tab_shape(c);
        lemma_level_classified(s, s, c.added, f, tab_added_fn(), tab_title(), tab_status());
        lemma_matched_covers(s, s, s.len() as int, f, tab_title());
        lemma_keys_covered(s, a, tab_title());
        assert forall|k: int| 0 <= k < r.len() implies unchanged_tab()(#[trigger] r[k]) by {
            assert(p(r[k]));
        }
    } else {
        lemma_never_empty(a);
    }
}

/// A property of each entry of both parts holds of a level's difference.
proof fn lemma_level_all<T: Titled, U>(
    newer: Seq<T>,
    older: Seq<T>,
    added: bool,
    f: spec_fn(T, Option<T>) -> Seq<U>,
    g: spec_fn(T) -> Seq<U>,
    p: spec_fn(U) -> bool,
)
    requires
        forall|i: int|
            0 <= i < older.len() && #[trigger] is_last(older, i) ==> all_of(
                f(older[i], last_with(newer, older[i].key())),
                p,
            ),
        forall|j: int|
            0 <= j < newer.len() && #[trigger] is_last(newer, j) && !has_key(older, newer[j].key())
                ==> all_of(g(newer[j]), p),
    ensures
        all_of(level_diff(newer, older, added, f, g), p),
{
    lemma_matched_all(newer, older, older.len() as int, f, p);
    lemma_fresh_all(newer, older, newer.len() as int, g, p);
    let a = matched_part(newer, older, older.len() as int, f);
    let b = if added {
        fresh_part(newer, older, newer.len() as int, g)
    } else {
        seq![]
    };
    let r = level_diff(newer, older, added, f, g);
    assert(r == a + b);
    assert forall|k: int| 0 <= k < r.len() implies p(#[trigger] r[k]) by {
        if k < a.len() {
            assert(r[k] == a[k]);
        } else {
            assert(r[k] == b[k - a.len()]);
        }
    }
}

/// An entry of the older siblings is in the level's difference.
proof fn lemma_level_contains<T: Titled, U>(
    newer: Seq<T>,
    older: Seq<T>,
    added: bool,
    f: spec_fn(T, Option<T>) -> Seq<U>,
    g: spec_fn(T) -> Seq<U>,
    i: int,
    x: U,
)
    requires
        0 <= i < older.len(),
        is_last(older, i),
        f(older[i], last_with(newer, older[i].key())).contains(x),
    ensures
        level_diff(newer, older, added, f, g).contains(x),
{
    lemma_matched_contains(newer, older, older.len() as int, f, i, x);
    let a = matched_part(newer, older, older.len() as int, f);
    let k = choose|k: int| 0 <= k < a.len() && a[k] == x;
    let r = level_diff(newer, older, added, f, g);
    assert(r[k] == a[k]);
}

/// The entry of a tab titled `t` that both sides have, where it is reported.
pub open spec fn kept_tab(newer: Seq<Tab>, older: Seq<Tab>, c: Configuration, t: Seq<char>) -> TabUpdateV {
    TabUpdateV {
        title: t,
        data: data_updates(last_with(newer, t)->0.data@, last_with(older, t)->0.data@, c),
        update: Update::Unchanged,
    }
}

/// A tab that both sides have is reported exactly when unchanged nodes are
/// reported or the difference of its notices is not empty, and then once,
/// as unchanged, with that difference.
pub proof fn lemma_kept_for_descendant(
    newer: Seq<Tab>,
    older: Seq<Tab>,
    c: Configuration,
    t: Seq<char>,
)
    requires
        has_key(newer, t),
        has_key(older, t),
    ensures
        has_title(tab_updates(newer, older, c), tab_title(), t) <==> (c.unchanged || kept_tab(
            newer,
            older,
            c,
            t,
        ).data.len() > 0),
        (c.unchanged || kept_tab(newer, older, c, t).data.len() > 0) ==> tab_updates(
            newer,
            older,
            c,
        ).contains(kept_tab(newer, older, c, t)),
        forall|k: int|
            0 <= k < tab_updates(newer, older, c).len() && #[trigger] tab_updates(
                newer,
                older,
                c,
            )[k].title == t ==> tab_updates(newer, older, c)[k] == kept_tab(newer, older, c, t),
        distinct_titles(tab_updates(newer, older, c), tab_title()),
{
    let x = kept_tab(newer, older, c, t);
    let shown = c.unchanged || x.data.len() > 0;
    let f = tab_entry_fn(c);
    let g = tab_added_fn();
    let p = |u: TabUpdateV| u.title == t ==> u == x && shown;
    lemma_last_with(older, t);
    lemma_last_with(newer, t);
    assert forall|i: int| 0 <= i < older.len() && #[trigger] is_last(older, i) implies all_of(
        f(older[i], last_with(newer, older[i].key())),
        p,
    ) by {
        if older[i].key() == t {
            lemma_last_with_self(older, i);
        }
    }
    assert forall|j: int|
        0 <= j < newer.len() && #[trigger] is_last(newer, j) && !has_key(
            older,
            newer[j].key(),
        ) implies all_of(g(newer[j]), p) by {}
    lemma_level_all(newer, older, c.added, f, g, p);
    let r = tab_updates(newer, older, c);
    if shown {
        let i = choose|i: int|
            is_last(older, i) && older[i].key() == t && last_with(older, t) == Some(older[i]);
        assert(f(older[i], last_with(newer, older[i].key()))[0] == x);
        lemma_level_contains(newer, older, c.added, f, g, i, x);
        let k = choose|k: int| 0 <= k < r.len() && r[k] == x;
        assert(tab_title()(r[k]) == t);
    }
    if has_title(r, tab_title(), t) {
        let k = choose|k: int| 0 <= k < r.len() && tab_title()(r[k]) == t;
        assert(p(r[k]));
    }
    assert forall|k: int| 0 <= k < r.len() && #[trigger] r[k].title == t implies r[k] == x by {
        assert(p(r[k]));
    }
    lemma_tab_shape(c);
    lemma_level_classified(newer, older, c.added, f, g, tab_title(), tab_status());
}

/// The entry of a tab titled `t` that only the older side has.
pub open spec fn removed_tab(older: Seq<Tab>, t: Seq<char>) -> TabUpdateV {
    TabUpdateV {
        title: t,
        data: inherited_notices(last_with(older, t)->0.data@),
        update: Update::Removed,
    }
}

/// Where removed nodes are reported, a tab that only the older side has is
/// reported once, as removed, with each of its notices marked `Inherit`.
pub proof fn lemma_removed_tab(newer: Seq<Tab>, older: Seq<Tab>, c: Configuration, t: Seq<char>)
    requires
        has_key(older, t),
        !has_key(newer, t),
        c.removed,
    ensures
        tab_updates(newer, older, c).contains(removed_tab(older, t)),
        forall|k: int|
            0 <= k < tab_updates(newer, older, c).len() && #[trigger] tab_updates(
                newer,
                older,
                c,
            )[k].title == t ==> tab_updates(newer, older, c)[k] == removed_tab(older, t),
        distinct_titles(tab_updates(newer, older, c), tab_title()),
        all_of(removed_tab(older, t).data, inherits_notice()),
{
    let x = removed_tab(older, t);
    let f = tab_entry_fn(c);
    let g = tab_added_fn();
    let p = |u: TabUpdateV| u.title == t ==> u == x;
    lemma_last_with(older, t);
    lemma_last_with(newer, t);
    assert forall|i: int| 0 <= i < older.len() && #[trigger] is_last(older, i) implies all_of(
        f(older[i], last_with(newer, older[i].key())),
        p,
    ) by {
        if older[i].key() == t {
            lemma_last_with_self(older, i);
        }
    }
    assert forall|j: int|
        0 <= j < newer.len() && #[trigger] is_last(newer, j) && !has_key(
            older,
            newer[j].key(),
        ) implies all_of(g(newer[j]), p) by {}
    lemma_level_all(newer, older, c.added, f, g, p);
    let r = tab_updates(newer, older, c);
    let i = choose|i: int|
        is_last(older, i) && older[i].key() == t && last_with(older, t) == Some(older[i]);
    assert(f(older[i], last_with(newer, older[i].key()))[0] == x);
    lemma_level_contains(newer, older, c.added, f, g, i, x);
    assert forall|k: int| 0 <= k < r.len() && #[trigger] r[k].title == t implies r[k] == x by {
        assert(p(r[k]));
    }
    lemma_tab_shape(c);
    lemma_level_classified(newer, older, c.added, f, g, tab_title(), tab_status());
    lemma_inherited_notices(last_with(older, t)->0.data@);
}

/// The notice and its sub-links are all marked `Inherit`.
pub open spec fn inherits_notice() -> spec_fn(DataUpdateV) -> bool {
    |u: DataUpdateV| u.update == Update::Inherit && all_of(u.children, |l: LinkNodeUpdateV| l.update == Update::Inherit)
}

/// An added or removed tab has all its notices, and their sub-links, marked
/// `Inherit`.
pub open spec fn governs_below() -> spec_fn(TabUpdateV) -> bool {
    |u: TabUpdateV|
        (u.update == Update::Added || u.update == Update::Removed) ==> all_of(
            u.data,
            inherits_notice(),
        )
}

proof fn lemma_inherited_notices(s: Seq<Data>)
    ensures
        all_of(inherited_notices(s), inherits_notice()),
{
    assert forall|k: int| 0 <= k < inherited_notices(s).len() implies inherits_notice()(
        #[trigger] inherited_notices(s)[k],
    ) by {
        let d = inherited_notices(s)[k];
        assert(d == inherited_data(s[k]));
        assert forall|j: int| 0 <= j < d.children.len() implies (|l: LinkNodeUpdateV|
            l.update == Update::Inherit)(#[trigger] d.children[j]) by {
            assert(d.children[j] == inherited_link(s[k].children@[j]));
        }
    }
}

/// Below a tab reported added or removed, every notice and sub-link is
/// marked `Inherit`: the tab's status governs them.
pub proof fn lemma_added_removed_govern(newer: Seq<Tab>, older: Seq<Tab>, c: Configuration)
    ensures
        all_of(tab_updates(newer, older, c), governs_below()),
{
    let p = governs_below();
    assert forall|i: int|
        0 <= i < older.len() && #[trigger] is_last(older, i) implies all_of(
        tab_entry_fn(c)(older[i], last_with(newer, older[i].key())),
        p,
    ) by {
        lemma_inherited_notices(older[i].data@);
    }
    lemma_matched_all(newer, older, older.len() as int, tab_entry_fn(c), p);
    assert forall|j: int|
        0 <= j < newer.len() && #[trigger] is_last(newer, j) && !has_key(
            older,
            newer[j].key(),
        ) implies all_of(tab_added_fn()(newer[j]), p) by {
        lemma_inherited_notices(newer[j].data@);
    }
    lemma_fresh_all(newer, older, newer.len() as int, tab_added_fn(), p);
    let a = matched_part(newer, older, older.len() as int, tab_entry_fn(c));
    let b = if c.added {
        fresh_part(newer, older, newer.len() as int, tab_added_fn())
    } else {
        seq![]
    };
    let r = tab_updates(newer, older, c);
    assert(r == a + b);
    assert forall|k: int| 0 <= k < r.len() implies p(#[trigger] r[k]) by {
        if k < a.len() {
            assert(r[k] == a[k]);
        } else {
            assert(r[k] == b[k - a.len()]);
        }
    }
}

/// An added or removed notice has all its sub-links marked `Inherit`.
pub open spec fn governs_links() -> spec_fn(DataUpdateV) -> bool {
    |u: DataUpdateV|
        (u.update == Update::Added || u.update == Update::Removed) ==> all_of(
            u.children,
            |l: LinkNodeUpdateV| l.update == Update::Inherit,
        )
}

proof fn lemma_inherited_links(s: Seq<LinkNode>)
    ensures
        all_of(inherited_links(s), |l: LinkNodeUpdateV| l.update == Update::Inherit),
{
    assert forall|k: int| 0 <= k < inherited_links(s).len() implies (|l: LinkNodeUpdateV|
        l.update == Update::Inherit)(#[trigger] inherited_links(s)[k]) by {
        assert(inherited_links(s)[k] == inherited_link(s[k]));
    }
}

/// Below a notice reported added or removed, every sub-link is marked
/// `Inherit`: the notice's status governs them.
pub proof fn lemma_added_removed_govern_links(newer: Seq<Data>, older: Seq<Data>, c: Configuration)
    ensures
        all_of(data_updates(newer, older, c), governs_links()),
{
    let p = governs_links();
    assert forall|i: int|
        0 <= i < older.len() && #[trigger] is_last(older, i) implies all_of(
        data_entry_fn(c)(older[i], last_with(newer, older[i].key())),
        p,
    ) by {
        lemma_inherited_links(older[i].children@);
    }
    lemma_matched_all(newer, older, older.len() as int, data_entry_fn(c), p);
    assert forall|j: int|
        0 <= j < newer.len() && #[trigger] is_last(newer, j) && !has_key(
            older,
            newer[j].key(),
        ) implies all_of(data_added_fn()(newer[j]), p) by {
        lemma_inherited_links(newer[j].children@);
    }
    lemma_fresh_all(newer, older, newer.len() as int, data_added_fn(), p);
    let a = matched_part(newer, older, older.len() as int, data_entry_fn(c));
    let b = if c.added {
        fresh_part(newer, older, newer.len() as int, data_added_fn())
    } else {
        seq![]
    };
    let r = data_updates(newer, older, c);
    assert(r == a + b);
    assert forall|k: int| 0 <= k < r.len() implies p(#[trigger] r[k]) by {
        if k < a.len() {
            assert(r[k] == a[k]);
        } else {
            assert(r[k] == b[k - a.len()]);
        }
    }
}

} // verus!
