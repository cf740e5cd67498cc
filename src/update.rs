//! The annotated tree that describes how a snapshot changed.
use vstd::prelude::*;
use crate::snapshot::{Link, LinkNode, Data, copy_link, copy_text, link_text, opt_text};

verus! {

/// How a node changed, judged by its own title and comparable fields only.
///
/// A node marked `Unchanged` may still have changed children. `Inherit` marks
/// the descendants of a node that was `Added` or `Removed` as a whole.
#[derive(Clone, Copy, Debug, PartialEq, Eq, Structural)]
pub enum Update {
    Added,
    Removed,
    Modified,
    Unchanged,
    Inherit,
}

/// Which categories of changes are reported.
///
/// A node that is unchanged or modified is still reported, whatever these
/// say, when some of its descendants are.
#[derive(Clone, Copy, Debug)]
pub struct Configuration {
    /// Report nodes whose comparable fields changed
    pub modified: bool,
    /// Report nodes that only the newer snapshot has
    pub added: bool,
    /// Report nodes that only the older snapshot has, at every level alike
    pub removed: bool,
    /// Report nodes that did not change
    pub unchanged: bool,
}

impl Configuration {
    /// A configuration with the given switches.
    pub fn new(modified: bool, added: bool, removed: bool, unchanged: bool) -> (r: Self)
        ensures
            r.modified == modified,
            r.added == added,
            r.removed == removed,
            r.unchanged == unchanged,
    {
        Configuration { modified, added, removed, unchanged }
    }

    /// Reports everything except unchanged nodes.
    pub fn default_wasm_config() -> (r: Self)
        ensures
            r.modified && r.added && r.removed && !r.unchanged,
    {
        Self::default()
    }
}

impl Default for Configuration {
    fn default() -> (r: Self)
        ensures
            r.modified && r.added && r.removed && !r.unchanged,
    {
        Configuration { modified: true, added: true, removed: true, unchanged: false }
    }
}

/// Change of a sub-link.
pub struct LinkNodeUpdate {
    pub title: String,
    pub link: Link,
    pub update: Update,
}

/// Change of a notice.
pub struct DataUpdate {
    pub title: String,
    pub link: Option<Link>,
    pub children: Vec<LinkNodeUpdate>,
    pub date: Option<String>,
    pub update: Update,
}

/// Change of a tab.
pub struct TabUpdate {
    pub title: String,
    pub data: Vec<DataUpdate>,
    pub update: Update,
}

/// Change of the whole snapshot.
pub struct InformationUpdate(pub Vec<TabUpdate>);

/// Model of a `LinkNodeUpdate`.
pub struct LinkNodeUpdateV {
    pub title: Seq<char>,
    pub link: Seq<char>,
    pub update: Update,
}

/// Model of a `DataUpdate`.
pub struct DataUpdateV {
    pub title: Seq<char>,
    pub link: Option<Seq<char>>,
    pub children: Seq<LinkNodeUpdateV>,
    pub date: Option<Seq<char>>,
    pub update: Update,
}

/// Model of a `TabUpdate`.
pub struct TabUpdateV {
    pub title: Seq<char>,
    pub data: Seq<DataUpdateV>,
    pub update: Update,
}

impl View for LinkNodeUpdate {
    type V = LinkNodeUpdateV;

    open spec fn view(&self) -> LinkNodeUpdateV {
        LinkNodeUpdateV { title: self.title@, link: self.link.0@, update: self.update }
    }
}

pub open spec fn links_view(s: Seq<LinkNodeUpdate>) -> Seq<LinkNodeUpdateV> {
    s.map_values(|u: LinkNodeUpdate| u@)
}

impl View for DataUpdate {
    type V = DataUpdateV;

    open spec fn view(&self) -> DataUpdateV {
        DataUpdateV {
            title: self.title@,
            link: link_text(self.link),
            children: links_view(self.children@),
            date: opt_text(self.date),
            update: self.update,
        }
    }
}

pub open spec fn data_view(s: Seq<DataUpdate>) -> Seq<DataUpdateV> {
    s.map_values(|u: DataUpdate| u@)
}

impl View for TabUpdate {
    type V = TabUpdateV;

    open spec fn view(&self) -> TabUpdateV {
        TabUpdateV { title: self.title@, data: data_view(self.data@), update: self.update }
    }
}

pub open spec fn tabs_view(s: Seq<TabUpdate>) -> Seq<TabUpdateV> {
    s.map_values(|u: TabUpdate| u@)
}

impl View for InformationUpdate {
    type V = Seq<TabUpdateV>;

    open spec fn view(&self) -> Seq<TabUpdateV> {
        tabs_view(self.0@)
    }
}

/// A sub-link whose status is governed by its notice.
pub open spec fn inherited_link(n: LinkNode) -> LinkNodeUpdateV {
    LinkNodeUpdateV { title: n.title@, link: n.link.0@, update: Update::Inherit }
}

pub open spec fn inherited_links(s: Seq<LinkNode>) -> Seq<LinkNodeUpdateV> {
    s.map_values(|n: LinkNode| inherited_link(n))
}

/// A notice whose status is governed by its tab.
pub open spec fn inherited_data(d: Data) -> DataUpdateV {
    DataUpdateV {
        title: d.title@,
        link: link_text(d.link),
        children: inherited_links(d.children@),
        date: opt_text(d.date),
        update: Update::Inherit,
    }
}

pub open spec fn inherited_notices(s: Seq<Data>) -> Seq<DataUpdateV> {
    s.map_values(|d: Data| inherited_data(d))
}

impl LinkNodeUpdate {
    /// The sub-link, marked `Inherit`.
    pub fn from(value: LinkNode) -> (r: LinkNodeUpdate)
        ensures
            r@ == inherited_link(value),
    {
        LinkNodeUpdate { title: value.title, link: value.link, update: Update::Inherit }
    }

    pub fn inherit(n: &LinkNode) -> (r: LinkNodeUpdate)
        ensures
            r@ == inherited_link(*n),
    {
        LinkNodeUpdate { title: n.title.clone(), link: n.link.copy(), update: Update::Inherit }
    }
}

/// Each sub-link, marked `Inherit`.
pub fn inherit_links(v: &Vec<LinkNode>) -> (r: Vec<LinkNodeUpdate>)
    ensures
        links_view(r@) == inherited_links(v@),
{
    let mut r: Vec<LinkNodeUpdate> = Vec::new();
    let mut i: usize = 0;
    while i < v.len()
        invariant
            i <= v.len(),
            r.len() == i,
            links_view(r@) == inherited_links(v@.subrange(0, i as int)),
        decreases v.len() - i,
    {
        let ghost prev = r@;
        r.push(LinkNodeUpdate::inherit(&v[i]));
        proof {
            assert forall|k: int| 0 <= k < i + 1 implies #[trigger] links_view(r@)[k]
                == inherited_links(v@.subrange(0, i + 1))[k] by {
                if k < i {
                    assert(r@[k] == prev[k]);
                    assert(links_view(prev)[k] == inherited_links(v@.subrange(0, i as int))[k]);
                }
            }
            assert(links_view(r@) =~= inherited_links(v@.subrange(0, i + 1)));
        }
        i += 1;
    }
    assert(v@.subrange(0, v.len() as int) =~= v@);
    r
}

impl DataUpdate {
    /// The notice, marked `Inherit`, with each sub-link marked `Inherit`.
    pub fn from(value: Data) -> (r: DataUpdate)
        ensures
            r@ == inherited_data(value),
    {
        let children = inherit_links(&value.children);
        DataUpdate {
            title: value.title,
            link: value.link,
            children,
            date: value.date,
            update: Update::Inherit,
        }
    }

    pub fn inherit(d: &Data) -> (r: DataUpdate)
        ensures
            r@ == inherited_data(*d),
    {
        DataUpdate {
            title: d.title.clone(),
            link: copy_link(&d.link),
            children: inherit_links(&d.children),
            date: copy_text(&d.date),
            update: Update::Inherit,
        }
    }
}

/// Each notice, marked `Inherit`.
pub fn inherit_notices(v: &Vec<Data>) -> (r: Vec<DataUpdate>)
    ensures
        data_view(r@) == inherited_notices(v@),
{
    let mut r: Vec<DataUpdate> = Vec::new();
    let mut i: usize = 0;
    while i < v.len()
        invariant
            i <= v.len(),
            r.len() == i,
            data_view(r@) == inherited_notices(v@.subrange(0, i as int)),
        decreases v.len() - i,
    {
        let ghost prev = r@;
        r.push(DataUpdate::inherit(&v[i]));
        proof {
            assert forall|k: int| 0 <= k < i + 1 implies #[trigger] data_view(r@)[k]
                == inherited_notices(v@.subrange(0, i + 1))[k] by {
                if k < i {
                    assert(r@[k] == prev[k]);
                    assert(data_view(prev)[k] == inherited_notices(v@.subrange(0, i as int))[k]);
                }
            }
            assert(data_view(r@) =~= inherited_notices(v@.subrange(0, i + 1)));
        }
        i += 1;
    }
    assert(v@.subrange(0, v.len() as int) =~= v@);
    r
}

} // verus!
