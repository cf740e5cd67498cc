//! The extracted state of the notice board: tabs holding notices holding sub-links.
use vstd::prelude::*;

verus! {

/// An absolute URL.
pub struct Link(pub String);

/// A named sub-link attached to a notice.
pub struct LinkNode {
    /// Title of the sub-link
    pub title: String,
    /// Where the sub-link points
    pub link: Link,
}

/// One notice-board entry.
pub struct Data {
    /// Title of the notice
    pub title: String,
    /// Link of the notice, if any
    pub link: Option<Link>,
    /// Sub-links of the notice
    pub children: Vec<LinkNode>,
    /// Date written in the notice itself, if any
    pub date: Option<String>,
}

/// One category of notices.
pub struct Tab {
    /// Title of the tab
    pub title: String,
    /// The notices of the tab
    pub data: Vec<Data>,
}

/// The whole state of the notice board at one point in time.
pub struct Information(pub Vec<Tab>);

/// A node whose identity across snapshots is its title.
pub trait Titled {
    /// The identity key of the node.
    spec fn key(&self) -> Seq<char>;

    fn title_ref(&self) -> (r: &String)
        ensures
            r@ == self.key(),
    ;
}

impl Titled for LinkNode {
    open spec fn key(&self) -> Seq<char> {
        self.title@
    }

    fn title_ref(&self) -> (r: &String) {
        &self.title
    }
}

impl Titled for Data {
    open spec fn key(&self) -> Seq<char> {
        self.title@
    }

    fn title_ref(&self) -> (r: &String) {
        &self.title
    }
}

impl Titled for Tab {
    open spec fn key(&self) -> Seq<char> {
        self.title@
    }

    fn title_ref(&self) -> (r: &String) {
        &self.title
    }
}

/// The text of an optional link.
pub open spec fn link_text(l: Option<Link>) -> Option<Seq<char>> {
    match l {
        Some(x) => Some(x.0@),
        None => None,
    }
}

/// The text of an optional string.
pub open spec fn opt_text(s: Option<String>) -> Option<Seq<char>> {
    match s {
        Some(x) => Some(x@),
        None => None,
    }
}

impl Link {
    pub fn copy(&self) -> (r: Link)
        ensures
            r.0@ == self.0@,
    {
        Link(self.0.clone())
    }
}

pub fn copy_link(l: &Option<Link>) -> (r: Option<Link>)
    ensures
        link_text(r) == link_text(*l),
{
    match l {
        Some(x) => Some(x.copy()),
        None => None,
    }
}

pub fn copy_text(s: &Option<String>) -> (r: Option<String>)
    ensures
        opt_text(r) == opt_text(*s),
{
    match s {
        Some(x) => Some(x.clone()),
        None => None,
    }
}

/// Whether two optional links have the same text.
pub fn same_link(a: &Option<Link>, b: &Option<Link>) -> (r: bool)
    ensures
        r == (link_text(*a) == link_text(*b)),
{
    match (a, b) {
        (Some(x), Some(y)) => x.0 == y.0,
        (None, None) => true,
        _ => false,
    }
}

/// Whether two optional strings have the same text.
pub fn same_text(a: &Option<String>, b: &Option<String>) -> (r: bool)
    ensures
        r == (opt_text(*a) == opt_text(*b)),
{
    match (a, b) {
        (Some(x), Some(y)) => *x == *y,
        (None, None) => true,
        _ => false,
    }
}

/// Model of a `LinkNode`.
pub struct LinkNodeV {
    pub title: Seq<char>,
    pub link: Seq<char>,
}

/// Model of a `Data`.
pub struct DataV {
    pub title: Seq<char>,
    pub link: Option<Seq<char>>,
    pub children: Seq<LinkNodeV>,
    pub date: Option<Seq<char>>,
}

/// Model of a `Tab`.
pub struct TabV {
    pub title: Seq<char>,
    pub data: Seq<DataV>,
}

impl View for LinkNode {
    type V = LinkNodeV;

    open spec fn view(&self) -> LinkNodeV {
        LinkNodeV { title: self.title@, link: self.link.0@ }
    }
}

pub open spec fn link_nodes_view(s: Seq<LinkNode>) -> Seq<LinkNodeV> {
    s.map_values(|n: LinkNode| n@)
}

impl View for Data {
    type V = DataV;

    open spec fn view(&self) -> DataV {
        DataV {
            title: self.title@,
            link: link_text(self.link),
            children: link_nodes_view(self.children@),
            date: opt_text(self.date),
        }
    }
}

pub open spec fn notices_view(s: Seq<Data>) -> Seq<DataV> {
    s.map_values(|d: Data| d@)
}

impl View for Tab {
    type V = TabV;

    open spec fn view(&self) -> TabV {
        TabV { title: self.title@, data: notices_view(self.data@) }
    }
}

pub open spec fn tabs_in_view(s: Seq<Tab>) -> Seq<TabV> {
    s.map_values(|t: Tab| t@)
}

impl View for Information {
    type V = Seq<TabV>;

    open spec fn view(&self) -> Seq<TabV> {
        tabs_in_view(self.0@)
    }
}

} // verus!
