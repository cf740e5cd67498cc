//! A parsed HTML page as an arena of nodes, and the queries the extraction
//! makes on it.
use vstd::prelude::*;
use crate::snapshot::opt_text;

verus! {

/// One node of a page.
pub struct HtmlNode {
    /// Local name of an element; none for text and comments
    pub name: Option<String>,
    /// Attributes of an element, by local name, in document order
    pub attrs: Vec<(String, String)>,
    /// Text of a text node
    pub content: Option<String>,
    /// Indices of the child nodes, in order
    pub children: Vec<usize>,
    /// Indices of all nodes below this one, in document order
    pub descendants: Vec<usize>,
    /// Index of the next sibling
    pub next: Option<usize>,
}

/// A page: its nodes, addressed by index, the document's own order.
pub struct Html {
    pub nodes: Vec<HtmlNode>,
}

/// Every index that node `n` holds is below `len`.
pub open spec fn node_ok(n: HtmlNode, len: int) -> bool {
    &&& forall|k: int| 0 <= k < n.children@.len() ==> #[trigger] n.children@[k] < len
    &&& forall|k: int| 0 <= k < n.descendants@.len() ==> #[trigger] n.descendants@[k] < len
    &&& (n.next matches Some(x) ==> x < len)
}

/// Every index in the page points at one of its nodes.
pub open spec fn well_formed(h: Seq<HtmlNode>) -> bool {
    forall|i: int| 0 <= i < h.len() ==> node_ok(#[trigger] h[i], h.len() as int)
}

/// The words of `s`, as `str::split_whitespace` gives them.
pub uninterp spec fn words_of(s: Seq<char>) -> Seq<Seq<char>>;

/// Relies on `str::split_whitespace`: the words depend on the characters alone.
#[verifier::external_body]
fn split_words(s: &str) -> (r: Vec<String>)
    ensures
        r@.map_values(|w: String| w@) == words_of(s@),
{
    s.split_whitespace().map(|w| w.to_string()).collect()
}

/// The value of the first attribute named `key` of an element.
pub open spec fn first_attr(s: Seq<(String, String)>, key: Seq<char>) -> Option<Seq<char>>
    decreases s.len(),
{
    if s.len() == 0 {
        None
    } else if s[0].0@ == key {
        Some(s[0].1@)
    } else {
        first_attr(s.drop_first(), key)
    }
}

/// The value of attribute `key` of node `n`; text and comments have none.
pub open spec fn attr_value(n: HtmlNode, key: Seq<char>) -> Option<Seq<char>> {
    if n.name is Some {
        first_attr(n.attrs@, key)
    } else {
        None
    }
}

/// The text that node `n` holds itself.
pub open spec fn own_text(n: HtmlNode) -> Seq<char> {
    match n.content {
        Some(t) => t@,
        None => seq![],
    }
}

/// The text held by the first `n` nodes of `ds`, joined.
pub open spec fn texts(h: Seq<HtmlNode>, ds: Seq<usize>, n: int) -> Seq<char>
    decreases n,
{
    if n <= 0 {
        seq![]
    } else {
        texts(h, ds, n - 1) + own_text(h[ds[n - 1] as int])
    }
}

/// The text of node `i` and of all nodes below it, in document order.
pub open spec fn text_of(h: Seq<HtmlNode>, i: int) -> Seq<char> {
    own_text(h[i]) + texts(h, h[i].descendants@, h[i].descendants@.len() as int)
}

/// A test on a node.
pub enum Pred {
    /// An element whose class attribute has this word
    Class(String),
    /// An element of this name
    Name(String),
    /// An element whose attribute, the first, has this value
    Attr(String, String),
}

/// Model of a `Pred`.
pub enum PredV {
    Class(Seq<char>),
    Name(Seq<char>),
    Attr(Seq<char>, Seq<char>),
}

impl View for Pred {
    type V = PredV;

    open spec fn view(&self) -> PredV {
        match self {
            Pred::Class(c) => PredV::Class(c@),
            Pred::Name(x) => PredV::Name(x@),
            Pred::Attr(k, v) => PredV::Attr(k@, v@),
        }
    }
}

pub open spec fn passes(p: PredV, n: HtmlNode) -> bool {
    match p {
        PredV::Class(c) => match attr_value(n, seq!['c', 'l', 'a', 's', 's']) {
            Some(v) => words_of(v).contains(c),
            None => false,
        },
        PredV::Name(x) => opt_text(n.name) == Some(x),
        PredV::Attr(k, v) => attr_value(n, k) == Some(v),
    }
}

/// The first of the nodes `ds` that passes `p`.
pub open spec fn first_in(h: Seq<HtmlNode>, ds: Seq<usize>, p: PredV) -> Option<usize>
    decreases ds.len(),
{
    if ds.len() == 0 {
        None
    } else if passes(p, h[ds[0] as int]) {
        Some(ds[0])
    } else {
        first_in(h, ds.drop_first(), p)
    }
}

/// The first node of the page from index `k` on that passes `p`.
pub open spec fn first_from(h: Seq<HtmlNode>, k: int, p: PredV) -> Option<usize>
    decreases h.len() - k,
{
    if k < 0 || k >= h.len() {
        None
    } else if passes(p, h[k]) {
        Some(k as usize)
    } else {
        first_from(h, k + 1, p)
    }
}

/// The value of attribute `key` of node `n`.
pub fn attr<'a>(n: &'a HtmlNode, key: &str) -> (r: Option<&'a String>)
    ensures
        match r {
            Some(v) => attr_value(*n, key@) == Some(v@),
            None => attr_value(*n, key@) is None,
        },
{
    if n.name.is_none() {
        return None;
    }
    let wanted = String::from_str(key);
    let mut k: usize = 0;
    assert(n.attrs@.subrange(0, n.attrs@.len() as int) =~= n.attrs@);
    while k < n.attrs.len()
        invariant
            k <= n.attrs.len(),
            n.name is Some,
            wanted@ == key@,
            first_attr(n.attrs@, key@) == first_attr(
                n.attrs@.subrange(k as int, n.attrs@.len() as int),
                key@,
            ),
        decreases n.attrs.len() - k,
    {
        let ghost rest = n.attrs@.subrange(k as int, n.attrs@.len() as int);
        assert(rest.drop_first() =~= n.attrs@.subrange(k + 1, n.attrs@.len() as int));
        if n.attrs[k].0 == wanted {
            return Some(&n.attrs[k].1);
        }
        k += 1;
    }
    None
}

/// Whether node `n` passes `p`.
pub fn node_matches(p: &Pred, n: &HtmlNode) -> (r: bool)
    ensures
        r == passes(p@, *n),
{
    match p {
        Pred::Class(c) => {
            proof {
                reveal_strlit("class");
                assert("class"@ =~= seq!['c', 'l', 'a', 's', 's']);
            }
            match attr(n, "class") {
                Some(v) => {
                    let words = split_words(v.as_str());
                    let ghost ws = words@.map_values(|w: String| w@);
                    let mut k: usize = 0;
                    while k < words.len()
                        invariant
                            k <= words.len(),
                            ws == words_of(v@),
                            *p == Pred::Class(*c),
                            attr_value(*n, seq!['c', 'l', 'a', 's', 's']) == Some(v@),
                            ws == words@.map_values(|w: String| w@),
                            forall|j: int| 0 <= j < k ==> ws[j] != c@,
                        decreases words.len() - k,
                    {
                        if words[k] == *c {
                            assert(ws[k as int] == c@);
                            return true;
                        }
                        k += 1;
                    }
                    false
                },
                None => false,
            }
        },
        Pred::Name(x) => match &n.name {
            Some(y) => *y == *x,
            None => false,
        },
        Pred::Attr(k, v) => match attr(n, k.as_str()) {
            Some(a) => *a == *v,
            None => false,
        },
    }
}

/// The first of the nodes `ds` that passes `p`.
pub fn find_in(h: &Html, ds: &Vec<usize>, p: &Pred) -> (r: Option<usize>)
    requires
        forall|k: int| 0 <= k < ds@.len() ==> #[trigger] ds@[k] < h.nodes@.len(),
    ensures
        r == first_in(h.nodes@, ds@, p@),
{
    let mut k: usize = 0;
    assert(ds@.subrange(0, ds@.len() as int) =~= ds@);
    while k < ds.len()
        invariant
            k <= ds.len(),
            forall|j: int| 0 <= j < ds@.len() ==> #[trigger] ds@[j] < h.nodes@.len(),
            first_in(h.nodes@, ds@, p@) == first_in(
                h.nodes@,
                ds@.subrange(k as int, ds@.len() as int),
                p@,
            ),
        decreases ds.len() - k,
    {
        let ghost rest = ds@.subrange(k as int, ds@.len() as int);
        assert(rest.drop_first() =~= ds@.subrange(k + 1, ds@.len() as int));
        if node_matches(p, &h.nodes[ds[k]]) {
            return Some(ds[k]);
        }
        k += 1;
    }
    None
}

/// The first node of the page that passes `p`.
pub fn find_first(h: &Html, p: &Pred) -> (r: Option<usize>)
    ensures
        r == first_from(h.nodes@, 0, p@),
{
    let mut k: usize = 0;
    while k < h.nodes.len()
        invariant
            k <= h.nodes.len(),
            first_from(h.nodes@, 0, p@) == first_from(h.nodes@, k as int, p@),
        decreases h.nodes.len() - k,
    {
        if node_matches(p, &h.nodes[k]) {
            return Some(k);
        }
        k += 1;
    }
    None
}

/// The text of node `i` and of all nodes below it.
pub fn node_text(h: &Html, i: usize) -> (r: String)
    requires
        i < h.nodes@.len(),
        well_formed(h.nodes@),
    ensures
        r@ == text_of(h.nodes@, i as int),
{
    let n = &h.nodes[i];
    let mut s = match &n.content {
        Some(t) => t.clone(),
        None => String::new(),
    };
    let mut k: usize = 0;
    assert(node_ok(h.nodes@[i as int], h.nodes@.len() as int));
    while k < n.descendants.len()
        invariant
            k <= n.descendants.len(),
            *n == h.nodes@[i as int],
            node_ok(*n, h.nodes@.len() as int),
            s@ == own_text(*n) + texts(h.nodes@, n.descendants@, k as int),
        decreases n.descendants.len() - k,
    {
        let d = n.descendants[k];
        assert(d < h.nodes@.len());
        match &h.nodes[d].content {
            Some(t) => s.append(t.as_str()),
            None => {},
        }
        k += 1;
        assert(s@ =~= own_text(*n) + texts(h.nodes@, n.descendants@, k as int));
    }
    s
}

/// Whether every index in the page points at one of its nodes.
pub fn is_well_formed(h: &Html) -> (r: bool)
    ensures
        r == well_formed(h.nodes@),
{
    let len = h.nodes.len();
    let mut i: usize = 0;
    while i < len
        invariant
            i <= len,
            len == h.nodes@.len(),
            forall|j: int| 0 <= j < i ==> node_ok(#[trigger] h.nodes@[j], len as int),
        decreases len - i,
    {
        let n = &h.nodes[i];
        let mut k: usize = 0;
        while k < n.children.len()
            invariant
                k <= n.children.len(),
                i < len,
                len == h.nodes@.len(),
                *n == h.nodes@[i as int],
                forall|j: int| 0 <= j < k ==> #[trigger] n.children@[j] < len,
            decreases n.children.len() - k,
        {
            if n.children[k] >= len {
                assert(n.children@[k as int] >= len);
                assert(!node_ok(h.nodes@[i as int], len as int));
                return false;
            }
            k += 1;
        }
        let mut k: usize = 0;
        while k < n.descendants.len()
            invariant
                k <= n.descendants.len(),
                i < len,
                len == h.nodes@.len(),
                *n == h.nodes@[i as int],
                forall|j: int| 0 <= j < k ==> #[trigger] n.descendants@[j] < len,
            decreases n.descendants.len() - k,
        {
            if n.descendants[k] >= len {
                assert(n.descendants@[k as int] >= len);
                assert(!node_ok(h.nodes@[i as int], len as int));
                return false;
            }
            k += 1;
        }
        match n.next {
            Some(x) => {
                if x >= len {
                    assert(!node_ok(h.nodes@[i as int], len as int));
                    return false;
                }
            },
            None => {},
        }
        i += 1;
    }
    true
}

} // verus!
