//! Identity matching shared by the three levels of the tree.
//!
//! Siblings with the same title are one identity, and the last of them in
//! sibling order stands for it. A level's difference lists, for each identity
//! of the older siblings in order, what became of it, then each identity that
//! only the newer siblings have.
use vstd::prelude::*;
use crate::snapshot::Titled;
use crate::update::Update;

verus! {

/// Index `i` holds the last sibling with its title.
pub open spec fn is_last<T: Titled>(s: Seq<T>, i: int) -> bool {
    &&& 0 <= i < s.len()
    &&& forall|j: int| i < j < s.len() ==> #[trigger] s[j].key() != s[i].key()
}

/// Some sibling has title `t`.
pub open spec fn has_key<T: Titled>(s: Seq<T>, t: Seq<char>) -> bool {
    exists|j: int| 0 <= j < s.len() && #[trigger] s[j].key() == t
}

/// The sibling that stands for title `t`: the last one with that title.
pub open spec fn last_with<T: Titled>(s: Seq<T>, t: Seq<char>) -> Option<T> {
    if exists|i: int| is_last(s, i) && s[i].key() == t {
        Some(s[choose|i: int| is_last(s, i) && s[i].key() == t])
    } else {
        None
    }
}

/// What the first `n` older siblings that stand for their titles became,
/// where `f` maps an older sibling and its newer counterpart to its entries.
pub open spec fn matched_part<T: Titled, U>(
    newer: Seq<T>,
    older: Seq<T>,
    n: int,
    f: spec_fn(T, Option<T>) -> Seq<U>,
) -> Seq<U>
    decreases n,
{
    if n <= 0 {
        seq![]
    } else if is_last(older, n - 1) {
        matched_part(newer, older, n - 1, f) + f(
            older[n - 1],
            last_with(newer, older[n - 1].key()),
        )
    } else {
        matched_part(newer, older, n - 1, f)
    }
}

/// The entries, by `g`, of the first `n` newer siblings that stand for a title
/// that no older sibling has.
pub open spec fn fresh_part<T: Titled, U>(
    newer: Seq<T>,
    older: Seq<T>,
    n: int,
    g: spec_fn(T) -> Seq<U>,
) -> Seq<U>
    decreases n,
{
    if n <= 0 {
        seq![]
    } else if is_last(newer, n - 1) && !has_key(older, newer[n - 1].key()) {
        fresh_part(newer, older, n - 1, g) + g(newer[n - 1])
    } else {
        fresh_part(newer, older, n - 1, g)
    }
}

/// The difference at one level: the older identities in order, then, where
/// `added` holds, the identities that only the newer siblings have.
pub open spec fn level_diff<T: Titled, U>(
    newer: Seq<T>,
    older: Seq<T>,
    added: bool,
    f: spec_fn(T, Option<T>) -> Seq<U>,
    g: spec_fn(T) -> Seq<U>,
) -> Seq<U> {
    matched_part(newer, older, older.len() as int, f) + if added {
        fresh_part(newer, older, newer.len() as int, g)
    } else {
        seq![]
    }
}

/// Two last siblings with one title are the same sibling.
pub proof fn lemma_last_unique<T: Titled>(s: Seq<T>, i: int, k: int)
    requires
        is_last(s, i),
        is_last(s, k),
        s[i].key() == s[k].key(),
    ensures
        i == k,
{
    if i < k {
        assert(s[k].key() != s[i].key());
    } else if k < i {
        assert(s[i].key() != s[k].key());
    }
}

/// A title that some sibling has is held by a last sibling.
pub proof fn lemma_last_exists<T: Titled>(s: Seq<T>, j: int)
    requires
        0 <= j < s.len(),
    ensures
        exists|i: int| is_last(s, i) && s[i].key() == s[j].key(),
    decreases s.len() - j,
{
    if !is_last(s, j) {
        let k = choose|k: int| j < k < s.len() && #[trigger] s[k].key() == s[j].key();
        lemma_last_exists(s, k);
    }
}

/// `last_with` is the last sibling with the title, if there is one.
pub proof fn lemma_last_with<T: Titled>(s: Seq<T>, t: Seq<char>)
    ensures
        last_with(s, t) is Some <==> has_key(s, t),
        has_key(s, t) ==> exists|i: int|
            is_last(s, i) && s[i].key() == t && last_with(s, t) == Some(s[i]),
{
    if has_key(s, t) {
        let j = choose|j: int| 0 <= j < s.len() && #[trigger] s[j].key() == t;
        lemma_last_exists(s, j);
    }
}

/// Whether index `i` holds the last sibling with its title.
pub fn is_last_at<T: Titled>(v: &Vec<T>, i: usize) -> (r: bool)
    requires
        i < v.len(),
    ensures
        r == is_last(v@, i as int),
{
    let t = v[i].title_ref();
    let mut j: usize = i + 1;
    while j < v.len()
        invariant
            i < j <= v.len(),
            t@ == v@[i as int].key(),
            forall|k: int| i < k < j ==> #[trigger] v@[k].key() != v@[i as int].key(),
        decreases v.len() - j,
    {
        if *v[j].title_ref() == *t {
            return false;
        }
        j += 1;
    }
    true
}

/// Whether some sibling has title `t`.
pub fn contains_title<T: Titled>(v: &Vec<T>, t: &String) -> (r: bool)
    ensures
        r == has_key(v@, t@),
{
    let mut j: usize = 0;
    while j < v.len()
        invariant
            j <= v.len(),
            forall|k: int| 0 <= k < j ==> #[trigger] v@[k].key() != t@,
        decreases v.len() - j,
    {
        if *v[j].title_ref() == *t {
            return true;
        }
        j += 1;
    }
    false
}

/// The index of the sibling that stands for title `t`.
pub fn find_last<T: Titled>(v: &Vec<T>, t: &String) -> (r: Option<usize>)
    ensures
        match r {
            Some(i) => i < v.len() && last_with(v@, t@) == Some(v@[i as int]),
            None => last_with(v@, t@) is None,
        },
{
    let mut j: usize = v.len();
    while j > 0
        invariant
            j <= v.len(),
            forall|k: int| j <= k < v.len() ==> #[trigger] v@[k].key() != t@,
        decreases j,
    {
        j -= 1;
        if *v[j].title_ref() == *t {
            proof {
                lemma_last_with(v@, t@);
                let i = choose|i: int| is_last(v@, i) && v@[i].key() == t@ && last_with(v@, t@) == Some(v@[i]);
                assert(is_last(v@, j as int));
                lemma_last_unique(v@, i, j as int);
            }
            return Some(j);
        }
    }
    proof {
        lemma_last_with(v@, t@);
    }
    None
}

/// Every element of `s` satisfies `p`.
pub open spec fn all_of<U>(s: Seq<U>, p: spec_fn(U) -> bool) -> bool {
    forall|k: int| 0 <= k < s.len() ==> p(#[trigger] s[k])
}

/// No two elements of `s` have the same title by `ku`.
pub open spec fn distinct_titles<U>(s: Seq<U>, ku: spec_fn(U) -> Seq<char>) -> bool {
    forall|a: int, b: int|
        0 <= a < s.len() && 0 <= b < s.len() && a != b ==> ku(#[trigger] s[a]) != ku(
            #[trigger] s[b],
        )
}

/// `f` gives at most one entry for a sibling, titled as the sibling.
pub open spec fn at_most_one<T: Titled, U>(
    f: spec_fn(T, Option<T>) -> Seq<U>,
    ku: spec_fn(U) -> Seq<char>,
) -> bool {
    forall|o: T, m: Option<T>|
        #[trigger] f(o, m).len() <= 1 && (f(o, m).len() == 1 ==> ku(f(o, m)[0]) == o.key())
}

/// `f` gives exactly one entry for a sibling, titled as the sibling.
pub open spec fn exactly_one<T: Titled, U>(
    f: spec_fn(T, Option<T>) -> Seq<U>,
    ku: spec_fn(U) -> Seq<char>,
) -> bool {
    forall|o: T, m: Option<T>| #[trigger] f(o, m).len() == 1 && ku(f(o, m)[0]) == o.key()
}

/// `g` gives exactly one entry for a sibling, titled as the sibling.
pub open spec fn exactly_one_fresh<T: Titled, U>(
    g: spec_fn(T) -> Seq<U>,
    ku: spec_fn(U) -> Seq<char>,
) -> bool {
    forall|o: T| #[trigger] g(o).len() == 1 && ku(g(o)[0]) == o.key()
}

proof fn lemma_concat_all<U>(a: Seq<U>, b: Seq<U>, p: spec_fn(U) -> bool)
    requires
        all_of(a, p),
        all_of(b, p),
    ensures
        all_of(a + b, p),
{
    assert forall|k: int| 0 <= k < (a + b).len() implies p(#[trigger] (a + b)[k]) by {
        if k < a.len() {
            assert((a + b)[k] == a[k]);
        } else {
            assert((a + b)[k] == b[k - a.len()]);
        }
    }
}

/// A property of each entry of the older siblings holds of their part.
pub proof fn lemma_matched_all<T: Titled, U>(
    newer: Seq<T>,
    older: Seq<T>,
    n: int,
    f: spec_fn(T, Option<T>) -> Seq<U>,
    p: spec_fn(U) -> bool,
)
    requires
        forall|i: int|
            0 <= i < n && #[trigger] is_last(older, i) ==> all_of(
                f(older[i], last_with(newer, older[i].key())),
                p,
            ),
    ensures
        all_of(matched_part(newer, older, n, f), p),
    decreases n,
{
    if n > 0 {
        lemma_matched_all(newer, older, n - 1, f, p);
        if is_last(older, n - 1) {
            lemma_concat_all(
                matched_part(newer, older, n - 1, f),
                f(older[n - 1], last_with(newer, older[n - 1].key())),
                p,
            );
        }
    }
}

/// A property of each entry of the newer-only siblings holds of their part.
pub proof fn lemma_fresh_all<T: Titled, U>(
    newer: Seq<T>,
    older: Seq<T>,
    n: int,
    g: spec_fn(T) -> Seq<U>,
    p: spec_fn(U) -> bool,
)
    requires
        forall|j: int|
            0 <= j < n && #[trigger] is_last(newer, j) && !has_key(older, newer[j].key())
                ==> all_of(g(newer[j]), p),
    ensures
        all_of(fresh_part(newer, older, n, g), p),
    decreases n,
{
    if n > 0 {
        lemma_fresh_all(newer, older, n - 1, g, p);
        if is_last(newer, n - 1) && !has_key(older, newer[n - 1].key()) {
            lemma_concat_all(fresh_part(newer, older, n - 1, g), g(newer[n - 1]), p);
        }
    }
}

/// Among the first `n` siblings, one that stands for title `t`.
pub open spec fn stands_in<T: Titled>(s: Seq<T>, n: int, t: Seq<char>) -> bool {
    exists|i: int| 0 <= i < n && is_last(s, i) && s[i].key() == t
}

/// Among the first `n` newer siblings, one that stands for title `t`, which no
/// older sibling has.
pub open spec fn fresh_in<T: Titled>(newer: Seq<T>, older: Seq<T>, n: int, t: Seq<char>) -> bool {
    stands_in(newer, n, t) && !has_key(older, t)
}

/// Some element of `s` has title `t` by `ku`.
pub open spec fn has_title<U>(s: Seq<U>, ku: spec_fn(U) -> Seq<char>, t: Seq<char>) -> bool {
    exists|k: int| 0 <= k < s.len() && ku(s[k]) == t
}

proof fn lemma_stands_in_unique<T: Titled>(s: Seq<T>, n: int, i: int)
    requires
        is_last(s, i),
        n <= i,
    ensures
        !stands_in(s, n, s[i].key()),
{
    if stands_in(s, n, s[i].key()) {
        let k = choose|k: int| 0 <= k < n && is_last(s, k) && s[k].key() == s[i].key();
        lemma_last_unique(s, k, i);
    }
}

/// The part of the older siblings holds each of their titles at most once, and
/// only their titles.
pub proof fn lemma_matched_titles<T: Titled, U>(
    newer: Seq<T>,
    older: Seq<T>,
    n: int,
    f: spec_fn(T, Option<T>) -> Seq<U>,
    ku: spec_fn(U) -> Seq<char>,
)
    requires
        at_most_one(f, ku),
        n <= older.len(),
    ensures
        distinct_titles(matched_part(newer, older, n, f), ku),
        forall|k: int|
            0 <= k < matched_part(newer, older, n, f).len() ==> stands_in(
                older,
                n,
                ku(#[trigger] matched_part(newer, older, n, f)[k]),
            ),
    decreases n,
{
    if n > 0 {
        lemma_matched_titles(newer, older, n - 1, f, ku);
        let a = matched_part(newer, older, n - 1, f);
        let s = matched_part(newer, older, n, f);
        if is_last(older, n - 1) {
            let e = f(older[n - 1], last_with(newer, older[n - 1].key()));
            assert(s == a + e);
            assert(e.len() <= 1);
            assert forall|k: int| 0 <= k < s.len() implies stands_in(older, n, ku(#[trigger] s[k])) by {
                if k < a.len() {
                    assert(s[k] == a[k]);
                    assert(stands_in(older, n - 1, ku(a[k])));
                } else {
                    assert(s[k] == e[0]);
                    assert(ku(e[0]) == older[n - 1].key());
                }
            }
            assert forall|x: int, y: int|
                0 <= x < s.len() && 0 <= y < s.len() && x != y implies ku(#[trigger] s[x]) != ku(
                #[trigger] s[y],
            ) by {
                if x < a.len() && y < a.len() {
                    assert(s[x] == a[x] && s[y] == a[y]);
                } else if x < a.len() {
                    assert(s[x] == a[x]);
                    assert(s[y] == e[0]);
                    assert(stands_in(older, n - 1, ku(a[x])));
                    if ku(s[x]) == ku(s[y]) {
                        lemma_stands_in_unique(older, n - 1, n - 1);
                    }
                } else if y < a.len() {
                    assert(s[y] == a[y]);
                    assert(s[x] == e[0]);
                    assert(stands_in(older, n - 1, ku(a[y])));
                    if ku(s[x]) == ku(s[y]) {
                        lemma_stands_in_unique(older, n - 1, n - 1);
                    }
                }
            }
        } else {
            assert(s == a);
            assert forall|k: int| 0 <= k < s.len() implies stands_in(older, n, ku(#[trigger] s[k])) by {
                assert(stands_in(older, n - 1, ku(a[k])));
            }
        }
    }
}

/// Where each older sibling has an entry, each title of the older siblings is
/// in their part.
pub proof fn lemma_matched_covers<T: Titled, U>(
    newer: Seq<T>,
    older: Seq<T>,
    n: int,
    f: spec_fn(T, Option<T>) -> Seq<U>,
    ku: spec_fn(U) -> Seq<char>,
)
    requires
        forall|i: int|
            0 <= i < n && #[trigger] is_last(older, i) ==> f(
                older[i],
                last_with(newer, older[i].key()),
            ).len() == 1 && ku(f(older[i], last_with(newer, older[i].key()))[0]) == older[i].key(),
        n <= older.len(),
    ensures
        forall|i: int|
            0 <= i < n && #[trigger] is_last(older, i) ==> has_title(
                matched_part(newer, older, n, f),
                ku,
                older[i].key(),
            ),
    decreases n,
{
    if n > 0 {
        lemma_matched_covers(newer, older, n - 1, f, ku);
        let a = matched_part(newer, older, n - 1, f);
        let s = matched_part(newer, older, n, f);
        assert forall|i: int| 0 <= i < n && #[trigger] is_last(older, i) implies has_title(
            s,
            ku,
            older[i].key(),
        ) by {
            if is_last(older, n - 1) {
                let e = f(older[n - 1], last_with(newer, older[n - 1].key()));
                assert(s == a + e);
                if i < n - 1 {
                    assert(has_title(a, ku, older[i].key()));
                    let k = choose|k: int| 0 <= k < a.len() && ku(a[k]) == older[i].key();
                    assert(s[k] == a[k]);
                } else {
                    assert(s[a.len() as int] == e[0]);
                }
            } else {
                assert(s == a);
            }
        }
    }
}

/// The part of the newer-only siblings holds each of their titles at most
/// once, and only titles that no older sibling has.
pub proof fn lemma_fresh_titles<T: Titled, U>(
    newer: Seq<T>,
    older: Seq<T>,
    n: int,
    g: spec_fn(T) -> Seq<U>,
    ku: spec_fn(U) -> Seq<char>,
)
    requires
        exactly_one_fresh(g, ku),
        n <= newer.len(),
    ensures
        distinct_titles(fresh_part(newer, older, n, g), ku),
        forall|k: int|
            0 <= k < fresh_part(newer, older, n, g).len() ==> fresh_in(
                newer,
                older,
                n,
                ku(#[trigger] fresh_part(newer, older, n, g)[k]),
            ),
    decreases n,
{
    if n > 0 {
        lemma_fresh_titles(newer, older, n - 1, g, ku);
        let a = fresh_part(newer, older, n - 1, g);
        let s = fresh_part(newer, older, n, g);
        if is_last(newer, n - 1) && !has_key(older, newer[n - 1].key()) {
            let e = g(newer[n - 1]);
            assert(s == a + e);
            assert(e.len() == 1);
            assert forall|k: int| 0 <= k < s.len() implies fresh_in(
                newer,
                older,
                n,
                ku(#[trigger] s[k]),
            ) by {
                if k < a.len() {
                    assert(s[k] == a[k]);
                    assert(fresh_in(newer, older, n - 1, ku(a[k])));
                } else {
                    assert(s[k] == e[0]);
                }
            }
            assert forall|x: int, y: int|
                0 <= x < s.len() && 0 <= y < s.len() && x != y implies ku(#[trigger] s[x]) != ku(
                #[trigger] s[y],
            ) by {
                if x < a.len() && y < a.len() {
                    assert(s[x] == a[x] && s[y] == a[y]);
                } else if x < a.len() {
                    assert(s[x] == a[x]);
                    assert(s[y] == e[0]);
                    assert(fresh_in(newer, older, n - 1, ku(a[x])));
                    if ku(s[x]) == ku(s[y]) {
                        lemma_stands_in_unique(newer, n - 1, n - 1);
                    }
                } else if y < a.len() {
                    assert(s[y] == a[y]);
                    assert(s[x] == e[0]);
                    assert(fresh_in(newer, older, n - 1, ku(a[y])));
                    if ku(s[x]) == ku(s[y]) {
                        lemma_stands_in_unique(newer, n - 1, n - 1);
                    }
                }
            }
        } else {
            assert(s == a);
            assert forall|k: int| 0 <= k < s.len() implies fresh_in(
                newer,
                older,
                n,
                ku(#[trigger] s[k]),
            ) by {
                assert(fresh_in(newer, older, n - 1, ku(a[k])));
            }
        }
    }
}

/// Each title that only the newer siblings have is in their part.
pub proof fn lemma_fresh_covers<T: Titled, U>(
    newer: Seq<T>,
    older: Seq<T>,
    n: int,
    g: spec_fn(T) -> Seq<U>,
    ku: spec_fn(U) -> Seq<char>,
)
    requires
        exactly_one_fresh(g, ku),
        n <= newer.len(),
    ensures
        forall|j: int|
            0 <= j < n && #[trigger] is_last(newer, j) && !has_key(older, newer[j].key())
                ==> has_title(fresh_part(newer, older, n, g), ku, newer[j].key()),
    decreases n,
{
    if n > 0 {
        lemma_fresh_covers(newer, older, n - 1, g, ku);
        let a = fresh_part(newer, older, n - 1, g);
        let s = fresh_part(newer, older, n, g);
        assert forall|j: int|
            0 <= j < n && #[trigger] is_last(newer, j) && !has_key(
                older,
                newer[j].key(),
            ) implies has_title(s, ku, newer[j].key()) by {
            if is_last(newer, n - 1) && !has_key(older, newer[n - 1].key()) {
                let e = g(newer[n - 1]);
                assert(s == a + e);
                if j < n - 1 {
                    assert(has_title(a, ku, newer[j].key()));
                    let k = choose|k: int| 0 <= k < a.len() && ku(a[k]) == newer[j].key();
                    assert(s[k] == a[k]);
                } else {
                    assert(s[a.len() as int] == e[0]);
                }
            } else {
                assert(s == a);
            }
        }
    }
}

/// A sibling that stands for its title stands for it in `last_with`.
pub proof fn lemma_last_with_self<T: Titled>(s: Seq<T>, i: int)
    requires
        is_last(s, i),
    ensures
        last_with(s, s[i].key()) == Some(s[i]),
{
    lemma_last_with(s, s[i].key());
    let k = choose|k: int|
        is_last(s, k) && s[k].key() == s[i].key() && last_with(s, s[i].key()) == Some(s[k]);
    lemma_last_unique(s, k, i);
}

/// Each entry of an older sibling that stands for its title is in their part.
pub proof fn lemma_matched_contains<T: Titled, U>(
    newer: Seq<T>,
    older: Seq<T>,
    n: int,
    f: spec_fn(T, Option<T>) -> Seq<U>,
    i: int,
    x: U,
)
    requires
        0 <= i < n,
        is_last(older, i),
        f(older[i], last_with(newer, older[i].key())).contains(x),
    ensures
        matched_part(newer, older, n, f).contains(x),
    decreases n,
{
    let a = matched_part(newer, older, n - 1, f);
    let s = matched_part(newer, older, n, f);
    if i < n - 1 {
        lemma_matched_contains(newer, older, n - 1, f, i, x);
        let k = choose|k: int| 0 <= k < a.len() && a[k] == x;
        if is_last(older, n - 1) {
            assert(s[k] == a[k]);
        }
    } else {
        let e = f(older[i], last_with(newer, older[i].key()));
        let k = choose|k: int| 0 <= k < e.len() && e[k] == x;
        assert(s == a + e);
        assert(s[a.len() + k] == e[k]);
    }
}

/// What an identity's entry may say of it: matched identities are modified or
/// unchanged, identities of the older siblings alone are removed, identities of
/// the newer siblings alone are added.
pub open spec fn classified(in_newer: bool, in_older: bool, u: Update) -> bool {
    &&& in_newer || in_older
    &&& (in_newer && in_older ==> u == Update::Modified || u == Update::Unchanged)
    &&& (in_older && !in_newer ==> u == Update::Removed)
    &&& (!in_older ==> u == Update::Added)
}

/// `f` marks a matched sibling modified or unchanged, and one without a match
/// removed.
pub open spec fn marks_matches<T: Titled, U>(
    f: spec_fn(T, Option<T>) -> Seq<U>,
    st: spec_fn(U) -> Update,
) -> bool {
    forall|o: T, m: Option<T>, k: int|
        0 <= k < f(o, m).len() ==> (if m is Some {
            st(#[trigger] f(o, m)[k]) == Update::Modified || st(f(o, m)[k]) == Update::Unchanged
        } else {
            st(f(o, m)[k]) == Update::Removed
        })
}

/// `g` marks its entry added.
pub open spec fn marks_added<T: Titled, U>(g: spec_fn(T) -> Seq<U>, st: spec_fn(U) -> Update) -> bool {
    forall|o: T| #[trigger] st(g(o)[0]) == Update::Added
}

/// The difference at one level names each identity at most once, and says of
/// each what `classified` allows.
pub proof fn lemma_level_classified<T: Titled, U>(
    newer: Seq<T>,
    older: Seq<T>,
    added: bool,
    f: spec_fn(T, Option<T>) -> Seq<U>,
    g: spec_fn(T) -> Seq<U>,
    ku: spec_fn(U) -> Seq<char>,
    st: spec_fn(U) -> Update,
)
    requires
        at_most_one(f, ku),
        exactly_one_fresh(g, ku),
        marks_matches(f, st),
        marks_added(g, st),
    ensures
        distinct_titles(level_diff(newer, older, added, f, g), ku),
        all_of(
            level_diff(newer, older, added, f, g),
            |u: U| classified(has_key(newer, ku(u)), has_key(older, ku(u)), st(u)),
        ),
{
    let p = |u: U| classified(has_key(newer, ku(u)), has_key(older, ku(u)), st(u));
    let a = matched_part(newer, older, older.len() as int, f);
    let b = if added {
        fresh_part(newer, older, newer.len() as int, g)
    } else {
        seq![]
    };
    let s = level_diff(newer, older, added, f, g);
    assert(s == a + b);
    lemma_matched_titles(newer, older, older.len() as int, f, ku);
    lemma_fresh_titles(newer, older, newer.len() as int, g, ku);
    assert forall|i: int|
        0 <= i < older.len() && #[trigger] is_last(older, i) implies all_of(
        f(older[i], last_with(newer, older[i].key())),
        p,
    ) by {
        let e = f(older[i], last_with(newer, older[i].key()));
        lemma_last_with(newer, older[i].key());
        assert forall|k: int| 0 <= k < e.len() implies p(#[trigger] e[k]) by {
            assert(ku(e[0]) == older[i].key());
            assert(has_key(older, older[i].key()));
        }
    }
    lemma_matched_all(newer, older, older.len() as int, f, p);
    assert forall|j: int|
        0 <= j < newer.len() && #[trigger] is_last(newer, j) && !has_key(
            older,
            newer[j].key(),
        ) implies all_of(g(newer[j]), p) by {
        assert(has_key(newer, newer[j].key()));
    }
    lemma_fresh_all(newer, older, newer.len() as int, g, p);
    lemma_concat_all(a, b, p);
    assert forall|x: int, y: int|
        0 <= x < s.len() && 0 <= y < s.len() && x != y implies ku(#[trigger] s[x]) != ku(
        #[trigger] s[y],
    ) by {
        if x < a.len() && y < a.len() {
            assert(s[x] == a[x] && s[y] == a[y]);
        } else if x >= a.len() && y >= a.len() {
            assert(s[x] == b[x - a.len()] && s[y] == b[y - a.len()]);
        } else {
            let (u, w) = if x < a.len() {
                (x, y)
            } else {
                (y, x)
            };
            assert(s[u] == a[u]);
            assert(s[w] == b[w - a.len()]);
            assert(stands_in(older, older.len() as int, ku(a[u])));
            assert(fresh_in(newer, older, newer.len() as int, ku(b[w - a.len()])));
            let i = choose|i: int|
                0 <= i < older.len() && is_last(older, i) && older[i].key() == ku(a[u]);
            assert(has_key(older, older[i].key()));
        }
    }
}

/// Where each older sibling has an entry and newer-only ones are reported,
/// each title of either side is in the difference.
pub proof fn lemma_level_covers<T: Titled, U>(
    newer: Seq<T>,
    older: Seq<T>,
    f: spec_fn(T, Option<T>) -> Seq<U>,
    g: spec_fn(T) -> Seq<U>,
    ku: spec_fn(U) -> Seq<char>,
)
    requires
        exactly_one(f, ku),
        exactly_one_fresh(g, ku),
    ensures
        forall|t: Seq<char>|
            has_key(older, t) || has_key(newer, t) ==> has_title(
                #[trigger] level_diff(newer, older, true, f, g),
                ku,
                t,
            ),
{
    let a = matched_part(newer, older, older.len() as int, f);
    let b = fresh_part(newer, older, newer.len() as int, g);
    let s = level_diff(newer, older, true, f, g);
    assert(s == a + b);
    assert forall|i: int| 0 <= i < older.len() && #[trigger] is_last(older, i) implies f(
        older[i],
        last_with(newer, older[i].key()),
    ).len() == 1 && ku(f(older[i], last_with(newer, older[i].key()))[0]) == older[i].key() by {
        assert(f(older[i], last_with(newer, older[i].key())).len() == 1);
    }
    lemma_matched_covers(newer, older, older.len() as int, f, ku);
    lemma_fresh_covers(newer, older, newer.len() as int, g, ku);
    assert forall|t: Seq<char>| has_key(older, t) || has_key(newer, t) implies has_title(
        s,
        ku,
        t,
    ) by {
        if has_key(older, t) {
            let j = choose|j: int| 0 <= j < older.len() && #[trigger] older[j].key() == t;
            lemma_last_exists(older, j);
            let i = choose|i: int| is_last(older, i) && older[i].key() == older[j].key();
            assert(has_title(a, ku, t));
            let k = choose|k: int| 0 <= k < a.len() && ku(a[k]) == t;
            assert(s[k] == a[k]);
        } else {
            let j = choose|j: int| 0 <= j < newer.len() && #[trigger] newer[j].key() == t;
            lemma_last_exists(newer, j);
            let i = choose|i: int| is_last(newer, i) && newer[i].key() == newer[j].key();
            assert(has_title(b, ku, t));
            let k = choose|k: int| 0 <= k < b.len() && ku(b[k]) == t;
            assert(s[a.len() + k] == b[k]);
        }
    }
}

} // verus!
