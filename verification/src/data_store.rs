//! What the application remembers of its user: favourite packages, recent
//! and frequent searches, and the last listings fetched.

use crate::platform::local_timestamp;
use crate::paru::{package_views, Package, PackageView};
use crate::progress::lowercase;
use crate::text::{
    chars_of, clone_strings, holds, lemma_lex_total, lemma_lex_transitive, lex_less, same_text, str_less,
    string_of, strs, trim, trimmed,
};
use vstd::prelude::*;

verus! {

/// How often a query was searched for.
#[derive(Debug)]
pub struct SearchCount {
    pub query: String,
    pub count: u64,
}

/// A search count as mathematical values.
pub struct CountView {
    pub query: Seq<char>,
    pub count: u64,
}

impl View for SearchCount {
    type V = CountView;

    open spec fn view(&self) -> CountView {
        CountView { query: self.query@, count: self.count }
    }
}

impl Clone for SearchCount {
    fn clone(&self) -> (r: Self)
        ensures
            r@ == self@,
    {
        SearchCount { query: self.query.clone(), count: self.count }
    }
}

/// The views of a sequence of search counts.
pub open spec fn count_views(v: Seq<SearchCount>) -> Seq<CountView> {
    v.map_values(|c: SearchCount| c@)
}

/// The user's data.
#[derive(Debug)]
pub struct AppData {
    pub favorites: Vec<String>,
    pub recent_searches: Vec<String>,
    pub search_counts: Vec<SearchCount>,
    pub cached_installed: Vec<Package>,
    pub cached_updates: Vec<Package>,
    pub cached_installed_at: Option<i64>,
    pub cached_updates_at: Option<i64>,
}

/// The user's data as mathematical values.
pub struct AppDataView {
    pub favorites: Seq<Seq<char>>,
    pub recent_searches: Seq<Seq<char>>,
    pub search_counts: Seq<CountView>,
    pub cached_installed: Seq<PackageView>,
    pub cached_updates: Seq<PackageView>,
    pub cached_installed_at: Option<i64>,
    pub cached_updates_at: Option<i64>,
}

impl View for AppData {
    type V = AppDataView;

    open spec fn view(&self) -> AppDataView {
        AppDataView {
            favorites: strs(self.favorites@),
            recent_searches: strs(self.recent_searches@),
            search_counts: count_views(self.search_counts@),
            cached_installed: package_views(self.cached_installed@),
            cached_updates: package_views(self.cached_updates@),
            cached_installed_at: self.cached_installed_at,
            cached_updates_at: self.cached_updates_at,
        }
    }
}

/// The most recent searches that are kept.
pub const RECENT_LIMIT: usize = 12;

/// The first position at or after `from` whose count is of `query`.
pub open spec fn count_index_from(counts: Seq<CountView>, query: Seq<char>, from: int) -> Option<
    int,
>
    decreases counts.len() - from,
{
    if from < 0 || from >= counts.len() {
        None
    } else if counts[from].query == query {
        Some(from)
    } else {
        count_index_from(counts, query, from + 1)
    }
}

/// How often `query` was searched for, 0 where it never was.
pub open spec fn count_of(counts: Seq<CountView>, query: Seq<char>) -> u64 {
    match count_index_from(counts, query, 0) {
        Some(at) => counts[at].count,
        None => 0,
    }
}

/// The counts without those of a query that was counted before.
pub open spec fn first_counts(counts: Seq<CountView>) -> Seq<CountView>
    decreases counts.len(),
{
    if counts.len() == 0 {
        Seq::empty()
    } else if count_index_from(first_counts(counts.drop_last()), counts.last().query, 0) is Some {
        first_counts(counts.drop_last())
    } else {
        first_counts(counts.drop_last()).push(counts.last())
    }
}

/// Whether no query is counted twice.
pub open spec fn counted_once(counts: Seq<CountView>) -> bool {
    forall|i: int, j: int|
        0 <= i < j < counts.len() ==> (#[trigger] counts[i]).query != (#[trigger] counts[j]).query
}

/// The counts after one more search for `query`: its count one higher,
/// short of overflow, or a new count of 1 at the end.
pub open spec fn bump(counts: Seq<CountView>, query: Seq<char>) -> Seq<CountView> {
    match count_index_from(counts, query, 0) {
        Some(at) => counts.update(
            at,
            CountView {
                query,
                count: if counts[at].count < u64::MAX {
                    (counts[at].count + 1) as u64
                } else {
                    u64::MAX
                },
            },
        ),
        None => counts.push(CountView { query, count: 1 }),
    }
}

/// The texts other than `x`, in their order.
pub open spec fn without(list: Seq<Seq<char>>, x: Seq<char>) -> Seq<Seq<char>>
    decreases list.len(),
{
    if list.len() == 0 {
        Seq::empty()
    } else if list.last() == x {
        without(list.drop_last(), x)
    } else {
        without(list.drop_last(), x).push(list.last())
    }
}

/// The first `limit` texts of the list, or all where they are fewer.
pub open spec fn first_of(list: Seq<Seq<char>>, limit: int) -> Seq<Seq<char>> {
    if 0 <= limit < list.len() {
        list.take(limit)
    } else {
        list
    }
}

/// Whether `list` holds the texts of `source`, each once, in dictionary
/// order.
pub open spec fn is_sorted_set_of(list: Seq<Seq<char>>, source: Seq<Seq<char>>) -> bool {
    &&& forall|i: int, j: int|
        0 <= i < j < list.len() ==> lex_less(#[trigger] list[i], #[trigger] list[j])
    &&& forall|x: Seq<char>| list.contains(x) <==> source.contains(x)
}

/// The form under which a query is remembered: trimmed, then in lower case.
pub open spec fn query_key(query: Seq<char>) -> Seq<char> {
    lowercase(trim(query))
}

/// Whether a query is long enough to be remembered: two bytes or more in
/// UTF-8, which is two characters or more, or one beyond ASCII.
pub open spec fn is_memorable(key: Seq<char>) -> bool {
    key.len() >= 2 || (key.len() == 1 && key[0] >= '\u{80}')
}

/// Whether the query `a` ranks before `b`: searched for more often, or as
/// often and first in dictionary order.
pub open spec fn ranks_before(counts: Seq<CountView>, a: Seq<char>, b: Seq<char>) -> bool {
    count_of(counts, a) > count_of(counts, b) || (count_of(counts, a) == count_of(counts, b)
        && lex_less(a, b))
}

/// Whether `list` holds the `limit` queries that rank first, in the order
/// of their rank, or all queries where they are fewer.
pub open spec fn is_trending(list: Seq<Seq<char>>, counts: Seq<CountView>, limit: int) -> bool {
    &&& list.len() == if limit < counts.len() {
        limit
    } else {
        counts.len() as int
    }
    &&& forall|i: int|
        0 <= i < list.len() ==> count_index_from(counts, #[trigger] list[i], 0) is Some
    &&& forall|i: int, j: int|
        0 <= i < j < list.len() ==> ranks_before(counts, #[trigger] list[i], #[trigger] list[j])
    &&& forall|m: int, i: int|
        0 <= m < counts.len() && 0 <= i < list.len() && !list.contains(
            (#[trigger] counts[m]).query,
        ) ==> ranks_before(counts, #[trigger] list[i], counts[m].query)
}

impl AppDataView {
    /// No query is counted twice.
    pub open spec fn wf(self) -> bool {
        counted_once(self.search_counts)
    }

    /// The data of a fresh installation.
    pub open spec fn empty() -> AppDataView {
        AppDataView {
            favorites: Seq::empty(),
            recent_searches: Seq::empty(),
            search_counts: Seq::empty(),
            cached_installed: Seq::empty(),
            cached_updates: Seq::empty(),
            cached_installed_at: None,
            cached_updates_at: None,
        }
    }

    /// The data after a search for the key `key`: the key first among the
    /// recent searches and nowhere else among them, at most twelve of them
    /// kept, and its count one higher.
    pub open spec fn remember(self, key: Seq<char>) -> AppDataView {
        AppDataView {
            recent_searches: first_of(
                seq![key] + without(self.recent_searches, key),
                RECENT_LIMIT as int,
            ),
            search_counts: bump(self.search_counts, key),
            ..self
        }
    }

    /// The data after a search for `query`: remembered under its key where
    /// the key is long enough, unchanged otherwise.
    pub open spec fn record_search(self, query: Seq<char>) -> AppDataView {
        if is_memorable(query_key(query)) {
            self.remember(query_key(query))
        } else {
            self
        }
    }
}

impl Default for AppData {
    fn default() -> (data: Self)
        ensures
            data@ == AppDataView::empty(),
            data@.wf(),
    {
        let data = AppData {
            favorites: Vec::new(),
            recent_searches: Vec::new(),
            search_counts: Vec::new(),
            cached_installed: Vec::new(),
            cached_updates: Vec::new(),
            cached_installed_at: None,
            cached_updates_at: None,
        };
        assert(data@.favorites =~= Seq::empty());
        assert(data@.recent_searches =~= Seq::empty());
        assert(data@.search_counts =~= Seq::empty());
        assert(data@.cached_installed =~= Seq::empty());
        assert(data@.cached_updates =~= Seq::empty());
        data
    }
}

/// A copy of a list of packages.
pub fn clone_packages(v: &Vec<Package>) -> (r: Vec<Package>)
    ensures
        package_views(r@) == package_views(v@),
{
    let mut r: Vec<Package> = Vec::new();
    let mut i: usize = 0;
    while i < v.len()
        invariant
            i <= v.len(),
            r.len() == i,
            forall|j: int| 0 <= j < i ==> r@[j]@ == v@[j]@,
        decreases v.len() - i,
    {
        r.push(v[i].clone());
        i += 1;
    }
    assert(package_views(r@) =~= package_views(v@));
    r
}

/// The texts of the list other than `x`, in their order.
pub fn all_but(list: &Vec<String>, x: &str) -> (r: Vec<String>)
    ensures
        strs(r@) == without(strs(list@), x@),
{
    let mut r: Vec<String> = Vec::new();
    assert(strs(r@) =~= Seq::empty());
    assert(strs(list@).take(0) =~= Seq::empty());
    let mut i: usize = 0;
    while i < list.len()
        invariant
            i <= list.len(),
            strs(r@) == without(strs(list@).take(i as int), x@),
        decreases list.len() - i,
    {
        proof {
            let done = strs(list@).take(i + 1);
            assert(done.drop_last() =~= strs(list@).take(i as int));
            assert(done.last() == list@[i as int]@);
        }
        if !same_text(list[i].as_str(), x) {
            let kept = list[i].clone();
            assert(strs(r@.push(kept)) =~= strs(r@).push(kept@));
            r.push(kept);
        }
        i += 1;
    }
    assert(strs(list@).take(list.len() as int) =~= strs(list@));
    r
}

/// Puts `x` at its place in a list that is in dictionary order without
/// repeats, unless the list holds it already.
fn insert_sorted(list: &mut Vec<String>, x: String)
    requires
        forall|i: int, j: int|
            0 <= i < j < old(list).len() ==> lex_less(
                #[trigger] strs(old(list)@)[i],
                #[trigger] strs(old(list)@)[j],
            ),
    ensures
        forall|i: int, j: int|
            0 <= i < j < final(list).len() ==> lex_less(
                #[trigger] strs(final(list)@)[i],
                #[trigger] strs(final(list)@)[j],
            ),
        forall|y: Seq<char>|
            strs(final(list)@).contains(y) <==> (strs(old(list)@).contains(y) || y == x@),
{
    let ghost before = strs(list@);
    let mut at: usize = 0;
    while at < list.len() && str_less(list[at].as_str(), x.as_str())
        invariant
            at <= list.len(),
            strs(list@) == before,
            forall|j: int| 0 <= j < at ==> lex_less(#[trigger] before[j], x@),
        decreases list.len() - at,
    {
        assert(before[at as int] == list@[at as int]@);
        at += 1;
    }
    if at < list.len() && same_text(list[at].as_str(), x.as_str()) {
        assert(before[at as int] == x@);
        return ;
    }
    proof {
        if at < list.len() {
            assert(before[at as int] == list@[at as int]@);
            lemma_lex_total(before[at as int], x@);
        }
    }
    list.insert(at, x);
    proof {
        let after = strs(list@);
        assert(after =~= before.insert(at as int, x@));
        assert forall|i: int, j: int| 0 <= i < j < after.len() implies lex_less(
            #[trigger] after[i],
            #[trigger] after[j],
        ) by {
            if j == at {
                assert(after[i] == before[i]);
            } else if i == at {
                assert(after[j] == before[j - 1]);
                if j - 1 > at {
                    assert(lex_less(before[at as int], before[j - 1]));
                    lemma_lex_transitive(x@, before[at as int], before[j - 1], 0);
                }
            } else if j < at {
                assert(after[i] == before[i] && after[j] == before[j]);
            } else if i < at {
                assert(after[i] == before[i] && after[j] == before[j - 1]);
                if j - 1 == i {
                } else {
                    assert(lex_less(before[i], before[j - 1]));
                }
            } else {
                assert(after[i] == before[i - 1] && after[j] == before[j - 1]);
            }
        }
        assert forall|y: Seq<char>| after.contains(y) <==> (before.contains(y) || y == x@) by {
            if after.contains(y) {
                let k = choose|k: int| 0 <= k < after.len() && after[k] == y;
                if k < at {
                    assert(before[k] == y);
                } else if k > at {
                    assert(before[k - 1] == y);
                }
            }
            if before.contains(y) {
                let k = choose|k: int| 0 <= k < before.len() && before[k] == y;
                if k < at {
                    assert(after[k] == y);
                } else {
                    assert(after[k + 1] == y);
                }
            }
            if y == x@ {
                assert(after[at as int] == y);
            }
        }
    }
}

/// The texts of the list and `x`, each once, in dictionary order.
pub fn sorted_with(list: &Vec<String>, x: &str) -> (r: Vec<String>)
    ensures
        is_sorted_set_of(strs(r@), strs(list@).push(x@)),
{
    let mut r: Vec<String> = Vec::new();
    let mut i: usize = 0;
    while i < list.len()
        invariant
            i <= list.len(),
            is_sorted_set_of(strs(r@), strs(list@).take(i as int)),
        decreases list.len() - i,
    {
        let ghost prev = strs(r@);
        insert_sorted(&mut r, list[i].clone());
        proof {
            let done = strs(list@).take(i as int);
            let next = strs(list@).take(i + 1);
            assert(next =~= done.push(list@[i as int]@));
            assert forall|y: Seq<char>| strs(r@).contains(y) <==> next.contains(y) by {
                if next.contains(y) {
                    let k = choose|k: int| 0 <= k < next.len() && next[k] == y;
                    if k < i {
                        assert(done[k] == y);
                    }
                }
                if done.contains(y) {
                    let k = choose|k: int| 0 <= k < done.len() && done[k] == y;
                    assert(next[k] == y);
                }
                if y == list@[i as int]@ {
                    assert(next[i as int] == y);
                }
            }
        }
        i += 1;
    }
    let ghost all = strs(list@);
    assert(all.take(list.len() as int) =~= all);
    insert_sorted(&mut r, x.to_owned());
    proof {
        let next = all.push(x@);
        assert forall|y: Seq<char>| strs(r@).contains(y) <==> next.contains(y) by {
            if next.contains(y) {
                let k = choose|k: int| 0 <= k < next.len() && next[k] == y;
                if k < all.len() {
                    assert(all[k] == y);
                }
            }
            if all.contains(y) {
                let k = choose|k: int| 0 <= k < all.len() && all[k] == y;
                assert(next[k] == y);
            }
            if y == x@ {
                assert(next[all.len() as int] == y);
            }
        }
    }
    r
}

/// Whether the count `a` ranks before `b`: higher, or as high and first in
/// dictionary order.
pub open spec fn entry_before(a: CountView, b: CountView) -> bool {
    a.count > b.count || (a.count == b.count && lex_less(a.query, b.query))
}

/// Where no query is counted twice, the count of a query is the count that
/// stands with it.
pub proof fn lemma_count_of(counts: Seq<CountView>, at: int, from: int)
    requires
        0 <= from <= at < counts.len(),
        forall|i: int, j: int|
            0 <= i < j < counts.len() ==> (#[trigger] counts[i]).query != (
            #[trigger] counts[j]).query,
    ensures
        count_index_from(counts, counts[at].query, from) == Some(at),
    decreases at - from,
{
    if from < at {
        assert(counts[from].query != counts[at].query);
        lemma_count_of(counts, at, from + 1);
    }
}

/// What `count_index_from` finds is the first count of the query, and it
/// finds one whenever there is one.
pub proof fn lemma_count_index(counts: Seq<CountView>, query: Seq<char>, from: int)
    requires
        0 <= from,
    ensures
        match count_index_from(counts, query, from) {
            Some(at) => from <= at < counts.len() && counts[at].query == query,
            None => forall|j: int| from <= j < counts.len() ==> (#[trigger] counts[j]).query != query,
        },
    decreases counts.len() - from,
{
    if from < counts.len() && counts[from].query != query {
        lemma_count_index(counts, query, from + 1);
    }
}

/// Counts that count no query twice are their own first counts.
pub proof fn lemma_first_counts_of_distinct(counts: Seq<CountView>)
    requires
        counted_once(counts),
    ensures
        first_counts(counts) == counts,
    decreases counts.len(),
{
    if counts.len() > 0 {
        let init = counts.drop_last();
        lemma_first_counts_of_distinct(init);
        lemma_count_index(init, counts.last().query, 0);
        if count_index_from(init, counts.last().query, 0) is Some {
            let at = count_index_from(init, counts.last().query, 0)->0;
            assert(counts[at].query == counts[counts.len() - 1].query);
        }
        assert(init.push(counts.last()) =~= counts);
    }
}

/// The first count of each query.
pub fn distinct_counts(counts: &Vec<SearchCount>) -> (kept: Vec<SearchCount>)
    ensures
        count_views(kept@) == first_counts(count_views(counts@)),
        counted_once(count_views(kept@)),
{
    let ghost source = count_views(counts@);
    let mut kept: Vec<SearchCount> = Vec::new();
    assert(count_views(kept@) =~= Seq::empty());
    assert(source.take(0) =~= Seq::empty());
    let mut i: usize = 0;
    while i < counts.len()
        invariant
            i <= counts.len(),
            source == count_views(counts@),
            count_views(kept@) == first_counts(source.take(i as int)),
            counted_once(count_views(kept@)),
        decreases counts.len() - i,
    {
        let ghost before = count_views(kept@);
        proof {
            let done = source.take(i + 1);
            assert(done.drop_last() =~= source.take(i as int));
            assert(done.last() == counts@[i as int]@);
            lemma_count_index(before, counts@[i as int]@.query, 0);
        }
        let mut at: usize = 0;
        while at < kept.len() && !same_text(kept[at].query.as_str(), counts[i].query.as_str())
            invariant
                at <= kept.len(),
                i < counts.len(),
                count_views(kept@) == before,
                count_index_from(before, counts@[i as int]@.query, 0) == count_index_from(
                    before,
                    counts@[i as int]@.query,
                    at as int,
                ),
            decreases kept.len() - at,
        {
            assert(before[at as int] == kept@[at as int]@);
            at += 1;
        }
        if at == kept.len() {
            let entry = counts[i].clone();
            assert(count_views(kept@.push(entry)) =~= before.push(entry@));
            kept.push(entry);
        } else {
            assert(before[at as int] == kept@[at as int]@);
        }
        i += 1;
    }
    assert(source.take(counts.len() as int) =~= source);
    kept
}

/// Whether the position `m` stands somewhere in `order`.
pub open spec fn placed(order: Seq<usize>, m: int) -> bool {
    exists|p: int| 0 <= p < order.len() && #[trigger] order[p] == m
}

/// Whether the count at `a` ranks before the count at `b`.
fn ranks_first(counts: &Vec<SearchCount>, a: usize, b: usize) -> (r: bool)
    requires
        a < counts.len(),
        b < counts.len(),
    ensures
        r == entry_before(counts@[a as int]@, counts@[b as int]@),
{
    counts[a].count > counts[b].count || (counts[a].count == counts[b].count && str_less(
        counts[a].query.as_str(),
        counts[b].query.as_str(),
    ))
}

/// The positions of the counts, in the order of their rank.
fn ranked_order(counts: &Vec<SearchCount>) -> (order: Vec<usize>)
    requires
        forall|i: int, j: int|
            0 <= i < j < counts.len() ==> (#[trigger] counts@[i])@.query != (
            #[trigger] counts@[j])@.query,
    ensures
        order.len() == counts.len(),
        forall|p: int| 0 <= p < order.len() ==> #[trigger] order@[p] < counts.len(),
        forall|p: int, q: int|
            0 <= p < q < order.len() ==> entry_before(
                counts@[#[trigger] order@[p] as int]@,
                counts@[#[trigger] order@[q] as int]@,
            ),
        forall|m: int| 0 <= m < counts.len() ==> #[trigger] placed(order@, m),
{
    let mut order: Vec<usize> = Vec::new();
    let mut m: usize = 0;
    while m < counts.len()
        invariant
            m <= counts.len(),
            order.len() == m,
            forall|i: int, j: int|
                0 <= i < j < counts.len() ==> (#[trigger] counts@[i])@.query != (
                #[trigger] counts@[j])@.query,
            forall|p: int| 0 <= p < order.len() ==> #[trigger] order@[p] < m,
            forall|p: int, q: int|
                0 <= p < q < order.len() ==> entry_before(
                    counts@[#[trigger] order@[p] as int]@,
                    counts@[#[trigger] order@[q] as int]@,
                ),
            forall|k: int| 0 <= k < m ==> #[trigger] placed(order@, k),
        decreases counts.len() - m,
    {
        let ghost before = order@;
        let mut at: usize = 0;
        while at < order.len() && ranks_first(counts, order[at], m)
            invariant
                at <= order.len(),
                m < counts.len(),
                order@ == before,
                forall|p: int| 0 <= p < order.len() ==> #[trigger] order@[p] < m,
                forall|p: int|
                    0 <= p < at ==> entry_before(
                        counts@[#[trigger] before[p] as int]@,
                        counts@[m as int]@,
                    ),
            decreases order.len() - at,
        {
            at += 1;
        }
        order.insert(at, m);
        proof {
            let after = order@;
            let new = counts@[m as int]@;
            assert(after =~= before.insert(at as int, m));
            if at < before.len() {
                let here = counts@[before[at as int] as int]@;
                assert(before[at as int] < m);
                assert(counts@[before[at as int] as int]@.query != counts@[m as int]@.query);
                lemma_lex_total(here.query, new.query);
                assert(entry_before(new, here));
            }
            assert forall|p: int, q: int| 0 <= p < q < after.len() implies entry_before(
                counts@[#[trigger] after[p] as int]@,
                counts@[#[trigger] after[q] as int]@,
            ) by {
                if q == at {
                    assert(after[p] == before[p]);
                } else if p == at {
                    assert(after[q] == before[q - 1]);
                    if q - 1 > at {
                        let here = counts@[before[at as int] as int]@;
                        let there = counts@[before[q - 1] as int]@;
                        assert(entry_before(here, there));
                        if new.count == here.count && here.count == there.count {
                            lemma_lex_transitive(new.query, here.query, there.query, 0);
                        }
                    }
                } else if q < at {
                    assert(after[p] == before[p] && after[q] == before[q]);
                } else if p < at {
                    assert(after[p] == before[p] && after[q] == before[q - 1]);
                } else {
                    assert(after[p] == before[p - 1] && after[q] == before[q - 1]);
                }
            }
            assert forall|p: int| 0 <= p < after.len() implies #[trigger] after[p] < m + 1 by {
                if p < at {
                    assert(after[p] == before[p]);
                } else if p > at {
                    assert(after[p] == before[p - 1]);
                }
            }
            assert forall|k: int| 0 <= k < m + 1 implies #[trigger] placed(after, k) by {
                if k < m {
                    assert(placed(before, k));
                    let p = choose|p: int| 0 <= p < before.len() && #[trigger] before[p] == k;
                    if p < at {
                        assert(after[p] == k);
                    } else {
                        assert(after[p + 1] == k);
                    }
                } else {
                    assert(after[at as int] == k);
                }
            }
        }
        m += 1;
    }
    order
}

/// Whether `after` is `before` with the favourite `name` toggled, and
/// `now_favorite` says whether it is one afterwards: a favourite is taken
/// out; a name that is none is put in, which leaves the favourites in
/// dictionary order with each name once. Nothing else changes.
pub open spec fn toggled(
    before: AppDataView,
    after: AppDataView,
    name: Seq<char>,
    now_favorite: bool,
) -> bool {
    &&& after == (AppDataView { favorites: after.favorites, ..before })
    &&& now_favorite == !before.favorites.contains(name)
    &&& !now_favorite ==> after.favorites == without(before.favorites, name)
    &&& now_favorite ==> is_sorted_set_of(after.favorites, before.favorites.push(name))
}

impl AppData {
    /// Makes `name` a favourite if it is none, and none if it is one, and
    /// says whether it is one afterwards. A new favourite leaves the list in
    /// dictionary order with each name once.
    pub fn toggle_favorite(&mut self, name: &str) -> (now_favorite: bool)
        ensures
            toggled(old(self)@, final(self)@, name@, now_favorite),
    {
        if holds(&self.favorites, name) {
            self.favorites = all_but(&self.favorites, name);
            false
        } else {
            self.favorites = sorted_with(&self.favorites, name);
            true
        }
    }

    /// Whether `name` is a favourite.
    pub fn is_favorite(&self, name: &str) -> (r: bool)
        ensures
            r == self@.favorites.contains(name@),
    {
        holds(&self.favorites, name)
    }

    /// Remembers a search under its key: first among the recent searches,
    /// of which twelve are kept, and counted once more.
    pub fn remember(&mut self, key: String)
        ensures
            final(self)@ == old(self)@.remember(key@),
            old(self)@.wf() ==> final(self)@.wf(),
    {
        let mut recent: Vec<String> = Vec::new();
        recent.push(key.clone());
        let others = all_but(&self.recent_searches, key.as_str());
        let mut i: usize = 0;
        while i < others.len() && recent.len() < RECENT_LIMIT
            invariant
                i <= others.len(),
                recent.len() == i + 1,
                recent.len() <= RECENT_LIMIT,
                strs(recent@) == (seq![key@] + strs(others@)).take(i + 1),
            decreases others.len() - i,
        {
            let next = others[i].clone();
            assert(strs(recent@.push(next)) =~= (seq![key@] + strs(others@)).take(i + 2));
            recent.push(next);
            i += 1;
        }
        proof {
            let all = seq![key@] + strs(others@);
            if i == others.len() {
                assert(all.take(i + 1) =~= all);
            }
        }
        self.recent_searches = recent;
        let ghost counts = old(self)@.search_counts;
        let mut at: usize = 0;
        while at < self.search_counts.len() && !same_text(
            self.search_counts[at].query.as_str(),
            key.as_str(),
        )
            invariant
                at <= self.search_counts.len(),
                count_views(self.search_counts@) == counts,
                count_index_from(counts, key@, 0) == count_index_from(counts, key@, at as int),
            decreases self.search_counts.len() - at,
        {
            assert(counts[at as int] == self.search_counts@[at as int]@);
            at += 1;
        }
        if at < self.search_counts.len() {
            assert(counts[at as int] == self.search_counts@[at as int]@);
            let seen = self.search_counts[at].count;
            if seen < u64::MAX {
                self.search_counts[at].count = seen + 1;
            }
            assert(count_views(self.search_counts@) =~= bump(counts, key@));
        } else {
            self.search_counts.push(SearchCount { query: key, count: 1 });
            assert(count_views(self.search_counts@) =~= bump(counts, key@));
            proof {
                if old(self)@.wf() {
                    lemma_count_index(counts, key@, 0);
                }
            }
        }
    }

    /// Remembers a search for `query`, trimmed and in lower case, unless
    /// that is shorter than two bytes.
    pub fn record_search(&mut self, query: &str)
        ensures
            final(self)@ == old(self)@.record_search(query@),
            old(self)@.wf() ==> final(self)@.wf(),
    {
        let key = string_of(&trimmed(&chars_of(query))).to_lowercase();
        let letters = chars_of(key.as_str());
        if letters.len() >= 2 || (letters.len() == 1 && letters[0] >= '\u{80}') {
            self.remember(key);
        }
    }

    /// The most recent searches, at most `limit` of them, the latest first.
    pub fn recent_searches(&self, limit: usize) -> (r: Vec<String>)
        ensures
            strs(r@) == first_of(self@.recent_searches, limit as int),
    {
        let mut r: Vec<String> = Vec::new();
        let mut i: usize = 0;
        while i < self.recent_searches.len() && i < limit
            invariant
                i <= self.recent_searches.len(),
                i <= limit,
                r.len() == i,
                forall|j: int| 0 <= j < i ==> r@[j]@ == self.recent_searches@[j]@,
            decreases self.recent_searches.len() - i,
        {
            r.push(self.recent_searches[i].clone());
            i += 1;
        }
        assert(strs(r@) =~= first_of(self@.recent_searches, limit as int));
        r
    }

    /// The queries searched for most often, at most `limit` of them, the
    /// most frequent first and those of equal count in dictionary order. Of
    /// several counts of one query the first stands.
    pub fn trending_searches(&self, limit: usize) -> (r: Vec<String>)
        ensures
            is_trending(strs(r@), first_counts(self@.search_counts), limit as int),
            self@.wf() ==> is_trending(strs(r@), self@.search_counts, limit as int),
    {
        let distinct = distinct_counts(&self.search_counts);
        let ghost counts = count_views(distinct@);
        proof {
            if self@.wf() {
                lemma_first_counts_of_distinct(self@.search_counts);
            }
        }
        assert forall|i: int, j: int| 0 <= i < j < distinct.len() implies (
        #[trigger] distinct@[i])@.query != (#[trigger] distinct@[j])@.query by {
            assert(counts[i] == distinct@[i]@);
            assert(counts[j] == distinct@[j]@);
        }
        let order = ranked_order(&distinct);
        let mut r: Vec<String> = Vec::new();
        let mut i: usize = 0;
        while i < order.len() && i < limit
            invariant
                i <= order.len(),
                i <= limit,
                r.len() == i,
                order.len() == distinct.len(),
                forall|p: int| 0 <= p < order.len() ==> #[trigger] order@[p] < distinct.len(),
                forall|j: int| 0 <= j < i ==> r@[j]@ == distinct@[order@[j] as int]@.query,
            decreases order.len() - i,
        {
            r.push(distinct[order[i]].query.clone());
            i += 1;
        }
        proof {
            let list = strs(r@);
            assert forall|j: int| 0 <= j < list.len() implies #[trigger] list[j]
                == counts[order@[j] as int].query && count_index_from(counts, list[j], 0) == Some(
                order@[j] as int,
            ) by {
                lemma_count_of(counts, order@[j] as int, 0);
            }
            assert forall|a: int, b: int| 0 <= a < b < list.len() implies ranks_before(
                counts,
                #[trigger] list[a],
                #[trigger] list[b],
            ) by {
                assert(entry_before(distinct@[order@[a] as int]@, distinct@[order@[b] as int]@));
            }
            assert forall|m: int, a: int|
                0 <= m < counts.len() && 0 <= a < list.len() && !list.contains(
                    (#[trigger] counts[m]).query,
                ) implies ranks_before(counts, #[trigger] list[a], counts[m].query) by {
                assert(placed(order@, m));
                let p = choose|p: int| 0 <= p < order.len() && #[trigger] order@[p] == m;
                lemma_count_of(counts, m, 0);
                if p < list.len() {
                    assert(list[p] == counts[m].query);
                } else {
                    assert(entry_before(
                        distinct@[order@[a] as int]@,
                        distinct@[order@[p] as int]@,
                    ));
                }
            }
        }
        r
    }
}

/// The slot that holds the user's data: empty until `init` fills it, and
/// filled once.
pub struct DataStore {
    slot: Option<AppData>,
}

impl View for DataStore {
    type V = Option<AppDataView>;

    closed spec fn view(&self) -> Option<AppDataView> {
        match self.slot {
            Some(data) => Some(data@),
            None => None,
        }
    }
}

impl DataStore {
    /// An empty slot.
    pub fn new() -> (store: Self)
        ensures
            store@ is None,
    {
        DataStore { slot: None }
    }

    /// Whether the data held counts no query twice; an empty slot does.
    pub open spec fn wf(&self) -> bool {
        match self@ {
            Some(data) => data.wf(),
            None => true,
        }
    }

    /// A copy of the data held, if any, to write to disk.
    pub fn snapshot(&self) -> (r: Option<AppData>)
        ensures
            match r {
                Some(data) => self@ == Some(data@),
                None => self@ is None,
            },
    {
        match &self.slot {
            Some(data) => Some(
                AppData {
                    favorites: clone_strings(&data.favorites),
                    recent_searches: clone_strings(&data.recent_searches),
                    search_counts: clone_counts(&data.search_counts),
                    cached_installed: clone_packages(&data.cached_installed),
                    cached_updates: clone_packages(&data.cached_updates),
                    cached_installed_at: data.cached_installed_at,
                    cached_updates_at: data.cached_updates_at,
                },
            ),
            None => None,
        }
    }
}

/// A copy of a list of search counts.
pub fn clone_counts(v: &Vec<SearchCount>) -> (r: Vec<SearchCount>)
    ensures
        count_views(r@) == count_views(v@),
{
    let mut r: Vec<SearchCount> = Vec::new();
    let mut i: usize = 0;
    while i < v.len()
        invariant
            i <= v.len(),
            r.len() == i,
            forall|j: int| 0 <= j < i ==> r@[j]@ == v@[j]@,
        decreases v.len() - i,
    {
        r.push(v[i].clone());
        i += 1;
    }
    assert(count_views(r@) =~= count_views(v@));
    r
}

/// Fills an empty slot with the data that was loaded, or with none where
/// nothing was. A slot that is filled stays as it is.
pub fn init(store: &mut DataStore, loaded: Option<AppData>)
    ensures
        old(store)@ is Some ==> final(store)@ == old(store)@,
        old(store)@ is None ==> final(store)@ == Some(
            match loaded {
                Some(data) => data@,
                None => AppDataView::empty(),
            },
        ),
{
    if store.slot.is_none() {
        let data = match loaded {
            Some(data) => data,
            None => AppData::default(),
        };
        store.slot = Some(data);
    }
}

/// Toggles the favourite `name` and says whether it is one afterwards.
/// An empty slot stays empty and the answer is no.
pub fn toggle_favorite(store: &mut DataStore, name: &str) -> (now_favorite: bool)
    ensures
        match old(store)@ {
            Some(before) => final(store)@ is Some && toggled(
                before,
                final(store)@->0,
                name@,
                now_favorite,
            ),
            None => final(store)@ is None && !now_favorite,
        },
{
    match &mut store.slot {
        Some(data) => data.toggle_favorite(name),
        None => false,
    }
}

/// Whether `name` is a favourite; no while the slot is empty.
pub fn is_favorite(store: &DataStore, name: &str) -> (r: bool)
    ensures
        r == match store@ {
            Some(data) => data.favorites.contains(name@),
            None => false,
        },
{
    match &store.slot {
        Some(data) => data.is_favorite(name),
        None => false,
    }
}

/// The favourites; none while the slot is empty.
pub fn favorites(store: &DataStore) -> (r: Vec<String>)
    ensures
        strs(r@) == match store@ {
            Some(data) => data.favorites,
            None => Seq::empty(),
        },
{
    match &store.slot {
        Some(data) => clone_strings(&data.favorites),
        None => {
            assert(strs(Seq::<String>::empty()) =~= Seq::empty());
            Vec::new()
        },
    }
}

/// Remembers a search for `query`. An empty slot stays empty.
pub fn record_search(store: &mut DataStore, query: &str)
    ensures
        final(store)@ == match old(store)@ {
            Some(before) => Some(before.record_search(query@)),
            None => None,
        },
        old(store).wf() ==> final(store).wf(),
{
    match &mut store.slot {
        Some(data) => {
            data.record_search(query);
        },
        None => {},
    }
}

/// The most recent searches, at most `limit` of them; none while the slot
/// is empty.
pub fn recent_searches(store: &DataStore, limit: usize) -> (r: Vec<String>)
    ensures
        strs(r@) == match store@ {
            Some(data) => first_of(data.recent_searches, limit as int),
            None => Seq::empty(),
        },
{
    match &store.slot {
        Some(data) => data.recent_searches(limit),
        None => {
            assert(strs(Seq::<String>::empty()) =~= Seq::empty());
            Vec::new()
        },
    }
}

/// The queries searched for most often, at most `limit` of them; none
/// while the slot is empty.
pub fn trending_searches(store: &DataStore, limit: usize) -> (r: Vec<String>)
    ensures
        match store@ {
            Some(data) => is_trending(strs(r@), first_counts(data.search_counts), limit as int)
                && (data.wf() ==> is_trending(strs(r@), data.search_counts, limit as int)),
            None => r@.len() == 0,
        },
{
    match &store.slot {
        Some(data) => data.trending_searches(limit),
        None => Vec::new(),
    }
}

/// The data with `packages` kept as the last list of installed packages,
/// fetched at second `now`; an empty slot stays empty.
pub open spec fn with_cached_installed(
    before: Option<AppDataView>,
    packages: Seq<PackageView>,
    now: i64,
) -> Option<AppDataView> {
    match before {
        Some(data) => Some(
            AppDataView { cached_installed: packages, cached_installed_at: Some(now), ..data },
        ),
        None => None,
    }
}

/// The data with `packages` kept as the last list of updates, fetched at
/// second `now`; an empty slot stays empty.
pub open spec fn with_cached_updates(
    before: Option<AppDataView>,
    packages: Seq<PackageView>,
    now: i64,
) -> Option<AppDataView> {
    match before {
        Some(data) => Some(
            AppDataView { cached_updates: packages, cached_updates_at: Some(now), ..data },
        ),
        None => None,
    }
}

/// Keeps `packages` as the last list of installed packages, fetched at
/// second `now`. An empty slot stays empty.
pub fn set_cached_installed_at(store: &mut DataStore, packages: &Vec<Package>, now: i64)
    ensures
        final(store)@ == with_cached_installed(old(store)@, package_views(packages@), now),
{
    match &mut store.slot {
        Some(data) => {
            data.cached_installed = clone_packages(packages);
            data.cached_installed_at = Some(now);
        },
        None => {},
    }
}

/// Keeps `packages` as the last list of installed packages, stamped with
/// the clock's second.
pub fn set_cached_installed(store: &mut DataStore, packages: &Vec<Package>)
    ensures
        exists|now: i64|
            final(store)@ == #[trigger] with_cached_installed(old(store)@, package_views(packages@), now),
{
    let now = local_timestamp();
    set_cached_installed_at(store, packages, now);
}

/// Keeps `packages` as the last list of updates, fetched at second `now`.
/// An empty slot stays empty.
pub fn set_cached_updates_at(store: &mut DataStore, packages: &Vec<Package>, now: i64)
    ensures
        final(store)@ == with_cached_updates(old(store)@, package_views(packages@), now),
{
    match &mut store.slot {
        Some(data) => {
            data.cached_updates = clone_packages(packages);
            data.cached_updates_at = Some(now);
        },
        None => {},
    }
}

/// Keeps `packages` as the last list of updates, stamped with the clock's
/// second.
pub fn set_cached_updates(store: &mut DataStore, packages: &Vec<Package>)
    ensures
        exists|now: i64|
            final(store)@ == #[trigger] with_cached_updates(old(store)@, package_views(packages@), now),
{
    let now = local_timestamp();
    set_cached_updates_at(store, packages, now);
}

/// The last list of installed packages; none while the slot is empty.
pub fn cached_installed(store: &DataStore) -> (r: Vec<Package>)
    ensures
        package_views(r@) == match store@ {
            Some(data) => data.cached_installed,
            None => Seq::empty(),
        },
{
    match &store.slot {
        Some(data) => clone_packages(&data.cached_installed),
        None => {
            assert(package_views(Seq::<Package>::empty()) =~= Seq::empty());
            Vec::new()
        },
    }
}

/// The last list of updates; none while the slot is empty.
pub fn cached_updates(store: &DataStore) -> (r: Vec<Package>)
    ensures
        package_views(r@) == match store@ {
            Some(data) => data.cached_updates,
            None => Seq::empty(),
        },
{
    match &store.slot {
        Some(data) => clone_packages(&data.cached_updates),
        None => {
            assert(package_views(Seq::<Package>::empty()) =~= Seq::empty());
            Vec::new()
        },
    }
}

/// When the list of installed packages was last fetched, if it was.
pub fn cached_installed_at(store: &DataStore) -> (r: Option<i64>)
    ensures
        r == match store@ {
            Some(data) => data.cached_installed_at,
            None => None,
        },
{
    match &store.slot {
        Some(data) => data.cached_installed_at,
        None => None,
    }
}

/// When the list of updates was last fetched, if it was.
pub fn cached_updates_at(store: &DataStore) -> (r: Option<i64>)
    ensures
        r == match store@ {
            Some(data) => data.cached_updates_at,
            None => None,
        },
{
    match &store.slot {
        Some(data) => data.cached_updates_at,
        None => None,
    }
}

/// Only one list holds the texts of a source, each once, in dictionary
/// order.
pub proof fn lemma_sorted_set_is_unique(a: Seq<Seq<char>>, b: Seq<Seq<char>>, source: Seq<Seq<char>>)
    requires
        is_sorted_set_of(a, source),
        is_sorted_set_of(b, source),
    ensures
        a == b,
    decreases a.len(),
{
    if a.len() == 0 {
        if b.len() > 0 {
            assert(b.contains(b[0]));
            assert(a.contains(b[0]));
        }
        assert(a =~= b);
    } else {
        let last = a.last();
        assert(a.contains(last));
        assert(b.contains(last));
        let j = choose|j: int| 0 <= j < b.len() && b[j] == last;
        if j < b.len() - 1 {
            let more = b[b.len() - 1];
            assert(lex_less(b[j], more));
            assert(b.contains(more));
            assert(a.contains(more));
            let k = choose|k: int| 0 <= k < a.len() && a[k] == more;
            if k < a.len() - 1 {
                assert(lex_less(a[k], a[a.len() - 1]));
                lemma_lex_transitive(last, more, last, 0);
            }
            lemma_lex_total(last, last);
        }
        let a0 = a.drop_last();
        let b0 = b.drop_last();
        assert forall|x: Seq<char>| a0.contains(x) <==> b0.contains(x) by {
            if a0.contains(x) {
                let k = choose|k: int| 0 <= k < a0.len() && a0[k] == x;
                assert(a[k] == x);
                assert(lex_less(a[k], a[a.len() - 1]));
                assert(a.contains(x));
                assert(b.contains(x));
                let m = choose|m: int| 0 <= m < b.len() && b[m] == x;
                if m == b.len() - 1 {
                    lemma_lex_total(x, x);
                }
                assert(b0[m] == x);
            }
            if b0.contains(x) {
                let m = choose|m: int| 0 <= m < b0.len() && b0[m] == x;
                assert(b[m] == x);
                assert(lex_less(b[m], b[b.len() - 1]));
                assert(b.contains(x));
                assert(a.contains(x));
                let k = choose|k: int| 0 <= k < a.len() && a[k] == x;
                if k == a.len() - 1 {
                    lemma_lex_total(x, x);
                }
                assert(a0[k] == x);
            }
        }
        assert forall|p: int, q: int| 0 <= p < q < a0.len() implies lex_less(
            #[trigger] a0[p],
            #[trigger] a0[q],
        ) by {
            assert(a0[p] == a[p] && a0[q] == a[q]);
        }
        assert forall|p: int, q: int| 0 <= p < q < b0.len() implies lex_less(
            #[trigger] b0[p],
            #[trigger] b0[q],
        ) by {
            assert(b0[p] == b[p] && b0[q] == b[q]);
        }
        lemma_sorted_set_is_unique(a0, b0, a0);
        assert(a =~= a0.push(last));
        assert(b =~= b0.push(last));
    }
}

} // verus!
