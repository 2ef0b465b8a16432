//! What holds of the index as a whole.
use crate::errors::{SearchErrorView, MAX_QUERY_CHARS};
use crate::index::{IndexView, ReportView};
use crate::ntfs::RecordView;
use crate::root::{RootView, WalkView};
use crate::search::{HitView, ItemView, QueryView, RequestView};
use crate::sync::{SyncEventView, SyncStepView, VolumesStepView, VolumesSyncView};
use crate::tables::EntryView;
use vstd::prelude::*;

verus! {

// ---------------------------------------------------------------------------
// Searching
// ---------------------------------------------------------------------------

/// Hits that come one before the other are found at different positions.
proof fn lemma_sorted_distinct(query: Seq<char>, hits: Seq<HitView>, i: int, j: int)
    requires
        crate::search::hits_sorted(query, hits),
        0 <= i < hits.len(),
        0 <= j < hits.len(),
        hits[i] == hits[j],
    ensures
        i == j,
{
    crate::search::lemma_before_irreflexive(query, hits[i]);
    if i < j {
        assert(crate::search::comes_before(query, hits[i], hits[j]));
    } else if j < i {
        assert(crate::search::comes_before(query, hits[j], hits[i]));
    }
}

/// A list of hits that all stand in another list is not longer than it, whatever queries they are
/// in order for.
proof fn lemma_sorted_subset(
    query: Seq<char>,
    part: Seq<HitView>,
    other_query: Seq<char>,
    whole: Seq<HitView>,
)
    requires
        crate::search::hits_sorted(query, part),
        crate::search::hits_sorted(other_query, whole),
        forall|i: int| 0 <= i < part.len() ==> whole.contains(#[trigger] part[i]),
    ensures
        part.len() <= whole.len(),
        part.to_set().subset_of(whole.to_set()),
        whole.to_set().finite(),
        part.to_set().len() == part.len(),
        whole.to_set().len() == whole.len(),
{
    assert(part.no_duplicates()) by {
        assert forall|i: int, j: int| 0 <= i < part.len() && 0 <= j < part.len() && i
            != j implies part[i] != part[j] by {
            if part[i] == part[j] {
                lemma_sorted_distinct(query, part, i, j);
            }
        }
    }
    assert(whole.no_duplicates()) by {
        assert forall|i: int, j: int| 0 <= i < whole.len() && 0 <= j < whole.len() && i
            != j implies whole[i] != whole[j] by {
            if whole[i] == whole[j] {
                lemma_sorted_distinct(other_query, whole, i, j);
            }
        }
    }
    part.unique_seq_to_set();
    whole.unique_seq_to_set();
    assert forall|hit: HitView| part.to_set().contains(hit) implies whole.to_set().contains(hit) by {
        let i = choose|i: int| 0 <= i < part.len() && part[i] == hit;
        assert(whole.contains(part[i]));
    }
    vstd::set_lib::lemma_len_subset(part.to_set(), whole.to_set());
}

/// Every hit of one answer stands in any other answer.
proof fn lemma_answer_in_other(
    index: IndexView,
    query: QueryView,
    limit: nat,
    one: Seq<HitView>,
    other: Seq<HitView>,
)
    requires
        index.is_answer(query, limit, one),
        index.is_answer(query, limit, other),
    ensures
        forall|i: int| 0 <= i < one.len() ==> other.contains(#[trigger] one[i]),
{
    assert forall|i: int| 0 <= i < one.len() implies other.contains(#[trigger] one[i]) by {
        if !other.contains(one[i]) {
            let missing = one[i];
            assert(index.is_hit(query, missing));
            assert(other.len() == limit);
            assert forall|k: int| 0 <= k < other.len() implies one.contains(
                #[trigger] other[k],
            ) by {
                if !one.contains(other[k]) {
                    assert(index.is_hit(query, other[k]));
                    assert(crate::search::comes_before(query.text, one[i], other[k]));
                    assert(crate::search::comes_before(query.text, other[k], missing));
                    crate::search::lemma_before_transitive(query.text, missing, other[k], missing);
                    crate::search::lemma_before_irreflexive(query.text, missing);
                }
            }
            lemma_sorted_subset(query.text, other, query.text, one);
            let rest = one.to_set().remove(missing);
            assert(one.to_set().contains(missing)) by {
                assert(one.contains(missing));
            }
            assert(other.to_set().subset_of(rest));
            vstd::set_lib::lemma_len_subset(other.to_set(), rest);
        }
    }
}

/// Two lists of hits in order that hold the same hits are the same list.
proof fn lemma_same_order(query: Seq<char>, one: Seq<HitView>, other: Seq<HitView>)
    requires
        crate::search::hits_sorted(query, one),
        crate::search::hits_sorted(query, other),
        forall|i: int| 0 <= i < one.len() ==> other.contains(#[trigger] one[i]),
        forall|i: int| 0 <= i < other.len() ==> one.contains(#[trigger] other[i]),
    ensures
        one == other,
    decreases one.len(),
{
    lemma_sorted_subset(query, one, query, other);
    lemma_sorted_subset(query, other, query, one);
    if one.len() > 0 {
        let last = one.len() - 1;
        assert(other.contains(one[last]));
        let k = choose|k: int| 0 <= k < other.len() && other[k] == one[last];
        if k < last {
            assert(one.contains(other[last]));
            let m = choose|m: int| 0 <= m < one.len() && one[m] == other[last];
            assert(crate::search::comes_before(query, other[k], other[last]));
            if m < last {
                assert(crate::search::comes_before(query, one[m], one[last]));
                crate::search::lemma_before_transitive(query, one[last], one[m], one[last]);
            }
            crate::search::lemma_before_irreflexive(query, one[last]);
        }
        assert(one[last] == other[last]);
        let front = one.drop_last();
        let other_front = other.drop_last();
        assert forall|i: int| 0 <= i < front.len() implies other_front.contains(
            #[trigger] front[i],
        ) by {
            assert(front[i] == one[i]);
            let n = choose|n: int| 0 <= n < other.len() && other[n] == one[i];
            if n == last {
                lemma_sorted_distinct(query, one, i, last);
            }
            assert(other_front[n] == front[i]);
        }
        assert forall|i: int| 0 <= i < other_front.len() implies front.contains(
            #[trigger] other_front[i],
        ) by {
            assert(other_front[i] == other[i]);
            let n = choose|n: int| 0 <= n < one.len() && one[n] == other[i];
            if n == last {
                lemma_sorted_distinct(query, other, i, last);
            }
            assert(front[n] == other_front[i]);
        }
        assert forall|i: int, j: int| 0 <= i < j < front.len() implies
            crate::search::comes_before(query, #[trigger] front[i], #[trigger] front[j]) by {
            assert(front[i] == one[i] && front[j] == one[j]);
        }
        assert forall|i: int, j: int| 0 <= i < j < other_front.len() implies
            crate::search::comes_before(
            query,
            #[trigger] other_front[i],
            #[trigger] other_front[j],
        ) by {
            assert(other_front[i] == other[i] && other_front[j] == other[j]);
        }
        lemma_same_order(query, front, other_front);
        assert(one =~= front.push(one[last]));
        assert(other =~= other_front.push(other[last]));
    } else {
        assert(one =~= other);
    }
}

/// The index has one answer to a query.
pub proof fn law_answer_is_unique(
    index: IndexView,
    query: QueryView,
    limit: nat,
    one: Seq<HitView>,
    other: Seq<HitView>,
)
    requires
        index.is_answer(query, limit, one),
        index.is_answer(query, limit, other),
    ensures
        one == other,
{
    lemma_answer_in_other(index, query, limit, one, other);
    lemma_answer_in_other(index, query, limit, other, one);
    lemma_same_order(query.text, one, other);
}

/// An answer depends on the normal form of the query alone: queries that differ only in case or in
/// how their characters are composed have the same results. Neither may be too long.
pub proof fn law_same_normal_form_has_same_results(
    index: IndexView,
    request: RequestView,
    other: RequestView,
    normalized: Seq<char>,
    result: Result<Seq<ItemView>, SearchErrorView>,
    other_result: Result<Seq<ItemView>, SearchErrorView>,
)
    requires
        request.query.len() <= MAX_QUERY_CHARS,
        other.query.len() <= MAX_QUERY_CHARS,
        request.limit == other.limit,
        request.root == other.root,
        index.answers(request, normalized, result),
        index.answers(other, normalized, other_result),
    ensures
        result == other_result,
{
    if crate::search::query_problem(request.query, normalized) is None {
        let query = crate::search::query_of(request, normalized);
        let limit = crate::search::effective_limit(request.limit);
        let one = choose|hits: Seq<HitView>| #[trigger]
            index.is_answer(query, limit, hits) && result == Ok::<Seq<ItemView>, SearchErrorView>(
                crate::search::items_of(hits),
            );
        let two = choose|hits: Seq<HitView>| #[trigger]
            index.is_answer(query, limit, hits) && other_result == Ok::<
                Seq<ItemView>,
                SearchErrorView,
            >(crate::search::items_of(hits));
        law_answer_is_unique(index, query, limit, one, two);
    }
}

/// Whether two roots say the same, the time of the last scan and the generations of the entries set
/// aside.
pub open spec fn same_root(a: RootView, b: RootView) -> bool {
    &&& crate::delta::same_tree(a.tree, b.tree)
    &&& a.complete == b.complete
    &&& a.skipped_entries == b.skipped_entries
    &&& a.cursor == b.cursor
    &&& a.auto_record == b.auto_record
}

/// Whether two indexes say the same, times of scans and generations set aside.
pub open spec fn same_contents(a: IndexView, b: IndexView) -> bool {
    &&& a.roots.dom() == b.roots.dom()
    &&& forall|name: Seq<char>| #[trigger]
        a.roots.contains_key(name) ==> same_root(a.roots[name], b.roots[name])
}

/// The hit of an index at the place of a hit.
spec fn hit_at(index: IndexView, hit: HitView) -> HitView {
    HitView {
        root: hit.root,
        entry: index.roots[hit.root].tree.entries[hit.entry.relative_path],
    }
}

/// The hits of an index at the places of hits.
spec fn hits_at(index: IndexView, hits: Seq<HitView>) -> Seq<HitView> {
    Seq::new(hits.len(), |i: int| hit_at(index, hits[i]))
}

/// What is found in one of two indexes that say the same is found in the other.
proof fn lemma_found_in_both(a: IndexView, b: IndexView, query: QueryView, hit: HitView)
    requires
        same_contents(a, b) || same_contents(b, a),
        a.is_hit(query, hit),
    ensures
        b.is_hit(query, hit_at(b, hit)),
        crate::tables::same_entry(hit.entry, hit_at(b, hit).entry),
        hit_at(a, hit) == hit,
        hit_at(a, hit_at(b, hit)) == hit,
{
    let entry = hit.entry;
    let other = hit_at(b, hit).entry;
    assert(b.roots.contains_key(hit.root));
    assert(b.roots[hit.root].tree.entries.contains_key(entry.relative_path));
    assert(crate::tables::same_entry(entry, other));
    let terms = crate::text::words(query.text);
    assert forall|i: int| 0 <= i < terms.len() implies crate::search::has_term(
        other.normalized_name,
        #[trigger] terms[i],
    ) || crate::search::has_term(other.relative_path, terms[i]) by {
        assert(crate::search::has_term(entry.normalized_name, terms[i])
            || crate::search::has_term(entry.relative_path, terms[i]));
    }
}

/// The order of hits does not depend on generations.
proof fn lemma_order_without_generations(
    query: Seq<char>,
    a: HitView,
    b: HitView,
    other_a: HitView,
    other_b: HitView,
)
    requires
        a.root == other_a.root,
        b.root == other_b.root,
        crate::tables::same_entry(a.entry, other_a.entry),
        crate::tables::same_entry(b.entry, other_b.entry),
    ensures
        crate::search::comes_before(query, a, b) == crate::search::comes_before(
            query,
            other_a,
            other_b,
        ),
{
    lemma_rank_without_generation(query, a.entry, other_a.entry);
    lemma_rank_without_generation(query, b.entry, other_b.entry);
}

proof fn lemma_rank_without_generation(query: Seq<char>, a: EntryView, b: EntryView)
    requires
        crate::tables::same_entry(a, b),
    ensures
        crate::search::rank(a, query) == crate::search::rank(b, query),
{
    let terms = crate::text::words(query);
    if crate::search::has_all_terms_in_name(a, terms) {
        assert forall|i: int| 0 <= i < terms.len() implies crate::search::has_term(
            b.normalized_name,
            #[trigger] terms[i],
        ) by {
            assert(crate::search::has_term(a.normalized_name, terms[i]));
        }
    }
    if crate::search::has_all_terms_in_name(b, terms) {
        assert forall|i: int| 0 <= i < terms.len() implies crate::search::has_term(
            a.normalized_name,
            #[trigger] terms[i],
        ) by {
            assert(crate::search::has_term(b.normalized_name, terms[i]));
        }
    }
}

/// The answer of one of two indexes that say the same leads to the answer of the other.
proof fn lemma_answer_of_other(
    a: IndexView,
    b: IndexView,
    query: QueryView,
    limit: nat,
    hits: Seq<HitView>,
)
    requires
        same_contents(a, b),
        a.is_answer(query, limit, hits),
    ensures
        b.is_answer(query, limit, hits_at(b, hits)),
        crate::search::items_of(hits_at(b, hits)) == crate::search::items_of(hits),
{
    let others = hits_at(b, hits);
    assert forall|i: int| 0 <= i < hits.len() implies b.is_hit(query, #[trigger] others[i])
        && crate::tables::same_entry(hits[i].entry, others[i].entry) by {
        assert(a.is_hit(query, hits[i]));
        lemma_found_in_both(a, b, query, hits[i]);
    }
    assert forall|i: int, j: int| 0 <= i < j < others.len() implies crate::search::comes_before(
        query.text,
        #[trigger] others[i],
        #[trigger] others[j],
    ) by {
        assert(crate::search::comes_before(query.text, hits[i], hits[j]));
        lemma_order_without_generations(query.text, hits[i], hits[j], others[i], others[j]);
    }
    assert forall|hit: HitView| #[trigger] b.is_hit(query, hit) implies others.contains(hit) || (
    others.len() == limit && forall|i: int|
        0 <= i < others.len() ==> crate::search::comes_before(
            query.text,
            #[trigger] others[i],
            hit,
        )) by {
        let here = hit_at(a, hit);
        lemma_found_in_both(b, a, query, hit);
        assert(a.is_hit(query, here));
        if hits.contains(here) {
            let k = choose|k: int| 0 <= k < hits.len() && hits[k] == here;
            assert(others[k] == hit);
        } else {
            assert forall|i: int| 0 <= i < others.len() implies crate::search::comes_before(
                query.text,
                #[trigger] others[i],
                hit,
            ) by {
                assert(crate::search::comes_before(query.text, hits[i], here));
                assert(b.is_hit(query, others[i]));
                lemma_order_without_generations(query.text, hits[i], here, others[i], hit);
            }
        }
    }
    assert(crate::search::items_of(others) =~= crate::search::items_of(hits)) by {
        assert forall|i: int| 0 <= i < hits.len() implies crate::search::item_of(
            #[trigger] others[i],
        ) == crate::search::item_of(hits[i]) by {
            assert(b.is_hit(query, others[i]));
        }
    }
}

/// An answer depends on what the index says alone, not on when that was written: two indexes that
/// say the same give the same result for every request.
pub proof fn law_same_contents_have_same_results(
    a: IndexView,
    b: IndexView,
    request: RequestView,
    normalized: Seq<char>,
    result: Result<Seq<ItemView>, SearchErrorView>,
    other_result: Result<Seq<ItemView>, SearchErrorView>,
)
    requires
        same_contents(a, b),
        a.answers(request, normalized, result),
        b.answers(request, normalized, other_result),
    ensures
        result == other_result,
{
    if crate::search::query_problem(request.query, normalized) is None {
        let query = crate::search::query_of(request, normalized);
        let limit = crate::search::effective_limit(request.limit);
        let one = choose|hits: Seq<HitView>| #[trigger]
            a.is_answer(query, limit, hits) && result == Ok::<Seq<ItemView>, SearchErrorView>(
                crate::search::items_of(hits),
            );
        let two = choose|hits: Seq<HitView>| #[trigger]
            b.is_answer(query, limit, hits) && other_result == Ok::<Seq<ItemView>, SearchErrorView>(
                crate::search::items_of(hits),
            );
        lemma_answer_of_other(a, b, query, limit, one);
        law_answer_is_unique(b, query, limit, hits_at(b, one), two);
    }
}

/// With a higher limit the same hits come first.
pub proof fn law_higher_limit_extends_answer(
    index: IndexView,
    query: QueryView,
    low: nat,
    high: nat,
    short: Seq<HitView>,
    long: Seq<HitView>,
)
    requires
        low <= high,
        index.is_answer(query, low, short),
        index.is_answer(query, high, long),
    ensures
        short == long.take(
            if low <= long.len() {
                low as int
            } else {
                long.len() as int
            },
        ),
{
    let count: int = if low <= long.len() {
        low as int
    } else {
        long.len() as int
    };
    let cut = long.take(count);
    assert forall|i: int| 0 <= i < cut.len() implies index.is_hit(query, #[trigger] cut[i]) by {
        assert(cut[i] == long[i]);
    }
    assert forall|i: int, j: int| 0 <= i < j < cut.len() implies crate::search::comes_before(
        query.text,
        #[trigger] cut[i],
        #[trigger] cut[j],
    ) by {
        assert(cut[i] == long[i] && cut[j] == long[j]);
    }
    assert forall|hit: HitView| #[trigger] index.is_hit(query, hit) implies cut.contains(hit) || (
    cut.len() == low && forall|i: int|
        0 <= i < cut.len() ==> crate::search::comes_before(query.text, #[trigger] cut[i], hit)) by {
        if long.contains(hit) {
            let k = choose|k: int| 0 <= k < long.len() && long[k] == hit;
            if k < count {
                assert(cut[k] == hit);
            } else {
                assert forall|i: int| 0 <= i < cut.len() implies crate::search::comes_before(
                    query.text,
                    #[trigger] cut[i],
                    hit,
                ) by {
                    assert(cut[i] == long[i]);
                    assert(crate::search::comes_before(query.text, long[i], long[k]));
                }
            }
        } else {
            assert forall|i: int| 0 <= i < cut.len() implies crate::search::comes_before(
                query.text,
                #[trigger] cut[i],
                hit,
            ) by {
                assert(cut[i] == long[i]);
            }
        }
    }
    law_answer_is_unique(index, query, low, short, cut);
}

/// A search within a path finds what lies within it of what a search of the whole index finds.
pub proof fn law_boundary_only_narrows(
    index: IndexView,
    text: Seq<char>,
    boundary: Seq<char>,
    hit: HitView,
)
    ensures
        index.is_hit(QueryView { text, boundary: Some(boundary) }, hit) <==> index.is_hit(
            QueryView { text, boundary: None },
            hit,
        ) && crate::paths::within(
            crate::paths::place_below(hit.root, hit.entry.relative_path),
            boundary,
        ),
{
}

/// A search within a root finds all that a search of the whole index finds in it.
pub proof fn law_root_as_boundary_leaves_nothing_out(
    index: IndexView,
    text: Seq<char>,
    hit: HitView,
)
    requires
        index.is_hit(QueryView { text, boundary: None }, hit),
    ensures
        index.is_hit(QueryView { text, boundary: Some(hit.root) }, hit),
{
    crate::paths::law_root_holds_its_tree(hit.root, hit.entry.relative_path);
}

/// A query with further terms finds nothing that a query with fewer of them does not find.
pub proof fn law_more_terms_find_no_more(
    index: IndexView,
    fewer: QueryView,
    more: QueryView,
    hit: HitView,
)
    requires
        fewer.boundary == more.boundary,
        forall|i: int|
            0 <= i < crate::text::words(fewer.text).len() ==> crate::text::words(
                more.text,
            ).contains(#[trigger] crate::text::words(fewer.text)[i]),
        index.is_hit(more, hit),
    ensures
        index.is_hit(fewer, hit),
{
    let terms = crate::text::words(fewer.text);
    let all = crate::text::words(more.text);
    assert forall|i: int| 0 <= i < terms.len() implies crate::search::has_term(
        hit.entry.normalized_name,
        #[trigger] terms[i],
    ) || crate::search::has_term(hit.entry.relative_path, terms[i]) by {
        assert(all.contains(terms[i]));
        let k = choose|k: int| 0 <= k < all.len() && all[k] == terms[i];
        assert(crate::search::has_term(hit.entry.normalized_name, all[k])
            || crate::search::has_term(hit.entry.relative_path, all[k]));
    }
}

/// Two texts with a space between them.
pub open spec fn spaced(a: Seq<char>, b: Seq<char>) -> Seq<char> {
    a + seq![' '] + b
}

/// A further term only narrows what a query finds, and the order of terms does not matter.
pub proof fn law_further_term_only_narrows(
    index: IndexView,
    text: Seq<char>,
    term: Seq<char>,
    boundary: Option<Seq<char>>,
    hit: HitView,
)
    ensures
        index.is_hit(QueryView { text: spaced(text, term), boundary }, hit) ==> index.is_hit(
            QueryView { text, boundary },
            hit,
        ),
        index.is_hit(QueryView { text: spaced(text, term), boundary }, hit) <==> index.is_hit(
            QueryView { text: spaced(term, text), boundary },
            hit,
        ),
{
    let few = QueryView { text, boundary };
    let one = QueryView { text: spaced(text, term), boundary };
    let other = QueryView { text: spaced(term, text), boundary };
    let left = crate::text::words(text);
    let right = crate::text::words(term);
    crate::text::lemma_words_of_both(text, term);
    crate::text::lemma_words_of_both(term, text);
    assert forall|i: int| 0 <= i < left.len() implies (left + right).contains(#[trigger] left[i]) by {
        assert((left + right)[i] == left[i]);
    }
    assert forall|i: int| 0 <= i < (left + right).len() implies (right + left).contains(
        #[trigger] (left + right)[i],
    ) by {
        if i < left.len() {
            assert((right + left)[right.len() + i] == (left + right)[i]);
        } else {
            assert((right + left)[i - left.len()] == (left + right)[i]);
        }
    }
    assert forall|i: int| 0 <= i < (right + left).len() implies (left + right).contains(
        #[trigger] (right + left)[i],
    ) by {
        if i < right.len() {
            assert((left + right)[left.len() + i] == (right + left)[i]);
        } else {
            assert((left + right)[i - right.len()] == (right + left)[i]);
        }
    }
    if index.is_hit(one, hit) {
        law_more_terms_find_no_more(index, few, one, hit);
        law_more_terms_find_no_more(index, other, one, hit);
    }
    if index.is_hit(other, hit) {
        law_more_terms_find_no_more(index, one, other, hit);
    }
}

/// What stands in one list of hits stands, as a result, in the results of another that holds it.
proof fn lemma_items_stand(part: Seq<HitView>, whole: Seq<HitView>, item: ItemView)
    requires
        forall|i: int| 0 <= i < part.len() ==> whole.contains(#[trigger] part[i]),
        crate::search::items_of(part).contains(item),
    ensures
        crate::search::items_of(whole).contains(item),
{
    let items = crate::search::items_of(part);
    let i = choose|i: int| 0 <= i < items.len() && items[i] == item;
    assert(whole.contains(part[i]));
    let k = choose|k: int| 0 <= k < whole.len() && whole[k] == part[i];
    assert(crate::search::items_of(whole)[k] == item);
}

/// Whether two lists of results hold the same results.
pub open spec fn same_items(a: Seq<ItemView>, b: Seq<ItemView>) -> bool {
    forall|item: ItemView| a.contains(item) <==> b.contains(item)
}

/// Where a search returns fewer results than its limit, a further term only takes results away, and
/// it does not matter whether the term stands behind the query or before it: both are refused for
/// the same reason, or return the same results. The texts are the normal forms of the queries.
pub proof fn law_further_term_only_narrows_results(
    index: IndexView,
    request: RequestView,
    behind: RequestView,
    before: RequestView,
    text: Seq<char>,
    term: Seq<char>,
    items: Seq<ItemView>,
    result: Result<Seq<ItemView>, SearchErrorView>,
    other_result: Result<Seq<ItemView>, SearchErrorView>,
)
    requires
        behind.limit == request.limit,
        before.limit == request.limit,
        behind.root == request.root,
        before.root == request.root,
        behind.query.len() == before.query.len(),
        index.answers(request, text, Ok(items)),
        items.len() < crate::search::effective_limit(request.limit),
        index.answers(behind, spaced(text, term), result),
        index.answers(before, spaced(term, text), other_result),
    ensures
        match (result, other_result) {
            (Ok(found), Ok(others)) => {
                &&& forall|item: ItemView| #[trigger] found.contains(item) ==> items.contains(item)
                &&& same_items(found, others)
                &&& found.len() == others.len() <= items.len()
            },
            (Err(error), Err(other)) => error == other,
            _ => false,
        },
{
    crate::text::lemma_words_of_both(text, term);
    crate::text::lemma_words_of_both(term, text);
    if result is Ok {
        let limit = crate::search::effective_limit(request.limit);
        let query = crate::search::query_of(request, text);
        let longer = crate::search::query_of(behind, spaced(text, term));
        let swapped = crate::search::query_of(before, spaced(term, text));
        let all = choose|hits: Seq<HitView>| #[trigger]
            index.is_answer(query, limit, hits) && Ok::<Seq<ItemView>, SearchErrorView>(items)
                == Ok::<Seq<ItemView>, SearchErrorView>(crate::search::items_of(hits));
        let one = choose|hits: Seq<HitView>| #[trigger]
            index.is_answer(longer, limit, hits) && result == Ok::<Seq<ItemView>, SearchErrorView>(
                crate::search::items_of(hits),
            );
        let two = choose|hits: Seq<HitView>| #[trigger]
            index.is_answer(swapped, limit, hits) && other_result == Ok::<
                Seq<ItemView>,
                SearchErrorView,
            >(crate::search::items_of(hits));
        assert forall|i: int| 0 <= i < one.len() implies all.contains(#[trigger] one[i]) by {
            assert(index.is_hit(longer, one[i]));
            law_further_term_only_narrows(index, text, term, query.boundary, one[i]);
            assert(index.is_hit(query, one[i]));
        }
        assert forall|i: int| 0 <= i < two.len() implies all.contains(#[trigger] two[i]) by {
            assert(index.is_hit(swapped, two[i]));
            law_further_term_only_narrows(index, text, term, query.boundary, two[i]);
            assert(index.is_hit(query, two[i]));
        }
        lemma_sorted_subset(longer.text, one, query.text, all);
        lemma_sorted_subset(swapped.text, two, query.text, all);
        assert forall|i: int| 0 <= i < one.len() implies two.contains(#[trigger] one[i]) by {
            assert(index.is_hit(longer, one[i]));
            law_further_term_only_narrows(index, text, term, query.boundary, one[i]);
            assert(index.is_hit(swapped, one[i]));
        }
        assert forall|i: int| 0 <= i < two.len() implies one.contains(#[trigger] two[i]) by {
            assert(index.is_hit(swapped, two[i]));
            law_further_term_only_narrows(index, text, term, query.boundary, two[i]);
            assert(index.is_hit(longer, two[i]));
        }
        lemma_sorted_subset(longer.text, one, swapped.text, two);
        lemma_sorted_subset(swapped.text, two, longer.text, one);
        let found = crate::search::items_of(one);
        let others = crate::search::items_of(two);
        assert forall|item: ItemView| #[trigger] found.contains(item) implies items.contains(
            item,
        ) by {
            lemma_items_stand(one, all, item);
        }
        assert forall|item: ItemView| found.contains(item) <==> others.contains(item) by {
            if found.contains(item) {
                lemma_items_stand(one, two, item);
            }
            if others.contains(item) {
                lemma_items_stand(two, one, item);
            }
        }
    }
}

/// The normal form of a query of ASCII characters and a further term, where it is the text in lower
/// case, is made of the normal forms of the two.
pub proof fn law_ascii_terms_are_normalized_apart(query: Seq<char>, term: Seq<char>)
    ensures
        crate::text::fold(spaced(query, term)) == spaced(
            crate::text::fold(query),
            crate::text::fold(term),
        ),
{
    assert(crate::text::fold(spaced(query, term)) =~= spaced(
        crate::text::fold(query),
        crate::text::fold(term),
    ));
}

/// What a removed root held is found no more, and all else is found as before.
pub proof fn law_removed_root_is_not_found(
    index: IndexView,
    name: Seq<char>,
    query: QueryView,
    hit: HitView,
)
    ensures
        (IndexView { roots: index.roots.remove(name), ..index }).is_hit(query, hit)
            <==> index.is_hit(query, hit) && hit.root != name,
{
}

// ---------------------------------------------------------------------------
// Walks
// ---------------------------------------------------------------------------

/// Whether a step of a walk found something at the given stored path.
pub open spec fn walked_at(walk: Seq<WalkView>, path: Seq<char>, position: int) -> bool {
    &&& 0 <= position < walk.len()
    &&& walk[position] matches WalkView::Found(found)
    &&& crate::paths::storage_path(found.relative_path) == path
}

/// Whether a walk found something at the given stored path.
pub open spec fn walked(walk: Seq<WalkView>, path: Seq<char>) -> bool {
    exists|i: int| walked_at(walk, path, i)
}

/// What a walk adds.
pub(crate) proof fn lemma_with_found(
    entries: Map<Seq<char>, EntryView>,
    walk: Seq<WalkView>,
    generation: i64,
)
    ensures
        ({
            let result = crate::root::with_found(entries, walk, generation);
            &&& forall|path: Seq<char>| #[trigger]
                result.contains_key(path) <==> entries.contains_key(path) || walked(walk, path)
            &&& forall|path: Seq<char>|
                walked(walk, path) ==> (#[trigger] result[path]).generation == generation
            &&& forall|path: Seq<char>|
                !walked(walk, path) ==> #[trigger] result[path] == entries[path]
        }),
    decreases walk.len(),
{
    if walk.len() > 0 {
        let front = walk.drop_last();
        let last = walk.len() - 1;
        lemma_with_found(entries, front, generation);
        let before = crate::root::with_found(entries, front, generation);
        let result = crate::root::with_found(entries, walk, generation);
        assert forall|path: Seq<char>|
            #[trigger] walked(walk, path) <==> walked(front, path) || walked_at(
                walk,
                path,
                last,
            ) by {
            if walked(walk, path) {
                let i = choose|i: int| walked_at(walk, path, i);
                if i < last {
                    assert(walked_at(front, path, i));
                }
            }
            if walked(front, path) {
                let i = choose|i: int| walked_at(front, path, i);
                assert(walked_at(walk, path, i));
            }
        }
        assert forall|path: Seq<char>| #[trigger]
            result.contains_key(path) <==> entries.contains_key(path) || walked(walk, path) by {
            assert(before.contains_key(path) <==> entries.contains_key(path) || walked(
                front,
                path,
            ));
        }
        assert forall|path: Seq<char>| walked(walk, path) implies (
        #[trigger] result[path]).generation == generation by {
            if !walked_at(walk, path, last) {
                assert(walked(front, path));
                assert(before[path].generation == generation);
            }
        }
        assert forall|path: Seq<char>| !walked(walk, path) implies #[trigger] result[path]
            == entries[path] by {
            assert(!walked(front, path));
            assert(before[path] == entries[path]);
        }
    }
}

/// After a walk that could read everything, a root holds what the walk found and nothing else.
pub proof fn law_complete_walk_replaces_entries(
    root: RootView,
    walk: Seq<WalkView>,
    generation: i64,
    now: i64,
    path: Seq<char>,
)
    requires
        crate::root::skipped_in(walk) == 0,
        forall|old: Seq<char>| #[trigger]
            root.tree.entries.contains_key(old) ==> root.tree.entries[old].generation
                != generation,
    ensures
        root.after_walk(walk, generation, now).complete,
        root.after_walk(walk, generation, now).tree.entries.contains_key(path) <==> walked(
            walk,
            path,
        ),
{
    lemma_with_found(root.tree.entries, walk, generation);
    let entries = crate::root::with_found(root.tree.entries, walk, generation);
    assert(entries.contains_key(path) <==> root.tree.entries.contains_key(path) || walked(
        walk,
        path,
    ));
    if walked(walk, path) {
        assert(entries[path].generation == generation);
    } else {
        assert(entries[path] == root.tree.entries[path]);
    }
}

/// What a walk adds does not depend on the generation.
proof fn lemma_found_alike(
    a: Map<Seq<char>, EntryView>,
    b: Map<Seq<char>, EntryView>,
    walk: Seq<WalkView>,
    generation: i64,
    other: i64,
)
    requires
        crate::tables::same_entries(a, b),
    ensures
        crate::tables::same_entries(
            crate::root::with_found(a, walk, generation),
            crate::root::with_found(b, walk, other),
        ),
    decreases walk.len(),
{
    if walk.len() > 0 {
        lemma_found_alike(a, b, walk.drop_last(), generation, other);
    }
}

/// Only what a walk says matters, not when it was taken, and of a file a walk says its name, kind,
/// size and time of change: walks that say the same, each taken into an index of its own that held
/// nothing, at any two times, give the same report, the time it took set aside, and indexes that
/// say the same. So both give the same result for every request.
pub proof fn law_same_walks_have_same_results(
    a: IndexView,
    b: IndexView,
    name: Seq<char>,
    walk: Seq<WalkView>,
    now: i64,
    later: i64,
    elapsed_ms: u128,
    other_elapsed_ms: u128,
    request: RequestView,
    normalized: Seq<char>,
    result: Result<Seq<ItemView>, SearchErrorView>,
    other_result: Result<Seq<ItemView>, SearchErrorView>,
)
    requires
        a.roots.dom() == Set::<Seq<char>>::empty(),
        b.roots.dom() == Set::<Seq<char>>::empty(),
        a.after_walk(name, walk, now).answers(request, normalized, result),
        b.after_walk(name, walk, later).answers(request, normalized, other_result),
    ensures
        crate::index::walk_report(name, walk, elapsed_ms) == (ReportView {
            elapsed_ms,
            ..crate::index::walk_report(name, walk, other_elapsed_ms)
        }),
        same_contents(a.after_walk(name, walk, now), b.after_walk(name, walk, later)),
        result == other_result,
{
    let one = a.after_walk(name, walk, now);
    let two = b.after_walk(name, walk, later);
    let generation = one.last_generation;
    let other = two.last_generation;
    let none = Map::<Seq<char>, EntryView>::empty();
    let found = crate::root::with_found(none, walk, generation);
    let other_found = crate::root::with_found(none, walk, other);
    lemma_found_alike(none, none, walk, generation, other);
    lemma_with_found(none, walk, generation);
    lemma_with_found(none, walk, other);
    assert(!a.roots.contains_key(name) && !b.roots.contains_key(name));
    let kept = crate::tables::kept_entries(found, crate::root::of_generation(generation));
    let other_kept = crate::tables::kept_entries(other_found, crate::root::of_generation(other));
    assert forall|path: Seq<char>| #[trigger] found.contains_key(path) implies found[path].generation
        == generation by {
        assert(walked(walk, path));
    }
    assert forall|path: Seq<char>| #[trigger] other_found.contains_key(path) implies
        other_found[path].generation == other by {
        assert(walked(walk, path));
    }
    assert(kept =~= found);
    assert(other_kept =~= other_found);
    assert(crate::delta::same_tree(one.roots[name].tree, two.roots[name].tree));
    assert(one.roots.dom() =~= two.roots.dom());
    law_same_contents_have_same_results(one, two, request, normalized, result, other_result);
}

/// A walk that could not read everything takes no entry away, and the root is not complete.
pub proof fn law_incomplete_walk_keeps_entries(
    root: RootView,
    walk: Seq<WalkView>,
    generation: i64,
    now: i64,
    path: Seq<char>,
)
    requires
        crate::root::skipped_in(walk) > 0,
    ensures
        !root.after_walk(walk, generation, now).complete,
        root.after_walk(walk, generation, now).tree.entries.contains_key(path)
            <==> root.tree.entries.contains_key(path) || walked(walk, path),
        !walked(walk, path) ==> root.after_walk(walk, generation, now).tree.entries[path]
            == root.tree.entries[path],
{
    lemma_with_found(root.tree.entries, walk, generation);
    let entries = crate::root::with_found(root.tree.entries, walk, generation);
    assert(entries.contains_key(path) <==> root.tree.entries.contains_key(path) || walked(
        walk,
        path,
    ));
    if !walked(walk, path) {
        assert(entries[path] == root.tree.entries[path]);
    }
}

// ---------------------------------------------------------------------------
// What is indexed is found
// ---------------------------------------------------------------------------

/// Every word of a text stands in the text.
pub(crate) proof fn lemma_words_are_parts(text: Seq<char>, i: int)
    requires
        0 <= i < crate::text::words(text).len(),
    ensures
        crate::text::contains(text, crate::text::words(text)[i]),
    decreases text.len(),
{
    let word = crate::text::words(text)[i];
    if text.len() > 0 && crate::text::whitespace(text[0]) {
        let rest = text.drop_first();
        lemma_words_are_parts(rest, i);
        let at = choose|at: int| crate::text::occurs_at(rest, word, at);
        assert(text.subrange(at + 1, at + 1 + word.len()) =~= rest.subrange(at, at + word.len()));
        assert(crate::text::occurs_at(text, word, at + 1));
    } else if text.len() > 0 {
        let n = crate::text::span(text, |ch: char| crate::text::whitespace(ch)) as int;
        if i == 0 {
            assert(text.subrange(0, n) =~= text.take(n));
            assert(crate::text::occurs_at(text, word, 0));
        } else {
            let rest = text.skip(n);
            lemma_words_are_parts(rest, i - 1);
            let at = choose|at: int| crate::text::occurs_at(rest, word, at);
            assert(text.subrange(at + n, at + n + word.len()) =~= rest.subrange(
                at,
                at + word.len(),
            ));
            assert(crate::text::occurs_at(text, word, at + n));
        }
    }
}

/// A part of a part stands in the whole, whatever the case of the ASCII letters.
proof fn lemma_part_of_part(text: Seq<char>, part: Seq<char>, inner: Seq<char>)
    requires
        crate::text::contains(text, part),
        crate::text::contains(part, inner),
        !text.contains('\0'),
    ensures
        crate::search::has_term(text, inner),
{
    crate::text::lemma_before_nul(text);
    let outer_at = choose|at: int| crate::text::occurs_at(text, part, at);
    let inner_at = choose|at: int| crate::text::occurs_at(part, inner, at);
    let at = outer_at + inner_at;
    let folded = crate::text::fold(text);
    let term = crate::text::fold(inner);
    assert forall|k: int| 0 <= k < inner.len() implies text[at + k] == inner[k] by {
        assert(text.subrange(outer_at, outer_at + part.len())[inner_at + k] == part[inner_at + k]);
        assert(part.subrange(inner_at, inner_at + inner.len())[k] == inner[k]);
    }
    assert(folded.subrange(at, at + term.len()) =~= term);
    assert(crate::text::occurs_at(folded, term, at));
    assert forall|k: int| 0 <= k < inner.len() implies inner[k] != '\0' by {
        assert(text.contains(text[at + k]));
    }
}

/// A query that is a part of a name, as names are compared, finds the entry with that name. No name
/// of a file holds a NUL.
pub proof fn law_entry_is_found_by_a_part_of_its_name(
    index: IndexView,
    root: Seq<char>,
    path: Seq<char>,
    text: Seq<char>,
)
    requires
        index.roots.contains_key(root),
        index.roots[root].tree.entries.contains_key(path),
        index.roots[root].tree.entries[path].relative_path == path,
        !index.roots[root].tree.entries[path].normalized_name.contains('\0'),
        crate::text::contains(index.roots[root].tree.entries[path].normalized_name, text),
    ensures
        index.is_hit(
            QueryView { text, boundary: None },
            HitView { root, entry: index.roots[root].tree.entries[path] },
        ),
{
    let entry = index.roots[root].tree.entries[path];
    let terms = crate::text::words(text);
    assert forall|i: int| 0 <= i < terms.len() implies crate::search::has_term(
        entry.normalized_name,
        #[trigger] terms[i],
    ) by {
        lemma_words_are_parts(text, i);
        lemma_part_of_part(entry.normalized_name, text, terms[i]);
    }
}

/// What a walk found last at a path is what it adds there.
pub(crate) proof fn lemma_last_found(
    entries: Map<Seq<char>, EntryView>,
    walk: Seq<WalkView>,
    generation: i64,
    path: Seq<char>,
    position: int,
)
    requires
        walked_at(walk, path, position),
        forall|later: int| position < later < walk.len() ==> !walked_at(walk, path, later),
    ensures
        crate::root::with_found(entries, walk, generation).contains_key(path),
        crate::root::with_found(entries, walk, generation)[path] == crate::root::found_entry(
            walk[position]->Found_0,
            generation,
        ),
    decreases walk.len(),
{
    let front = walk.drop_last();
    let last = walk.len() - 1;
    if position < last {
        assert(walked_at(front, path, position));
        assert forall|later: int| position < later < front.len() implies !walked_at(
            front,
            path,
            later,
        ) by {
            assert(!walked_at(walk, path, later));
        }
        lemma_last_found(entries, front, generation, path, position);
        assert(!walked_at(walk, path, last));
    }
}

/// After a walk, what it found is found by its name.
pub proof fn law_walked_file_is_found_by_its_name(
    index: IndexView,
    name: Seq<char>,
    walk: Seq<WalkView>,
    now: i64,
    path: Seq<char>,
    position: int,
)
    requires
        walked_at(walk, path, position),
        forall|later: int| position < later < walk.len() ==> !walked_at(walk, path, later),
        !crate::normalize::normalized((walk[position]->Found_0).name).contains('\0'),
    ensures
        ({
            let found = walk[position]->Found_0;
            let after = index.after_walk(name, walk, now);
            after.is_hit(
                QueryView { text: crate::normalize::normalized(found.name), boundary: None },
                HitView {
                    root: name,
                    entry: crate::root::found_entry(found, after.last_generation),
                },
            )
        }),
{
    let found = walk[position]->Found_0;
    let after = index.after_walk(name, walk, now);
    let text = crate::normalize::normalized(found.name);
    lemma_last_found(
        index.root_or_new(name, now).tree.entries,
        walk,
        after.last_generation,
        path,
        position,
    );
    let entry = crate::root::found_entry(found, after.last_generation);
    assert(after.roots[name].tree.entries[path] == entry);
    assert(text.subrange(0, text.len() as int) =~= text);
    assert(crate::text::occurs_at(entry.normalized_name, text, 0));
    law_entry_is_found_by_a_part_of_its_name(after, name, path, text);
}

/// The last record of a snapshot at a path is the one that is entered there.
pub(crate) proof fn lemma_last_record(
    records: Seq<RecordView>,
    count: nat,
    generation: i64,
    path: Seq<char>,
    position: int,
)
    requires
        0 <= position < count <= records.len(),
        crate::root::usable_path(records, records[position]) == Some(path),
        forall|later: int|
            position < later < count ==> crate::root::usable_path(
                records,
                #[trigger] records[later],
            ) != Some(path),
    ensures
        crate::root::snapshot_entries(records, count, generation).contains_key(path),
        crate::root::snapshot_entries(records, count, generation)[path]
            == crate::tables::node_entry(
            crate::tables::node_from_record(records[position], path),
            generation,
        ),
    decreases count,
{
    if position < count - 1 {
        lemma_last_record(records, (count - 1) as nat, generation, path, position);
        assert(crate::root::usable_path(records, records[count - 1]) != Some(path));
    }
}

/// After a snapshot of a volume, a record that resolves to a path is found by its name, also where
/// other records resolve to none.
pub proof fn law_snapshot_record_is_found_by_its_name(
    index: IndexView,
    name: Seq<char>,
    records: Seq<RecordView>,
    journal_id: u64,
    next_usn: i64,
    now: i64,
    path: Seq<char>,
    position: int,
)
    requires
        0 <= position < records.len(),
        crate::root::usable_path(records, records[position]) == Some(path),
        forall|later: int|
            position < later < records.len() ==> crate::root::usable_path(
                records,
                #[trigger] records[later],
            ) != Some(path),
        !crate::normalize::normalized(records[position].name).contains('\0'),
    ensures
        ({
            let after = index.after_snapshot(name, records, journal_id, next_usn, now);
            after.is_hit(
                QueryView {
                    text: crate::normalize::normalized(records[position].name),
                    boundary: None,
                },
                HitView {
                    root: name,
                    entry: crate::tables::node_entry(
                        crate::tables::node_from_record(records[position], path),
                        after.last_generation,
                    ),
                },
            )
        }),
{
    let after = index.after_snapshot(name, records, journal_id, next_usn, now);
    let text = crate::normalize::normalized(records[position].name);
    lemma_last_record(records, records.len(), after.last_generation, path, position);
    let entry = after.roots[name].tree.entries[path];
    assert(text.subrange(0, text.len() as int) =~= text);
    assert(crate::text::occurs_at(entry.normalized_name, text, 0));
    law_entry_is_found_by_a_part_of_its_name(after, name, path, text);
}

/// Files with the query as their extension come first; then the names that are the query; then the
/// names that hold every term; and then files before directories.
pub proof fn law_groups_come_in_their_order(query: Seq<char>, a: HitView, b: HitView)
    ensures
        ({
            let extension_a = crate::search::has_extension(a.entry, query);
            let extension_b = crate::search::has_extension(b.entry, query);
            let exact_a = a.entry.normalized_name == query;
            let exact_b = b.entry.normalized_name == query;
            let terms = crate::text::words(query);
            let named_a = crate::search::has_all_terms_in_name(a.entry, terms);
            let named_b = crate::search::has_all_terms_in_name(b.entry, terms);
            let before = crate::search::comes_before(query, a, b);
            &&& extension_a && !extension_b ==> before
            &&& extension_a == extension_b && exact_a && !exact_b ==> before
            &&& extension_a == extension_b && exact_a == exact_b && named_a && !named_b ==> before
            &&& extension_a == extension_b && exact_a == exact_b && named_a == named_b
                && !a.entry.is_directory && b.entry.is_directory ==> before
        }),
{
}

// ---------------------------------------------------------------------------
// Generations
// ---------------------------------------------------------------------------

impl IndexView {
    /// Whether no entry is of a later generation than the last one that was given out.
    pub open spec fn generations_bounded(self) -> bool {
        forall|name: Seq<char>| #[trigger]
            self.roots.contains_key(name) ==> crate::tree_laws::not_later(
                self.roots[name].tree.entries,
                self.last_generation,
            )
    }
}

/// The next generation is one of which no entry is, as long as there is a later number.
pub proof fn law_next_generation_is_fresh(
    index: IndexView,
    now: i64,
    name: Seq<char>,
    path: Seq<char>,
)
    requires
        index.generations_bounded(),
        index.last_generation < i64::MAX,
        index.roots.contains_key(name),
        index.roots[name].tree.entries.contains_key(path),
    ensures
        index.roots[name].tree.entries[path].generation != index.with_next_generation(
            now,
        ).last_generation,
{
    crate::clock::law_generations_grow(index.last_generation, now);
    assert(crate::tree_laws::not_later(index.roots[name].tree.entries, index.last_generation));
}

/// No operation makes an entry of a generation that was not given out.
pub proof fn law_generations_stay_bounded(
    index: IndexView,
    name: Seq<char>,
    walk: Seq<WalkView>,
    records: Seq<RecordView>,
    journal_id: u64,
    next_usn: i64,
    now: i64,
)
    requires
        index.generations_bounded(),
    ensures
        index.after_walk(name, walk, now).generations_bounded(),
        index.after_snapshot(name, records, journal_id, next_usn, now).generations_bounded(),
        index.after_delta(name, journal_id, next_usn, records, now).0.generations_bounded(),
{
    let advanced = index.with_next_generation(now);
    let generation = advanced.last_generation;
    assert(generation >= index.last_generation);
    let root = index.root_or_new(name, now);
    assert forall|other: Seq<char>| #[trigger]
        index.roots.contains_key(other) implies crate::tree_laws::not_later(
        index.roots[other].tree.entries,
        generation,
    ) by {
        assert(crate::tree_laws::not_later(
            index.roots[other].tree.entries,
            index.last_generation,
        ));
    }
    assert(crate::tree_laws::not_later(root.tree.entries, generation));
    assert(crate::tree_laws::not_later(
        root.after_walk(walk, generation, now).tree.entries,
        generation,
    )) by {
        lemma_with_found(root.tree.entries, walk, generation);
        let entries = crate::root::with_found(root.tree.entries, walk, generation);
        assert forall|path: Seq<char>| #[trigger] entries.contains_key(path) implies entries[path]
            .generation <= generation by {
            if walked(walk, path) {
                assert(entries[path].generation == generation);
            } else {
                assert(entries[path] == root.tree.entries[path]);
                assert(root.tree.entries.contains_key(path));
            }
        }
        let after = root.after_walk(walk, generation, now).tree.entries;
        assert forall|path: Seq<char>| #[trigger] after.contains_key(path) implies after[path]
            .generation <= generation by {
            assert(entries.contains_key(path));
        }
    }
    assert(crate::tree_laws::not_later(
        root.after_snapshot(records, journal_id, next_usn, generation, now).tree.entries,
        generation,
    )) by {
        crate::tree_laws::law_snapshot_finds_what_resolves(records, records.len(), generation);
    }
    if index.roots.contains_key(name) {
        let ordered = crate::delta::by_usn(records);
        if root.tree.after_all(ordered, generation) is Some {
            crate::tree_laws::lemma_changes_generation(root.tree, ordered, generation);
        }
    }
    assert forall|other: Seq<char>| #[trigger]
        index.after_walk(name, walk, now).roots.contains_key(
            other,
        ) implies crate::tree_laws::not_later(
        index.after_walk(name, walk, now).roots[other].tree.entries,
        generation,
    ) by {
        if other != name {
            assert(index.roots.contains_key(other));
        }
    }
    assert forall|other: Seq<char>| #[trigger]
        index.after_snapshot(name, records, journal_id, next_usn, now).roots.contains_key(
            other,
        ) implies crate::tree_laws::not_later(
        index.after_snapshot(name, records, journal_id, next_usn, now).roots[other].tree.entries,
        generation,
    ) by {
        if other != name {
            assert(index.roots.contains_key(other));
        }
    }
    let (applied, _result) = index.after_delta(name, journal_id, next_usn, records, now);
    assert forall|other: Seq<char>| #[trigger]
        applied.roots.contains_key(other) implies crate::tree_laws::not_later(
        applied.roots[other].tree.entries,
        generation,
    ) by {
        if other != name {
            assert(index.roots.contains_key(other));
        }
    }
}

// ---------------------------------------------------------------------------
// Snapshots
// ---------------------------------------------------------------------------

/// A snapshot with a record that resolves to no path, or of a volume without a journal, is searched
/// like any other, but there is no position from which its changes could be followed.
pub proof fn law_snapshot_without_position_stays_searchable(
    index: IndexView,
    name: Seq<char>,
    records: Seq<RecordView>,
    journal_id: u64,
    next_usn: i64,
    now: i64,
    path: Seq<char>,
)
    requires
        crate::root::unusable(records) > 0 || journal_id == 0,
    ensures
        ({
            let after = index.after_snapshot(name, records, journal_id, next_usn, now);
            &&& after.position(name) is None
            &&& after.roots[name].cursor is None
            &&& after.roots[name].complete == (crate::root::unusable(records) == 0)
            &&& after.roots[name].tree.entries.contains_key(path) <==> crate::tree_laws::is_found(
                records,
                records.len(),
                path,
            )
        }),
{
    let generation = index.with_next_generation(now).last_generation;
    crate::tree_laws::law_snapshot_finds_what_resolves(records, records.len(), generation);
}

/// A snapshot in which every record resolves to a path, of a volume with a journal, is complete and
/// followed from where the journal stood.
pub proof fn law_complete_snapshot_is_followed(
    index: IndexView,
    name: Seq<char>,
    records: Seq<RecordView>,
    journal_id: u64,
    next_usn: i64,
    now: i64,
)
    requires
        crate::root::unusable(records) == 0,
        journal_id != 0,
    ensures
        ({
            let after = index.after_snapshot(name, records, journal_id, next_usn, now);
            &&& after.roots[name].complete
            &&& after.position(name) == Some((journal_id, next_usn))
        }),
{
    crate::root::law_cursor_is_read_back(journal_id, next_usn);
}

// ---------------------------------------------------------------------------
// Synchronisation
// ---------------------------------------------------------------------------

/// Changes that are not applied leave every root as it was.
pub proof fn law_rejected_changes_change_nothing(
    index: IndexView,
    name: Seq<char>,
    journal_id: u64,
    next_usn: i64,
    records: Seq<RecordView>,
    now: i64,
)
    requires
        index.after_delta(name, journal_id, next_usn, records, now).1 != Ok::<
            bool,
            SearchErrorView,
        >(true),
    ensures
        index.after_delta(name, journal_id, next_usn, records, now).0.roots == index.roots,
{
}

/// Changes that are applied bring the root to the position behind them, and it is complete.
pub proof fn law_applied_changes_move_the_position(
    index: IndexView,
    name: Seq<char>,
    journal_id: u64,
    next_usn: i64,
    records: Seq<RecordView>,
    now: i64,
)
    requires
        index.after_delta(name, journal_id, next_usn, records, now).1 == Ok::<
            bool,
            SearchErrorView,
        >(true),
    ensures
        ({
            let after = index.after_delta(name, journal_id, next_usn, records, now).0;
            &&& after.position(name) == Some((journal_id, next_usn))
            &&& after.roots[name].complete
        }),
{
    crate::root::law_cursor_is_read_back(journal_id, next_usn);
}

/// The order in which a journal reports changes at different positions does not matter, nor does
/// the time: the same changes are applied or not, and leave indexes that say the same.
pub proof fn law_reported_order_does_not_matter_to_the_index(
    index: IndexView,
    name: Seq<char>,
    journal_id: u64,
    next_usn: i64,
    records: Seq<RecordView>,
    others: Seq<RecordView>,
    now: i64,
    later: i64,
)
    requires
        crate::delta::distinct_positions(records),
        records.to_multiset() == others.to_multiset(),
    ensures
        index.after_delta(name, journal_id, next_usn, records, now).1 == index.after_delta(
            name,
            journal_id,
            next_usn,
            others,
            later,
        ).1,
        same_contents(
            index.after_delta(name, journal_id, next_usn, records, now).0,
            index.after_delta(name, journal_id, next_usn, others, later).0,
        ),
{
    let generation = index.with_next_generation(now).last_generation;
    let other = index.with_next_generation(later).last_generation;
    crate::delta::law_reported_order_does_not_matter(
        index.roots[name].tree,
        records,
        others,
        generation,
        other,
    );
    assert(index.after_delta(name, journal_id, next_usn, records, now).0.roots.dom()
        =~= index.after_delta(name, journal_id, next_usn, others, later).0.roots.dom());
}

/// A synchronisation that may not read the whole volume never asks for it.
pub proof fn law_background_sync_takes_no_snapshot(
    index: IndexView,
    volume: char,
    event: SyncEventView,
    now: i64,
    elapsed_ms: u128,
)
    ensures
        !(index.after_sync(volume, false, event, now, elapsed_ms).1 is TakeSnapshot),
{
}

/// A synchronisation that may read the whole volume ends with a report or an error.
pub proof fn law_explicit_sync_reports(
    index: IndexView,
    volume: char,
    event: SyncEventView,
    now: i64,
    elapsed_ms: u128,
)
    ensures
        index.after_sync(volume, true, event, now, elapsed_ms).1 != SyncStepView::Done(Ok(None)),
{
}

/// Where changes do not lead to the present state, a synchronisation that may read the whole volume
/// reads it, and guesses nothing until then: no position is known, the journal was replaced or cut
/// off, or one of its changes cannot be placed.
pub proof fn law_explicit_sync_falls_back_to_a_snapshot(
    index: IndexView,
    volume: char,
    event: SyncEventView,
    now: i64,
    elapsed_ms: u128,
)
    requires
        match event {
            SyncEventView::Start => index.position(crate::paths::volume_root(volume)) is None,
            SyncEventView::Journal(Err(error)) => error is Reset,
            SyncEventView::Journal(Ok(delta)) => delta.records.len() > 0 && index.after_delta(
                crate::paths::volume_root(volume),
                delta.journal.journal_id,
                delta.next_usn,
                delta.records,
                now,
            ).1 == Ok::<bool, SearchErrorView>(false),
            SyncEventView::Snapshot(_) => false,
        },
    ensures
        index.after_sync(volume, true, event, now, elapsed_ms).1 == (SyncStepView::TakeSnapshot {
            volume,
        }),
        index.after_sync(volume, true, event, now, elapsed_ms).0.roots == index.roots,
{
}

/// A volume whose journal was replaced or cut off is, where its whole may not be read, marked: its
/// root is not complete, its entries stay, and it is not followed until it is read as a whole.
pub proof fn law_reset_journal_is_marked(
    index: IndexView,
    volume: char,
    now: i64,
    elapsed_ms: u128,
)
    requires
        index.roots.contains_key(crate::paths::volume_root(volume)),
    ensures
        ({
            let name = crate::paths::volume_root(volume);
            let reset = SyncEventView::Journal(Err(crate::volume::JournalErrorView::Reset));
            let (after, step) = index.after_sync(volume, false, reset, now, elapsed_ms);
            &&& step == SyncStepView::Done(Ok(None))
            &&& !after.roots[name].complete
            &&& after.roots[name].skipped_entries >= 1
            &&& after.roots[name].tree == index.roots[name].tree
            &&& after.position(name) is None
        }),
{
}

/// Going on to the next volume marks the roots that stand for no volume and have had their turn,
/// and changes no other root.
pub proof fn law_turns_mark_strays_alone(
    index: IndexView,
    progress: VolumesSyncView,
    now: i64,
    name: Seq<char>,
)
    requires
        crate::paths::root_letter(name) is Some || !progress.names.contains(name),
    ensures
        index.at_next_volume(progress, now).0.roots.contains_key(name)
            == index.roots.contains_key(name),
        index.at_next_volume(progress, now).0.roots[name] == index.roots[name],
    decreases progress.names.len(),
{
    if progress.names.len() > 0 && crate::paths::root_letter(progress.names[0]) is None {
        let rest = VolumesSyncView { names: progress.names.skip(1), reports: progress.reports };
        assert(progress.names.contains(progress.names[0]));
        if rest.names.contains(name) {
            let k = choose|k: int| 0 <= k < rest.names.len() && rest.names[k] == name;
            assert(progress.names[k + 1] == name);
        }
        law_turns_mark_strays_alone(index.marked(progress.names[0], now), rest, now, name);
    }
}

/// A volume that could not be synchronised ends the synchronisation of all volumes with its error,
/// and leaves every root as it is, those whose turn was still to come among them.
pub proof fn law_failed_volume_ends_the_turns(
    index: IndexView,
    progress: VolumesSyncView,
    error: SearchErrorView,
    now: i64,
)
    ensures
        index.after_volume(progress, Err(error), now) == (
            index,
            VolumesStepView::Done(Err(error)),
        ),
{
}

/// A synchronisation of one volume leaves the roots of all others as they are.
pub proof fn law_sync_touches_one_root(
    index: IndexView,
    volume: char,
    allow_full_snapshot: bool,
    event: SyncEventView,
    now: i64,
    elapsed_ms: u128,
    other: Seq<char>,
)
    requires
        other != crate::paths::volume_root(volume),
        event matches SyncEventView::Snapshot(Ok(snapshot)) ==> snapshot.volume == volume,
    ensures
        ({
            let after = index.after_sync(
                volume,
                allow_full_snapshot,
                event,
                now,
                elapsed_ms,
            ).0;
            &&& after.roots.contains_key(other) == index.roots.contains_key(other)
            &&& index.roots.contains_key(other) ==> after.roots[other] == index.roots[other]
        }),
{
}

} // verus!
