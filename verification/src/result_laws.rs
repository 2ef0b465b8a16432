//! What a search says of what the index was told.
use crate::errors::{SearchError, SearchErrorView};
use crate::index::{IndexView, SearchIndex};
use crate::ntfs::RecordView;
use crate::root::WalkView;
use crate::search::{
    HitView, ItemView, QueryView, RequestView, SearchItem, SearchRequest,
};
use crate::tables::EntryView;
use vstd::prelude::*;

verus! {

// ---------------------------------------------------------------------------
// What is found
// ---------------------------------------------------------------------------

/// A part of a text without a given character does not have that character either.
proof fn lemma_part_is_without(text: Seq<char>, part: Seq<char>, ch: char)
    requires
        crate::text::contains(text, part),
        !text.contains(ch),
    ensures
        !part.contains(ch),
{
    let at = choose|at: int| crate::text::occurs_at(text, part, at);
    assert forall|k: int| 0 <= k < part.len() implies part[k] != ch by {
        assert(text.subrange(at, at + part.len())[k] == text[at + k]);
        assert(text.contains(text[at + k]));
    }
}

/// Where no text holds a NUL character, an entry is a hit exactly if each word of the query occurs,
/// ASCII case aside, in its normalized name or in its path. Files and directories are found alike.
pub proof fn law_hit_has_each_word_in_its_name_or_path(
    index: IndexView,
    root: Seq<char>,
    path: Seq<char>,
    text: Seq<char>,
)
    requires
        index.roots.contains_key(root),
        index.roots[root].tree.entries.contains_key(path),
        index.roots[root].tree.entries[path].relative_path == path,
        !index.roots[root].tree.entries[path].normalized_name.contains('\0'),
        !path.contains('\0'),
        !text.contains('\0'),
    ensures
        ({
            let entry = index.roots[root].tree.entries[path];
            let words = crate::text::words(text);
            index.is_hit(QueryView { text, boundary: None }, HitView { root, entry }) <==> forall|
                i: int,
            |
                0 <= i < words.len() ==> crate::text::contains(
                    crate::text::fold(entry.normalized_name),
                    crate::text::fold(#[trigger] words[i]),
                ) || crate::text::contains(crate::text::fold(path), crate::text::fold(words[i]))
        }),
{
    let entry = index.roots[root].tree.entries[path];
    let words = crate::text::words(text);
    crate::text::lemma_before_nul(entry.normalized_name);
    crate::text::lemma_before_nul(path);
    assert forall|i: int| 0 <= i < words.len() implies !(#[trigger] words[i]).contains('\0') by {
        crate::laws::lemma_words_are_parts(text, i);
        lemma_part_is_without(text, words[i], '\0');
    }
}

/// An entry, be it a file or a directory, is found by any part of its path, in upper or lower
/// case.
pub proof fn law_entry_is_found_by_a_part_of_its_path(
    index: IndexView,
    root: Seq<char>,
    path: Seq<char>,
    text: Seq<char>,
)
    requires
        index.roots.contains_key(root),
        index.roots[root].tree.entries.contains_key(path),
        index.roots[root].tree.entries[path].relative_path == path,
        !index.roots[root].tree.entries[path].normalized_name.contains('\0'),
        !path.contains('\0'),
        !text.contains('\0'),
        crate::text::contains(crate::text::fold(path), crate::text::fold(text)),
    ensures
        index.is_hit(
            QueryView { text, boundary: None },
            HitView { root, entry: index.roots[root].tree.entries[path] },
        ),
{
    law_hit_has_each_word_in_its_name_or_path(index, root, path, text);
    let words = crate::text::words(text);
    assert forall|i: int| 0 <= i < words.len() implies crate::text::contains(
        crate::text::fold(path),
        crate::text::fold(#[trigger] words[i]),
    ) by {
        crate::laws::lemma_words_are_parts(text, i);
        let whole = crate::text::fold(path);
        let part = crate::text::fold(text);
        let inner = crate::text::fold(words[i]);
        let outer_at = choose|at: int| crate::text::occurs_at(whole, part, at);
        let inner_at = choose|at: int| crate::text::occurs_at(text, words[i], at);
        let at = outer_at + inner_at;
        assert forall|k: int| 0 <= k < inner.len() implies whole[at + k] == inner[k] by {
            assert(whole.subrange(outer_at, outer_at + part.len())[inner_at + k] == part[inner_at
                + k]);
            assert(text.subrange(inner_at, inner_at + words[i].len())[k] == words[i][k]);
        }
        assert(whole.subrange(at, at + inner.len()) =~= inner);
        assert(crate::text::occurs_at(whole, inner, at));
    }
}

/// A path bounds a search: an entry is a hit within it exactly if it is one without it and its
/// place, the root and the path below it with one slash between them, is that path or lies below
/// it.
pub proof fn law_boundary_is_the_place_or_above_it(
    index: IndexView,
    text: Seq<char>,
    boundary: Seq<char>,
    hit: HitView,
)
    requires
        boundary.len() > 0,
        boundary.last() != '/',
    ensures
        ({
            let root = hit.root;
            let place = if root.len() > 0 && root.last() == '/' {
                root + hit.entry.relative_path
            } else {
                root + seq!['/'] + hit.entry.relative_path
            };
            index.is_hit(QueryView { text, boundary: Some(boundary) }, hit) <==> index.is_hit(
                QueryView { text, boundary: None },
                hit,
            ) && (place == boundary || crate::text::starts_with(place, boundary + seq!['/']))
        }),
{
    assert(boundary.push('/') =~= boundary + seq!['/']);
    assert(hit.root.push('/') =~= hit.root + seq!['/']);
}

/// Where no text holds a NUL character, a file has the ending that a query asks for exactly if its
/// normalized name ends, ASCII case aside, with a dot and the query without the dots that lead it.
/// A directory never has.
pub proof fn law_ending_is_what_follows_a_dot(entry: EntryView, dots: nat, ending: Seq<char>)
    requires
        !entry.normalized_name.contains('\0'),
        !ending.contains('\0'),
        ending.len() == 0 || ending[0] != '.',
    ensures
        crate::search::has_extension(entry, Seq::new(dots, |i: int| '.') + ending) <==> (
        !entry.is_directory && crate::text::ends_with(
            crate::text::fold(entry.normalized_name),
            seq!['.'] + crate::text::fold(ending),
        )),
{
    crate::text_laws::law_leading_characters_are_taken_away(dots, ending, '.');
    crate::text::lemma_before_nul(entry.normalized_name);
    crate::text::lemma_before_nul(ending);
    assert(crate::text::fold(seq!['.'] + ending) =~= seq!['.'] + crate::text::fold(ending));
}

/// Where no text holds a NUL character, an entry has the whole query in its name exactly if each
/// word of the query occurs there, ASCII case aside.
pub proof fn law_name_has_each_word(entry: EntryView, text: Seq<char>)
    requires
        !entry.normalized_name.contains('\0'),
        !text.contains('\0'),
    ensures
        crate::search::has_all_terms_in_name(entry, crate::text::words(text)) <==> forall|i: int|
            0 <= i < crate::text::words(text).len() ==> crate::text::contains(
                crate::text::fold(entry.normalized_name),
                crate::text::fold(#[trigger] crate::text::words(text)[i]),
            ),
{
    let words = crate::text::words(text);
    crate::text::lemma_before_nul(entry.normalized_name);
    assert forall|i: int| 0 <= i < words.len() implies !(#[trigger] words[i]).contains('\0') by {
        crate::laws::lemma_words_are_parts(text, i);
        lemma_part_is_without(text, words[i], '\0');
    }
}

/// Whether two hits fall into the same groups of a query.
pub open spec fn same_groups(query: Seq<char>, a: HitView, b: HitView) -> bool {
    &&& crate::search::has_extension(a.entry, query) == crate::search::has_extension(b.entry, query)
    &&& (a.entry.normalized_name == query) == (b.entry.normalized_name == query)
    &&& crate::search::has_all_terms_in_name(a.entry, crate::text::words(query))
        == crate::search::has_all_terms_in_name(b.entry, crate::text::words(query))
    &&& a.entry.is_directory == b.entry.is_directory
}

/// Within a group the names decide, ASCII case aside; where they are the same the paths, ASCII case
/// aside; where those are the same the roots, and at last the paths as they are.
pub proof fn law_ties_are_decided_by_name_and_path(query: Seq<char>, a: HitView, b: HitView)
    requires
        same_groups(query, a, b),
    ensures
        ({
            let name_a = crate::text::fold(a.entry.name);
            let name_b = crate::text::fold(b.entry.name);
            let path_a = crate::text::fold(a.entry.relative_path);
            let path_b = crate::text::fold(b.entry.relative_path);
            let before = crate::search::comes_before(query, a, b);
            &&& crate::text::precedes(name_a, name_b) ==> before
            &&& crate::text::precedes(name_b, name_a) ==> !before
            &&& name_a == name_b && crate::text::precedes(path_a, path_b) ==> before
            &&& name_a == name_b && crate::text::precedes(path_b, path_a) ==> !before
            &&& name_a == name_b && path_a == path_b && crate::text::precedes(a.root, b.root)
                ==> before
            &&& name_a == name_b && path_a == path_b && crate::text::precedes(b.root, a.root)
                ==> !before
            &&& name_a == name_b && path_a == path_b && a.root == b.root && crate::text::precedes(
                a.entry.relative_path,
                b.entry.relative_path,
            ) ==> before
        }),
{
    let name_a = crate::text::fold(a.entry.name);
    let name_b = crate::text::fold(b.entry.name);
    let path_a = crate::text::fold(a.entry.relative_path);
    let path_b = crate::text::fold(b.entry.relative_path);
    crate::text::lemma_precedes_irreflexive(name_a);
    crate::text::lemma_precedes_irreflexive(path_a);
    crate::text::lemma_precedes_irreflexive(a.root);
    if crate::text::precedes(name_b, name_a) && crate::text::precedes(name_a, name_b) {
        crate::text::lemma_precedes_transitive(name_a, name_b, name_a);
    }
    if crate::text::precedes(path_b, path_a) && crate::text::precedes(path_a, path_b) {
        crate::text::lemma_precedes_transitive(path_a, path_b, path_a);
    }
    if crate::text::precedes(b.root, a.root) && crate::text::precedes(a.root, b.root) {
        crate::text::lemma_precedes_transitive(a.root, b.root, a.root);
    }
}

/// How many results a request may have: what it asks for, but at least one and at most a thousand.
pub open spec fn asked_for(limit: usize) -> int {
    if limit == 0 {
        1
    } else if limit >= 1000 {
        1000
    } else {
        limit as int
    }
}

/// The query of a request: its normalized text, and its root with slashes as the boundary.
pub open spec fn asked_query(request: RequestView, normalized: Seq<char>) -> QueryView {
    QueryView {
        text: normalized,
        boundary: match request.root {
            Some(root) => Some(crate::paths::storage_path(root)),
            None => None,
        },
    }
}

/// A request of more than 512 characters is refused, as is one without a word and one with more
/// than sixteen; every other one is answered. The answer has no more results than were asked for,
/// each of them tells of a hit, and where it has fewer it tells of every hit.
pub proof fn law_requests_are_answered_within_their_limits(
    index: IndexView,
    request: RequestView,
    normalized: Seq<char>,
    result: Result<Seq<ItemView>, SearchErrorView>,
)
    requires
        index.answers(request, normalized, result),
    ensures
        ({
            let words = crate::text::words(normalized).len();
            let query = asked_query(request, normalized);
            &&& request.query.len() > 512 <==> result == Err::<Seq<ItemView>, SearchErrorView>(
                SearchErrorView::QueryTooLong,
            )
            &&& request.query.len() <= 512 && words == 0 <==> result == Err::<
                Seq<ItemView>,
                SearchErrorView,
            >(SearchErrorView::EmptyQuery)
            &&& request.query.len() <= 512 && words > 16 <==> result == Err::<
                Seq<ItemView>,
                SearchErrorView,
            >(SearchErrorView::TooManyTerms)
            &&& request.query.len() <= 512 && 1 <= words <= 16 <==> result is Ok
            &&& result matches Ok(items) ==> {
                &&& items.len() <= asked_for(request.limit)
                &&& forall|i: int|
                    0 <= i < items.len() ==> exists|hit: HitView|
                        index.is_hit(query, hit) && #[trigger] items[i]
                            == #[trigger] crate::search::item_of(hit)
                &&& forall|hit: HitView| #[trigger]
                    index.is_hit(query, hit) ==> items.contains(crate::search::item_of(hit))
                        || items.len() == asked_for(request.limit)
            }
        }),
{
    if let Ok(items) = result {
        let query = crate::search::query_of(request, normalized);
        assert(query == asked_query(request, normalized));
        let limit = crate::search::effective_limit(request.limit);
        let hits = choose|hits: Seq<HitView>| #[trigger]
            index.is_answer(query, limit, hits) && result == Ok::<Seq<ItemView>, SearchErrorView>(
                crate::search::items_of(hits),
            );
        assert forall|i: int| 0 <= i < items.len() implies exists|hit: HitView|
            index.is_hit(query, hit) && #[trigger] items[i] == #[trigger] crate::search::item_of(
                hit,
            ) by {
            assert(index.is_hit(query, hits[i]));
            assert(items[i] == crate::search::item_of(hits[i]));
        }
        assert forall|hit: HitView| #[trigger] index.is_hit(query, hit) implies items.contains(
            crate::search::item_of(hit),
        ) || items.len() == asked_for(request.limit) by {
            if hits.contains(hit) {
                let i = choose|i: int| 0 <= i < hits.len() && hits[i] == hit;
                assert(items[i] == crate::search::item_of(hit));
            }
        }
    }
}

/// The results come in the order of the hits that they tell of, and every hit that is left out
/// comes after all of them.
pub proof fn law_results_come_in_order(
    index: IndexView,
    request: RequestView,
    normalized: Seq<char>,
    items: Seq<ItemView>,
) -> (hits: Seq<HitView>)
    requires
        index.answers(request, normalized, Ok(items)),
    ensures
        hits.len() == items.len(),
        forall|i: int|
            0 <= i < hits.len() ==> #[trigger] items[i] == crate::search::item_of(hits[i]),
        forall|i: int, j: int|
            0 <= i < j < hits.len() ==> crate::search::comes_before(
                normalized,
                #[trigger] hits[i],
                #[trigger] hits[j],
            ),
        request.root is None ==> forall|hit: HitView, i: int|
            index.is_hit(QueryView { text: normalized, boundary: None }, hit) && !hits.contains(hit)
                && 0 <= i < hits.len() ==> #[trigger] crate::search::comes_before(
                normalized,
                hits[i],
                hit,
            ),
{
    let query = crate::search::query_of(request, normalized);
    let limit = crate::search::effective_limit(request.limit);
    let hits = choose|hits: Seq<HitView>| #[trigger]
        index.is_answer(query, limit, hits) && Ok::<Seq<ItemView>, SearchErrorView>(items) == Ok::<
            Seq<ItemView>,
            SearchErrorView,
        >(crate::search::items_of(hits));
    if request.root is None {
        assert forall|hit: HitView, i: int|
            index.is_hit(QueryView { text: normalized, boundary: None }, hit) && !hits.contains(hit)
                && 0 <= i < hits.len() implies #[trigger] crate::search::comes_before(
            normalized,
            hits[i],
            hit,
        ) by {
            assert(index.is_hit(query, hit));
        }
    }
    hits
}

// ---------------------------------------------------------------------------
// What is said of it
// ---------------------------------------------------------------------------

/// What a walk said of a file or directory is what a search says of it: of what was found last at
/// a path, the result has the name, the kind, the size and the time of change. A size or a time
/// beyond the largest signed number is the one thing that is not kept: such a size is given as that
/// number, and such a time is left out.
pub proof fn law_search_says_what_the_walk_said(
    index: IndexView,
    name: Seq<char>,
    walk: Seq<WalkView>,
    now: i64,
    path: Seq<char>,
    position: int,
)
    requires
        crate::laws::walked_at(walk, path, position),
        forall|later: int|
            position < later < walk.len() ==> !crate::laws::walked_at(walk, path, later),
    ensures
        ({
            let found = walk[position]->Found_0;
            let after = index.after_walk(name, walk, now);
            let entry = after.roots[name].tree.entries[path];
            let item = crate::search::item_of(HitView { root: name, entry });
            &&& after.roots.contains_key(name)
            &&& after.roots[name].tree.entries.contains_key(path)
            &&& item.path == crate::paths::full_path(name, path)
            &&& item.name == found.name
            &&& item.is_directory == found.is_directory
            &&& found.size_bytes <= 0x7fff_ffff_ffff_ffff ==> item.size_bytes == found.size_bytes
            &&& found.size_bytes > 0x7fff_ffff_ffff_ffff ==> item.size_bytes
                == 0x7fff_ffff_ffff_ffff
            &&& match found.modified_ms {
                Some(ms) => if ms <= 0x7fff_ffff_ffff_ffff {
                    item.modified_unix_ms matches Some(time) && time == ms
                } else {
                    item.modified_unix_ms is None
                },
                None => item.modified_unix_ms is None,
            }
            &&& entry.relative_path == path
            &&& path.len() == found.relative_path.len()
            &&& forall|i: int|
                0 <= i < path.len() ==> #[trigger] path[i] == if found.relative_path[i] == '\\' {
                    '/'
                } else {
                    found.relative_path[i]
                }
            &&& entry.normalized_name == crate::normalize::normalized(found.name)
            &&& entry.normalized_path == crate::normalize::normalized(path)
            &&& entry.file_reference_number is None
        }),
{
    let after = index.after_walk(name, walk, now);
    crate::laws::lemma_last_found(
        index.root_or_new(name, now).tree.entries,
        walk,
        after.last_generation,
        path,
        position,
    );
}

/// What a snapshot said of a file or directory is what a search says of it: the result has the
/// name of the record, is a directory exactly if bit 4 of its attributes is set, has no size, and
/// its time of change is the record's, in whole milliseconds.
pub proof fn law_search_says_what_the_snapshot_said(
    index: IndexView,
    name: Seq<char>,
    records: Seq<RecordView>,
    journal_id: u64,
    next_usn: i64,
    now: i64,
    path: Seq<char>,
    position: int,
)
    requires
        0 <= position < records.len(),
        crate::root::usable_path(records, records[position]) == Some(path),
        forall|later: int|
            position < later < records.len() ==> crate::root::usable_path(
                records,
                #[trigger] records[later],
            ) != Some(path),
    ensures
        ({
            let record = records[position];
            let after = index.after_snapshot(name, records, journal_id, next_usn, now);
            let entry = after.roots[name].tree.entries[path];
            let item = crate::search::item_of(HitView { root: name, entry });
            &&& after.roots.contains_key(name)
            &&& after.roots[name].tree.entries.contains_key(path)
            &&& crate::ntfs::resolved_path(records, record.file_reference_number) == Some(path)
            &&& record.file_reference_number != 5
            &&& item.path == crate::paths::full_path(name, path)
            &&& item.name == record.name
            &&& item.is_directory <==> record.file_attributes / 16 % 2 == 1
            &&& item.size_bytes == 0
            &&& item.modified_unix_ms is Some
            &&& record.timestamp_filetime >= 116_444_736_000_000_000 ==> 0 <= record.timestamp_filetime
                - 116_444_736_000_000_000 - item.modified_unix_ms->0 * 10_000 < 10_000
            &&& record.timestamp_filetime < 116_444_736_000_000_000 ==> -10_000
                < record.timestamp_filetime - 116_444_736_000_000_000 - item.modified_unix_ms->0
                * 10_000 <= 0
            &&& entry.relative_path == path
            &&& entry.normalized_name == crate::normalize::normalized(record.name)
            &&& entry.normalized_path == crate::normalize::normalized(record.name)
            &&& entry.file_reference_number == Some(record.file_reference_number)
        }),
{
    let after = index.after_snapshot(name, records, journal_id, next_usn, now);
    crate::laws::lemma_last_record(records, records.len(), after.last_generation, path, position);
    crate::ntfs::law_other_bits_do_not_matter(records[position], 0, 0);
}

// ---------------------------------------------------------------------------
// What a search returns
// ---------------------------------------------------------------------------

/// A search for ASCII text returns results that each tell of an entry which has every word of the
/// text, in lower case, in its name or in its path, and of every such entry where it returns fewer
/// than were asked for. Too long a text is refused.
pub proof fn law_search_returns_what_has_every_word(
    index: SearchIndex,
    request: SearchRequest,
    result: Result<Vec<SearchItem>, SearchError>,
)
    requires
        index.wf(),
        call_ensures(SearchIndex::search, (&index, &request), result),
        crate::text::ascii(request.query@),
        request.root is None,
    ensures
        ({
            let query = QueryView { text: crate::text::fold(request.query@), boundary: None };
            &&& request.query@.len() > 512 <==> (result matches Err(error) && error@ is QueryTooLong)
            &&& result matches Ok(items) ==> {
                &&& items@.len() <= asked_for(request.limit)
                &&& forall|i: int|
                    0 <= i < items@.len() ==> exists|hit: HitView|
                        index@.is_hit(query, hit) && (#[trigger] items@[i])@
                            == #[trigger] crate::search::item_of(hit)
                &&& forall|hit: HitView| #[trigger]
                    index@.is_hit(query, hit) && items@.len() < asked_for(request.limit)
                        ==> exists|i: int|
                        0 <= i < items@.len() && (#[trigger] items@[i])@ == crate::search::item_of(
                            hit,
                        )
            }
        }),
{
    let text = crate::text::fold(request.query@);
    let query = QueryView { text, boundary: None };
    law_requests_are_answered_within_their_limits(
        index@,
        request@,
        text,
        crate::search::items_result(result),
    );
    assert(query == asked_query(request@, text));
    if let Ok(items) = result {
        let views = crate::search::item_views(items@);
        assert forall|i: int| 0 <= i < items@.len() implies exists|hit: HitView|
            index@.is_hit(query, hit) && (#[trigger] items@[i])@
                == #[trigger] crate::search::item_of(hit) by {
            let hit = choose|hit: HitView|
                index@.is_hit(query, hit) && views[i] == #[trigger] crate::search::item_of(hit);
            assert(items@[i]@ == crate::search::item_of(hit));
        }
        assert forall|hit: HitView| #[trigger]
            index@.is_hit(query, hit) && items@.len() < asked_for(request.limit) implies exists|
            i: int,
        |
            0 <= i < items@.len() && (#[trigger] items@[i])@ == crate::search::item_of(hit) by {
            assert(views.contains(crate::search::item_of(hit)));
            let i = choose|i: int|
                0 <= i < views.len() && views[i] == crate::search::item_of(hit);
            assert(items@[i]@ == crate::search::item_of(hit));
        }
    }
}

/// A request for a text asks for fifty results, anywhere.
pub proof fn law_new_request_asks_for_fifty_results(query: &str, request: SearchRequest)
    requires
        call_ensures(SearchRequest::new, (query,), request),
    ensures
        request.query@ == query@,
        request.limit == 50,
        request.root is None,
{
}

/// A new index knows nothing, and a new root has nothing and is not complete.
pub proof fn law_new_index_is_empty(
    path: &str,
    index: SearchIndex,
    query: QueryView,
    hit: HitView,
    now: i64,
)
    requires
        call_ensures(SearchIndex::open, (path,), index),
    ensures
        !index@.is_hit(query, hit),
        index@.roots.dom().len() == 0,
        index.path() == path@,
        ({
            let root = crate::root::empty_root(now);
            &&& root.last_scan_unix_ms == now
            &&& !root.complete
            &&& root.skipped_entries == 0
            &&& root.tree.nodes.len() == 0
            &&& root.tree.entries.dom().len() == 0
            &&& root.cursor is None
            &&& root.auto_record is None
        }),
{
    assert(index@.roots.dom() =~= Set::<Seq<char>>::empty());
    assert(crate::root::empty_root(now).tree.entries.dom() =~= Set::<Seq<char>>::empty());
}

} // verus!
