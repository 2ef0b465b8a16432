//! Searching the index: which entries match a query, in which order, and how many are returned.
use crate::errors::{SearchError, SearchErrorView, MAX_QUERY_CHARS, MAX_QUERY_TERMS};
use crate::index::{IndexView, SearchIndex};
use crate::normalize::normalize_for_search;
use crate::paths::{is_within, join_storage, path_to_storage, place_of};
use crate::root::RootTable;
use crate::tables::{Entry, EntryView};
use crate::text::{
    contains_folded, length_before, lexical_order, occurs_folded_at, same_text, split_words,
    to_ascii_lower, to_chars, trim_leading, Order,
};
use vstd::prelude::*;

verus! {

/// The most results that one search returns.
pub const MAX_QUERY_LIMIT: usize = 1_000;

/// The number of results where none is asked for.
pub const DEFAULT_LIMIT: usize = 50;

/// A search.
#[derive(Debug, Clone)]
pub struct SearchRequest {
    pub query: String,
    pub limit: usize,
    /// An absolute path; only what lies within it is returned.
    pub root: Option<String>,
}

/// What a [`SearchRequest`] says.
pub struct RequestView {
    pub query: Seq<char>,
    pub limit: usize,
    pub root: Option<Seq<char>>,
}

impl View for SearchRequest {
    type V = RequestView;

    open spec fn view(&self) -> RequestView {
        RequestView {
            query: self.query@,
            limit: self.limit,
            root: match self.root {
                Some(root) => Some(root@),
                None => None,
            },
        }
    }
}

impl SearchRequest {
    /// A search in the whole index.
    pub fn new(query: &str) -> (request: SearchRequest)
        ensures
            request@ == (RequestView { query: query@, limit: 50, root: None }),
    {
        SearchRequest { query: query.to_owned(), limit: DEFAULT_LIMIT, root: None }
    }
}

/// One result of a search.
#[derive(Debug, Clone, PartialEq, Eq)]
pub struct SearchItem {
    pub path: String,
    pub name: String,
    pub is_directory: bool,
    pub size_bytes: u64,
    pub modified_unix_ms: Option<i64>,
}

/// What a [`SearchItem`] says.
pub struct ItemView {
    pub path: Seq<char>,
    pub name: Seq<char>,
    pub is_directory: bool,
    pub size_bytes: nat,
    pub modified_unix_ms: Option<i64>,
}

impl View for SearchItem {
    type V = ItemView;

    open spec fn view(&self) -> ItemView {
        ItemView {
            path: self.path@,
            name: self.name@,
            is_directory: self.is_directory,
            size_bytes: self.size_bytes as nat,
            modified_unix_ms: self.modified_unix_ms,
        }
    }
}

/// The views of a list of results.
pub open spec fn item_views(items: Seq<SearchItem>) -> Seq<ItemView> {
    Seq::new(items.len(), |i: int| items[i]@)
}

// ---------------------------------------------------------------------------
// What matches
// ---------------------------------------------------------------------------

/// A query in its normal form, and the path within which it searches.
pub struct QueryView {
    pub text: Seq<char>,
    pub boundary: Option<Seq<char>>,
}

/// An entry and the name of its root.
pub struct HitView {
    pub root: Seq<char>,
    pub entry: EntryView,
}

/// Whether a term stands in a text, ASCII letters compared without case. What follows a NUL is not
/// seen: a text ends there, and so does a term, which then has to stand at the end of the text.
pub open spec fn has_term(text: Seq<char>, term: Seq<char>) -> bool {
    let seen = crate::text::fold(crate::text::before_nul(text));
    if term.contains('\0') {
        crate::text::ends_with(seen, crate::text::fold(crate::text::before_nul(term)))
    } else {
        crate::text::contains(seen, crate::text::fold(term))
    }
}

/// Whether every term stands in the name or the path of an entry.
pub open spec fn has_all_terms(entry: EntryView, terms: Seq<Seq<char>>) -> bool {
    forall|i: int|
        0 <= i < terms.len() ==> has_term(entry.normalized_name, #[trigger] terms[i]) || has_term(
            entry.relative_path,
            terms[i],
        )
}

/// Whether every term stands in the name of an entry.
pub open spec fn has_all_terms_in_name(entry: EntryView, terms: Seq<Seq<char>>) -> bool {
    forall|i: int| 0 <= i < terms.len() ==> has_term(entry.normalized_name, #[trigger] terms[i])
}

/// The extension that a query asks for, with its dot.
pub open spec fn extension_of(query: Seq<char>) -> Seq<char> {
    seq!['.'] + crate::text::before_nul(crate::text::without_leading(query, '.'))
}

/// Whether the query is the extension of an entry.
pub open spec fn has_extension(entry: EntryView, query: Seq<char>) -> bool {
    !entry.is_directory && crate::text::ends_with(
        crate::text::fold(crate::text::before_nul(entry.normalized_name)),
        crate::text::fold(extension_of(query)),
    )
}

impl IndexView {
    /// Whether an entry of the index is found by a query.
    pub open spec fn is_hit(self, query: QueryView, hit: HitView) -> bool {
        &&& self.roots.contains_key(hit.root)
        &&& self.roots[hit.root].tree.entries.contains_key(hit.entry.relative_path)
        &&& self.roots[hit.root].tree.entries[hit.entry.relative_path] == hit.entry
        &&& has_all_terms(hit.entry, crate::text::words(query.text))
        &&& match query.boundary {
            Some(boundary) => crate::paths::within(
                crate::paths::place_below(hit.root, hit.entry.relative_path),
                boundary,
            ),
            None => true,
        }
    }
}

// ---------------------------------------------------------------------------
// In which order
// ---------------------------------------------------------------------------

/// The group of an entry among the results: files with the query as their extension come first,
/// then names that are the query, then names that hold all terms, then files before directories.
pub open spec fn rank(entry: EntryView, query: Seq<char>) -> int {
    (if has_extension(entry, query) {
        0int
    } else {
        8
    }) + (if entry.normalized_name == query {
        0int
    } else {
        4
    }) + (if has_all_terms_in_name(entry, crate::text::words(query)) {
        0int
    } else {
        2
    }) + (if entry.is_directory {
        1int
    } else {
        0
    })
}

/// Whether one hit comes before another. Within a group the names decide, then the paths, both
/// without regard to the case of ASCII letters; what is then still equal goes by root and path.
pub open spec fn comes_before(query: Seq<char>, a: HitView, b: HitView) -> bool {
    let name_a = crate::text::fold(a.entry.name);
    let name_b = crate::text::fold(b.entry.name);
    let path_a = crate::text::fold(a.entry.relative_path);
    let path_b = crate::text::fold(b.entry.relative_path);
    if rank(a.entry, query) != rank(b.entry, query) {
        rank(a.entry, query) < rank(b.entry, query)
    } else if name_a != name_b {
        crate::text::precedes(name_a, name_b)
    } else if path_a != path_b {
        crate::text::precedes(path_a, path_b)
    } else if a.root != b.root {
        crate::text::precedes(a.root, b.root)
    } else {
        crate::text::precedes(a.entry.relative_path, b.entry.relative_path)
    }
}

/// No hit comes before itself.
pub(crate) proof fn lemma_before_irreflexive(query: Seq<char>, hit: HitView)
    ensures
        !comes_before(query, hit, hit),
{
    crate::text::lemma_precedes_irreflexive(hit.entry.relative_path);
}

/// The order of hits is transitive.
pub(crate) proof fn lemma_before_transitive(query: Seq<char>, a: HitView, b: HitView, c: HitView)
    requires
        comes_before(query, a, b),
        comes_before(query, b, c),
    ensures
        comes_before(query, a, c),
{
    let names = (
        crate::text::fold(a.entry.name),
        crate::text::fold(b.entry.name),
        crate::text::fold(c.entry.name),
    );
    let paths = (
        crate::text::fold(a.entry.relative_path),
        crate::text::fold(b.entry.relative_path),
        crate::text::fold(c.entry.relative_path),
    );
    if rank(a.entry, query) == rank(b.entry, query) && rank(b.entry, query) == rank(
        c.entry,
        query,
    ) {
        if names.0 != names.1 && names.1 != names.2 {
            crate::text::lemma_precedes_transitive(names.0, names.1, names.2);
            crate::text::lemma_precedes_irreflexive(names.0);
        } else if names.0 == names.1 && names.1 == names.2 {
            if paths.0 != paths.1 && paths.1 != paths.2 {
                crate::text::lemma_precedes_transitive(paths.0, paths.1, paths.2);
                crate::text::lemma_precedes_irreflexive(paths.0);
            } else if paths.0 == paths.1 && paths.1 == paths.2 {
                if a.root != b.root && b.root != c.root {
                    crate::text::lemma_precedes_transitive(a.root, b.root, c.root);
                    crate::text::lemma_precedes_irreflexive(a.root);
                } else if a.root == b.root && b.root == c.root {
                    crate::text::lemma_precedes_transitive(
                        a.entry.relative_path,
                        b.entry.relative_path,
                        c.entry.relative_path,
                    );
                }
            }
        }
    }
}

/// Of two hits at different places, one comes before the other.
proof fn lemma_before_total(query: Seq<char>, a: HitView, b: HitView)
    requires
        a.root != b.root || a.entry.relative_path != b.entry.relative_path,
    ensures
        comes_before(query, a, b) || comes_before(query, b, a),
{
    crate::text::lemma_precedes_total(
        crate::text::fold(a.entry.name),
        crate::text::fold(b.entry.name),
    );
    crate::text::lemma_precedes_total(
        crate::text::fold(a.entry.relative_path),
        crate::text::fold(b.entry.relative_path),
    );
    crate::text::lemma_precedes_total(a.root, b.root);
    crate::text::lemma_precedes_total(a.entry.relative_path, b.entry.relative_path);
}

impl IndexView {
    /// Whether a list is what a query finds: the first hits in their order, as many as asked for.
    pub open spec fn is_answer(self, query: QueryView, limit: nat, hits: Seq<HitView>) -> bool {
        &&& hits.len() <= limit
        &&& forall|i: int| 0 <= i < hits.len() ==> self.is_hit(query, #[trigger] hits[i])
        &&& forall|i: int, j: int|
            0 <= i < j < hits.len() ==> comes_before(
                query.text,
                #[trigger] hits[i],
                #[trigger] hits[j],
            )
        &&& forall|hit: HitView| #[trigger]
            self.is_hit(query, hit) ==> hits.contains(hit) || (hits.len() == limit && forall|i: int|
                0 <= i < hits.len() ==> comes_before(query.text, #[trigger] hits[i], hit))
    }
}

/// The result for a hit.
pub open spec fn item_of(hit: HitView) -> ItemView {
    ItemView {
        path: crate::paths::full_path(hit.root, hit.entry.relative_path),
        name: hit.entry.name,
        is_directory: hit.entry.is_directory,
        size_bytes: crate::index::at_least_zero(hit.entry.size_bytes),
        modified_unix_ms: hit.entry.modified_unix_ms,
    }
}

/// The results for a list of hits.
pub open spec fn items_of(hits: Seq<HitView>) -> Seq<ItemView> {
    Seq::new(hits.len(), |i: int| item_of(hits[i]))
}

/// Why a query is refused, given its normal form.
pub open spec fn query_problem(query: Seq<char>, normalized: Seq<char>) -> Option<SearchErrorView> {
    if query.len() > MAX_QUERY_CHARS {
        Some(SearchErrorView::QueryTooLong)
    } else if crate::text::words(normalized).len() == 0 {
        Some(SearchErrorView::EmptyQuery)
    } else if crate::text::words(normalized).len() > MAX_QUERY_TERMS {
        Some(SearchErrorView::TooManyTerms)
    } else {
        None
    }
}

/// The number of results that a request is given.
pub open spec fn effective_limit(limit: usize) -> nat {
    if limit < 1 {
        1
    } else if limit > MAX_QUERY_LIMIT {
        MAX_QUERY_LIMIT as nat
    } else {
        limit as nat
    }
}

/// The query of a request, given its normal form.
pub open spec fn query_of(request: RequestView, normalized: Seq<char>) -> QueryView {
    QueryView {
        text: normalized,
        boundary: match request.root {
            Some(root) => Some(crate::paths::storage_path(root)),
            None => None,
        },
    }
}

impl IndexView {
    /// Whether a result is what the index answers to a request whose query has the given normal
    /// form.
    pub open spec fn answers(
        self,
        request: RequestView,
        normalized: Seq<char>,
        result: Result<Seq<ItemView>, SearchErrorView>,
    ) -> bool {
        match query_problem(request.query, normalized) {
            Some(problem) => result == Err::<Seq<ItemView>, SearchErrorView>(problem),
            None => exists|hits: Seq<HitView>| #[trigger]
                self.is_answer(
                    query_of(request, normalized),
                    effective_limit(request.limit),
                    hits,
                ) && result == Ok::<Seq<ItemView>, SearchErrorView>(items_of(hits)),
        }
    }
}

/// The view of the result of a search.
pub open spec fn items_result(result: Result<Vec<SearchItem>, SearchError>) -> Result<
    Seq<ItemView>,
    SearchErrorView,
> {
    match result {
        Ok(items) => Ok(item_views(items@)),
        Err(error) => Err(error@),
    }
}

// ---------------------------------------------------------------------------
// Finding
// ---------------------------------------------------------------------------

/// The text before the first NUL.
fn seen_part(text: &[char]) -> (seen: &[char])
    ensures
        seen@ == crate::text::before_nul(text@),
{
    let length: usize = length_before(text, '\0');
    assert(text@.take(length as int) =~= text@.subrange(0, length as int));
    vstd::slice::slice_subrange(text, 0, length)
}

/// Whether a text ends with a part, ASCII letters compared without case.
fn ends_folded_with(text: &[char], part: &[char]) -> (found: bool)
    ensures
        found == crate::text::ends_with(crate::text::fold(text@), crate::text::fold(part@)),
{
    part.len() <= text.len() && occurs_folded_at(text, part, text.len() - part.len())
}

/// Whether a term stands in a text.
fn holds_term(text: &[char], term: &[char]) -> (found: bool)
    ensures
        found == has_term(text@, term@),
{
    proof {
        crate::text::lemma_before_nul(term@);
    }
    let seen = seen_part(text);
    let part = seen_part(term);
    if part.len() < term.len() {
        ends_folded_with(seen, part)
    } else {
        contains_folded(seen, term)
    }
}

/// A query, taken apart.
struct Query {
    text: String,
    terms: Vec<Vec<char>>,
    ending: Vec<char>,
    boundary: Option<String>,
}

/// The views of a list of terms.
spec fn term_views(terms: Seq<Vec<char>>) -> Seq<Seq<char>> {
    Seq::new(terms.len(), |i: int| terms[i]@)
}

impl Query {
    spec fn view(&self) -> QueryView {
        QueryView {
            text: self.text@,
            boundary: match self.boundary {
                Some(boundary) => Some(boundary@),
                None => None,
            },
        }
    }

    spec fn wf(&self) -> bool {
        &&& term_views(self.terms@) == crate::text::words(self.text@)
        &&& self.ending@ == extension_of(self.text@)
    }

    fn new(text: &str, boundary: Option<String>) -> (query: Query)
        ensures
            query.wf(),
            query.view().text == text@,
            query.boundary == boundary,
    {
        let words = split_words(text);
        let mut terms: Vec<Vec<char>> = Vec::new();
        let mut i: usize = 0;
        while i < words.len()
            invariant
                i <= words.len(),
                terms@.len() == i,
                forall|k: int| 0 <= k < i ==> (#[trigger] terms@[k])@ == words@[k]@,
            decreases words.len() - i,
        {
            terms.push(to_chars(words[i].as_str()));
            i += 1;
        }
        assert(term_views(terms@) =~= crate::text::words(text@)) by {
            assert(crate::text::views(words@) == crate::text::words(text@));
            assert(term_views(terms@) =~= crate::text::views(words@));
        }
        let mut ending: Vec<char> = vec!['.'];
        let mut rest = to_chars(trim_leading(text, '.').as_str());
        let seen: usize = length_before(rest.as_slice(), '\0');
        rest.truncate(seen);
        ending.append(&mut rest);
        assert(ending@ =~= extension_of(text@));
        Query { text: text.to_owned(), terms, ending, boundary }
    }

    /// Whether every term stands in one of the texts.
    fn all_terms_in(&self, name: &[char], path: Option<&[char]>) -> (found: bool)
        requires
            self.wf(),
        ensures
            found == forall|i: int|
                0 <= i < crate::text::words(self.text@).len() ==> has_term(
                    name@,
                    #[trigger] crate::text::words(self.text@)[i],
                ) || (path matches Some(path) && has_term(
                    path@,
                    crate::text::words(self.text@)[i],
                )),
    {
        let ghost terms = crate::text::words(self.text@);
        let mut i: usize = 0;
        while i < self.terms.len()
            invariant
                i <= self.terms.len(),
                self.wf(),
                terms == crate::text::words(self.text@),
                forall|k: int|
                    0 <= k < i ==> has_term(name@, #[trigger] terms[k]) || (
                    path matches Some(path) && has_term(path@, terms[k])),
            decreases self.terms.len() - i,
        {
            assert(terms[i as int] == self.terms@[i as int]@) by {
                assert(term_views(self.terms@)[i as int] == self.terms@[i as int]@);
            }
            let term = self.terms[i].as_slice();
            let found: bool = holds_term(name, term) || match path {
                Some(path) => holds_term(path, term),
                None => false,
            };
            if !found {
                return false;
            }
            i += 1;
        }
        assert(term_views(self.terms@).len() == self.terms@.len());
        true
    }

    /// Whether an entry of a root is found.
    fn finds(&self, root: &str, entry: &Entry) -> (found: bool)
        requires
            self.wf(),
        ensures
            found == (has_all_terms(
                entry@,
                crate::text::words(self.text@),
            ) && match self.view().boundary {
                Some(boundary) => crate::paths::within(
                    crate::paths::place_below(root@, entry@.relative_path),
                    boundary,
                ),
                None => true,
            }),
    {
        let name = to_chars(entry.normalized_name.as_str());
        let path = to_chars(entry.relative_path.as_str());
        if !self.all_terms_in(name.as_slice(), Some(path.as_slice())) {
            return false;
        }
        match &self.boundary {
            Some(boundary) => is_within(
                place_of(root, entry.relative_path.as_str()).as_str(),
                boundary.as_str(),
            ),
            None => true,
        }
    }

    /// The group of an entry among the results.
    fn rank(&self, entry: &Entry) -> (result: u8)
        requires
            self.wf(),
        ensures
            result == rank(entry@, self.text@),
    {
        let name = to_chars(entry.normalized_name.as_str());
        let extension: bool = !entry.is_directory && ends_folded_with(
            seen_part(name.as_slice()),
            self.ending.as_slice(),
        );
        let exact: bool = same_text(entry.normalized_name.as_str(), self.text.as_str());
        let in_name: bool = self.all_terms_in(name.as_slice(), None);
        let mut result: u8 = 0;
        if !extension {
            result += 8;
        }
        if !exact {
            result += 4;
        }
        if !in_name {
            result += 2;
        }
        if entry.is_directory {
            result += 1;
        }
        result
    }
}

/// The characters of a text with its ASCII letters in lower case.
fn folded_chars(text: &str) -> (chars: Vec<char>)
    ensures
        chars@ == crate::text::fold(text@),
{
    let mut chars = to_chars(text);
    let ghost all = text@;
    let mut i: usize = 0;
    while i < chars.len()
        invariant
            i <= chars.len(),
            chars@.len() == all.len(),
            forall|k: int| 0 <= k < i ==> #[trigger] chars@[k] == crate::text::ascii_lower(all[k]),
            forall|k: int| i <= k < all.len() ==> #[trigger] chars@[k] == all[k],
        decreases chars.len() - i,
    {
        let lower: char = to_ascii_lower(chars[i]);
        chars[i] = lower;
        i += 1;
    }
    assert(chars@ =~= crate::text::fold(all));
    chars
}

/// An entry and its root, with its group among the results.
struct Hit<'a> {
    root: &'a RootTable,
    entry: &'a Entry,
    rank: u8,
}

impl<'a> Hit<'a> {
    spec fn view(&self) -> HitView {
        HitView { root: self.root.root@, entry: self.entry@ }
    }

    /// Whether the hit comes before another.
    fn comes_before(&self, other: &Hit, Ghost(query): Ghost<Seq<char>>) -> (before: bool)
        requires
            self.rank == rank(self.entry@, query),
            other.rank == rank(other.entry@, query),
        ensures
            before == comes_before(query, self.view(), other.view()),
    {
        if self.rank != other.rank {
            return self.rank < other.rank;
        }
        match lexical_order(
            folded_chars(self.entry.name.as_str()).as_slice(),
            folded_chars(other.entry.name.as_str()).as_slice(),
        ) {
            Order::Less => return true,
            Order::Greater => return false,
            Order::Equal => {},
        }
        match lexical_order(
            folded_chars(self.entry.relative_path.as_str()).as_slice(),
            folded_chars(other.entry.relative_path.as_str()).as_slice(),
        ) {
            Order::Less => return true,
            Order::Greater => return false,
            Order::Equal => {},
        }
        match lexical_order(
            to_chars(self.root.root.as_str()).as_slice(),
            to_chars(other.root.root.as_str()).as_slice(),
        ) {
            Order::Less => return true,
            Order::Greater => return false,
            Order::Equal => {},
        }
        match lexical_order(
            to_chars(self.entry.relative_path.as_str()).as_slice(),
            to_chars(other.entry.relative_path.as_str()).as_slice(),
        ) {
            Order::Less => true,
            _ => false,
        }
    }
}

/// The views of a list of hits.
spec fn hit_views(hits: Seq<Hit>) -> Seq<HitView> {
    Seq::new(hits.len(), |i: int| hits[i].view())
}

/// The hits come one before the other.
pub open spec fn hits_sorted(query: Seq<char>, hits: Seq<HitView>) -> bool {
    forall|i: int, j: int|
        0 <= i < j < hits.len() ==> comes_before(query, #[trigger] hits[i], #[trigger] hits[j])
}

/// What is left out of a list of the best hits: it comes after all of them, and the list is full.
spec fn left_out(query: Seq<char>, limit: nat, hits: Seq<HitView>, hit: HitView) -> bool {
    hits.len() == limit && forall|i: int|
        0 <= i < hits.len() ==> comes_before(query, #[trigger] hits[i], hit)
}

/// Puts a hit where it belongs among the best.
fn keep_best<'a>(
    best: &mut Vec<Hit<'a>>,
    hit: Hit<'a>,
    limit: usize,
    Ghost(query): Ghost<Seq<char>>,
)
    requires
        limit >= 1,
        old(best)@.len() <= limit,
        hit.rank == rank(hit.entry@, query),
        forall|i: int|
            0 <= i < old(best)@.len() ==> (#[trigger] old(best)@[i]).rank == rank(
                old(best)@[i].entry@,
                query,
            ),
        hits_sorted(query, hit_views(old(best)@)),
        forall|i: int|
            0 <= i < old(best)@.len() ==> (#[trigger] old(best)@[i]).view().root
                != hit.view().root || old(best)@[i].view().entry.relative_path
                != hit.view().entry.relative_path,
    ensures
        final(best)@.len() <= limit,
        forall|i: int|
            0 <= i < final(best)@.len() ==> (#[trigger] final(best)@[i]).rank == rank(
                final(best)@[i].entry@,
                query,
            ),
        hits_sorted(query, hit_views(final(best)@)),
        forall|i: int|
            0 <= i < final(best)@.len() ==> (#[trigger] final(best)@[i]) == hit || old(
                best,
            )@.contains(final(best)@[i]),
        hit_views(final(best)@).contains(hit.view()) || left_out(
            query,
            limit as nat,
            hit_views(final(best)@),
            hit.view(),
        ),
        forall|i: int|
            0 <= i < old(best)@.len() ==> hit_views(final(best)@).contains(
                (#[trigger] old(best)@[i]).view(),
            ) || left_out(query, limit as nat, hit_views(final(best)@), old(best)@[i].view()),
        forall|other: HitView| #[trigger]
            left_out(query, limit as nat, hit_views(old(best)@), other) ==> left_out(
                query,
                limit as nat,
                hit_views(final(best)@),
                other,
            ),
{
    let ghost before = best@;
    let ghost old_views = hit_views(before);
    let ghost view = hit.view();
    let mut at: usize = best.len();
    while at > 0 && hit.comes_before(&best[at - 1], Ghost(query))
        invariant
            at <= best@.len(),
            best@ == before,
            view == hit.view(),
            hit.rank == rank(hit.entry@, query),
            forall|i: int|
                0 <= i < best@.len() ==> (#[trigger] best@[i]).rank == rank(best@[i].entry@, query),
            forall|i: int|
                at <= i < best@.len() ==> comes_before(query, view, (#[trigger] best@[i]).view()),
        decreases at,
    {
        at -= 1;
    }
    proof {
        assert forall|i: int| 0 <= i < at implies comes_before(
            query,
            (#[trigger] before[i]).view(),
            view,
        ) by {
            lemma_before_total(query, before[at - 1].view(), view);
            assert(!comes_before(query, view, before[at - 1].view()));
            if i < at - 1 {
                assert(comes_before(query, old_views[i], old_views[at - 1]));
                lemma_before_transitive(query, before[i].view(), before[at - 1].view(), view);
            }
        }
    }
    if at == best.len() && best.len() == limit {
        assert forall|i: int| 0 <= i < before.len() implies hit_views(best@).contains(
            (#[trigger] before[i]).view(),
        ) by {
            assert(hit_views(best@)[i] == before[i].view());
        }
        assert forall|i: int| 0 <= i < old_views.len() implies comes_before(
            query,
            #[trigger] old_views[i],
            view,
        ) by {
            assert(comes_before(query, before[i].view(), view));
        }
        return;
    }
    best.insert(at, hit);
    let ghost inserted = best@;
    proof {
        let views = hit_views(inserted);
        assert forall|i: int| 0 <= i < inserted.len() implies #[trigger] inserted[i] == if i < at {
            before[i]
        } else if i == at {
            hit
        } else {
            before[i - 1]
        } by {}
        assert forall|i: int, j: int| 0 <= i < j < views.len() implies comes_before(
            query,
            #[trigger] views[i],
            #[trigger] views[j],
        ) by {
            let old_i = if i < at {
                i
            } else {
                i - 1
            };
            let old_j = if j < at {
                j
            } else {
                j - 1
            };
            if i != at && j != at {
                assert(views[i] == old_views[old_i]);
                assert(views[j] == old_views[old_j]);
            } else if i == at {
                assert(comes_before(query, view, before[old_j].view()));
            } else {
                assert(comes_before(query, before[i].view(), view));
            }
        }
        assert(views[at as int] == view);
        assert forall|i: int| 0 <= i < before.len() implies views.contains(
            (#[trigger] before[i]).view(),
        ) by {
            assert(views[if i < at {
                i
            } else {
                i + 1
            }] == before[i].view());
        }
        assert forall|i: int| 0 <= i < inserted.len() implies inserted[i] == hit || before.contains(
            #[trigger] inserted[i],
        ) by {
            if i < at {
                assert(before[i] == inserted[i]);
            } else if i > at {
                assert(before[i - 1] == inserted[i]);
            }
        }
    }
    if best.len() > limit {
        let _dropped = best.pop();
        proof {
            let full = hit_views(inserted);
            let views = hit_views(best@);
            let last = full[limit as int];
            assert(views =~= full.drop_last());
            assert(at < limit);
            assert(last == before[limit - 1].view());
            assert(left_out(query, limit as nat, views, last)) by {
                assert forall|i: int| 0 <= i < views.len() implies comes_before(
                    query,
                    #[trigger] views[i],
                    last,
                ) by {
                    assert(views[i] == full[i]);
                }
            }
            assert forall|i: int| 0 <= i < before.len() implies views.contains(
                (#[trigger] before[i]).view(),
            ) || left_out(query, limit as nat, views, before[i].view()) by {
                if i < limit - 1 {
                    assert(views[if i < at {
                        i
                    } else {
                        i + 1
                    }] == before[i].view());
                }
            }
            assert(views[at as int] == view);
            assert forall|other: HitView| #[trigger]
                left_out(query, limit as nat, old_views, other) implies left_out(
                query,
                limit as nat,
                views,
                other,
            ) by {
                assert forall|i: int| 0 <= i < views.len() implies comes_before(
                    query,
                    #[trigger] views[i],
                    other,
                ) by {
                    assert(comes_before(query, old_views[limit - 1], other));
                    assert(old_views[limit - 1] == last);
                    lemma_before_transitive(query, views[i], last, other);
                }
            }
            assert forall|i: int, j: int| 0 <= i < j < views.len() implies comes_before(
                query,
                #[trigger] views[i],
                #[trigger] views[j],
            ) by {
                assert(views[i] == full[i]);
                assert(views[j] == full[j]);
            }
        }
    }
}

impl SearchIndex {
    /// The best hits of a query.
    fn find_best<'a>(
        &'a self,
        query: &Query,
        tables: &Vec<&'a RootTable>,
        limit: usize,
    ) -> (best: Vec<Hit<'a>>)
        requires
            self.wf(),
            query.wf(),
            limit >= 1,
            forall|i: int|
                0 <= i < tables@.len() ==> self@.roots.contains_key(
                    (#[trigger] tables@[i]).root@,
                ) && tables@[i]@ == self@.roots[tables@[i].root@] && tables@[i].wf(),
            forall|i: int, j: int|
                0 <= i < j < tables@.len() ==> (#[trigger] tables@[i]).root@ != (
                #[trigger] tables@[j]).root@,
            forall|name: Seq<char>| #[trigger]
                self@.roots.contains_key(name) ==> exists|i: int|
                    0 <= i < tables@.len() && (#[trigger] tables@[i]).root@ == name,
        ensures
            self@.is_answer(query.view(), limit as nat, hit_views(best@)),
    {
        let ghost text = query.text@;
        let ghost shape = query.view();
        let mut best: Vec<Hit<'a>> = Vec::new();
        let mut i: usize = 0;
        while i < tables.len()
            invariant
                i <= tables@.len(),
                self.wf(),
                query.wf(),
                text == query.text@,
                shape == query.view(),
                limit >= 1,
                forall|k: int|
                    0 <= k < tables@.len() ==> self@.roots.contains_key(
                        (#[trigger] tables@[k]).root@,
                    ) && tables@[k]@ == self@.roots[tables@[k].root@] && tables@[k].wf(),
                forall|k: int, l: int|
                    0 <= k < l < tables@.len() ==> (#[trigger] tables@[k]).root@ != (
                    #[trigger] tables@[l]).root@,
                best@.len() <= limit,
                hits_sorted(text, hit_views(best@)),
                forall|k: int|
                    0 <= k < best@.len() ==> (#[trigger] best@[k]).rank == rank(
                        best@[k].entry@,
                        text,
                    ) && self@.is_hit(shape, best@[k].view()) && exists|t: int|
                        0 <= t < i && (#[trigger] tables@[t]).root@ == best@[k].view().root,
                forall|hit: HitView, t: int|
                    0 <= t < i && (#[trigger] tables@[t]).root@ == hit.root
                        && #[trigger] self@.is_hit(shape, hit) ==> hit_views(best@).contains(hit)
                        || left_out(text, limit as nat, hit_views(best@), hit),
            decreases tables@.len() - i,
        {
            let table: &'a RootTable = tables[i];
            let ghost entries = table.tree.entries@;
            let ghost rows = table.tree.entries.rows();
            proof {
                table.tree.entries.lemma_rows();
                assert(self@.roots[table.root@].tree.entries == entries);
            }
            let mut j: usize = 0;
            while j < table.tree.entries.len()
                invariant
                    j <= rows.len(),
                    i < tables@.len(),
                    *table == *tables@[i as int],
                    rows == table.tree.entries.rows(),
                    entries == table.tree.entries@,
                    entries == self@.roots[table.root@].tree.entries,
                    self@.roots.contains_key(table.root@),
                    self.wf(),
                    query.wf(),
                    text == query.text@,
                    shape == query.view(),
                    limit >= 1,
                    forall|k: int|
                        0 <= k < rows.len() ==> entries.contains_key(
                            (#[trigger] rows[k]).relative_path,
                        ) && entries[rows[k].relative_path] == rows[k],
                    forall|k: int, l: int|
                        0 <= k < l < rows.len() ==> (#[trigger] rows[k]).relative_path != (
                        #[trigger] rows[l]).relative_path,
                    forall|k: int, l: int|
                        0 <= k < l < tables@.len() ==> (#[trigger] tables@[k]).root@ != (
                        #[trigger] tables@[l]).root@,
                    best@.len() <= limit,
                    hits_sorted(text, hit_views(best@)),
                    forall|k: int|
                        0 <= k < best@.len() ==> (#[trigger] best@[k]).rank == rank(
                            best@[k].entry@,
                            text,
                        ) && self@.is_hit(shape, best@[k].view()) && ((exists|t: int|
                            0 <= t < i && (#[trigger] tables@[t]).root@ == best@[k].view().root)
                            || (best@[k].view().root == table.root@ && exists|r: int|
                            0 <= r < j && #[trigger] rows[r] == best@[k].view().entry)),
                    forall|hit: HitView, t: int|
                        0 <= t < i && (#[trigger] tables@[t]).root@ == hit.root
                            && #[trigger] self@.is_hit(shape, hit) ==> hit_views(
                            best@,
                        ).contains(hit) || left_out(text, limit as nat, hit_views(best@), hit),
                    forall|hit: HitView, r: int|
                        0 <= r < j && hit.root == table.root@ && #[trigger] rows[r] == hit.entry
                            && #[trigger] self@.is_hit(shape, hit) ==> hit_views(
                            best@,
                        ).contains(hit) || left_out(text, limit as nat, hit_views(best@), hit),
                decreases rows.len() - j,
            {
                let entry: &'a Entry = table.tree.entries.row(j);
                let ghost row = rows[j as int];
                let ghost before = best@;
                let found: bool = query.finds(table.root.as_str(), entry);
                let ghost new_view = HitView { root: table.root@, entry: row };
                if found {
                    let rank: u8 = query.rank(entry);
                    let hit = Hit { root: table, entry, rank };
                    proof {
                        assert(hit.view() == new_view);
                        assert(self@.is_hit(shape, new_view));
                        assert forall|k: int| 0 <= k < before.len() implies (
                        #[trigger] before[k]).view().root != new_view.root
                            || before[k].view().entry.relative_path
                            != new_view.entry.relative_path by {
                            if before[k].view().root == new_view.root {
                                if exists|t: int|
                                    0 <= t < i && (#[trigger] tables@[t]).root@
                                        == before[k].view().root {
                                    let t = choose|t: int|
                                        0 <= t < i && (#[trigger] tables@[t]).root@
                                            == before[k].view().root;
                                    assert(tables@[t].root@ != tables@[i as int].root@);
                                } else {
                                    let r = choose|r: int|
                                        0 <= r < j && #[trigger] rows[r]
                                            == before[k].view().entry;
                                    assert(rows[r].relative_path != rows[j as int].relative_path);
                                }
                            }
                        }
                    }
                    keep_best(&mut best, hit, limit, Ghost(text));
                    proof {
                        assert forall|k: int| 0 <= k < best@.len() implies self@.is_hit(
                            shape,
                            (#[trigger] best@[k]).view(),
                        ) && ((exists|t: int|
                            0 <= t < i && (#[trigger] tables@[t]).root@ == best@[k].view().root)
                            || (best@[k].view().root == table.root@ && exists|r: int|
                            0 <= r < j + 1 && #[trigger] rows[r] == best@[k].view().entry)) by {
                            if best@[k] == hit {
                                assert(rows[j as int] == best@[k].view().entry);
                            } else {
                                let o = choose|o: int| 0 <= o < before.len() && before[o]
                                    == best@[k];
                                assert(before[o] == best@[k]);
                            }
                        }
                        assert forall|other: HitView|
                            (hit_views(before).contains(other) || left_out(
                                text,
                                limit as nat,
                                hit_views(before),
                                other,
                            )) implies #[trigger] hit_views(best@).contains(other) || left_out(
                            text,
                            limit as nat,
                            hit_views(best@),
                            other,
                        ) by {
                            if hit_views(before).contains(other) {
                                let k = choose|k: int|
                                    0 <= k < before.len() && hit_views(before)[k] == other;
                                assert(before[k].view() == other);
                            }
                        }
                    }
                }
                proof {
                    assert forall|hit: HitView, r: int|
                        0 <= r < j + 1 && hit.root == table.root@ && #[trigger] rows[r] == hit.entry
                            && #[trigger] self@.is_hit(shape, hit) implies hit_views(
                        best@,
                    ).contains(hit) || left_out(text, limit as nat, hit_views(best@), hit) by {
                        if r == j {
                            assert(hit == new_view);
                            assert(found);
                        } else {
                            assert(hit_views(before).contains(hit) || left_out(
                                text,
                                limit as nat,
                                hit_views(before),
                                hit,
                            ));
                        }
                    }
                    assert forall|hit: HitView, t: int|
                        0 <= t < i && (#[trigger] tables@[t]).root@ == hit.root
                            && #[trigger] self@.is_hit(shape, hit) implies hit_views(
                        best@,
                    ).contains(hit) || left_out(text, limit as nat, hit_views(best@), hit) by {
                        assert(hit_views(before).contains(hit) || left_out(
                            text,
                            limit as nat,
                            hit_views(before),
                            hit,
                        ));
                    }
                }
                j += 1;
            }
            proof {
                assert forall|hit: HitView, t: int|
                    0 <= t < i + 1 && (#[trigger] tables@[t]).root@ == hit.root
                        && #[trigger] self@.is_hit(shape, hit) implies hit_views(best@).contains(
                    hit,
                ) || left_out(text, limit as nat, hit_views(best@), hit) by {
                    if t == i {
                        table.tree.entries.lemma_rows();
                        assert(entries.contains_key(hit.entry.relative_path));
                        let r = choose|r: int| 0 <= r < rows.len() && #[trigger] rows[r]
                            == entries[hit.entry.relative_path];
                        assert(rows[r] == hit.entry);
                    }
                }
                assert forall|k: int| 0 <= k < best@.len() implies exists|t: int|
                    0 <= t < i + 1 && (#[trigger] tables@[t]).root@ == (
                    #[trigger] best@[k]).view().root by {
                    if best@[k].view().root == table.root@ {
                        assert(tables@[i as int].root@ == best@[k].view().root);
                    } else {
                        let t = choose|t: int|
                            0 <= t < i && (#[trigger] tables@[t]).root@ == best@[k].view().root;
                        assert(tables@[t].root@ == best@[k].view().root);
                    }
                }
            }
            i += 1;
        }
        proof {
            let hits = hit_views(best@);
            assert forall|k: int| 0 <= k < hits.len() implies self@.is_hit(
                shape,
                #[trigger] hits[k],
            ) by {
                assert(best@[k].view() == hits[k]);
            }
            assert forall|hit: HitView| #[trigger] self@.is_hit(shape, hit) implies hits.contains(
                hit,
            ) || left_out(text, limit as nat, hits, hit) by {
                let t = choose|t: int|
                    0 <= t < tables@.len() && (#[trigger] tables@[t]).root@ == hit.root;
                assert(tables@[t].root@ == hit.root);
            }
        }
        best
    }

    /// Searches with a query that is already in its normal form.
    pub fn search_normalized(&self, request: &SearchRequest, normalized: &str) -> (result: Result<
        Vec<SearchItem>,
        SearchError,
    >)
        requires
            self.wf(),
        ensures
            self@.answers(request@, normalized@, items_result(result)),
    {
        if to_chars(request.query.as_str()).len() > MAX_QUERY_CHARS {
            return Err(SearchError::QueryTooLong);
        }
        let boundary: Option<String> = match &request.root {
            Some(root) => Some(path_to_storage(root.as_str())),
            None => None,
        };
        let query = Query::new(normalized, boundary);
        assert(term_views(query.terms@).len() == query.terms@.len());
        if query.terms.len() == 0 {
            return Err(SearchError::EmptyQuery);
        }
        if query.terms.len() > MAX_QUERY_TERMS {
            return Err(SearchError::TooManyTerms);
        }
        let limit: usize = if request.limit < 1 {
            1
        } else if request.limit > MAX_QUERY_LIMIT {
            MAX_QUERY_LIMIT
        } else {
            request.limit
        };
        let names = self.root_names();
        let ghost order = crate::text::views(names@);
        let mut tables: Vec<&RootTable> = Vec::new();
        let mut i: usize = 0;
        while i < names.len()
            invariant
                i <= names.len(),
                order == crate::text::views(names@),
                self.wf(),
                crate::overview::names_in_order(order, self@.roots.dom()),
                tables@.len() == i,
                forall|k: int|
                    0 <= k < i ==> (#[trigger] tables@[k]).root@ == order[k]
                        && self@.roots.contains_key(order[k]) && tables@[k]@
                        == self@.roots[order[k]] && tables@[k].wf(),
            decreases names.len() - i,
        {
            assert(order[i as int] == names@[i as int]@);
            assert(self@.roots.dom().contains(order[i as int]));
            if let Some(table) = self.root(names[i].as_str()) {
                tables.push(table);
            }
            i += 1;
        }
        proof {
            assert forall|k: int, l: int| 0 <= k < l < tables@.len() implies (
            #[trigger] tables@[k]).root@ != (#[trigger] tables@[l]).root@ by {
                assert(crate::text::precedes(order[k], order[l]));
                crate::text::lemma_precedes_irreflexive(order[k]);
            }
            assert forall|name: Seq<char>| #[trigger] self@.roots.contains_key(name) implies
                exists|k: int| 0 <= k < tables@.len() && (#[trigger] tables@[k]).root@ == name by {
                assert(self@.roots.dom().contains(name));
                let k = choose|k: int| 0 <= k < order.len() && order[k] == name;
                assert(tables@[k].root@ == name);
            }
        }
        let best = self.find_best(&query, &tables, limit);
        let ghost hits = hit_views(best@);
        assert(query.view() == query_of(request@, normalized@));
        let mut items: Vec<SearchItem> = Vec::new();
        let mut k: usize = 0;
        while k < best.len()
            invariant
                k <= best.len(),
                hits == hit_views(best@),
                items@.len() == k,
                forall|n: int| 0 <= n < k ==> (#[trigger] items@[n])@ == item_of(hits[n]),
            decreases best.len() - k,
        {
            let hit = &best[k];
            assert(hits[k as int] == hit.view());
            items.push(
                SearchItem {
                    path: join_storage(
                        hit.root.root.as_str(),
                        hit.entry.relative_path.as_str(),
                    ),
                    name: hit.entry.name.clone(),
                    is_directory: hit.entry.is_directory,
                    size_bytes: crate::index::not_negative(hit.entry.size_bytes),
                    modified_unix_ms: hit.entry.modified_unix_ms,
                },
            );
            k += 1;
        }
        assert(item_views(items@) =~= items_of(hits));
        assert(self@.is_answer(
            query_of(request@, normalized@),
            effective_limit(request@.limit),
            hits,
        ));
        Ok(items)
    }

    /// Searches the index. Of an ASCII query the case does not matter.
    pub fn search(&self, request: &SearchRequest) -> (result: Result<Vec<SearchItem>, SearchError>)
        requires
            self.wf(),
        ensures
            self@.answers(
                request@,
                crate::normalize::normalized(request@.query),
                items_result(result),
            ),
            crate::text::ascii(request@.query) ==> self@.answers(
                request@,
                crate::text::fold(request@.query),
                items_result(result),
            ),
    {
        self.search_normalized(request, normalize_for_search(request.query.as_str()).as_str())
    }
}

} // verus!
