//! The knowledge base: documents keyed by platform version, the questions the
//! tools ask of them, and the selection of search hits.
//!
//! Ranking hits is the business of the full-text index, which scores in
//! floating point and lives beside the library; here a hit arrives as the
//! document and unit it points at, with its score already written out.

use vstd::prelude::*;
use crate::schema::{
    ApiMethod, ApiObject, Document, Example, ExecutionContext, RelatedItem, Relationship,
    RelationshipType, SearchResult, SearchSource, Section,
};
use crate::text::{
    chars_of, contains_chars, find_first, parse_u64, parse_u64_chars, push_chars, push_str,
    same_chars, same_text, starts_with_chars, string_of, trim, trimmed,
};

verus! {

/// A question to the knowledge base.
pub struct SearchQuery<'a> {
    pub query: &'a str,
    /// The exact documentation version; `None` searches all loaded versions.
    pub version: Option<&'a str>,
    /// The execution context: a method not available in it is left out.
    pub context: Option<ExecutionContext>,
    pub include_related: bool,
    pub max_results: usize,
}

/// A ranked hit of the full-text index: the document (its version), the unit
/// id within it, and the score as shown (two decimals).
#[derive(Debug, Clone)]
pub struct Hit {
    pub doc_id: String,
    pub section_id: String,
    pub score: String,
}

/// How many ranked hits to ask the full-text index for: twice the results
/// wanted, since filtering by version and context passes some over (capped at
/// the largest `usize`).
pub fn hit_budget(max_results: usize) -> (n: usize)
    ensures
        n == (if 2 * max_results <= usize::MAX { 2 * max_results } else { usize::MAX as int }),
{
    if max_results <= usize::MAX / 2 {
        max_results * 2
    } else {
        usize::MAX
    }
}

/// A usage example, with whose it is and from which documentation version.
#[derive(Debug, Clone)]
pub struct UsageExample {
    pub entity: String,
    pub version: String,
    pub code: String,
    pub description: Option<String>,
}

/// How full one documentation version is.
#[derive(Debug, Default)]
pub struct VersionStats {
    pub api_methods: usize,
    pub api_objects: usize,
}

/// Totals over the whole base.
#[derive(Debug)]
pub struct KnowledgeStats {
    pub total_documents: usize,
    pub total_api_methods: usize,
    pub total_api_objects: usize,
}

/// The knowledge base: at most one document per version, and the graph of
/// the relationships its documents declare.
pub struct KnowledgeBase {
    documents: Vec<Document>,
    graph: crate::graph::RelationGraph,
}

/// The versions of a list of documents, in list order.
pub open spec fn versions_of(docs: Seq<Document>) -> Seq<Seq<char>> {
    docs.map_values(|d: Document| d.version@)
}

/// No two documents share a version.
pub open spec fn distinct_versions(docs: Seq<Document>) -> bool {
    forall|i: int, j: int| 0 <= i < j < docs.len() ==> docs[i].version@ != docs[j].version@
}

/// The position of the document of a version.
pub open spec fn doc_index(docs: Seq<Document>, version: Seq<char>) -> Option<int> {
    if exists|i: int| 0 <= i < docs.len() && docs[i].version@ == version {
        Some(choose|i: int| 0 <= i < docs.len() && docs[i].version@ == version)
    } else {
        None
    }
}

/// The documents after adding one: a document of a version already present
/// takes its place, any other goes last.
pub open spec fn with_document(docs: Seq<Document>, doc: Document) -> Seq<Document> {
    match doc_index(docs, doc.version@) {
        Some(i) => docs.update(i, doc),
        None => docs.push(doc),
    }
}

/// Adding a document to a base keyed by version: it is then the document of
/// its version; the document of every other version stays as it was (and a
/// version that was missing stays missing); versions stay distinct; and the
/// base grows by one exactly when the version was new.
pub proof fn added_document_is_found(docs: Seq<Document>, doc: Document, v: Seq<char>)
    requires
        distinct_versions(docs),
    ensures
        distinct_versions(with_document(docs, doc)),
        doc_index(with_document(docs, doc), doc.version@) matches Some(i) && with_document(docs, doc)[i] == doc,
        v != doc.version@ ==> match doc_index(docs, v) {
            Some(i) => doc_index(with_document(docs, doc), v) matches Some(j) && with_document(docs, doc)[j] == docs[i],
            None => doc_index(with_document(docs, doc), v) is None,
        },
        with_document(docs, doc).len() == docs.len() + (if doc_index(docs, doc.version@) is None { 1int } else { 0int }),
{
    let nd = with_document(docs, doc);
    match doc_index(docs, doc.version@) {
        Some(i) => {
            assert(nd[i] == doc);
            assert forall|a: int, b: int| 0 <= a < b < nd.len() implies nd[a].version@ != nd[b].version@ by {
                assert(docs[a].version@ != docs[b].version@);
            }
        },
        None => {
            assert(nd[docs.len() as int] == doc);
            assert forall|a: int, b: int| 0 <= a < b < nd.len() implies nd[a].version@ != nd[b].version@ by {
                if b < docs.len() {
                    assert(docs[a].version@ != docs[b].version@);
                } else {
                    assert(nd[a] == docs[a]);
                }
            }
        },
    }
    assert(exists|k: int| 0 <= k < nd.len() && nd[k].version@ == doc.version@) by {
        match doc_index(docs, doc.version@) {
            Some(i) => { assert(nd[i].version@ == doc.version@); },
            None => { assert(nd[docs.len() as int].version@ == doc.version@); },
        }
    }
    let k = choose|k: int| 0 <= k < nd.len() && nd[k].version@ == doc.version@;
    match doc_index(docs, doc.version@) {
        Some(i) => { if k != i { assert(nd[k].version@ != nd[i].version@); } },
        None => { if k != docs.len() as int { assert(nd[k] == docs[k]); assert(docs[k].version@ == doc.version@); } },
    }
    if v != doc.version@ {
        match doc_index(docs, v) {
            Some(i) => {
                assert(nd[i] == docs[i]);
                assert(nd[i].version@ == v);
                let j = choose|j: int| 0 <= j < nd.len() && nd[j].version@ == v;
                if j != i {
                    assert(nd[j].version@ != nd[i].version@);
                }
            },
            None => {
                if exists|j: int| 0 <= j < nd.len() && nd[j].version@ == v {
                    let j = choose|j: int| 0 <= j < nd.len() && nd[j].version@ == v;
                    assert(nd[j] == docs[j]);
                }
            },
        }
    }
}

/// The digit runs of a version from a run that began at `start`, scanning at `i`:
/// `str::split` on every character that is not an ASCII digit.
pub open spec fn digit_runs_from(s: Seq<char>, start: int, i: int) -> Seq<Seq<char>>
    decreases s.len() - i,
{
    if i < start || i > s.len() {
        Seq::empty()
    } else if i == s.len() {
        seq![s.subrange(start, i)]
    } else if !('0' <= s[i] <= '9') {
        seq![s.subrange(start, i)] + digit_runs_from(s, i + 1, i + 1)
    } else {
        digit_runs_from(s, start, i + 1)
    }
}

/// The numbers of a version's digit runs, the runs that do not parse left out.
pub open spec fn run_values(runs: Seq<Seq<char>>) -> Seq<u64>
    decreases runs.len(),
{
    if runs.len() == 0 {
        Seq::empty()
    } else {
        run_values(runs.drop_last()) + match parse_u64(runs.last()) {
            Some(v) => seq![v],
            None => Seq::empty(),
        }
    }
}

/// The key by which versions are ordered: the numbers in the version string.
pub open spec fn version_numbers(v: Seq<char>) -> Seq<u64> {
    run_values(digit_runs_from(v, 0, 0))
}

/// Lexicographic order of keys, as `Vec<u64>` orders.
pub open spec fn key_less(a: Seq<u64>, b: Seq<u64>) -> bool
    decreases a.len(),
{
    if a.len() == 0 {
        b.len() > 0
    } else if b.len() == 0 {
        false
    } else if a[0] != b[0] {
        a[0] < b[0]
    } else {
        key_less(a.skip(1), b.skip(1))
    }
}

/// The version key: the numbers of a version string, in order.
pub fn version_key(version: &str) -> (res: Vec<u64>)
    ensures
        res@ == version_numbers(version@),
{
    let s = chars_of(version);
    let mut out: Vec<u64> = Vec::new();
    let mut start: usize = 0;
    let mut i: usize = 0;
    let ghost mut done: Seq<Seq<char>> = Seq::empty();
    while i < s.len()
        invariant
            0 <= start <= i <= s@.len(),
            s@ == version@,
            out@ == run_values(done),
            run_values(done + digit_runs_from(s@, start as int, i as int)) == version_numbers(version@),
            forall|r: Seq<Seq<char>>| #[trigger] run_values(done + r) == run_values(done) + run_values(r),
        decreases s@.len() - i,
    {
        if !('0' <= s[i] && s[i] <= '9') {
            let part = &s[start..i];
            match parse_u64_chars(part) {
                Some(v) => {
                    out.push(v);
                },
                None => {},
            }
            proof {
                assert(done.push(part@).drop_last() =~= done);
                assert(digit_runs_from(s@, start as int, i as int) =~= seq![part@] + digit_runs_from(s@, i + 1, i + 1));
                assert(done + digit_runs_from(s@, start as int, i as int) =~= done.push(part@) + digit_runs_from(s@, i + 1, i + 1));
                done = done.push(part@);
                assert forall|r: Seq<Seq<char>>| #[trigger] run_values(done + r) == run_values(done) + run_values(r) by {
                    lemma_run_values_concat(done, r);
                }
            }
            start = i + 1;
        }
        i = i + 1;
    }
    let part = &s[start..s.len()];
    match parse_u64_chars(part) {
        Some(v) => {
            out.push(v);
        },
        None => {},
    }
    proof {
        assert(done.push(part@).drop_last() =~= done);
        assert(digit_runs_from(s@, start as int, s@.len() as int) =~= seq![part@]);
        assert(done + seq![part@] =~= done.push(part@));
    }
    out
}

/// The numbers of two lists of runs are those of each, one after the other.
pub proof fn lemma_run_values_concat(a: Seq<Seq<char>>, b: Seq<Seq<char>>)
    ensures
        run_values(a + b) == run_values(a) + run_values(b),
    decreases b.len(),
{
    if b.len() == 0 {
        assert(a + b =~= a);
        assert(run_values(b) =~= Seq::<u64>::empty());
        assert(run_values(a) + Seq::<u64>::empty() =~= run_values(a));
    } else {
        lemma_run_values_concat(a, b.drop_last());
        assert((a + b).drop_last() =~= a + b.drop_last());
        assert((a + b).last() == b.last());
        assert(run_values(a) + run_values(b.drop_last()) + match parse_u64(b.last()) {
            Some(v) => seq![v],
            None => Seq::empty(),
        } =~= run_values(a) + run_values(b));
    }
}

/// Whether key `a` orders before key `b`.
pub fn key_less_exec(a: &[u64], b: &[u64]) -> (res: bool)
    ensures
        res == key_less(a@, b@),
{
    let mut i: usize = 0;
    assert(a@.skip(0) =~= a@);
    assert(b@.skip(0) =~= b@);
    while i < a.len() && i < b.len()
        invariant
            0 <= i <= a@.len(),
            i <= b@.len(),
            key_less(a@, b@) == key_less(a@.skip(i as int), b@.skip(i as int)),
            forall|k: int| 0 <= k < i ==> a@[k] == b@[k],
        decreases a@.len() - i,
    {
        if a[i] != b[i] {
            return a[i] < b[i];
        }
        assert(a@.skip(i as int).skip(1) =~= a@.skip(i + 1));
        assert(b@.skip(i as int).skip(1) =~= b@.skip(i + 1));
        i = i + 1;
    }
    i == a.len() && i < b.len()
}

impl KnowledgeBase {
    /// The documents, one per version.
    pub closed spec fn docs(&self) -> Seq<Document> {
        self.documents@
    }

    /// The documents never share a version.
    #[verifier::type_invariant]
    spec fn wf(&self) -> bool {
        distinct_versions(self.documents@)
    }

    /// An empty base.
    pub fn new() -> (res: Self)
        ensures
            res.docs() == Seq::<Document>::empty(),
            res.relations() == (Seq::<Seq<char>>::empty(), Seq::<(usize, usize, Seq<char>)>::empty()),
    {
        KnowledgeBase { documents: Vec::new(), graph: crate::graph::RelationGraph::new() }
    }

    /// The graph of relationships: node names and labelled edges.
    pub closed spec fn relations(&self) -> crate::graph::GraphModel {
        self.graph.model()
    }

    /// Adds a document: one of a version already loaded replaces it.
    pub fn add_document(&mut self, doc: Document) -> (res: Result<(), String>)
        ensures
            res is Ok,
            final(self).docs() == with_document(old(self).docs(), doc),
            distinct_versions(final(self).docs()),
            final(self).relations() == crate::graph::with_relationships(old(self).relations(), doc.relationships@),
    {
        proof {
            use_type_invariant(&*self);
        }
        let mut graph = crate::graph::RelationGraph::new();
        std::mem::swap(&mut graph, &mut self.graph);
        graph.add_relationships(doc.relationships.as_slice());
        self.graph = graph;
        let pos = self.index_of(doc.version.as_str());
        let mut docs: Vec<Document> = Vec::new();
        std::mem::swap(&mut docs, &mut self.documents);
        let ghost old_docs = docs@;
        match pos {
            Some(i) => {
                docs.set(i, doc);
                proof {
                    assert forall|a: int, b: int| 0 <= a < b < docs@.len() implies docs@[a].version@ != docs@[b].version@ by {
                        if a != i as int && b != i as int {
                            assert(old_docs[a].version@ != old_docs[b].version@);
                        } else if a == i as int {
                            assert(old_docs[a].version@ != old_docs[b].version@);
                        } else {
                            assert(old_docs[a].version@ != old_docs[b].version@);
                        }
                    }
                }
            },
            None => {
                docs.push(doc);
                proof {
                    assert forall|a: int, b: int| 0 <= a < b < docs@.len() implies docs@[a].version@ != docs@[b].version@ by {
                        if b < old_docs.len() {
                            assert(old_docs[a].version@ != old_docs[b].version@);
                        } else {
                            if old_docs[a].version@ == doc.version@ {
                                assert(exists|j: int| 0 <= j < old_docs.len() && old_docs[j].version@ == doc.version@);
                            }
                        }
                    }
                }
            },
        }
        self.documents = docs;
        Ok(())
    }

    /// Whether a version is loaded.
    pub fn has_version(&self, version: &str) -> (res: bool)
        ensures
            res == (doc_index(self.docs(), version@) is Some),
    {
        self.index_of(version).is_some()
    }

    fn index_of(&self, version: &str) -> (res: Option<usize>)
        ensures
            match res {
                Some(i) => doc_index(self.docs(), version@) == Some(i as int),
                None => doc_index(self.docs(), version@) is None,
            },
    {
        proof {
            use_type_invariant(self);
        }
        let n = self.documents.len();
        let mut i: usize = 0;
        while i < n
            invariant
                0 <= i <= n,
                n == self.documents@.len(),
                forall|k: int| 0 <= k < i ==> self.documents@[k].version@ != version@,
                distinct_versions(self.documents@),
            decreases n - i,
        {
            if same_text(self.documents[i].version.as_str(), version) {
                proof {
                    let j = choose|j: int| 0 <= j < self.documents@.len() && self.documents@[j].version@ == version@;
                    if j != i as int {
                        if j < i as int {
                            assert(self.documents@[j].version@ != version@);
                        } else {
                            assert(self.documents@[i as int].version@ != self.documents@[j].version@);
                        }
                    }
                }
                return Some(i);
            }
            i = i + 1;
        }
        proof {
            if exists|j: int| 0 <= j < self.documents@.len() && self.documents@[j].version@ == version@ {
                let j = choose|j: int| 0 <= j < self.documents@.len() && self.documents@[j].version@ == version@;
                assert(self.documents@[j].version@ != version@);
            }
        }
        None
    }
}

/// Key order is transitive.
pub proof fn lemma_key_less_transitive(a: Seq<u64>, b: Seq<u64>, c: Seq<u64>)
    requires
        key_less(a, b),
        key_less(b, c),
    ensures
        key_less(a, c),
    decreases a.len(),
{
    if a.len() > 0 && b.len() > 0 && c.len() > 0 && a[0] == b[0] && b[0] == c[0] {
        lemma_key_less_transitive(a.skip(1), b.skip(1), c.skip(1));
    }
}

/// Of two different keys, one orders before the other.
pub proof fn lemma_key_less_total(a: Seq<u64>, b: Seq<u64>)
    ensures
        a == b || key_less(a, b) || key_less(b, a),
    decreases a.len(),
{
    if a.len() > 0 && b.len() > 0 && a[0] == b[0] {
        lemma_key_less_total(a.skip(1), b.skip(1));
        if a.skip(1) == b.skip(1) {
            assert(a =~= seq![a[0]] + a.skip(1));
            assert(b =~= seq![b[0]] + b.skip(1));
        }
    } else if a.len() == 0 && b.len() == 0 {
        assert(a =~= b);
    }
}

/// In a listing in version order no version occurs twice: equal versions have
/// equal keys, and ties must keep the strict load order.
proof fn lemma_version_order_distinct(docs: Seq<Document>, vs: Seq<Seq<char>>, i: int, j: int)
    requires
        version_order(docs, vs),
        0 <= i < j < vs.len(),
    ensures
        vs[i] != vs[j],
{
    if vs[i] == vs[j] {
        assert(version_numbers(vs[i]) == version_numbers(vs[j]));
        assert(doc_index(docs, vs[i]).unwrap() < doc_index(docs, vs[j]).unwrap());
    }
}

/// The place of a listed version in the listing.
proof fn lemma_listed_at(docs: Seq<Document>, vs: Seq<Seq<char>>, v: Seq<char>) -> (k: int)
    requires
        version_order(docs, vs),
        versions_of(docs).contains(v),
    ensures
        0 <= k < vs.len(),
        vs[k] == v,
{
    let d = choose|d: int| 0 <= d < versions_of(docs).len() && versions_of(docs)[d] == v;
    assert(docs[d].version@ == v);
    assert(vs.contains(docs[d].version@));
    choose|k: int| 0 <= k < vs.len() && vs[k] == v
}

/// The versions of a base have one listing in version order: from the highest
/// key down, ties in load order, leave no choice.
pub proof fn version_order_is_unique(docs: Seq<Document>, a: Seq<Seq<char>>, b: Seq<Seq<char>>)
    requires
        version_order(docs, a),
        version_order(docs, b),
    ensures
        a == b,
{
    assert forall|k: int| 0 <= k < a.len() implies a[k] == b[k] by {
        lemma_version_order_unique_at(docs, a, b, k);
    }
    assert(a =~= b);
}

proof fn lemma_version_order_unique_at(docs: Seq<Document>, a: Seq<Seq<char>>, b: Seq<Seq<char>>, k: int)
    requires
        version_order(docs, a),
        version_order(docs, b),
        0 <= k < a.len(),
    ensures
        a[k] == b[k],
    decreases k,
{
    assert forall|m: int| 0 <= m < k implies a[m] == b[m] by {
        lemma_version_order_unique_at(docs, a, b, m);
    }
    if a[k] != b[k] {
        assert(versions_of(docs).contains(a[k]));
        assert(versions_of(docs).contains(b[k]));
        let j = lemma_listed_at(docs, b, a[k]);
        let i = lemma_listed_at(docs, a, b[k]);
        if j < k {
            assert(a[j] == b[j]);
            lemma_version_order_distinct(docs, a, j, k);
        }
        if i < k {
            assert(a[i] == b[i]);
            lemma_version_order_distinct(docs, b, i, k);
        }
        assert(j > k && i > k);
        assert(!key_less(version_numbers(b[k]), version_numbers(b[j])));
        assert(!key_less(version_numbers(a[k]), version_numbers(a[i])));
        lemma_key_less_total(version_numbers(a[k]), version_numbers(b[k]));
        assert(version_numbers(a[k]) == version_numbers(b[k]));
        assert(doc_index(docs, b[k]).unwrap() < doc_index(docs, b[j]).unwrap());
        assert(doc_index(docs, a[k]).unwrap() < doc_index(docs, a[i]).unwrap());
    }
}

/// How many entries are still `false`.
pub open spec fn untaken(t: Seq<bool>) -> nat
    decreases t.len(),
{
    if t.len() == 0 {
        0
    } else {
        untaken(t.drop_last()) + if t.last() { 0nat } else { 1nat }
    }
}

proof fn lemma_untaken_update(t: Seq<bool>, m: int)
    requires
        0 <= m < t.len(),
        !t[m],
    ensures
        untaken(t.update(m, true)) + 1 == untaken(t),
    decreases t.len(),
{
    if m < t.len() - 1 {
        assert(t.update(m, true).drop_last() =~= t.drop_last().update(m, true));
        lemma_untaken_update(t.drop_last(), m);
    } else {
        assert(t.update(m, true).drop_last() =~= t.drop_last());
    }
}

proof fn lemma_untaken_zero(t: Seq<bool>, d: int)
    requires
        0 <= d < t.len(),
        !t[d],
    ensures
        untaken(t) > 0,
    decreases t.len(),
{
    if d < t.len() - 1 {
        lemma_untaken_zero(t.drop_last(), d);
    }
}

proof fn lemma_untaken_all_false(n: nat)
    ensures
        untaken(Seq::new(n, |i: int| false)) == n,
    decreases n,
{
    if n > 0 {
        assert(Seq::new(n, |i: int| false).drop_last() =~= Seq::new((n - 1) as nat, |i: int| false));
        lemma_untaken_all_false((n - 1) as nat);
    }
}

/// `d` is among the chosen positions.
pub open spec fn picked_has(picked: Seq<int>, d: int) -> bool {
    exists|k: int| 0 <= k < picked.len() && picked[k] == d
}

/// `vs` lists every loaded version once, from the highest key down, versions
/// of equal keys in the order they were loaded.
pub open spec fn version_order(docs: Seq<Document>, vs: Seq<Seq<char>>) -> bool {
    &&& sorted_by_key_desc(vs)
    &&& ties_in_load_order(docs, vs)
    &&& vs.len() == docs.len()
    &&& forall|k: int| 0 <= k < vs.len() ==> #[trigger] versions_of(docs).contains(vs[k])
    &&& forall|d: int| 0 <= d < docs.len() ==> vs.contains(#[trigger] docs[d].version@)
}

/// Versions of equal keys keep the order in which they were loaded.
pub open spec fn ties_in_load_order(docs: Seq<Document>, vs: Seq<Seq<char>>) -> bool {
    forall|i: int, j: int| 0 <= i < j < vs.len() && #[trigger] version_numbers(vs[i]) == #[trigger] version_numbers(vs[j])
        ==> doc_index(docs, vs[i]).unwrap() < doc_index(docs, vs[j]).unwrap()
}

/// Versions ordered from the highest key down.
pub open spec fn sorted_by_key_desc(vs: Seq<Seq<char>>) -> bool {
    forall|i: int, j: int| 0 <= i < j < vs.len() ==>
        !key_less(#[trigger] version_numbers(vs[i]), #[trigger] version_numbers(vs[j]))
}

impl KnowledgeBase {
    /// The loaded versions, from the highest down.
    pub fn versions(&self) -> (res: Vec<String>)
        ensures
            version_order(self.docs(), res@.map_values(|v: String| v@)),
    {
        proof {
            use_type_invariant(self);
        }
        let n = self.documents.len();
        let mut keys: Vec<Vec<u64>> = Vec::new();
        let mut taken: Vec<bool> = Vec::new();
        let mut j: usize = 0;
        while j < n
            invariant
                0 <= j <= n,
                n == self.documents@.len(),
                keys@.len() == j,
                taken@ == Seq::new(j as nat, |i: int| false),
                forall|k: int| 0 <= k < j ==> #[trigger] keys@[k]@ == version_numbers(self.documents@[k].version@),
            decreases n - j,
        {
            keys.push(version_key(self.documents[j].version.as_str()));
            taken.push(false);
            assert(taken@ =~= Seq::new((j + 1) as nat, |i: int| false));
            j = j + 1;
        }
        proof {
            lemma_untaken_all_false(n as nat);
        }
        let mut out: Vec<String> = Vec::new();
        let ghost mut picked: Seq<int> = Seq::empty();
        loop
            invariant
                n == self.documents@.len(),
                keys@.len() == n,
                taken@.len() == n,
                forall|k: int| 0 <= k < n ==> #[trigger] keys@[k]@ == version_numbers(self.documents@[k].version@),
                out@.len() == picked.len(),
                untaken(taken@) + picked.len() == n,
                forall|k: int| 0 <= k < picked.len() ==> 0 <= #[trigger] picked[k] < n && taken@[picked[k]]
                    && out@[k]@ == self.documents@[picked[k]].version@,
                forall|d: int| 0 <= d < n && #[trigger] taken@[d] ==> picked_has(picked, d),
                forall|k1: int, k2: int| 0 <= k1 < k2 < picked.len() ==>
                    !key_less(#[trigger] version_numbers(out@[k1]@), #[trigger] version_numbers(out@[k2]@)),
                forall|k: int, d: int| 0 <= k < picked.len() && 0 <= d < n && !taken@[d] ==>
                    !key_less(#[trigger] version_numbers(out@[k]@), #[trigger] version_numbers(self.documents@[d].version@)),
                forall|k1: int, k2: int| 0 <= k1 < k2 < picked.len() && #[trigger] keys@[picked[k1]]@ == #[trigger] keys@[picked[k2]]@
                    ==> picked[k1] < picked[k2],
                forall|k: int, d: int| 0 <= k < picked.len() && 0 <= d < n && !taken@[d]
                    && #[trigger] keys@[picked[k]]@ == #[trigger] keys@[d]@ ==> picked[k] < d,
            ensures
                forall|k1: int, k2: int| 0 <= k1 < k2 < picked.len() && #[trigger] keys@[picked[k1]]@ == #[trigger] keys@[picked[k2]]@
                    ==> picked[k1] < picked[k2],
                out@.len() == n,
                forall|k: int| 0 <= k < picked.len() ==> 0 <= #[trigger] picked[k] < n
                    && out@[k]@ == self.documents@[picked[k]].version@,
                forall|d: int| 0 <= d < n ==> #[trigger] picked_has(picked, d),
                forall|k1: int, k2: int| 0 <= k1 < k2 < picked.len() ==>
                    !key_less(#[trigger] version_numbers(out@[k1]@), #[trigger] version_numbers(out@[k2]@)),
            decreases untaken(taken@),
        {
            let mut best: Option<usize> = None;
            let mut i: usize = 0;
            while i < n
                invariant
                    0 <= i <= n,
                    n == self.documents@.len(),
                    keys@.len() == n,
                    taken@.len() == n,
                    forall|k: int| 0 <= k < n ==> #[trigger] keys@[k]@ == version_numbers(self.documents@[k].version@),
                    match best {
                        Some(b) => b < n && b < i && !taken@[b as int] && (forall|d: int| 0 <= d < i && !taken@[d] ==>
                            !key_less(keys@[b as int]@, #[trigger] keys@[d]@))
                            && (forall|d: int| 0 <= d < i && !taken@[d] && #[trigger] keys@[d]@ == keys@[b as int]@ ==> b <= d),
                        None => forall|d: int| 0 <= d < i ==> #[trigger] taken@[d],
                    },
                decreases n - i,
            {
                if !taken[i] {
                    match best {
                        None => {
                            proof {
                                lemma_key_less_irreflexive(keys@[i as int]@);
                            }
                            best = Some(i);
                        },
                        Some(b) => {
                            if key_less_exec(&keys[b], &keys[i]) {
                                proof {
                                    assert forall|d: int| 0 <= d < i + 1 && !taken@[d] implies
                                        !key_less(keys@[i as int]@, #[trigger] keys@[d]@) by {
                                        if d < i && key_less(keys@[i as int]@, keys@[d]@) {
                                            lemma_key_less_transitive(keys@[b as int]@, keys@[i as int]@, keys@[d]@);
                                        }
                                        if d == i {
                                            lemma_key_less_irreflexive(keys@[i as int]@);
                                        }
                                    }
                                    assert forall|d: int| 0 <= d < i + 1 && !taken@[d] && #[trigger] keys@[d]@ == keys@[i as int]@ implies i <= d by {
                                        if d < i {
                                            assert(!key_less(keys@[b as int]@, keys@[d]@));
                                        }
                                    }
                                }
                                best = Some(i);
                            } else {
                                proof {
                                    assert forall|d: int| 0 <= d < i + 1 && !taken@[d] implies
                                        !key_less(keys@[b as int]@, #[trigger] keys@[d]@) by {}
                                }
                            }
                        },
                    }
                }
                i = i + 1;
            }
            match best {
                None => {
                    proof {
                        assert forall|d: int| 0 <= d < n implies #[trigger] picked_has(picked, d) by {
                            assert(taken@[d]);
                        }
                        if picked.len() < n {
                            assert(untaken(taken@) > 0);
                            assert(false) by {
                                lemma_untaken_nonzero_has_false(taken@);
                            }
                        }
                    }
                    break;
                },
                Some(m) => {
                    let v = self.documents[m].version.clone();
                    proof {
                        lemma_untaken_update(taken@, m as int);
                        lemma_key_less_irreflexive(keys@[m as int]@);
                    }
                    let ghost old_taken = taken@;
                    let ghost old_picked = picked;
                    out.push(v);
                    taken.set(m, true);
                    proof {
                        picked = picked.push(m as int);
                        assert forall|k1: int, k2: int| 0 <= k1 < k2 < picked.len() && #[trigger] keys@[picked[k1]]@ == #[trigger] keys@[picked[k2]]@
                            implies picked[k1] < picked[k2] by {
                            if k2 == picked.len() - 1 {
                                assert(!old_taken[m as int]);
                            }
                        }
                        assert forall|k: int, d: int| 0 <= k < picked.len() && 0 <= d < n && !taken@[d]
                            && #[trigger] keys@[picked[k]]@ == #[trigger] keys@[d]@ implies picked[k] < d by {
                            assert(!old_taken[d]);
                            if k == picked.len() - 1 {
                                assert(d != m as int);
                            }
                        }
                        assert forall|d: int| 0 <= d < n && #[trigger] taken@[d] implies picked_has(picked, d) by {
                            if d == m as int {
                                assert(picked[picked.len() - 1] == d);
                            } else {
                                assert(old_taken[d]);
                                assert(picked_has(old_picked, d));
                                let k = choose|k: int| 0 <= k < old_picked.len() && old_picked[k] == d;
                                assert(picked[k] == d);
                            }
                        }
                        assert forall|k: int, d: int| 0 <= k < picked.len() && 0 <= d < n && !taken@[d] implies
                            !key_less(#[trigger] version_numbers(out@[k]@), #[trigger] version_numbers(self.documents@[d].version@)) by {
                            assert(!old_taken[d]);
                            if k == picked.len() - 1 {
                                assert(out@[k]@ == self.documents@[m as int].version@);
                                assert(keys@[d]@ == version_numbers(self.documents@[d].version@));
                                assert(!key_less(keys@[m as int]@, keys@[d]@));
                            }
                        }
                    }
                },
            }
        }
        proof {
            let vs = out@.map_values(|v: String| v@);
            assert forall|i: int, j: int| 0 <= i < j < vs.len() implies
                !key_less(#[trigger] version_numbers(vs[i]), #[trigger] version_numbers(vs[j])) by {
                assert(vs[i] == out@[i]@ && vs[j] == out@[j]@);
            }
            assert forall|k: int| 0 <= k < vs.len() implies #[trigger] versions_of(self.docs()).contains(vs[k]) by {
                assert(versions_of(self.docs())[picked[k]] == out@[k]@);
            }
            assert forall|k: int| 0 <= k < out@.len() implies #[trigger] doc_index(self.docs(), vs[k]) == Some(picked[k]) by {
                assert(self.docs()[picked[k]].version@ == vs[k]);
                let c = choose|c: int| 0 <= c < self.docs().len() && self.docs()[c].version@ == vs[k];
                if c != picked[k] {
                    assert(distinct_versions(self.docs()));
                }
            }
            assert forall|i: int, j: int| 0 <= i < j < vs.len() && #[trigger] version_numbers(vs[i]) == #[trigger] version_numbers(vs[j])
                implies doc_index(self.docs(), vs[i]).unwrap() < doc_index(self.docs(), vs[j]).unwrap() by {
                assert(keys@[picked[i]]@ == version_numbers(vs[i]));
                assert(keys@[picked[j]]@ == version_numbers(vs[j]));
            }
            assert forall|d: int| 0 <= d < self.docs().len() implies vs.contains(#[trigger] self.docs()[d].version@) by {
                assert(picked_has(picked, d));
                let k = choose|k: int| 0 <= k < picked.len() && picked[k] == d;
                assert(vs[k] == self.docs()[d].version@);
            }
        }
        out
    }

    /// The highest loaded version: the default of the `version` argument.
    pub fn latest_version(&self) -> (res: Option<String>)
        ensures
            match res {
                Some(v) => versions_of(self.docs()).contains(v@) && forall|d: int| 0 <= d < self.docs().len()
                    ==> !key_less(version_numbers(v@), #[trigger] version_numbers(self.docs()[d].version@)),
                None => self.docs().len() == 0,
            },
            res matches Some(v) ==> exists|vs: Seq<Seq<char>>| #[trigger] version_order(self.docs(), vs)
                && vs.len() > 0 && v@ == vs[0],
    {
        let vs = self.versions();
        if vs.len() == 0 {
            None
        } else {
            proof {
                let views = vs@.map_values(|v: String| v@);
                assert(views[0] == vs@[0]@);
                assert(version_order(self.docs(), views));
                assert(versions_of(self.docs()).contains(views[0]));
                assert forall|d: int| 0 <= d < self.docs().len() implies
                    !key_less(version_numbers(vs@[0]@), #[trigger] version_numbers(self.docs()[d].version@)) by {
                    assert(views.contains(self.docs()[d].version@));
                    let k = choose|k: int| 0 <= k < views.len() && views[k] == self.docs()[d].version@;
                    if k > 0 {
                        assert(views[0] == vs@[0]@);
                    } else {
                        lemma_key_less_irreflexive(version_numbers(vs@[0]@));
                    }
                }
            }
            Some(vs[0].clone())
        }
    }
}

/// No key orders before itself.
pub proof fn lemma_key_less_irreflexive(a: Seq<u64>)
    ensures
        !key_less(a, a),
    decreases a.len(),
{
    if a.len() > 0 {
        lemma_key_less_irreflexive(a.skip(1));
    }
}

proof fn lemma_untaken_nonzero_has_false(t: Seq<bool>)
    requires
        untaken(t) > 0,
    ensures
        exists|d: int| 0 <= d < t.len() && !t[d],
    decreases t.len(),
{
    if t.len() > 0 {
        if t.last() {
            lemma_untaken_nonzero_has_false(t.drop_last());
            let d = choose|d: int| 0 <= d < t.drop_last().len() && !t.drop_last()[d];
            assert(!t[d]);
        } else {
            assert(!t[t.len() - 1]);
        }
    }
}

/// The position of the first method with the given name.
pub open spec fn first_method(ms: Seq<ApiMethod>, name: Seq<char>) -> Option<int> {
    if exists|i: int| 0 <= i < ms.len() && ms[i].name@ == name {
        Some(choose|i: int| 0 <= i < ms.len() && ms[i].name@ == name
            && forall|j: int| 0 <= j < i ==> ms[j].name@ != name)
    } else {
        None
    }
}

/// The method of that name in the document of that version.
pub open spec fn method_in(docs: Seq<Document>, version: Seq<char>, name: Seq<char>) -> Option<ApiMethod> {
    match doc_index(docs, version) {
        Some(d) => match first_method(docs[d].api_methods@, name) {
            Some(i) => Some(docs[d].api_methods@[i]),
            None => None,
        },
        None => None,
    }
}

/// A version no loaded version outranks.
pub open spec fn is_latest(docs: Seq<Document>, v: Seq<char>) -> bool {
    versions_of(docs).contains(v)
        && forall|d: int| 0 <= d < docs.len() ==> !key_less(version_numbers(v), #[trigger] version_numbers(docs[d].version@))
}

/// A found method is the modelled one.
pub open spec fn same_method(res: Option<&ApiMethod>, m: Option<ApiMethod>) -> bool {
    match (res, m) {
        (Some(a), Some(b)) => *a == b,
        (None, None) => true,
        _ => false,
    }
}

fn find_method<'a>(ms: &'a Vec<ApiMethod>, name: &str) -> (res: Option<&'a ApiMethod>)
    ensures
        match first_method(ms@, name@) {
            Some(i) => res == Some(&ms@[i]),
            None => res is None,
        },
{
    let mut i: usize = 0;
    while i < ms.len()
        invariant
            0 <= i <= ms@.len(),
            forall|j: int| 0 <= j < i ==> ms@[j].name@ != name@,
        decreases ms@.len() - i,
    {
        if same_text(ms[i].name.as_str(), name) {
            proof {
                let c = choose|c: int| 0 <= c < ms@.len() && ms@[c].name@ == name@
                    && forall|j: int| 0 <= j < c ==> ms@[j].name@ != name@;
                if c < i {
                } else if c > i {
                    assert(ms@[i as int].name@ == name@);
                }
            }
            return Some(&ms[i]);
        }
        i = i + 1;
    }
    None
}

impl KnowledgeBase {
    fn document(&self, version: &str) -> (res: Option<&Document>)
        ensures
            match doc_index(self.docs(), version@) {
                Some(d) => res == Some(&self.docs()[d]),
                None => res is None,
            },
    {
        match self.index_of(version) {
            Some(i) => Some(&self.documents[i]),
            None => None,
        }
    }

    /// An API method from the documentation of one version; without a version,
    /// from the highest loaded one.
    pub fn get_method_details(&self, method_name: &str, version: Option<&str>) -> (res: Option<&ApiMethod>)
        ensures
            match version {
                Some(v) => same_method(res, method_in(self.docs(), v@, method_name@)),
                None => if self.docs().len() == 0 {
                    res is None
                } else {
                    exists|v: Seq<char>| is_latest(self.docs(), v)
                        && same_method(res, #[trigger] method_in(self.docs(), v, method_name@))
                },
            },
    {
        let owned: String;
        let v: &str = match version {
            Some(v) => v,
            None => match self.latest_version() {
                Some(l) => {
                    owned = l;
                    owned.as_str()
                },
                None => {
                    return None;
                },
            },
        };
        proof {
            if version is None {
                assert(is_latest(self.docs(), v@));
            }
        }
        match self.document(v) {
            Some(doc) => {
                let found = find_method(&doc.api_methods, method_name);
                proof {
                    assert(same_method(found, method_in(self.docs(), v@, method_name@)));
                }
                found
            },
            None => {
                assert(method_in(self.docs(), v@, method_name@) is None);
                None
            },
        }
    }

    /// How full one version is; an unknown version counts nothing.
    pub fn version_statistics(&self, version: &str) -> (res: VersionStats)
        ensures
            match doc_index(self.docs(), version@) {
                Some(d) => res.api_methods == self.docs()[d].api_methods@.len()
                    && res.api_objects == self.docs()[d].api_objects@.len(),
                None => res.api_methods == 0 && res.api_objects == 0,
            },
    {
        match self.document(version) {
            Some(doc) => VersionStats { api_methods: doc.api_methods.len(), api_objects: doc.api_objects.len() },
            None => VersionStats { api_methods: 0, api_objects: 0 },
        }
    }
}

/// The usage entry of an example of a method in a document.
pub open spec fn usage_of(d: Document, m: ApiMethod, e: Example) -> UsageExample {
    UsageExample { entity: m.name, version: d.version, code: e.code, description: e.description }
}

/// Whether a method belongs to the entity: the entity itself, one of its
/// methods (`Entity.`), its constructor (`Новый Entity`) or a constructor
/// variant (`Новый Entity — `).
pub open spec fn is_own(name: Seq<char>, entity: Seq<char>) -> bool {
    ||| name == entity
    ||| (entity + "."@).is_prefix_of(name)
    ||| name == "Новый "@ + entity
    ||| ("Новый "@ + entity + " — "@).is_prefix_of(name)
}

/// Whether an example is taken into the bucket asked for: own examples of the
/// entity's methods, or (for other methods) examples whose code mentions it.
pub open spec fn takes(own_bucket: bool, own: bool, code: Seq<char>, entity: Seq<char>) -> bool {
    if own_bucket { own } else { !own && find_first(code, entity) is Some }
}

pub open spec fn usage_in_examples(d: Document, m: ApiMethod, exs: Seq<Example>, own: bool, entity: Seq<char>, own_bucket: bool) -> Seq<UsageExample>
    decreases exs.len(),
{
    if exs.len() == 0 {
        Seq::empty()
    } else {
        usage_in_examples(d, m, exs.drop_last(), own, entity, own_bucket)
            + if takes(own_bucket, own, exs.last().code@, entity) { seq![usage_of(d, m, exs.last())] } else { Seq::empty() }
    }
}

pub open spec fn usage_in_methods(d: Document, ms: Seq<ApiMethod>, entity: Seq<char>, own_bucket: bool) -> Seq<UsageExample>
    decreases ms.len(),
{
    if ms.len() == 0 {
        Seq::empty()
    } else {
        usage_in_methods(d, ms.drop_last(), entity, own_bucket)
            + usage_in_examples(d, ms.last(), ms.last().examples@, is_own(ms.last().name@, entity), entity, own_bucket)
    }
}

pub open spec fn usage_in_documents(docs: Seq<Document>, version: Option<Seq<char>>, entity: Seq<char>, own_bucket: bool) -> Seq<UsageExample>
    decreases docs.len(),
{
    if docs.len() == 0 {
        Seq::empty()
    } else {
        usage_in_documents(docs.drop_last(), version, entity, own_bucket)
            + if version is None || version == Some(docs.last().version@) {
                usage_in_methods(docs.last(), docs.last().api_methods@, entity, own_bucket)
            } else {
                Seq::empty()
            }
    }
}

/// The usage examples of an entity: its own first, then those that mention
/// it, in document and method order, at most `max` of them.
pub open spec fn usage_examples(docs: Seq<Document>, version: Option<Seq<char>>, entity_name: Seq<char>, max: nat) -> Seq<UsageExample> {
    let entity = trim(entity_name);
    (usage_in_documents(docs, version, entity, true) + usage_in_documents(docs, version, entity, false)).take(
        if max <= usage_in_documents(docs, version, entity, true).len() + usage_in_documents(docs, version, entity, false).len() {
            max as int
        } else {
            (usage_in_documents(docs, version, entity, true).len() + usage_in_documents(docs, version, entity, false).len()) as int
        },
    )
}

fn copy_opt(o: &Option<String>) -> (res: Option<String>)
    ensures
        res == *o,
{
    match o {
        Some(s) => Some(s.clone()),
        None => None,
    }
}

fn concat3(a: &[char], b: &str, c: &[char]) -> (res: Vec<char>)
    ensures
        res@ == a@ + b@ + c@,
{
    let mut out: Vec<char> = Vec::new();
    push_chars(&mut out, a);
    push_str(&mut out, b);
    push_chars(&mut out, c);
    out
}

fn owns(name: &[char], entity: &[char], own_prefix: &[char], ctor: &[char], ctor_dash: &[char]) -> (res: bool)
    requires
        own_prefix@ == entity@ + "."@,
        ctor@ == "Новый "@ + entity@,
        ctor_dash@ == "Новый "@ + entity@ + " — "@,
    ensures
        res == is_own(name@, entity@),
{
    let r = same_chars(name, entity) || starts_with_chars(name, own_prefix) || same_chars(name, ctor)
        || starts_with_chars(name, ctor_dash);
    proof {
        assert((entity@ + "."@).is_prefix_of(name@) == (own_prefix@.len() <= name@.len() && name@.take(own_prefix@.len() as int) == own_prefix@));
        assert(("Новый "@ + entity@ + " — "@).is_prefix_of(name@) == (ctor_dash@.len() <= name@.len() && name@.take(ctor_dash@.len() as int) == ctor_dash@));
    }
    r
}

impl KnowledgeBase {
    /// Usage examples of an API object or method: the entity's own examples
    /// first (`ТаблицаЗначений` is also `ТаблицаЗначений.Добавить` and
    /// `Новый ТаблицаЗначений`), then examples of other methods whose code
    /// mentions it.
    pub fn find_usage_examples(&self, entity_name: &str, version: Option<&str>, max_examples: usize) -> (res: Vec<UsageExample>)
        ensures
            res@ == usage_examples(self.docs(), crate::platform::str_opt(version), entity_name@, max_examples as nat),
    {
        let name_chars = chars_of(entity_name);
        let entity = trimmed(&name_chars);
        let own_prefix = concat3(&entity, ".", &[]);
        let empty: Vec<char> = Vec::new();
        let ctor = concat3(&empty, "Новый ", &entity);
        let ctor_dash = concat3(&ctor, " — ", &empty);
        proof {
            assert(own_prefix@ =~= entity@ + "."@);
            assert(ctor@ =~= "Новый "@ + entity@);
        }
        let ghost ent = entity@;
        let ghost ver = crate::platform::str_opt(version);
        let mut own: Vec<UsageExample> = Vec::new();
        let mut mentions: Vec<UsageExample> = Vec::new();
        let mut di: usize = 0;
        while di < self.documents.len()
            invariant
                0 <= di <= self.documents@.len(),
                ent == entity@,
                ent == trim(entity_name@),
                ver == crate::platform::str_opt(version),
                own_prefix@ == entity@ + "."@,
                ctor@ == "Новый "@ + entity@,
                ctor_dash@ == "Новый "@ + entity@ + " — "@,
                own@ == usage_in_documents(self.documents@.take(di as int), ver, ent, true),
                mentions@ == usage_in_documents(self.documents@.take(di as int), ver, ent, false),
            decreases self.documents@.len() - di,
        {
            let doc = &self.documents[di];
            assert(self.documents@.take(di + 1).drop_last() =~= self.documents@.take(di as int));
            let selected = match version {
                Some(v) => same_text(doc.version.as_str(), v),
                None => true,
            };
            if selected {
                let ghost own0 = own@;
                let ghost men0 = mentions@;
                let mut mi: usize = 0;
                while mi < doc.api_methods.len()
                    invariant
                        0 <= mi <= doc.api_methods@.len(),
                        own_prefix@ == entity@ + "."@,
                        ctor@ == "Новый "@ + entity@,
                        ctor_dash@ == "Новый "@ + entity@ + " — "@,
                        own@ == own0 + usage_in_methods(*doc, doc.api_methods@.take(mi as int), entity@, true),
                        mentions@ == men0 + usage_in_methods(*doc, doc.api_methods@.take(mi as int), entity@, false),
                    decreases doc.api_methods@.len() - mi,
                {
                    let method = &doc.api_methods[mi];
                    assert(doc.api_methods@.take(mi + 1).drop_last() =~= doc.api_methods@.take(mi as int));
                    let name_v = chars_of(method.name.as_str());
                    let is_own_m = owns(&name_v, &entity, &own_prefix, &ctor, &ctor_dash);
                    let ghost own1 = own@;
                    let ghost men1 = mentions@;
                    let mut ei: usize = 0;
                    while ei < method.examples.len()
                        invariant
                            0 <= ei <= method.examples@.len(),
                            is_own_m == is_own(method.name@, entity@),
                            own@ == own1 + usage_in_examples(*doc, *method, method.examples@.take(ei as int), is_own_m, entity@, true),
                            mentions@ == men1 + usage_in_examples(*doc, *method, method.examples@.take(ei as int), is_own_m, entity@, false),
                        decreases method.examples@.len() - ei,
                    {
                        let example = &method.examples[ei];
                        assert(method.examples@.take(ei + 1).drop_last() =~= method.examples@.take(ei as int));
                        let code_v = chars_of(example.code.as_str());
                        let item = UsageExample {
                            entity: method.name.clone(),
                            version: doc.version.clone(),
                            code: example.code.clone(),
                            description: copy_opt(&example.description),
                        };
                        if is_own_m {
                            own.push(item);
                        } else if contains_chars(&code_v, &entity) {
                            mentions.push(item);
                        }
                        ei = ei + 1;
                    }
                    assert(method.examples@.take(method.examples@.len() as int) =~= method.examples@);
                    mi = mi + 1;
                }
                assert(doc.api_methods@.take(doc.api_methods@.len() as int) =~= doc.api_methods@);
            }
            di = di + 1;
        }
        assert(self.documents@.take(self.documents@.len() as int) =~= self.documents@);
        own.append(&mut mentions);
        own.truncate(max_examples);
        own
    }

    /// Totals over the base.
    pub fn statistics(&self) -> (res: KnowledgeStats)
        ensures
            res.total_documents == self.docs().len(),
            res.total_api_methods as nat == crate::text::capped(methods_total(self.docs())),
            res.total_api_objects as nat == crate::text::capped(objects_total(self.docs())),
    {
        let mut methods: usize = 0;
        let mut objects: usize = 0;
        let mut i: usize = 0;
        while i < self.documents.len()
            invariant
                0 <= i <= self.documents@.len(),
                methods as nat == crate::text::capped(methods_total(self.documents@.take(i as int))),
                objects as nat == crate::text::capped(objects_total(self.documents@.take(i as int))),
            decreases self.documents@.len() - i,
        {
            assert(self.documents@.take(i + 1).drop_last() =~= self.documents@.take(i as int));
            methods = methods.saturating_add(self.documents[i].api_methods.len());
            objects = objects.saturating_add(self.documents[i].api_objects.len());
            i = i + 1;
        }
        assert(self.documents@.take(self.documents@.len() as int) =~= self.documents@);
        KnowledgeStats { total_documents: self.documents.len(), total_api_methods: methods, total_api_objects: objects }
    }
}

/// The number of API methods over a list of documents.
pub open spec fn methods_total(docs: Seq<Document>) -> nat
    decreases docs.len(),
{
    if docs.len() == 0 { 0 } else { methods_total(docs.drop_last()) + docs.last().api_methods@.len() }
}

/// The number of API objects over a list of documents.
pub open spec fn objects_total(docs: Seq<Document>) -> nat
    decreases docs.len(),
{
    if docs.len() == 0 { 0 } else { objects_total(docs.drop_last()) + docs.last().api_objects@.len() }
}

/// How a relationship kind reads in an answer.
pub open spec fn relationship_text(t: RelationshipType) -> Seq<char> {
    match t {
        RelationshipType::Uses => "использует"@,
        RelationshipType::Returns => "возвращает"@,
        RelationshipType::Contains => "содержит"@,
        RelationshipType::Extends => "расширяет"@,
    }
}

/// How a relationship kind reads in an answer (not its `Debug` name).
pub fn relationship_label(rel_type: &RelationshipType) -> (res: &'static str)
    ensures
        res@ == relationship_text(*rel_type),
{
    match rel_type {
        RelationshipType::Uses => "использует",
        RelationshipType::Returns => "возвращает",
        RelationshipType::Contains => "содержит",
        RelationshipType::Extends => "расширяет",
    }
}

/// Whether a source is available in the requested execution context. A method
/// of context `Both` is available in any; sections and objects have no context.
pub open spec fn context_matches(source: SearchSource, requested: Option<ExecutionContext>) -> bool {
    match requested {
        None => true,
        Some(r) => match source {
            SearchSource::ApiMethod { context, .. } => context == r || context == ExecutionContext::Both,
            _ => true,
        },
    }
}

/// Whether a source is available in the requested execution context.
pub fn matches_context(source: &SearchSource, requested: Option<&ExecutionContext>) -> (res: bool)
    ensures
        res == context_matches(*source, match requested { Some(r) => Some(*r), None => None }),
{
    let requested = match requested {
        None => {
            return true;
        },
        Some(r) => r,
    };
    match source {
        SearchSource::ApiMethod { context, .. } => *context == *requested || *context == ExecutionContext::Both,
        _ => true,
    }
}

/// A related item as text: name, relationship, description.
pub open spec fn related_view(r: RelatedItem) -> (Seq<char>, Seq<char>, Seq<char>) {
    (r.name@, r.relationship@, r.description@)
}

/// The relationships of a document that start at `name`, as related items.
pub open spec fn related_from(rels: Seq<Relationship>, name: Seq<char>) -> Seq<(Seq<char>, Seq<char>, Seq<char>)>
    decreases rels.len(),
{
    if rels.len() == 0 {
        Seq::empty()
    } else {
        related_from(rels.drop_last(), name) + if rels.last().from@ == name {
            seq![(
                rels.last().to@,
                relationship_text(rels.last().rel_type),
                match rels.last().description {
                    Some(d) => d@,
                    None => Seq::empty(),
                },
            )]
        } else {
            Seq::empty()
        }
    }
}

/// The related items of a source: `None` for a section, which names no entity,
/// and for an entity without relationships.
pub open spec fn related_model(doc: Document, source: SearchSource) -> Option<Seq<(Seq<char>, Seq<char>, Seq<char>)>> {
    let name = match source {
        SearchSource::ApiMethod { name, .. } => Some(name@),
        SearchSource::ApiObject { name, .. } => Some(name@),
        SearchSource::Section { .. } => None,
    };
    match name {
        None => None,
        Some(n) => if related_from(doc.relationships@, n).len() == 0 {
            None
        } else {
            Some(related_from(doc.relationships@, n))
        },
    }
}

/// The section with an id, searched depth first: a section before its
/// subsections, its subsections before its next sibling.
pub open spec fn find_in(sections: Seq<Section>, id: Seq<char>) -> Option<Section>
    decreases sections,
{
    if sections.len() == 0 {
        None
    } else if sections[0].id@ == id {
        Some(sections[0])
    } else {
        match find_in(sections[0].subsections@, id) {
            Some(s) => Some(s),
            None => find_in(sections.skip(1), id),
        }
    }
}

/// The first object with a name.
pub open spec fn first_object(os: Seq<ApiObject>, name: Seq<char>) -> Option<int> {
    if exists|i: int| 0 <= i < os.len() && os[i].name@ == name {
        Some(choose|i: int| 0 <= i < os.len() && os[i].name@ == name
            && forall|j: int| 0 <= j < i ==> os[j].name@ != name)
    } else {
        None
    }
}

/// What a unit id of a document points at: a section with that id, else the
/// method named after `method_`, else the object named after `object_`.
pub open spec fn source_of(doc: Document, id: Seq<char>) -> Option<SearchSource> {
    match find_in(doc.sections@, id) {
        Some(s) => Some(SearchSource::Section { version: doc.version, section_id: s.id, title: s.title, content: s.content }),
        None => {
            let by_method = if "method_"@.is_prefix_of(id) {
                match first_method(doc.api_methods@, id.skip(7)) {
                    Some(i) => Some(SearchSource::ApiMethod {
                        version: doc.version,
                        name: doc.api_methods@[i].name,
                        description: doc.api_methods@[i].description,
                        context: doc.api_methods@[i].context,
                    }),
                    None => None,
                }
            } else {
                None
            };
            match by_method {
                Some(m) => Some(m),
                None => if "object_"@.is_prefix_of(id) {
                    match first_object(doc.api_objects@, id.skip(7)) {
                        Some(i) => Some(SearchSource::ApiObject {
                            version: doc.version,
                            name: doc.api_objects@[i].name,
                            description: doc.api_objects@[i].description,
                        }),
                        None => None,
                    }
                } else {
                    None
                },
            }
        },
    }
}

/// A result as the model sees it: score text, source, related items.
pub type ResultModel = (Seq<char>, SearchSource, Option<Seq<(Seq<char>, Seq<char>, Seq<char>)>>);

/// The result a hit gives, if it gives one for this query.
pub open spec fn hit_result(docs: Seq<Document>, q_version: Option<Seq<char>>, q_context: Option<ExecutionContext>, include_related: bool, hit: Hit) -> Option<ResultModel> {
    if q_version is Some && q_version != Some(hit.doc_id@) {
        None
    } else {
        match doc_index(docs, hit.doc_id@) {
            None => None,
            Some(d) => match source_of(docs[d], hit.section_id@) {
                None => None,
                Some(src) => if !context_matches(src, q_context) {
                    None
                } else {
                    Some((hit.score@, src, if include_related { related_model(docs[d], src) } else { None }))
                },
            },
        }
    }
}

/// The results of a query over ranked hits, in rank order; collecting stops
/// once `max_results` are there (and after the first when it is 0).
pub open spec fn search_results(docs: Seq<Document>, q_version: Option<Seq<char>>, q_context: Option<ExecutionContext>, include_related: bool, max_results: nat, hits: Seq<Hit>) -> Seq<ResultModel>
    decreases hits.len(),
{
    if hits.len() == 0 {
        Seq::empty()
    } else {
        let prev = search_results(docs, q_version, q_context, include_related, max_results, hits.drop_last());
        if prev.len() >= (if max_results == 0 { 1 } else { max_results }) {
            prev
        } else {
            match hit_result(docs, q_version, q_context, include_related, hits.last()) {
                Some(r) => prev.push(r),
                None => prev,
            }
        }
    }
}

/// A result as the model sees it.
pub open spec fn result_view(r: SearchResult) -> ResultModel {
    (r.score@, r.source, match r.related {
        Some(v) => Some(v@.map_values(|i: RelatedItem| related_view(i))),
        None => None,
    })
}

fn find_section<'a>(sections: &'a [Section], id: &str) -> (res: Option<&'a Section>)
    ensures
        match find_in(sections@, id@) {
            Some(s) => res == Some(&s),
            None => res is None,
        },
    decreases sections@,
{
    let mut i: usize = 0;
    assert(sections@.skip(0) =~= sections@);
    while i < sections.len()
        invariant
            0 <= i <= sections@.len(),
            find_in(sections@, id@) == find_in(sections@.skip(i as int), id@),
        decreases sections@.len() - i,
    {
        let section = &sections[i];
        let ghost rest = sections@.skip(i as int);
        assert(rest[0] == sections@[i as int]);
        if same_text(section.id.as_str(), id) {
            return Some(section);
        }
        assert(decreases_to!(sections@ => sections@[i as int]));
        assert(decreases_to!(sections@[i as int] => sections@[i as int].subsections));
        assert(decreases_to!(sections@[i as int].subsections => sections@[i as int].subsections@));
        let inner = find_section(section.subsections.as_slice(), id);
        assert(rest.skip(1) =~= sections@.skip(i + 1));
        if inner.is_some() {
            return inner;
        }
        i = i + 1;
    }
    None
}

fn find_object<'a>(os: &'a Vec<ApiObject>, name: &[char]) -> (res: Option<&'a ApiObject>)
    ensures
        match first_object(os@, name@) {
            Some(i) => res == Some(&os@[i]),
            None => res is None,
        },
{
    let mut i: usize = 0;
    while i < os.len()
        invariant
            0 <= i <= os@.len(),
            forall|j: int| 0 <= j < i ==> os@[j].name@ != name@,
        decreases os@.len() - i,
    {
        let n = chars_of(os[i].name.as_str());
        if same_chars(&n, name) {
            proof {
                let c = choose|c: int| 0 <= c < os@.len() && os@[c].name@ == name@
                    && forall|j: int| 0 <= j < c ==> os@[j].name@ != name@;
                if c > i {
                    assert(os@[i as int].name@ == name@);
                }
            }
            return Some(&os[i]);
        }
        i = i + 1;
    }
    None
}

fn create_source(doc: &Document, section_id: &str) -> (res: Option<SearchSource>)
    ensures
        res == source_of(*doc, section_id@),
{
    if let Some(section) = find_section(doc.sections.as_slice(), section_id) {
        return Some(SearchSource::Section {
            version: doc.version.clone(),
            section_id: section.id.clone(),
            title: section.title.clone(),
            content: section.content.clone(),
        });
    }
    let id = chars_of(section_id);
    let method_p = chars_of("method_");
    let object_p = chars_of("object_");
    proof {
        reveal_strlit("method_");
        reveal_strlit("object_");
    }
    if starts_with_chars(&id, &method_p) {
        let rest = string_of(&id[7..id.len()]);
        assert(rest@ =~= section_id@.skip(7));
        if let Some(m) = find_method(&doc.api_methods, rest.as_str()) {
            return Some(SearchSource::ApiMethod {
                version: doc.version.clone(),
                name: m.name.clone(),
                description: m.description.clone(),
                context: m.context,
            });
        }
    }
    if starts_with_chars(&id, &object_p) {
        let rest = &id[7..id.len()];
        assert(rest@ =~= section_id@.skip(7));
        if let Some(o) = find_object(&doc.api_objects, rest) {
            return Some(SearchSource::ApiObject {
                version: doc.version.clone(),
                name: o.name.clone(),
                description: o.description.clone(),
            });
        }
    }
    None
}

fn related_of(doc: &Document, source: &SearchSource) -> (res: Option<Vec<RelatedItem>>)
    ensures
        match res {
            Some(v) => related_model(*doc, *source) == Some(v@.map_values(|i: RelatedItem| related_view(i))),
            None => related_model(*doc, *source) is None,
        },
{
    let name = match source {
        SearchSource::ApiMethod { name, .. } => name,
        SearchSource::ApiObject { name, .. } => name,
        SearchSource::Section { .. } => {
            return None;
        },
    };
    let mut out: Vec<RelatedItem> = Vec::new();
    let mut i: usize = 0;
    while i < doc.relationships.len()
        invariant
            0 <= i <= doc.relationships@.len(),
            out@.map_values(|r: RelatedItem| related_view(r)) == related_from(doc.relationships@.take(i as int), name@),
        decreases doc.relationships@.len() - i,
    {
        let rel = &doc.relationships[i];
        assert(doc.relationships@.take(i + 1).drop_last() =~= doc.relationships@.take(i as int));
        if same_text(rel.from.as_str(), name.as_str()) {
            let description = match &rel.description {
                Some(d) => d.clone(),
                None => String::new(),
            };
            let label = relationship_label(&rel.rel_type);
            let item = RelatedItem { name: rel.to.clone(), relationship: String::from_str(label), description };
            let ghost before = out@;
            out.push(item);
            assert(out@.map_values(|r: RelatedItem| related_view(r)) =~= before.map_values(|r: RelatedItem| related_view(r)).push(related_view(item)));
        }
        i = i + 1;
    }
    assert(doc.relationships@.take(doc.relationships@.len() as int) =~= doc.relationships@);
    if out.len() == 0 {
        None
    } else {
        Some(out)
    }
}

impl KnowledgeBase {
    /// The results of a query over the index's ranked hits: hits of other
    /// versions, of unknown units and of methods not available in the asked
    /// context are passed over; related entities are attached when asked.
    pub fn search(&self, query: &SearchQuery, hits: &[Hit]) -> (res: Vec<SearchResult>)
        ensures
            res@.map_values(|r: SearchResult| result_view(r)) == search_results(
                self.docs(),
                crate::platform::str_opt(query.version),
                query.context,
                query.include_related,
                query.max_results as nat,
                hits@,
            ),
            forall|k: int| 0 <= k < res@.len() ==> (#[trigger] res@[k]).highlights@.len() == 0,
    {
        let ghost qv = crate::platform::str_opt(query.version);
        let ghost cap: nat = if query.max_results == 0 { 1 } else { query.max_results as nat };
        let mut results: Vec<SearchResult> = Vec::new();
        let mut i: usize = 0;
        loop
            invariant_except_break
                0 <= i <= hits@.len(),
                results@.map_values(|r: SearchResult| result_view(r))
                    == search_results(self.docs(), qv, query.context, query.include_related, query.max_results as nat, hits@.take(i as int)),
                results@.len() < cap,
            invariant
                qv == crate::platform::str_opt(query.version),
                cap == (if query.max_results == 0 { 1 } else { query.max_results as nat }),
                forall|k: int| 0 <= k < results@.len() ==> (#[trigger] results@[k]).highlights@.len() == 0,
            ensures
                results@.map_values(|r: SearchResult| result_view(r))
                    == search_results(self.docs(), qv, query.context, query.include_related, query.max_results as nat, hits@),
                forall|k: int| 0 <= k < results@.len() ==> (#[trigger] results@[k]).highlights@.len() == 0,
            decreases hits@.len() - i,
        {
            if i >= hits.len() {
                assert(hits@.take(i as int) =~= hits@);
                break;
            }
            let hit = &hits[i];
            assert(hits@.take(i + 1).drop_last() =~= hits@.take(i as int));
            assert(hits@.take(i + 1).last() == *hit);
            let ghost prev = results@;
            let accepted = self.hit_result(query, hit);
            match accepted {
                Some(r) => {
                    results.push(r);
                    assert(results@.map_values(|r: SearchResult| result_view(r)) =~= prev.map_values(|r: SearchResult| result_view(r)).push(result_view(r)));
                    if results.len() >= query.max_results {
                        proof {
                            lemma_search_results_stay(self.docs(), qv, query.context, query.include_related, query.max_results as nat, hits@, i as int + 1);
                        }
                        break;
                    }
                },
                None => {},
            }
            i = i + 1;
        }
        results
    }

    fn hit_result(&self, query: &SearchQuery, hit: &Hit) -> (res: Option<SearchResult>)
        ensures
            match res {
                Some(r) => hit_result(self.docs(), crate::platform::str_opt(query.version), query.context, query.include_related, *hit) == Some(result_view(r))
                    && r.highlights@.len() == 0,
                None => hit_result(self.docs(), crate::platform::str_opt(query.version), query.context, query.include_related, *hit) is None,
            },
    {
        if let Some(v) = query.version {
            if !same_text(hit.doc_id.as_str(), v) {
                return None;
            }
        }
        let doc = match self.document(hit.doc_id.as_str()) {
            Some(d) => d,
            None => {
                return None;
            },
        };
        let source = match create_source(doc, hit.section_id.as_str()) {
            Some(s) => s,
            None => {
                return None;
            },
        };
        let requested = match &query.context {
            Some(c) => Some(c),
            None => None,
        };
        if !matches_context(&source, requested) {
            return None;
        }
        let related = if query.include_related { related_of(doc, &source) } else { None };
        Some(SearchResult { score: hit.score.clone(), source, highlights: Vec::new(), related })
    }
}

/// The version a search source comes from.
pub open spec fn source_version(source: SearchSource) -> Seq<char> {
    match source {
        SearchSource::Section { version, .. } => version@,
        SearchSource::ApiMethod { version, .. } => version@,
        SearchSource::ApiObject { version, .. } => version@,
    }
}

/// A search never gives more than `max_results` results (one when it is 0);
/// every result comes from the asked version, when one is asked, and is
/// available in the asked execution context.
pub proof fn search_respects_limit_version_and_context(
    docs: Seq<Document>,
    qv: Option<Seq<char>>,
    qc: Option<ExecutionContext>,
    rel: bool,
    max: nat,
    hits: Seq<Hit>,
)
    ensures
        search_results(docs, qv, qc, rel, max, hits).len() <= (if max == 0 { 1 } else { max }),
        forall|k: int| 0 <= k < search_results(docs, qv, qc, rel, max, hits).len() ==> {
            let r = #[trigger] search_results(docs, qv, qc, rel, max, hits)[k];
            &&& context_matches(r.1, qc)
            &&& (qv matches Some(v) ==> source_version(r.1) == v)
        },
    decreases hits.len(),
{
    if hits.len() > 0 {
        search_respects_limit_version_and_context(docs, qv, qc, rel, max, hits.drop_last());
        let prev = search_results(docs, qv, qc, rel, max, hits.drop_last());
        let cur = search_results(docs, qv, qc, rel, max, hits);
        if prev.len() < (if max == 0 { 1 } else { max }) {
            match hit_result(docs, qv, qc, rel, hits.last()) {
                Some(r) => {
                    let hit = hits.last();
                    let d = doc_index(docs, hit.doc_id@).unwrap();
                    assert(docs[d].version@ == hit.doc_id@);
                    assert(source_version(r.1) == docs[d].version@);
                    assert forall|k: int| 0 <= k < cur.len() implies {
                        let x = #[trigger] cur[k];
                        &&& context_matches(x.1, qc)
                        &&& (qv matches Some(v) ==> source_version(x.1) == v)
                    } by {
                        if k < prev.len() {
                            assert(cur[k] == prev[k]);
                        }
                    }
                },
                None => {},
            }
        }
    }
}

/// Once the cap is reached, later hits change nothing.
proof fn lemma_search_results_stay(
    docs: Seq<Document>,
    qv: Option<Seq<char>>,
    qc: Option<ExecutionContext>,
    rel: bool,
    max: nat,
    hits: Seq<Hit>,
    k: int,
)
    requires
        0 <= k <= hits.len(),
        search_results(docs, qv, qc, rel, max, hits.take(k)).len() >= (if max == 0 { 1 } else { max }),
    ensures
        search_results(docs, qv, qc, rel, max, hits) == search_results(docs, qv, qc, rel, max, hits.take(k)),
    decreases hits.len() - k,
{
    if k < hits.len() {
        assert(hits.take(k + 1).drop_last() =~= hits.take(k));
        lemma_search_results_stay(docs, qv, qc, rel, max, hits, k + 1);
    } else {
        assert(hits.take(k) =~= hits);
    }
}

} // verus!
