//! The target graph: a modeled per-document view of the annotation store.
//!
//! The store itself (import, queries, transactional updates) is an external
//! collaborator; what the merge logic reads of one document — the token-order
//! relation, the coverage edges and the node annotations — is handed over as
//! plain values and modeled here. Graph node identifiers are numeric; graph
//! node names form their own name space, wrapped in [`NodeName`].

use vstd::prelude::*;

use crate::assoc::{has_key, map_lookup, multi_key};
use crate::error::{ErrView, MergeError};
use crate::text::{spec_first_index, str_eq};
use vstd::string::StrSliceExecFns;

verus! {

/// A target-graph node name.
pub struct NodeName(pub String);

impl View for NodeName {
    type V = Seq<char>;

    open spec fn view(&self) -> Seq<char> {
        self.0@
    }
}

impl NodeName {
    /// The name as an owned string.
    pub fn into_owned_name(self) -> (r: String)
        ensures
            r@ == self@,
    {
        self.0
    }

    /// The name as a string slice.
    pub fn as_str(&self) -> (r: &str)
        ensures
            r@ == self@,
    {
        self.0.as_str()
    }
}

/// The corpora resident in the store, by name.
pub struct Storage {
    corpus_names: Vec<String>,
}

impl View for Storage {
    type V = Seq<Seq<char>>;

    closed spec fn view(&self) -> Seq<Seq<char>> {
        self.corpus_names.deep_view()
    }
}

impl Storage {
    /// Records the names of the imported corpora.
    pub fn new(corpus_names: Vec<String>) -> (r: Storage)
        ensures
            r@ == corpus_names.deep_view(),
    {
        Storage { corpus_names }
    }

    /// One handle per resident corpus, in import order.
    pub fn corpora(&self) -> (r: Vec<Corpus>)
        ensures
            r.deep_view() == self@,
    {
        let mut out: Vec<Corpus> = Vec::new();
        let mut i: usize = 0;
        proof {
            assert(out.deep_view() =~= self@.take(0));
        }
        while i < self.corpus_names.len()
            invariant
                i <= self.corpus_names@.len(),
                self@.len() == self.corpus_names@.len(),
                out.deep_view() == self@.take(i as int),
            decreases self.corpus_names@.len() - i,
        {
            let name = self.corpus_names[i].clone();
            out.push(Corpus { name });
            proof {
                assert(out.deep_view() =~= self@.take(i as int).push(self@[i as int]));
                assert(self@.take(i as int).push(self@[i as int]) =~= self@.take(i as int + 1));
            }
            i += 1;
        }
        proof {
            assert(self@.take(self@.len() as int) =~= self@);
        }
        out
    }
}

/// One corpus of the store.
pub struct Corpus {
    name: String,
}

impl View for Corpus {
    type V = Seq<char>;

    closed spec fn view(&self) -> Seq<char> {
        self.name@
    }
}

impl DeepView for Corpus {
    type V = Seq<char>;

    open spec fn deep_view(&self) -> Seq<char> {
        self.view()
    }
}

impl Corpus {
    /// The corpus name.
    pub fn name(&self) -> (r: &str)
        ensures
            r@ == self@,
    {
        self.name.as_str()
    }
}

/// The token-order relation of one document: its root candidates and its
/// successor edges, as the store reports them.
pub struct OrderRelation {
    pub roots: Vec<u64>,
    pub edges: Vec<(u64, u64)>,
}

/// The mathematical content of an [`OrderRelation`].
pub ghost struct OrderView {
    pub roots: Seq<u64>,
    pub edges: Seq<(u64, u64)>,
}

impl View for OrderRelation {
    type V = OrderView;

    open spec fn view(&self) -> OrderView {
        OrderView { roots: self.roots@, edges: self.edges@ }
    }
}

/// The modeled view of one document of the target graph.
pub struct Document {
    node_name: String,
    order: Option<OrderRelation>,
    coverage: Vec<(u64, u64)>,
    annos: Vec<((u64, String, String), String)>,
}

/// The mathematical content of a [`Document`]: the document node name, the
/// order relation if present, the coverage edges as (covering node, token)
/// pairs in component order, and the node annotations keyed by node,
/// namespace and name.
pub ghost struct GraphDocView {
    pub node_name: Seq<char>,
    pub order: Option<OrderView>,
    pub coverage: Seq<(u64, u64)>,
    pub annos: Seq<((u64, Seq<char>, Seq<char>), Seq<char>)>,
}

/// The view of the annotation table.
pub open spec fn graph_annos_view(m: Seq<((u64, String, String), String)>) -> Seq<
    ((u64, Seq<char>, Seq<char>), Seq<char>),
> {
    m.map_values(|p: ((u64, String, String), String)| ((p.0.0, p.0.1@, p.0.2@), p.1@))
}

impl View for Document {
    type V = GraphDocView;

    closed spec fn view(&self) -> GraphDocView {
        GraphDocView {
            node_name: self.node_name@,
            order: match self.order {
                Some(o) => Some(o@),
                None => None,
            },
            coverage: self.coverage@,
            annos: graph_annos_view(self.annos@),
        }
    }
}

/// The value of one annotation of one node.
pub open spec fn graph_anno_of(d: GraphDocView, id: u64, ns: Seq<char>, name: Seq<char>) -> Option<
    Seq<char>,
> {
    map_lookup(d.annos, (id, ns, name))
}

/// The canonical name of a node: its name annotation in the store's own
/// namespace.
pub open spec fn spec_name_of(d: GraphDocView, id: u64) -> Option<Seq<char>> {
    graph_anno_of(d, id, "annis"@, "node_name"@)
}

/// Whether a node carries the segmentation annotation.
pub open spec fn has_seg(d: GraphDocView, id: u64, seg: Seq<char>) -> bool {
    graph_anno_of(d, id, "default_ns"@, seg) is Some
}

/// The covering nodes of a token, in coverage-edge order.
pub open spec fn covering(cov: Seq<(u64, u64)>, t: u64) -> Seq<u64>
    decreases cov.len(),
{
    if cov.len() == 0 {
        Seq::empty()
    } else {
        let rest = covering(cov.drop_last(), t);
        if cov.last().1 == t {
            rest.push(cov.last().0)
        } else {
            rest
        }
    }
}

/// Appends to `acc` every covering node that carries the segmentation
/// annotation and was not collected yet, in first-appearance order.
pub open spec fn add_covering(d: GraphDocView, seg: Seq<char>, acc: Seq<u64>, cs: Seq<u64>) -> Seq<
    u64,
>
    decreases cs.len(),
{
    if cs.len() == 0 {
        acc
    } else {
        let acc2 = if has_seg(d, cs[0], seg) && !acc.contains(cs[0]) {
            acc.push(cs[0])
        } else {
            acc
        };
        add_covering(d, seg, acc2, cs.drop_first())
    }
}

/// The walk along the order relation from `cur`, collecting segmentation
/// nodes; `fuel` bounds the number of successor steps, which only a
/// revisited token could exhaust.
pub open spec fn spec_walk(
    d: GraphDocView,
    edges: Seq<(u64, u64)>,
    seg: Seq<char>,
    cur: u64,
    acc: Seq<u64>,
    fuel: nat,
) -> Result<Seq<u64>, ErrView>
    decreases fuel,
{
    let acc2 = add_covering(d, seg, acc, covering(d.coverage, cur));
    if multi_key(edges, cur) {
        Err(ErrView::MultipleOrderingSuccessors(cur))
    } else {
        match map_lookup(edges, cur) {
            None => Ok(acc2),
            Some(next) => if fuel == 0 {
                Err(ErrView::CyclicOrdering)
            } else {
                spec_walk(d, edges, seg, next, acc2, (fuel - 1) as nat)
            },
        }
    }
}

/// The segmentation nodes of a document in document order, or the error of
/// the ordering walk.
pub open spec fn spec_segmentation_order(d: GraphDocView, seg: Seq<char>) -> Result<
    Seq<u64>,
    ErrView,
> {
    match d.order {
        None => Err(ErrView::MissingOrderingComponent),
        Some(ord) => if ord.roots.len() == 0 {
            Err(ErrView::MissingOrderingRoot)
        } else if ord.roots.len() > 1 {
            Err(ErrView::MultipleOrderingRoots)
        } else {
            spec_walk(d, ord.edges, seg, ord.roots[0], Seq::empty(), ord.edges.len())
        },
    }
}

/// Whether `x` occurs in `v`.
fn contains_u64(v: &Vec<u64>, x: u64) -> (r: bool)
    ensures
        r == v@.contains(x),
{
    let mut i: usize = 0;
    while i < v.len()
        invariant
            i <= v@.len(),
            forall|j: int| 0 <= j < i ==> v@[j] != x,
        decreases v@.len() - i,
    {
        if v[i] == x {
            return true;
        }
        i += 1;
    }
    false
}

/// The single order successor of a token, if the relation is a chain there.
fn successor(edges: &Vec<(u64, u64)>, t: u64) -> (r: Result<Option<u64>, MergeError>)
    ensures
        match r {
            Ok(Some(n)) => !multi_key(edges@, t) && map_lookup(edges@, t) == Some(n),
            Ok(None) => !multi_key(edges@, t) && map_lookup(edges@, t) is None,
            Err(e) => multi_key(edges@, t) && e@ == ErrView::MultipleOrderingSuccessors(t),
        },
{
    let mut found: Option<u64> = None;
    let ghost mut found_at: int = 0;
    let mut i: usize = 0;
    while i < edges.len()
        invariant
            i <= edges@.len(),
            match found {
                Some(n) => 0 <= found_at < i && edges@[found_at].0 == t && edges@[found_at].1 == n
                    && (forall|j: int| 0 <= j < i && j != found_at ==> edges@[j].0 != t),
                None => forall|j: int| 0 <= j < i ==> edges@[j].0 != t,
            },
        decreases edges@.len() - i,
    {
        if edges[i].0 == t {
            match found {
                Some(_) => {
                    proof {
                        assert(multi_key(edges@, t)) by {
                            assert(edges@[found_at].0 == t && edges@[i as int].0 == t);
                        }
                    }
                    return Err(MergeError::MultipleOrderingSuccessors { token: t });
                },
                None => {
                    found = Some(edges[i].1);
                    proof {
                        found_at = i as int;
                    }
                },
            }
        }
        i += 1;
    }
    proof {
        match found {
            Some(n) => {
                crate::assoc::lemma_lookup_at_first(edges@, found_at);
                if multi_key(edges@, t) {
                    let (j1, j2) = choose|j1: int, j2: int|
                        0 <= j1 < j2 < edges@.len() && edges@[j1].0 == t && edges@[j2].0 == t;
                    assert(j1 == found_at && j2 == found_at);
                    assert(false);
                }
            },
            None => {
                if has_key(edges@, t) {
                    let j = choose|j: int| 0 <= j < edges@.len() && edges@[j].0 == t;
                    assert(false);
                }
                crate::assoc::lemma_lookup_none(edges@, t);
            },
        }
    }
    match found {
        Some(n) => Ok(Some(n)),
        None => Ok(None),
    }
}

impl Document {
    /// Assembles the modeled view of one document.
    pub fn new(
        node_name: String,
        order: Option<OrderRelation>,
        coverage: Vec<(u64, u64)>,
        annos: Vec<((u64, String, String), String)>,
    ) -> (r: Document)
        ensures
            r@.node_name == node_name@,
            r@.order == (match order {
                Some(o) => Some(o@),
                None => None::<OrderView>,
            }),
            r@.coverage == coverage@,
            r@.annos == graph_annos_view(annos@),
    {
        Document { node_name, order, coverage, annos }
    }

    /// The document node's name.
    pub fn node_name(&self) -> (r: NodeName)
        ensures
            r@ == self@.node_name,
    {
        NodeName(self.node_name.clone())
    }

    /// The document name: what follows the first path separator of the
    /// document node's name.
    pub fn doc_name(&self) -> (r: Result<&str, MergeError>)
        ensures
            match r {
                Ok(s) => {
                    &&& spec_first_index(self@.node_name, '/') is Some
                    &&& s@ == self@.node_name.skip(
                        spec_first_index(self@.node_name, '/')->Some_0 + 1,
                    )
                },
                Err(e) => spec_first_index(self@.node_name, '/') is None && e@
                    == ErrView::InvalidDocumentNodeName(self@.node_name),
            },
    {
        let chars = crate::text::str_to_chars(self.node_name.as_str());
        match crate::text::first_index_of(&chars, '/') {
            Some(i) => {
                let s = self.node_name.as_str();
                let len = s.unicode_len();
                let r = s.substring_char(i + 1, len);
                proof {
                    assert(r@ =~= self@.node_name.skip(i + 1));
                }
                Ok(r)
            },
            None => Err(
                MergeError::InvalidDocumentNodeName { node_name: self.node_name.clone() },
            ),
        }
    }

    /// The value of one annotation of one node.
    pub fn anno_value(&self, id: u64, ns: &str, name: &str) -> (r: Option<&String>)
        ensures
            match r {
                Some(v) => graph_anno_of(self@, id, ns@, name@) == Some(v@),
                None => graph_anno_of(self@, id, ns@, name@) is None,
            },
    {
        let mut i: usize = 0;
        while i < self.annos.len()
            invariant
                i <= self.annos@.len(),
                forall|j: int|
                    0 <= j < i ==> graph_annos_view(self.annos@)[j].0 != (id, ns@, name@),
            decreases self.annos@.len() - i,
        {
            let hit = self.annos[i].0.0 == id && str_eq(self.annos[i].0.1.as_str(), ns) && str_eq(
                self.annos[i].0.2.as_str(),
                name,
            );
            if hit {
                proof {
                    crate::assoc::lemma_lookup_at_first(graph_annos_view(self.annos@), i as int);
                }
                return Some(&self.annos[i].1);
            }
            i += 1;
        }
        proof {
            if has_key(graph_annos_view(self.annos@), (id, ns@, name@)) {
                let j = choose|j: int|
                    0 <= j < graph_annos_view(self.annos@).len() && graph_annos_view(
                        self.annos@,
                    )[j].0 == (id, ns@, name@);
                assert(false);
            }
            crate::assoc::lemma_lookup_none(graph_annos_view(self.annos@), (id, ns@, name@));
        }
        None
    }

    /// The canonical name of a node, or the error that it has none.
    pub fn name_of(&self, id: u64) -> (r: Result<NodeName, MergeError>)
        ensures
            match r {
                Ok(n) => spec_name_of(self@, id) == Some(n@),
                Err(e) => spec_name_of(self@, id) is None && e@ == ErrView::MissingNodeName(id),
            },
    {
        match self.anno_value(id, "annis", "node_name") {
            Some(v) => Ok(NodeName(v.clone())),
            None => Err(MergeError::MissingNodeName { node: id }),
        }
    }

    /// The covering nodes of a token, in coverage-edge order.
    fn covering_of(&self, t: u64) -> (r: Vec<u64>)
        ensures
            r@ == covering(self@.coverage, t),
    {
        let mut out: Vec<u64> = Vec::new();
        proof {
            assert(self@.coverage.take(0) =~= Seq::<(u64, u64)>::empty());
        }
        let mut i: usize = 0;
        while i < self.coverage.len()
            invariant
                i <= self.coverage@.len(),
                self@.coverage == self.coverage@,
                out@ == covering(self.coverage@.take(i as int), t),
            decreases self.coverage@.len() - i,
        {
            proof {
                assert(self.coverage@.take(i as int + 1).drop_last() =~= self.coverage@.take(
                    i as int,
                ));
                assert(self.coverage@.take(i as int + 1).last() == self.coverage@[i as int]);
            }
            if self.coverage[i].1 == t {
                out.push(self.coverage[i].0);
            }
            i += 1;
        }
        proof {
            assert(self.coverage@.take(self.coverage@.len() as int) =~= self.coverage@);
        }
        out
    }

    /// Extends `acc` with the fresh segmentation nodes among `cs`.
    fn add_covering_exec(&self, seg: &str, acc: &mut Vec<u64>, cs: &Vec<u64>)
        ensures
            final(acc)@ == add_covering(self@, seg@, old(acc)@, cs@),
    {
        let mut i: usize = 0;
        proof {
            assert(cs@.skip(0) =~= cs@);
        }
        while i < cs.len()
            invariant
                i <= cs@.len(),
                add_covering(self@, seg@, acc@, cs@.skip(i as int)) == add_covering(
                    self@,
                    seg@,
                    old(acc)@,
                    cs@,
                ),
            decreases cs@.len() - i,
        {
            proof {
                assert(cs@.skip(i as int).drop_first() =~= cs@.skip(i as int + 1));
                assert(cs@.skip(i as int)[0] == cs@[i as int]);
            }
            let c = cs[i];
            let fresh = self.anno_value(c, "default_ns", seg).is_some() && !contains_u64(acc, c);
            if fresh {
                acc.push(c);
            }
            i += 1;
        }
        proof {
            assert(cs@.skip(cs@.len() as int) =~= Seq::<u64>::empty());
        }
    }

    /// Walks the token-order relation and yields, in document order, every
    /// node that covers a token and carries the segmentation annotation,
    /// each once at its first covered token.
    pub fn segmentation_nodes_in_order(&self, segmentation: &str) -> (r: Result<
        Vec<u64>,
        MergeError,
    >)
        ensures
            match r {
                Ok(ids) => spec_segmentation_order(self@, segmentation@) == Ok::<
                    Seq<u64>,
                    ErrView,
                >(ids@),
                Err(e) => spec_segmentation_order(self@, segmentation@) == Err::<
                    Seq<u64>,
                    ErrView,
                >(e@),
            },
    {
        let ord = match &self.order {
            Some(ord) => ord,
            None => {
                return Err(MergeError::MissingOrderingComponent);
            },
        };
        if ord.roots.len() == 0 {
            return Err(MergeError::MissingOrderingRoot);
        }
        if ord.roots.len() > 1 {
            return Err(MergeError::MultipleOrderingRoots);
        }
        let mut acc: Vec<u64> = Vec::new();
        let mut cur: u64 = ord.roots[0];
        let mut fuel: usize = ord.edges.len();
        proof {
            assert(acc@ =~= Seq::<u64>::empty());
        }
        loop
            invariant
                spec_walk(self@, ord.edges@, segmentation@, cur, acc@, fuel as nat)
                    == spec_segmentation_order(self@, segmentation@),
                self@.order == Some(ord@),
            decreases fuel,
        {
            let cov = self.covering_of(cur);
            self.add_covering_exec(segmentation, &mut acc, &cov);
            match successor(&ord.edges, cur) {
                Err(e) => {
                    return Err(e);
                },
                Ok(None) => {
                    return Ok(acc);
                },
                Ok(Some(next)) => {
                    if fuel == 0 {
                        return Err(MergeError::CyclicOrdering);
                    }
                    fuel -= 1;
                    cur = next;
                },
            }
        }
    }
}

} // verus!
