//! The alignment of the two token streams and the merge of the dominance
//! structure into the target graph.
//!
//! Per document, the tree source's ordered words and the target graph's
//! ordered segmentation nodes are paired positionally; the shared annotation
//! values cross-validate the pairing, and the resulting name correspondence
//! drives a fixed-point worklist that grows the merged node and edge set
//! upward from the aligned words.

use vstd::prelude::*;
use vstd::string::StringExecFns;

use crate::assoc::map_lookup;
use crate::error::{ErrView, MergeError};
use crate::inbound::annis;
use crate::inbound::ttl;
use crate::inbound::ttl::{
    anno_of, doc_wf, is_word_spec, names_view, AnnoKey, DocView,
};
use crate::outbound::annis::{AnnotationComponentType, EventView, Update};
use crate::rem::spec_sanitize;
use crate::text::{
    chars_eq, chars_to_string, last_index_of, replace_chars, spec_last_index, spec_replace,
    str_to_chars,
};

verus! {

/// The quote entity of the tree source.
pub open spec fn quot_entity() -> Seq<char> {
    seq!['&', 'q', 'u', 'o', 't', ';']
}

/// What unescaping a tree-source value yields: every quote entity becomes a
/// quote character.
pub open spec fn spec_unescape(s: Seq<char>) -> Seq<char> {
    spec_replace(s, quot_entity(), seq!['"'])
}

/// Replaces every quote entity of a tree-source value by a quote character.
fn unescape_quot(s: &str) -> (r: Vec<char>)
    ensures
        r@ == spec_unescape(s@),
{
    let cs = str_to_chars(s);
    let mut pat: Vec<char> = Vec::new();
    pat.push('&');
    pat.push('q');
    pat.push('u');
    pat.push('o');
    pat.push('t');
    pat.push(';');
    let mut rep: Vec<char> = Vec::new();
    rep.push('"');
    proof {
        assert(pat@ =~= quot_entity());
        assert(rep@ =~= seq!['"']);
    }
    replace_chars(&cs, &pat, &rep)
}

/// An absent value compares as the empty string in an error report.
pub open spec fn opt_or_empty(o: Option<Seq<char>>) -> Seq<char> {
    match o {
        Some(v) => v,
        None => Seq::empty(),
    }
}

/// Whether one shared annotation agrees between an aligned word and its
/// graph segment: the unescaped tree value and the sanitized graph value
/// must be equal, absence on both sides included.
pub open spec fn anno_matches(
    td: DocView,
    gd: annis::GraphDocView,
    w: Seq<char>,
    seg: u64,
    key: AnnoKey,
    gname: Seq<char>,
) -> bool {
    (match anno_of(td, w, key) {
        Some(v) => Some(spec_unescape(v)),
        None => None,
    }) == spec_sanitize(annis::graph_anno_of(gd, seg, "annotation"@, gname))
}

/// The error a failed annotation check reports.
pub open spec fn mismatch_err(
    td: DocView,
    gd: annis::GraphDocView,
    w: Seq<char>,
    seg: u64,
    key: AnnoKey,
    gname: Seq<char>,
    graph_node: Seq<char>,
) -> ErrView {
    ErrView::SanityMismatch(
        gname,
        w,
        graph_node,
        opt_or_empty(
            match anno_of(td, w, key) {
                Some(v) => Some(spec_unescape(v)),
                None => None,
            },
        ),
        opt_or_empty(spec_sanitize(annis::graph_anno_of(gd, seg, "annotation"@, gname))),
    )
}

/// One aligned pair: the graph segment must carry a name, and the four
/// shared annotation kinds must agree; the result is the graph name the word
/// maps to.
pub open spec fn check_pair(td: DocView, gd: annis::GraphDocView, w: Seq<char>, seg: u64) -> Result<
    Seq<char>,
    ErrView,
> {
    match annis::spec_name_of(gd, seg) {
        None => Err(ErrView::MissingNodeName(seg)),
        Some(gname) => if !anno_matches(td, gd, w, seg, AnnoKey::Infl, "inflection"@) {
            Err(mismatch_err(td, gd, w, seg, AnnoKey::Infl, "inflection"@, gname))
        } else if !anno_matches(td, gd, w, seg, AnnoKey::Lemma, "lemma"@) {
            Err(mismatch_err(td, gd, w, seg, AnnoKey::Lemma, "lemma"@, gname))
        } else if !anno_matches(td, gd, w, seg, AnnoKey::Word, "norm"@) {
            Err(mismatch_err(td, gd, w, seg, AnnoKey::Word, "norm"@, gname))
        } else if !anno_matches(td, gd, w, seg, AnnoKey::Pos, "pos"@) {
            Err(mismatch_err(td, gd, w, seg, AnnoKey::Pos, "pos"@, gname))
        } else {
            Ok(gname)
        },
    }
}

/// The positional pairing from index `i` on: pairing continues while words
/// remain; a word without a counterpart is fatal; surplus segments are
/// accepted.
pub open spec fn align_from(
    td: DocView,
    gd: annis::GraphDocView,
    words: Seq<Seq<char>>,
    segs: Seq<u64>,
    i: int,
) -> Result<Seq<(Seq<char>, Seq<char>)>, ErrView>
    decreases words.len() - i,
    when 0 <= i
{
    if i >= words.len() {
        Ok(Seq::empty())
    } else if i >= segs.len() {
        Err(ErrView::UnalignedWord(words[i]))
    } else {
        match check_pair(td, gd, words[i], segs[i]) {
            Err(e) => Err(e),
            Ok(gname) => match align_from(td, gd, words, segs, i + 1) {
                Err(e) => Err(e),
                Ok(rest) => Ok(seq![(words[i], gname)] + rest),
            },
        }
    }
}

/// The whole correspondence of one document: the ordered words against the
/// ordered segmentation nodes.
pub open spec fn spec_mapper(td: DocView, gd: annis::GraphDocView) -> Result<
    (Seq<char>, Seq<(Seq<char>, Seq<char>)>),
    ErrView,
> {
    match ttl::spec_word_order(td) {
        Err(e) => Err(e),
        Ok(words) => match annis::spec_segmentation_order(gd, "tok_anno"@) {
            Err(e) => Err(e),
            Ok(segs) => match align_from(td, gd, words, segs, 0) {
                Err(e) => Err(e),
                Ok(pairs) => Ok((gd.node_name, pairs)),
            },
        },
    }
}

/// The one-to-one correspondence from tree-source words to graph names,
/// with the document's graph name for naming merged non-words.
#[derive(Debug)]
pub struct NodeNameMapper {
    annis_doc_node_name: String,
    mapping: Vec<(ttl::NodeName, String)>,
}

/// Spec-level image of a [`NodeNameMapper`].
pub ghost struct MapperView {
    pub doc_node_name: Seq<char>,
    pub mapping: Seq<(Seq<char>, Seq<char>)>,
}

impl View for NodeNameMapper {
    type V = MapperView;

    closed spec fn view(&self) -> MapperView {
        MapperView {
            doc_node_name: self.annis_doc_node_name@,
            mapping: ttl::kv_view(self.mapping@),
        }
    }
}

/// Checks one shared annotation of one aligned pair.
fn check_anno(
    ttl_doc: &ttl::Document,
    annis_doc: &annis::Document,
    w: &ttl::NodeName,
    seg: u64,
    gname: &String,
    key: AnnoKey,
    aname: &str,
) -> (r: Result<(), MergeError>)
    ensures
        match r {
            Ok(()) => anno_matches(ttl_doc@, annis_doc@, w@, seg, key, aname@),
            Err(e) => !anno_matches(ttl_doc@, annis_doc@, w@, seg, key, aname@) && e@
                == mismatch_err(ttl_doc@, annis_doc@, w@, seg, key, aname@, gname@),
        },
{
    let tree_value: Option<Vec<char>> = match ttl_doc.anno(w, key) {
        Some(v) => Some(unescape_quot(v.as_str())),
        None => None,
    };
    let graph_raw: Option<&String> = annis_doc.anno_value(seg, crate::rem::annotation_ns(), aname);
    let graph_value: Option<String> = match graph_raw {
        Some(v) => crate::rem::sanitize_anno(Some(v.as_str())),
        None => crate::rem::sanitize_anno(None),
    };
    let matches_exec: bool = match (&tree_value, &graph_value) {
        (Some(t), Some(g)) => {
            let gc = str_to_chars(g.as_str());
            chars_eq(t, &gc)
        },
        (None, None) => true,
        _ => false,
    };
    if matches_exec {
        Ok(())
    } else {
        let tree_str: String = match &tree_value {
            Some(t) => chars_to_string(t),
            None => String::new(),
        };
        let graph_str: String = match graph_value {
            Some(g) => g,
            None => String::new(),
        };
        Err(
            MergeError::SanityMismatch {
                anno_name: String::from_str(aname),
                tree_node: w.clone().0,
                graph_node: gname.clone(),
                tree_value: tree_str,
                graph_value: graph_str,
            },
        )
    }
}

impl NodeNameMapper {
    /// Builds the correspondence: pairs the two ordered sequences
    /// positionally and cross-validates the four shared annotation kinds.
    pub fn new(ttl_doc: &ttl::Document, annis_doc: &annis::Document) -> (r: Result<
        NodeNameMapper,
        MergeError,
    >)
        requires
            doc_wf(ttl_doc@),
        ensures
            match r {
                Ok(m) => spec_mapper(ttl_doc@, annis_doc@) == Ok::<
                    (Seq<char>, Seq<(Seq<char>, Seq<char>)>),
                    ErrView,
                >((m@.doc_node_name, m@.mapping)),
                Err(e) => spec_mapper(ttl_doc@, annis_doc@) == Err::<
                    (Seq<char>, Seq<(Seq<char>, Seq<char>)>),
                    ErrView,
                >(e@),
            },
    {
        let words = match ttl_doc.word_nodes_in_order() {
            Ok(w) => w,
            Err(e) => {
                return Err(e);
            },
        };
        let segs = match annis_doc.segmentation_nodes_in_order(crate::rem::tok_anno()) {
            Ok(s) => s,
            Err(e) => {
                return Err(e);
            },
        };
        let ghost wv = names_view(words@);
        let ghost sv = segs@;
        let mut mapping: Vec<(ttl::NodeName, String)> = Vec::new();
        let mut i: usize = 0;
        proof {
            assert(ttl::kv_view(mapping@) =~= Seq::<(Seq<char>, Seq<char>)>::empty());
        }
        while i < words.len()
            invariant
                i <= words@.len(),
                wv == names_view(words@),
                sv == segs@,
                wv.len() == words@.len(),
                sv.len() == segs@.len(),
                doc_wf(ttl_doc@),
                ttl::spec_word_order(ttl_doc@) == Ok::<Seq<Seq<char>>, ErrView>(wv),
                annis::spec_segmentation_order(annis_doc@, "tok_anno"@) == Ok::<
                    Seq<u64>,
                    ErrView,
                >(sv),
                align_from(ttl_doc@, annis_doc@, wv, sv, 0) == (match align_from(
                    ttl_doc@,
                    annis_doc@,
                    wv,
                    sv,
                    i as int,
                ) {
                    Err(e) => Err::<Seq<(Seq<char>, Seq<char>)>, ErrView>(e),
                    Ok(rest) => Ok::<Seq<(Seq<char>, Seq<char>)>, ErrView>(
                        ttl::kv_view(mapping@) + rest,
                    ),
                }),
            decreases words@.len() - i,
        {
            if i >= segs.len() {
                return Err(MergeError::UnalignedWord { tree_node: words[i].clone().0 });
            }
            let seg = segs[i];
            let w = &words[i];
            let gname = match annis_doc.name_of(seg) {
                Ok(n) => n.into_owned_name(),
                Err(e) => {
                    return Err(e);
                },
            };
            match check_anno(ttl_doc, annis_doc, w, seg, &gname, AnnoKey::Infl, "inflection") {
                Ok(()) => {},
                Err(e) => {
                    return Err(e);
                },
            }
            match check_anno(ttl_doc, annis_doc, w, seg, &gname, AnnoKey::Lemma, "lemma") {
                Ok(()) => {},
                Err(e) => {
                    return Err(e);
                },
            }
            match check_anno(ttl_doc, annis_doc, w, seg, &gname, AnnoKey::Word, "norm") {
                Ok(()) => {},
                Err(e) => {
                    return Err(e);
                },
            }
            match check_anno(ttl_doc, annis_doc, w, seg, &gname, AnnoKey::Pos, "pos") {
                Ok(()) => {},
                Err(e) => {
                    return Err(e);
                },
            }
            let ghost before = ttl::kv_view(mapping@);
            mapping.push((w.clone(), gname));
            proof {
                assert(ttl::kv_view(mapping@) =~= before.push((wv[i as int], mapping@.last().1@)));
                if align_from(ttl_doc@, annis_doc@, wv, sv, i as int + 1) is Ok {
                    let rest = align_from(ttl_doc@, annis_doc@, wv, sv, i as int + 1)->Ok_0;
                    assert(before.push((wv[i as int], mapping@.last().1@)) + rest =~= before + (
                    seq![(wv[i as int], mapping@.last().1@)] + rest));
                }
            }
            i += 1;
        }
        let mapper = NodeNameMapper {
            annis_doc_node_name: annis_doc.node_name().into_owned_name(),
            mapping,
        };
        Ok(mapper)
    }

    /// The number of aligned pairs.
    pub fn aligned_count(&self) -> (r: usize)
        ensures
            r == self@.mapping.len(),
    {
        self.mapping.len()
    }

    /// The graph name a tree node is realized under: an aligned word reuses
    /// its graph name; a non-word combines the document's graph name with
    /// the trailing path segment of its own identifier.
    pub fn annis_node_name(&self, ttl_doc: &ttl::Document, node: &ttl::NodeName) -> (r: Result<
        String,
        MergeError,
    >)
        ensures
            match r {
                Ok(g) => spec_annis_name(self@, ttl_doc@, node@) == Ok::<Seq<char>, ErrView>(g@),
                Err(e) => spec_annis_name(self@, ttl_doc@, node@) == Err::<Seq<char>, ErrView>(
                    e@,
                ),
            },
    {
        if ttl_doc.is_word(node) {
            let mut i: usize = 0;
            while i < self.mapping.len()
                invariant
                    i <= self.mapping@.len(),
                    is_word_spec(ttl_doc@, node@),
                    forall|j: int| 0 <= j < i ==> ttl::kv_view(self.mapping@)[j].0 != node@,
                decreases self.mapping@.len() - i,
            {
                let hit = self.mapping[i].0 == *node;
                if hit {
                    proof {
                        crate::assoc::lemma_lookup_at_first(
                            ttl::kv_view(self.mapping@),
                            i as int,
                        );
                    }
                    return Ok(self.mapping[i].1.clone());
                }
                i += 1;
            }
            proof {
                if crate::assoc::has_key(ttl::kv_view(self.mapping@), node@) {
                    let j = choose|j: int|
                        0 <= j < ttl::kv_view(self.mapping@).len() && ttl::kv_view(
                            self.mapping@,
                        )[j].0 == node@;
                    assert(false);
                }
                crate::assoc::lemma_lookup_none(ttl::kv_view(self.mapping@), node@);
            }
            Err(MergeError::MissingMapping { tree_node: node.clone().0 })
        } else {
            let cs = str_to_chars(node.as_str());
            let n = cs.len();
            match last_index_of(&cs, '/') {
                Some(slash) => {
                    let mut out = str_to_chars(self.annis_doc_node_name.as_str());
                    out.push('#');
                    let tail = crate::text::copy_range(&cs, slash + 1, n);
                    proof {
                        assert(tail@ =~= node@.skip(slash + 1));
                        assert(out@ =~= self@.doc_node_name + seq!['#']);
                    }
                    crate::text::append_chars(&mut out, &tail);
                    Ok(chars_to_string(&out))
                },
                None => Err(MergeError::NameWithoutSlash { tree_node: node.clone().0 }),
            }
        }
    }
}

/// The graph name of a tree node under a correspondence.
pub open spec fn spec_annis_name(mv: MapperView, td: DocView, n: Seq<char>) -> Result<
    Seq<char>,
    ErrView,
> {
    if is_word_spec(td, n) {
        match map_lookup(mv.mapping, n) {
            Some(g) => Ok(g),
            None => Err(ErrView::MissingMapping(n)),
        }
    } else {
        match spec_last_index(n, '/') {
            Some(i) => Ok(mv.doc_node_name + seq!['#'] + n.skip(i + 1)),
            None => Err(ErrView::NameWithoutSlash(n)),
        }
    }
}

/// What the merge writes into the target graph: the layer every merged node
/// and edge is scoped under, the annotation that carries a node's category,
/// and optionally an annotation that records each node's tree-source
/// identifier.
pub struct MergeOptions {
    pub layer: String,
    pub tree_anno: String,
    pub iri_anno: Option<String>,
}

/// Spec-level image of [`MergeOptions`].
pub ghost struct MergeOptionsView {
    pub layer: Seq<char>,
    pub tree_anno: Seq<char>,
    pub iri_anno: Option<Seq<char>>,
}

impl View for MergeOptions {
    type V = MergeOptionsView;

    open spec fn view(&self) -> MergeOptionsView {
        MergeOptionsView {
            layer: self.layer@,
            tree_anno: self.tree_anno@,
            iri_anno: match self.iri_anno {
                Some(a) => Some(a@),
                None => None,
            },
        }
    }
}

/// The name set of a vector of tree-source nodes.
pub open spec fn name_set(s: Seq<ttl::NodeName>) -> Set<Seq<char>> {
    Set::new(|x: Seq<char>| exists|i: int| 0 <= i < s.len() && s[i]@ == x)
}

proof fn lemma_name_set_push(s: Seq<ttl::NodeName>, n: ttl::NodeName)
    ensures
        name_set(s.push(n)) == name_set(s).insert(n@),
{
    assert forall|x: Seq<char>|
        name_set(s.push(n)).contains(x) <==> name_set(s).insert(n@).contains(x) by {
        if name_set(s.push(n)).contains(x) {
            let i = choose|i: int| 0 <= i < s.push(n).len() && s.push(n)[i]@ == x;
            if i < s.len() {
                assert(s[i]@ == x);
            } else {
                assert(x == n@);
            }
        }
        if name_set(s).contains(x) {
            let i = choose|i: int| 0 <= i < s.len() && s[i]@ == x;
            assert(s.push(n)[i]@ == x);
        }
        if x == n@ {
            assert(s.push(n)[s.len() as int]@ == x);
        }
    }
    assert(name_set(s.push(n)) =~= name_set(s).insert(n@));
}

/// The instructions that realize one tree node in the target graph: a
/// non-word gets a node under the layer, with its category if it has one;
/// every node gets the identifier annotation when one is configured.
pub open spec fn touch_events(
    td: DocView,
    opts: MergeOptionsView,
    n: Seq<char>,
    gname: Seq<char>,
) -> Seq<EventView> {
    let base = if !is_word_spec(td, n) {
        seq![
            EventView::AddNode { node_name: gname, node_type: "node"@ },
            EventView::AddNodeLabel {
                node_name: gname,
                anno_ns: "annis"@,
                anno_name: "layer"@,
                anno_value: opts.layer,
            },
        ] + (match anno_of(td, n, AnnoKey::Cat) {
            Some(c) => seq![
                EventView::AddNodeLabel {
                    node_name: gname,
                    anno_ns: opts.layer,
                    anno_name: opts.tree_anno,
                    anno_value: c,
                },
            ],
            None => Seq::empty(),
        })
    } else {
        Seq::empty()
    };
    base + (match opts.iri_anno {
        Some(a) => seq![
            EventView::AddNodeLabel {
                node_name: gname,
                anno_ns: opts.layer,
                anno_name: a,
                anno_value: n,
            },
        ],
        None => Seq::empty(),
    })
}

/// Marks a node merged if it was not yet, emitting its realization.
pub open spec fn touch(
    td: DocView,
    mv: MapperView,
    opts: MergeOptionsView,
    merged: Set<Seq<char>>,
    n: Seq<char>,
) -> Result<(Seq<EventView>, Set<Seq<char>>), ErrView> {
    if merged.contains(n) {
        Ok((Seq::empty(), merged))
    } else {
        match spec_annis_name(mv, td, n) {
            Err(e) => Err(e),
            Ok(g) => Ok((touch_events(td, opts, n, g), merged.insert(n))),
        }
    }
}

/// What one pass over edges produces: the emitted instructions, the merged
/// set after, the deferred edges, and whether any edge was realized.
pub ghost struct PassView {
    pub events: Seq<EventView>,
    pub merged: Set<Seq<char>>,
    pub kept: Seq<(Seq<char>, Seq<char>)>,
    pub progress: bool,
}

/// One edge of the worklist: a (child, parent) pair defers until its child
/// is a word or already merged; a ready edge whose parent has no category is
/// dropped outright; otherwise both endpoints are realized and the dominance
/// edge from parent to child is emitted.
pub open spec fn edge_step(
    td: DocView,
    mv: MapperView,
    opts: MergeOptionsView,
    merged: Set<Seq<char>>,
    edge: (Seq<char>, Seq<char>),
) -> Result<PassView, ErrView> {
    let c = edge.0;
    let p = edge.1;
    if !(is_word_spec(td, c) || merged.contains(c)) {
        Ok(PassView { events: Seq::empty(), merged, kept: seq![edge], progress: false })
    } else if anno_of(td, p, AnnoKey::Cat) is None {
        Ok(PassView { events: Seq::empty(), merged, kept: Seq::empty(), progress: false })
    } else {
        match touch(td, mv, opts, merged, c) {
            Err(e) => Err(e),
            Ok(r1) => match touch(td, mv, opts, r1.1, p) {
                Err(e) => Err(e),
                Ok(r2) => match spec_annis_name(mv, td, p) {
                    Err(e) => Err(e),
                    Ok(gp) => match spec_annis_name(mv, td, c) {
                        Err(e) => Err(e),
                        Ok(gc) => Ok(
                            PassView {
                                events: r1.0 + r2.0 + seq![
                                    EventView::AddEdge {
                                        source_node: gp,
                                        target_node: gc,
                                        layer: opts.layer,
                                        component_type: AnnotationComponentType::Dominance,
                                        component_name: Seq::empty(),
                                    },
                                ],
                                merged: r2.1,
                                kept: Seq::empty(),
                                progress: true,
                            },
                        ),
                    },
                },
            },
        }
    }
}

/// One pass over the worklist, in list order.
pub open spec fn run_pass(
    td: DocView,
    mv: MapperView,
    opts: MergeOptionsView,
    merged: Set<Seq<char>>,
    edges: Seq<(Seq<char>, Seq<char>)>,
) -> Result<PassView, ErrView>
    decreases edges.len(),
{
    if edges.len() == 0 {
        Ok(PassView { events: Seq::empty(), merged, kept: Seq::empty(), progress: false })
    } else {
        match edge_step(td, mv, opts, merged, edges[0]) {
            Err(e) => Err(e),
            Ok(s0) => match run_pass(td, mv, opts, s0.merged, edges.drop_first()) {
                Err(e) => Err(e),
                Ok(rest) => Ok(
                    PassView {
                        events: s0.events + rest.events,
                        merged: rest.merged,
                        kept: s0.kept + rest.kept,
                        progress: s0.progress || rest.progress,
                    },
                ),
            },
        }
    }
}

/// A pass never keeps more edges than it was given, and a pass that made
/// progress keeps strictly fewer.
pub proof fn lemma_pass_bounds(
    td: DocView,
    mv: MapperView,
    opts: MergeOptionsView,
    merged: Set<Seq<char>>,
    edges: Seq<(Seq<char>, Seq<char>)>,
)
    ensures
        run_pass(td, mv, opts, merged, edges) is Ok ==> {
            let p = run_pass(td, mv, opts, merged, edges)->Ok_0;
            p.kept.len() <= edges.len() && (p.progress ==> p.kept.len() < edges.len())
        },
    decreases edges.len(),
{
    if edges.len() > 0 {
        match edge_step(td, mv, opts, merged, edges[0]) {
            Err(_) => {},
            Ok(s0) => {
                lemma_pass_bounds(td, mv, opts, s0.merged, edges.drop_first());
            },
        }
    }
}

/// The fixed point of the pass loop: passes repeat while progress is made;
/// edges never made ready are dropped when a pass realizes nothing.
pub open spec fn closure(
    td: DocView,
    mv: MapperView,
    opts: MergeOptionsView,
    merged: Set<Seq<char>>,
    edges: Seq<(Seq<char>, Seq<char>)>,
) -> Result<(Seq<EventView>, Set<Seq<char>>), ErrView>
    decreases edges.len(),
    via closure_dec
{
    match run_pass(td, mv, opts, merged, edges) {
        Err(e) => Err(e),
        Ok(p) => if !p.progress {
            Ok((p.events, p.merged))
        } else {
            match closure(td, mv, opts, p.merged, p.kept) {
                Err(e) => Err(e),
                Ok(r) => Ok((p.events + r.0, r.1)),
            }
        },
    }
}

#[via_fn]
proof fn closure_dec(
    td: DocView,
    mv: MapperView,
    opts: MergeOptionsView,
    merged: Set<Seq<char>>,
    edges: Seq<(Seq<char>, Seq<char>)>,
) {
    lemma_pass_bounds(td, mv, opts, merged, edges);
}

/// Everything one document's dominance structure adds to the target graph.
pub open spec fn spec_merge(td: DocView, mv: MapperView, opts: MergeOptionsView) -> Result<
    Seq<EventView>,
    ErrView,
> {
    match closure(td, mv, opts, Set::empty(), td.child_to_parent) {
        Err(e) => Err(e),
        Ok(r) => Ok(r.0),
    }
}

/// Whether a node is already merged.
fn merged_contains(merged: &Vec<ttl::NodeName>, n: &ttl::NodeName) -> (r: bool)
    ensures
        r == name_set(merged@).contains(n@),
{
    let mut i: usize = 0;
    while i < merged.len()
        invariant
            i <= merged@.len(),
            forall|j: int| 0 <= j < i ==> merged@[j]@ != n@,
        decreases merged@.len() - i,
    {
        let hit = merged[i] == *n;
        if hit {
            return true;
        }
        i += 1;
    }
    proof {
        if name_set(merged@).contains(n@) {
            let j = choose|j: int| 0 <= j < merged@.len() && merged@[j]@ == n@;
            assert(false);
        }
    }
    false
}

/// Realizes one tree node, unless it is already merged.
fn touch_exec(
    ttl_doc: &ttl::Document,
    mapper: &NodeNameMapper,
    opts: &MergeOptions,
    merged: &mut Vec<ttl::NodeName>,
    update: &mut Update,
    node: &ttl::NodeName,
) -> (r: Result<(), MergeError>)
    ensures
        match r {
            Ok(()) => {
                &&& touch(ttl_doc@, mapper@, opts@, name_set(old(merged)@), node@) is Ok
                &&& final(update)@ == old(update)@ + touch(
                    ttl_doc@,
                    mapper@,
                    opts@,
                    name_set(old(merged)@),
                    node@,
                )->Ok_0.0
                &&& name_set(final(merged)@) == touch(
                    ttl_doc@,
                    mapper@,
                    opts@,
                    name_set(old(merged)@),
                    node@,
                )->Ok_0.1
            },
            Err(e) => touch(ttl_doc@, mapper@, opts@, name_set(old(merged)@), node@) == Err::<
                (Seq<EventView>, Set<Seq<char>>),
                ErrView,
            >(e@),
        },
{
    if merged_contains(merged, node) {
        proof {
            assert(old(update)@ + Seq::<EventView>::empty() =~= old(update)@);
        }
        return Ok(());
    }
    let g = match mapper.annis_node_name(ttl_doc, node) {
        Ok(g) => g,
        Err(e) => {
            return Err(e);
        },
    };
    merged.push(node.clone());
    proof {
        lemma_name_set_push(old(merged)@, merged@.last());
        assert(old(merged)@.push(merged@.last()) =~= merged@);
    }
    let ghost evs = touch_events(ttl_doc@, opts@, node@, g@);
    if !ttl_doc.is_word(node) {
        update.add_node(g.clone(), String::from_str("node"));
        update.add_node_anno(
            g.clone(),
            String::from_str("annis"),
            String::from_str("layer"),
            opts.layer.clone(),
        );
        match ttl_doc.anno(node, AnnoKey::Cat) {
            Some(c) => {
                let cv = c.clone();
                update.add_node_anno(g.clone(), opts.layer.clone(), opts.tree_anno.clone(), cv);
            },
            None => {},
        }
    }
    match &opts.iri_anno {
        Some(a) => {
            update.add_node_anno(g.clone(), opts.layer.clone(), a.clone(), node.clone().0);
        },
        None => {},
    }
    proof {
        assert(update@ =~= old(update)@ + evs);
    }
    Ok(())
}

/// Grows the merged node and edge set upward from the aligned words through
/// the dominance tree, buffering the realization of every node and edge
/// reachable from a word under a parent that carries a category.
pub fn merge_document(
    ttl_doc: &ttl::Document,
    mapper: &NodeNameMapper,
    opts: &MergeOptions,
    update: &mut Update,
) -> (r: Result<(), MergeError>)
    ensures
        match r {
            Ok(()) => {
                &&& spec_merge(ttl_doc@, mapper@, opts@) is Ok
                &&& final(update)@ == old(update)@ + spec_merge(ttl_doc@, mapper@, opts@)->Ok_0
            },
            Err(e) => spec_merge(ttl_doc@, mapper@, opts@) == Err::<Seq<EventView>, ErrView>(e@),
        },
{
    let src = ttl_doc.parent_edges();
    let mut edges: Vec<(ttl::NodeName, ttl::NodeName)> = Vec::new();
    let mut k: usize = 0;
    proof {
        assert(ttl::kv_view(edges@) =~= ttl_doc@.child_to_parent.take(0));
    }
    while k < src.len()
        invariant
            k <= src@.len(),
            ttl::kv_view(src@) == ttl_doc@.child_to_parent,
            ttl_doc@.child_to_parent.len() == src@.len(),
            ttl::kv_view(edges@) == ttl_doc@.child_to_parent.take(k as int),
        decreases src@.len() - k,
    {
        edges.push((src[k].0.clone(), src[k].1.clone()));
        proof {
            assert(ttl::kv_view(edges@) =~= ttl_doc@.child_to_parent.take(k as int).push(
                ttl_doc@.child_to_parent[k as int],
            ));
            assert(ttl_doc@.child_to_parent.take(k as int).push(
                ttl_doc@.child_to_parent[k as int],
            ) =~= ttl_doc@.child_to_parent.take(k as int + 1));
        }
        k += 1;
    }
    proof {
        assert(ttl_doc@.child_to_parent.take(ttl_doc@.child_to_parent.len() as int)
            =~= ttl_doc@.child_to_parent);
    }
    let ghost target = closure(
        ttl_doc@,
        mapper@,
        opts@,
        Set::empty(),
        ttl_doc@.child_to_parent,
    );
    let mut merged: Vec<ttl::NodeName> = Vec::new();
    let ghost mut done: Seq<EventView> = Seq::empty();
    proof {
        assert(name_set(merged@) =~= Set::<Seq<char>>::empty());
        assert(old(update)@ + done =~= old(update)@);
    }
    loop
        invariant
            update@ == old(update)@ + done,
            (match closure(ttl_doc@, mapper@, opts@, name_set(merged@), ttl::kv_view(edges@)) {
                Err(e) => target == Err::<(Seq<EventView>, Set<Seq<char>>), ErrView>(e),
                Ok(r) => target == Ok::<(Seq<EventView>, Set<Seq<char>>), ErrView>(
                    (done + r.0, r.1),
                ),
            }),
            target == closure(
                ttl_doc@,
                mapper@,
                opts@,
                Set::empty(),
                ttl_doc@.child_to_parent,
            ),
        decreases edges@.len(),
    {
        let ghost em = name_set(merged@);
        let ghost all = ttl::kv_view(edges@);
        let mut remaining: Vec<(ttl::NodeName, ttl::NodeName)> = Vec::new();
        let mut added_edge = false;
        let ghost mut done_pass: Seq<EventView> = Seq::empty();
        let mut j: usize = 0;
        proof {
            assert(all.skip(0) =~= all);
            assert(ttl::kv_view(remaining@) =~= Seq::<(Seq<char>, Seq<char>)>::empty());
            assert(update@ + done_pass =~= update@);
        }
        let ghost update_at_pass = update@;
        while j < edges.len()
            invariant
                j <= edges@.len(),
                all == ttl::kv_view(edges@),
                all.len() == edges@.len(),
                update@ == update_at_pass + done_pass,
                update_at_pass == old(update)@ + done,
                (match run_pass(
                    ttl_doc@,
                    mapper@,
                    opts@,
                    name_set(merged@),
                    all.skip(j as int),
                ) {
                    Err(e) => run_pass(ttl_doc@, mapper@, opts@, em, all) == Err::<
                        PassView,
                        ErrView,
                    >(e),
                    Ok(rest) => run_pass(ttl_doc@, mapper@, opts@, em, all) == Ok::<
                        PassView,
                        ErrView,
                    >(
                        PassView {
                            events: done_pass + rest.events,
                            merged: rest.merged,
                            kept: ttl::kv_view(remaining@) + rest.kept,
                            progress: added_edge || rest.progress,
                        },
                    ),
                }),
                (match closure(ttl_doc@, mapper@, opts@, em, all) {
                    Err(e) => target == Err::<(Seq<EventView>, Set<Seq<char>>), ErrView>(e),
                    Ok(r) => target == Ok::<(Seq<EventView>, Set<Seq<char>>), ErrView>(
                        (done + r.0, r.1),
                    ),
                }),
                target == closure(
                    ttl_doc@,
                    mapper@,
                    opts@,
                    Set::empty(),
                    ttl_doc@.child_to_parent,
                ),
            decreases edges@.len() - j,
        {
            let ghost tail = all.skip(j as int);
            proof {
                assert(tail[0] == all[j as int]);
                assert(tail.drop_first() =~= all.skip(j as int + 1));
                assert(all[j as int] == (edges@[j as int].0@, edges@[j as int].1@));
            }
            let child = &edges[j].0;
            let parent = &edges[j].1;
            let ready = ttl_doc.is_word(child) || merged_contains(&merged, child);
            if !ready {
                let ghost before_kept = ttl::kv_view(remaining@);
                remaining.push((child.clone(), parent.clone()));
                proof {
                    assert(ttl::kv_view(remaining@) =~= before_kept + seq![all[j as int]]);
                    if run_pass(ttl_doc@, mapper@, opts@, name_set(merged@), all.skip(j as int + 1))
                        is Ok {
                        let rest = run_pass(
                            ttl_doc@,
                            mapper@,
                            opts@,
                            name_set(merged@),
                            all.skip(j as int + 1),
                        )->Ok_0;
                        assert((before_kept + seq![all[j as int]]) + rest.kept =~= before_kept + (
                        seq![all[j as int]] + rest.kept));
                        assert(done_pass + rest.events =~= done_pass + (Seq::<
                            EventView,
                        >::empty() + rest.events));
                    }
                }
            } else {
                let has_cat = match ttl_doc.anno(parent, AnnoKey::Cat) {
                    Some(_) => true,
                    None => false,
                };
                if !has_cat {
                    proof {
                        if run_pass(
                            ttl_doc@,
                            mapper@,
                            opts@,
                            name_set(merged@),
                            all.skip(j as int + 1),
                        ) is Ok {
                            let rest = run_pass(
                                ttl_doc@,
                                mapper@,
                                opts@,
                                name_set(merged@),
                                all.skip(j as int + 1),
                            )->Ok_0;
                            assert(ttl::kv_view(remaining@) + rest.kept =~= ttl::kv_view(
                                remaining@,
                            ) + (Seq::<(Seq<char>, Seq<char>)>::empty() + rest.kept));
                            assert(done_pass + rest.events =~= done_pass + (Seq::<
                                EventView,
                            >::empty() + rest.events));
                        }
                    }
                } else {
                    let ghost merged_before = name_set(merged@);
                    let ghost update_before = update@;
                    match touch_exec(ttl_doc, mapper, opts, &mut merged, update, child) {
                        Ok(()) => {},
                        Err(e) => {
                            return Err(e);
                        },
                    }
                    let ghost ev1 = touch(
                        ttl_doc@,
                        mapper@,
                        opts@,
                        merged_before,
                        all[j as int].0,
                    )->Ok_0.0;
                    let ghost merged_mid = name_set(merged@);
                    match touch_exec(ttl_doc, mapper, opts, &mut merged, update, parent) {
                        Ok(()) => {},
                        Err(e) => {
                            return Err(e);
                        },
                    }
                    let ghost ev2 = touch(
                        ttl_doc@,
                        mapper@,
                        opts@,
                        merged_mid,
                        all[j as int].1,
                    )->Ok_0.0;
                    let gp = match mapper.annis_node_name(ttl_doc, parent) {
                        Ok(g) => g,
                        Err(e) => {
                            return Err(e);
                        },
                    };
                    let gc = match mapper.annis_node_name(ttl_doc, child) {
                        Ok(g) => g,
                        Err(e) => {
                            return Err(e);
                        },
                    };
                    let ghost edge_ev = EventView::AddEdge {
                        source_node: gp@,
                        target_node: gc@,
                        layer: opts@.layer,
                        component_type: AnnotationComponentType::Dominance,
                        component_name: Seq::empty(),
                    };
                    update.add_edge(
                        gp,
                        gc,
                        AnnotationComponentType::Dominance,
                        opts.layer.clone(),
                        String::new(),
                    );
                    added_edge = true;
                    proof {
                        let step = edge_step(
                            ttl_doc@,
                            mapper@,
                            opts@,
                            merged_before,
                            all[j as int],
                        )->Ok_0;
                        assert(step.events =~= ev1 + ev2 + seq![edge_ev]);
                        assert(update@ =~= ((update_before + ev1) + ev2).push(edge_ev));
                        assert(((update_before + ev1) + ev2).push(edge_ev) =~= update_before + (
                        ev1 + ev2 + seq![edge_ev]));
                        let done_pass_old = done_pass;
                        done_pass = done_pass + step.events;
                        assert(update@ =~= (update_at_pass + done_pass_old) + step.events);
                        assert((update_at_pass + done_pass_old) + step.events =~= update_at_pass
                            + done_pass);
                        if run_pass(
                            ttl_doc@,
                            mapper@,
                            opts@,
                            name_set(merged@),
                            all.skip(j as int + 1),
                        ) is Ok {
                            let rest = run_pass(
                                ttl_doc@,
                                mapper@,
                                opts@,
                                name_set(merged@),
                                all.skip(j as int + 1),
                            )->Ok_0;
                            assert((done_pass_old + step.events) + rest.events =~= done_pass_old
                                + (step.events + rest.events));
                            assert(ttl::kv_view(remaining@) + rest.kept =~= ttl::kv_view(
                                remaining@,
                            ) + (Seq::<(Seq<char>, Seq<char>)>::empty() + rest.kept));
                        }
                    }
                }
            }
            j += 1;
        }
        proof {
            assert(all.skip(all.len() as int) =~= Seq::<(Seq<char>, Seq<char>)>::empty());
        }
        let ghost pass_res = run_pass(ttl_doc@, mapper@, opts@, em, all)->Ok_0;
        proof {
            assert(done_pass + Seq::<EventView>::empty() =~= done_pass);
            assert(ttl::kv_view(remaining@) + Seq::<(Seq<char>, Seq<char>)>::empty()
                =~= ttl::kv_view(remaining@));
            assert(run_pass(ttl_doc@, mapper@, opts@, em, all) == Ok::<PassView, ErrView>(
                PassView {
                    events: done_pass,
                    merged: name_set(merged@),
                    kept: ttl::kv_view(remaining@),
                    progress: added_edge,
                },
            ));
        }
        if !added_edge {
            proof {
                assert(closure(ttl_doc@, mapper@, opts@, em, all) == Ok::<
                    (Seq<EventView>, Set<Seq<char>>),
                    ErrView,
                >((done_pass, name_set(merged@))));
                assert(old(update)@ + (done + done_pass) =~= (old(update)@ + done) + done_pass);
            }
            return Ok(());
        }
        proof {
            lemma_pass_bounds(ttl_doc@, mapper@, opts@, em, all);
            assert(pass_res.kept.len() < all.len());
            let done_old = done;
            done = done + done_pass;
            assert(old(update)@ + done =~= (old(update)@ + done_old) + done_pass);
            if closure(ttl_doc@, mapper@, opts@, name_set(merged@), ttl::kv_view(remaining@))
                is Ok {
                let r = closure(
                    ttl_doc@,
                    mapper@,
                    opts@,
                    name_set(merged@),
                    ttl::kv_view(remaining@),
                )->Ok_0;
                assert(done_old + (done_pass + r.0) =~= (done_old + done_pass) + r.0);
            }
        }
        edges = remaining;
    }
}

/// For all documents, a successful alignment pairs exactly
/// `min(|tree words|, |graph segments|)` words, which is then the whole
/// tree side: a length mismatch alone never fails the pairing, only a
/// tree-side surplus does, and the pairing succeeds whenever the tree side
/// is not longer and every full pair passes its checks.
pub proof fn lemma_aligned_count(
    td: DocView,
    gd: annis::GraphDocView,
    words: Seq<Seq<char>>,
    segs: Seq<u64>,
)
    ensures
        align_from(td, gd, words, segs, 0) is Ok ==> words.len() <= segs.len() && align_from(
            td,
            gd,
            words,
            segs,
            0,
        )->Ok_0.len() == if words.len() <= segs.len() {
            words.len()
        } else {
            segs.len()
        },
        (words.len() <= segs.len() && (forall|i: int|
            0 <= i < words.len() ==> check_pair(td, gd, words[i], segs[i]) is Ok)) ==> align_from(
            td,
            gd,
            words,
            segs,
            0,
        ) is Ok,
{
    lemma_align_from(td, gd, words, segs, 0);
}

proof fn lemma_align_from(
    td: DocView,
    gd: annis::GraphDocView,
    words: Seq<Seq<char>>,
    segs: Seq<u64>,
    i: int,
)
    requires
        0 <= i,
    ensures
        align_from(td, gd, words, segs, i) is Ok ==> words.len() <= segs.len() || words.len()
            <= i,
        align_from(td, gd, words, segs, i) is Ok ==> align_from(td, gd, words, segs, i)->Ok_0.len()
            == if words.len() >= i {
            words.len() - i
        } else {
            0
        },
        (words.len() <= segs.len() && (forall|j: int|
            i <= j < words.len() ==> check_pair(td, gd, words[j], segs[j]) is Ok)) ==> align_from(
            td,
            gd,
            words,
            segs,
            i,
        ) is Ok,
    decreases words.len() - i,
{
    if i < words.len() && i < segs.len() {
        lemma_align_from(td, gd, words, segs, i + 1);
    }
}

/// Re-running the closure over an edge list whose endpoints are all already
/// merged realizes no node and no annotation: every instruction it emits is
/// an edge, and the merged set does not grow.
pub proof fn lemma_rerun_emits_no_nodes(
    td: DocView,
    mv: MapperView,
    opts: MergeOptionsView,
    merged: Set<Seq<char>>,
    edges: Seq<(Seq<char>, Seq<char>)>,
)
    requires
        forall|i: int|
            0 <= i < edges.len() ==> merged.contains(#[trigger] edges[i].0) && merged.contains(
                edges[i].1,
            ),
        closure(td, mv, opts, merged, edges) is Ok,
    ensures
        ({
            let r = closure(td, mv, opts, merged, edges)->Ok_0;
            &&& r.1 == merged
            &&& forall|k: int| 0 <= k < r.0.len() ==> #[trigger] r.0[k] is AddEdge
        }),
{
    lemma_rerun_pass(td, mv, opts, merged, edges);
    let p = run_pass(td, mv, opts, merged, edges)->Ok_0;
    if p.progress {
        assert(p.kept.len() == 0);
        assert(run_pass(td, mv, opts, p.merged, p.kept) == Ok::<PassView, ErrView>(
            PassView {
                events: Seq::empty(),
                merged: p.merged,
                kept: Seq::empty(),
                progress: false,
            },
        ));
        let r = closure(td, mv, opts, p.merged, p.kept)->Ok_0;
        assert(p.events + r.0 =~= p.events);
    }
}

proof fn lemma_rerun_pass(
    td: DocView,
    mv: MapperView,
    opts: MergeOptionsView,
    merged: Set<Seq<char>>,
    edges: Seq<(Seq<char>, Seq<char>)>,
)
    requires
        forall|i: int|
            0 <= i < edges.len() ==> merged.contains(#[trigger] edges[i].0) && merged.contains(
                edges[i].1,
            ),
    ensures
        run_pass(td, mv, opts, merged, edges) is Ok ==> ({
            let p = run_pass(td, mv, opts, merged, edges)->Ok_0;
            &&& p.merged == merged
            &&& p.kept.len() == 0
            &&& forall|k: int| 0 <= k < p.events.len() ==> #[trigger] p.events[k] is AddEdge
        }),
    decreases edges.len(),
{
    if edges.len() > 0 {
        assert(edges[0] == edges.first());
        match edge_step(td, mv, opts, merged, edges[0]) {
            Err(_) => {},
            Ok(s0) => {
                assert(s0.merged == merged);
                assert(forall|i: int|
                    0 <= i < edges.drop_first().len() ==> #[trigger] edges.drop_first()[i]
                        == edges[i + 1]);
                lemma_rerun_pass(td, mv, opts, merged, edges.drop_first());
            },
        }
    }
}

/// An edge list none of whose children is a word or merged — a cyclic edge
/// set disconnected from the words in particular — is dropped whole: the
/// closure realizes nothing and ends after its first pass.
pub proof fn lemma_unreachable_edges_dropped(
    td: DocView,
    mv: MapperView,
    opts: MergeOptionsView,
    merged: Set<Seq<char>>,
    edges: Seq<(Seq<char>, Seq<char>)>,
)
    requires
        forall|i: int|
            0 <= i < edges.len() ==> !is_word_spec(td, #[trigger] edges[i].0) && !merged.contains(
                edges[i].0,
            ),
    ensures
        closure(td, mv, opts, merged, edges) == Ok::<(Seq<EventView>, Set<Seq<char>>), ErrView>(
            (Seq::empty(), merged),
        ),
{
    lemma_unreachable_pass(td, mv, opts, merged, edges);
}

proof fn lemma_unreachable_pass(
    td: DocView,
    mv: MapperView,
    opts: MergeOptionsView,
    merged: Set<Seq<char>>,
    edges: Seq<(Seq<char>, Seq<char>)>,
)
    requires
        forall|i: int|
            0 <= i < edges.len() ==> !is_word_spec(td, #[trigger] edges[i].0) && !merged.contains(
                edges[i].0,
            ),
    ensures
        run_pass(td, mv, opts, merged, edges) == Ok::<PassView, ErrView>(
            PassView { events: Seq::empty(), merged, kept: edges, progress: false },
        ),
    decreases edges.len(),
{
    if edges.len() == 0 {
        assert(run_pass(td, mv, opts, merged, edges) == Ok::<PassView, ErrView>(
            PassView { events: Seq::empty(), merged, kept: Seq::empty(), progress: false },
        ));
        assert(edges =~= Seq::<(Seq<char>, Seq<char>)>::empty());
    } else {
        assert(forall|i: int|
            0 <= i < edges.drop_first().len() ==> #[trigger] edges.drop_first()[i] == edges[i
                + 1]);
        lemma_unreachable_pass(td, mv, opts, merged, edges.drop_first());
        assert(Seq::<EventView>::empty() + Seq::<EventView>::empty() =~= Seq::<
            EventView,
        >::empty());
        assert(seq![edges[0]] + edges.drop_first() =~= edges);
    }
}

/// The number of passes the closure runs before reaching its fixed point.
pub open spec fn closure_passes(
    td: DocView,
    mv: MapperView,
    opts: MergeOptionsView,
    merged: Set<Seq<char>>,
    edges: Seq<(Seq<char>, Seq<char>)>,
) -> nat
    decreases edges.len(),
    via closure_passes_dec
{
    match run_pass(td, mv, opts, merged, edges) {
        Err(_) => 1,
        Ok(p) => if !p.progress {
            1
        } else {
            1 + closure_passes(td, mv, opts, p.merged, p.kept)
        },
    }
}

#[via_fn]
proof fn closure_passes_dec(
    td: DocView,
    mv: MapperView,
    opts: MergeOptionsView,
    merged: Set<Seq<char>>,
    edges: Seq<(Seq<char>, Seq<char>)>,
) {
    lemma_pass_bounds(td, mv, opts, merged, edges);
}

/// The worklist converges: it runs at most one pass more than there are
/// edges, whatever the edge list holds — a cyclic edge set in particular
/// terminates, its never-ready edges dropped rather than walked forever.
pub proof fn lemma_closure_converges(
    td: DocView,
    mv: MapperView,
    opts: MergeOptionsView,
    merged: Set<Seq<char>>,
    edges: Seq<(Seq<char>, Seq<char>)>,
)
    ensures
        closure_passes(td, mv, opts, merged, edges) <= edges.len() + 1,
    decreases edges.len(),
{
    lemma_pass_bounds(td, mv, opts, merged, edges);
    match run_pass(td, mv, opts, merged, edges) {
        Err(_) => {},
        Ok(p) => {
            if p.progress {
                lemma_closure_converges(td, mv, opts, p.merged, p.kept);
            }
        },
    }
}

/// The containment instructions the post-merge query matches call for: each
/// match holds a layer node, a witness and a container, and yields one
/// part-of edge from the layer node to the container.
pub open spec fn spec_containment(ms: Seq<Seq<Seq<char>>>) -> Result<Seq<EventView>, ErrView>
    decreases ms.len(),
{
    if ms.len() == 0 {
        Ok(Seq::empty())
    } else {
        match spec_containment(ms.drop_last()) {
            Err(e) => Err(e),
            Ok(evs) => if ms.last().len() != 3 {
                Err(ErrView::BadMatchArity)
            } else {
                Ok(
                    evs.push(
                        EventView::AddEdge {
                            source_node: ms.last()[0],
                            target_node: ms.last()[2],
                            layer: "annis"@,
                            component_type: AnnotationComponentType::PartOf,
                            component_name: Seq::empty(),
                        },
                    ),
                )
            },
        }
    }
}

/// Once a prefix of the matches fails, the whole sequence fails the same
/// way.
proof fn lemma_containment_error_persists(ms: Seq<Seq<Seq<char>>>, i: int, e: ErrView)
    requires
        0 <= i <= ms.len(),
        spec_containment(ms.take(i)) == Err::<Seq<EventView>, ErrView>(e),
    ensures
        spec_containment(ms) == Err::<Seq<EventView>, ErrView>(e),
    decreases ms.len() - i,
{
    if i < ms.len() {
        assert(ms.take(i + 1).drop_last() =~= ms.take(i));
        lemma_containment_error_persists(ms, i + 1, e);
    } else {
        assert(ms.take(i) =~= ms);
    }
}

/// Buffers one part-of edge per query match, from the matched layer node to
/// its container.
pub fn containment_edges(matches: &Vec<Vec<String>>, update: &mut Update) -> (r: Result<
    (),
    MergeError,
>)
    ensures
        match r {
            Ok(()) => spec_containment(matches.deep_view()) is Ok && final(update)@ == old(
                update,
            )@ + spec_containment(matches.deep_view())->Ok_0,
            Err(e) => spec_containment(matches.deep_view()) == Err::<Seq<EventView>, ErrView>(
                e@,
            ),
        },
{
    let ghost msv = matches.deep_view();
    proof {
        assert(msv.take(0) =~= Seq::<Seq<Seq<char>>>::empty());
        assert(old(update)@ + Seq::<EventView>::empty() =~= old(update)@);
    }
    let mut i: usize = 0;
    while i < matches.len()
        invariant
            i <= matches@.len(),
            msv == matches.deep_view(),
            msv.len() == matches@.len(),
            forall|j: int|
                0 <= j < matches@.len() ==> #[trigger] msv[j] == matches@[j].deep_view()
                    && msv[j].len() == matches@[j]@.len(),
            spec_containment(msv.take(i as int)) is Ok,
            update@ == old(update)@ + spec_containment(msv.take(i as int))->Ok_0,
        decreases matches@.len() - i,
    {
        let ghost prefix = msv.take(i as int);
        proof {
            assert(msv.take(i as int + 1).drop_last() =~= prefix);
            assert(msv.take(i as int + 1).last() == msv[i as int]);
        }
        let m = &matches[i];
        if m.len() != 3 {
            proof {
                assert(msv[i as int].len() != 3);
                lemma_containment_error_persists(msv, i as int + 1, ErrView::BadMatchArity);
            }
            return Err(MergeError::BadMatchArity);
        }
        proof {
            assert(msv[i as int][0] == matches@[i as int]@[0]@);
            assert(msv[i as int][2] == matches@[i as int]@[2]@);
        }
        update.add_edge(
            m[0].clone(),
            m[2].clone(),
            AnnotationComponentType::PartOf,
            String::from_str("annis"),
            String::new(),
        );
        i += 1;
    }
    proof {
        assert(msv.take(msv.len() as int) =~= msv);
    }
    Ok(())
}

/// The single node name a one-node query match holds.
pub fn single_node_name(m: &Vec<String>) -> (r: Result<String, MergeError>)
    ensures
        match r {
            Ok(n) => m@.len() == 1 && n@ == m@[0]@,
            Err(e) => m@.len() != 1 && e@ == ErrView::BadMatchArity,
        },
{
    if m.len() == 1 {
        Ok(m[0].clone())
    } else {
        Err(MergeError::BadMatchArity)
    }
}

} // verus!
