//! The tree source: a document as a set of relational facts.
//!
//! A document holds node types, annotation values, the two "next" successor
//! relations, the word-to-sentence relation and the dominance edges, exactly
//! as the triples of one file assert them; the latest assertion for a key
//! wins. Identifiers of this source form their own name space: they are
//! wrapped in [`NodeName`] and never mixed with target-graph names.

use vstd::prelude::*;
use vstd::string::StringExecFns;

use crate::assoc::{
    distinct_keys, has_key, is_value, lemma_insert_distinct, lemma_lookup_at_first,
    lemma_lookup_distinct, lemma_lookup_none, lemma_lookup_some_entry, map_insert, map_lookup,
};
use crate::error::{ErrView, MergeError};

verus! {

/// A tree-source node identifier.
#[derive(Debug)]
pub struct NodeName(pub String);

impl View for NodeName {
    type V = Seq<char>;

    open spec fn view(&self) -> Seq<char> {
        self.0@
    }
}

impl NodeName {
    /// Wraps an identifier string.
    pub fn new(s: String) -> (r: NodeName)
        ensures
            r@ == s@,
    {
        NodeName(s)
    }

    /// The identifier as a string slice.
    pub fn as_str(&self) -> (r: &str)
        ensures
            r@ == self@,
    {
        self.0.as_str()
    }
}

impl Clone for NodeName {
    fn clone(&self) -> (r: Self)
        ensures
            r@ == self@,
    {
        NodeName(self.0.clone())
    }
}

impl PartialEq for NodeName {
    fn eq(&self, other: &NodeName) -> bool {
        self.0 == other.0
    }
}

impl vstd::std_specs::cmp::PartialEqSpecImpl for NodeName {
    open spec fn obeys_eq_spec() -> bool {
        true
    }

    open spec fn eq_spec(&self, other: &NodeName) -> bool {
        self@ == other@
    }
}

/// The type tag a tree-source node may carry.
#[derive(Clone, Copy, Debug, PartialEq, Eq, Structural)]
pub enum NodeType {
    Sentence,
    Word,
}

impl View for NodeType {
    type V = NodeType;

    open spec fn view(&self) -> NodeType {
        *self
    }
}

/// The annotation slots of a tree-source node.
#[derive(Clone, Copy, Debug, PartialEq, Eq, Structural)]
pub enum AnnoKey {
    Cat,
    Infl,
    Lemma,
    Pos,
    Word,
}

/// The subject of a parsed triple, as far as this library reads it.
pub enum RdfSubject {
    Named(String),
    Other,
}

/// The object of a parsed triple, as far as this library reads it.
pub enum RdfTerm {
    Named(String),
    SimpleLiteral(String),
    Other,
}

/// One parsed triple of a tree-source file.
pub struct Triple {
    pub subject: RdfSubject,
    pub predicate: String,
    pub object: RdfTerm,
}

pub open spec fn type_iri() -> Seq<char> {
    "http://www.w3.org/1999/02/22-rdf-syntax-ns#type"@
}

pub open spec fn sentence_iri() -> Seq<char> {
    "http://persistence.uni-leipzig.org/nlp2rdf/ontologies/nif-core#Sentence"@
}

pub open spec fn word_iri() -> Seq<char> {
    "http://persistence.uni-leipzig.org/nlp2rdf/ontologies/nif-core#Word"@
}

pub open spec fn next_sentence_iri() -> Seq<char> {
    "http://persistence.uni-leipzig.org/nlp2rdf/ontologies/nif-core#nextSentence"@
}

pub open spec fn next_word_iri() -> Seq<char> {
    "http://persistence.uni-leipzig.org/nlp2rdf/ontologies/nif-core#nextWord"@
}

pub open spec fn head_iri() -> Seq<char> {
    "http://ufal.mff.cuni.cz/conll2009-st/task-description.html#HEAD"@
}

pub open spec fn has_parent_iri() -> Seq<char> {
    "http://purl.org/powla/powla.owl#hasParent"@
}

pub open spec fn anno_iri(key: AnnoKey) -> Seq<char> {
    match key {
        AnnoKey::Cat => "http://ufal.mff.cuni.cz/conll2009-st/task-description.html#CAT"@,
        AnnoKey::Infl => "http://ufal.mff.cuni.cz/conll2009-st/task-description.html#INFL"@,
        AnnoKey::Lemma => "http://ufal.mff.cuni.cz/conll2009-st/task-description.html#LEMMA"@,
        AnnoKey::Pos => "http://ufal.mff.cuni.cz/conll2009-st/task-description.html#POS"@,
        AnnoKey::Word => "http://ufal.mff.cuni.cz/conll2009-st/task-description.html#WORD"@,
    }
}

/// The view of a name-keyed entry vector.
pub open spec fn kv_view<T: View>(m: Seq<(NodeName, T)>) -> Seq<(Seq<char>, T::V)> {
    m.map_values(|p: (NodeName, T)| (p.0@, p.1@))
}

/// The view of the annotation table, keyed by node name and slot.
pub open spec fn annos_view(m: Seq<((NodeName, AnnoKey), String)>) -> Seq<
    ((Seq<char>, AnnoKey), Seq<char>),
> {
    m.map_values(|p: ((NodeName, AnnoKey), String)| ((p.0.0@, p.0.1), p.1@))
}

/// The relational facts of one tree-source document.
#[derive(Debug)]
pub struct Document {
    node_types: Vec<(NodeName, NodeType)>,
    node_annos: Vec<((NodeName, AnnoKey), String)>,
    next_sentence: Vec<(NodeName, NodeName)>,
    next_word: Vec<(NodeName, NodeName)>,
    word_to_sentence: Vec<(NodeName, NodeName)>,
    child_to_parent: Vec<(NodeName, NodeName)>,
}

/// The mathematical content of a [`Document`].
pub ghost struct DocView {
    pub node_types: Seq<(Seq<char>, NodeType)>,
    pub node_annos: Seq<((Seq<char>, AnnoKey), Seq<char>)>,
    pub next_sentence: Seq<(Seq<char>, Seq<char>)>,
    pub next_word: Seq<(Seq<char>, Seq<char>)>,
    pub word_to_sentence: Seq<(Seq<char>, Seq<char>)>,
    pub child_to_parent: Seq<(Seq<char>, Seq<char>)>,
}

impl View for Document {
    type V = DocView;

    closed spec fn view(&self) -> DocView {
        DocView {
            node_types: kv_view(self.node_types@),
            node_annos: annos_view(self.node_annos@),
            next_sentence: kv_view(self.next_sentence@),
            next_word: kv_view(self.next_word@),
            word_to_sentence: kv_view(self.word_to_sentence@),
            child_to_parent: kv_view(self.child_to_parent@),
        }
    }
}

/// Well-formedness: every map of the document has pairwise distinct keys,
/// as building by insertion alone guarantees.
pub open spec fn doc_wf(d: DocView) -> bool {
    &&& distinct_keys(d.node_types)
    &&& distinct_keys(d.node_annos)
    &&& distinct_keys(d.next_sentence)
    &&& distinct_keys(d.next_word)
    &&& distinct_keys(d.word_to_sentence)
}

/// The type tag of a node.
pub open spec fn type_of(d: DocView, n: Seq<char>) -> Option<NodeType> {
    map_lookup(d.node_types, n)
}

/// Whether a node is typed as a word.
pub open spec fn is_word_spec(d: DocView, n: Seq<char>) -> bool {
    type_of(d, n) == Some(NodeType::Word)
}

/// The value of one annotation slot of a node.
pub open spec fn anno_of(d: DocView, n: Seq<char>, key: AnnoKey) -> Option<Seq<char>> {
    map_lookup(d.node_annos, (n, key))
}

/// The subject and object names of a link triple, or the error the triple
/// produces.
pub open spec fn named_pair(t: Triple) -> Result<(Seq<char>, Seq<char>), ErrView> {
    match t.subject {
        RdfSubject::Named(s) => match t.object {
            RdfTerm::Named(o) => Ok((s@, o@)),
            _ => Err(ErrView::ObjectNotNamed(t.predicate@)),
        },
        _ => Err(ErrView::SubjectNotNamed(t.predicate@)),
    }
}

/// How one triple extends a document under construction.
pub open spec fn spec_apply_triple(d: DocView, t: Triple) -> Result<DocView, ErrView> {
    let p = t.predicate@;
    if p == type_iri() {
        match t.object {
            RdfTerm::Named(o) => {
                let ty = if o@ == sentence_iri() {
                    Some(NodeType::Sentence)
                } else if o@ == word_iri() {
                    Some(NodeType::Word)
                } else {
                    None
                };
                match ty {
                    Some(ty) => match t.subject {
                        RdfSubject::Named(s) => Ok(
                            DocView { node_types: map_insert(d.node_types, s@, ty), ..d },
                        ),
                        _ => Err(ErrView::SubjectNotNamed(p)),
                    },
                    None => Ok(d),
                }
            },
            _ => Ok(d),
        }
    } else if p == next_sentence_iri() {
        match named_pair(t) {
            Ok((s, o)) => Ok(DocView { next_sentence: map_insert(d.next_sentence, s, o), ..d }),
            Err(e) => Err(e),
        }
    } else if p == next_word_iri() {
        match named_pair(t) {
            Ok((s, o)) => Ok(DocView { next_word: map_insert(d.next_word, s, o), ..d }),
            Err(e) => Err(e),
        }
    } else if p == head_iri() {
        match named_pair(t) {
            Ok((s, o)) => Ok(
                DocView { word_to_sentence: map_insert(d.word_to_sentence, s, o), ..d },
            ),
            Err(e) => Err(e),
        }
    } else if p == has_parent_iri() {
        match named_pair(t) {
            Ok((s, o)) => Ok(DocView { child_to_parent: d.child_to_parent.push((s, o)), ..d }),
            Err(e) => Err(e),
        }
    } else if p == anno_iri(AnnoKey::Cat) || p == anno_iri(AnnoKey::Infl) || p == anno_iri(
        AnnoKey::Lemma,
    ) || p == anno_iri(AnnoKey::Pos) || p == anno_iri(AnnoKey::Word) {
        let key = if p == anno_iri(AnnoKey::Cat) {
            AnnoKey::Cat
        } else if p == anno_iri(AnnoKey::Infl) {
            AnnoKey::Infl
        } else if p == anno_iri(AnnoKey::Lemma) {
            AnnoKey::Lemma
        } else if p == anno_iri(AnnoKey::Pos) {
            AnnoKey::Pos
        } else {
            AnnoKey::Word
        };
        match t.subject {
            RdfSubject::Named(s) => match t.object {
                RdfTerm::SimpleLiteral(v) => Ok(
                    DocView { node_annos: map_insert(d.node_annos, (s@, key), v@), ..d },
                ),
                _ => Err(ErrView::ObjectNotLiteral(p)),
            },
            _ => Err(ErrView::SubjectNotNamed(p)),
        }
    } else {
        Ok(d)
    }
}

/// The empty document.
pub open spec fn empty_doc() -> DocView {
    DocView {
        node_types: Seq::empty(),
        node_annos: Seq::empty(),
        next_sentence: Seq::empty(),
        next_word: Seq::empty(),
        word_to_sentence: Seq::empty(),
        child_to_parent: Seq::empty(),
    }
}

/// The document a triple sequence describes, or the first error among its
/// triples.
pub open spec fn spec_document(ts: Seq<Triple>) -> Result<DocView, ErrView>
    decreases ts.len(),
{
    if ts.len() == 0 {
        Ok(empty_doc())
    } else {
        match spec_document(ts.drop_last()) {
            Ok(d) => spec_apply_triple(d, ts.last()),
            Err(e) => Err(e),
        }
    }
}

/// Overwrites the first entry keyed `k`, or appends.
fn name_map_insert<T: View>(m: &mut Vec<(NodeName, T)>, k: NodeName, v: T)
    ensures
        kv_view(final(m)@) == map_insert(kv_view(old(m)@), k@, v@),
{
    let mut i: usize = 0;
    while i < m.len()
        invariant
            i <= m@.len(),
            m@ == old(m)@,
            forall|j: int| 0 <= j < i ==> kv_view(m@)[j].0 != k@,
        decreases m@.len() - i,
    {
        let hit = m[i].0 == k;
        if hit {
            proof {
                lemma_lookup_at_first(kv_view(m@), i as int);
            }
            m[i] = (k, v);
            proof {
                assert(kv_view(m@) =~= kv_view(old(m)@).update(i as int, (k@, v@)));
            }
            return ;
        }
        i += 1;
    }
    proof {
        if has_key(kv_view(m@), k@) {
            let j = choose|j: int|
                0 <= j < kv_view(m@).len() && kv_view(m@)[j].0 == k@;
            assert(false);
        }
    }
    m.push((k, v));
    proof {
        assert(kv_view(m@) =~= kv_view(old(m)@).push((k@, v@)));
    }
}

/// Overwrites the first entry keyed by the node and slot, or appends.
fn anno_map_insert(m: &mut Vec<((NodeName, AnnoKey), String)>, n: NodeName, key: AnnoKey, v: String)
    ensures
        annos_view(final(m)@) == map_insert(annos_view(old(m)@), (n@, key), v@),
{
    let mut i: usize = 0;
    while i < m.len()
        invariant
            i <= m@.len(),
            m@ == old(m)@,
            forall|j: int| 0 <= j < i ==> annos_view(m@)[j].0 != (n@, key),
        decreases m@.len() - i,
    {
        let hit = m[i].0.0 == n && m[i].0.1 == key;
        if hit {
            proof {
                lemma_lookup_at_first(annos_view(m@), i as int);
            }
            m[i] = ((n, key), v);
            proof {
                assert(annos_view(m@) =~= annos_view(old(m)@).update(
                    i as int,
                    ((n@, key), v@),
                ));
            }
            return ;
        }
        i += 1;
    }
    proof {
        if has_key(annos_view(m@), (n@, key)) {
            let j = choose|j: int|
                0 <= j < annos_view(m@).len() && annos_view(m@)[j].0 == (n@, key);
            assert(false);
        }
    }
    m.push(((n, key), v));
    proof {
        assert(annos_view(m@) =~= annos_view(old(m)@).push(((n@, key), (v@))));
    }
}

/// Finds the value of the first entry keyed `k`.
pub fn name_map_get<'a, T: View>(m: &'a Vec<(NodeName, T)>, k: &NodeName) -> (r: Option<&'a T>)
    ensures
        match r {
            Some(v) => map_lookup(kv_view(m@), k@) == Some(v@),
            None => map_lookup(kv_view(m@), k@) is None,
        },
{
    let mut i: usize = 0;
    while i < m.len()
        invariant
            i <= m@.len(),
            forall|j: int| 0 <= j < i ==> kv_view(m@)[j].0 != k@,
        decreases m@.len() - i,
    {
        let hit = m[i].0 == *k;
        if hit {
            proof {
                lemma_lookup_at_first(kv_view(m@), i as int);
            }
            return Some(&m[i].1);
        }
        i += 1;
    }
    proof {
        if has_key(kv_view(m@), k@) {
            let j = choose|j: int|
                0 <= j < kv_view(m@).len() && kv_view(m@)[j].0 == k@;
            assert(false);
        }
        lemma_lookup_none(kv_view(m@), k@);
    }
    None
}

impl Document {
    /// Builds the document a triple sequence describes; fails on the first
    /// triple whose subject or object has the wrong shape for its predicate.
    pub fn from_triples(triples: &Vec<Triple>) -> (r: Result<Document, MergeError>)
        ensures
            match r {
                Ok(d) => spec_document(triples@) == Ok::<DocView, ErrView>(d@) && doc_wf(d@),
                Err(e) => spec_document(triples@) == Err::<DocView, ErrView>(e@),
            },
    {
        let mut doc = Document {
            node_types: Vec::new(),
            node_annos: Vec::new(),
            next_sentence: Vec::new(),
            next_word: Vec::new(),
            word_to_sentence: Vec::new(),
            child_to_parent: Vec::new(),
        };
        proof {
            assert(doc@.node_types =~= empty_doc().node_types);
            assert(doc@.node_annos =~= empty_doc().node_annos);
            assert(doc@.next_sentence =~= empty_doc().next_sentence);
            assert(doc@.next_word =~= empty_doc().next_word);
            assert(doc@.word_to_sentence =~= empty_doc().word_to_sentence);
            assert(doc@.child_to_parent =~= empty_doc().child_to_parent);
            assert(doc@ == empty_doc());
            assert(triples@.take(0) =~= Seq::<Triple>::empty());
        }
        let mut i: usize = 0;
        while i < triples.len()
            invariant
                i <= triples@.len(),
                spec_document(triples@.take(i as int)) == Ok::<DocView, ErrView>(doc@),
                doc_wf(doc@),
            decreases triples@.len() - i,
        {
            let ghost prefix = triples@.take(i as int);
            let ghost next_prefix = triples@.take(i as int + 1);
            proof {
                assert(next_prefix.drop_last() =~= prefix);
                assert(next_prefix.last() == triples@[i as int]);
            }
            let t = &triples[i];
            match Self::apply_triple(&mut doc, t) {
                Ok(()) => {},
                Err(e) => {
                    proof {
                        assert(spec_document(next_prefix) == Err::<DocView, ErrView>(e@));
                        lemma_document_error_persists(triples@, i as int + 1, e@);
                    }
                    return Err(e);
                },
            }
            i += 1;
        }
        proof {
            assert(triples@.take(triples@.len() as int) =~= triples@);
        }
        Ok(doc)
    }

    /// Applies one triple to the document under construction.
    fn apply_triple(doc: &mut Document, t: &Triple) -> (r: Result<(), MergeError>)
        requires
            doc_wf(old(doc)@),
        ensures
            match r {
                Ok(()) => spec_apply_triple(old(doc)@, *t) == Ok::<DocView, ErrView>(final(doc)@)
                    && doc_wf(final(doc)@),
                Err(e) => spec_apply_triple(old(doc)@, *t) == Err::<DocView, ErrView>(e@)
                    && final(doc)@ == old(doc)@,
            },
    {
        let p = t.predicate.as_str();
        if crate::text::str_eq(p, "http://www.w3.org/1999/02/22-rdf-syntax-ns#type") {
            if let RdfTerm::Named(o) = &t.object {
                let is_sentence = crate::text::str_eq(
                    o.as_str(),
                    "http://persistence.uni-leipzig.org/nlp2rdf/ontologies/nif-core#Sentence",
                );
                let is_word = crate::text::str_eq(
                    o.as_str(),
                    "http://persistence.uni-leipzig.org/nlp2rdf/ontologies/nif-core#Word",
                );
                if is_sentence || is_word {
                    let ty = if is_sentence {
                        NodeType::Sentence
                    } else {
                        NodeType::Word
                    };
                    if let RdfSubject::Named(s) = &t.subject {
                        proof {
                            lemma_insert_distinct(old(doc)@.node_types, s@, ty);
                        }
                        name_map_insert(&mut doc.node_types, NodeName(s.clone()), ty);
                        return Ok(());
                    } else {
                        return Err(
                            MergeError::SubjectNotNamed { predicate: t.predicate.clone() },
                        );
                    }
                }
            }
            Ok(())
        } else if crate::text::str_eq(
            p,
            "http://persistence.uni-leipzig.org/nlp2rdf/ontologies/nif-core#nextSentence",
        ) {
            let (s, o) = Self::link_names(t)?;
            proof {
                lemma_insert_distinct(old(doc)@.next_sentence, s@, o@);
            }
            name_map_insert(&mut doc.next_sentence, s, o);
            Ok(())
        } else if crate::text::str_eq(
            p,
            "http://persistence.uni-leipzig.org/nlp2rdf/ontologies/nif-core#nextWord",
        ) {
            let (s, o) = Self::link_names(t)?;
            proof {
                lemma_insert_distinct(old(doc)@.next_word, s@, o@);
            }
            name_map_insert(&mut doc.next_word, s, o);
            Ok(())
        } else if crate::text::str_eq(
            p,
            "http://ufal.mff.cuni.cz/conll2009-st/task-description.html#HEAD",
        ) {
            let (s, o) = Self::link_names(t)?;
            proof {
                lemma_insert_distinct(old(doc)@.word_to_sentence, s@, o@);
            }
            name_map_insert(&mut doc.word_to_sentence, s, o);
            Ok(())
        } else if crate::text::str_eq(p, "http://purl.org/powla/powla.owl#hasParent") {
            let (s, o) = Self::link_names(t)?;
            let ghost sv = s@;
            let ghost ov = o@;
            doc.child_to_parent.push((s, o));
            proof {
                assert(kv_view(doc.child_to_parent@) =~= old(doc)@.child_to_parent.push((sv, ov)));
            }
            Ok(())
        } else {
            let key = if crate::text::str_eq(
                p,
                "http://ufal.mff.cuni.cz/conll2009-st/task-description.html#CAT",
            ) {
                Some(AnnoKey::Cat)
            } else if crate::text::str_eq(
                p,
                "http://ufal.mff.cuni.cz/conll2009-st/task-description.html#INFL",
            ) {
                Some(AnnoKey::Infl)
            } else if crate::text::str_eq(
                p,
                "http://ufal.mff.cuni.cz/conll2009-st/task-description.html#LEMMA",
            ) {
                Some(AnnoKey::Lemma)
            } else if crate::text::str_eq(
                p,
                "http://ufal.mff.cuni.cz/conll2009-st/task-description.html#POS",
            ) {
                Some(AnnoKey::Pos)
            } else if crate::text::str_eq(
                p,
                "http://ufal.mff.cuni.cz/conll2009-st/task-description.html#WORD",
            ) {
                Some(AnnoKey::Word)
            } else {
                None
            };
            match key {
                Some(key) => {
                    if let RdfSubject::Named(s) = &t.subject {
                        if let RdfTerm::SimpleLiteral(v) = &t.object {
                            proof {
                                lemma_insert_distinct(old(doc)@.node_annos, (s@, key), v@);
                            }
                            anno_map_insert(
                                &mut doc.node_annos,
                                NodeName(s.clone()),
                                key,
                                v.clone(),
                            );
                            Ok(())
                        } else {
                            Err(MergeError::ObjectNotLiteral { predicate: t.predicate.clone() })
                        }
                    } else {
                        Err(MergeError::SubjectNotNamed { predicate: t.predicate.clone() })
                    }
                },
                None => Ok(()),
            }
        }
    }

    /// The subject and object names of a link triple.
    fn link_names(t: &Triple) -> (r: Result<(NodeName, NodeName), MergeError>)
        ensures
            match r {
                Ok(pair) => named_pair(*t) == Ok::<(Seq<char>, Seq<char>), ErrView>(
                    (pair.0@, pair.1@),
                ),
                Err(e) => named_pair(*t) == Err::<(Seq<char>, Seq<char>), ErrView>(e@),
            },
    {
        if let RdfSubject::Named(s) = &t.subject {
            if let RdfTerm::Named(o) = &t.object {
                Ok((NodeName(s.clone()), NodeName(o.clone())))
            } else {
                Err(MergeError::ObjectNotNamed { predicate: t.predicate.clone() })
            }
        } else {
            Err(MergeError::SubjectNotNamed { predicate: t.predicate.clone() })
        }
    }

    /// Whether a node is typed as a word.
    pub fn is_word(&self, name: &NodeName) -> (r: bool)
        ensures
            r == is_word_spec(self@, name@),
    {
        match name_map_get(&self.node_types, name) {
            Some(t) => match *t {
                NodeType::Word => true,
                NodeType::Sentence => false,
            },
            None => false,
        }
    }

    /// The value of one annotation slot of a node.
    pub fn anno(&self, name: &NodeName, key: AnnoKey) -> (r: Option<&String>)
        ensures
            match r {
                Some(v) => anno_of(self@, name@, key) == Some(v@),
                None => anno_of(self@, name@, key) is None,
            },
    {
        let mut i: usize = 0;
        while i < self.node_annos.len()
            invariant
                i <= self.node_annos@.len(),
                forall|j: int| 0 <= j < i ==> annos_view(self.node_annos@)[j].0 != (name@, key),
            decreases self.node_annos@.len() - i,
        {
            let hit = self.node_annos[i].0.0 == *name && self.node_annos[i].0.1 == key;
            if hit {
                proof {
                    lemma_lookup_at_first(annos_view(self.node_annos@), i as int);
                }
                return Some(&self.node_annos[i].1);
            }
            i += 1;
        }
        proof {
            if has_key(annos_view(self.node_annos@), (name@, key)) {
                let j = choose|j: int|
                    0 <= j < annos_view(self.node_annos@).len() && annos_view(
                        self.node_annos@,
                    )[j].0 == (name@, key);
                assert(false);
            }
            lemma_lookup_none(annos_view(self.node_annos@), (name@, key));
        }
        None
    }

    /// The dominance edges, as (child, parent) pairs in file order.
    pub fn parent_edges(&self) -> (r: &Vec<(NodeName, NodeName)>)
        ensures
            kv_view(r@) == self@.child_to_parent,
    {
        &self.child_to_parent
    }
}

/// The views of a vector of node names.
pub open spec fn names_view(s: Seq<NodeName>) -> Seq<Seq<char>> {
    s.map_values(|n: NodeName| n@)
}

/// Prepends a prefix to a chain-walk result.
pub open spec fn opt_prepend(p: Seq<Seq<char>>, o: Option<Seq<Seq<char>>>) -> Option<
    Seq<Seq<char>>,
> {
    match o {
        None => None,
        Some(r) => Some(p + r),
    }
}

/// The nodes reached from `start` by following the successor map to
/// exhaustion; `None` when the walk outlives what the map could feed, which
/// only a revisited node can cause.
pub open spec fn spec_chain(
    m: Seq<(Seq<char>, Seq<char>)>,
    start: Seq<char>,
    fuel: nat,
) -> Option<Seq<Seq<char>>>
    decreases fuel,
{
    if fuel == 0 {
        None
    } else {
        match map_lookup(m, start) {
            None => Some(seq![start]),
            Some(next) => match spec_chain(m, next, (fuel - 1) as nat) {
                None => None,
                Some(rest) => Some(seq![start] + rest),
            },
        }
    }
}

/// A sentence that heads the next-sentence chain: typed as a sentence and
/// never the target of a next-sentence link.
pub open spec fn is_sentence_head(d: DocView, n: Seq<char>) -> bool {
    type_of(d, n) == Some(NodeType::Sentence) && !is_value(d.next_sentence, n)
}

/// A word belonging to sentence `s`.
pub open spec fn is_word_of(d: DocView, s: Seq<char>, w: Seq<char>) -> bool {
    type_of(d, w) == Some(NodeType::Word) && map_lookup(d.word_to_sentence, w) == Some(s)
}

/// A word of sentence `s` that heads the next-word chain.
pub open spec fn is_word_head(d: DocView, s: Seq<char>, w: Seq<char>) -> bool {
    is_word_of(d, s, w) && !is_value(d.next_word, w)
}

/// The sentences of a document in chain order: from the unique chain head,
/// following next-sentence links to exhaustion.
pub open spec fn spec_sentence_order(d: DocView) -> Result<Seq<Seq<char>>, ErrView> {
    if !(exists|n: Seq<char>| is_sentence_head(d, n)) {
        Err(ErrView::NoSentenceChainHead)
    } else if exists|n1: Seq<char>, n2: Seq<char>|
        is_sentence_head(d, n1) && is_sentence_head(d, n2) && n1 != n2 {
        Err(ErrView::AmbiguousSentenceChainHead)
    } else {
        let h = choose|n: Seq<char>| is_sentence_head(d, n);
        match spec_chain(d.next_sentence, h, d.next_sentence.len() + 1) {
            None => Err(ErrView::CyclicSentenceChain),
            Some(c) => Ok(c),
        }
    }
}

/// The words of one sentence in chain order; a sentence without words
/// contributes an empty sequence.
pub open spec fn spec_words_of_sentence(d: DocView, s: Seq<char>) -> Result<
    Seq<Seq<char>>,
    ErrView,
> {
    if !(exists|w: Seq<char>| is_word_of(d, s, w)) {
        Ok(Seq::empty())
    } else if !(exists|w: Seq<char>| is_word_head(d, s, w)) {
        Err(ErrView::NoWordChainHead(s))
    } else if exists|w1: Seq<char>, w2: Seq<char>|
        is_word_head(d, s, w1) && is_word_head(d, s, w2) && w1 != w2 {
        Err(ErrView::AmbiguousWordChainHead(s))
    } else {
        let h = choose|w: Seq<char>| is_word_head(d, s, w);
        match spec_chain(d.next_word, h, d.next_word.len() + 1) {
            None => Err(ErrView::CyclicWordChain(s)),
            Some(c) => Ok(c),
        }
    }
}

/// The per-sentence word sequences, concatenated in sentence order.
pub open spec fn spec_words_for_sentences(d: DocView, ss: Seq<Seq<char>>) -> Result<
    Seq<Seq<char>>,
    ErrView,
>
    decreases ss.len(),
{
    if ss.len() == 0 {
        Ok(Seq::empty())
    } else {
        match spec_words_of_sentence(d, ss[0]) {
            Err(e) => Err(e),
            Ok(ws) => match spec_words_for_sentences(d, ss.drop_first()) {
                Err(e) => Err(e),
                Ok(rest) => Ok(ws + rest),
            },
        }
    }
}

/// The ordered word sequence of a document.
pub open spec fn spec_word_order(d: DocView) -> Result<Seq<Seq<char>>, ErrView> {
    match spec_sentence_order(d) {
        Err(e) => Err(e),
        Ok(ss) => spec_words_for_sentences(d, ss),
    }
}

/// Whether `n` is the target of some link of `m`.
fn is_link_target(m: &Vec<(NodeName, NodeName)>, n: &NodeName) -> (r: bool)
    ensures
        r == is_value(kv_view(m@), n@),
{
    let mut i: usize = 0;
    while i < m.len()
        invariant
            i <= m@.len(),
            forall|j: int| 0 <= j < i ==> kv_view(m@)[j].1 != n@,
        decreases m@.len() - i,
    {
        let hit = m[i].1 == *n;
        if hit {
            proof {
                assert(kv_view(m@)[i as int].1 == n@);
            }
            return true;
        }
        i += 1;
    }
    proof {
        if is_value(kv_view(m@), n@) {
            let j = choose|j: int| 0 <= j < kv_view(m@).len() && kv_view(m@)[j].1 == n@;
            assert(false);
        }
    }
    false
}

/// Walks a successor map from `start` to exhaustion; `None` on a revisited
/// node.
fn walk_chain(m: &Vec<(NodeName, NodeName)>, start: &NodeName) -> (r: Option<Vec<NodeName>>)
    ensures
        match r {
            Some(v) => spec_chain(kv_view(m@), start@, m@.len() + 1) == Some(names_view(v@)),
            None => spec_chain(kv_view(m@), start@, m@.len() + 1) is None,
        },
{
    let mut out: Vec<NodeName> = Vec::new();
    let mut cur: NodeName = start.clone();
    let mut steps: usize = 0;
    let mlen = m.len();
    proof {
        assert(names_view(out@) =~= Seq::<Seq<char>>::empty());
        assert(Seq::<Seq<char>>::empty() + seq![cur@] =~= seq![cur@]);
    }
    loop
        invariant
            steps <= mlen,
            mlen == m@.len(),
            spec_chain(kv_view(m@), start@, m@.len() + 1) == opt_prepend(
                names_view(out@),
                spec_chain(kv_view(m@), cur@, (m@.len() + 1 - steps) as nat),
            ),
        decreases mlen - steps,
    {
        let ghost fuel = (m@.len() + 1 - steps) as nat;
        match name_map_get(m, &cur) {
            None => {
                proof {
                    assert(spec_chain(kv_view(m@), cur@, fuel) == Some(seq![cur@]));
                    assert(names_view(out@.push(cur)) =~= names_view(out@) + seq![cur@]);
                }
                out.push(cur);
                return Some(out);
            },
            Some(next) => {
                if steps == mlen {
                    proof {
                        assert(spec_chain(kv_view(m@), next@, 0) is None);
                        assert(spec_chain(kv_view(m@), cur@, fuel) is None);
                    }
                    return None;
                }
                let next = next.clone();
                proof {
                    let rest = spec_chain(kv_view(m@), next@, (fuel - 1) as nat);
                    assert(names_view(out@.push(cur)) =~= names_view(out@) + seq![cur@]);
                    match rest {
                        None => {},
                        Some(rr) => {
                            assert((names_view(out@) + seq![cur@]) + rr =~= names_view(out@) + (
                            seq![cur@] + rr));
                        },
                    }
                }
                out.push(cur);
                cur = next;
                steps += 1;
            },
        }
    }
}

impl Document {
    /// The unique sentence that heads the next-sentence chain.
    fn find_sentence_head(&self) -> (r: Result<NodeName, MergeError>)
        requires
            doc_wf(self@),
        ensures
            match r {
                Ok(h) => is_sentence_head(self@, h@) && (forall|n: Seq<char>|
                    is_sentence_head(self@, n) ==> n == h@),
                Err(e) => {
                    ||| (e@ == ErrView::NoSentenceChainHead && !(exists|n: Seq<char>|
                        is_sentence_head(self@, n)))
                    ||| (e@ == ErrView::AmbiguousSentenceChainHead && (exists|
                        n1: Seq<char>,
                        n2: Seq<char>,
                    |
                        is_sentence_head(self@, n1) && is_sentence_head(self@, n2) && n1 != n2))
                },
            },
    {
        let ghost tv = kv_view(self.node_types@);
        let mut found: Option<usize> = None;
        let mut i: usize = 0;
        while i < self.node_types.len()
            invariant
                doc_wf(self@),
                tv == kv_view(self.node_types@),
                i <= self.node_types@.len(),
                match found {
                    Some(fi) => fi < i && tv[fi as int].1 == NodeType::Sentence && !is_value(
                        self@.next_sentence,
                        tv[fi as int].0,
                    ) && (forall|j: int|
                        0 <= j < i && j != fi ==> !(tv[j].1 == NodeType::Sentence && !is_value(
                            self@.next_sentence,
                            tv[j].0,
                        ))),
                    None => forall|j: int|
                        0 <= j < i ==> !(tv[j].1 == NodeType::Sentence && !is_value(
                            self@.next_sentence,
                            tv[j].0,
                        )),
                },
            decreases self.node_types@.len() - i,
        {
            let is_sent = match self.node_types[i].1 {
                NodeType::Sentence => true,
                NodeType::Word => false,
            };
            if is_sent && !is_link_target(&self.next_sentence, &self.node_types[i].0) {
                match found {
                    Some(fi) => {
                        proof {
                            lemma_lookup_distinct(tv, fi as int);
                            lemma_lookup_distinct(tv, i as int);
                            assert(is_sentence_head(self@, tv[fi as int].0));
                            assert(is_sentence_head(self@, tv[i as int].0));
                            assert(tv[fi as int].0 != tv[i as int].0);
                        }
                        return Err(MergeError::AmbiguousSentenceChainHead);
                    },
                    None => {
                        found = Some(i);
                    },
                }
            }
            i += 1;
        }
        match found {
            Some(fi) => {
                proof {
                    lemma_lookup_distinct(tv, fi as int);
                    assert(is_sentence_head(self@, tv[fi as int].0));
                    assert forall|n: Seq<char>| is_sentence_head(self@, n) implies n == tv[fi as int].0 by {
                        lemma_lookup_some_entry(tv, n);
                        let j = choose|j: int|
                            0 <= j < tv.len() && tv[j].0 == n && tv[j].1 == map_lookup(
                                tv,
                                n,
                            )->Some_0;
                        assert(j == fi);
                    }
                }
                Ok(self.node_types[fi].0.clone())
            },
            None => {
                proof {
                    if exists|n: Seq<char>| is_sentence_head(self@, n) {
                        let n = choose|n: Seq<char>| is_sentence_head(self@, n);
                        lemma_lookup_some_entry(tv, n);
                        let j = choose|j: int|
                            0 <= j < tv.len() && tv[j].0 == n && tv[j].1 == map_lookup(
                                tv,
                                n,
                            )->Some_0;
                        assert(false);
                    }
                }
                Err(MergeError::NoSentenceChainHead)
            },
        }
    }

    /// The unique word heading the next-word chain of sentence `s`, if the
    /// sentence has words at all.
    fn find_word_head(&self, s: &NodeName) -> (r: Result<Option<NodeName>, MergeError>)
        requires
            doc_wf(self@),
        ensures
            match r {
                Ok(Some(h)) => is_word_head(self@, s@, h@) && (forall|w: Seq<char>|
                    is_word_head(self@, s@, w) ==> w == h@),
                Ok(None) => !(exists|w: Seq<char>| is_word_of(self@, s@, w)),
                Err(e) => {
                    ||| (e@ == ErrView::NoWordChainHead(s@) && (exists|w: Seq<char>|
                        is_word_of(self@, s@, w)) && !(exists|w: Seq<char>|
                        is_word_head(self@, s@, w)))
                    ||| (e@ == ErrView::AmbiguousWordChainHead(s@) && (exists|
                        w1: Seq<char>,
                        w2: Seq<char>,
                    |
                        is_word_head(self@, s@, w1) && is_word_head(self@, s@, w2) && w1 != w2))
                },
            },
    {
        let ghost tv = kv_view(self.node_types@);
        let mut found: Option<usize> = None;
        let ghost mut any_word_at: int = 0;
        let mut any_word = false;
        let mut i: usize = 0;
        while i < self.node_types.len()
            invariant
                doc_wf(self@),
                tv == kv_view(self.node_types@),
                i <= self.node_types@.len(),
                any_word ==> 0 <= any_word_at < i && tv[any_word_at].1 == NodeType::Word
                    && map_lookup(self@.word_to_sentence, tv[any_word_at].0) == Some(s@),
                !any_word ==> (forall|j: int|
                    0 <= j < i ==> !(tv[j].1 == NodeType::Word && map_lookup(
                        self@.word_to_sentence,
                        tv[j].0,
                    ) == Some(s@))),
                match found {
                    Some(fi) => fi < i && any_word && tv[fi as int].1 == NodeType::Word
                        && map_lookup(self@.word_to_sentence, tv[fi as int].0) == Some(s@)
                        && !is_value(self@.next_word, tv[fi as int].0) && (forall|j: int|
                        0 <= j < i && j != fi ==> !(tv[j].1 == NodeType::Word && map_lookup(
                            self@.word_to_sentence,
                            tv[j].0,
                        ) == Some(s@) && !is_value(self@.next_word, tv[j].0))),
                    None => forall|j: int|
                        0 <= j < i ==> !(tv[j].1 == NodeType::Word && map_lookup(
                            self@.word_to_sentence,
                            tv[j].0,
                        ) == Some(s@) && !is_value(self@.next_word, tv[j].0)),
                },
            decreases self.node_types@.len() - i,
        {
            let is_word_type = match self.node_types[i].1 {
                NodeType::Word => true,
                NodeType::Sentence => false,
            };
            if is_word_type {
                let belongs = match name_map_get(&self.word_to_sentence, &self.node_types[i].0) {
                    Some(sent) => *sent == *s,
                    None => false,
                };
                if belongs {
                    if !any_word {
                        any_word = true;
                        proof {
                            any_word_at = i as int;
                        }
                    }
                    if !is_link_target(&self.next_word, &self.node_types[i].0) {
                        match found {
                            Some(fi) => {
                                proof {
                                    lemma_lookup_distinct(tv, fi as int);
                                    lemma_lookup_distinct(tv, i as int);
                                    assert(is_word_head(self@, s@, tv[fi as int].0));
                                    assert(is_word_head(self@, s@, tv[i as int].0));
                                    assert(tv[fi as int].0 != tv[i as int].0);
                                }
                                return Err(
                                    MergeError::AmbiguousWordChainHead { sentence: s.clone().0 },
                                );
                            },
                            None => {
                                found = Some(i);
                            },
                        }
                    }
                }
            }
            i += 1;
        }
        match found {
            Some(fi) => {
                proof {
                    lemma_lookup_distinct(tv, fi as int);
                    assert(is_word_head(self@, s@, tv[fi as int].0));
                    assert forall|w: Seq<char>| is_word_head(self@, s@, w) implies w == tv[fi as int].0 by {
                        lemma_lookup_some_entry(tv, w);
                        let j = choose|j: int|
                            0 <= j < tv.len() && tv[j].0 == w && tv[j].1 == map_lookup(
                                tv,
                                w,
                            )->Some_0;
                        assert(j == fi);
                    }
                }
                Ok(Some(self.node_types[fi].0.clone()))
            },
            None => {
                if any_word {
                    proof {
                        lemma_lookup_distinct(tv, any_word_at);
                        assert(is_word_of(self@, s@, tv[any_word_at].0));
                        if exists|w: Seq<char>| is_word_head(self@, s@, w) {
                            let w = choose|w: Seq<char>| is_word_head(self@, s@, w);
                            lemma_lookup_some_entry(tv, w);
                            let j = choose|j: int|
                                0 <= j < tv.len() && tv[j].0 == w && tv[j].1 == map_lookup(
                                    tv,
                                    w,
                                )->Some_0;
                            assert(false);
                        }
                    }
                    Err(MergeError::NoWordChainHead { sentence: s.clone().0 })
                } else {
                    proof {
                        if exists|w: Seq<char>| is_word_of(self@, s@, w) {
                            let w = choose|w: Seq<char>| is_word_of(self@, s@, w);
                            lemma_lookup_some_entry(tv, w);
                            let j = choose|j: int|
                                0 <= j < tv.len() && tv[j].0 == w && tv[j].1 == map_lookup(
                                    tv,
                                    w,
                                )->Some_0;
                            assert(false);
                        }
                    }
                    Ok(None)
                }
            },
        }
    }

    /// The ordered word sequence of the document: for each sentence of the
    /// next-sentence chain, the words of its next-word chain, concatenated.
    pub fn word_nodes_in_order(&self) -> (r: Result<Vec<NodeName>, MergeError>)
        requires
            doc_wf(self@),
        ensures
            match r {
                Ok(v) => spec_word_order(self@) == Ok::<Seq<Seq<char>>, ErrView>(names_view(v@)),
                Err(e) => spec_word_order(self@) == Err::<Seq<Seq<char>>, ErrView>(e@),
            },
    {
        let head = match self.find_sentence_head() {
            Ok(h) => h,
            Err(e) => {
                return Err(e);
            },
        };
        proof {
            let h = choose|n: Seq<char>| is_sentence_head(self@, n);
            assert(h == head@);
        }
        let sentences = match walk_chain(&self.next_sentence, &head) {
            Some(c) => c,
            None => {
                return Err(MergeError::CyclicSentenceChain);
            },
        };
        let ghost ss = names_view(sentences@);
        proof {
            assert(spec_sentence_order(self@) == Ok::<Seq<Seq<char>>, ErrView>(ss));
            assert(ss.skip(0) =~= ss);
        }
        let mut words: Vec<NodeName> = Vec::new();
        let mut i: usize = 0;
        proof {
            assert(names_view(words@) =~= Seq::<Seq<char>>::empty());
        }
        while i < sentences.len()
            invariant
                doc_wf(self@),
                i <= sentences@.len(),
                ss == names_view(sentences@),
                spec_sentence_order(self@) == Ok::<Seq<Seq<char>>, ErrView>(ss),
                spec_words_for_sentences(self@, ss) == (match spec_words_for_sentences(
                    self@,
                    ss.skip(i as int),
                ) {
                    Err(e) => Err::<Seq<Seq<char>>, ErrView>(e),
                    Ok(rest) => Ok::<Seq<Seq<char>>, ErrView>(names_view(words@) + rest),
                }),
            decreases sentences@.len() - i,
        {
            let ghost tail = ss.skip(i as int);
            proof {
                assert(tail[0] == ss[i as int]);
                assert(tail.drop_first() =~= ss.skip(i as int + 1));
            }
            let s = &sentences[i];
            match self.find_word_head(s) {
                Err(e) => {
                    return Err(e);
                },
                Ok(None) => {
                    proof {
                        assert(spec_words_of_sentence(self@, s@) == Ok::<
                            Seq<Seq<char>>,
                            ErrView,
                        >(Seq::empty()));
                        if spec_words_for_sentences(self@, ss.skip(i as int + 1)) is Ok {
                            let rest = spec_words_for_sentences(
                                self@,
                                ss.skip(i as int + 1),
                            )->Ok_0;
                            assert(Seq::<Seq<char>>::empty() + rest =~= rest);
                        }
                    }
                },
                Ok(Some(h)) => {
                    proof {
                        let hh = choose|w: Seq<char>| is_word_head(self@, s@, w);
                        assert(hh == h@);
                    }
                    match walk_chain(&self.next_word, &h) {
                        None => {
                            proof {
                                assert(spec_words_of_sentence(self@, s@) == Err::<
                                    Seq<Seq<char>>,
                                    ErrView,
                                >(ErrView::CyclicWordChain(s@)));
                            }
                            return Err(MergeError::CyclicWordChain { sentence: s.clone().0 });
                        },
                        Some(mut chain) => {
                            proof {
                                assert(spec_words_of_sentence(self@, s@) == Ok::<
                                    Seq<Seq<char>>,
                                    ErrView,
                                >(names_view(chain@)));
                                assert(names_view(words@ + chain@) =~= names_view(words@)
                                    + names_view(chain@));
                                if spec_words_for_sentences(self@, ss.skip(i as int + 1)) is Ok {
                                    let rest = spec_words_for_sentences(
                                        self@,
                                        ss.skip(i as int + 1),
                                    )->Ok_0;
                                    assert((names_view(words@) + names_view(chain@)) + rest
                                        =~= names_view(words@) + (names_view(chain@) + rest));
                                }
                            }
                            words.append(&mut chain);
                        },
                    }
                },
            }
            i += 1;
        }
        proof {
            assert(ss.skip(ss.len() as int) =~= Seq::<Seq<char>>::empty());
            if spec_words_for_sentences(self@, ss) is Ok {
                assert(names_view(words@) + Seq::<Seq<char>>::empty() =~= names_view(words@));
            }
        }
        Ok(words)
    }
}

/// Whether a file of the given name is bound to a document: its extension
/// is `ttl` and its stem begins with the document name and an underscore.
pub open spec fn is_doc_file(f: Seq<char>, doc: Seq<char>) -> bool {
    match crate::text::spec_last_index(f, '.') {
        Some(i) => i > 0 && f.skip(i + 1) == seq!['t', 't', 'l'] && i >= doc.len() + 1 && f.take(
            doc.len() as int + 1,
        ) == doc + seq!['_'],
        None => false,
    }
}

/// The directory that holds the tree-source files.
pub struct Storage {
    dir: String,
}

impl View for Storage {
    type V = Seq<char>;

    closed spec fn view(&self) -> Seq<char> {
        self.dir@
    }
}

impl Storage {
    /// Remembers the directory.
    pub fn from_dir(dir: String) -> (r: Storage)
        ensures
            r@ == dir@,
    {
        Storage { dir }
    }

    /// The directory path.
    pub fn dir(&self) -> (r: &str)
        ensures
            r@ == self@,
    {
        self.dir.as_str()
    }

    /// Picks, among the given file names, the one bound to the document:
    /// none is a per-document skip, more than one is fatal.
    pub fn select_document_file(&self, doc_name: &str, file_names: &Vec<String>) -> (r: Result<
        Option<usize>,
        MergeError,
    >)
        ensures
            match r {
                Ok(Some(i)) => i < file_names@.len() && is_doc_file(
                    file_names@[i as int]@,
                    doc_name@,
                ) && (forall|j: int|
                    0 <= j < file_names@.len() && j != i ==> !is_doc_file(
                        file_names@[j]@,
                        doc_name@,
                    )),
                Ok(None) => forall|j: int|
                    0 <= j < file_names@.len() ==> !is_doc_file(file_names@[j]@, doc_name@),
                Err(e) => e@ == ErrView::AmbiguousDocumentFile(doc_name@) && (exists|
                    i: int,
                    j: int,
                |
                    0 <= i < j < file_names@.len() && is_doc_file(file_names@[i]@, doc_name@)
                        && is_doc_file(file_names@[j]@, doc_name@)),
            },
    {
        let mut pat = crate::text::str_to_chars(doc_name);
        pat.push('_');
        proof {
            assert(pat@ =~= doc_name@ + seq!['_']);
        }
        let mut ttl_ext: Vec<char> = Vec::new();
        ttl_ext.push('t');
        ttl_ext.push('t');
        ttl_ext.push('l');
        proof {
            assert(ttl_ext@ =~= seq!['t', 't', 'l']);
        }
        let mut found: Option<usize> = None;
        let mut k: usize = 0;
        while k < file_names.len()
            invariant
                k <= file_names@.len(),
                pat@ == doc_name@ + seq!['_'],
                ttl_ext@ == seq!['t', 't', 'l'],
                match found {
                    Some(fi) => fi < k && is_doc_file(file_names@[fi as int]@, doc_name@) && (
                    forall|j: int|
                        0 <= j < k && j != fi ==> !is_doc_file(file_names@[j]@, doc_name@)),
                    None => forall|j: int|
                        0 <= j < k ==> !is_doc_file(file_names@[j]@, doc_name@),
                },
            decreases file_names@.len() - k,
        {
            let cs = crate::text::str_to_chars(file_names[k].as_str());
            let n = cs.len();
            let candidate = match crate::text::last_index_of(&cs, '.') {
                Some(dot) => {
                    if dot > 0 && dot >= pat.len() {
                        let ext = crate::text::copy_range(&cs, dot + 1, n);
                        let pre = crate::text::copy_range(&cs, 0, pat.len());
                        proof {
                            assert(ext@ =~= file_names@[k as int]@.skip(dot + 1));
                            assert(pre@ =~= file_names@[k as int]@.take(pat@.len() as int));
                        }
                        crate::text::chars_eq(&ext, &ttl_ext) && crate::text::chars_eq(
                            &pre,
                            &pat,
                        )
                    } else {
                        false
                    }
                },
                None => false,
            };
            proof {
                assert(candidate == is_doc_file(file_names@[k as int]@, doc_name@));
            }
            if candidate {
                match found {
                    Some(_) => {
                        return Err(
                            MergeError::AmbiguousDocumentFile {
                                doc_name: String::from_str(doc_name),
                            },
                        );
                    },
                    None => {
                        found = Some(k);
                    },
                }
            }
            k += 1;
        }
        Ok(found)
    }
}

/// Once a prefix of the triples fails, the whole sequence fails the same way.
proof fn lemma_document_error_persists(ts: Seq<Triple>, i: int, e: ErrView)
    requires
        0 <= i <= ts.len(),
        spec_document(ts.take(i)) == Err::<DocView, ErrView>(e),
    ensures
        spec_document(ts) == Err::<DocView, ErrView>(e),
    decreases ts.len() - i,
{
    if i < ts.len() {
        assert(ts.take(i + 1).drop_last() =~= ts.take(i));
        lemma_document_error_persists(ts, i + 1, e);
    } else {
        assert(ts.take(i) =~= ts);
    }
}

} // verus!
