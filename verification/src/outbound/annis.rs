//! Update instructions, corpus handles, renaming, and configuration
//! splicing for the target store.
//!
//! An [`Update`] buffers creation instructions; the store applies a whole
//! buffer atomically, one batch per document or pass, so a node instruction
//! always precedes the instructions that reference the node within its
//! batch. Applying a buffer, running queries and exporting are the store's
//! work and stay outside the library; this module computes exactly what each
//! batch must hold.

use vstd::prelude::*;
use vstd::string::StringExecFns;

use crate::error::{ErrView, MergeError};
use crate::rename::{spec_apply, url_encode, url_encoded, RenamePattern};
use crate::text::{
    chars_eq, chars_to_string, copy_range, find_from, first_index_of, spec_find, spec_first_index,
    str_eq, str_to_chars,
};

verus! {

/// The relation kinds of the target store that typed edges may belong to.
#[derive(Clone, Copy, Debug, PartialEq, Eq, Structural)]
pub enum AnnotationComponentType {
    Coverage,
    Dominance,
    Pointing,
    Ordering,
    LeftToken,
    RightToken,
    PartOf,
}

/// One creation instruction for the target store.
#[derive(Debug)]
pub enum UpdateEvent {
    AddNode { node_name: String, node_type: String },
    AddNodeLabel { node_name: String, anno_ns: String, anno_name: String, anno_value: String },
    AddEdge {
        source_node: String,
        target_node: String,
        layer: String,
        component_type: AnnotationComponentType,
        component_name: String,
    },
}

/// Spec-level image of an [`UpdateEvent`].
pub ghost enum EventView {
    AddNode { node_name: Seq<char>, node_type: Seq<char> },
    AddNodeLabel {
        node_name: Seq<char>,
        anno_ns: Seq<char>,
        anno_name: Seq<char>,
        anno_value: Seq<char>,
    },
    AddEdge {
        source_node: Seq<char>,
        target_node: Seq<char>,
        layer: Seq<char>,
        component_type: AnnotationComponentType,
        component_name: Seq<char>,
    },
}

impl View for UpdateEvent {
    type V = EventView;

    open spec fn view(&self) -> EventView {
        match self {
            UpdateEvent::AddNode { node_name, node_type } => EventView::AddNode {
                node_name: node_name@,
                node_type: node_type@,
            },
            UpdateEvent::AddNodeLabel { node_name, anno_ns, anno_name, anno_value } =>
                EventView::AddNodeLabel {
                node_name: node_name@,
                anno_ns: anno_ns@,
                anno_name: anno_name@,
                anno_value: anno_value@,
            },
            UpdateEvent::AddEdge {
                source_node,
                target_node,
                layer,
                component_type,
                component_name,
            } => EventView::AddEdge {
                source_node: source_node@,
                target_node: target_node@,
                layer: layer@,
                component_type: *component_type,
                component_name: component_name@,
            },
        }
    }
}

/// The view of an instruction vector.
pub open spec fn events_view(evs: Seq<UpdateEvent>) -> Seq<EventView> {
    evs.map_values(|e: UpdateEvent| e@)
}

/// A buffer of creation instructions, applied atomically as one batch.
#[derive(Debug)]
pub struct Update {
    events: Vec<UpdateEvent>,
}

impl View for Update {
    type V = Seq<EventView>;

    closed spec fn view(&self) -> Seq<EventView> {
        events_view(self.events@)
    }
}

impl Update {
    /// An empty batch.
    pub fn new() -> (r: Update)
        ensures
            r@ == Seq::<EventView>::empty(),
    {
        let u = Update { events: Vec::new() };
        proof {
            assert(u@ =~= Seq::<EventView>::empty());
        }
        u
    }

    /// Buffers a node creation.
    pub fn add_node(&mut self, node_name: String, node_type: String)
        ensures
            final(self)@ == old(self)@.push(
                EventView::AddNode { node_name: node_name@, node_type: node_type@ },
            ),
    {
        let ghost nv = node_name@;
        let ghost tv = node_type@;
        self.events.push(UpdateEvent::AddNode { node_name, node_type });
        proof {
            assert(self@ =~= old(self)@.push(EventView::AddNode { node_name: nv, node_type: tv }));
        }
    }

    /// Buffers a node annotation.
    pub fn add_node_anno(
        &mut self,
        node_name: String,
        anno_ns: String,
        anno_name: String,
        anno_value: String,
    )
        ensures
            final(self)@ == old(self)@.push(
                EventView::AddNodeLabel {
                    node_name: node_name@,
                    anno_ns: anno_ns@,
                    anno_name: anno_name@,
                    anno_value: anno_value@,
                },
            ),
    {
        let ghost nv = node_name@;
        let ghost ns = anno_ns@;
        let ghost an = anno_name@;
        let ghost av = anno_value@;
        self.events.push(UpdateEvent::AddNodeLabel { node_name, anno_ns, anno_name, anno_value });
        proof {
            assert(self@ =~= old(self)@.push(
                EventView::AddNodeLabel { node_name: nv, anno_ns: ns, anno_name: an, anno_value: av },
            ));
        }
    }

    /// Buffers a typed edge creation.
    pub fn add_edge(
        &mut self,
        source_node: String,
        target_node: String,
        component_type: AnnotationComponentType,
        layer: String,
        component_name: String,
    )
        ensures
            final(self)@ == old(self)@.push(
                EventView::AddEdge {
                    source_node: source_node@,
                    target_node: target_node@,
                    layer: layer@,
                    component_type: component_type,
                    component_name: component_name@,
                },
            ),
    {
        let ghost sv = source_node@;
        let ghost tv = target_node@;
        let ghost lv = layer@;
        let ghost cv = component_name@;
        self.events.push(
            UpdateEvent::AddEdge {
                source_node,
                target_node,
                layer,
                component_type,
                component_name,
            },
        );
        proof {
            assert(self@ =~= old(self)@.push(
                EventView::AddEdge {
                    source_node: sv,
                    target_node: tv,
                    layer: lv,
                    component_type: component_type,
                    component_name: cv,
                },
            ));
        }
    }

    /// The buffered instructions, in emission order.
    pub fn events(&self) -> (r: &Vec<UpdateEvent>)
        ensures
            events_view(r@) == self@,
    {
        &self.events
    }
}

/// What one node name becomes under a corpus rename: the corpus-root name is
/// replaced outright; a name with a path separator keeps everything after
/// the separator and has its encoded corpus prefix replaced; any other name
/// is rejected.
pub open spec fn rename_one(name: Seq<char>, corpus: Seq<char>, new_name: Seq<char>) -> Result<
    Seq<char>,
    ErrView,
> {
    if name == corpus {
        Ok(new_name)
    } else {
        match spec_first_index(name, '/') {
            Some(i) => if name.take(i) == url_encoded(corpus) {
                Ok(url_encoded(new_name) + seq!['/'] + name.skip(i + 1))
            } else {
                Err(ErrView::UnexpectedCorpusName(name.take(i), url_encoded(corpus)))
            },
            None => Err(ErrView::UnexpectedNodeName(name)),
        }
    }
}

/// The rename instructions for a sequence of query matches, each of which
/// must hold exactly one node name.
pub open spec fn spec_rename_events(
    ms: Seq<Seq<Seq<char>>>,
    corpus: Seq<char>,
    new_name: Seq<char>,
) -> Result<Seq<EventView>, ErrView>
    decreases ms.len(),
{
    if ms.len() == 0 {
        Ok(Seq::empty())
    } else {
        match spec_rename_events(ms.drop_last(), corpus, new_name) {
            Err(e) => Err(e),
            Ok(evs) => if ms.last().len() != 1 {
                Err(ErrView::BadMatchArity)
            } else {
                match rename_one(ms.last()[0], corpus, new_name) {
                    Err(e) => Err(e),
                    Ok(nn) => Ok(
                        evs.push(
                            EventView::AddNodeLabel {
                                node_name: ms.last()[0],
                                anno_ns: "annis"@,
                                anno_name: "node_name"@,
                                anno_value: nn,
                            },
                        ),
                    ),
                }
            },
        }
    }
}

/// Once a prefix of the matches fails, the whole sequence fails the same
/// way.
proof fn lemma_rename_error_persists(
    ms: Seq<Seq<Seq<char>>>,
    corpus: Seq<char>,
    new_name: Seq<char>,
    i: int,
    e: ErrView,
)
    requires
        0 <= i <= ms.len(),
        spec_rename_events(ms.take(i), corpus, new_name) == Err::<Seq<EventView>, ErrView>(e),
    ensures
        spec_rename_events(ms, corpus, new_name) == Err::<Seq<EventView>, ErrView>(e),
    decreases ms.len() - i,
{
    if i < ms.len() {
        assert(ms.take(i + 1).drop_last() =~= ms.take(i));
        lemma_rename_error_persists(ms, corpus, new_name, i + 1, e);
    } else {
        assert(ms.take(i) =~= ms);
    }
}

/// A corpus being written: its name in the store, and its (possibly
/// renamed) output name.
pub struct Corpus {
    original_name: String,
    name: String,
}

/// Spec-level image of a [`Corpus`].
pub ghost struct CorpusView {
    pub original_name: Seq<char>,
    pub name: Seq<char>,
}

impl View for Corpus {
    type V = CorpusView;

    closed spec fn view(&self) -> CorpusView {
        CorpusView { original_name: self.original_name@, name: self.name@ }
    }
}

impl Corpus {
    /// Adopts a resident corpus under its own name.
    pub fn from_inbound_corpus(corpus: &crate::inbound::annis::Corpus) -> (r: Corpus)
        ensures
            r@.original_name == corpus@,
            r@.name == corpus@,
    {
        let name = corpus.name();
        Corpus { original_name: String::from_str(name), name: String::from_str(name) }
    }

    /// The output name.
    pub fn name(&self) -> (r: &str)
        ensures
            r@ == self@.name,
    {
        self.name.as_str()
    }

    /// The name the corpus has in the store.
    pub fn original_name(&self) -> (r: &str)
        ensures
            r@ == self@.original_name,
    {
        self.original_name.as_str()
    }

    /// A fresh batch of instructions for this corpus.
    pub fn begin_update(&self) -> (r: Update)
        ensures
            r@ == Seq::<EventView>::empty(),
    {
        Update::new()
    }

    /// Renames the corpus: computes, for every node name the store reported,
    /// the name annotation that replaces it, and adopts the new corpus name.
    /// On an error nothing is adopted.
    pub fn update_name(&mut self, pattern: &RenamePattern, matches: &Vec<Vec<String>>) -> (r:
        Result<Update, MergeError>)
        ensures
            match r {
                Ok(u) => {
                    &&& spec_rename_events(
                        matches.deep_view(),
                        old(self)@.name,
                        spec_apply(pattern@, old(self)@.name),
                    ) == Ok::<Seq<EventView>, ErrView>(u@)
                    &&& final(self)@.name == spec_apply(pattern@, old(self)@.name)
                    &&& final(self)@.original_name == old(self)@.original_name
                },
                Err(e) => {
                    &&& spec_rename_events(
                        matches.deep_view(),
                        old(self)@.name,
                        spec_apply(pattern@, old(self)@.name),
                    ) == Err::<Seq<EventView>, ErrView>(e@)
                    &&& final(self)@ == old(self)@
                },
            },
    {
        let new_name = pattern.apply(self.name.as_str());
        let name_enc = url_encode(self.name.as_str());
        let new_enc = url_encode(new_name.as_str());
        let name_enc_chars = str_to_chars(name_enc.as_str());
        let new_enc_chars = str_to_chars(new_enc.as_str());
        let mut update = Update::new();
        let ghost msv = matches.deep_view();
        let ghost corpus = self@.name;
        let ghost newv = new_name@;
        proof {
            assert(msv.take(0) =~= Seq::<Seq<Seq<char>>>::empty());
        }
        let mut i: usize = 0;
        while i < matches.len()
            invariant
                i <= matches@.len(),
                msv == matches.deep_view(),
                msv.len() == matches@.len(),
                forall|j: int|
                    0 <= j < matches@.len() ==> #[trigger] msv[j] == matches@[j].deep_view()
                        && msv[j].len() == matches@[j]@.len(),
                spec_rename_events(msv.take(i as int), corpus, newv) == Ok::<
                    Seq<EventView>,
                    ErrView,
                >(update@),
                newv == spec_apply(pattern@, corpus),
                new_name@ == newv,
                name_enc@ == url_encoded(corpus),
                name_enc_chars@ == url_encoded(corpus),
                new_enc_chars@ == url_encoded(newv),
                self@.name == corpus,
                self@ == old(self)@,
            decreases matches@.len() - i,
        {
            let ghost prefix = msv.take(i as int);
            proof {
                assert(msv.take(i as int + 1).drop_last() =~= prefix);
                assert(msv.take(i as int + 1).last() == msv[i as int]);
            }
            let m = &matches[i];
            if m.len() != 1 {
                proof {
                    assert(msv[i as int].len() != 1);
                    lemma_rename_error_persists(
                        msv,
                        corpus,
                        newv,
                        i as int + 1,
                        ErrView::BadMatchArity,
                    );
                }
                return Err(MergeError::BadMatchArity);
            }
            let node_name = &m[0];
            proof {
                assert(msv[i as int][0] == matches@[i as int]@[0]@);
            }
            let new_node_name: String;
            if str_eq(node_name.as_str(), self.name.as_str()) {
                new_node_name = new_name.clone();
            } else {
                let chars = str_to_chars(node_name.as_str());
                match first_index_of(&chars, '/') {
                    Some(slash) => {
                        let prefix_chars = copy_range(&chars, 0, slash);
                        proof {
                            assert(prefix_chars@ =~= node_name@.take(slash as int));
                        }
                        if chars_eq(&prefix_chars, &name_enc_chars) {
                            let mut out: Vec<char> = Vec::new();
                            proof {
                                assert(Seq::<char>::empty() + new_enc_chars@ =~= new_enc_chars@);
                            }
                            crate::text::append_chars(&mut out, &new_enc_chars);
                            out.push('/');
                            let rest = copy_range(&chars, slash + 1, chars.len());
                            proof {
                                assert(rest@ =~= node_name@.skip(slash + 1));
                            }
                            crate::text::append_chars(&mut out, &rest);
                            proof {
                                assert(out@ =~= url_encoded(newv) + seq!['/'] + node_name@.skip(
                                    slash + 1,
                                ));
                            }
                            new_node_name = chars_to_string(&out);
                        } else {
                            proof {
                                lemma_rename_error_persists(
                                    msv,
                                    corpus,
                                    newv,
                                    i as int + 1,
                                    ErrView::UnexpectedCorpusName(
                                        msv[i as int][0].take(slash as int),
                                        url_encoded(corpus),
                                    ),
                                );
                            }
                            return Err(
                                MergeError::UnexpectedCorpusName {
                                    found: chars_to_string(&prefix_chars),
                                    expected: name_enc.clone(),
                                },
                            );
                        }
                    },
                    None => {
                        proof {
                            lemma_rename_error_persists(
                                msv,
                                corpus,
                                newv,
                                i as int + 1,
                                ErrView::UnexpectedNodeName(msv[i as int][0]),
                            );
                        }
                        return Err(
                            MergeError::UnexpectedNodeName { node_name: node_name.clone() },
                        );
                    },
                }
            }
            update.add_node_anno(
                node_name.clone(),
                String::from_str("annis"),
                String::from_str("node_name"),
                new_node_name,
            );
            i += 1;
        }
        proof {
            assert(msv.take(msv.len() as int) =~= msv);
        }
        self.name = new_name;
        Ok(update)
    }
}

/// The ranges of the configuration sections of an exported corpus: each
/// starts at a section opening and runs to the nearest following close
/// marker; the next section is sought after that.
pub open spec fn cdata_open() -> Seq<char> {
    seq!['<', '!', '[', 'C', 'D', 'A', 'T', 'A', '[']
}

pub open spec fn cdata_close() -> Seq<char> {
    seq![']', ']', '>']
}

pub open spec fn cdata_matches(s: Seq<char>, from: int) -> Seq<(int, int)>
    decreases s.len() - from,
    when 0 <= from
    via cdata_matches_dec
{
    match spec_find(s, cdata_open(), from) {
        None => Seq::empty(),
        Some(i) => match spec_find(s, cdata_close(), i + 9) {
            None => Seq::empty(),
            Some(j) => seq![(i, j + 3)] + cdata_matches(s, j + 3),
        },
    }
}

#[via_fn]
proof fn cdata_matches_dec(s: Seq<char>, from: int) {
    match spec_find(s, cdata_open(), from) {
        None => {},
        Some(i) => {
            crate::text::lemma_spec_find_bounds(s, cdata_open(), from);
            match spec_find(s, cdata_close(), i + 9) {
                None => {},
                Some(j) => {
                    crate::text::lemma_spec_find_bounds(s, cdata_close(), i + 9);
                },
            }
        },
    }
}

/// The exported corpus text with its unique configuration section replaced
/// by the given configuration, or the error if the section is not unique.
pub open spec fn spec_replace_config(s: Seq<char>, cfg: Seq<char>) -> Result<Seq<char>, ErrView> {
    let ms = cdata_matches(s, 0);
    if ms.len() == 0 {
        Err(ErrView::NoConfigSection)
    } else if ms.len() > 1 {
        Err(ErrView::MultipleConfigSections)
    } else {
        Ok(s.take(ms[0].0) + cdata_open() + cfg + cdata_close() + s.skip(ms[0].1))
    }
}

/// Splices the augmented configuration into the exported corpus text, in
/// place of its unique configuration section.
pub fn replace_corpus_config(graphml: &str, config: &str) -> (r: Result<String, MergeError>)
    ensures
        match r {
            Ok(out) => spec_replace_config(graphml@, config@) == Ok::<Seq<char>, ErrView>(out@),
            Err(e) => spec_replace_config(graphml@, config@) == Err::<Seq<char>, ErrView>(e@),
        },
{
    let s = str_to_chars(graphml);
    let slen = s.len();
    let cfg = str_to_chars(config);
    let mut open_pat: Vec<char> = Vec::new();
    open_pat.push('<');
    open_pat.push('!');
    open_pat.push('[');
    open_pat.push('C');
    open_pat.push('D');
    open_pat.push('A');
    open_pat.push('T');
    open_pat.push('A');
    open_pat.push('[');
    let mut close_pat: Vec<char> = Vec::new();
    close_pat.push(']');
    close_pat.push(']');
    close_pat.push('>');
    proof {
        assert(open_pat@ =~= cdata_open());
        assert(close_pat@ =~= cdata_close());
    }
    let start = match find_from(&s, &open_pat, 0) {
        Some(i) => i,
        None => {
            return Err(MergeError::NoConfigSection);
        },
    };
    let close = match find_from(&s, &close_pat, start + 9) {
        Some(j) => j,
        None => {
            return Err(MergeError::NoConfigSection);
        },
    };
    let after = close + 3;
    // A second section makes the splice ambiguous.
    match find_from(&s, &open_pat, after) {
        Some(i2) => {
            match find_from(&s, &close_pat, i2 + 9) {
                Some(j2) => {
                    proof {
                        let m_after = cdata_matches(graphml@, after as int);
                        assert(m_after == seq![(i2 as int, j2 + 3)] + cdata_matches(
                            graphml@,
                            j2 + 3,
                        ));
                        assert(cdata_matches(graphml@, 0) == seq![(start as int, after as int)]
                            + m_after);
                        assert(cdata_matches(graphml@, 0).len() > 1);
                    }
                    return Err(MergeError::MultipleConfigSections);
                },
                None => {},
            }
        },
        None => {},
    }
    proof {
        assert(cdata_matches(graphml@, after as int) =~= Seq::<(int, int)>::empty());
        assert(cdata_matches(graphml@, 0) =~= seq![(start as int, after as int)]);
    }
    let mut out = copy_range(&s, 0, start);
    crate::text::append_chars(&mut out, &open_pat);
    crate::text::append_chars(&mut out, &cfg);
    crate::text::append_chars(&mut out, &close_pat);
    let rest = copy_range(&s, after, slen);
    crate::text::append_chars(&mut out, &rest);
    proof {
        assert(graphml@.take(start as int) =~= s@.subrange(0, start as int));
        assert(graphml@.skip(after as int) =~= s@.subrange(after as int, s@.len() as int));
    }
    Ok(chars_to_string(&out))
}

} // verus!
