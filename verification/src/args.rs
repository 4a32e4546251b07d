//! The arguments handed to the game with a command.
use vstd::prelude::*;
use crate::evaluator::{evaluate_when_noting, when_result};
use crate::facts::{FloatQuery, gaps_grow, lemma_gaps_chain};
use crate::json::{json_text, to_json_string};
use crate::scenario::{Element, ElementV, Node, NodeV, element_view, node_view, opt_str};
use crate::state::{State, StateV};

verus! {

/// An element offered to the game.
#[derive(Debug, Clone)]
pub struct FilteredElement {
    pub key: String,
    pub label: Option<String>,
    /// The element's extra fields as JSON text.
    pub extra_json: String,
}

/// What the game receives with a command.
#[derive(Debug, Clone)]
pub struct BuiltArgs {
    pub node_type: String,
    /// The node's fields (other than `when`) as JSON text.
    pub node_json: String,
    /// The elements whose conditions hold, in order.
    pub elements: Vec<FilteredElement>,
}

/// Builds command arguments.
pub struct ArgsBuilder;

/// The model of an offered element.
pub struct FilteredV {
    pub key: Seq<char>,
    pub label: Option<Seq<char>>,
    pub extra_json: Seq<char>,
}

/// The model of command arguments.
pub struct BuiltArgsV {
    pub node_type: Seq<char>,
    pub node_json: Seq<char>,
    pub elements: Seq<FilteredV>,
}

/// The model of offered elements.
pub open spec fn filtered_view(f: FilteredElement) -> FilteredV {
    FilteredV { key: f.key@, label: opt_str(f.label), extra_json: f.extra_json@ }
}

/// The model of command arguments.
pub open spec fn built_view(b: BuiltArgs) -> BuiltArgsV {
    BuiltArgsV {
        node_type: b.node_type@,
        node_json: b.node_json@,
        elements: b.elements@.map_values(|f: FilteredElement| filtered_view(f)),
    }
}

/// Whether an optional condition lets something through: no condition does; a
/// condition does when it holds (one the library cannot evaluate does not).
pub open spec fn condition_allows(when: Option<Seq<char>>, st: StateV) -> bool {
    match when {
        None => true,
        Some(w) => when_result(w, st) == Some(true),
    }
}

/// The elements offered, in order: those whose condition allows them.
pub open spec fn filter_spec(els: Seq<ElementV>, st: StateV) -> Seq<FilteredV>
    decreases els.len(),
{
    if els.len() == 0 {
        Seq::empty()
    } else {
        let l = filter_spec(els.drop_last(), st);
        let e = els.last();
        if condition_allows(e.when, st) {
            l.push(FilteredV { key: e.key, label: e.label, extra_json: json_text(e.extra) })
        } else {
            l
        }
    }
}

/// The arguments for a node.
pub open spec fn build_spec(n: NodeV, st: StateV) -> BuiltArgsV {
    BuiltArgsV {
        node_type: n.node_type,
        node_json: json_text(n.raw),
        elements: match n.elements {
            Some(els) => filter_spec(els, st),
            None => Seq::empty(),
        },
    }
}

/// The elements offered, in order.
fn filter_elements(
    elements: &Option<Vec<Element>>,
    state: &State,
    gaps: &mut Vec<FloatQuery>,
) -> (r: Vec<FilteredElement>)
    ensures
        gaps_grow(old(gaps)@, final(gaps)@, state@.facts),
        r@.map_values(|f: FilteredElement| filtered_view(f)) == match *elements {
            Some(v) => filter_spec(v@.map_values(|e: Element| element_view(e)), state@),
            None => Seq::empty(),
        },
{
    assert(old(gaps)@.subrange(0, old(gaps)@.len() as int) =~= old(gaps)@);
    let els = match elements {
        Some(v) => v,
        None => {
            let r: Vec<FilteredElement> = Vec::new();
            assert(r@.map_values(|f: FilteredElement| filtered_view(f)) =~= Seq::<FilteredV>::empty());
            return r;
        },
    };
    let ghost ev = els@.map_values(|e: Element| element_view(e));
    let mut out: Vec<FilteredElement> = Vec::new();
    let mut i: usize = 0;
    assert(out@.map_values(|f: FilteredElement| filtered_view(f)) =~= Seq::<FilteredV>::empty());
    assert(ev.take(0) =~= Seq::<ElementV>::empty());
    while i < els.len()
        invariant
            i <= els@.len(),
            ev == els@.map_values(|e: Element| element_view(e)),
            out@.map_values(|f: FilteredElement| filtered_view(f)) == filter_spec(
                ev.take(i as int),
                state@,
            ),
            gaps_grow(old(gaps)@, gaps@, state@.facts),
        decreases els@.len() - i,
    {
        let ghost o = out@;
        let ghost g0 = gaps@;
        assert(g0.subrange(0, g0.len() as int) =~= g0);
        proof {
            assert(ev.take(i + 1).drop_last() =~= ev.take(i as int));
            assert(ev.take(i + 1).last() == element_view(els@[i as int]));
        }
        let el = &els[i];
        let allowed = match &el.when {
            None => true,
            Some(w) => match evaluate_when_noting(w.as_str(), state, gaps) {
                Some(b) => b,
                None => false,
            },
        };
        proof {
            lemma_gaps_chain(old(gaps)@, g0, gaps@, state@.facts);
        }
        if allowed {
            let f = FilteredElement {
                key: el.key.clone(),
                label: el.label.clone(),
                extra_json: to_json_string(&el.extra),
            };
            out.push(f);
            assert(out@.map_values(|f: FilteredElement| filtered_view(f)) =~= o.map_values(
                |f: FilteredElement| filtered_view(f),
            ).push(filtered_view(f)));
        }
        i = i + 1;
    }
    assert(ev.take(els@.len() as int) =~= ev);
    out
}

impl ArgsBuilder {
    /// The arguments for a node: its type, its JSON text, and the elements whose
    /// conditions hold.
    pub fn build(node: &Node, state: &State) -> (b: BuiltArgs)
        ensures
            built_view(b) == build_spec(node_view(*node), state@),
    {
        let mut gaps: Vec<FloatQuery> = Vec::new();
        ArgsBuilder::build_noting(node, state, &mut gaps)
    }

    /// The arguments for a node (see `build`); each floating-point query that an
    /// element's condition needed and that no fact answers is added to `gaps`.
    pub fn build_noting(node: &Node, state: &State, gaps: &mut Vec<FloatQuery>) -> (b: BuiltArgs)
        ensures
            built_view(b) == build_spec(node_view(*node), state@),
            gaps_grow(old(gaps)@, final(gaps)@, state@.facts),
    {
        let node_json = to_json_string(&node.raw);
        let elements = filter_elements(&node.elements, state, gaps);
        let b = BuiltArgs { node_type: node.node_type.clone(), node_json, elements };
        b
    }
}

} // verus!

verus! {

/// An element may be offered in a state: it has no condition, or its condition holds.
pub open spec fn offerable(e: ElementV, st: StateV) -> bool {
    e.when is None || when_result(e.when->0, st) == Some(true)
}

/// `f` offers the element `e`: its key, label and the JSON text of its other fields.
pub open spec fn offers(f: FilteredV, e: ElementV) -> bool {
    f.key == e.key && f.label == e.label && f.extra_json == json_text(e.extra)
}

/// What filtering offers: no more than the elements, each one an element that may be
/// offered, and every element that may be offered.
proof fn lemma_filter_offers(els: Seq<ElementV>, st: StateV)
    ensures
        filter_spec(els, st).len() <= els.len(),
        forall|i: int|
            0 <= i < filter_spec(els, st).len() ==> exists|j: int|
                0 <= j < els.len() && offers(#[trigger] filter_spec(els, st)[i], els[j])
                    && offerable(els[j], st),
        forall|j: int|
            0 <= j < els.len() && #[trigger] offerable(els[j], st) ==> exists|i: int|
                0 <= i < filter_spec(els, st).len() && offers(filter_spec(els, st)[i], els[j]),
    decreases els.len(),
{
    if els.len() > 0 {
        let d = els.drop_last();
        let l = filter_spec(d, st);
        let out = filter_spec(els, st);
        let e = els.last();
        lemma_filter_offers(d, st);
        assert forall|i: int| 0 <= i < out.len() implies exists|j: int|
            0 <= j < els.len() && offers(#[trigger] out[i], els[j]) && offerable(els[j], st) by {
            if i < l.len() {
                assert(out[i] == l[i]);
                let j = choose|j: int| 0 <= j < d.len() && offers(l[i], d[j]) && offerable(d[j], st);
                assert(els[j] == d[j]);
            } else {
                assert(els[els.len() - 1] == e);
            }
        }
        assert forall|j: int| 0 <= j < els.len() && #[trigger] offerable(els[j], st) implies exists|
            i: int,
        | 0 <= i < out.len() && offers(out[i], els[j]) by {
            if j < d.len() {
                assert(els[j] == d[j]);
                assert(offerable(d[j], st));
                let i = choose|i: int| 0 <= i < l.len() && offers(l[i], d[j]);
                assert(out[i] == l[i]);
            } else {
                assert(els[j] == e);
                assert(out[out.len() - 1] == (FilteredV {
                    key: e.key,
                    label: e.label,
                    extra_json: json_text(e.extra),
                }));
            }
        }
    }
}

/// The elements handed to the game with a command are exactly those that may be
/// offered: no more of them than the node has, each one an element of the node
/// with no condition or with a condition that holds, and every such element; a node
/// without elements offers none.
pub proof fn law_offered_elements(n: NodeV, st: StateV)
    ensures
        n.elements is None ==> build_spec(n, st).elements.len() == 0,
        n.elements matches Some(els) ==> {
            let out = build_spec(n, st).elements;
            &&& out.len() <= els.len()
            &&& forall|i: int|
                0 <= i < out.len() ==> exists|j: int|
                    0 <= j < els.len() && offers(#[trigger] out[i], els[j]) && offerable(
                        els[j],
                        st,
                    )
            &&& forall|j: int|
                0 <= j < els.len() && #[trigger] offerable(els[j], st) ==> exists|i: int|
                    0 <= i < out.len() && offers(out[i], els[j])
        },
{
    if let Some(els) = n.elements {
        lemma_filter_offers(els, st);
    }
}

} // verus!
