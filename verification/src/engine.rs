//! The engine: walks a scenario node by node, runs the built-in nodes itself and
//! hands every registered node to the game as a command.
use vstd::prelude::*;
use crate::args::{ArgsBuilder, BuiltArgs, BuiltArgsV, build_spec, built_view};
use crate::branch_value::{branch_do_json, parse_branch_do_value};
use crate::evaluator::{
    do_value, evaluate_do_value_noting, evaluate_when_noting, opt_view, when_result,
};
use crate::facts::{
    FloatFact, FloatQuery, FloatQueryV, fact_answer, gaps_grow, lemma_gaps_chain, number_answer,
    number_answer_exec,
};
use crate::json::{Json, JsonV, jv, jv_members, lemma_jv_members, members_get, object_get};
use crate::registry::{CommandEntry, Registry, YAMAMVA_END};
use crate::scenario::{
    Branch, BranchV, NodeV, Scenario, ScenarioV, branch_view, node_view, opt_str, scenario_view,
    str_pairs,
};
use crate::scene_ref::{parse_file_scene_ref, scene_ref_parts};
use crate::state::{State, StateV, Value, ValueV, initial_vars, read_var, result_name};
use crate::strmap::StrMap;
use crate::text::{concat2, concat3, owned, str_equal};

verus! {

/// The most nodes that one call of `exec` walks through before it gives up.
pub const STEP_LIMIT: u64 = 18446744073709551615;

/// Where the engine stands: a scene and the position of a node in it.
#[derive(Debug, Clone)]
pub struct Cursor {
    pub scene_id: String,
    pub node_index: usize,
}

/// What passes between the game and `exec`: the result that the game writes after
/// a blocking command, and the arguments of the command that `exec` returned.
pub struct ExecArgs {
    pub result: Option<String>,
    pub built: Option<BuiltArgs>,
}

impl ExecArgs {
    /// Arguments with no result and no command yet.
    pub fn new() -> (a: ExecArgs)
        ensures
            a.result.is_none(),
            a.built.is_none(),
    {
        ExecArgs { result: None, built: None }
    }
}

impl Default for ExecArgs {
    fn default() -> (a: ExecArgs)
        ensures
            a.result.is_none(),
            a.built.is_none(),
    {
        ExecArgs::new()
    }
}

/// The model of what the engine has run through: its variables, its position, the
/// file of the current scene, and its warnings.
pub struct FlowV {
    pub state: StateV,
    pub scene_id: Seq<char>,
    pub node_index: int,
    pub current_file: Seq<char>,
    pub warnings: Seq<Seq<char>>,
}

/// Strings by their models.
pub open spec fn strings_view(v: Seq<String>) -> Seq<Seq<char>> {
    v.map_values(|s: String| s@)
}

/// What the engine has run through.
#[derive(Debug, Clone)]
struct Flow {
    state: State,
    cursor: Cursor,
    current_file: String,
    warnings: Vec<String>,
    /// The floating-point queries that the current call of `exec` needed and that no
    /// fact answered.
    gaps: Vec<FloatQuery>,
}

impl View for Flow {
    type V = FlowV;

    closed spec fn view(&self) -> FlowV {
        FlowV {
            state: self.state@,
            scene_id: self.cursor.scene_id@,
            node_index: self.cursor.node_index as int,
            current_file: self.current_file@,
            warnings: strings_view(self.warnings@),
        }
    }
}

/// The model of an engine.
pub struct EngineV {
    pub scenario: ScenarioV,
    pub registry: Map<Seq<char>, CommandEntry>,
    pub flow: FlowV,
    /// A blocking command was returned and its result is awaited.
    pub waiting: bool,
}

/// Runs a scenario: each call of `exec` walks on to the next command for the game.
#[derive(Debug, Clone)]
pub struct Engine {
    scenario: Scenario,
    registry: Registry,
    flow: Flow,
    waiting_result: bool,
}

impl View for Engine {
    type V = EngineV;

    closed spec fn view(&self) -> EngineV {
        EngineV {
            scenario: scenario_view(self.scenario),
            registry: self.registry@,
            flow: self.flow@,
            waiting: self.waiting_result,
        }
    }
}

/// The node at the cursor, if the scene exists and has a node there.
pub open spec fn current_node(sc: ScenarioV, f: FlowV) -> Option<NodeV> {
    if sc.scenes.contains_key(f.scene_id) && 0 <= f.node_index < sc.scenes[f.scene_id].len() {
        Some(sc.scenes[f.scene_id][f.node_index])
    } else {
        None
    }
}

/// The flow moved on to the next node.
pub open spec fn advance(f: FlowV) -> FlowV {
    FlowV { node_index: f.node_index + 1, ..f }
}

/// The flow with one more warning.
pub open spec fn warn(f: FlowV, m: Seq<char>) -> FlowV {
    FlowV { warnings: f.warnings.push(m), ..f }
}

/// The flow with the variable `k` set to `v`.
pub open spec fn with_var(f: FlowV, k: Seq<char>, v: ValueV) -> FlowV {
    FlowV { state: StateV { vars: f.state.vars.insert(k, v), ..f.state }, ..f }
}

/// The warning for a condition that the library cannot evaluate.
pub open spec fn condition_warning(w: Seq<char>) -> Seq<char> {
    "unsupported condition: "@ + w
}

/// The warning for an update whose value the library cannot compute.
pub open spec fn value_warning(k: Seq<char>) -> Seq<char> {
    "unsupported value for '"@ + k + "'"@
}

/// The warning for a node type that nothing is registered for.
pub open spec fn unregistered_warning(t: Seq<char>) -> Seq<char> {
    "unregistered: "@ + t
}

/// The warning when `exec` has walked `STEP_LIMIT` nodes without reaching a command.
pub open spec fn step_limit_warning() -> Seq<char> {
    "step limit reached"@
}

/// Sets `k` to the computed value, or warns where there is none.
pub open spec fn set_value(f: FlowV, k: Seq<char>, v: Option<ValueV>) -> FlowV {
    match v {
        Some(x) => with_var(f, k, x),
        None => warn(f, value_warning(k)),
    }
}

/// The name of the `do` node and of its field.
pub open spec fn do_word() -> Seq<char> {
    seq!['d', 'o']
}

/// The entries of a node's `do` object (none where it has no such object).
pub open spec fn do_entries(raw: JsonV) -> Seq<(Seq<char>, JsonV)> {
    match raw {
        JsonV::Object(ms) => match members_get(ms, do_word()) {
            Some(JsonV::Object(d)) => d,
            _ => Seq::empty(),
        },
        _ => Seq::empty(),
    }
}

/// The `do` entries applied in order, each value computed in the state left by the
/// entries before it.
pub open spec fn apply_do(f: FlowV, es: Seq<(Seq<char>, JsonV)>) -> FlowV
    decreases es.len(),
{
    if es.len() == 0 {
        f
    } else {
        let g = apply_do(f, es.drop_last());
        set_value(g, es.last().0, do_value(es.last().1, g.state))
    }
}

/// The value that a branch update text sets; a floating-point number that the
/// library does not read itself is taken from the facts.
pub open spec fn update_value(t: Seq<char>, st: StateV) -> Option<ValueV> {
    match branch_do_json(t) {
        Some(j) => do_value(j, st),
        None => number_answer(t, st.facts),
    }
}

/// A branch's updates applied in order.
pub open spec fn apply_updates(f: FlowV, us: Seq<(Seq<char>, Seq<char>)>) -> FlowV
    decreases us.len(),
{
    if us.len() == 0 {
        f
    } else {
        let g = apply_updates(f, us.drop_last());
        set_value(g, us.last().0, update_value(us.last().1, g.state))
    }
}

/// The branch taken among `bs[i..]`: the first that has no condition or whose
/// condition holds; with a warning for each condition before it that the library
/// cannot evaluate (such a condition does not hold).
pub open spec fn choose_branch(bs: Seq<BranchV>, st: StateV, i: int) -> (Option<int>, Seq<Seq<char>>)
    decreases bs.len() - i,
{
    if i < 0 || i >= bs.len() {
        (None, Seq::empty())
    } else {
        match bs[i].when {
            None => (Some(i), Seq::empty()),
            Some(w) => match when_result(w, st) {
                Some(true) => (Some(i), Seq::empty()),
                Some(false) => choose_branch(bs, st, i + 1),
                None => {
                    let r = choose_branch(bs, st, i + 1);
                    (r.0, seq![condition_warning(w)] + r.1)
                },
            },
        }
    }
}

/// Where a `next` reference leads from the file `cf`: `Ok((scene, file))`, or the
/// error text. `file:scene` leads to any scene that exists; a bare scene only to one
/// of the current file.
pub open spec fn resolve_next(sc: ScenarioV, cf: Seq<char>, nx: Seq<char>) -> Result<
    (Seq<char>, Seq<char>),
    Seq<char>,
> {
    match scene_ref_parts(nx) {
        None => Err("parse error: "@ + ("empty scene_id in reference '"@ + nx + "'"@)),
        Some((Some(file), sid)) => if sc.scenes.contains_key(sid) {
            Ok((sid, file))
        } else {
            Err(
                "runtime error: "@ + ("scene '"@ + sid + "' not found (referenced as '"@ + file
                    + ":"@ + sid + "')"@),
            )
        },
        Some((None, sid)) => if sc.scene_file.contains_key(sid) {
            if sc.scene_file[sid] == cf {
                Ok((sid, cf))
            } else {
                Err(
                    "runtime error: "@ + ("scene '"@ + sid + "' exists in file '"@
                        + sc.scene_file[sid] + "' but current file is '"@ + cf + "'. Use '"@
                        + sc.scene_file[sid] + ":"@ + sid + "' for cross-file reference."@),
                )
            }
        } else {
            Err("runtime error: "@ + ("scene '"@ + sid + "' not found in current file '"@ + cf + "'"@))
        },
    }
}

/// Follows a branch's `next`: to the first node of the scene it leads to, or, where
/// it leads nowhere, on to the next node with the error as a warning. Without
/// `next`, on to the next node.
pub open spec fn follow(sc: ScenarioV, f: FlowV, next: Option<Seq<char>>) -> FlowV {
    match next {
        None => advance(f),
        Some(nx) => match resolve_next(sc, f.current_file, nx) {
            Ok((sid, file)) => FlowV { scene_id: sid, node_index: 0, current_file: file, ..f },
            Err(m) => advance(warn(f, m)),
        },
    }
}

/// A `jump` or `incase` node's branches: the branch taken applies its updates and
/// follows its `next`; where no branch is taken, on to the next node.
pub open spec fn take_branches(sc: ScenarioV, f: FlowV, bs: Option<Seq<BranchV>>) -> FlowV {
    match bs {
        None => advance(f),
        Some(bs) => {
            let c = choose_branch(bs, f.state, 0);
            let g = FlowV { warnings: f.warnings + c.1, ..f };
            match c.0 {
                None => advance(g),
                Some(i) => {
                    let h = match bs[i].do_updates {
                        Some(us) => apply_updates(g, us),
                        None => g,
                    };
                    follow(sc, h, bs[i].next)
                },
            }
        },
    }
}

/// The outcome of one node: the engine goes on, or stops with a value for the game
/// (and, for a command, its arguments).
pub enum StepV {
    Next(EngineV),
    Stop(EngineV, i32, Option<BuiltArgsV>),
}

/// The engine with another flow.
pub open spec fn with_flow(e: EngineV, f: FlowV) -> EngineV {
    EngineV { flow: f, ..e }
}

/// What a node whose condition holds does: `end` ends; `do` sets its variables;
/// `jump` takes a branch; `incase` takes a branch and then forgets the result; a
/// registered type is a command for the game, which waits at the node when the
/// command blocks and moves on otherwise; any other type is skipped with a warning.
pub open spec fn dispatch(e: EngineV, n: NodeV) -> StepV {
    let f = e.flow;
    if n.node_type == seq!['e', 'n', 'd'] {
        StepV::Stop(e, YAMAMVA_END, None)
    } else if n.node_type == do_word() {
        StepV::Next(with_flow(e, advance(apply_do(f, do_entries(n.raw)))))
    } else if n.node_type == seq!['j', 'u', 'm', 'p'] {
        StepV::Next(with_flow(e, take_branches(e.scenario, f, n.branches)))
    } else if n.node_type == seq!['i', 'n', 'c', 'a', 's', 'e'] {
        let g = take_branches(e.scenario, f, n.branches);
        StepV::Next(with_flow(e, FlowV { state: StateV { result: None, ..g.state }, ..g }))
    } else if e.registry.contains_key(n.node_type) {
        let c = e.registry[n.node_type];
        let b = build_spec(n, f.state);
        if c.blocking {
            StepV::Stop(EngineV { waiting: true, ..e }, c.command_id, Some(b))
        } else {
            StepV::Stop(with_flow(e, advance(f)), c.command_id, Some(b))
        }
    } else {
        StepV::Next(with_flow(e, advance(warn(f, unregistered_warning(n.node_type)))))
    }
}

/// One node: past the last node of the scene (or in a scene that does not exist)
/// the scenario ends; a node whose condition does not hold is skipped (with a
/// warning where the library cannot evaluate it); otherwise the node is dispatched.
#[verifier::opaque]
pub open spec fn step(e: EngineV) -> StepV {
    match current_node(e.scenario, e.flow) {
        None => StepV::Stop(e, YAMAMVA_END, None),
        Some(n) => match n.when {
            None => dispatch(e, n),
            Some(w) => match when_result(w, e.flow.state) {
                Some(true) => dispatch(e, n),
                Some(false) => StepV::Next(with_flow(e, advance(e.flow))),
                None => StepV::Next(with_flow(e, advance(warn(e.flow, condition_warning(w))))),
            },
        },
    }
}

/// Where a walk of at most `fuel` nodes stops.
pub enum RunV {
    Done(EngineV, i32, Option<BuiltArgsV>),
    OutOfSteps(EngineV),
}

/// Nodes walked one after another until one stops the walk, at most `fuel` of them.
pub open spec fn run(e: EngineV, fuel: nat) -> RunV
    decreases fuel,
{
    if fuel == 0 {
        RunV::OutOfSteps(e)
    } else {
        match step(e) {
            StepV::Next(e2) => run(e2, (fuel - 1) as nat),
            StepV::Stop(e2, c, b) => RunV::Done(e2, c, b),
        }
    }
}

/// The engine as `exec` takes it up: after a blocking command, the game's result is
/// stored as `$result` and the engine moves past the command's node.
pub open spec fn resume(e: EngineV, result: Option<Seq<char>>) -> EngineV {
    if e.waiting {
        EngineV {
            waiting: false,
            flow: FlowV {
                state: StateV { result, ..e.flow.state },
                node_index: if e.flow.node_index < usize::MAX {
                    e.flow.node_index + 1
                } else {
                    e.flow.node_index
                },
                ..e.flow
            },
            ..e
        }
    } else {
        e
    }
}

/// The model of a step's outcome as the engine reports it.
pub open spec fn outcome(e: EngineV, r: Option<(i32, Option<BuiltArgs>)>) -> StepV {
    match r {
        None => StepV::Next(e),
        Some((c, b)) => StepV::Stop(
            e,
            c,
            match b {
                Some(x) => Some(built_view(x)),
                None => None,
            },
        ),
    }
}

/// The scene that an entry reference names (the whole reference where it names none).
pub open spec fn entry_scene(entry: Seq<char>) -> Seq<char> {
    match scene_ref_parts(entry) {
        Some((_, sid)) => sid,
        None => entry,
    }
}

/// The file recorded for a single-document scenario, and for scenes with no file.
pub open spec fn root_file_name() -> Seq<char> {
    seq!['_', '_', 'r', 'o', 'o', 't', '_', '_']
}

/// The file of a scene, or the root file where none is recorded.
pub open spec fn file_of(sc: ScenarioV, sid: Seq<char>) -> Seq<char> {
    if sc.scene_file.contains_key(sid) {
        sc.scene_file[sid]
    } else {
        root_file_name()
    }
}

/// A fresh engine on a scenario: the initial variables, no result, at the first node
/// of the entry scene, in that scene's file, with no warnings, not waiting.
pub open spec fn start(sc: ScenarioV, registry: Map<Seq<char>, CommandEntry>) -> EngineV {
    EngineV {
        scenario: sc,
        registry,
        flow: FlowV {
            state: StateV {
                vars: initial_vars(sc.initial_state),
                result: None,
                facts: Seq::empty(),
            },
            scene_id: entry_scene(sc.entry),
            node_index: 0,
            current_file: file_of(sc, entry_scene(sc.entry)),
            warnings: Seq::empty(),
        },
        waiting: false,
    }
}

/// `after` keeps the facts of `before`, and its gaps are those of `before` with
/// queries added at the end that those facts do not answer.
spec fn gaps_kept(before: Flow, after: Flow) -> bool {
    &&& after.state@.facts == before.state@.facts
    &&& gaps_grow(before.gaps@, after.gaps@, before.state@.facts)
}

/// A flow keeps its own gaps.
proof fn lemma_kept_refl(f: Flow)
    ensures
        gaps_kept(f, f),
{
    assert(f.gaps@.subrange(0, f.gaps@.len() as int) =~= f.gaps@);
}

/// Keeping gaps twice is keeping them.
proof fn lemma_kept_chain(a: Flow, b: Flow, c: Flow)
    requires
        gaps_kept(a, b),
        gaps_kept(b, c),
    ensures
        gaps_kept(a, c),
{
    lemma_gaps_chain(a.gaps@, b.gaps@, c.gaps@, a.state@.facts);
}

/// Adds a warning.
fn push_warning(flow: &mut Flow, m: String)
    ensures
        final(flow)@ == warn(old(flow)@, m@),
        final(flow).gaps == old(flow).gaps,
        final(flow).state == old(flow).state,
{
    let ghost w0 = flow.warnings@;
    flow.warnings.push(m);
    assert(strings_view(flow.warnings@) =~= strings_view(w0).push(m@));
}

/// Moves on to the next node.
fn advance_exec(flow: &mut Flow)
    requires
        old(flow)@.node_index < usize::MAX,
    ensures
        final(flow)@ == advance(old(flow)@),
        final(flow).gaps == old(flow).gaps,
        final(flow).state == old(flow).state,
{
    flow.cursor.node_index = flow.cursor.node_index + 1;
}

/// Sets `key` to a computed value, or warns where there is none.
fn set_value_exec(flow: &mut Flow, key: &str, v: Option<Value>)
    ensures
        final(flow)@ == set_value(old(flow)@, key@, opt_view(v)),
        final(flow).gaps == old(flow).gaps,
        final(flow).state@.facts == old(flow).state@.facts,
{
    match v {
        Some(x) => {
            flow.state.set(key, x);
        },
        None => {
            let m = concat3("unsupported value for '", key, "'");
            push_warning(flow, m);
        },
    }
}

/// Applies the entries of a node's `do` object.
fn apply_do_exec(flow: &mut Flow, raw: &Json)
    ensures
        final(flow)@ == apply_do(old(flow)@, do_entries(jv(*raw))),
        gaps_kept(*old(flow), *final(flow)),
{
    proof {
        lemma_kept_refl(*flow);
        reveal_strlit("do");
        assert("do"@ =~= do_word());
    }
    let es = match raw {
        Json::Object(ms) => match object_get(ms, "do") {
            Some(Json::Object(d)) => d,
            _ => {
                assert(do_entries(jv(*raw)) =~= Seq::<(Seq<char>, JsonV)>::empty());
                return;
            },
        },
        _ => {
            assert(do_entries(jv(*raw)) =~= Seq::<(Seq<char>, JsonV)>::empty());
            return;
        },
    };
    let ghost d = jv_members(es@);
    assert(do_entries(jv(*raw)) == d);
    proof {
        lemma_jv_members(es@);
        assert(d.take(0) =~= Seq::<(Seq<char>, JsonV)>::empty());
    }
    let ghost f0 = flow@;
    let mut i: usize = 0;
    while i < es.len()
        invariant
            i <= es@.len(),
            d == jv_members(es@),
            d.len() == es@.len(),
            forall|j: int| 0 <= j < d.len() ==> #[trigger] d[j] == (es@[j].0@, jv(es@[j].1)),
            flow@ == apply_do(f0, d.take(i as int)),
            gaps_kept(*old(flow), *flow),
        decreases es@.len() - i,
    {
        proof {
            assert(d.take(i + 1).drop_last() =~= d.take(i as int));
            assert(d.take(i + 1).last() == d[i as int]);
        }
        let ghost g1 = *flow;
        let v = evaluate_do_value_noting(&es[i].1, &flow.state, &mut flow.gaps);
        set_value_exec(flow, es[i].0.as_str(), v);
        proof {
            lemma_kept_chain(*old(flow), g1, *flow);
        }
        i = i + 1;
    }
    assert(d.take(es@.len() as int) =~= d);
}

/// Applies a branch's updates.
fn apply_updates_exec(flow: &mut Flow, us: &StrMap<String>)
    ensures
        final(flow)@ == apply_updates(old(flow)@, str_pairs(us.entry_seq())),
        gaps_kept(*old(flow), *final(flow)),
{
    proof {
        lemma_kept_refl(*flow);
    }
    let es = us.entries();
    let ghost p = str_pairs(es@);
    let ghost f0 = flow@;
    assert(p.take(0) =~= Seq::<(Seq<char>, Seq<char>)>::empty());
    let mut i: usize = 0;
    while i < es.len()
        invariant
            i <= es@.len(),
            es@ == us.entry_seq(),
            p == str_pairs(es@),
            flow@ == apply_updates(f0, p.take(i as int)),
            gaps_kept(*old(flow), *flow),
        decreases es@.len() - i,
    {
        proof {
            assert(p.take(i + 1).drop_last() =~= p.take(i as int));
            assert(p.take(i + 1).last() == (es@[i as int].0@, es@[i as int].1@));
        }
        let ghost g1 = *flow;
        let v = match parse_branch_do_value(es[i].1.as_str()) {
            Some(j) => evaluate_do_value_noting(&j, &flow.state, &mut flow.gaps),
            None => number_answer_exec(es[i].1.as_str(), flow.state.float_facts(), &mut flow.gaps),
        };
        set_value_exec(flow, es[i].0.as_str(), v);
        proof {
            lemma_kept_chain(*old(flow), g1, *flow);
        }
        i = i + 1;
    }
    assert(p.take(es@.len() as int) =~= p);
}

/// Whether a condition holds in the flow's state, with the queries it needed and
/// that no fact answers added to the flow's gaps.
fn when_noting_kept(w: &str, flow: &mut Flow) -> (r: Option<bool>)
    ensures
        r == when_result(w@, old(flow)@.state),
        final(flow)@ == old(flow)@,
        final(flow).state == old(flow).state,
        gaps_kept(*old(flow), *final(flow)),
{
    evaluate_when_noting(w, &flow.state, &mut flow.gaps)
}

/// The branch taken, with warnings for the conditions before it that cannot be
/// evaluated.
#[verifier::rlimit(60)]
fn choose_branch_exec(bs: &Vec<Branch>, flow: &mut Flow) -> (r: Option<usize>)
    ensures
        ({
            let c = choose_branch(
                bs@.map_values(|b: Branch| branch_view(b)),
                old(flow)@.state,
                0,
            );
            &&& match r {
                Some(i) => c.0 == Some(i as int),
                None => c.0.is_none(),
            }
            &&& final(flow)@ == (FlowV { warnings: old(flow)@.warnings + c.1, ..old(flow)@ })
        }),
        gaps_kept(*old(flow), *final(flow)),
{
    proof {
        lemma_kept_refl(*flow);
    }
    let ghost bv = bs@.map_values(|b: Branch| branch_view(b));
    let ghost f0 = flow@;
    let ghost st = f0.state;
    let ghost c0 = choose_branch(bv, st, 0);
    let mut i: usize = 0;
    assert(f0.warnings + Seq::<Seq<char>>::empty() =~= f0.warnings);
    while i < bs.len()
        invariant
            i <= bs@.len(),
            bv == bs@.map_values(|b: Branch| branch_view(b)),
            st == f0.state,
            f0 == old(flow)@,
            c0 == choose_branch(bv, st, 0),
            c0.0 == choose_branch(bv, st, i as int).0,
            f0.warnings + c0.1 == flow@.warnings + choose_branch(bv, st, i as int).1,
            flow@.state == st,
            flow@.scene_id == f0.scene_id,
            flow@.node_index == f0.node_index,
            flow@.current_file == f0.current_file,
            gaps_kept(*old(flow), *flow),
        decreases bs@.len() - i,
    {
        let ghost ci = choose_branch(bv, st, i as int);
        let ghost cn = choose_branch(bv, st, i + 1);
        assert(bv[i as int] == branch_view(bs@[i as int]));
        match &bs[i].when {
            None => {
                assert(ci == (Some(i as int), Seq::<Seq<char>>::empty()));
                assert(flow@.warnings + Seq::<Seq<char>>::empty() =~= flow@.warnings);
                return Some(i);
            },
            Some(w) => {
                let ghost g1 = *flow;
                let res = when_noting_kept(w.as_str(), flow);
                proof {
                    lemma_kept_chain(*old(flow), g1, *flow);
                }
                match res {
                Some(true) => {
                    assert(ci == (Some(i as int), Seq::<Seq<char>>::empty()));
                    assert(flow@.warnings + Seq::<Seq<char>>::empty() =~= flow@.warnings);
                    return Some(i);
                },
                Some(false) => {
                    assert(ci == cn);
                },
                None => {
                    assert(ci == (cn.0, seq![condition_warning(w@)] + cn.1));
                    let ghost w1 = flow@.warnings;
                    let m = concat2("unsupported condition: ", w.as_str());
                    push_warning(flow, m);
                    assert(w1 + (seq![condition_warning(w@)] + cn.1) =~= w1.push(
                        condition_warning(w@),
                    ) + cn.1);
                },
                }
            },
        }
        i = i + 1;
    }
    assert(flow@.warnings + Seq::<Seq<char>>::empty() =~= flow@.warnings);
    None
}

/// Updates leave the position where it is.
proof fn lemma_apply_do_position(f: FlowV, es: Seq<(Seq<char>, JsonV)>)
    ensures
        apply_do(f, es).scene_id == f.scene_id,
        apply_do(f, es).node_index == f.node_index,
        apply_do(f, es).current_file == f.current_file,
    decreases es.len(),
{
    if es.len() > 0 {
        lemma_apply_do_position(f, es.drop_last());
    }
}

/// Updates leave the position where it is.
proof fn lemma_apply_updates_position(f: FlowV, us: Seq<(Seq<char>, Seq<char>)>)
    ensures
        apply_updates(f, us).scene_id == f.scene_id,
        apply_updates(f, us).node_index == f.node_index,
        apply_updates(f, us).current_file == f.current_file,
    decreases us.len(),
{
    if us.len() > 0 {
        lemma_apply_updates_position(f, us.drop_last());
    }
}

/// The branch taken is one of the branches.
proof fn lemma_choose_branch_range(bs: Seq<BranchV>, st: StateV, i: int)
    ensures
        choose_branch(bs, st, i).0 matches Some(j) ==> 0 <= j < bs.len(),
    decreases bs.len() - i,
{
    if 0 <= i < bs.len() {
        lemma_choose_branch_range(bs, st, i + 1);
    }
}

/// A branch can be taken in a state: it has no condition, or its condition holds.
pub open spec fn branch_ok(b: BranchV, st: StateV) -> bool {
    match b.when {
        None => true,
        Some(w) => when_result(w, st) == Some(true),
    }
}

/// One step of choosing a branch.
proof fn lemma_choose_step(bs: Seq<BranchV>, st: StateV, i: int)
    requires
        0 <= i < bs.len(),
    ensures
        choose_branch(bs, st, i).0 == if branch_ok(bs[i], st) {
            Some(i)
        } else {
            choose_branch(bs, st, i + 1).0
        },
{
}

/// From branch `i` on, the branch chosen is the first one that can be taken.
proof fn lemma_first_match_from(bs: Seq<BranchV>, st: StateV, i: int, k: int)
    requires
        0 <= i <= bs.len(),
    ensures
        choose_branch(bs, st, i).0 == Some(k) <==> (i <= k < bs.len() && branch_ok(bs[k], st)
            && forall|j: int| i <= j < k ==> !#[trigger] branch_ok(bs[j], st)),
    decreases bs.len() - i,
{
    if i < bs.len() {
        lemma_choose_step(bs, st, i);
        lemma_first_match_from(bs, st, i + 1, k);
        if branch_ok(bs[i], st) {
            if k > i {
                assert(!(forall|j: int| i <= j < k ==> !#[trigger] branch_ok(bs[j], st))) by {
                    assert(i <= i < k && branch_ok(bs[i], st));
                }
            }
        } else {
            if i + 1 <= k && (forall|j: int| i + 1 <= j < k ==> !#[trigger] branch_ok(bs[j], st)) {
                assert forall|j: int| i <= j < k implies !#[trigger] branch_ok(bs[j], st) by {
                    if j == i {
                    } else {
                        assert(i + 1 <= j < k);
                    }
                }
            }
            if i <= k && (forall|j: int| i <= j < k ==> !#[trigger] branch_ok(bs[j], st)) && k
                < bs.len() && branch_ok(bs[k], st) {
                assert(k != i);
                assert forall|j: int| i + 1 <= j < k implies !#[trigger] branch_ok(bs[j], st) by {
                    assert(i <= j < k);
                }
            }
        }
    }
}

/// The first branch that can be taken wins: branch `k` is chosen exactly when it has
/// no condition or its condition holds, and no branch before it can be taken. (A
/// condition that cannot be evaluated does not hold.)
pub proof fn law_first_match_wins(bs: Seq<BranchV>, st: StateV, k: int)
    ensures
        choose_branch(bs, st, 0).0 == Some(k) <==> (0 <= k < bs.len() && branch_ok(bs[k], st)
            && forall|j: int| 0 <= j < k ==> !#[trigger] branch_ok(bs[j], st)),
{
    lemma_first_match_from(bs, st, 0, k);
}

/// No branch is chosen exactly when no branch can be taken.
pub proof fn law_no_match_no_branch(bs: Seq<BranchV>, st: StateV)
    ensures
        choose_branch(bs, st, 0).0 is None <==> forall|j: int|
            0 <= j < bs.len() ==> !#[trigger] branch_ok(bs[j], st),
{
    lemma_none_when_no_match(bs, st, 0);
}

/// From branch `i` on, none is chosen exactly when none can be taken.
proof fn lemma_none_when_no_match(bs: Seq<BranchV>, st: StateV, i: int)
    requires
        0 <= i <= bs.len(),
    ensures
        choose_branch(bs, st, i).0 is None <==> forall|j: int|
            i <= j < bs.len() ==> !#[trigger] branch_ok(bs[j], st),
    decreases bs.len() - i,
{
    if i < bs.len() {
        lemma_choose_step(bs, st, i);
        lemma_none_when_no_match(bs, st, i + 1);
        if !branch_ok(bs[i], st) && choose_branch(bs, st, i + 1).0 is None {
            assert forall|j: int| i <= j < bs.len() implies !#[trigger] branch_ok(bs[j], st) by {
                if j > i {
                    assert(i + 1 <= j < bs.len());
                }
            }
        }
    }
}

/// Where a `next` reference leads from the file `cf`.
fn resolve_next_exec(scenario: &Scenario, cf: &str, nx: &str) -> (r: Result<(String, String), String>)
    ensures
        match (r, resolve_next(scenario_view(*scenario), cf@, nx@)) {
            (Ok((a, b)), Ok((sa, sb))) => a@ == sa && b@ == sb,
            (Err(m), Err(sm)) => m@ == sm,
            _ => false,
        },
{
    match parse_file_scene_ref(nx) {
        Err(e) => Err(e.to_display_string()),
        Ok((file, sid)) => match file {
            Some(f) => {
                if scenario.scenes.contains_key(sid.as_str()) {
                    Ok((sid, f))
                } else {
                    let mut m = String::from_str("scene '");
                    m.append(sid.as_str());
                    m.append("' not found (referenced as '");
                    m.append(f.as_str());
                    m.append(":");
                    m.append(sid.as_str());
                    m.append("')");
                    Err(concat2("runtime error: ", m.as_str()))
                }
            },
            None => match scenario.scene_file.get(sid.as_str()) {
                Some(tf) => {
                    if str_equal(tf.as_str(), cf) {
                        Ok((sid, owned(cf)))
                    } else {
                        let mut m = String::from_str("scene '");
                        m.append(sid.as_str());
                        m.append("' exists in file '");
                        m.append(tf.as_str());
                        m.append("' but current file is '");
                        m.append(cf);
                        m.append("'. Use '");
                        m.append(tf.as_str());
                        m.append(":");
                        m.append(sid.as_str());
                        m.append("' for cross-file reference.");
                        Err(concat2("runtime error: ", m.as_str()))
                    }
                },
                None => {
                    let mut m = String::from_str("scene '");
                    m.append(sid.as_str());
                    m.append("' not found in current file '");
                    m.append(cf);
                    m.append("'");
                    Err(concat2("runtime error: ", m.as_str()))
                },
            },
        },
    }
}

/// Follows a branch's `next`.
fn follow_exec(scenario: &Scenario, flow: &mut Flow, next: &Option<String>)
    requires
        old(flow)@.node_index < usize::MAX,
    ensures
        final(flow)@ == follow(scenario_view(*scenario), old(flow)@, opt_str(*next)),
        final(flow).gaps == old(flow).gaps,
        final(flow).state == old(flow).state,
{
    match next {
        None => advance_exec(flow),
        Some(nx) => match resolve_next_exec(scenario, flow.current_file.as_str(), nx.as_str()) {
            Ok((sid, file)) => {
                flow.cursor.scene_id = sid;
                flow.cursor.node_index = 0;
                flow.current_file = file;
            },
            Err(m) => {
                push_warning(flow, m);
                advance_exec(flow);
            },
        },
    }
}

/// Takes a branch of a `jump` or `incase` node.
fn take_branches_exec(scenario: &Scenario, flow: &mut Flow, bs: &Option<Vec<Branch>>)
    requires
        old(flow)@.node_index < usize::MAX,
    ensures
        final(flow)@ == take_branches(
            scenario_view(*scenario),
            old(flow)@,
            match *bs {
                Some(v) => Some(v@.map_values(|b: Branch| branch_view(b))),
                None => None,
            },
        ),
        gaps_kept(*old(flow), *final(flow)),
{
    proof {
        lemma_kept_refl(*flow);
    }
    let bs = match bs {
        None => {
            advance_exec(flow);
            return;
        },
        Some(v) => v,
    };
    let ghost bv = bs@.map_values(|b: Branch| branch_view(b));
    let ghost f0 = flow@;
    let choice = choose_branch_exec(bs, flow);
    proof {
        lemma_choose_branch_range(bv, f0.state, 0);
    }
    match choice {
        None => {
            advance_exec(flow);
        },
        Some(i) => {
            assert(bv[i as int] == branch_view(bs@[i as int]));
            let ghost g = flow@;
            let ghost h = *flow;
            match &bs[i].do_updates {
                Some(us) => {
                    apply_updates_exec(flow, us);
                    proof {
                        lemma_apply_updates_position(g, str_pairs(us.entry_seq()));
                        lemma_kept_chain(*old(flow), h, *flow);
                    }
                },
                None => {},
            }
            follow_exec(scenario, flow, &bs[i].next);
        },
    }
}

impl Engine {
    /// Runs the node at the cursor.
    #[verifier::rlimit(40)]
    fn step(&mut self) -> (r: Option<(i32, Option<BuiltArgs>)>)
        ensures
            step(old(self)@) == outcome(final(self)@, r),
            gaps_kept(old(self).flow, final(self).flow),
    {
        proof {
            lemma_kept_refl(self.flow);
            reveal(step);
            reveal_strlit("end");
            reveal_strlit("do");
            reveal_strlit("jump");
            reveal_strlit("incase");
            assert("end"@ =~= seq!['e', 'n', 'd']);
            assert("do"@ =~= do_word());
            assert("jump"@ =~= seq!['j', 'u', 'm', 'p']);
            assert("incase"@ =~= seq!['i', 'n', 'c', 'a', 's', 'e']);
        }
        let nodes = match self.scenario.scenes.get(self.flow.cursor.scene_id.as_str()) {
            Some(v) => v,
            None => {
                return Some((YAMAMVA_END, None));
            },
        };
        let idx = self.flow.cursor.node_index;
        if idx >= nodes.len() {
            return Some((YAMAMVA_END, None));
        }
        let node = &nodes[idx];
        assert(current_node(old(self)@.scenario, old(self)@.flow) == Some(node_view(*node)));
        match &node.when {
            Some(w) => match when_noting_kept(w.as_str(), &mut self.flow) {
                Some(true) => {},
                Some(false) => {
                    advance_exec(&mut self.flow);
                    return None;
                },
                None => {
                    let m = concat2("unsupported condition: ", w.as_str());
                    push_warning(&mut self.flow, m);
                    advance_exec(&mut self.flow);
                    return None;
                },
            },
            None => {},
        }
        let ghost g1 = self.flow;
        let t = node.node_type.as_str();
        if str_equal(t, "end") {
            return Some((YAMAMVA_END, None));
        }
        if str_equal(t, "do") {
            let ghost f0 = self.flow@;
            apply_do_exec(&mut self.flow, &node.raw);
            proof {
                lemma_apply_do_position(f0, do_entries(jv(node.raw)));
                lemma_kept_chain(old(self).flow, g1, self.flow);
            }
            advance_exec(&mut self.flow);
            return None;
        }
        if str_equal(t, "jump") {
            take_branches_exec(&self.scenario, &mut self.flow, &node.branches);
            proof {
                lemma_kept_chain(old(self).flow, g1, self.flow);
            }
            return None;
        }
        if str_equal(t, "incase") {
            take_branches_exec(&self.scenario, &mut self.flow, &node.branches);
            proof {
                lemma_kept_chain(old(self).flow, g1, self.flow);
            }
            self.flow.state.set_result(None);
            return None;
        }
        match self.registry.lookup(t) {
            Some(entry) => {
                let built = ArgsBuilder::build_noting(node, &self.flow.state, &mut self.flow.gaps);
                proof {
                    lemma_kept_chain(old(self).flow, g1, self.flow);
                }
                let c = entry.command_id;
                if entry.blocking {
                    self.waiting_result = true;
                } else {
                    advance_exec(&mut self.flow);
                }
                Some((c, Some(built)))
            },
            None => {
                let m = concat2("unregistered: ", t);
                push_warning(&mut self.flow, m);
                advance_exec(&mut self.flow);
                None
            },
        }
    }
}

impl Engine {
    /// An engine at the first node of the scenario's entry scene, with the
    /// scenario's initial variables.
    pub fn new(scenario: Scenario, registry: Registry) -> (e: Engine)
        ensures
            e@ == start(scenario_view(scenario), registry@),
    {
        proof {
            reveal_strlit("__root__");
            assert("__root__"@ =~= root_file_name());
        }
        let state = State::from_json_map(&scenario.initial_state);
        let entry_scene = match parse_file_scene_ref(scenario.entry.as_str()) {
            Ok((_, scene)) => scene,
            Err(_) => scenario.entry.clone(),
        };
        let current_file = match scenario.scene_file.get(entry_scene.as_str()) {
            Some(f) => f.clone(),
            None => String::from_str("__root__"),
        };
        let e = Engine {
            scenario,
            registry,
            flow: Flow {
                state,
                cursor: Cursor { scene_id: entry_scene, node_index: 0 },
                current_file,
                warnings: Vec::new(),
                gaps: Vec::new(),
            },
            waiting_result: false,
        };
        assert(strings_view(e.flow.warnings@) =~= Seq::<Seq<char>>::empty());
        e
    }

    /// An engine at a given position, with given variables, not waiting and with no
    /// warnings.
    pub(crate) fn at(
        scenario: Scenario,
        registry: Registry,
        state: State,
        cursor: Cursor,
        current_file: String,
    ) -> (e: Engine)
        ensures
            e@ == (EngineV {
                scenario: scenario_view(scenario),
                registry: registry@,
                flow: FlowV {
                    state: state@,
                    scene_id: cursor.scene_id@,
                    node_index: cursor.node_index as int,
                    current_file: current_file@,
                    warnings: Seq::empty(),
                },
                waiting: false,
            }),
    {
        let e = Engine {
            scenario,
            registry,
            flow: Flow { state, cursor, current_file, warnings: Vec::new(), gaps: Vec::new() },
            waiting_result: false,
        };
        assert(strings_view(e.flow.warnings@) =~= Seq::<Seq<char>>::empty());
        e
    }

    /// Walks on to the next command for the game and returns its id (its arguments
    /// in `args.built`), or `YAMAMVA_END` when the scenario has ended. After a
    /// blocking command, the result that the game wrote in `args.result` is taken
    /// first and becomes `$result`. The floating-point facts stay as they are, and
    /// `float_gaps` then lists queries that the call needed and that none of them
    /// answers.
    pub fn exec(&mut self, args: &mut ExecArgs) -> (id: i32)
        ensures
            final(args).result == (if old(self)@.waiting {
                None::<String>
            } else {
                old(args).result
            }),
            match run(resume(old(self)@, opt_str(old(args).result)), STEP_LIMIT as nat) {
                RunV::Done(e, c, b) => {
                    &&& final(self)@ == e
                    &&& id == c
                    &&& match b {
                        Some(bv) => final(args).built is Some && built_view(final(args).built->0)
                            == bv,
                        None => final(args).built == old(args).built,
                    }
                },
                RunV::OutOfSteps(e) => {
                    &&& final(self)@ == with_flow(e, warn(e.flow, step_limit_warning()))
                    &&& id == YAMAMVA_END
                    &&& final(args).built == old(args).built
                },
            },
            final(self)@.flow.state.facts == old(self)@.flow.state.facts,
            forall|i: int|
                0 <= i < final(self).float_gaps_view().len() ==> fact_answer(
                    old(self)@.flow.state.facts,
                    #[trigger] final(self).float_gaps_view()[i],
                ) is None,
    {
        self.flow.gaps = Vec::new();
        if self.waiting_result {
            let r = args.result.take();
            self.flow.state.set_result(r);
            self.waiting_result = false;
            if self.flow.cursor.node_index < usize::MAX {
                self.flow.cursor.node_index = self.flow.cursor.node_index + 1;
            }
        }
        assert(self@ == resume(old(self)@, opt_str(old(args).result)));
        let ghost mid = self.flow;
        let id = self.walk(args);
        proof {
            let g = self.flow.gaps@;
            assert forall|i: int| 0 <= i < self.float_gaps_view().len() implies fact_answer(
                old(self)@.flow.state.facts,
                #[trigger] self.float_gaps_view()[i],
            ) is None by {
                assert(g.subrange(0, mid.gaps@.len() as int) == mid.gaps@);
                assert(self.float_gaps_view()[i] == g[i]@);
            }
        }
        id
    }

    /// Walks nodes until one stops the walk, at most `STEP_LIMIT` of them.
    fn walk(&mut self, args: &mut ExecArgs) -> (id: i32)
        ensures
            final(args).result == old(args).result,
            match run(old(self)@, STEP_LIMIT as nat) {
                RunV::Done(e, c, b) => {
                    &&& final(self)@ == e
                    &&& id == c
                    &&& match b {
                        Some(bv) => final(args).built is Some && built_view(final(args).built->0)
                            == bv,
                        None => final(args).built == old(args).built,
                    }
                },
                RunV::OutOfSteps(e) => {
                    &&& final(self)@ == with_flow(e, warn(e.flow, step_limit_warning()))
                    &&& id == YAMAMVA_END
                    &&& final(args).built == old(args).built
                },
            },
            gaps_kept(old(self).flow, final(self).flow),
    {
        proof {
            lemma_kept_refl(self.flow);
        }
        let ghost e0 = self@;
        let mut fuel: u64 = STEP_LIMIT;
        loop
            invariant
                run(self@, fuel as nat) == run(e0, STEP_LIMIT as nat),
                e0 == old(self)@,
                args.built == old(args).built,
                args.result == old(args).result,
                gaps_kept(old(self).flow, self.flow),
            decreases fuel,
        {
            if fuel == 0 {
                proof {
                    reveal_strlit("step limit reached");
                }
                let ghost before = self@;
                assert(run(before, 0) == RunV::OutOfSteps(before));
                push_warning(&mut self.flow, String::from_str("step limit reached"));
                assert(self@ == with_flow(before, warn(before.flow, step_limit_warning())));
                return YAMAMVA_END;
            }
            let ghost before = self@;
            let ghost bf = self.flow;
            let r = self.step();
            proof {
                lemma_kept_chain(old(self).flow, bf, self.flow);
            }
            assert(run(before, fuel as nat) == match step(before) {
                StepV::Next(e2) => run(e2, (fuel - 1) as nat),
                StepV::Stop(e2, c, b) => RunV::Done(e2, c, b),
            });
            match r {
                None => {
                    fuel = fuel - 1;
                },
                Some((c, b)) => {
                    match b {
                        Some(x) => {
                            args.built = Some(x);
                        },
                        None => {},
                    }
                    return c;
                },
            }
        }
    }

    /// The variables.
    pub fn state(&self) -> (s: &State)
        ensures
            s@ == self@.flow.state,
    {
        &self.flow.state
    }

    /// The floating-point queries that the last call of `exec` needed and that no fact
    /// of the state answered at the time: a condition or value that needed one was
    /// taken as one that cannot be evaluated. Handing in their answers (through
    /// `state_mut`) lets the same call be made again with them.
    pub fn float_gaps(&self) -> (g: &Vec<FloatQuery>)
        ensures
            g@.map_values(|q: FloatQuery| q@) == self.float_gaps_view(),
    {
        &self.flow.gaps
    }

    /// The floating-point queries that the last call of `exec` needed and that no fact
    /// answered at the time (see `float_gaps`).
    pub closed spec fn float_gaps_view(&self) -> Seq<FloatQueryV> {
        self.flow.gaps@.map_values(|q: FloatQuery| q@)
    }

    /// The variables, to change them.
    pub fn state_mut(&mut self) -> (s: &mut State)
        ensures
            (*s)@ == old(self)@.flow.state,
            final(self)@ == with_flow(old(self)@, FlowV { state: final(s)@, ..old(self)@.flow }),
    {
        &mut self.flow.state
    }

    /// The scenario being run.
    pub fn scenario(&self) -> (s: &Scenario)
        ensures
            scenario_view(*s) == self@.scenario,
    {
        &self.scenario
    }

    /// The position: the current scene and the index of the node in it.
    pub fn cursor(&self) -> (c: &Cursor)
        ensures
            c.scene_id@ == self@.flow.scene_id,
            c.node_index == self@.flow.node_index,
    {
        &self.flow.cursor
    }

    /// The file of the current scene.
    pub fn current_file(&self) -> (f: &str)
        ensures
            f@ == self@.flow.current_file,
    {
        self.flow.current_file.as_str()
    }

    /// The warnings gathered so far, oldest first.
    pub fn warnings(&self) -> (w: &[String])
        ensures
            strings_view(w@) == self@.flow.warnings,
    {
        self.flow.warnings.as_slice()
    }

    /// Forgets the warnings gathered so far.
    pub fn clear_warnings(&mut self)
        ensures
            final(self)@ == with_flow(old(self)@, FlowV { warnings: Seq::empty(), ..old(self)@.flow }),
    {
        self.flow.warnings.clear();
        assert(strings_view(self.flow.warnings@) =~= Seq::<Seq<char>>::empty());
    }

    /// Whether the engine waits for the result of a blocking command.
    pub fn is_waiting_result(&self) -> (b: bool)
        ensures
            b == self@.waiting,
    {
        self.waiting_result
    }

    /// The registered node types.
    pub fn registry(&self) -> (r: &Registry)
        ensures
            r@ == self@.registry,
    {
        &self.registry
    }

    /// The registered node types, to change them.
    pub fn registry_mut(&mut self) -> (r: &mut Registry)
        ensures
            (*r)@ == old(self)@.registry,
            final(self)@ == (EngineV { registry: final(r)@, ..old(self)@ }),
    {
        &mut self.registry
    }
}

/// A node that lets the walk go on changes only the flow; a stop without command
/// arguments is the scenario's end and changes nothing.
proof fn lemma_step_shape(e: EngineV)
    ensures
        step(e) matches StepV::Next(e2) ==> e2.waiting == e.waiting && e2.scenario == e.scenario
            && e2.registry == e.registry,
        step(e) matches StepV::Stop(e2, c, None) ==> e2 == e && c == YAMAMVA_END,
{
    reveal(step);
}

/// A walk from an engine that is not waiting ends, when it ends without command
/// arguments, at an engine that is not waiting and whose node stops the walk again
/// in the same way.
proof fn lemma_run_end(e: EngineV, fuel: nat)
    requires
        !e.waiting,
    ensures
        run(e, fuel) matches RunV::Done(e1, c, None) ==> !e1.waiting && c == YAMAMVA_END && step(
            e1,
        ) == StepV::Stop(e1, YAMAMVA_END, None),
    decreases fuel,
{
    if fuel > 0 {
        lemma_step_shape(e);
        match step(e) {
            StepV::Next(e2) => {
                lemma_run_end(e2, (fuel - 1) as nat);
            },
            StepV::Stop(e2, c, b) => {},
        }
    }
}

/// Once `exec` has returned `YAMAMVA_END` without command arguments (the scenario
/// has ended), every further `exec` returns `YAMAMVA_END` again and changes nothing,
/// whatever result the game writes.
pub proof fn law_end_is_final(e: EngineV, r1: Option<Seq<char>>, r2: Option<Seq<char>>)
    requires
        run(resume(e, r1), STEP_LIMIT as nat) matches RunV::Done(_, c, None) && c == YAMAMVA_END,
    ensures
        ({
            let e1 = run(resume(e, r1), STEP_LIMIT as nat)->Done_0;
            run(resume(e1, r2), STEP_LIMIT as nat) == RunV::Done(e1, YAMAMVA_END, None)
        }),
{
    lemma_run_end(resume(e, r1), STEP_LIMIT as nat);
}

/// A blocking command keeps the engine at its node, waiting; the next `exec` stores
/// the game's result as `$result` (a string, or nothing) and moves to the next node,
/// leaving the variables as they were.
pub proof fn law_blocking_resume(e: EngineV, r: Option<Seq<char>>)
    requires
        !e.waiting,
        0 <= e.flow.node_index < usize::MAX,
        step(e) matches StepV::Stop(e2, _, _) && e2.waiting,
    ensures
        ({
            let e2 = step(e)->Stop_0;
            let e3 = resume(e2, r);
            &&& e2.flow == e.flow
            &&& !e3.waiting
            &&& e3.flow.node_index == e.flow.node_index + 1
            &&& e3.flow.scene_id == e.flow.scene_id
            &&& e3.flow.state.vars == e.flow.state.vars
            &&& read_var(e3.flow.state, result_name()) == match r {
                Some(s) => Some(ValueV::Str(s)),
                None => None,
            }
        }),
{
    reveal(step);
}

/// A node whose condition is false is skipped: the engine moves to the next node
/// and nothing else changes.
pub proof fn law_false_condition_skips(e: EngineV)
    requires
        current_node(e.scenario, e.flow) matches Some(n) && n.when matches Some(w) && when_result(
            w,
            e.flow.state,
        ) == Some(false),
    ensures
        step(e) == StepV::Next(with_flow(e, advance(e.flow))),
{
    reveal(step);
}

/// A node of a type that is neither built in nor registered is skipped with the
/// warning `unregistered: <type>`; nothing else changes.
pub proof fn law_unregistered_skipped(e: EngineV)
    requires
        current_node(e.scenario, e.flow) matches Some(n) && n.when is None && !is_builtin(
            n.node_type,
        ) && !e.registry.contains_key(n.node_type),
    ensures
        ({
            let n = current_node(e.scenario, e.flow)->0;
            step(e) == StepV::Next(
                with_flow(e, advance(warn(e.flow, unregistered_warning(n.node_type)))),
            )
        }),
{
    reveal(step);
}

/// An `incase` node forgets the game's last result, whichever branch it takes.
#[verifier::rlimit(40)]
pub proof fn law_incase_forgets_result(e: EngineV)
    requires
        current_node(e.scenario, e.flow) matches Some(n) && n.when is None && n.node_type == seq![
            'i',
            'n',
            'c',
            'a',
            's',
            'e',
        ],
    ensures
        step(e) matches StepV::Next(e2) && e2.flow.state.result is None,
{
    reveal(step);
}

/// The node types that the engine runs itself.
pub open spec fn is_builtin(t: Seq<char>) -> bool {
    t == seq!['e', 'n', 'd'] || t == do_word() || t == seq!['j', 'u', 'm', 'p'] || t == seq![
        'i',
        'n',
        'c',
        'a',
        's',
        'e',
    ]
}

/// The built-in nodes never reach the game: a command that `exec` hands out is of a
/// registered type that is not built in.
pub proof fn law_builtins_never_dispatched(e: EngineV, fuel: nat)
    ensures
        run(e, fuel) matches RunV::Done(e1, c, Some(b)) ==> !is_builtin(b.node_type)
            && e.registry.contains_key(b.node_type) && e.registry[b.node_type].command_id == c,
    decreases fuel,
{
    if fuel > 0 {
        reveal(step);
        match step(e) {
            StepV::Next(e2) => {
                lemma_step_shape(e);
                law_builtins_never_dispatched(e2, (fuel - 1) as nat);
            },
            StepV::Stop(e2, c, b) => {},
        }
    }
}

/// A jump to `file:scene` for a scene that exists moves to that scene's first node
/// and makes `file` the current file, whichever file the scene was loaded from.
pub proof fn law_file_reference_jump(sc: ScenarioV, fl: FlowV, f: Seq<char>, sid: Seq<char>)
    requires
        !f.contains(':'),
        sid.len() > 0,
        sc.scenes.contains_key(sid),
    ensures
        follow(sc, fl, Some(f + seq![':'] + sid)) == (FlowV {
            scene_id: sid,
            node_index: 0,
            current_file: f,
            ..fl
        }),
{
    crate::scene_ref::law_join_splits(f, sid);
}

/// A jump to a bare scene name stays within the current file: it moves to that
/// scene's first node when the scene comes from the current file, and otherwise
/// moves on to the next node with the error as a warning.
pub proof fn law_bare_reference_jump(sc: ScenarioV, fl: FlowV, sid: Seq<char>)
    requires
        !sid.contains(':'),
    ensures
        follow(sc, fl, Some(sid)) == if sc.scene_file.contains_key(sid) && sc.scene_file[sid]
            == fl.current_file {
            FlowV { scene_id: sid, node_index: 0, ..fl }
        } else {
            advance(warn(fl, resolve_next(sc, fl.current_file, sid)->Err_0))
        },
{
    crate::scene_ref::law_join_splits(Seq::empty(), sid);
}

} // verus!

verus! {

/// Applying `do` entries changes only the variables they name: the result and the
/// facts stay, and a variable that no entry names keeps its value.
proof fn lemma_apply_do_keeps(f: FlowV, es: Seq<(Seq<char>, JsonV)>, k: Seq<char>)
    ensures
        apply_do(f, es).state.result == f.state.result,
        apply_do(f, es).state.facts == f.state.facts,
        (forall|i: int| 0 <= i < es.len() ==> #[trigger] es[i].0 != k) ==> (apply_do(
            f,
            es,
        ).state.vars.contains_key(k) == f.state.vars.contains_key(k) && (f.state.vars.contains_key(
            k,
        ) ==> apply_do(f, es).state.vars[k] == f.state.vars[k])),
    decreases es.len(),
{
    if es.len() > 0 {
        lemma_apply_do_keeps(f, es.drop_last(), k);
        if forall|i: int| 0 <= i < es.len() ==> #[trigger] es[i].0 != k {
            assert forall|i: int| 0 <= i < es.drop_last().len() implies #[trigger] es.drop_last()[i].0
                != k by {
                assert(es.drop_last()[i] == es[i]);
            }
            assert(es[es.len() - 1].0 != k);
        }
    }
}

/// A `do` node that runs changes only the variables that its `do` object names and
/// the position: the game's last result (`$result`) stays what it was, every other
/// variable keeps its value, and the walk moves on to the next node of the same
/// scene and file.
pub proof fn law_do_keeps_result(e: EngineV, k: Seq<char>)
    requires
        current_node(e.scenario, e.flow) matches Some(n) && n.node_type == do_word() && (
        n.when is None || when_result(n.when->0, e.flow.state) == Some(true)),
    ensures
        ({
            let n = current_node(e.scenario, e.flow)->0;
            let es = do_entries(n.raw);
            step(e) matches StepV::Next(e2) && {
                &&& read_var(e2.flow.state, result_name()) == read_var(
                    e.flow.state,
                    result_name(),
                )
                &&& e2.flow.state.result == e.flow.state.result
                &&& e2.flow.scene_id == e.flow.scene_id
                &&& e2.flow.node_index == e.flow.node_index + 1
                &&& e2.flow.current_file == e.flow.current_file
                &&& e2.waiting == e.waiting
                &&& (forall|i: int| 0 <= i < es.len() ==> #[trigger] es[i].0 != k) ==> (
                e2.flow.state.vars.contains_key(k) == e.flow.state.vars.contains_key(k) && (
                e.flow.state.vars.contains_key(k) ==> e2.flow.state.vars[k]
                    == e.flow.state.vars[k]))
            }
        }),
{
    reveal(step);
    let n = current_node(e.scenario, e.flow)->0;
    let es = do_entries(n.raw);
    lemma_apply_do_keeps(e.flow, es, k);
    lemma_apply_do_position(e.flow, es);
}

} // verus!
