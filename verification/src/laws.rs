//! Laws of the resolver's transition function.
//!
//! Everything here is stated over [`handle_model`], which
//! [`GraphResolver::on_event`](crate::machine::GraphResolver) is proved to
//! implement exactly, so each law carries over to any run of the machine.

use vstd::prelude::*;

use crate::classify::{is_system_name, is_system_path};
use crate::machine::{advance_model, frame_wf, frame_quota, handle_model, leaf_model,
    push_child_model, stack_quota, ActionModel, EventModel, MachineModel, PhaseModel,
    start_model};
use crate::node::NodeStatus;

verus! {

/// Facts about one internal advance of the machine: the visited set only
/// grows; a probe is only ever emitted for a name that was not visited
/// before and is recorded at once; with filtering on, no probed name
/// matches the system-stub prefixes; the filter setting never changes; and
/// advancing never asks for an analysis on its own.
pub proof fn lemma_advance_facts(s: MachineModel)
    ensures
        forall|n: Seq<char>|
            s.visited.contains(n) ==> #[trigger] advance_model(s).0.visited.contains(n),
        (advance_model(s).1 matches ActionModel::Probe { name, .. } ==> {
            &&& !s.visited.contains(name)
            &&& advance_model(s).0.visited.contains(name)
            &&& !s.show_system ==> !is_system_name(name)
        }),
        advance_model(s).0.show_system == s.show_system,
        !(advance_model(s).1 is Analyze),
    decreases stack_quota(s.stack), s.stack.len(),
{
    if s.stack.len() == 0 {
    } else {
        let top = s.stack.last();
        if 0 <= top.next && top.next < top.pending.len() {
            let dep = top.pending[top.next];
            let stack1 = s.stack.update(
                s.stack.len() - 1,
                crate::machine::FrameModel { next: top.next + 1, ..top },
            );
            let s1 = MachineModel { stack: stack1, ..s };
            assert(stack1.drop_last() =~= s.stack.drop_last());
            assert(stack_quota(stack1) < stack_quota(s.stack));
            if s.visited.contains(dep) {
                lemma_advance_facts(s1);
            } else {
                let s2 = MachineModel { visited: s1.visited.push(dep), ..s1 };
                assert forall|n: Seq<char>| s.visited.contains(n) implies #[trigger] s2
                    .visited.contains(n) by {
                    let i = choose|i: int| 0 <= i < s.visited.len() && s.visited[i] == n;
                    assert(s2.visited[i] == n);
                }
                assert(s2.visited[s2.visited.len() - 1] == dep);
                assert(s2.visited.contains(dep));
                if !s.show_system && is_system_name(dep) {
                    lemma_advance_facts(s2);
                }
            }
        } else {
            let node = crate::node::NodeModel {
                name: top.name,
                location: Option::Some(top.location),
                status: NodeStatus::Resolved,
                children: top.children,
            };
            let stack1 = s.stack.drop_last();
            if stack1.len() != 0 {
                let stack2 = push_child_model(stack1, node);
                assert(stack2.drop_last() =~= stack1.drop_last());
                assert(frame_quota(stack2.last()) == frame_quota(stack1.last()));
                assert(stack_quota(stack2) == stack_quota(stack1));
                assert(frame_quota(top) == 0);
                assert(stack_quota(s.stack) == stack_quota(stack1));
                lemma_advance_facts(MachineModel { stack: stack2, ..s });
            }
        }
    }
}

/// Name-filter and visited-once law for a full step: a step never probes a
/// name it has seen before, records at once the name it does probe, never
/// drops a name from the visited set, and — with filtering on — never
/// probes a module whose name matches the system-stub prefixes.
pub proof fn lemma_step_probe(s: MachineModel, ev: EventModel)
    ensures
        (handle_model(s, ev).1 matches ActionModel::Probe { name, .. } ==> {
            &&& !s.visited.contains(name)
            &&& handle_model(s, ev).0.visited.contains(name)
            &&& !s.show_system ==> !is_system_name(name)
        }),
        forall|n: Seq<char>|
            s.visited.contains(n) ==> #[trigger] handle_model(s, ev).0.visited.contains(n),
{
    match (s.phase, ev) {
        (PhaseModel::Probing { name }, EventModel::Located { location }) => match location {
            Option::None => {
                if s.stack.len() != 0 {
                    lemma_advance_facts(
                        MachineModel {
                            stack: push_child_model(
                                s.stack,
                                leaf_model(name, Option::None, NodeStatus::NotFound),
                            ),
                            ..s
                        },
                    );
                }
            },
            Option::Some(loc) => {
                if !s.show_system && is_system_path(loc) && s.stack.len() != 0 {
                    lemma_advance_facts(s);
                }
            },
        },
        (PhaseModel::Analyzing { name, location }, EventModel::Reported { text }) => match text {
            Option::None => {
                if s.stack.len() != 0 {
                    lemma_advance_facts(
                        MachineModel {
                            stack: push_child_model(
                                s.stack,
                                leaf_model(name, Option::Some(location), NodeStatus::ReportUnavailable),
                            ),
                            ..s
                        },
                    );
                }
            },
            Option::Some(t) => {
                let frame = crate::machine::FrameModel {
                    name,
                    location,
                    children: Seq::empty(),
                    pending: crate::parse::parse_report(t),
                    next: 0,
                    dir: crate::text::dir_name_of(location),
                };
                lemma_advance_facts(MachineModel { stack: s.stack.push(frame), ..s });
            },
        },
        _ => {},
    }
}

/// Path-filter law: a step asks for analysis only in answer to a
/// successful probe, and — with filtering on — only when the resolved
/// location lies outside the system directories.  In particular a module
/// that did not resolve (`Located { None }`) is never analyzed: its branch
/// is a leaf.
pub proof fn lemma_step_analyze(s: MachineModel, ev: EventModel)
    ensures
        (handle_model(s, ev).1 matches ActionModel::Analyze { location } ==> {
            &&& ev == (EventModel::Located { location: Option::Some(location) })
            &&& !s.show_system ==> !is_system_path(location)
        }),
{
    match (s.phase, ev) {
        (PhaseModel::Probing { name }, EventModel::Located { location }) => match location {
            Option::None => {
                if s.stack.len() != 0 {
                    lemma_advance_facts(
                        MachineModel {
                            stack: push_child_model(
                                s.stack,
                                leaf_model(name, Option::None, NodeStatus::NotFound),
                            ),
                            ..s
                        },
                    );
                }
            },
            Option::Some(loc) => {
                if !s.show_system && is_system_path(loc) && s.stack.len() != 0 {
                    lemma_advance_facts(s);
                }
            },
        },
        (PhaseModel::Analyzing { name, location }, EventModel::Reported { text }) => match text {
            Option::None => {
                if s.stack.len() != 0 {
                    lemma_advance_facts(
                        MachineModel {
                            stack: push_child_model(
                                s.stack,
                                leaf_model(
                                    name,
                                    Option::Some(location),
                                    NodeStatus::ReportUnavailable,
                                ),
                            ),
                            ..s
                        },
                    );
                }
            },
            Option::Some(t) => {
                let frame = crate::machine::FrameModel {
                    name,
                    location,
                    children: Seq::empty(),
                    pending: crate::parse::parse_report(t),
                    next: 0,
                    dir: crate::text::dir_name_of(location),
                };
                lemma_advance_facts(MachineModel { stack: s.stack.push(frame), ..s });
            },
        },
        _ => {},
    }
}

/// Name-filter law at the start of a run: with filtering on, a target
/// whose filename matches the system-stub prefixes is never probed — the
/// run ends at once with no tree.
pub proof fn lemma_start_filtered(target: Seq<char>, show_system: bool)
    ensures
        !show_system && is_system_name(crate::text::base_name_of(target)) ==> start_model(
            target,
            show_system,
        ).1 == (ActionModel::Done { root: Option::<crate::node::NodeModel>::None }),
        (start_model(target, show_system).1 matches ActionModel::Probe { name, .. }
            ==> !show_system ==> !is_system_name(crate::text::base_name_of(target))),
{
}

proof fn lemma_advance_wf(s: MachineModel)
    requires
        s.wf(),
    ensures
        advance_model(s).0.wf(),
        (advance_model(s).1 matches ActionModel::Done { root } ==> (root matches Option::Some(r)
            ==> r.wf())),
    decreases stack_quota(s.stack), s.stack.len(),
{
    if s.stack.len() == 0 {
    } else {
        let top = s.stack.last();
        assert(frame_wf(top));
        if 0 <= top.next && top.next < top.pending.len() {
            let dep = top.pending[top.next];
            let stack1 = s.stack.update(
                s.stack.len() - 1,
                crate::machine::FrameModel { next: top.next + 1, ..top },
            );
            let s1 = MachineModel { stack: stack1, ..s };
            assert(stack1.drop_last() =~= s.stack.drop_last());
            assert(stack_quota(stack1) < stack_quota(s.stack));
            assert forall|i: int| 0 <= i < stack1.len() implies frame_wf(
                #[trigger] stack1[i],
            ) by {
                if i < stack1.len() - 1 {
                    assert(stack1[i] == s.stack[i]);
                }
            }
            if s.visited.contains(dep) {
                lemma_advance_wf(s1);
            } else {
                let s2 = MachineModel { visited: s1.visited.push(dep), ..s1 };
                if !s.show_system && is_system_name(dep) {
                    lemma_advance_wf(s2);
                }
            }
        } else {
            let node = crate::node::NodeModel {
                name: top.name,
                location: Option::Some(top.location),
                status: NodeStatus::Resolved,
                children: top.children,
            };
            assert(node.wf());
            let stack1 = s.stack.drop_last();
            assert forall|i: int| 0 <= i < stack1.len() implies frame_wf(
                #[trigger] stack1[i],
            ) by {
                assert(stack1[i] == s.stack[i]);
            }
            if stack1.len() != 0 {
                let stack2 = push_child_model(stack1, node);
                assert(stack2.drop_last() =~= stack1.drop_last());
                assert(frame_quota(stack2.last()) == frame_quota(stack1.last()));
                assert(stack_quota(stack2) == stack_quota(stack1));
                assert(frame_quota(top) == 0);
                assert(stack_quota(s.stack) == stack_quota(stack1));
                let parent = stack1.last();
                assert forall|i: int|
                    0 <= i < parent.children.push(node).len() implies (
                #[trigger] parent.children.push(node)[i]).wf() by {
                    if i < parent.children.len() {
                        assert(parent.children.push(node)[i] == parent.children[i]);
                    }
                }
                assert forall|i: int| 0 <= i < stack2.len() implies frame_wf(
                    #[trigger] stack2[i],
                ) by {
                    if i < stack2.len() - 1 {
                        assert(stack2[i] == stack1[i]);
                    }
                }
                lemma_advance_wf(MachineModel { stack: stack2, ..s });
            }
        }
    }
}

/// Invariant law: a well-formed machine steps to a well-formed machine,
/// and a finished run hands out a well-formed tree — in particular, every
/// node without a location is a leaf, and only resolved nodes carry
/// children.
pub proof fn lemma_step_wf(s: MachineModel, ev: EventModel)
    requires
        s.wf(),
    ensures
        handle_model(s, ev).0.wf(),
        (handle_model(s, ev).1 matches ActionModel::Done { root } ==> (root matches Option::Some(r)
            ==> r.wf())),
{
    match (s.phase, ev) {
        (PhaseModel::Probing { name }, EventModel::Located { location }) => match location {
            Option::None => {
                if s.stack.len() != 0 {
                    let leaf = leaf_model(name, Option::None, NodeStatus::NotFound);
                    lemma_push_child_wf(s, leaf);
                    lemma_advance_wf(
                        MachineModel { stack: push_child_model(s.stack, leaf), ..s },
                    );
                }
            },
            Option::Some(loc) => {
                if !s.show_system && is_system_path(loc) && s.stack.len() != 0 {
                    lemma_advance_wf(s);
                }
            },
        },
        (PhaseModel::Analyzing { name, location }, EventModel::Reported { text }) => match text {
            Option::None => {
                if s.stack.len() != 0 {
                    let leaf = leaf_model(
                        name,
                        Option::Some(location),
                        NodeStatus::ReportUnavailable,
                    );
                    lemma_push_child_wf(s, leaf);
                    lemma_advance_wf(
                        MachineModel { stack: push_child_model(s.stack, leaf), ..s },
                    );
                }
            },
            Option::Some(t) => {
                let frame = crate::machine::FrameModel {
                    name,
                    location,
                    children: Seq::empty(),
                    pending: crate::parse::parse_report(t),
                    next: 0,
                    dir: crate::text::dir_name_of(location),
                };
                let sp = MachineModel { stack: s.stack.push(frame), ..s };
                assert(frame_wf(frame));
                assert forall|i: int| 0 <= i < sp.stack.len() implies frame_wf(
                    #[trigger] sp.stack[i],
                ) by {
                    if i < sp.stack.len() - 1 {
                        assert(sp.stack[i] == s.stack[i]);
                    }
                }
                lemma_advance_wf(sp);
            },
        },
        _ => {},
    }
}

proof fn lemma_push_child_wf(s: MachineModel, node: crate::node::NodeModel)
    requires
        s.wf(),
        s.stack.len() > 0,
        node.wf(),
    ensures
        (MachineModel { stack: push_child_model(s.stack, node), ..s }).wf(),
{
    let stack2 = push_child_model(s.stack, node);
    let parent = s.stack.last();
    assert(frame_wf(parent));
    assert forall|i: int|
        0 <= i < parent.children.push(node).len() implies (#[trigger] parent.children.push(
        node,
    )[i]).wf() by {
        if i < parent.children.len() {
            assert(parent.children.push(node)[i] == parent.children[i]);
        }
    }
    assert forall|i: int| 0 <= i < stack2.len() implies frame_wf(#[trigger] stack2[i]) by {
        if i < stack2.len() - 1 {
            assert(stack2[i] == s.stack[i]);
        }
    }
}

/// A run of the machine: `states[0]` is where it began, and each step
/// obeys the transition function.
pub open spec fn is_run(
    states: Seq<MachineModel>,
    events: Seq<EventModel>,
    actions: Seq<ActionModel>,
) -> bool {
    &&& states.len() == events.len() + 1
    &&& actions.len() == events.len()
    &&& forall|k: int|
        0 <= k < events.len() ==> states[k + 1] == (#[trigger] handle_model(states[k], events[k])).0
            && actions[k] == handle_model(states[k], events[k]).1
}

/// Along a run, the visited set only grows.
pub proof fn lemma_run_visited_monotone(
    states: Seq<MachineModel>,
    events: Seq<EventModel>,
    actions: Seq<ActionModel>,
    i: int,
    j: int,
    n: Seq<char>,
)
    requires
        is_run(states, events, actions),
        0 <= i <= j < states.len(),
        states[i].visited.contains(n),
    ensures
        states[j].visited.contains(n),
    decreases j - i,
{
    if i < j {
        lemma_step_probe(states[i], events[i]);
        assert(states[i + 1].visited.contains(n));
        lemma_run_visited_monotone(states, events, actions, i + 1, j, n);
    }
}

/// Visited-once law: across an entire run, no module name is probed —
/// hence resolved or recursed into — more than once, whatever graph the
/// reports describe.
pub proof fn lemma_visited_once(
    states: Seq<MachineModel>,
    events: Seq<EventModel>,
    actions: Seq<ActionModel>,
    i: int,
    j: int,
    name_i: Seq<char>,
    dir_i: Seq<char>,
    name_j: Seq<char>,
    dir_j: Seq<char>,
)
    requires
        is_run(states, events, actions),
        0 <= i < j < actions.len(),
        actions[i] == (ActionModel::Probe { name: name_i, dir: dir_i }),
        actions[j] == (ActionModel::Probe { name: name_j, dir: dir_j }),
    ensures
        name_i != name_j,
{
    lemma_step_probe(states[i], events[i]);
    assert(states[i + 1].visited.contains(name_i));
    lemma_run_visited_monotone(states, events, actions, i + 1, j, name_i);
    lemma_step_probe(states[j], events[j]);
    assert(!states[j].visited.contains(name_j));
}

} // verus!
