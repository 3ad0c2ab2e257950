//! The graph resolver: a verified state machine that turns per-module
//! reports into the deduplicated dependency tree.
//!
//! The machine owns every decision — visited-set bookkeeping, filter
//! policy, report parsing, node construction — while the embedding program
//! performs the two outside effects it cannot: probing the file system for
//! a module and running the analysis utility on a resolved location.  Each
//! call of [`GraphResolver::on_event`] consumes the answer to the previous
//! [`Action`] and returns the next one; the whole transition is pinned to
//! the specification-level function [`handle_model`].

use vstd::prelude::*;

use crate::classify::{classify_name, classify_path, is_system_name, is_system_path,
    Classification};
use crate::node::{nodes_model, DependencyNode, NodeModel, NodeStatus};
use crate::parse::{extract_deps, parse_report};
use crate::text::{base_name, base_name_of, dir_name, dir_name_of};

verus! {

/// Fatal outcomes: only the root target can end the run with an error.
#[derive(Clone, Copy, PartialEq, Eq, Structural, Debug)]
pub enum ResolveError {
    /// The root target could not be located anywhere.
    RootNotFound,
    /// The analysis utility could not be run on the root target, or its
    /// output could not be decoded.
    RootReportUnavailable,
}

/// What the embedding program reports back to the machine.
pub enum Event {
    /// Answer to [`Action::Probe`]: the resolved location, if any.
    Located { location: Option<String> },
    /// Answer to [`Action::Analyze`]: the utility's raw report text, or
    /// `None` when the utility could not be run or its output decoded.
    Reported { text: Option<String> },
}

/// What the machine asks the embedding program to do next.
pub enum Action {
    /// Resolve `name` against the search directory `dir` first, then the
    /// standard executable search path.
    Probe { name: String, dir: String },
    /// Run the analysis utility on the module at `location` and hand back
    /// its report text.
    Analyze { location: String },
    /// Resolution finished: the completed tree, or `None` when the root
    /// itself was suppressed by the system filter.
    Done { root: Option<DependencyNode> },
    /// Resolution failed on the root target.
    Fail { error: ResolveError },
}

/// Model of one stack frame: a node under construction together with the
/// names still to process and the directory its children resolve against.
#[verifier::ext_equal]
pub struct FrameModel {
    pub name: Seq<char>,
    pub location: Seq<char>,
    pub children: Seq<NodeModel>,
    pub pending: Seq<Seq<char>>,
    pub next: int,
    pub dir: Seq<char>,
}

/// Which answer the machine is waiting for.
#[verifier::ext_equal]
pub enum PhaseModel {
    Probing { name: Seq<char> },
    Analyzing { name: Seq<char>, location: Seq<char> },
    Finished,
}

/// Model of the whole resolver state.
#[verifier::ext_equal]
pub struct MachineModel {
    pub show_system: bool,
    pub visited: Seq<Seq<char>>,
    pub stack: Seq<FrameModel>,
    pub phase: PhaseModel,
}

#[verifier::ext_equal]
pub enum EventModel {
    Located { location: Option<Seq<char>> },
    Reported { text: Option<Seq<char>> },
}

#[verifier::ext_equal]
pub enum ActionModel {
    Probe { name: Seq<char>, dir: Seq<char> },
    Analyze { location: Seq<char> },
    Done { root: Option<NodeModel> },
    Fail { error: ResolveError },
}

impl View for Event {
    type V = EventModel;

    open spec fn view(&self) -> EventModel {
        match self {
            Event::Located { location } => EventModel::Located {
                location: match location {
                    Option::Some(l) => Option::Some(l@),
                    Option::None => Option::None,
                },
            },
            Event::Reported { text } => EventModel::Reported {
                text: match text {
                    Option::Some(t) => Option::Some(t@),
                    Option::None => Option::None,
                },
            },
        }
    }
}

impl View for Action {
    type V = ActionModel;

    open spec fn view(&self) -> ActionModel {
        match self {
            Action::Probe { name, dir } => ActionModel::Probe { name: name@, dir: dir@ },
            Action::Analyze { location } => ActionModel::Analyze { location: location@ },
            Action::Done { root } => ActionModel::Done {
                root: match root {
                    Option::Some(n) => Option::Some(n@),
                    Option::None => Option::None,
                },
            },
            Action::Fail { error } => ActionModel::Fail { error: *error },
        }
    }
}

/// Names this frame has not processed yet.
pub open spec fn frame_quota(f: FrameModel) -> nat {
    if 0 <= f.next <= f.pending.len() {
        (f.pending.len() - f.next) as nat
    } else {
        0
    }
}

/// Names the whole stack has not processed yet.
pub open spec fn stack_quota(stack: Seq<FrameModel>) -> nat
    decreases stack,
{
    if stack.len() == 0 {
        0
    } else {
        stack_quota(stack.drop_last()) + frame_quota(stack.last())
    }
}

/// A frame never points past its pending list, and carries only
/// well-formed finished children.
pub open spec fn frame_wf(f: FrameModel) -> bool {
    &&& 0 <= f.next <= f.pending.len()
    &&& forall|i: int| 0 <= i < f.children.len() ==> (#[trigger] f.children[i]).wf()
}

impl MachineModel {
    pub open spec fn wf(self) -> bool {
        forall|i: int| 0 <= i < self.stack.len() ==> frame_wf(#[trigger] self.stack[i])
    }

    /// Which events the machine can take in this phase.
    pub open spec fn expects(self, ev: EventModel) -> bool {
        match (self.phase, ev) {
            (PhaseModel::Probing { .. }, EventModel::Located { .. }) => true,
            (PhaseModel::Analyzing { .. }, EventModel::Reported { .. }) => true,
            _ => false,
        }
    }
}

/// A leaf node.
pub open spec fn leaf_model(name: Seq<char>, location: Option<Seq<char>>, status: NodeStatus)
    -> NodeModel {
    NodeModel { name, location, status, children: Seq::empty() }
}

/// `stack` with `node` appended to the children of its top frame.
pub open spec fn push_child_model(stack: Seq<FrameModel>, node: NodeModel) -> Seq<FrameModel>
    recommends
        stack.len() > 0,
{
    let parent = stack.last();
    stack.update(
        stack.len() - 1,
        FrameModel { children: parent.children.push(node), ..parent },
    )
}

/// Drive the machine forward until it needs an outside answer or is done:
/// skip pending names that are already visited or match the name filter,
/// emit a probe for the first remaining one, and fold finished frames into
/// their parent's children.
pub open spec fn advance_model(s: MachineModel) -> (MachineModel, ActionModel)
    decreases stack_quota(s.stack), s.stack.len(),
    via advance_model_decreases
{
    if s.stack.len() == 0 {
        (
            MachineModel { phase: PhaseModel::Finished, ..s },
            ActionModel::Done { root: Option::None },
        )
    } else {
        let top = s.stack.last();
        if 0 <= top.next && top.next < top.pending.len() {
            let dep = top.pending[top.next];
            let stack1 = s.stack.update(
                s.stack.len() - 1,
                FrameModel { next: top.next + 1, ..top },
            );
            let s1 = MachineModel { stack: stack1, ..s };
            if s.visited.contains(dep) {
                advance_model(s1)
            } else {
                let s2 = MachineModel { visited: s1.visited.push(dep), ..s1 };
                if !s.show_system && is_system_name(dep) {
                    advance_model(s2)
                } else {
                    (
                        MachineModel { phase: PhaseModel::Probing { name: dep }, ..s2 },
                        ActionModel::Probe { name: dep, dir: top.dir },
                    )
                }
            }
        } else {
            let node = NodeModel {
                name: top.name,
                location: Option::Some(top.location),
                status: NodeStatus::Resolved,
                children: top.children,
            };
            let stack1 = s.stack.drop_last();
            if stack1.len() == 0 {
                (
                    MachineModel { stack: stack1, phase: PhaseModel::Finished, ..s },
                    ActionModel::Done { root: Option::Some(node) },
                )
            } else {
                advance_model(MachineModel { stack: push_child_model(stack1, node), ..s })
            }
        }
    }
}

#[via_fn]
proof fn advance_model_decreases(s: MachineModel) {
    if s.stack.len() != 0 {
        let top = s.stack.last();
        if 0 <= top.next && top.next < top.pending.len() {
            let stack1 = s.stack.update(
                s.stack.len() - 1,
                FrameModel { next: top.next + 1, ..top },
            );
            assert(stack1.drop_last() =~= s.stack.drop_last());
            assert(stack1.last() == FrameModel { next: top.next + 1, ..top });
            assert(stack_quota(stack1) < stack_quota(s.stack));
        } else {
            let stack1 = s.stack.drop_last();
            if stack1.len() != 0 {
                let node = NodeModel {
                    name: top.name,
                    location: Option::Some(top.location),
                    status: NodeStatus::Resolved,
                    children: top.children,
                };
                let stack2 = push_child_model(stack1, node);
                assert(stack2.drop_last() =~= stack1.drop_last());
                assert(frame_quota(stack2.last()) == frame_quota(stack1.last()));
                assert(stack_quota(stack2) == stack_quota(stack1));
                assert(frame_quota(top) == 0);
                assert(stack_quota(s.stack) == stack_quota(stack1));
                assert(stack2.len() < s.stack.len());
            }
        }
    }
}

/// The machine's full transition: consume the answer to the pending
/// action and compute the next state and action.
pub open spec fn handle_model(s: MachineModel, ev: EventModel) -> (MachineModel, ActionModel) {
    match (s.phase, ev) {
        (PhaseModel::Probing { name }, EventModel::Located { location }) => match location {
            Option::None => {
                if s.stack.len() == 0 {
                    (
                        MachineModel { phase: PhaseModel::Finished, ..s },
                        ActionModel::Fail { error: ResolveError::RootNotFound },
                    )
                } else {
                    advance_model(
                        MachineModel {
                            stack: push_child_model(
                                s.stack,
                                leaf_model(name, Option::None, NodeStatus::NotFound),
                            ),
                            ..s
                        },
                    )
                }
            },
            Option::Some(loc) => {
                if !s.show_system && is_system_path(loc) {
                    if s.stack.len() == 0 {
                        (
                            MachineModel { phase: PhaseModel::Finished, ..s },
                            ActionModel::Done { root: Option::None },
                        )
                    } else {
                        advance_model(s)
                    }
                } else {
                    (
                        MachineModel {
                            phase: PhaseModel::Analyzing {
                                name: base_name_of(loc),
                                location: loc,
                            },
                            ..s
                        },
                        ActionModel::Analyze { location: loc },
                    )
                }
            },
        },
        (PhaseModel::Analyzing { name, location }, EventModel::Reported { text }) => match text {
            Option::None => {
                if s.stack.len() == 0 {
                    (
                        MachineModel { phase: PhaseModel::Finished, ..s },
                        ActionModel::Fail { error: ResolveError::RootReportUnavailable },
                    )
                } else {
                    advance_model(
                        MachineModel {
                            stack: push_child_model(
                                s.stack,
                                leaf_model(
                                    name,
                                    Option::Some(location),
                                    NodeStatus::ReportUnavailable,
                                ),
                            ),
                            ..s
                        },
                    )
                }
            },
            Option::Some(t) => {
                let frame = FrameModel {
                    name,
                    location,
                    children: Seq::empty(),
                    pending: parse_report(t),
                    next: 0,
                    dir: dir_name_of(location),
                };
                advance_model(MachineModel { stack: s.stack.push(frame), ..s })
            },
        },
        // ruled out by `expects`; the machine never takes such a step
        _ => (s, ActionModel::Fail { error: ResolveError::RootNotFound }),
    }
}

/// The machine's initial state and first action for a target: the target's
/// filename is visited from the outset, the name filter is consulted before
/// anything else, and otherwise the target itself is probed against its own
/// directory.
pub open spec fn start_model(target: Seq<char>, show_system: bool) -> (
    MachineModel,
    ActionModel,
) {
    let root = base_name_of(target);
    let s = MachineModel {
        show_system,
        visited: seq![root],
        stack: Seq::empty(),
        phase: PhaseModel::Probing { name: root },
    };
    if !show_system && is_system_name(root) {
        (
            MachineModel { phase: PhaseModel::Finished, ..s },
            ActionModel::Done { root: Option::None },
        )
    } else {
        (s, ActionModel::Probe { name: target, dir: dir_name_of(target) })
    }
}

// --- executable machine ---

struct Frame {
    name: String,
    location: String,
    children: Vec<DependencyNode>,
    pending: Vec<String>,
    next: usize,
    dir: String,
}

enum Phase {
    Probing { name: String },
    Analyzing { name: String, location: String },
    Finished,
}

impl View for Frame {
    type V = FrameModel;

    closed spec fn view(&self) -> FrameModel {
        FrameModel {
            name: self.name@,
            location: self.location@,
            children: nodes_model(self.children@),
            pending: self.pending.deep_view(),
            next: self.next as int,
            dir: self.dir@,
        }
    }
}

impl View for Phase {
    type V = PhaseModel;

    closed spec fn view(&self) -> PhaseModel {
        match self {
            Phase::Probing { name } => PhaseModel::Probing { name: name@ },
            Phase::Analyzing { name, location } => PhaseModel::Analyzing {
                name: name@,
                location: location@,
            },
            Phase::Finished => PhaseModel::Finished,
        }
    }
}

spec fn frames_model(fs: Seq<Frame>) -> Seq<FrameModel> {
    Seq::new(fs.len(), |i: int| fs[i]@)
}

/// The recursive resolver.  Obtain one with [`GraphResolver::start`], then
/// answer each returned [`Action`] with the matching [`Event`] until the
/// machine reports `Done` or `Fail`.
pub struct GraphResolver {
    show_system: bool,
    visited: Vec<String>,
    stack: Vec<Frame>,
    phase: Phase,
}

impl View for GraphResolver {
    type V = MachineModel;

    closed spec fn view(&self) -> MachineModel {
        MachineModel {
            show_system: self.show_system,
            visited: self.visited.deep_view(),
            stack: frames_model(self.stack@),
            phase: self.phase@,
        }
    }
}

/// Whether `v` holds a string spelled like `s`.
fn contains_string(v: &Vec<String>, s: &String) -> (r: bool)
    ensures
        r == v.deep_view().contains(s@),
{
    let n: usize = v.len();
    let mut i: usize = 0;
    while i < n
        invariant
            i <= n,
            n == v@.len(),
            forall|k: int| 0 <= k < i ==> v@[k]@ != s@,
        decreases n - i,
    {
        if v[i].eq(s) {
            proof {
                assert(v.deep_view()[i as int] == s@);
            }
            return true;
        }
        i = i + 1;
    }
    proof {
        assert forall|k: int| 0 <= k < v.deep_view().len() implies v.deep_view()[k] != s@ by {
            assert(v.deep_view()[k] == v@[k]@);
        }
    }
    false
}

impl GraphResolver {
    /// Begin resolving `target` (a path or bare name).  Returns the
    /// machine and the first action to perform.
    pub fn start(target: &str, show_system: bool) -> (r: (GraphResolver, Action))
        ensures
            r.0@ == start_model(target@, show_system).0,
            r.1@ == start_model(target@, show_system).1,
            r.0@.wf(),
    {
        let root: String = base_name(target);
        let mut visited: Vec<String> = Vec::new();
        visited.push(root.clone());
        proof {
            assert(visited.deep_view() =~= seq![root@]);
            assert(frames_model(Seq::<Frame>::empty()) =~= Seq::<FrameModel>::empty());
        }
        let filtered = match classify_name(root.as_str(), show_system) {
            Classification::Skip(_) => true,
            Classification::Accept => false,
        };
        if filtered {
            let m = GraphResolver {
                show_system,
                visited,
                stack: Vec::new(),
                phase: Phase::Finished,
            };
            proof {
                assert(m@ =~= start_model(target@, show_system).0);
            }
            (m, Action::Done { root: Option::None })
        } else {
            let m = GraphResolver {
                show_system,
                visited,
                stack: Vec::new(),
                phase: Phase::Probing { name: root },
            };
            let a = Action::Probe { name: target.to_owned(), dir: dir_name(target) };
            proof {
                assert(m@ =~= start_model(target@, show_system).0);
                assert(a@ =~= start_model(target@, show_system).1);
            }
            (m, a)
        }
    }

    /// The name the machine is waiting to have located.
    fn probing_name(&self) -> (name: String)
        requires
            (self@.phase is Probing),
        ensures
            self@.phase == (PhaseModel::Probing { name: name@ }),
    {
        match &self.phase {
            Phase::Probing { name } => name.clone(),
            // the precondition pins the phase; these arms cannot run
            Phase::Analyzing { name, .. } => name.clone(),
            Phase::Finished => String::new(),
        }
    }

    /// The name and location the machine is waiting to have analyzed.
    fn analyzing_parts(&self) -> (r: (String, String))
        requires
            (self@.phase is Analyzing),
        ensures
            self@.phase == (PhaseModel::Analyzing { name: r.0@, location: r.1@ }),
    {
        match &self.phase {
            Phase::Analyzing { name, location } => (name.clone(), location.clone()),
            // the precondition pins the phase; these arms cannot run
            Phase::Probing { name } => (name.clone(), String::new()),
            Phase::Finished => (String::new(), String::new()),
        }
    }

    /// Append a finished node to the children of the top frame.
    fn push_child(&mut self, node: DependencyNode)
        requires
            old(self).stack.len() > 0,
        ensures
            final(self)@ == (MachineModel {
                stack: push_child_model(old(self)@.stack, node@),
                ..old(self)@
            }),
    {
        let ghost s0 = self@;
        let ghost n0 = node@;
        let mut top: Frame = self.stack.pop().unwrap();
        let ghost topv = top@;
        top.children.push(node);
        proof {
            assert(top.children@.drop_last() =~= old(self).stack@.last().children@);
            assert(top@ == FrameModel { children: topv.children.push(n0), ..topv });
        }
        self.stack.push(top);
        proof {
            assert(frames_model(self.stack@) =~= push_child_model(s0.stack, n0));
            assert(self@ =~= MachineModel { stack: push_child_model(s0.stack, n0), ..s0 });
        }
    }

    /// Drive the machine to its next outside action.
    fn advance(&mut self) -> (a: Action)
        requires
            old(self).stack.len() > 0,
        ensures
            final(self)@ == advance_model(old(self)@).0,
            a@ == advance_model(old(self)@).1,
        decreases stack_quota(self@.stack), self@.stack.len(),
    {
        let ghost s0 = self@;
        let mut top: Frame = self.stack.pop().unwrap();
        let ghost topv = top@;
        proof {
            assert(s0.stack.last() == topv);
        }
        if top.next < top.pending.len() {
            let dep: String = top.pending[top.next].clone();
            let dir: String = top.dir.clone();
            proof {
                assert(topv.pending[topv.next] == dep@);
            }
            top.next = top.next + 1;
            self.stack.push(top);
            let ghost s1 = MachineModel {
                stack: s0.stack.update(
                    s0.stack.len() - 1,
                    FrameModel { next: topv.next + 1, ..topv },
                ),
                ..s0
            };
            proof {
                assert(frames_model(self.stack@) =~= s1.stack);
                assert(self@ =~= s1);
            }
            if contains_string(&self.visited, &dep) {
                proof {
                    assert(s0.visited.contains(dep@));
                    assert(s1.stack.drop_last() =~= s0.stack.drop_last());
                    assert(stack_quota(s1.stack) < stack_quota(s0.stack));
                }
                let a = self.advance();
                proof {
                    assert(advance_model(s0) == advance_model(s1));
                }
                a
            } else {
                self.visited.push(dep.clone());
                let ghost s2 = MachineModel { visited: s1.visited.push(dep@), ..s1 };
                proof {
                    assert(self.visited.deep_view() =~= s2.visited);
                    assert(self@ =~= s2);
                }
                let skip = match classify_name(dep.as_str(), self.show_system) {
                    Classification::Skip(_) => true,
                    Classification::Accept => false,
                };
                if skip {
                    proof {
                        assert(s2.stack.drop_last() =~= s0.stack.drop_last());
                        assert(stack_quota(s2.stack) < stack_quota(s0.stack));
                    }
                    let a = self.advance();
                    proof {
                        assert(advance_model(s0) == advance_model(s2));
                    }
                    a
                } else {
                    self.phase = Phase::Probing { name: dep.clone() };
                    proof {
                        assert(self@ =~= MachineModel {
                            phase: PhaseModel::Probing { name: dep@ },
                            ..s2
                        });
                        assert(self@ == advance_model(s0).0);
                    }
                    Action::Probe { name: dep, dir }
                }
            }
        } else {
            let node = DependencyNode {
                name: top.name,
                location: Option::Some(top.location),
                status: NodeStatus::Resolved,
                children: top.children,
            };
            proof {
                assert(node@ == NodeModel {
                    name: topv.name,
                    location: Option::Some(topv.location),
                    status: NodeStatus::Resolved,
                    children: topv.children,
                });
                assert(frames_model(self.stack@) =~= s0.stack.drop_last());
            }
            if self.stack.len() == 0 {
                self.phase = Phase::Finished;
                proof {
                    assert(self@ =~= advance_model(s0).0);
                }
                Action::Done { root: Option::Some(node) }
            } else {
                let ghost s1 = MachineModel { stack: s0.stack.drop_last(), ..s0 };
                proof {
                    assert(self@ =~= s1);
                }
                self.push_child(node);
                let ghost s2 = MachineModel {
                    stack: push_child_model(s1.stack, node@),
                    ..s1
                };
                proof {
                    assert(self@ =~= s2);
                    assert(stack_quota(s2.stack) <= stack_quota(s0.stack) && s2.stack.len()
                        < s0.stack.len()) by {
                        assert(s2.stack.drop_last() =~= s1.stack.drop_last());
                        assert(frame_quota(s2.stack.last()) == frame_quota(s1.stack.last()));
                        assert(stack_quota(s2.stack) == stack_quota(s1.stack));
                        assert(frame_quota(topv) == 0);
                        assert(stack_quota(s0.stack) == stack_quota(s1.stack));
                    }
                }
                let a = self.advance();
                proof {
                    assert(advance_model(s0) == advance_model(s2));
                }
                a
            }
        }
    }

    /// Whether the machine is waiting for the answer to a probe.
    pub fn awaiting_probe(&self) -> (r: bool)
        ensures
            r == (self@.phase is Probing),
    {
        match &self.phase {
            Phase::Probing { .. } => true,
            _ => false,
        }
    }

    /// Whether the machine is waiting for a report.
    pub fn awaiting_report(&self) -> (r: bool)
        ensures
            r == (self@.phase is Analyzing),
    {
        match &self.phase {
            Phase::Analyzing { .. } => true,
            _ => false,
        }
    }

    /// Feed the machine the answer to its pending action and obtain the
    /// next action.  The transition is exactly [`handle_model`].
    pub fn on_event(&mut self, ev: Event) -> (a: Action)
        requires
            old(self)@.expects(ev@),
        ensures
            final(self)@ == handle_model(old(self)@, ev@).0,
            a@ == handle_model(old(self)@, ev@).1,
    {
        let ghost s0 = self@;
        let ghost ev0 = ev@;
        match ev {
            Event::Located { location } => {
                let name = self.probing_name();
                match location {
                    Option::None => {
                        if self.stack.len() == 0 {
                            self.phase = Phase::Finished;
                            proof {
                                assert(self@ =~= handle_model(s0, ev0).0);
                            }
                            Action::Fail { error: ResolveError::RootNotFound }
                        } else {
                            let leaf = DependencyNode {
                                name,
                                location: Option::None,
                                status: NodeStatus::NotFound,
                                children: Vec::new(),
                            };
                            proof {
                                assert(nodes_model(Seq::<DependencyNode>::empty())
                                    =~= Seq::<NodeModel>::empty());
                            }
                            self.push_child(leaf);
                            let ghost sp = self@;
                            proof {
                                assert(sp =~= MachineModel {
                                    stack: push_child_model(
                                        s0.stack,
                                        leaf_model(name@, Option::None, NodeStatus::NotFound),
                                    ),
                                    ..s0
                                });
                            }
                            let a = self.advance();
                            proof {
                                assert(handle_model(s0, ev0) == advance_model(sp));
                            }
                            a
                        }
                    },
                    Option::Some(loc) => {
                        let skip = match classify_path(loc.as_str(), self.show_system) {
                            Classification::Skip(_) => true,
                            Classification::Accept => false,
                        };
                        if skip {
                            if self.stack.len() == 0 {
                                self.phase = Phase::Finished;
                                proof {
                                    assert(self@ =~= handle_model(s0, ev0).0);
                                }
                                Action::Done { root: Option::None }
                            } else {
                                let ghost sp = self@;
                                proof {
                                    assert(sp == s0);
                                }
                                let a = self.advance();
                                proof {
                                    assert(handle_model(s0, ev0) == advance_model(sp));
                                }
                                a
                            }
                        } else {
                            let node_name = base_name(loc.as_str());
                            self.phase = Phase::Analyzing {
                                name: node_name,
                                location: loc.clone(),
                            };
                            proof {
                                assert(self@ =~= handle_model(s0, ev0).0);
                            }
                            Action::Analyze { location: loc }
                        }
                    },
                }
            },
            Event::Reported { text } => {
                let (name, location) = self.analyzing_parts();
                match text {
                    Option::None => {
                        if self.stack.len() == 0 {
                            self.phase = Phase::Finished;
                            proof {
                                assert(self@ =~= handle_model(s0, ev0).0);
                            }
                            Action::Fail { error: ResolveError::RootReportUnavailable }
                        } else {
                            let ghost locv = location@;
                            let leaf = DependencyNode {
                                name,
                                location: Option::Some(location),
                                status: NodeStatus::ReportUnavailable,
                                children: Vec::new(),
                            };
                            proof {
                                assert(nodes_model(Seq::<DependencyNode>::empty())
                                    =~= Seq::<NodeModel>::empty());
                            }
                            self.push_child(leaf);
                            let ghost sp = self@;
                            proof {
                                assert(sp =~= MachineModel {
                                    stack: push_child_model(
                                        s0.stack,
                                        leaf_model(
                                            name@,
                                            Option::Some(locv),
                                            NodeStatus::ReportUnavailable,
                                        ),
                                    ),
                                    ..s0
                                });
                            }
                            let a = self.advance();
                            proof {
                                assert(handle_model(s0, ev0) == advance_model(sp));
                            }
                            a
                        }
                    },
                    Option::Some(t) => {
                        let deps: Vec<String> = extract_deps(t.as_str());
                        let dir: String = dir_name(location.as_str());
                        let frame = Frame {
                            name,
                            location,
                            children: Vec::new(),
                            pending: deps,
                            next: 0,
                            dir,
                        };
                        let ghost fv = frame@;
                        self.stack.push(frame);
                        let ghost sp = self@;
                        proof {
                            assert(nodes_model(Seq::<DependencyNode>::empty())
                                =~= Seq::<NodeModel>::empty());
                            assert(frames_model(self.stack@) =~= s0.stack.push(fv));
                            assert(sp =~= MachineModel { stack: s0.stack.push(fv), ..s0 });
                            assert(fv =~= FrameModel {
                                name: fv.name,
                                location: fv.location,
                                children: Seq::empty(),
                                pending: parse_report(ev0->Reported_text->0),
                                next: 0,
                                dir: dir_name_of(fv.location),
                            });
                        }
                        let a = self.advance();
                        proof {
                            assert(handle_model(s0, ev0) == advance_model(sp));
                        }
                        a
                    },
                }
            },
        }
    }
}

} // verus!
