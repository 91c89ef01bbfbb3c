//! The agent's state and the decisions of one agent step: the step limit, the bounded
//! thinking memory, completion, stagnation detection over recent tool-call signatures,
//! tool permissions, and the rendering of tool results. Running the tools is left to the
//! caller, which reports back whether any of them timed out.

use vstd::prelude::*;
use crate::text::{chars_of, equals_str, push_decimal, push_str, spec_decimal};
use crate::xml::{escape_xml_attr, escape_xml_content, spec_escape};

verus! {

broadcast use vstd::string::group_string_axioms;

/// Phase of the agent state machine.
#[derive(Debug, Clone, Copy, PartialEq, Eq, Structural)]
pub enum AgentPhase {
    Observing,
    Thinking,
    Planning,
    Acting,
    Verifying,
    Completed,
    Failed,
}

/// Default maximum number of agent steps.
pub const DEFAULT_MAX_AGENT_STEPS: usize = 10;

/// Maximum number of thoughts kept in the agent's memory.
pub const DEFAULT_MAX_MEMORY_ITEMS: usize = 100;

/// Number of identical consecutive tool-call rounds that counts as stagnation.
pub const STAGNATION_WINDOW_SIZE: usize = 3;

/// Number of recent tool-call rounds remembered for oscillation detection.
pub const RECENT_ACTIONS_KEPT: usize = 6;

/// Default time budget of a tool call, in seconds.
pub const DEFAULT_TOOL_TIMEOUT_SECS: u64 = 30;

/// Tool name that ends a run.
pub const SENTINEL_FINISH: &'static str = "finish";

/// Tool name that ends a run.
pub const SENTINEL_COMPLETE: &'static str = "complete_task";

/// Prefix of thoughts stored in memory.
pub const THINKING_PREFIX: &'static str = "Thinking: ";

/// Reply when the model ends the run with a sentinel tool.
pub const TASK_COMPLETED_MSG: &'static str = "Task explicitly marked completed.";

/// Reply when stagnation is detected.
pub const STAGNATION_MSG: &'static str = "<warning>Agent stagnation detected: repeated or oscillating tool calls detected. Terminating loop safely.</warning>";

/// The agent's task and progress.
pub struct AgentState {
    pub task: String,
    pub phase: AgentPhase,
    pub step_count: usize,
    pub max_steps: usize,
    pub plan: Vec<String>,
    pub memory: Vec<String>,
}

impl AgentState {
    /// A fresh state for `task`, observing, with no step taken.
    pub fn new(task: &str, max_steps: usize) -> (r: Self)
        ensures
            r.task@ == task@,
            r.phase == AgentPhase::Observing,
            r.step_count == 0,
            r.max_steps == max_steps,
            r.plan@.len() == 0,
            r.memory@.len() == 0,
    {
        AgentState {
            task: task.to_owned(),
            phase: AgentPhase::Observing,
            step_count: 0,
            max_steps,
            plan: Vec::new(),
            memory: Vec::new(),
        }
    }
}

impl Default for AgentState {
    fn default() -> (r: Self)
        ensures
            r.task@.len() == 0,
            r.phase == AgentPhase::Observing,
            r.step_count == 0,
            r.max_steps == DEFAULT_MAX_AGENT_STEPS,
            r.plan@.len() == 0,
            r.memory@.len() == 0,
    {
        proof {
            reveal_strlit("");
        }
        AgentState::new("", DEFAULT_MAX_AGENT_STEPS)
    }
}

/// What the caller does after the decision part of a step.
pub enum StepDecision {
    /// Reply with this text; the run is over (limit, completion or stagnation).
    Reply(String),
    /// Run the tool calls, then report with [`AgentController::finish_step`].
    ExecuteTools,
}

/// The views of a list of strings.
pub open spec fn spec_strings(v: Seq<String>) -> Seq<Seq<char>> {
    v.map_values(|s: String| s@)
}

/// The step-limit error text.
pub open spec fn spec_step_limit_message(max_steps: nat) -> Seq<char> {
    "<error>Agent exceeded maximum step limit of "@ + spec_decimal(max_steps) + ". Terminating loop.</error>"@
}

/// The memory after recording a thought: appended, oldest dropped beyond the bound.
pub open spec fn spec_remember(memory: Seq<Seq<char>>, thought: Seq<char>) -> Seq<Seq<char>> {
    let m = memory.push(THINKING_PREFIX@ + thought);
    if m.len() > DEFAULT_MAX_MEMORY_ITEMS {
        m.drop_first()
    } else {
        m
    }
}

/// The recent signatures after a tool-call round: appended, oldest dropped beyond six.
pub open spec fn spec_record_action(recent: Seq<Seq<char>>, sig: Seq<char>) -> Seq<Seq<char>> {
    let r = recent.push(sig);
    if r.len() > RECENT_ACTIONS_KEPT {
        r.drop_first()
    } else {
        r
    }
}

/// The same round three times in a row, or two rounds alternating over the last six.
pub open spec fn spec_stagnant(recent: Seq<Seq<char>>, sig: Seq<char>) -> bool {
    let n = recent.len();
    let one_cycle = n >= STAGNATION_WINDOW_SIZE && recent[n - 1] == sig && recent[n - 2] == sig
        && recent[n - 3] == sig;
    let two_cycle = n == 6 && recent[0] == recent[2] && recent[2] == recent[4] && recent[1]
        == recent[3] && recent[3] == recent[5] && recent[0] != recent[1];
    one_cycle || two_cycle
}

/// A sentinel tool name ends the run.
pub open spec fn spec_is_sentinel(name: Seq<char>) -> bool {
    name == SENTINEL_FINISH@ || name == SENTINEL_COMPLETE@
}

/// Abstract state of a controller.
pub struct AgentControllerView {
    pub phase: AgentPhase,
    pub step_count: nat,
    pub max_steps: nat,
    pub memory: Seq<Seq<char>>,
    pub recent: Seq<Seq<char>>,
    pub plan: Seq<Seq<char>>,
}

/// The decision part of a step, given the thought extracted from the model's output (if
/// any), the names of the tool calls it requested, the signature of those calls and the
/// output itself: the next state and the reply (`None` to run the tools).
pub open spec fn spec_begin_step(
    v: AgentControllerView,
    thinking: Option<Seq<char>>,
    names: Seq<Seq<char>>,
    sig: Seq<char>,
    output: Seq<char>,
) -> (AgentControllerView, Option<Seq<char>>) {
    if v.step_count >= v.max_steps {
        (AgentControllerView { phase: AgentPhase::Failed, ..v }, Some(spec_step_limit_message(v.max_steps)))
    } else {
        let v1 = AgentControllerView {
            step_count: v.step_count + 1,
            memory: match thinking {
                Some(t) => spec_remember(v.memory, t),
                None => v.memory,
            },
            ..v
        };
        if names.len() == 0 {
            (AgentControllerView { phase: AgentPhase::Completed, ..v1 }, Some(output))
        } else if exists|i: int| 0 <= i < names.len() && spec_is_sentinel(#[trigger] names[i]) {
            (AgentControllerView { phase: AgentPhase::Completed, ..v1 }, Some(TASK_COMPLETED_MSG@))
        } else {
            let recent = spec_record_action(v.recent, sig);
            if spec_stagnant(recent, sig) {
                (AgentControllerView { phase: AgentPhase::Failed, recent, ..v1 }, Some(STAGNATION_MSG@))
            } else {
                (AgentControllerView { phase: AgentPhase::Acting, recent, ..v1 }, None)
            }
        }
    }
}

/// The view of an optional string slice.
pub open spec fn spec_opt_str(o: Option<&str>) -> Option<Seq<char>> {
    match o {
        Some(s) => Some(s@),
        None => None,
    }
}

fn same_text(a: &str, b: &str) -> (r: bool)
    ensures
        r == (a@ == b@),
{
    let c = chars_of(a);
    equals_str(c.as_slice(), b)
}

proof fn lemma_strings_push(v: Seq<String>, x: String)
    ensures
        spec_strings(v.push(x)) == spec_strings(v).push(x@),
{
    assert(spec_strings(v.push(x)) =~= spec_strings(v).push(x@));
}

proof fn lemma_strings_drop_first(v: Seq<String>)
    requires
        v.len() > 0,
    ensures
        spec_strings(v.drop_first()) == spec_strings(v).drop_first(),
{
    assert(spec_strings(v.drop_first()) =~= spec_strings(v).drop_first());
}

/// The decision side of an agent run.
pub struct AgentController {
    state: AgentState,
    recent_actions: Vec<String>,
    allowed_tools: Option<Vec<String>>,
}

impl AgentController {
    /// The abstract state.
    pub closed spec fn view(&self) -> AgentControllerView {
        AgentControllerView {
            phase: self.state.phase,
            step_count: self.state.step_count as nat,
            max_steps: self.state.max_steps as nat,
            memory: spec_strings(self.state.memory@),
            recent: spec_strings(self.recent_actions@),
            plan: spec_strings(self.state.plan@),
        }
    }

    /// The agent state held by the controller.
    pub closed spec fn agent_state(&self) -> AgentState {
        self.state
    }

    /// The agent state.
    pub fn state(&self) -> (r: &AgentState)
        ensures
            *r == self.agent_state(),
            r.phase == self.view().phase,
            r.step_count == self.view().step_count,
            r.max_steps == self.view().max_steps,
            spec_strings(r.memory@) == self.view().memory,
    {
        &self.state
    }

    /// The tool names the run is restricted to, if any.
    pub closed spec fn allowed(&self) -> Option<Seq<Seq<char>>> {
        match self.allowed_tools {
            Some(v) => Some(spec_strings(v@)),
            None => None,
        }
    }

    /// A controller over `state` with no recent rounds and every tool allowed.
    pub fn new(state: AgentState) -> (r: Self)
        ensures
            r.view() == (AgentControllerView {
                phase: state.phase,
                step_count: state.step_count as nat,
                max_steps: state.max_steps as nat,
                memory: spec_strings(state.memory@),
                recent: Seq::empty(),
                plan: spec_strings(state.plan@),
            }),
            r.allowed() is None,
            r.agent_state().task@ == state.task@,
    {
        let r = AgentController { state, recent_actions: Vec::new(), allowed_tools: None };
        assert(spec_strings(r.recent_actions@) =~= Seq::<Seq<char>>::empty());
        r
    }

    /// Restricts the run to the named tools (`None` allows every tool).
    pub fn with_allowed_tools(self, allowed_tools: Option<Vec<String>>) -> (r: Self)
        ensures
            r.view() == self.view(),
            r.allowed() == (match allowed_tools {
                Some(v) => Some(spec_strings(v@)),
                None => None,
            }),
    {
        AgentController { state: self.state, recent_actions: self.recent_actions, allowed_tools }
    }

    /// Whether the run may call the tool `name`.
    pub fn tool_allowed(&self, name: &str) -> (r: bool)
        ensures
            r == (match self.allowed() {
                None => true,
                Some(v) => v.contains(name@),
            }),
    {
        match &self.allowed_tools {
            None => true,
            Some(v) => {
                let n = v.len();
                for i in 0..n
                    invariant
                        n == v@.len(),
                        self.allowed() == Some(spec_strings(v@)),
                        forall|j: int| 0 <= j < i ==> spec_strings(v@)[j] != name@,
                {
                    if same_text(v[i].as_str(), name) {
                        assert(spec_strings(v@)[i as int] == name@);
                        return true;
                    }
                }
                proof {
                    if spec_strings(v@).contains(name@) {
                        let k = choose|k: int| 0 <= k < spec_strings(v@).len() && spec_strings(v@)[k] == name@;
                        assert(spec_strings(v@)[k] != name@);
                    }
                }
                false
            },
        }
    }

    /// The decision part of a step (see [`spec_begin_step`]): `Reply` ends the run with
    /// that text, `ExecuteTools` asks the caller to run the calls.
    pub fn begin_step(
        &mut self,
        thinking: Option<&str>,
        call_names: &[String],
        call_signature: &str,
        model_output: &str,
    ) -> (r: StepDecision)
        ensures
            ({
                let (v, reply) = spec_begin_step(
                    old(self).view(),
                    spec_opt_str(thinking),
                    spec_strings(call_names@),
                    call_signature@,
                    model_output@,
                );
                &&& final(self).view() == v
                &&& match reply {
                    Some(t) => r matches StepDecision::Reply(s) && s@ == t,
                    None => r is ExecuteTools,
                }
            }),
            final(self).allowed() == old(self).allowed(),
            final(self).agent_state().task@ == old(self).agent_state().task@,
            final(self).agent_state().plan@ == old(self).agent_state().plan@,
    {
        let ghost v0 = self.view();
        if self.state.step_count >= self.state.max_steps {
            self.state.phase = AgentPhase::Failed;
            let mut msg = String::new();
            push_str(&mut msg, "<error>Agent exceeded maximum step limit of ");
            push_decimal(&mut msg, self.state.max_steps);
            push_str(&mut msg, ". Terminating loop.</error>");
            return StepDecision::Reply(msg);
        }
        self.state.step_count = self.state.step_count + 1;
        match thinking {
            Some(t) => {
                let mut entry = String::new();
                push_str(&mut entry, THINKING_PREFIX);
                push_str(&mut entry, t);
                let ghost before = self.state.memory@;
                self.state.memory.push(entry);
                proof {
                    lemma_strings_push(before, self.state.memory@.last());
                    assert(self.state.memory@ =~= before.push(self.state.memory@.last()));
                }
                if self.state.memory.len() > DEFAULT_MAX_MEMORY_ITEMS {
                    let ghost m = self.state.memory@;
                    self.state.memory.remove(0);
                    proof {
                        assert(self.state.memory@ =~= m.drop_first());
                        lemma_strings_drop_first(m);
                    }
                }
            },
            None => {},
        }
        let ghost v1 = self.view();
        if call_names.len() == 0 {
            self.state.phase = AgentPhase::Completed;
            return StepDecision::Reply(model_output.to_owned());
        }
        if any_sentinel(call_names) {
            self.state.phase = AgentPhase::Completed;
            return StepDecision::Reply(TASK_COMPLETED_MSG.to_owned());
        }
        let ghost r0 = self.recent_actions@;
        self.recent_actions.push(call_signature.to_owned());
        proof {
            lemma_strings_push(r0, self.recent_actions@.last());
            assert(self.recent_actions@ =~= r0.push(self.recent_actions@.last()));
        }
        if self.recent_actions.len() > RECENT_ACTIONS_KEPT {
            let ghost m = self.recent_actions@;
            self.recent_actions.remove(0);
            proof {
                assert(self.recent_actions@ =~= m.drop_first());
                lemma_strings_drop_first(m);
            }
        }
        let ghost recent = spec_strings(self.recent_actions@);
        assert(recent == spec_record_action(v0.recent, call_signature@));
        let k = self.recent_actions.len();
        let one_cycle = k >= STAGNATION_WINDOW_SIZE && same_text(self.recent_actions[k - 1].as_str(), call_signature)
            && same_text(self.recent_actions[k - 2].as_str(), call_signature) && same_text(
            self.recent_actions[k - 3].as_str(),
            call_signature,
        );
        let two_cycle = k == 6 && same_text(self.recent_actions[0].as_str(), self.recent_actions[2].as_str())
            && same_text(self.recent_actions[2].as_str(), self.recent_actions[4].as_str())
            && same_text(self.recent_actions[1].as_str(), self.recent_actions[3].as_str())
            && same_text(self.recent_actions[3].as_str(), self.recent_actions[5].as_str())
            && !same_text(self.recent_actions[0].as_str(), self.recent_actions[1].as_str());
        proof {
            if k >= 3 {
                assert(recent[k - 1] == self.recent_actions@[k - 1]@);
                assert(recent[k - 2] == self.recent_actions@[k - 2]@);
                assert(recent[k - 3] == self.recent_actions@[k - 3]@);
            }
            if k == 6 {
                assert(recent[0] == self.recent_actions@[0]@);
                assert(recent[1] == self.recent_actions@[1]@);
                assert(recent[2] == self.recent_actions@[2]@);
                assert(recent[3] == self.recent_actions@[3]@);
                assert(recent[4] == self.recent_actions@[4]@);
                assert(recent[5] == self.recent_actions@[5]@);
            }
        }
        if one_cycle || two_cycle {
            self.state.phase = AgentPhase::Failed;
            return StepDecision::Reply(STAGNATION_MSG.to_owned());
        }
        self.state.phase = AgentPhase::Acting;
        StepDecision::ExecuteTools
    }

    /// Ends a step whose tools ran: a timed-out tool fails the run (its side effects are
    /// unknown), otherwise the agent observes the results.
    pub fn finish_step(&mut self, timed_out: bool)
        ensures
            final(self).view() == (AgentControllerView {
                phase: if timed_out { AgentPhase::Failed } else { AgentPhase::Observing },
                ..old(self).view()
            }),
            final(self).allowed() == old(self).allowed(),
            final(self).agent_state().task@ == old(self).agent_state().task@,
            final(self).agent_state().plan@ == old(self).agent_state().plan@,
    {
        self.state.phase = if timed_out {
            AgentPhase::Failed
        } else {
            AgentPhase::Observing
        };
    }
}

fn any_sentinel(names: &[String]) -> (r: bool)
    ensures
        r == exists|i: int| 0 <= i < names@.len() && spec_is_sentinel(#[trigger] spec_strings(names@)[i]),
{
    let n = names.len();
    for i in 0..n
        invariant
            n == names@.len(),
            forall|j: int| 0 <= j < i ==> !spec_is_sentinel(#[trigger] spec_strings(names@)[j]),
    {
        let name = names[i].as_str();
        if same_text(name, SENTINEL_FINISH) || same_text(name, SENTINEL_COMPLETE) {
            assert(spec_is_sentinel(spec_strings(names@)[i as int]));
            return true;
        }
    }
    proof {
        let v = spec_strings(names@);
        if exists|i: int| 0 <= i < v.len() && spec_is_sentinel(#[trigger] v[i]) {
            let k = choose|i: int| 0 <= i < v.len() && spec_is_sentinel(#[trigger] v[i]);
            assert(!spec_is_sentinel(v[k]));
        }
    }
    false
}

/// The result text for a tool that the run does not allow.
pub fn disallowed_tool_message(name: &str) -> (r: String)
    ensures
        r@ == "Tool '"@ + name@ + "' is not allowed for this agent run"@,
{
    let mut r = String::new();
    push_str(&mut r, "Tool '");
    push_str(&mut r, name);
    push_str(&mut r, "' is not allowed for this agent run");
    r
}

/// One `<tool_result>` element: the escaped tool name, an error status when the call
/// failed, and the escaped body.
pub open spec fn spec_tool_result(name: Seq<char>, success: bool, body: Seq<char>) -> Seq<char> {
    "<tool_result name=\""@ + spec_escape(name, true) + "\""@ + (if success {
        Seq::<char>::empty()
    } else {
        " status=\"error\""@
    }) + ">"@ + spec_escape(body, false) + "</tool_result>\n"@
}

/// Renders one tool result (see [`spec_tool_result`]).
pub fn render_tool_result(name: &str, success: bool, body: &str) -> (r: String)
    ensures
        r@ == spec_tool_result(name@, success, body@),
{
    let mut r = String::new();
    push_str(&mut r, "<tool_result name=\"");
    let en = escape_xml_attr(name);
    push_str(&mut r, en.as_str());
    push_str(&mut r, "\"");
    if !success {
        push_str(&mut r, " status=\"error\"");
    }
    push_str(&mut r, ">");
    let eb = escape_xml_content(body);
    push_str(&mut r, eb.as_str());
    push_str(&mut r, "</tool_result>\n");
    proof {
        if success {
            assert(r@ =~= spec_tool_result(name@, success, body@));
        }
    }
    r
}

/// A step keeps the run within its bounds: no more steps than the limit, at most
/// [`DEFAULT_MAX_MEMORY_ITEMS`] thoughts and at most [`RECENT_ACTIONS_KEPT`] remembered
/// rounds; the step count grows by one unless the limit was already reached.
pub proof fn lemma_step_bounds(
    v: AgentControllerView,
    thinking: Option<Seq<char>>,
    names: Seq<Seq<char>>,
    sig: Seq<char>,
    output: Seq<char>,
)
    requires
        v.step_count <= v.max_steps,
        v.memory.len() <= DEFAULT_MAX_MEMORY_ITEMS,
        v.recent.len() <= RECENT_ACTIONS_KEPT,
    ensures
        ({
            let w = spec_begin_step(v, thinking, names, sig, output).0;
            &&& w.step_count <= w.max_steps
            &&& w.max_steps == v.max_steps
            &&& w.memory.len() <= DEFAULT_MAX_MEMORY_ITEMS
            &&& w.recent.len() <= RECENT_ACTIONS_KEPT
            &&& w.step_count == (if v.step_count >= v.max_steps { v.step_count } else { v.step_count + 1 })
        }),
{
}

/// A third identical tool-call round in a row ends the run as stagnant.
pub proof fn lemma_repeated_round_stagnates(
    v: AgentControllerView,
    thinking: Option<Seq<char>>,
    names: Seq<Seq<char>>,
    sig: Seq<char>,
    output: Seq<char>,
)
    requires
        v.step_count < v.max_steps,
        names.len() > 0,
        forall|i: int| 0 <= i < names.len() ==> !spec_is_sentinel(#[trigger] names[i]),
        v.recent.len() >= 2,
        v.recent.len() <= RECENT_ACTIONS_KEPT,
        v.recent[v.recent.len() - 1] == sig,
        v.recent[v.recent.len() - 2] == sig,
    ensures
        spec_begin_step(v, thinking, names, sig, output).1 == Some(STAGNATION_MSG@),
        spec_begin_step(v, thinking, names, sig, output).0.phase == AgentPhase::Failed,
{
    let recent = spec_record_action(v.recent, sig);
    let n = recent.len();
    if v.recent.len() < RECENT_ACTIONS_KEPT {
        assert(recent[n - 2] == v.recent[v.recent.len() - 1]);
        assert(recent[n - 3] == v.recent[v.recent.len() - 2]);
    } else {
        assert(recent[n - 2] == v.recent.push(sig)[n - 1]);
        assert(recent[n - 3] == v.recent.push(sig)[n - 2]);
    }
    assert(spec_stagnant(recent, sig));
}

} // verus!
