//! The browser agent's bookkeeping: the actions the model may choose, how a
//! reply names one, and the verified run record the driving loop fills. The
//! browser itself, and the calls that steer it, live in the shell.

use vstd::prelude::*;

use crate::text::{lower_chars, spec_lower, str_to_chars};

verus! {

/// An action the model can ask the browser to take.
#[derive(Debug, Clone, PartialEq, Eq, Structural)]
pub enum AgentActionType {
    Navigate,
    Click,
    Type,
    Scroll,
    Wait,
    Extract,
    Done,
}

/// One chosen action with its target and reason.
#[derive(Debug, Clone)]
pub struct AgentAction {
    pub action_type: AgentActionType,
    pub selector: Option<String>,
    pub value: Option<String>,
    pub reason: String,
}

/// One executed step of an agent run.
#[derive(Debug, Clone)]
pub struct AgentStep {
    pub step_number: usize,
    pub action: AgentAction,
    pub result: String,
    pub screenshot_base64: Option<String>,
}

/// One step, flattened for the screen.
#[derive(Debug, Clone)]
pub struct AgentStepResponse {
    pub step_number: usize,
    pub action_type: String,
    pub selector: Option<String>,
    pub value: Option<String>,
    pub reason: String,
    pub result: String,
}

/// The action a reply's name stands for, letter case ignored; an unknown
/// name ends the run.
pub open spec fn spec_action_type(name: Seq<char>) -> AgentActionType {
    let n = spec_lower(name);
    if n == "navigate"@ {
        AgentActionType::Navigate
    } else if n == "click"@ {
        AgentActionType::Click
    } else if n == "type"@ {
        AgentActionType::Type
    } else if n == "scroll"@ {
        AgentActionType::Scroll
    } else if n == "wait"@ {
        AgentActionType::Wait
    } else if n == "extract"@ {
        AgentActionType::Extract
    } else {
        AgentActionType::Done
    }
}

/// Reads an action name from a reply, letter case ignored; an unknown name
/// reads as the finishing action.
pub fn parse_action_type(name: &str) -> (r: AgentActionType)
    ensures
        r == spec_action_type(name@),
{
    let nc = str_to_chars(name);
    let nl = lower_chars(nc.as_slice());
    let n = nl.as_slice();
    if chars_eq_str(n, "navigate") {
        AgentActionType::Navigate
    } else if chars_eq_str(n, "click") {
        AgentActionType::Click
    } else if chars_eq_str(n, "type") {
        AgentActionType::Type
    } else if chars_eq_str(n, "scroll") {
        AgentActionType::Scroll
    } else if chars_eq_str(n, "wait") {
        AgentActionType::Wait
    } else if chars_eq_str(n, "extract") {
        AgentActionType::Extract
    } else {
        AgentActionType::Done
    }
}

fn chars_eq_str(v: &[char], s: &str) -> (r: bool)
    ensures
        r == (v@ == s@),
{
    let sc = str_to_chars(s);
    if v.len() != sc.len() {
        return false;
    }
    let r = crate::text::has_prefix(v, sc.as_slice());
    proof {
        assert(v@.subrange(0, sc@.len() as int) =~= v@);
    }
    r
}

/// The display name of an action.
pub open spec fn spec_action_name(t: AgentActionType) -> Seq<char> {
    match t {
        AgentActionType::Navigate => "Navigate"@,
        AgentActionType::Click => "Click"@,
        AgentActionType::Type => "Type"@,
        AgentActionType::Scroll => "Scroll"@,
        AgentActionType::Wait => "Wait"@,
        AgentActionType::Extract => "Extract"@,
        AgentActionType::Done => "Done"@,
    }
}

/// Writes an action's display name.
pub fn action_name(t: &AgentActionType) -> (r: String)
    ensures
        r@ == spec_action_name(*t),
{
    match t {
        AgentActionType::Navigate => "Navigate".to_owned(),
        AgentActionType::Click => "Click".to_owned(),
        AgentActionType::Type => "Type".to_owned(),
        AgentActionType::Scroll => "Scroll".to_owned(),
        AgentActionType::Wait => "Wait".to_owned(),
        AgentActionType::Extract => "Extract".to_owned(),
        AgentActionType::Done => "Done".to_owned(),
    }
}

/// True when the action ends the run.
pub fn is_done(t: &AgentActionType) -> (r: bool)
    ensures
        r == (*t == AgentActionType::Done),
{
    match t {
        AgentActionType::Done => true,
        _ => false,
    }
}

/// Flattens one step for the screen: the fields carried over, the action
/// named by its display name.
pub fn step_response(step: &AgentStep) -> (r: AgentStepResponse)
    ensures
        r.step_number == step.step_number,
        r.action_type@ == spec_action_name(step.action.action_type),
        r.selector == step.action.selector,
        r.value == step.action.value,
        r.reason == step.action.reason,
        r.result == step.result,
{
    AgentStepResponse {
        step_number: step.step_number,
        action_type: action_name(&step.action.action_type),
        selector: crate::store::clone_opt_string(&step.action.selector),
        value: crate::store::clone_opt_string(&step.action.value),
        reason: step.action.reason.clone(),
        result: step.result.clone(),
    }
}

/// The most steps an agent run may take.
pub const AGENT_MAX_STEPS: usize = 15;

/// The record the agent loop fills: each executed step in order, and the
/// exact token and cost totals of the decisions taken so far.
pub struct AgentRun {
    pub goal: String,
    pub steps: Vec<AgentStep>,
    pub total_input_tokens: i128,
    pub total_output_tokens: i128,
    pub total_cost_pico_usd: u128,
    pub max_steps: usize,
}

impl AgentRun {
    /// The totals stay within what the step cap allows.
    pub open spec fn wf(&self) -> bool {
        &&& self.max_steps <= AGENT_MAX_STEPS
        &&& self.steps@.len() <= self.max_steps
        &&& 0 <= self.total_input_tokens <= self.steps@.len() * 0x8000_0000_0000_0000
        &&& 0 <= self.total_output_tokens <= self.steps@.len() * 0x8000_0000_0000_0000
        &&& self.total_cost_pico_usd <= self.steps@.len() * 0x1_0000_0000_0000_0000
        &&& forall|k: int|
            0 <= k < self.steps@.len() ==> (#[trigger] self.steps@[k]).step_number == k + 1
    }

    /// An empty run toward a goal; the step cap is clipped to the allowed
    /// most.
    pub fn start(goal: String, max_steps: usize) -> (r: AgentRun)
        ensures
            r.wf(),
            r.goal == goal,
            r.steps@.len() == 0,
            r.total_input_tokens == 0,
            r.total_output_tokens == 0,
            r.total_cost_pico_usd == 0,
            r.max_steps == if max_steps <= AGENT_MAX_STEPS {
                max_steps as int
            } else {
                AGENT_MAX_STEPS as int
            },
    {
        let capped = if max_steps <= AGENT_MAX_STEPS {
            max_steps
        } else {
            AGENT_MAX_STEPS
        };
        AgentRun {
            goal,
            steps: Vec::new(),
            total_input_tokens: 0,
            total_output_tokens: 0,
            total_cost_pico_usd: 0,
            max_steps: capped,
        }
    }

    /// True while another step may run.
    pub fn can_step(&self) -> (r: bool)
        ensures
            r == (self.steps@.len() < self.max_steps),
    {
        self.steps.len() < self.max_steps
    }

    /// Records one executed step, numbering it in order, and adds its exact
    /// usage to the totals.
    pub fn record_step(
        &mut self,
        action: AgentAction,
        result: String,
        input_tokens: i64,
        output_tokens: i64,
        cost_pico_usd: u128,
    )
        requires
            old(self).wf(),
            old(self).steps@.len() < old(self).max_steps,
            input_tokens >= 0,
            output_tokens >= 0,
            cost_pico_usd < 0x1_0000_0000_0000_0000,
        ensures
            final(self).wf(),
            final(self).goal == old(self).goal,
            final(self).max_steps == old(self).max_steps,
            final(self).steps@.len() == old(self).steps@.len() + 1,
            final(self).steps@.drop_last() == old(self).steps@,
            ({
                let s = final(self).steps@.last();
                s.step_number == old(self).steps@.len() + 1 && s.action == action && s.result
                    == result && s.screenshot_base64 is None
            }),
            final(self).total_input_tokens == old(self).total_input_tokens + input_tokens,
            final(self).total_output_tokens == old(self).total_output_tokens + output_tokens,
            final(self).total_cost_pico_usd == old(self).total_cost_pico_usd + cost_pico_usd,
    {
        let number = self.steps.len() + 1;
        self.steps.push(
            AgentStep { step_number: number, action, result, screenshot_base64: None },
        );
        self.total_input_tokens = self.total_input_tokens + input_tokens as i128;
        self.total_output_tokens = self.total_output_tokens + output_tokens as i128;
        self.total_cost_pico_usd = self.total_cost_pico_usd + cost_pico_usd;
        proof {
            assert(self.steps@.drop_last() =~= old(self).steps@);
        }
    }
}

} // verus!
