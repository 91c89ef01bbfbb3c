use mivi::agent::{disallowed_tool_message, AgentController, AgentPhase, AgentState, StepDecision, DEFAULT_MAX_MEMORY_ITEMS};

#[test]
fn test_agent_memory_bounding() {
    let mut agent = AgentController::new(AgentState::new("test task", 200));
    for i in 0..150 {
        let thought = format!("Thought {}", i);
        let msg = format!("<think>{}</think>", thought);
        agent.begin_step(Some(thought.as_str()), &[], "", &msg);
    }
    assert_eq!(agent.state().memory.len(), DEFAULT_MAX_MEMORY_ITEMS);
    assert_eq!(agent.state().memory.last().unwrap(), "Thinking: Thought 149");
}

#[test]
fn disallowed_tools_are_not_executed() {
    let agent = AgentController::new(AgentState::new("test task", 3))
        .with_allowed_tools(Some(vec!["safe_tool".to_string()]));
    assert!(!agent.tool_allowed("secret_tool"));
    assert!(agent.tool_allowed("safe_tool"));
    assert!(disallowed_tool_message("secret_tool").contains("not allowed"));
}

#[test]
fn timed_out_tool_fails_agent_to_prevent_ambiguous_retries() {
    let mut agent = AgentController::new(AgentState::new("test task", 3));
    let names = vec!["slow_tool".to_string()];
    match agent.begin_step(None, &names, "slow_tool({})", "<tool_call>...</tool_call>") {
        StepDecision::ExecuteTools => {},
        StepDecision::Reply(r) => panic!("unexpected reply {}", r),
    }
    assert_eq!(agent.state().phase, AgentPhase::Acting);
    agent.finish_step(true);
    assert_eq!(agent.state().phase, AgentPhase::Failed);
}

#[test]
fn step_limit_and_completion() {
    let mut agent = AgentController::new(AgentState::new("t", 1));
    match agent.begin_step(None, &[], "", "final answer") {
        StepDecision::Reply(r) => assert_eq!(r, "final answer"),
        StepDecision::ExecuteTools => panic!("no tools were requested"),
    }
    assert_eq!(agent.state().phase, AgentPhase::Completed);
    match agent.begin_step(None, &[], "", "again") {
        StepDecision::Reply(r) => assert_eq!(r, "<error>Agent exceeded maximum step limit of 1. Terminating loop.</error>"),
        StepDecision::ExecuteTools => panic!("limit reached"),
    }
    assert_eq!(agent.state().phase, AgentPhase::Failed);
}

#[test]
fn repeated_rounds_stagnate() {
    let mut agent = AgentController::new(AgentState::new("t", 10));
    let names = vec!["ls".to_string()];
    for _ in 0..2 {
        match agent.begin_step(None, &names, "ls()", "") {
            StepDecision::ExecuteTools => agent.finish_step(false),
            StepDecision::Reply(_) => panic!("too early"),
        }
    }
    match agent.begin_step(None, &names, "ls()", "") {
        StepDecision::Reply(r) => assert!(r.contains("stagnation")),
        StepDecision::ExecuteTools => panic!("third identical round must stop"),
    }
    assert_eq!(agent.state().phase, AgentPhase::Failed);
}
