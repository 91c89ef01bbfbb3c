use mivi::stream::{StreamEvent, StreamMode, StreamParser};

#[test]
fn test_stream_filter_normal_text() {
    let mut filter = StreamParser::new();
    filter.on_token("Hello ");
    filter.on_token("world!");
    let (_, stats) = filter.finish();
    assert_eq!(stats.total_tokens, 2);
    assert_eq!(stats.thinking_tokens, 0);
}

#[test]
fn test_stream_filter_with_thinking() {
    let mut filter = StreamParser::new();
    filter.on_token("<think>");
    filter.on_token("Let's calculate ");
    filter.on_token("2+2=4");
    filter.on_token("</think>");
    filter.on_token("The answer is 4.");
    let (_, stats) = filter.finish();
    assert_eq!(stats.total_tokens, 5);
    assert!(stats.thinking_tokens > 0);
}

#[test]
fn thinking_block_events() {
    let mut p = StreamParser::new();
    assert_eq!(p.on_token("Hi <thi"), Vec::<StreamEvent>::new());
    assert_eq!(
        p.on_token("nk>plan\nsteps</think>done"),
        vec![
            StreamEvent::Text("Hi ".to_string()),
            StreamEvent::ThinkingStarted,
            StreamEvent::ThinkingText("plan\nsteps".to_string()),
            StreamEvent::ThinkingEnded(1),
            StreamEvent::Text("done".to_string()),
        ]
    );
    assert_eq!(p.mode(), StreamMode::Normal);
    assert_eq!(p.think_tokens(), 1);
    assert_eq!(p.total_tokens(), 2);
}

#[test]
fn partial_closing_tag_is_held_back() {
    let mut p = StreamParser::with_thinking(true);
    assert_eq!(p.on_token("abc</thi"), Vec::<StreamEvent>::new());
    assert_eq!(
        p.on_token("nk>"),
        vec![StreamEvent::ThinkingText("abc".to_string()), StreamEvent::ThinkingEnded(2)]
    );
}

#[test]
fn tool_calls_are_collected_trimmed() {
    let mut p = StreamParser::new();
    assert_eq!(p.on_token("x<tool_call> {\"name\":\"ls\"} "), vec![StreamEvent::Text("x".to_string())]);
    assert_eq!(
        p.on_token("</tool_call>after"),
        vec![StreamEvent::ToolCall("{\"name\":\"ls\"}".to_string()), StreamEvent::Text("after".to_string())]
    );
    let (events, tally) = p.finish();
    assert!(events.is_empty());
    assert_eq!(tally.tool_calls, vec!["{\"name\":\"ls\"}".to_string()]);
}

#[test]
fn unfinished_blocks_are_flushed_at_the_end() {
    let mut p = StreamParser::new();
    p.on_token("<tool_call>{\"a\":1}</");
    let (events, tally) = p.finish();
    assert_eq!(events, vec![StreamEvent::ToolCall("{\"a\":1}</".to_string())]);
    assert_eq!(tally.tool_calls.len(), 1);

    // Text already moved into the call body is not reported when nothing is pending.
    let mut p2 = StreamParser::new();
    p2.on_token("<tool_call>{\"a\":1");
    let (events, tally) = p2.finish();
    assert!(events.is_empty());
    assert!(tally.tool_calls.is_empty());

    let mut q = StreamParser::with_thinking(true);
    let (events, _) = q.finish();
    assert_eq!(events, vec![StreamEvent::ThinkingEnded(0)]);

    let mut r = StreamParser::new();
    assert!(r.on_token("a<").is_empty());
    let (events, _) = r.finish();
    assert_eq!(events, vec![StreamEvent::Text("a<".to_string())]);
}

#[test]
fn only_tag_prefixes_up_to_tool_cal_are_held() {
    let mut p = StreamParser::new();
    assert!(p.on_token("<tool_cal").is_empty());
    assert_eq!(p.on_token("l"), vec![StreamEvent::Text("<tool_call".to_string())]);
}
