use bitshit::stream::{collect_response, TokenDecision, TriggerFilter};

fn step(f: &mut TriggerFilter, token: &str) -> TokenDecision {
    assert!(f.accepts(token));
    f.on_token(token, false)
}

#[test]
fn plain_tokens_are_forwarded() {
    let mut f = TriggerFilter::new();
    match step(&mut f, "Hello") {
        TokenDecision::Forward(t) => assert_eq!(t, "Hello"),
        _ => panic!("expected a forwarded token"),
    }
    match step(&mut f, " world") {
        TokenDecision::Forward(t) => assert_eq!(t, " world"),
        _ => panic!("expected a forwarded token"),
    }
}

#[test]
fn an_open_trigger_is_held_until_it_closes() {
    let mut f = TriggerFilter::new();
    let _ = step(&mut f, "Sure. ");
    assert!(matches!(step(&mut f, "<TRIGGER:search"), TokenDecision::Hold));
    assert!(matches!(step(&mut f, " query=rust"), TokenDecision::Hold));
    match step(&mut f, "</TRIGGER> tail") {
        TokenDecision::Trigger(t) => assert_eq!(t, "<TRIGGER:search query=rust</TRIGGER>"),
        _ => panic!("expected the trigger"),
    }
}

#[test]
fn cancelled_generation_stops() {
    let mut f = TriggerFilter::new();
    assert!(matches!(f.on_token("x", true), TokenDecision::Stop));
    assert_eq!(f.flush(true), None);
}

#[test]
fn open_trigger_is_flushed_after_generation() {
    let mut f = TriggerFilter::new();
    let _ = step(&mut f, "a<TRIGGER:open");
    assert_eq!(f.flush(false), Some("<TRIGGER:open".to_string()));
    assert_eq!(
        f.completion_messages(-3, false),
        vec![
            "<TRIGGER:open".to_string(),
            "Error: Llama generation failed with code -3".to_string(),
            "\n[DONE]\n".to_string(),
        ]
    );
}

#[test]
fn successful_generation_only_sends_done() {
    let mut f = TriggerFilter::new();
    let _ = step(&mut f, "plain");
    assert_eq!(f.completion_messages(0, false), vec!["\n[DONE]\n".to_string()]);
    assert_eq!(f.completion_messages(7, true), vec!["\n[DONE]\n".to_string()]);
}

#[test]
fn look_behind_keeps_a_bounded_tail() {
    let mut f = TriggerFilter::new();
    let long = "x".repeat(300);
    match step(&mut f, &long) {
        TokenDecision::Forward(t) => assert_eq!(t.len(), 300),
        _ => panic!("expected a forwarded token"),
    }
    // The buffer was cut to its last 256 bytes, so a trigger opening now is
    // still found and held.
    assert!(matches!(step(&mut f, "<TRIGGER:t"), TokenDecision::Hold));
    assert_eq!(f.flush(false), Some("<TRIGGER:t".to_string()));
}

#[test]
fn responses_stop_at_the_done_marker() {
    let tokens = vec!["Hel".to_string(), "lo".to_string(), " [DONE] ".to_string(), "ignored".to_string()];
    assert_eq!(collect_response(&tokens), "Hello");
    let tokens = vec!["a".to_string(), "b".to_string()];
    assert_eq!(collect_response(&tokens), "ab");
}
