use rozed_core::events::{Event, PollQueue};

fn pushed(name: &str) -> Event {
    Event::ScriptPushed {
        name: name.into(),
        kind: "ModuleScript".into(),
        roblox_path: format!("ReplicatedStorage/Shared/{}", name),
        source: "return {}".into(),
    }
}

fn name_of(e: &Event) -> String {
    match e {
        Event::ScriptPushed { name, .. } => name.clone(),
        _ => String::new(),
    }
}

#[test]
fn poll_returns_queued_events_in_order_once() {
    let mut q = PollQueue::new();
    q.push(pushed("a"));
    q.push(pushed("b"));
    q.push(Event::StructureOk);
    assert_eq!(q.len(), 3);
    let got = q.drain();
    assert_eq!(got.len(), 3);
    assert_eq!(name_of(&got[0]), "a");
    assert_eq!(name_of(&got[1]), "b");
    assert!(matches!(got[2], Event::StructureOk));
    assert_eq!(q.len(), 0);
    assert!(q.drain().is_empty());
}

#[test]
fn poll_of_empty_queue_is_empty() {
    let mut q = PollQueue::new();
    assert!(q.drain().is_empty());
    q.push(pushed("c"));
    let got = q.drain();
    assert_eq!(got.len(), 1);
    assert_eq!(name_of(&got[0]), "c");
}
