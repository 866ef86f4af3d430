use responses_stream::chat::{ChatChunk, ChoiceDelta, FunctionDelta, ToolCallDelta};
use responses_stream::events::{OutputSlot, StreamEvent};
use responses_stream::function_calls::FunctionCallEvents;
use responses_stream::order::keys_in_order;
use std::collections::BTreeMap;

fn chunk(pieces: Vec<ToolCallDelta>, finish_reason: Option<&str>) -> ChatChunk {
    ChatChunk {
        id: "c".to_string(),
        created: 1,
        model: "m".to_string(),
        choices: vec![ChoiceDelta {
            content: None,
            reasoning: None,
            tool_calls: Some(pieces),
            finish_reason: finish_reason.map(str::to_string),
        }],
        usage: None,
    }
}

fn piece(index: u32, id: Option<&str>, name: Option<&str>, arguments: Option<&str>) -> ToolCallDelta {
    ToolCallDelta {
        index,
        id: id.map(str::to_string),
        function: Some(FunctionDelta {
            name: name.map(str::to_string),
            arguments: arguments.map(str::to_string),
        }),
    }
}

fn process(calls: &mut FunctionCallEvents, chunk: &ChatChunk, first_slot: usize) -> Vec<String> {
    let needed = calls.count_slots(chunk);
    let slots: Vec<OutputSlot> = (first_slot..first_slot + needed)
        .map(|output_index| OutputSlot { output_index, item_id: format!("i{output_index}") })
        .collect();
    calls
        .process_non_mcp_function_call_chunk(chunk, &slots)
        .into_iter()
        .map(|event| match event {
            StreamEvent::OutputItemAdded { output_index, item } => {
                format!("added {output_index} {} {:?} {}", item.id, item.call_id.unwrap(), item.name)
            }
            StreamEvent::FunctionCallArgumentsDelta { output_index, delta, .. } => {
                format!("delta {output_index} {delta}")
            }
            StreamEvent::FunctionCallArgumentsDone { output_index, arguments, .. } => {
                format!("arguments {output_index} {arguments}")
            }
            StreamEvent::OutputItemDone { output_index, item } => {
                format!("done {output_index} {} {}", item.status, item.arguments)
            }
            StreamEvent::CompleteOutputItem { output_index } => format!("complete {output_index}"),
            _ => panic!("not an event of a function call"),
        })
        .collect()
}

#[test]
fn a_call_is_announced_once_its_function_is_spoken_of() {
    let mut calls = FunctionCallEvents::new();
    assert!(calls.is_empty());
    let silent = ToolCallDelta { index: 0, id: Some("a".to_string()), function: None };
    assert!(process(&mut calls, &chunk(vec![silent], None), 3).is_empty());
    assert!(!calls.is_empty());
    assert_eq!(
        process(&mut calls, &chunk(vec![piece(0, Some("b"), Some("go"), Some(""))], None), 9),
        vec!["added 3 i3 \"a\" go"]
    );
    assert_eq!(
        process(&mut calls, &chunk(vec![piece(0, None, Some("ne"), Some("{}"))], None), 9),
        vec!["delta 3 {}"]
    );
    assert_eq!(calls.states[&0].name, "gone");
    assert_eq!(calls.states[&0].call_id, "a");
}

#[test]
fn slots_are_taken_in_the_order_of_arrival() {
    let mut calls = FunctionCallEvents::new();
    let both = chunk(
        vec![
            piece(5, Some("e"), Some("five"), None),
            piece(1, Some("a"), Some("one"), None),
            piece(5, None, None, Some("5")),
        ],
        None,
    );
    assert_eq!(calls.count_slots(&both), 2);
    assert_eq!(
        process(&mut calls, &both, 0),
        vec!["added 0 i0 \"e\" five", "added 1 i1 \"a\" one", "delta 0 5"]
    );
    assert_eq!(keys_in_order(&calls.states), vec![1, 5]);
    assert_eq!(calls.count_slots(&both), 0);
}

#[test]
fn finishing_completes_each_call_once_in_the_order_of_the_index() {
    let mut calls = FunctionCallEvents::new();
    let start = chunk(
        vec![
            piece(1, Some("b"), Some("two"), Some("2")),
            ToolCallDelta { index: 0, id: Some("a".to_string()), function: None },
        ],
        Some("stop"),
    );
    process(&mut calls, &start, 0);
    let end = chunk(vec![], Some("tool_calls"));
    assert_eq!(
        process(&mut calls, &end, 9),
        vec![
            "added 1 i1 \"a\" ",
            "arguments 1 ",
            "done 1 completed ",
            "complete 1",
            "arguments 0 2",
            "done 0 completed 2",
            "complete 0",
        ]
    );
    assert!(calls.states.values().all(|state| state.added && state.completed));
    assert!(process(&mut calls, &end, 9).is_empty());
    assert_eq!(
        process(&mut calls, &chunk(vec![piece(1, None, None, Some("late"))], None), 9),
        vec!["delta 0 late"]
    );
}

#[test]
fn the_events_of_each_call_come_in_order() {
    let mut calls = FunctionCallEvents::new();
    let silent = ToolCallDelta { index: 4, id: Some("d".to_string()), function: None };
    let chunks = vec![
        chunk(vec![piece(2, Some("b"), Some("two"), Some("{")), silent], None),
        chunk(vec![piece(0, Some("a"), Some("none"), Some(""))], None),
        chunk(vec![piece(2, None, None, Some("\"k\":")), piece(2, None, None, Some("1}"))], None),
        chunk(vec![piece(7, Some("e"), Some("five"), Some("[]"))], Some("tool_calls")),
        chunk(vec![piece(2, None, None, Some("late"))], Some("tool_calls")),
    ];
    let mut log = Vec::new();
    let mut next = 0;
    for chunk in &chunks {
        let needed = calls.count_slots(chunk);
        let slots: Vec<OutputSlot> = (next..next + needed)
            .map(|output_index| OutputSlot { output_index, item_id: format!("i{output_index}") })
            .collect();
        next += needed;
        log.extend(calls.process_non_mcp_function_call_chunk(chunk, &slots));
    }
    assert_eq!(next, 4);
    let mut expected = vec![String::new(); next];
    let mut announced = vec![0; next];
    let mut whole = vec![0; next];
    let mut done = vec![0; next];
    for (place, event) in log.iter().enumerate() {
        match event {
            StreamEvent::OutputItemAdded { output_index, item } => {
                assert_eq!(item.id, format!("i{output_index}"));
                assert_eq!(item.status, "in_progress");
                assert_eq!(announced[*output_index], 0);
                announced[*output_index] += 1;
            }
            StreamEvent::FunctionCallArgumentsDelta { output_index, item_id, delta } => {
                assert_eq!(*item_id, format!("i{output_index}"));
                assert_eq!(announced[*output_index], 1);
                assert!(!delta.is_empty());
                expected[*output_index].push_str(delta);
            }
            StreamEvent::FunctionCallArgumentsDone { output_index, item_id, arguments } => {
                assert_eq!(*item_id, format!("i{output_index}"));
                assert_eq!((announced[*output_index], whole[*output_index]), (1, 0));
                assert_eq!(*arguments, expected[*output_index]);
                whole[*output_index] += 1;
            }
            StreamEvent::OutputItemDone { output_index, item } => {
                assert_eq!(done[*output_index], 0);
                done[*output_index] += 1;
                assert_eq!(item.status, "completed");
                match &log[place - 1] {
                    StreamEvent::FunctionCallArgumentsDone {
                        output_index: before,
                        item_id,
                        arguments,
                    } => {
                        assert_eq!(before, output_index);
                        assert_eq!(*item_id, item.id);
                        assert_eq!(*arguments, item.arguments);
                    }
                    _ => panic!("the arguments are told to be whole first"),
                }
            }
            StreamEvent::CompleteOutputItem { .. } => {}
            _ => panic!("not an event of a function call"),
        }
    }
    assert_eq!(announced, vec![1; 4]);
    assert_eq!(whole, vec![1; 4]);
    assert_eq!(done, vec![1; 4]);
    assert_eq!(expected, vec!["{\"k\":1}late", "", "", "[]"]);
}

#[test]
fn a_call_keeps_its_output_item() {
    let mut calls = FunctionCallEvents::new();
    process(&mut calls, &chunk(vec![piece(3, Some("c"), Some("three"), None)], None), 0);
    let more = vec![piece(1, Some("a"), Some("one"), None), piece(9, None, Some("nine"), None)];
    process(&mut calls, &chunk(more, Some("tool_calls")), 1);
    assert_eq!(keys_in_order(&calls.states), vec![1, 3, 9]);
    let items: Vec<_> =
        calls.states.values().map(|state| (state.output_index, state.item_id.as_str())).collect();
    assert_eq!(items, vec![(1, "i1"), (0, "i0"), (2, "i2")]);
    assert_eq!(
        process(&mut calls, &chunk(vec![piece(3, None, None, Some("x"))], None), 9),
        vec!["delta 0 x"]
    );
}

#[test]
fn a_chunk_without_a_choice_tells_nothing() {
    let mut calls = FunctionCallEvents::new();
    let empty = ChatChunk { choices: vec![], ..chunk(vec![], None) };
    assert_eq!(calls.count_slots(&empty), 0);
    assert!(process(&mut calls, &empty, 0).is_empty());
}

#[test]
fn keys_come_in_order() {
    let map: BTreeMap<u32, &str> = [(9, "c"), (2, "a"), (4, "b"), (2, "d")].into_iter().collect();
    assert_eq!(keys_in_order(&map), vec![2, 4, 9]);
    assert!(keys_in_order(&BTreeMap::<u32, ()>::new()).is_empty());
}
