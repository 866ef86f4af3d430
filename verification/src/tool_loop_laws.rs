//! What holds of every run of a tool loop.
use crate::events::{SlotView, StreamEventView};
use crate::stream::{StreamActionView, StreamInputView};
use crate::tool_loop::{
    all_call_events, call_events, deliver, list_events, ExtractedCallView, LoopActionView,
    LoopInputView, LoopNext, LoopStageView, LoopView,
};
use vstd::prelude::*;

verus! {

/// What a tool loop is given.
pub struct LoopSetup {
    pub max_iterations: usize,
    pub max_tool_calls: Option<u32>,
    pub servers: usize,
}

impl LoopSetup {
    /// The loop as it starts, with its first action.
    pub open spec fn opening(self) -> LoopNext {
        LoopNext::Running(
            LoopView::initial(self.max_iterations, self.max_tool_calls, self.servers),
            deliver(seq![StreamEventView::Created]),
        )
    }

    /// How many tool calls may be made.
    pub open spec fn limit(self) -> int {
        LoopView::initial(self.max_iterations, self.max_tool_calls, self.servers).memo.limit()
    }

    /// Where the loop stands after a run.
    pub open spec fn run(self, inputs: Seq<LoopInputView>) -> LoopNext
        decreases inputs.len(),
    {
        if inputs.len() == 0 {
            self.opening()
        } else {
            match self.run(inputs.drop_last()) {
                LoopNext::Running(view, _) => view.step(inputs.last()),
                ended => ended,
            }
        }
    }

    /// Every input of a run was waited for.
    pub open spec fn legal(self, inputs: Seq<LoopInputView>) -> bool
        decreases inputs.len(),
    {
        inputs.len() == 0 || {
            &&& self.legal(inputs.drop_last())
            &&& match self.run(inputs.drop_last()) {
                LoopNext::Running(view, _) => view.expects(inputs.last()),
                _ => false,
            }
        }
    }

    /// The tools that a run has executed.
    pub open spec fn executions(self, inputs: Seq<LoopInputView>) -> nat
        decreases inputs.len(),
    {
        if inputs.len() == 0 {
            0
        } else {
            self.executions(inputs.drop_last()) + executed_in(self.run(inputs))
        }
    }

    /// The chat completions that a run has started.
    pub open spec fn chats(self, inputs: Seq<LoopInputView>) -> nat
        decreases inputs.len(),
    {
        if inputs.len() == 0 {
            0
        } else {
            self.chats(inputs.drop_last()) + started_in(self.run(inputs))
        }
    }

    /// The rounds that a run has counted.
    pub open spec fn rounds(self, inputs: Seq<LoopInputView>) -> nat
        decreases inputs.len(),
    {
        if inputs.len() == 0 {
            0
        } else {
            self.rounds(inputs.drop_last()) + counted_in(self.run(inputs))
        }
    }

    /// The tool calls that a run has recorded.
    pub open spec fn records(self, inputs: Seq<LoopInputView>) -> nat
        decreases inputs.len(),
    {
        if inputs.len() == 0 {
            0
        } else {
            self.records(inputs.drop_last()) + recorded_in(self.run(inputs))
        }
    }

    /// All events that a run tells.
    pub open spec fn log(self, inputs: Seq<LoopInputView>) -> Seq<StreamEventView>
        decreases inputs.len(),
    {
        if inputs.len() == 0 {
            events_in(self.opening())
        } else {
            self.log(inputs.drop_last()) + events_in(self.run(inputs))
        }
    }
}

/// The tools that a step has executed.
pub open spec fn executed_in(next: LoopNext) -> nat {
    match next {
        LoopNext::Running(_, LoopActionView::Execute { .. }) => 1,
        _ => 0,
    }
}

/// The chat completions that a step starts.
pub open spec fn started_in(next: LoopNext) -> nat {
    match next {
        LoopNext::Running(_, LoopActionView::StartChat { .. }) => 1,
        _ => 0,
    }
}

/// The rounds that a step counts.
pub open spec fn counted_in(next: LoopNext) -> nat {
    match next {
        LoopNext::Running(_, LoopActionView::CountRound) => 1,
        _ => 0,
    }
}

/// The tool calls that a step records.
pub open spec fn recorded_in(next: LoopNext) -> nat {
    match next {
        LoopNext::Running(_, LoopActionView::Record { .. }) => 1,
        _ => 0,
    }
}

/// The events that a step tells.
pub open spec fn events_in(next: LoopNext) -> Seq<StreamEventView> {
    match next {
        LoopNext::Running(_, LoopActionView::Stream(StreamActionView::Deliver(events))) => events,
        _ => seq![],
    }
}

/// The servers whose tools the events list, in order.
pub open spec fn listed(events: Seq<StreamEventView>) -> Seq<usize>
    decreases events.len(),
{
    if events.len() == 0 {
        seq![]
    } else {
        match events.last() {
            StreamEventView::McpListTools { server } => listed(events.drop_last()).push(server),
            _ => listed(events.drop_last()),
        }
    }
}

/// The stages of a loop that told of its completion.
pub open spec fn told_completion(stage: LoopStageView) -> bool {
    match stage {
        LoopStageView::SendingCalls
        | LoopStageView::SendingFinal
        | LoopStageView::Finalizing
        | LoopStageView::SendingLimit(_) => true,
        _ => false,
    }
}

/// What a run has counted.
pub open spec fn counted(
    setup: LoopSetup,
    next: LoopNext,
    executions: nat,
    rounds: nat,
    chats: nat,
    records: nat,
) -> bool {
    match next {
        LoopNext::Running(view, _) => {
            &&& view.sound()
            &&& view.memo.max_iterations == setup.max_iterations
            &&& view.memo.max_tool_calls == setup.max_tool_calls
            &&& view.memo.servers == setup.servers
            &&& executions == view.memo.total_calls - match view.stage {
                LoopStageView::Preparing | LoopStageView::Announcing(_) => 1int,
                _ => 0int,
            }
            &&& rounds == view.memo.iteration + match view.stage {
                LoopStageView::CountingRound => 1int,
                _ => 0int,
            }
            &&& chats == view.memo.iteration - match view.stage {
                LoopStageView::ListingTools => 1int,
                _ => 0int,
            }
            &&& records == executions - match view.stage {
                LoopStageView::Executing(_) | LoopStageView::Reporting { .. } => 1int,
                _ => 0int,
            }
        },
        LoopNext::Finished(_) => {
            &&& executions <= setup.limit()
            &&& chats <= setup.max_iterations
            &&& rounds == chats
            &&& records == executions
        },
        LoopNext::Failed(_) => {
            &&& executions <= setup.limit()
            &&& chats <= setup.max_iterations
            &&& chats <= rounds <= chats + 1
        },
    }
}

/// A step keeps the counts.
proof fn lemma_step_counted(
    setup: LoopSetup,
    view: LoopView,
    action: LoopActionView,
    input: LoopInputView,
    executions: nat,
    rounds: nat,
    chats: nat,
    records: nat,
)
    requires
        counted(setup, LoopNext::Running(view, action), executions, rounds, chats, records),
        view.expects(input),
    ensures
        counted(
            setup,
            view.step(input),
            executions + executed_in(view.step(input)),
            rounds + counted_in(view.step(input)),
            chats + started_in(view.step(input)),
            records + recorded_in(view.step(input)),
        ),
{
    if let LoopInputView::Calls(calls) = input {
        calls.lemma_filter_len(|call: ExtractedCallView| call.exposed);
    }
}

/// A run keeps the counts.
pub proof fn lemma_run_counted(setup: LoopSetup, inputs: Seq<LoopInputView>)
    requires
        setup.legal(inputs),
    ensures
        counted(
            setup,
            setup.run(inputs),
            setup.executions(inputs),
            setup.rounds(inputs),
            setup.chats(inputs),
            setup.records(inputs),
        ),
    decreases inputs.len(),
{
    if inputs.len() > 0 {
        lemma_run_counted(setup, inputs.drop_last());
        if let LoopNext::Running(view, action) = setup.run(inputs.drop_last()) {
            lemma_step_counted(
                setup,
                view,
                action,
                inputs.last(),
                setup.executions(inputs.drop_last()),
                setup.rounds(inputs.drop_last()),
                setup.chats(inputs.drop_last()),
                setup.records(inputs.drop_last()),
            );
        }
    }
}

/// A tool loop runs no more tools than the request and the loop allow, and starts no more chat
/// completions than the loop allows, whatever the completions ask for.
pub proof fn law_limits_hold(setup: LoopSetup, inputs: Seq<LoopInputView>)
    requires
        setup.legal(inputs),
    ensures
        setup.executions(inputs) <= setup.max_iterations,
        setup.max_tool_calls matches Some(max) ==> setup.executions(inputs) <= max,
        setup.chats(inputs) <= setup.max_iterations,
{
    lemma_run_counted(setup, inputs);
}

/// Every round is counted before its chat completion starts, and a loop that ends with a response
/// counted no other. One that ends with an error may have counted one more round, which it did not
/// start.
pub proof fn law_rounds_are_counted(setup: LoopSetup, inputs: Seq<LoopInputView>)
    requires
        setup.legal(inputs),
    ensures
        setup.chats(inputs) <= setup.rounds(inputs) <= setup.chats(inputs) + 1,
        setup.run(inputs) matches LoopNext::Running(_, LoopActionView::StartChat { .. }) ==>
            setup.rounds(inputs) == setup.chats(inputs),
        setup.run(inputs) is Finished ==> setup.rounds(inputs) == setup.chats(inputs),
{
    lemma_run_counted(setup, inputs);
}

/// A tool loop that ends with a response has recorded every tool call that it made.
pub proof fn law_calls_are_recorded(setup: LoopSetup, inputs: Seq<LoopInputView>)
    requires
        setup.legal(inputs),
    ensures
        setup.run(inputs) is Finished ==> setup.records(inputs) == setup.executions(inputs),
        setup.records(inputs) <= setup.executions(inputs),
    decreases inputs.len(),
{
    lemma_run_counted(setup, inputs);
    if inputs.len() > 0 {
        lemma_run_counted(setup, inputs.drop_last());
        if !(setup.run(inputs) is Running) {
            law_calls_are_recorded(setup, inputs.drop_last());
        }
    }
}

/// An event is one of those that open a loop: `response.created`, `response.in_progress` and the
/// listings of tools.
pub open spec fn opens(event: StreamEventView) -> bool {
    event is Created || event is InProgress || event is McpListTools
}

/// An event may stand at a place of a log: `response.created` first, `response.in_progress` second,
/// then the tools of every server in order, and all other events behind those.
pub open spec fn placed(event: StreamEventView, place: int, servers: usize) -> bool {
    match event {
        StreamEventView::Created => place == 0,
        StreamEventView::InProgress => place == 1,
        StreamEventView::McpListTools { server } => place == 2 + server && server < servers,
        _ => place >= 2 + servers,
    }
}

/// What the events so far say of where the loop stands.
spec fn loop_in_step(setup: LoopSetup, next: LoopNext, events: Seq<StreamEventView>) -> bool {
    &&& events.len() > 0
    &&& forall|i: int|
        0 <= i < events.len() - 1 ==> #[trigger] events[i] !is Completed
    &&& forall|i: int|
        0 <= i < events.len() ==> placed(#[trigger] events[i], i, setup.servers)
    &&& match next {
        LoopNext::Running(view, _) => {
            &&& match view.stage {
                LoopStageView::SendingCreated => events.len() == 1,
                LoopStageView::SendingInProgress => events.len() == 2,
                _ => if view.memo.iteration == 0 {
                    events.len() == 2
                } else {
                    events.len() >= 2 + setup.servers
                },
            }
            &&& view.memo.servers == setup.servers
            &&& view.sound()
            &&& events.last() is Completed <==> told_completion(view.stage)
            &&& listed(events) == if view.memo.iteration == 0 {
                seq![]
            } else {
                Seq::new(setup.servers as nat, |i: int| i as usize)
            }
        },
        LoopNext::Finished(_) => events.last() is Completed && listed(events) == Seq::new(
            setup.servers as nat,
            |i: int| i as usize,
        ),
        LoopNext::Failed(_) => true,
    }
}

/// Listings add up.
proof fn lemma_listed_concat(a: Seq<StreamEventView>, b: Seq<StreamEventView>)
    ensures
        listed(a + b) == listed(a) + listed(b),
    decreases b.len(),
{
    if b.len() == 0 {
        assert(a + b =~= a);
        assert(listed(a) + listed(b) =~= listed(a));
    } else {
        lemma_listed_concat(a, b.drop_last());
        assert((a + b).drop_last() =~= a + b.drop_last());
        assert((a + b).last() == b.last());
        assert(listed(a + b) =~= listed(a) + listed(b));
    }
}

/// Events that list no tools.
proof fn lemma_nothing_listed(events: Seq<StreamEventView>)
    requires
        forall|i: int| 0 <= i < events.len() ==> #[trigger] events[i] !is McpListTools,
    ensures
        listed(events) == Seq::<usize>::empty(),
    decreases events.len(),
{
    if events.len() > 0 {
        let shorter = events.drop_last();
        assert forall|i: int|
            0 <= i < shorter.len() implies #[trigger] shorter[i] !is McpListTools by {
            assert(shorter[i] == events[i]);
        }
        lemma_nothing_listed(shorter);
        assert(events[events.len() - 1] !is McpListTools);
    }
}

/// The listing names every server once, in order.
proof fn lemma_all_listed(servers: usize)
    ensures
        listed(list_events(servers)) == Seq::new(servers as nat, |i: int| i as usize),
    decreases servers,
{
    let all = list_events(servers);
    if servers == 0 {
        assert(listed(all) =~= Seq::new(servers as nat, |i: int| i as usize));
    } else {
        let fewer = (servers - 1) as usize;
        lemma_all_listed(fewer);
        assert(all.drop_last() =~= list_events(fewer));
        assert(listed(all) =~= Seq::new(servers as nat, |i: int| i as usize));
    }
}

/// The events of function calls neither open a loop nor tell of a completion.
proof fn lemma_call_events_kind(calls: Seq<ExtractedCallView>, slots: Seq<SlotView>)
    ensures
        forall|i: int|
            0 <= i < all_call_events(calls, slots).len() ==> #[trigger] all_call_events(
                calls,
                slots,
            )[i] !is Completed && !opens(all_call_events(calls, slots)[i]),
    decreases calls.len(),
{
    if calls.len() > 0 {
        lemma_call_events_kind(calls.drop_last(), slots);
        let before = all_call_events(calls.drop_last(), slots);
        let more = call_events(calls.last(), slots[calls.len() - 1]);
        let all = all_call_events(calls, slots);
        assert forall|i: int| 0 <= i < all.len() implies #[trigger] all[i] !is Completed && !opens(
            all[i],
        ) by {
            if i < before.len() {
                assert(all[i] == before[i]);
            } else {
                assert(all[i] == more[i - before.len()]);
            }
        }
    }
}

/// What a step tells: a listing as the first round starts, and else no listing, with the
/// completion at the end where the next stage says so.
proof fn lemma_step_events(setup: LoopSetup, view: LoopView, input: LoopInputView)
    requires
        view.memo.servers == setup.servers,
        view.sound(),
        view.expects(input),
    ensures
        ({
            let events = events_in(view.step(input));
            &&& forall|i: int| 0 <= i < events.len() - 1 ==> #[trigger] events[i] !is Completed
            &&& match view.step(input) {
                LoopNext::Running(next, _) => {
                    &&& next.stage !is SendingCreated
                    &&& next.stage is SendingInProgress <==> view.stage is SendingCreated
                    &&& match view.stage {
                        LoopStageView::SendingCreated => events == seq![
                            StreamEventView::InProgress,
                        ],
                        LoopStageView::SendingInProgress => events.len() == 0,
                        _ => if view.memo.iteration == 0 {
                            events == list_events(setup.servers)
                        } else {
                            forall|i: int|
                                0 <= i < events.len() ==> !opens(#[trigger] events[i])
                        },
                    }
                    &&& told_completion(next.stage) <==> (events.len() > 0
                        && events.last() is Completed) || told_completion(view.stage)
                    &&& told_completion(view.stage) ==> events.len() == 0
                    &&& listed(events) == if view.memo.iteration == 0 && next.memo.iteration != 0 {
                        Seq::new(setup.servers as nat, |i: int| i as usize)
                    } else {
                        seq![]
                    }
                    &&& view.memo.iteration != 0 ==> next.memo.iteration != 0
                    &&& next.memo.servers == view.memo.servers
                },
                LoopNext::Finished(_) => told_completion(view.stage) && view.memo.iteration != 0,
                LoopNext::Failed(_) => true,
            }
        }),
{
    let next = view.step(input);
    let events = events_in(next);
    if let LoopInputView::Calls(calls) = input {
        calls.lemma_filter_len(|call: ExtractedCallView| call.exposed);
    }
    if let LoopInputView::Stream(StreamInputView::Slots(slots)) = input {
        if view.stage is Allocating {
            let told = all_call_events(view.memo.function_calls, slots);
            lemma_call_events_kind(view.memo.function_calls, slots);
            assert forall|i: int|
                0 <= i < events.len() - 1 implies #[trigger] events[i] !is Completed by {
                assert(events[i] == told[i]);
            }
            assert forall|i: int| 0 <= i < events.len() implies !opens(#[trigger] events[i]) by {
                if i < told.len() {
                    assert(events[i] == told[i]);
                }
            }
        }
    }
    if view.stage is CountingRound && view.memo.iteration == 0 && next is Running {
        lemma_all_listed(view.memo.servers);
    } else {
        lemma_nothing_listed(events);
    }
}

/// A run keeps what the events say of where the loop stands.
proof fn lemma_run_in_step(setup: LoopSetup, inputs: Seq<LoopInputView>)
    requires
        setup.legal(inputs),
    ensures
        loop_in_step(setup, setup.run(inputs), setup.log(inputs)),
    decreases inputs.len(),
{
    if inputs.len() == 0 {
        let first = setup.log(inputs);
        assert(first =~= seq![StreamEventView::Created]);
        lemma_nothing_listed(first);
    } else {
        let shorter = inputs.drop_last();
        lemma_run_in_step(setup, shorter);
        if let LoopNext::Running(view, action) = setup.run(shorter) {
            let before = setup.log(shorter);
            lemma_run_counted(setup, inputs);
            lemma_step_events(setup, view, inputs.last());
            let more = events_in(view.step(inputs.last()));
            let all = before + more;
            lemma_listed_concat(before, more);
            assert forall|i: int|
                0 <= i < all.len() - 1 implies #[trigger] all[i] !is Completed by {
                if i < before.len() {
                    assert(all[i] == before[i]);
                } else {
                    assert(all[i] == more[i - before.len()]);
                }
            }
            assert forall|i: int| 0 <= i < all.len() implies placed(
                #[trigger] all[i],
                i,
                setup.servers,
            ) by {
                if i < before.len() {
                    assert(all[i] == before[i]);
                } else {
                    assert(all[i] == more[i - before.len()]);
                }
            }
            if more.len() == 0 {
                assert(all =~= before);
            } else {
                assert(all.last() == more.last());
            }
            assert(listed(before) + Seq::<usize>::empty() =~= listed(before));
            assert(Seq::<usize>::empty() + listed(more) =~= listed(more));
        }
    }
}

/// A tool loop tells of `response.created` and then of `response.in_progress`, each once, then
/// lists the tools of every server once, in order, and only then tells of anything else: of chat
/// completions, of tools that run, of its end. `response.completed` comes once, as the last event,
/// or not at all, and it came before the loop ends with a response. A loop that ends with an error
/// told of its completion only where sending just that failed. A loop that ends with a response has
/// listed all tools.
pub proof fn law_loop_events_come_in_order(setup: LoopSetup, inputs: Seq<LoopInputView>)
    requires
        setup.legal(inputs),
    ensures
        setup.log(inputs).len() > 0,
        setup.log(inputs)[0] is Created,
        setup.log(inputs).len() > 1 ==> setup.log(inputs)[1] is InProgress,
        forall|i: int|
            0 <= i < setup.log(inputs).len() ==> placed(
                #[trigger] setup.log(inputs)[i],
                i,
                setup.servers,
            ),
        setup.run(inputs) matches LoopNext::Running(_, LoopActionView::StartChat { .. }) ==>
            setup.log(inputs).len() >= 2 + setup.servers,
        forall|i: int|
            0 <= i < setup.log(inputs).len() - 1 ==> #[trigger] setup.log(inputs)[i] !is Completed,
        setup.run(inputs) is Finished ==> setup.log(inputs).len() > 0 && setup.log(
            inputs,
        ).last() is Completed,
        setup.run(inputs) is Failed && setup.log(inputs).last() is Completed ==> (
        inputs.last() matches LoopInputView::Stream(given) && given is DeliveryFailed),
        setup.run(inputs) is Running ==> listed(setup.log(inputs)) == Seq::<usize>::empty()
            || listed(setup.log(inputs)) == Seq::new(setup.servers as nat, |i: int| i as usize),
        setup.run(inputs) is Finished ==> listed(setup.log(inputs)) == Seq::new(
            setup.servers as nat,
            |i: int| i as usize,
        ),
{
    lemma_run_in_step(setup, inputs);
    if setup.run(inputs) is Failed {
        lemma_run_in_step(setup, inputs.drop_last());
        assert(setup.log(inputs) =~= setup.log(inputs.drop_last()));
    }
}

} // verus!
