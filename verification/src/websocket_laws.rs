//! What holds of the execution of requests that come over a WebSocket, and of their errors.
use crate::ids::{is_generated_id, is_hex, is_random_hex};
use crate::json::{json_of_bytes, JsonView};
use crate::responses::{
    request_content, response_content, InputShapeView, ItemKind, RequestView, ResponseStatus,
};
use crate::text::{occurs, occurs_at};
use crate::validation::{describes, passes, request_errors, FieldErrorsView};
use crate::websocket::{
    accepted, begun, create_went, prepared, refused_with, unsupported, warms, CreateAction,
    CreateActionView, CreateInputView, CreateNext, CreateProgress, CreateStage, ResponseCreate,
};
use crate::ws_error::{
    failure_error, header_text, is_header_char, parsed_body, status_text, stream_error,
    HttpFailureView, WsErrorView,
};
use openai_protocol::responses::ResponsesRequest;
use vstd::prelude::*;

verus! {

/// The text that an object has under a key.
pub open spec fn text_in(value: JsonView, key: Seq<char>) -> Option<Seq<char>> {
    match value {
        JsonView::Object(members) => if members.contains_key(key) && members[key] is Text {
            Some(members[key]->Text_0)
        } else {
            None
        },
        _ => None,
    }
}

/// The error that a body reports: its member `error`.
pub open spec fn error_in(body: Option<JsonView>) -> JsonView {
    match body {
        Some(JsonView::Object(members)) => if members.contains_key("error"@) {
            members["error"@]
        } else {
            JsonView::Null
        },
        _ => JsonView::Null,
    }
}

/// The error for a failure bears its status. The code is the one that the body's error names, else
/// that of the header, where it can be read, and else `responses_ws_error`; the message is that of
/// the body's error, and else tells the status. The parameter is named for a previous response that
/// was not found, and for nothing else.
pub proof fn law_failures_are_told(failure: HttpFailureView, body: Option<JsonView>)
    ensures
        ({
            let told = failure_error(failure, body);
            let code = text_in(error_in(body), "code"@);
            let message = text_in(error_in(body), "message"@);
            &&& told.status == Some(failure.status)
            &&& code is Some ==> told.code == code->0
            &&& code is None && failure.header_code is Some && header_text(
                failure.header_code->0,
            ) is Some ==> told.code == header_text(failure.header_code->0)->0
            &&& code is None && (failure.header_code is None || header_text(
                failure.header_code->0,
            ) is None) ==> told.code == "responses_ws_error"@
            &&& message is Some ==> told.message == message->0
            &&& message is None ==> told.message
                == "WebSocket Responses request failed with status "@ + status_text(failure.status)
            &&& told.param is Some <==> told.code == "previous_response_not_found"@
            &&& told.param is Some ==> told.param->0 == "previous_response_id"@
        }),
{
}

/// The text of a header has a character for each byte, with the byte as its code. It can be read
/// where all bytes are visible characters, blanks or tabulators.
pub proof fn law_headers_are_read_byte_by_byte(bytes: Seq<u8>)
    ensures
        header_text(bytes) is Some <==> forall|i: int|
            0 <= i < bytes.len() ==> (0x20 <= #[trigger] bytes[i] <= 0x7e || bytes[i] == 0x09),
        header_text(bytes) matches Some(text) ==> text.len() == bytes.len() && forall|i: int|
            0 <= i < bytes.len() ==> #[trigger] text[i] as int == bytes[i] as int,
{
    if forall|i: int|
        0 <= i < bytes.len() ==> (0x20 <= #[trigger] bytes[i] <= 0x7e || bytes[i] == 0x09) {
        assert forall|i: int| 0 <= i < bytes.len() implies is_header_char(
            #[trigger] bytes[i],
        ) by {}
    }
    if header_text(bytes) is Some {
        assert forall|i: int| 0 <= i < bytes.len() implies (0x20 <= #[trigger] bytes[i] <= 0x7e
            || bytes[i] == 0x09) by {
            assert(is_header_char(bytes[i]));
        }
    }
}

/// A text stands somewhere in another.
pub open spec fn stands_in(text: Seq<char>, part: Seq<char>) -> bool {
    exists|head: Seq<char>, tail: Seq<char>| text == #[trigger] (head + part + tail)
}

/// A stream that failed because the client left, or could not keep up, is told with the status 499,
/// and any other with the status 502 and the reason.
pub proof fn law_stream_failures_are_told(reason: Seq<char>)
    ensures
        ({
            let told = stream_error(reason);
            let left = stands_in(reason, "Client disconnected"@) || stands_in(
                reason,
                "outbound buffer full"@,
            );
            &&& told.param is None
            &&& left ==> told.code == "client_disconnected"@ && told.status == Some(499u16)
                && told.message
                == "WebSocket client disconnected or could not keep up with streamed events."@
            &&& !left ==> told.code == "stream_execution_failed"@ && told.status == Some(502u16)
                && told.message == reason
        }),
{
    lemma_occurs_stands_in(reason, "Client disconnected"@);
    lemma_occurs_stands_in(reason, "outbound buffer full"@);
}

/// A part occurs where it stands.
proof fn lemma_occurs_stands_in(text: Seq<char>, part: Seq<char>)
    ensures
        occurs(text, part) <==> stands_in(text, part),
{
    if occurs(text, part) {
        let i = choose|i: int| #[trigger] occurs_at(text, part, i);
        let head = text.take(i);
        let tail = text.skip(i + part.len());
        assert(text =~= head + part + tail);
    }
    if stands_in(text, part) {
        let (head, tail) = choose|head: Seq<char>, tail: Seq<char>|
            text == #[trigger] (head + part + tail);
        assert(text.subrange(head.len() as int, head.len() as int + part.len()) =~= part);
        assert(occurs_at(text, part, head.len() as int));
    }
}

/// A step that fails does so for what its input says, with the error that tells it.
pub open spec fn fails_for(input: CreateInputView, error: WsErrorView) -> bool {
    match input {
        CreateInputView::WorkersChecked(failure) | CreateInputView::HistoryLoaded(failure) =>
            failure is Some && error == failure_error(failure->0, parsed_body(failure->0.body)),
        CreateInputView::ConnectionFailed(failure) => error == failure_error(
            failure,
            parsed_body(failure.body),
        ),
        CreateInputView::HarmonyChecked(harmony) => {
            &&& harmony
            &&& error.code == "unsupported_model"@
            &&& error.message
                == "Harmony-backed Responses are not supported on the WebSocket path in V1."@
            &&& error.status is None
            &&& error.param is None
        },
        CreateInputView::Sent(sent) => {
            &&& !sent
            &&& error.code == "client_disconnected"@
            &&& error.message == "WebSocket client disconnected or outbound buffer full."@
            &&& error.status == Some(499u16)
            &&& error.param is None
        },
        CreateInputView::ConversionFailed(reason) => {
            &&& error.code == "convert_request_failed"@
            &&& error.message == reason
            &&& error.status is None
            &&& error.param is None
        },
        CreateInputView::StreamFailed(reason) => error == stream_error(reason),
        _ => false,
    }
}

/// An execution takes one check after the other, each for what came before: the Harmony check
/// needs workers for the model, the history a model of another kind, and the MCP servers the
/// history and a client that did not ask for a response without the model. The tool loop runs for
/// requests with MCP tools and the plain stream for others, once they are converted. A streamed
/// response is not persisted again, and one without the model is persisted unless the request
/// says no. An execution fails for what failed, and for nothing else.
pub proof fn law_executions_go_check_by_check(create: ResponseCreate, input: CreateInputView)
    requires
        create.expects(input),
    ensures
        match create.step(input) {
            CreateNext::Running(next, action) => {
                &&& next.request == create.request
                &&& next.generate == create.generate
                &&& match action {
                    CreateActionView::CheckWorkers { .. } => false,
                    CreateActionView::CheckHarmony { model } => {
                        &&& input == CreateInputView::WorkersChecked(None)
                        &&& model == request_content(create.request).model
                        &&& next.stage is CheckingHarmony
                    },
                    CreateActionView::LoadHistory => {
                        &&& input == CreateInputView::HarmonyChecked(false)
                        &&& next.stage is LoadingHistory
                    },
                    CreateActionView::ConnectMcp => {
                        &&& input == CreateInputView::HistoryLoaded(None)
                        &&& create.generate != Some(false)
                        &&& next.stage is ConnectingMcp
                    },
                    CreateActionView::RunToolLoop => {
                        &&& input == (CreateInputView::Connected { has_mcp_tools: true })
                        &&& next.stage is Streaming
                    },
                    CreateActionView::Convert => {
                        &&& input == (CreateInputView::Connected { has_mcp_tools: false })
                        &&& next.stage is Converting
                    },
                    CreateActionView::RunStream => {
                        &&& input is Converted
                        &&& next.stage is Streaming
                    },
                    CreateActionView::Send { message_type, response } => {
                        &&& create.stage == CreateStage::WarmupCreated(response)
                        &&& input == CreateInputView::Sent(true)
                        &&& message_type == "response.completed"@
                        &&& next.stage == CreateStage::WarmupCompleted(response)
                    },
                }
            },
            CreateNext::Warming => {
                &&& input == CreateInputView::HistoryLoaded(None)
                &&& create.generate == Some(false)
            },
            CreateNext::Finished { response, persist } => {
                ||| input == CreateInputView::Streamed(response) && !persist
                ||| input == CreateInputView::Sent(true) && create.stage
                    == CreateStage::WarmupCompleted(response) && persist == (request_content(
                    create.request,
                ).store != Some(false))
            },
            CreateNext::Failed(error) => fails_for(input, error),
        },
{
}

/// A response without the model is empty, bears the model of the request and one identifier
/// throughout, and is told as begun while it is in progress. The one that is kept is completed.
pub proof fn law_responses_without_the_model_are_empty(
    progress: CreateProgress,
    request: ResponsesRequest,
    generate: Option<bool>,
    id: Seq<char>,
    created_at: i64,
    completed_at: i64,
)
    requires
        warms(progress, request, generate, id, created_at, completed_at),
    ensures
        progress matches CreateProgress::Running(create, action) && create.request == request
            && create.generate == generate && match (create.stage, action) {
            (
                CreateStage::WarmupCreated(completed),
                CreateAction::Send { message_type, response },
            ) => {
                let told = response_content(response).draft;
                let kept = response_content(completed).draft;
                &&& message_type@ == "response.created"@
                &&& told.id == id
                &&& kept.id == id
                &&& told.model == request_content(request).model
                &&& kept.model == request_content(request).model
                &&& told.created_at == created_at
                &&& kept.created_at == completed_at
                &&& told.status == ResponseStatus::InProgress
                &&& kept.status == ResponseStatus::Completed
                &&& told.output.len() == 0
                &&& kept.output.len() == 0
                &&& told.usage is None
                &&& kept.usage is None
                &&& response_content(response).error is None
                &&& response_content(completed).error is None
                &&& response_content(response).incomplete_details is None
                &&& response_content(completed).incomplete_details is None
            },
            _ => false,
        },
{
}

/// A request goes on with outputs of function calls alone: it names a previous response, and its
/// input is a list, not empty, of nothing else.
pub open spec fn brings_only_outputs(request: RequestView) -> bool {
    match request.input {
        InputShapeView::Items(items) => {
            &&& request.previous_response_id is Some
            &&& items.len() > 0
            &&& !exists|i: int|
                0 <= i < items.len() && #[trigger] items[i] != ItemKind::FunctionCallOutput
        },
        InputShapeView::Text => false,
    }
}

/// Nothing is wrong with a request but the missing message of the user.
pub open spec fn misses_only_the_message(errors: Map<Seq<char>, FieldErrorsView>) -> bool {
    &&& errors.dom().len() == 1
    &&& errors.contains_key("__all__"@)
    &&& errors["__all__"@] == FieldErrorsView::Codes(seq!["input_missing_user_message"@])
}

/// A request passes validation where nothing is wrong with it. One with errors passes only where
/// it goes on with outputs of function calls alone and misses nothing but the message of the user.
pub proof fn law_only_outputs_go_without_a_message(
    request: RequestView,
    errors: Option<Map<Seq<char>, FieldErrorsView>>,
)
    ensures
        errors is None ==> passes(request, errors),
        errors is Some ==> (passes(request, errors) <==> brings_only_outputs(request)
            && misses_only_the_message(errors->0)),
{
    if errors is Some {
        let found = errors->0;
        if found.contains_key("__all__"@) {
            if let FieldErrorsView::Codes(codes) = found["__all__"@] {
                if codes.len() == 1 && codes[0] == "input_missing_user_message"@ {
                    assert(codes =~= seq!["input_missing_user_message"@]);
                }
            }
        }
    }
}

/// A request over a WebSocket may name no conversation and may not ask for the background. The
/// conversation is told first.
pub proof fn law_what_is_not_supported_is_told(request: RequestView)
    ensures
        unsupported(request) is None <==> request.conversation is None && request.background
            != Some(true),
        unsupported(request) matches Some(error) ==> {
            &&& error.code == "unsupported_parameter"@
            &&& error.status is None
            &&& error.param is None
            &&& request.conversation is Some ==> error.message
                == "The `conversation` field is not supported in WebSocket Responses V1."@
            &&& request.conversation is None ==> error.message
                == "Background mode is not supported. Please set 'background' to false or omit it."@
        },
{
}

/// A request is accepted where it passes validation as it is executed and asks for nothing that is
/// not supported. One that is refused is told what is wrong with it first, under the code
/// `invalid_request`, and else what is not supported.
pub proof fn law_refusals_tell_what_is_wrong(request: ResponsesRequest, error: WsErrorView)
    ensures
        ({
            let ready = request_content(prepared(request));
            let wrong = request_errors(prepared(request));
            let valid = wrong is None || (brings_only_outputs(ready) && misses_only_the_message(
                wrong->0,
            ));
            &&& accepted(request) <==> valid && ready.conversation is None && ready.background
                != Some(true)
            &&& refused_with(request, error) ==> !accepted(request)
            &&& refused_with(request, error) && valid ==> error.code == "unsupported_parameter"@
            &&& refused_with(request, error) && !valid ==> error.code == "invalid_request"@
                && error.status is None && error.param is None && describes(error.message, wrong)
        }),
{
    let ready = request_content(prepared(request));
    law_only_outputs_go_without_a_message(ready, request_errors(prepared(request)));
    law_what_is_not_supported_is_told(ready);
}

/// What a body holds is what its bytes hold as JSON, and nothing where it could not be read.
pub proof fn law_bodies_are_read_as_json(body: Option<Seq<u8>>)
    ensures
        body matches Some(bytes) ==> parsed_body(body) == json_of_bytes(bytes),
        body is None ==> parsed_body(body) is None,
{
}

/// An execution that begins asks for the workers of the model, with the request as it is executed
/// and what the client said of the model. Where the request is refused, none begins.
pub proof fn law_executions_begin_with_the_workers(
    progress: CreateProgress,
    request: ResponsesRequest,
    generate: Option<bool>,
)
    requires
        begun(progress, request, generate),
    ensures
        match progress {
            CreateProgress::Running(create, action) => {
                &&& accepted(request)
                &&& create.stage is CheckingWorkers
                &&& create.request == prepared(request)
                &&& create.generate == generate
                &&& action.deep_view() == (CreateActionView::CheckWorkers {
                    model: request_content(prepared(request)).model,
                })
            },
            CreateProgress::Failed(error) => !accepted(request) && refused_with(
                request,
                error.deep_view(),
            ),
            CreateProgress::Finished { .. } => false,
        },
{
}

/// A step goes as it is described. A response without the model bears an identifier of `resp_` and
/// fifty hexadecimal digits.
pub proof fn law_steps_go_as_described(
    progress: CreateProgress,
    next: CreateNext,
    before: ResponseCreate,
)
    requires
        create_went(progress, next, before),
    ensures
        match (progress, next) {
            (CreateProgress::Running(now, given), CreateNext::Running(create, action)) => now
                == create && given.deep_view() == action,
            (
                CreateProgress::Finished { response, persist },
                CreateNext::Finished { response: wanted, persist: asked },
            ) => response == wanted && persist == asked,
            (CreateProgress::Failed(given), CreateNext::Failed(error)) => given.deep_view()
                == error,
            (CreateProgress::Running(now, _), CreateNext::Warming) => now.stage
                is WarmupCreated && {
                let id = response_content(now.stage->WarmupCreated_0).draft.id;
                id.len() == 55 && id.take(5) == "resp_"@ && forall|i: int|
                    5 <= i < 55 ==> is_hex(#[trigger] id[i])
            },
            _ => false,
        },
{
    if next is Warming {
        let (id, created_at, completed_at) = choose|
            id: Seq<char>,
            created_at: i64,
            completed_at: i64,
        |
            is_generated_id("resp"@, id) && #[trigger] warms(
                progress,
                before.request,
                before.generate,
                id,
                created_at,
                completed_at,
            );
        let unique = choose|unique: Seq<char>| #[trigger]
            is_random_hex(unique) && id == "resp"@ + "_"@ + unique;
        reveal_strlit("resp");
        reveal_strlit("_");
        reveal_strlit("resp_");
        assert(id.take(5) =~= "resp_"@);
        assert forall|i: int| 5 <= i < 55 implies is_hex(#[trigger] id[i]) by {
            assert(id[i] == unique[i - 5]);
        }
    }
}

/// What can come of an action of an execution.
pub open spec fn may_come_of(action: CreateActionView, input: CreateInputView) -> bool {
    match action {
        CreateActionView::CheckWorkers { .. } => input is WorkersChecked,
        CreateActionView::CheckHarmony { .. } => input is HarmonyChecked,
        CreateActionView::LoadHistory => input is HistoryLoaded,
        CreateActionView::Send { .. } => input is Sent,
        CreateActionView::ConnectMcp => input is Connected || input is ConnectionFailed,
        CreateActionView::Convert => input is Converted || input is ConversionFailed,
        CreateActionView::RunToolLoop | CreateActionView::RunStream => input is Streamed
            || input is StreamFailed,
    }
}

/// An execution waits for what can come of its action, all of it and nothing else.
pub proof fn law_executions_wait_for_what_they_asked(
    progress: CreateProgress,
    before: ResponseCreate,
    input: CreateInputView,
    other: CreateInputView,
)
    requires
        before.expects(input),
        create_went(progress, before.step(input), before),
    ensures
        progress matches CreateProgress::Running(create, action) ==> (create.expects(other)
            <==> may_come_of(action.deep_view(), other)),
{
}

} // verus!
