//! Execution of `response.create` requests that arrive over a WebSocket.
//!
//! An execution is advanced step by step: whoever drives it performs the action of a step and
//! reports what came of it.
use crate::ids::{is_generated_id, random_id, unix_seconds};
use crate::responses::{
    answers, build_response, read_request, request_content, DraftView, OutputItem, RequestView,
    ResponseDraft, ResponseStatus,
};
use crate::validation::{
    describes, displays_as, errors_text, normalize_and_validate_responses_request, normalized_view,
    passes, request_errors, request_normalized,
};
use crate::ws_error::{
    failure_error, outbound_failure, parsed_body, plain_error, response_to_ws_error, send_error,
    stream_error, stream_error_to_ws_error, HttpFailure, HttpFailureView, WsClientError,
    WsErrorView,
};
use openai_protocol::responses::{ResponsesRequest, ResponsesResponse};
use std::sync::Arc;
use vstd::prelude::*;

verus! {

/// Executes `response.create` requests against the workers behind a registry.
pub struct GrpcWsResponsesExecutor<W, C, T> {
    pub worker_registry: Arc<W>,
    pub responses_context: C,
    pub tenant_meta: T,
}

impl<W, C: Clone, T: Clone> Clone for GrpcWsResponsesExecutor<W, C, T> {
    fn clone(&self) -> (res: Self)
        ensures
            res.worker_registry == self.worker_registry,
            cloned(self.responses_context, res.responses_context),
            cloned(self.tenant_meta, res.tenant_meta),
    {
        GrpcWsResponsesExecutor {
            worker_registry: self.worker_registry.clone(),
            responses_context: self.responses_context.clone(),
            tenant_meta: self.tenant_meta.clone(),
        }
    }
}

impl<W, C, T> GrpcWsResponsesExecutor<W, C, T> {
    /// An executor over the given registry and context, for the given tenant.
    pub fn new(worker_registry: Arc<W>, responses_context: C, tenant_meta: T) -> (res: Self)
        ensures
            res.worker_registry == worker_registry,
            res.responses_context == responses_context,
            res.tenant_meta == tenant_meta,
    {
        GrpcWsResponsesExecutor { worker_registry, responses_context, tenant_meta }
    }
}

/// A request with its fields `stream` and `background` set.
pub uninterp spec fn request_with_modes(
    request: ResponsesRequest,
    stream: bool,
    background: bool,
) -> ResponsesRequest;

/// Two requests are equal but for their fields `stream` and `background`: whatever these are set
/// to, the same request comes of both.
pub open spec fn equal_but_modes(a: ResponsesRequest, b: ResponsesRequest) -> bool {
    forall|stream: bool, background: bool| #[trigger]
        request_with_modes(a, stream, background) == request_with_modes(b, stream, background)
}

/// Sets the fields `stream` and `background` of a `ResponsesRequest` and no other. What these
/// fields held before is lost: setting them once more gives what setting them at first would have
/// given.
#[verifier::external_body]
fn set_modes(request: &mut ResponsesRequest, stream: bool, background: bool)
    ensures
        *final(request) == request_with_modes(*old(request), stream, background),
        equal_but_modes(*final(request), *old(request)),
        request_content(*final(request)) == (RequestView {
            stream: Some(stream),
            background: Some(background),
            ..request_content(*old(request))
        }),
{
    request.stream = Some(stream);
    request.background = Some(background);
}

/// Calls the `Clone` implementation of `ResponsesResponse`: an equal response.
#[verifier::external_body]
fn clone_response(response: &ResponsesResponse) -> (res: ResponsesResponse)
    ensures
        res == *response,
{
    response.clone()
}

/// The error for what a WebSocket request may not ask for.
pub open spec fn unsupported(request: RequestView) -> Option<WsErrorView> {
    if request.conversation is Some {
        Some(
            plain_error(
                "unsupported_parameter"@,
                "The `conversation` field is not supported in WebSocket Responses V1."@,
            ),
        )
    } else if request.background == Some(true) {
        Some(
            plain_error(
                "unsupported_parameter"@,
                "Background mode is not supported. Please set 'background' to false or omit it."@,
            ),
        )
    } else {
        None
    }
}

/// Refuses what a WebSocket request may not ask for.
pub fn check_supported(request: &ResponsesRequest) -> (res: Result<(), WsClientError>)
    ensures
        match res {
            Ok(_) => unsupported(request_content(*request)) is None,
            Err(error) => unsupported(request_content(*request)) == Some(error.deep_view()),
        },
{
    let facts = read_request(request);
    if facts.conversation.is_some() {
        return Err(
            WsClientError::new(
                "unsupported_parameter",
                "The `conversation` field is not supported in WebSocket Responses V1.",
            ),
        );
    }
    match facts.background {
        Some(true) => Err(
            WsClientError::new(
                "unsupported_parameter",
                "Background mode is not supported. Please set 'background' to false or omit it.",
            ),
        ),
        _ => Ok(()),
    }
}

/// The request that is executed for a request: streamed, in the foreground, and normalised.
pub open spec fn prepared(request: ResponsesRequest) -> ResponsesRequest {
    request_normalized(request_with_modes(request, true, false))
}

/// What the library reads of the request that is executed.
pub open spec fn prepared_view(request: RequestView) -> RequestView {
    normalized_view(RequestView { stream: Some(true), background: Some(false), ..request })
}

/// The error for a request that was refused before anything else was asked of it. One that does not
/// pass validation is told what is wrong with it, and one that names a conversation that this is
/// not supported.
pub open spec fn refused_with(request: ResponsesRequest, error: WsErrorView) -> bool {
    let ready = prepared(request);
    if passes(request_content(ready), request_errors(ready)) {
        unsupported(request_content(ready)) == Some(error)
    } else {
        error == plain_error("invalid_request"@, error.message) && describes(
            error.message,
            request_errors(ready),
        )
    }
}

/// A request is accepted: it passes validation and asks for nothing that is not supported.
pub open spec fn accepted(request: ResponsesRequest) -> bool {
    let ready = prepared(request);
    &&& passes(request_content(ready), request_errors(ready))
    &&& unsupported(request_content(ready)) is None
}

/// Prepares a request, or refuses it.
pub fn prepare_request(request: &mut ResponsesRequest) -> (res: Result<(), WsClientError>)
    ensures
        *final(request) == prepared(*old(request)),
        request_content(*final(request)) == prepared_view(request_content(*old(request))),
        res is Ok <==> accepted(*old(request)),
        res matches Err(error) ==> refused_with(*old(request), error.deep_view()),
{
    set_modes(request, true, false);
    match normalize_and_validate_responses_request(request) {
        Ok(()) => check_supported(request),
        Err(errors) => {
            let message = errors_text(&errors);
            proof {
                assert(displays_as(errors, message@));
            }
            Err(WsClientError::new("invalid_request", message.as_str()))
        },
    }
}

/// The draft of a response that is made without running the model.
pub open spec fn warmup_draft(
    request: ResponsesRequest,
    id: Seq<char>,
    created_at: i64,
    status: ResponseStatus,
) -> DraftView {
    DraftView {
        id,
        model: request_content(request).model,
        created_at,
        status,
        output: seq![],
        usage: None,
    }
}

/// The response that is made without running the model.
pub fn warmup_response(
    request: &ResponsesRequest,
    id: &str,
    created_at: i64,
    status: ResponseStatus,
) -> (res: ResponsesResponse)
    ensures
        answers(res, warmup_draft(*request, id@, created_at, status), *request),
{
    let facts = read_request(request);
    let output: Vec<OutputItem> = Vec::new();
    proof {
        assert(output.deep_view() =~= seq![]);
    }
    let draft = ResponseDraft {
        id: id.to_owned(),
        model: facts.model,
        created_at,
        status,
        output,
        usage: None,
    };
    build_response(draft, request)
}

/// Where an execution stands: what it waits for.
pub enum CreateStage {
    /// Whether there are workers for the model.
    CheckingWorkers,
    /// Whether the model is one of the Harmony kind.
    CheckingHarmony,
    /// The history of the conversation.
    LoadingHistory,
    /// That `response.created` is sent for the given response.
    WarmupCreated(ResponsesResponse),
    /// That `response.completed` is sent for the given response.
    WarmupCompleted(ResponsesResponse),
    /// The connection to the MCP servers.
    ConnectingMcp,
    /// The request as a chat completion request.
    Converting,
    /// The end of the stream.
    Streaming,
}

/// What came of an action.
#[derive(Debug)]
pub enum CreateInput {
    /// There are workers for the model, or a failure tells that there are none.
    WorkersChecked(Option<HttpFailure>),
    /// Whether the model is one of the Harmony kind.
    HarmonyChecked(bool),
    /// The history was loaded, or a failure tells why it was not.
    HistoryLoaded(Option<HttpFailure>),
    /// Whether the message was sent.
    Sent(bool),
    /// The servers are connected, and the request has tools of theirs or not.
    Connected { has_mcp_tools: bool },
    /// A failure tells why the servers are not connected.
    ConnectionFailed(HttpFailure),
    /// The request was converted.
    Converted,
    /// The request could not be converted, for the given reason.
    ConversionFailed(String),
    /// The stream ended with a response.
    Streamed(ResponsesResponse),
    /// The stream failed, for the given reason.
    StreamFailed(String),
}

/// What a [`CreateInput`] says.
pub enum CreateInputView {
    WorkersChecked(Option<HttpFailureView>),
    HarmonyChecked(bool),
    HistoryLoaded(Option<HttpFailureView>),
    Sent(bool),
    Connected { has_mcp_tools: bool },
    ConnectionFailed(HttpFailureView),
    Converted,
    ConversionFailed(Seq<char>),
    Streamed(ResponsesResponse),
    StreamFailed(Seq<char>),
}

impl DeepView for CreateInput {
    type V = CreateInputView;

    open spec fn deep_view(&self) -> CreateInputView {
        match self {
            CreateInput::WorkersChecked(failure) => CreateInputView::WorkersChecked(
                failure.deep_view(),
            ),
            CreateInput::HarmonyChecked(harmony) => CreateInputView::HarmonyChecked(*harmony),
            CreateInput::HistoryLoaded(failure) => CreateInputView::HistoryLoaded(
                failure.deep_view(),
            ),
            CreateInput::Sent(sent) => CreateInputView::Sent(*sent),
            CreateInput::Connected { has_mcp_tools } => CreateInputView::Connected {
                has_mcp_tools: *has_mcp_tools,
            },
            CreateInput::ConnectionFailed(failure) => CreateInputView::ConnectionFailed(
                failure.deep_view(),
            ),
            CreateInput::Converted => CreateInputView::Converted,
            CreateInput::ConversionFailed(reason) => CreateInputView::ConversionFailed(reason@),
            CreateInput::Streamed(response) => CreateInputView::Streamed(*response),
            CreateInput::StreamFailed(reason) => CreateInputView::StreamFailed(reason@),
        }
    }
}

/// What to do next.
#[derive(Debug)]
pub enum CreateAction {
    /// Find out whether there are workers for a model.
    CheckWorkers { model: String },
    /// Find out whether a model is one of the Harmony kind.
    CheckHarmony { model: String },
    /// Load the history of the conversation into the request.
    LoadHistory,
    /// Send a message of the given type about a response.
    Send { message_type: String, response: ResponsesResponse },
    /// Connect to the MCP servers of the request's tools.
    ConnectMcp,
    /// Run the tool loop.
    RunToolLoop,
    /// Convert the request to a chat completion request.
    Convert,
    /// Run the stream.
    RunStream,
}

/// What a [`CreateAction`] says.
pub enum CreateActionView {
    CheckWorkers { model: Seq<char> },
    CheckHarmony { model: Seq<char> },
    LoadHistory,
    Send { message_type: Seq<char>, response: ResponsesResponse },
    ConnectMcp,
    RunToolLoop,
    Convert,
    RunStream,
}

impl DeepView for CreateAction {
    type V = CreateActionView;

    open spec fn deep_view(&self) -> CreateActionView {
        match self {
            CreateAction::CheckWorkers { model } => CreateActionView::CheckWorkers {
                model: model@,
            },
            CreateAction::CheckHarmony { model } => CreateActionView::CheckHarmony {
                model: model@,
            },
            CreateAction::LoadHistory => CreateActionView::LoadHistory,
            CreateAction::Send { message_type, response } => CreateActionView::Send {
                message_type: message_type@,
                response: *response,
            },
            CreateAction::ConnectMcp => CreateActionView::ConnectMcp,
            CreateAction::RunToolLoop => CreateActionView::RunToolLoop,
            CreateAction::Convert => CreateActionView::Convert,
            CreateAction::RunStream => CreateActionView::RunStream,
        }
    }
}

/// The execution of a request.
pub struct ResponseCreate {
    pub stage: CreateStage,
    pub request: ResponsesRequest,
    /// Whether the client asked for a response with or without running the model, if it said.
    pub generate: Option<bool>,
}

/// What becomes of an execution in a step.
pub enum CreateNext {
    /// It goes on, with the given action.
    Running(ResponseCreate, CreateActionView),
    /// It goes on to tell of a response that is made without running the model.
    Warming,
    /// It ends with a response, which is to be persisted or not.
    Finished { response: ResponsesResponse, persist: bool },
    /// It ends with an error.
    Failed(WsErrorView),
}

/// What became of an execution in a step.
pub enum CreateProgress {
    /// It goes on, with the given action.
    Running(ResponseCreate, CreateAction),
    /// It ends with a response, which is to be persisted or not.
    Finished { response: ResponsesResponse, persist: bool },
    /// It ends with an error.
    Failed(WsClientError),
}

/// A response without running the model was begun: the client is told of one in progress, and the
/// same, completed, is kept. They have a fresh identifier, and the time at which each was made.
pub open spec fn warms(
    progress: CreateProgress,
    request: ResponsesRequest,
    generate: Option<bool>,
    id: Seq<char>,
    created_at: i64,
    completed_at: i64,
) -> bool {
    progress matches CreateProgress::Running(
        create,
        CreateAction::Send { message_type, response },
    ) && create.stage matches CreateStage::WarmupCreated(completed) && {
        &&& create.request == request
        &&& create.generate == generate
        &&& message_type@ == "response.created"@
        &&& answers(
            response,
            warmup_draft(request, id, created_at, ResponseStatus::InProgress),
            request,
        )
        &&& answers(
            completed,
            warmup_draft(request, id, completed_at, ResponseStatus::Completed),
            request,
        )
    }
}

/// A step of the execution of a request went as described.
pub open spec fn create_went(
    progress: CreateProgress,
    next: CreateNext,
    before: ResponseCreate,
) -> bool {
    match next {
        CreateNext::Running(create, action) => progress matches CreateProgress::Running(
            now,
            given,
        ) && now == create && given.deep_view() == action,
        CreateNext::Warming => exists|id: Seq<char>, created_at: i64, completed_at: i64|
            is_generated_id("resp"@, id) && #[trigger] warms(
                progress,
                before.request,
                before.generate,
                id,
                created_at,
                completed_at,
            ),
        CreateNext::Finished { response, persist } => progress == (CreateProgress::Finished {
            response,
            persist,
        }),
        CreateNext::Failed(error) => progress matches CreateProgress::Failed(given)
            && given.deep_view() == error,
    }
}

/// The error for a model of the Harmony kind.
pub open spec fn harmony_error() -> WsErrorView {
    plain_error(
        "unsupported_model"@,
        "Harmony-backed Responses are not supported on the WebSocket path in V1."@,
    )
}

/// The execution of a request was begun: it asks for the workers of the model, or it failed.
pub open spec fn begun(
    progress: CreateProgress,
    request: ResponsesRequest,
    generate: Option<bool>,
) -> bool {
    if accepted(request) {
        progress matches CreateProgress::Running(create, action) && create == (ResponseCreate {
            stage: CreateStage::CheckingWorkers,
            request: prepared(request),
            generate,
        }) && action.deep_view() == (CreateActionView::CheckWorkers {
            model: request_content(prepared(request)).model,
        })
    } else {
        progress matches CreateProgress::Failed(error) && refused_with(request, error.deep_view())
    }
}

impl ResponseCreate {
    /// The execution in another stage.
    pub open spec fn at(self, stage: CreateStage) -> ResponseCreate {
        ResponseCreate { stage, ..self }
    }

    /// The model of the request.
    pub open spec fn model(self) -> Seq<char> {
        request_content(self.request).model
    }

    /// The inputs that a stage waits for.
    pub open spec fn expects(self, input: CreateInputView) -> bool {
        match self.stage {
            CreateStage::CheckingWorkers => input is WorkersChecked,
            CreateStage::CheckingHarmony => input is HarmonyChecked,
            CreateStage::LoadingHistory => input is HistoryLoaded,
            CreateStage::WarmupCreated(_) | CreateStage::WarmupCompleted(_) => input is Sent,
            CreateStage::ConnectingMcp => input is Connected || input is ConnectionFailed,
            CreateStage::Converting => input is Converted || input is ConversionFailed,
            CreateStage::Streaming => input is Streamed || input is StreamFailed,
        }
    }

    /// The step that an input causes.
    pub open spec fn step(self, input: CreateInputView) -> CreateNext {
        match input {
            CreateInputView::WorkersChecked(None) => CreateNext::Running(
                self.at(CreateStage::CheckingHarmony),
                CreateActionView::CheckHarmony { model: self.model() },
            ),
            CreateInputView::WorkersChecked(Some(failure)) => CreateNext::Failed(
                failure_error(failure, parsed_body(failure.body)),
            ),
            CreateInputView::HarmonyChecked(harmony) => if harmony {
                CreateNext::Failed(harmony_error())
            } else {
                CreateNext::Running(
                    self.at(CreateStage::LoadingHistory),
                    CreateActionView::LoadHistory,
                )
            },
            CreateInputView::HistoryLoaded(Some(failure)) => CreateNext::Failed(
                failure_error(failure, parsed_body(failure.body)),
            ),
            CreateInputView::HistoryLoaded(None) => if self.generate == Some(false) {
                CreateNext::Warming
            } else {
                CreateNext::Running(
                    self.at(CreateStage::ConnectingMcp),
                    CreateActionView::ConnectMcp,
                )
            },
            CreateInputView::Sent(sent) => match self.stage {
                CreateStage::WarmupCreated(response) => if sent {
                    CreateNext::Running(
                        self.at(CreateStage::WarmupCompleted(response)),
                        CreateActionView::Send { message_type: "response.completed"@, response },
                    )
                } else {
                    CreateNext::Failed(send_error())
                },
                CreateStage::WarmupCompleted(response) => if sent {
                    CreateNext::Finished {
                        response,
                        persist: request_content(self.request).stores(),
                    }
                } else {
                    CreateNext::Failed(send_error())
                },
                _ => CreateNext::Failed(send_error()),
            },
            CreateInputView::Connected { has_mcp_tools } => if has_mcp_tools {
                CreateNext::Running(
                    self.at(CreateStage::Streaming),
                    CreateActionView::RunToolLoop,
                )
            } else {
                CreateNext::Running(self.at(CreateStage::Converting), CreateActionView::Convert)
            },
            CreateInputView::ConnectionFailed(failure) => CreateNext::Failed(
                failure_error(failure, parsed_body(failure.body)),
            ),
            CreateInputView::Converted => CreateNext::Running(
                self.at(CreateStage::Streaming),
                CreateActionView::RunStream,
            ),
            CreateInputView::ConversionFailed(reason) => CreateNext::Failed(
                plain_error("convert_request_failed"@, reason),
            ),
            CreateInputView::Streamed(response) => CreateNext::Finished {
                response,
                persist: false,
            },
            CreateInputView::StreamFailed(reason) => CreateNext::Failed(stream_error(reason)),
        }
    }

    /// Starts the execution of a request, which is refused where [`prepare_request`] refuses it.
    pub fn start(request: ResponsesRequest, generate: Option<bool>) -> (res: CreateProgress)
        ensures
            begun(res, request, generate),
            request_content(prepared(request)) == prepared_view(request_content(request)),
    {
        let mut request = request;
        match prepare_request(&mut request) {
            Err(error) => CreateProgress::Failed(error),
            Ok(()) => {
                let model = read_request(&request).model;
                CreateProgress::Running(
                    ResponseCreate { stage: CreateStage::CheckingWorkers, request, generate },
                    CreateAction::CheckWorkers { model },
                )
            },
        }
    }

    /// Whether the execution waits for an input.
    pub fn awaits(&self, input: &CreateInput) -> (res: bool)
        ensures
            res == self.expects(input.deep_view()),
    {
        match (&self.stage, input) {
            (CreateStage::CheckingWorkers, CreateInput::WorkersChecked(_)) => true,
            (CreateStage::CheckingHarmony, CreateInput::HarmonyChecked(_)) => true,
            (CreateStage::LoadingHistory, CreateInput::HistoryLoaded(_)) => true,
            (CreateStage::WarmupCreated(_), CreateInput::Sent(_)) => true,
            (CreateStage::WarmupCompleted(_), CreateInput::Sent(_)) => true,
            (CreateStage::ConnectingMcp, CreateInput::Connected { .. }) => true,
            (CreateStage::ConnectingMcp, CreateInput::ConnectionFailed(_)) => true,
            (CreateStage::Converting, CreateInput::Converted) => true,
            (CreateStage::Converting, CreateInput::ConversionFailed(_)) => true,
            (CreateStage::Streaming, CreateInput::Streamed(_)) => true,
            (CreateStage::Streaming, CreateInput::StreamFailed(_)) => true,
            _ => false,
        }
    }

    /// Goes on in another stage.
    fn go(self, stage: CreateStage, action: CreateAction) -> (res: CreateProgress)
        ensures
            res == CreateProgress::Running(self.at(stage), action),
    {
        CreateProgress::Running(
            ResponseCreate { stage, request: self.request, generate: self.generate },
            action,
        )
    }

    /// Begins a response that is made without running the model, with the given identifier and
    /// times.
    pub fn warm_up_with(self, id: &str, created_at: i64, completed_at: i64) -> (res: CreateProgress)
        ensures
            warms(res, self.request, self.generate, id@, created_at, completed_at),
    {
        let completed = warmup_response(&self.request, id, completed_at, ResponseStatus::Completed);
        let response = warmup_response(&self.request, id, created_at, ResponseStatus::InProgress);
        self.go(
            CreateStage::WarmupCreated(completed),
            CreateAction::Send { message_type: "response.created".to_owned(), response },
        )
    }

    /// Begins a response that is made without running the model.
    fn warm_up(self) -> (res: CreateProgress)
        ensures
            exists|id: Seq<char>, created_at: i64, completed_at: i64|
                is_generated_id("resp"@, id) && #[trigger] warms(
                    res,
                    self.request,
                    self.generate,
                    id,
                    created_at,
                    completed_at,
                ),
    {
        let id = random_id("resp");
        let completed_at: i64 = unix_seconds();
        let created_at: i64 = unix_seconds();
        self.warm_up_with(id.as_str(), created_at, completed_at)
    }

    /// Takes the next step.
    pub fn advance(self, input: CreateInput) -> (res: CreateProgress)
        requires
            self.expects(input.deep_view()),
        ensures
            create_went(res, self.step(input.deep_view()), self),
    {
        match input {
            CreateInput::WorkersChecked(Some(failure)) => CreateProgress::Failed(
                response_to_ws_error(&failure),
            ),
            CreateInput::WorkersChecked(None) => {
                let model = read_request(&self.request).model;
                self.go(CreateStage::CheckingHarmony, CreateAction::CheckHarmony { model })
            },
            CreateInput::HarmonyChecked(true) => CreateProgress::Failed(
                WsClientError::new(
                    "unsupported_model",
                    "Harmony-backed Responses are not supported on the WebSocket path in V1.",
                ),
            ),
            CreateInput::HarmonyChecked(false) => self.go(
                CreateStage::LoadingHistory,
                CreateAction::LoadHistory,
            ),
            CreateInput::HistoryLoaded(Some(failure)) => CreateProgress::Failed(
                response_to_ws_error(&failure),
            ),
            CreateInput::HistoryLoaded(None) => match self.generate {
                Some(false) => self.warm_up(),
                _ => self.go(CreateStage::ConnectingMcp, CreateAction::ConnectMcp),
            },
            CreateInput::Sent(false) => CreateProgress::Failed(outbound_failure()),
            CreateInput::Sent(true) => {
                let facts = read_request(&self.request);
                match self.stage {
                    CreateStage::WarmupCreated(response) => {
                        let told = clone_response(&response);
                        CreateProgress::Running(
                            ResponseCreate {
                                stage: CreateStage::WarmupCompleted(response),
                                request: self.request,
                                generate: self.generate,
                            },
                            CreateAction::Send {
                                message_type: "response.completed".to_owned(),
                                response: told,
                            },
                        )
                    },
                    CreateStage::WarmupCompleted(response) => CreateProgress::Finished {
                        response,
                        persist: match facts.store {
                            Some(store) => store,
                            None => true,
                        },
                    },
                    _ => {
                        assert(false);
                        CreateProgress::Failed(outbound_failure())
                    },
                }
            },
            CreateInput::Connected { has_mcp_tools } => if has_mcp_tools {
                self.go(CreateStage::Streaming, CreateAction::RunToolLoop)
            } else {
                self.go(CreateStage::Converting, CreateAction::Convert)
            },
            CreateInput::ConnectionFailed(failure) => CreateProgress::Failed(
                response_to_ws_error(&failure),
            ),
            CreateInput::Converted => self.go(CreateStage::Streaming, CreateAction::RunStream),
            CreateInput::ConversionFailed(reason) => CreateProgress::Failed(
                WsClientError::new("convert_request_failed", reason.as_str()),
            ),
            CreateInput::Streamed(response) => CreateProgress::Finished {
                response,
                persist: false,
            },
            CreateInput::StreamFailed(reason) => CreateProgress::Failed(
                stream_error_to_ws_error(reason),
            ),
        }
    }
}

/// The actions that run the model, or lead to it.
pub open spec fn leads_to_the_model(action: CreateActionView) -> bool {
    ||| action is ConnectMcp
    ||| action is RunToolLoop
    ||| action is Convert
    ||| action is RunStream
}

/// The execution of a request whose client asked for a response without running the model.
pub open spec fn without_the_model(create: ResponseCreate) -> bool {
    create.generate == Some(false) && match create.stage {
        CreateStage::ConnectingMcp | CreateStage::Converting | CreateStage::Streaming => false,
        _ => true,
    }
}

/// Where the client asked for a response without running the model, no step leads to the model.
pub proof fn law_warmups_run_no_model(create: ResponseCreate, input: CreateInputView)
    requires
        without_the_model(create),
        create.expects(input),
    ensures
        match create.step(input) {
            CreateNext::Running(next, action) => without_the_model(next) && !leads_to_the_model(
                action,
            ),
            CreateNext::Warming => create.stage is LoadingHistory,
            CreateNext::Finished { response, .. } => create.stage == CreateStage::WarmupCompleted(
                response,
            ),
            CreateNext::Failed(_) => true,
        },
{
}

/// A request that is executed is streamed, runs in the foreground and says whether it is stored,
/// whatever it said before; all else that the library reads of it is as it was.
pub proof fn law_prepared_requests_are_streamed(request: RequestView)
    ensures
        prepared_view(request).stream == Some(true),
        prepared_view(request).background == Some(false),
        prepared_view(request).store == Some(request.stores()),
        prepared_view(request).model == request.model,
        prepared_view(request).input == request.input,
        prepared_view(request).previous_response_id == request.previous_response_id,
        prepared_view(request).conversation == request.conversation,
        prepared_view(request).max_tool_calls == request.max_tool_calls,
        prepared_view(prepared_view(request)) == prepared_view(request),
{
}

/// What a request says of `stream` and `background` plays no part: requests that are equal but for
/// these fields are prepared to the same request, are accepted or refused alike, and begin the same
/// execution. So a request for the background is not refused but run in the foreground.
pub proof fn law_modes_play_no_part(
    a: ResponsesRequest,
    b: ResponsesRequest,
    generate: Option<bool>,
)
    requires
        equal_but_modes(a, b),
    ensures
        prepared(a) == prepared(b),
        accepted(a) == accepted(b),
        forall|error: WsErrorView| #[trigger] refused_with(a, error) == refused_with(b, error),
        forall|progress: CreateProgress| #[trigger]
            begun(progress, a, generate) == begun(progress, b, generate),
{
}

} // verus!
