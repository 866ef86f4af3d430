//! Normalisation and validation of requests.
use crate::responses::{
    read_request, request_content, InputShape, InputShapeView, ItemKind, RequestFacts, RequestView,
};
use crate::text::same_text;
use openai_protocol::responses::ResponsesRequest;
use openai_protocol::validated::Normalizable;
use validator::{Validate, ValidationErrors, ValidationErrorsKind};
use vstd::prelude::*;

verus! {

/// What `validator` found wrong with a request.
#[verifier::external_type_specification]
#[verifier::external_body]
pub struct ExValidationErrors(ValidationErrors);

/// What is wrong with one field.
#[derive(Debug)]
pub enum FieldErrors {
    /// Errors of the field itself, by their codes.
    Codes(Vec<String>),
    /// Errors inside of the field.
    Nested,
}

/// What [`FieldErrors`] say.
pub enum FieldErrorsView {
    Codes(Seq<Seq<char>>),
    Nested,
}

impl DeepView for FieldErrors {
    type V = FieldErrorsView;

    open spec fn deep_view(&self) -> FieldErrorsView {
        match self {
            FieldErrors::Codes(codes) => FieldErrorsView::Codes(codes.deep_view()),
            FieldErrors::Nested => FieldErrorsView::Nested,
        }
    }
}

/// The errors of each field; those of the request as a whole stand under `__all__`.
pub uninterp spec fn errors_content(errors: ValidationErrors) -> Map<Seq<char>, FieldErrorsView>;

/// The request that `normalize` makes of a request.
pub uninterp spec fn request_normalized(request: ResponsesRequest) -> ResponsesRequest;

/// What `validate` finds wrong with a request; `None` where it finds nothing.
pub uninterp spec fn request_errors(request: ResponsesRequest) -> Option<
    Map<Seq<char>, FieldErrorsView>,
>;

/// What normalising changes of what the library reads: a request that does not say whether it is
/// stored is.
pub open spec fn normalized_view(request: RequestView) -> RequestView {
    RequestView { store: Some(request.stores()), ..request }
}

/// What `validate` returned.
pub open spec fn found(result: Result<(), ValidationErrors>) -> Option<
    Map<Seq<char>, FieldErrorsView>,
> {
    match result {
        Ok(_) => None,
        Err(errors) => Some(errors_content(errors)),
    }
}

/// Calls `Normalizable::normalize` of `ResponsesRequest`. Of what the library reads it changes
/// only whether the response is stored, which it sets to true where the request does not say.
/// Beside that it fills in the tool choice and whether tools may be called in parallel, which
/// depends on the request alone.
#[verifier::external_body]
fn normalize(request: &mut ResponsesRequest)
    ensures
        *final(request) == request_normalized(*old(request)),
        request_content(*final(request)) == normalized_view(request_content(*old(request))),
{
    request.normalize();
}

/// Calls `Validate::validate` of `ResponsesRequest`. What it finds depends on the request alone.
#[verifier::external_body]
fn validate(request: &ResponsesRequest) -> (res: Result<(), ValidationErrors>)
    ensures
        found(res) == request_errors(*request),
{
    request.validate()
}

/// Calls `ValidationErrors::errors` and takes the number of fields in it.
#[verifier::external_body]
fn count_fields(errors: &ValidationErrors) -> (res: usize)
    ensures
        res == errors_content(*errors).dom().len(),
{
    errors.errors().len()
}

/// Calls `ValidationErrors::errors` and looks a field up in it.
#[verifier::external_body]
fn field_errors(errors: &ValidationErrors, field: &str) -> (res: Option<FieldErrors>)
    ensures
        res.deep_view() == (if errors_content(*errors).contains_key(field@) {
            Some(errors_content(*errors)[field@])
        } else {
            None
        }),
{
    errors.errors().get(field).map(|kind| match kind {
        ValidationErrorsKind::Field(list) => FieldErrors::Codes(
            list.iter().map(|error| error.code.to_string()).collect()),
        ValidationErrorsKind::Struct(_) => FieldErrors::Nested,
        ValidationErrorsKind::List(_) => FieldErrors::Nested,
    })
}

/// A text is one that errors display as. Which one it is depends on the order in which a hash map
/// of fields is walked.
pub uninterp spec fn displays_as(errors: ValidationErrors, text: Seq<char>) -> bool;

/// Calls the `Display` implementation of `ValidationErrors`. The text is one that these errors
/// display as; in which order it names the fields is left open, since it is that of a hash map.
#[verifier::external_body]
pub(crate) fn errors_text(errors: &ValidationErrors) -> (res: String)
    ensures
        displays_as(*errors, res@),
{
    errors.to_string()
}

/// A text is one that what was found wrong with a request displays as.
pub open spec fn describes(
    text: Seq<char>,
    content: Option<Map<Seq<char>, FieldErrorsView>>,
) -> bool {
    exists|errors: ValidationErrors| #[trigger]
        displays_as(errors, text) && Some(errors_content(errors)) == content
}

/// A request that continues a previous response with nothing but outputs of function calls.
pub open spec fn continues_with_outputs(request: RequestView) -> bool {
    &&& request.previous_response_id is Some
    &&& request.input matches InputShapeView::Items(items) && items.len() > 0 && forall|i: int|
        0 <= i < items.len() ==> #[trigger] items[i] == ItemKind::FunctionCallOutput
}

/// The only error is that the input holds no message.
pub open spec fn only_misses_a_message(errors: Map<Seq<char>, FieldErrorsView>) -> bool {
    &&& errors.dom().len() == 1
    &&& errors.contains_key("__all__"@)
    &&& errors["__all__"@] matches FieldErrorsView::Codes(codes) && codes.len() == 1 && codes[0]
        == "input_missing_user_message"@
}

/// A request passes where nothing is wrong with it, or where it continues a previous response with
/// outputs of function calls and only misses a message.
pub open spec fn passes(
    request: RequestView,
    errors: Option<Map<Seq<char>, FieldErrorsView>>,
) -> bool {
    match errors {
        None => true,
        Some(errors) => continues_with_outputs(request) && only_misses_a_message(errors),
    }
}

/// Whether all items are outputs of function calls, and there is one.
fn only_outputs(facts: &RequestFacts) -> (res: bool)
    ensures
        res == (facts.deep_view().input matches InputShapeView::Items(items) && items.len() > 0
            && forall|i: int|
            0 <= i < items.len() ==> #[trigger] items[i] == ItemKind::FunctionCallOutput),
{
    let items = match &facts.input {
        InputShape::Text => {
            return false;
        },
        InputShape::Items(items) => items,
    };
    if items.len() == 0 {
        return false;
    }
    let mut i: usize = 0;
    while i < items.len()
        invariant
            i <= items@.len(),
            facts.deep_view().input == InputShapeView::Items(items@),
            forall|j: int| 0 <= j < i ==> #[trigger] items@[j] == ItemKind::FunctionCallOutput,
        decreases items@.len() - i,
    {
        if items[i] != ItemKind::FunctionCallOutput {
            return false;
        }
        i += 1;
    }
    true
}

/// Whether errors are only that the input holds no message.
fn only_missing_message(errors: &ValidationErrors) -> (res: bool)
    ensures
        res == only_misses_a_message(errors_content(*errors)),
{
    if count_fields(errors) != 1 {
        return false;
    }
    let codes = match field_errors(errors, "__all__") {
        Some(FieldErrors::Codes(codes)) => codes,
        _ => {
            return false;
        },
    };
    if codes.len() != 1 {
        return false;
    }
    assert(codes.deep_view()[0] == codes@[0]@);
    same_text(codes[0].as_str(), "input_missing_user_message")
}

/// Whether a request that failed validation is let through, because it continues a previous
/// response with nothing but outputs of function calls.
pub fn allows_function_call_output_only_continuation(
    request: &ResponsesRequest,
    errors: &ValidationErrors,
) -> (res: bool)
    ensures
        res == (continues_with_outputs(request_content(*request)) && only_misses_a_message(
            errors_content(*errors),
        )),
{
    let facts = read_request(request);
    if facts.previous_response_id.is_none() {
        return false;
    }
    only_outputs(&facts) && only_missing_message(errors)
}

/// Decides on a request, given what validation returned for it.
pub fn judge(request: &ResponsesRequest, result: Result<(), ValidationErrors>) -> (res: Result<
    (),
    ValidationErrors,
>)
    ensures
        res is Ok <==> passes(request_content(*request), found(result)),
        res is Err ==> res == result,
{
    match result {
        Ok(()) => Ok(()),
        Err(errors) => if allows_function_call_output_only_continuation(request, &errors) {
            Ok(())
        } else {
            Err(errors)
        },
    }
}

/// Normalises a request and validates it.
pub fn normalize_and_validate_responses_request(request: &mut ResponsesRequest) -> (res: Result<
    (),
    ValidationErrors,
>)
    ensures
        *final(request) == request_normalized(*old(request)),
        request_content(*final(request)) == normalized_view(request_content(*old(request))),
        res is Ok <==> passes(request_content(*final(request)), request_errors(*final(request))),
        res is Err ==> found(res) == request_errors(*final(request)),
{
    normalize(request);
    let result = validate(request);
    judge(request, result)
}

/// Normalising a request again changes nothing of what the library reads.
pub proof fn law_normalizing_again_changes_nothing(request: RequestView)
    ensures
        normalized_view(normalized_view(request)) == normalized_view(request),
        normalized_view(request).stores() == request.stores(),
{
}

/// A request with errors passes only where it continues a previous response with outputs of
/// function calls, and each such request passes whose only error is the missing message.
pub proof fn law_only_continuations_are_forgiven(
    request: RequestView,
    errors: Map<Seq<char>, FieldErrorsView>,
)
    ensures
        request.previous_response_id is None ==> !passes(request, Some(errors)),
        request.input is Text ==> !passes(request, Some(errors)),
        errors.dom().len() != 1 ==> !passes(request, Some(errors)),
        continues_with_outputs(request) && only_misses_a_message(errors) ==> passes(
            request,
            Some(errors),
        ),
        passes(request, None),
{
}

} // verus!
