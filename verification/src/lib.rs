//! Streaming execution of the Responses API on top of chat completion streams.
use vstd::prelude::*;

pub mod accumulator;
pub mod accumulator_laws;
pub mod call_item_laws;
pub mod chat;
pub mod chat_stream;
pub mod chat_stream_laws;
pub mod closing;
pub mod completion;
pub mod completion_laws;
pub mod events;
pub mod function_call_laws;
pub mod function_calls;
pub mod ids;
pub mod json;
pub mod order;
pub mod responses;
pub mod sse;
pub mod sse_laws;
pub mod stream;
pub mod stream_laws;
pub mod stream_step_laws;
pub mod text;
pub mod tool_call_laws;
pub mod tool_loop;
pub mod tool_loop_laws;
pub mod tool_round_laws;
pub mod validation;
pub mod websocket;
pub mod websocket_laws;
pub mod ws_error;

verus! {

} // verus!

