# responses_stream

Streaming execution of the Responses API on top of chat completion streams, verified with Verus.

The library turns the server-sent events of a chat completion into the events of a streamed
response, runs the rounds of a tool loop over MCP servers, and executes `response.create` requests
that arrive over a WebSocket. Whatever waits for the network is left to its caller: a stream, a tool
loop or an execution is a state machine that says what to do next and is told what came of it.

| Module | Contents |
| --- | --- |
| `sse`, `text` | from the bytes of a body to its records |
| `chat`, `json`, `responses`, `ids` | what is read of, and made for, the protocol's types |
| `accumulator`, `completion` | chunks accumulated into a response, or into a chat completion |
| `events`, `function_calls`, `order` | what the event emitter is told |
| `stream`, `chat_stream`, `tool_loop`, `closing` | the state machines of the streams |
| `validation`, `websocket`, `ws_error` | requests over a WebSocket and their errors |
| `*_laws` | what holds of every run |

`app/` holds the asynchronous side, which performs what the library decides.
