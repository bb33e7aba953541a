# azurejay

The logic of an English-tutoring chat service whose replies come from a
Chain-of-Agents model: the model writes a stream of tagged segments (`<plan>`,
`<think>`, `<suggested_answer>`, `<double_check>`, `<answer>`, and tool calls
such as `<grammar_check>`), the service runs the tools it asks for and feeds
their observations back, until an answer is given.

`src/` is the library, written in Verus and verified:

- `trajectory`: roles, tags, the segment parser and the double-check score;
  `trajectory_laws` proves what the parser guarantees: tags round-trip; a
  transcript of `<tag>content</tag>` segments whose contents hold no `<` and
  are trimmed parses back; such a segment (contents without `<`) followed by
  any text parses as that segment, trimmed, then the text; segments come from
  role-naming tags, in order; contents are trimmed and hold no opening tag.
- `orchestrator`: one turn as a state machine (`Turn`) that decides, after
  each chunk the model produced, whether to answer, run a tool, go on or stop;
  `episode` and `law_episode` describe and bound a whole turn.
- `tools`, `tool_agents`, `tool_params`, `grammar`: the tool registry, what a
  tool call asks for (the JSON parameters of its body and the ids it runs
  for), and the
  observations the tools give back.
- `prompt`, `scaling`: the prompts, and Best-of-N selection among candidate turns.
- `conversations`, `auth`, `config`, `rate_limit`, `store`, `audio`, `tts`:
  titles and histories, request checks, access tokens (signing, the expiry
  claim and reading the claims back), settings, the registration rate
  limiter, cache keys, and the headers and voice of spoken replies.
- `text`, `numbers`: string and integer-parsing helpers with exact contracts.

`app/` is the service around it: the HTTP routes, the database and cache, the
model and speech providers, and language detection. `tests/` runs the library
on concrete values.
