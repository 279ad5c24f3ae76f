# jcode_tools

The tool layer of a coding agent: hooks around tool calls, tools that wrap
command line programs, a sandboxed shell behind a sidecar process, credentials,
and the upkeep of a memory graph. Everything that decides or computes is in
`src/`, with contracts that Verus proves. Files, processes, the environment and
the clock of the outside world are in `app/`.

| Module | What it holds |
|---|---|
| `hooks` | the chain of hooks before and after a tool call, tool-name matchers, command hooks and their configuration, the `rtk` rewrite |
| `external_cli` | where programs are looked for, and how their results are shown |
| `integration_support` | marked blocks in the routing document, import of skills |
| `memex`, `rtk`, `caveman`, `context_mode`, `context_snr` | the tools: parameters, command lines, replies |
| `jsbash` | requests to the sandbox, the sidecar's protocol, set-up |
| `auth::grok` | which token is used, when it is refreshed, what is stored |
| `memory` | the graph cache, the retrieval cache, the garden's worklist |
| `text`, `json`, `schema`, `tool`, `order`, `table` | what the others are made of |

A step that needs the outside world is split: a function says what to do, the
application does it, and another function takes what came back. `HookRegistry`
names the next hook to consult and `PreRun::settle` takes its reply;
`PendingRequests` hands out request ids and settles them;
`resolve_access_token` asks for a refresh and `refreshed` reads how it ended.

Public proof functions whose names begin with `law_` state what holds of
several functions together. What is believed without proof is marked
`external_body`, `external_type_specification` or `assume_specification`, and
its doc comment says what is claimed of which function.

Paths are text in the manner of Unix. Single precision numbers are held by
their bits and only compared; `app/` computes them.
