# lean_mcp_server

A server of the Model Context Protocol for Lean 4 projects, with a verified core.
It gives a client the tools of a Lean editor (goals, hovers, completions,
diagnostics, outlines, code actions), tries tactics, runs code, checks the axioms
of theorems, profiles proofs and searches Mathlib.

## How it is built

`src/` is the library, written in [Verus](https://github.com/verus-lang/verus).
It decides; it does no input or output of its own. A tool is a conversation: the
library says what it wants to know or to have done (`protocol::Request`), is told
the outcome (`protocol::Reply`), and goes on until it has a result. The contract
of a tool is the whole conversation as a mathematical object
(`protocol::Dialogue`): every request it makes, in their order, and the result for
every possible course of replies.

| module | what is in it |
| --- | --- |
| `protocol` | requests, replies, dialogues, and what can be said of them |
| `text`, `order`, `lists`, `position` | texts, sorting, sequences, lines and columns |
| `json` | JSON values, on top of `serde_json` |
| `patterns` | regular expressions, on top of `regex` |
| `ids` | names for temporary files, on top of `uuid` |
| `models`, `error` | what the tools find, and how they fail |
| `tools` | the tools, one module each; `tools::laws` states what holds of them as a whole |
| `server` | which project a call belongs to, and how it is served |

`app/` is the program around the library: it talks to the language server, the
disk, the search services and the client, and computes with the times of the
profiler, which are floating-point numbers.

It is built together with two crates that are not in this directory:
`lean_lsp_client`, the connection to `lake serve`, and `lean_mcp_core`, which has the
models as they are sent out and some helpers.

`tests/` runs the library against stand-ins for all of these.

## What is proved besides the contracts

- Whatever fails while tactics are tried in a file, or while a theorem of it is
  checked, the last change that is asked for puts its content back (`tools::laws`).
- The files that are written for a snippet, for code that is run, or for the
  profiler are gone at the end, and closed if they were opened.
- Tools that look at a project change nothing in it.
- No more declarations, completions and Loogle hits come back than were asked for.
- Completions are sorted by how well they match, and equally good ones keep their
  order.
- A batch never calls itself, and without a language server it does no work that
  needs one. Each of its calls comes out as it would alone.
- Where goals are asked for at many positions, what comes of a file depends on
  nothing but what the language server replies about that file.
- Tactics that are tried one after the other never run out of time; where they are
  tried at once, the column and the REPL do not matter.
- Code, snippets and theorems that are put into a file of their own stand there on
  the lines at which their messages and goals are looked for.
- Each severity that can be asked for selects the diagnostics of that severity, all
  of them and in their order.
- A project is given the same language server whenever it asks again, no two
  projects share one, and what one asks for changes nothing for another.
- Where no block comment is opened, the imports of a file are the import lines
  before its first line of code.
- Hover texts hold no code fences, and making them plain again changes nothing.
