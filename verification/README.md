# AMADEUS, the terminal session

A terminal front end for local models: tasks go to one of three Ollama models, questions can be
grounded in an indexed codebase, files can be staged into a prompt, and an autonomous agent can be
set to work. Everything streams into one scrollback.

The library in `src/` is the session without the terminal, the network and the processes. It is
written in Verus, and its functions are verified against their contracts, except for the few that
only hand a call on to an outside crate or to the standard library.

| module | what it holds |
|---|---|
| `text`, `cursor`, `layout` | text, byte offsets on character boundaries, the input buffer as rows |
| `hint` | the slash commands and the hint bar |
| `config`, `event` | settings, tiers, and everything that can wake a session |
| `scrollback` | entries, and how they are wrapped into styled lines |
| `model` | the session as values: its state, and what every event does to it |
| `app` | the session at work, proved to do what `model` says |
| `ollama`, `rag` | requests and helper processes: what is sent or run, and what comes back |
| `ui` | where everything is drawn, and what is drawn there |
| `laws` | what holds over any number of events |

The program in `app/` reads the terminal and the clock, runs the worker threads, and puts the
screens that `ui` computes on the terminal.

What is relied on without proof stands beside the calls it is about: word wrapping (`textwrap`),
JSON (`serde_json`), dividing an area (`ratatui`), and two functions of the standard library.
