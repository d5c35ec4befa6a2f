# SimpleClaw

A framework for agents that answer messages: models are asked, tools are run, and replies go out.
`src/` is its library, verified with [Verus](https://github.com/verus-lang/verus): every function
states what it returns, and Verus proves it. `app/` is the program around the library, with the
network, the disk, processes and guests. `tests/` runs the library on examples.

## The library

| Modules | What they hold |
|---------|----------------|
| `text`, `order`, `paths`, `patterns`, `json`, `time` | texts, sorting, paths, patterns, documents and points in time |
| `config`, `secrets`, `error`, `telemetry`, `channels` | settings, secrets, errors, what logs may show, messages |
| `providers` | requests to models and their answers, whole and as streams |
| `react`, `dispatch`, `reply_policy` | the loop of asking and running tools, who may run them, and silence |
| `tools` | what each tool asks for, refuses and answers; background runs |
| `sandbox` | what commands and guests may reach, and how they ended |
| `run` | a message from its route to the reply, sessions, jobs, logs, the service as a process |
| `testing`, `round_trip` | scripted models, and round trips with them |

Texts are modelled as sequences of characters and documents as trees. What outside crates compute
is named where it takes pages to state: the functions that call them say what they make of it. What
needs the disk, the clock or the network is handed in: a function of the library takes what was
found and says what follows. Where such steps alternate with decisions, the decisions are a machine
from state and event to the next action, and the program carries the actions out.

The functions named `law_..` state what holds across functions: that a stream reads the same however
it is cut, that a delivery is tried once, that a run that ended does not change, that a command in
the sandbox writes only where it may, that a session's messages are handled one after another.

## The program

`simpleclaw` or `simpleclaw system run` runs the service, `simpleclaw system start|stop` has it run
behind the scenes. `simpleclaw status`, `simpleclaw logs [--follow]` and
`simpleclaw agent memory --agent <id> [--memory short|long|both] [--limit <n>]` show what it keeps,
and `simpleclaw check` makes a round trip with a scripted model.
