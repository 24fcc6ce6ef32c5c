# Natsu Typeless

A voice dictation input method for Linux. Hold a key, speak, release, and the
text is committed through the focused input context.

`src/` is the verified core, written in Rust with Verus contracts:

- `text`, `files`: characters, strings and paths as mathematical sequences;
- `protocol`, `settings`, `config`: messages, bounded settings, locations;
- `vocabulary`, `prompt`: domain terms, entity rules, and the check that
  cleaned-up text is still what was dictated;
- `audio`, `worker`, `asr`, `openai_compat`, `endpoint`: recordings, the worker
  protocol, and the requests to remote services with what is accepted of their
  answers;
- `store`, `pipeline`, `lifecycle`: the dictation pipeline and what holds of it
  over whole sessions;
- `dbus`, `secrets`, `commands`, `ctl`: what is announced, where keys are
  looked for, which programs are started, and what the user is told;
- `json`, `outside`: JSON objects, and the calls into other crates, with what is believed of them.

`app/` is the program around it: bus service, processes, HTTP, secret store and
command line. `tests/` runs the library on concrete values.
