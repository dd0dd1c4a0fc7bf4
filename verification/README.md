# kablam

A terminal chat client for local models whose conversations can be edited: a
prompt, a command or a break anywhere in the history can be changed or deleted,
and the turns that depend on it are answered anew.

## Layout

- `src/` is the library, all of it verified with Verus.
  - `text`, `order`, `fuzzy`, `command_palette`: texts, fuzzy search, and the
    command line.
  - `json`, `agent`: tools, and the tool calls that models write.
  - `runtime`, `model_set`, `connections`, `messages`, `router`, `generation`:
    the models, and the way of a request to a model and back.
  - `history`, `thread`, `replay`, `request`: a conversation, replaying it, and
    what a model is asked for a turn.
  - `accumulator`: answers that come in pieces.
  - `app_model`, `session`, `commands`, `input`, `jobs`: what every event does to
    the program. `app_model` and the `impl AppModel` blocks of the others hold
    the model; the functions beside them are proved to follow it.
  - `upkeep`, `editing`: what holds of every state, and what editing promises.
  - `style`, `markdown`, `draw`, `transcript`, `screen`: what is drawn.
  - `startup`: the command line of the program.
- `app/` is the program around it: the terminal, threads and channels, the
  clipboard, and the inference engine.
- `tests/` runs the library on examples.

Functions that have to wait for something outside return an `Effect`. The
program performs it and hands the outcome back to one of the `resume_` functions.
