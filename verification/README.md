# karukan_im

A Japanese input method engine in Rust, verified with Verus.

- `src/` is the engine: romaji to kana, the composition with its caret, the mixed
  candidate list, conversions in parts, source views, the learning history, and
  what each key does in each state. Every function has a contract over
  mathematical values; `engine::EngineView` is the state of the engine.
- `src/candidate_laws.rs`, `src/composition_laws.rs` and `src/conversion_laws.rs`
  prove what holds across functions: no typed key is lost, escape returns to the
  composition after any moves, what is shown is what is committed, candidates come
  in the order of their sources, each text under the first source that offers it,
  and more. Each law states the conditions under which it holds.
- `tests/` runs the engine on concrete input.
- `app/` is ordinary Rust around the engine: a session that asks the conversion
  model, the rewriters and the calendar of `karukan_engine` for what the engine
  needs. The engine itself does no I/O and no inference: it reads the answers that
  are stored in `outside::OutsideAnswers`, and notes in `requested` the readings
  for which it lacked one.

Of the standard library the engine trusts `String::push`, `char::from_u32` and the
clock; everything else is proved.
