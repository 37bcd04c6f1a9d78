# tab_quicksearch

A floating, fuzzy-matching tab picker for [Zellij](https://zellij.dev), with its
logic proved in [Verus](https://github.com/verus-lang/verus).

- `src/` is the picker itself: a state machine over plain values. `state` holds
  the state and its handlers, `model` says what each event makes of it, `search`
  and `approx` find tabs, `render` and `layout` draw, `timers` keeps track of
  the host's timers.
- Modules whose names end in `laws` state what holds of the whole: that every
  drawn row is exactly one pane wide, that the list always follows from the query
  and the tabs, how matches rank, what each key does.
- Two crates are called from `src/`: nucleo-matcher for fuzzy matches and
  unicode-width for the width of a char. What is taken on trust of them, and of
  the standard library, is stated where the call stands.
- `app/` is the Zellij plugin around the library.
- `tests/` runs the library.
