# lord_of_the_files

The renaming rules of the Lord of the Files batch renamer, as a Verus-verified library,
with the desktop side (storage, filesystem, keychain, AI provider) in `app/`.

- `src/engine.rs`, `src/steps.rs`, `src/pattern.rs`: the rename pipeline and its steps.
- `src/conflicts.rs`: name validation and collision detection over preview rows.
- `src/ai.rs`, `src/generation.rs`: chunking, prompts, reply framing, reconciling, the
  retry after a timeout, and merging chunk outcomes of an AI rename.
- `src/history.rs`: the moves of apply, undo and redo, and dry runs.
- `src/settings.rs`, `src/scan.rs`, `src/ai_history.rs`, `src/paths.rs`, `src/text.rs`,
  `src/types.rs`.

Every function in `src/` states its result in its contract; the `lemma_*` proof functions
state properties that span functions (undoing an undo, collision safety of the rows left
changed, profile lookups after edits, undo and redo of a batch, and others).
