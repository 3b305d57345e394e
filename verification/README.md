# transcript_folding

UI-only folding of a conversation transcript: which user and assistant
messages are collapsed, how transcript cells are grouped into messages, and
what replaces a folded message in the rendered view. Folding changes only how
a transcript is displayed, never the conversation.

- `src/message.rs`: message kinds and ids.
- `src/cells.rs`: grouping cells into messages (`message_ids`), message starts,
  selectable starts, per-message summaries and placeholder lines, with the
  laws on how ids are laid out.
- `src/summary.rs`: the placeholder label and its decimal counts.
- `src/fold_state.rs`: the set of folded messages (`toggle`, `collapse_all`,
  `expand_all`).
- `src/cache.rs`: the per-thread cache of the shown thread's fold state and the
  per-thread file path.
- `app/lib.rs`: loading and saving fold-state files as JSON, logging, and
  rendering placeholders as dimmed terminal lines.
