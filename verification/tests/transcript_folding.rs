use transcript_folding::cache::fold_state_path;
use transcript_folding::cache::TranscriptFoldCache;
use transcript_folding::cells::is_message_start;
use transcript_folding::cells::is_selectable_message_start;
use transcript_folding::cells::folded_message_lines;
use transcript_folding::cells::message_ids;
use transcript_folding::cells::message_summaries;
use transcript_folding::cells::TranscriptCell;
use transcript_folding::cells::TranscriptCellKind;
use transcript_folding::fold_state::TranscriptFoldState;
use transcript_folding::message::TranscriptMessageId;
use transcript_folding::message::TranscriptMessageKind;
use transcript_folding::summary::counted;
use transcript_folding::summary::TranscriptFoldSummary;

fn user_cell(message: &str) -> TranscriptCell {
    TranscriptCell {
        kind: TranscriptCellKind::User,
        raw_lines: vec![message.to_string()],
        tool_calls: 0,
    }
}

fn assistant_cell(lines: &[&str]) -> TranscriptCell {
    TranscriptCell {
        kind: TranscriptCellKind::AssistantMessage,
        raw_lines: lines.iter().map(|line| line.to_string()).collect(),
        tool_calls: 0,
    }
}

fn other_cell(lines: &[&str], tool_calls: usize) -> TranscriptCell {
    TranscriptCell {
        kind: TranscriptCellKind::Other,
        raw_lines: lines.iter().map(|line| line.to_string()).collect(),
        tool_calls,
    }
}

fn user(ordinal: usize) -> TranscriptMessageId {
    TranscriptMessageId {
        kind: TranscriptMessageKind::User,
        ordinal,
    }
}

fn assistant(ordinal: usize) -> TranscriptMessageId {
    TranscriptMessageId {
        kind: TranscriptMessageKind::Assistant,
        ordinal,
    }
}

fn summary(
    kind: TranscriptMessageKind,
    text_lines: usize,
    text_chars: usize,
    tool_calls: usize,
    related_items: usize,
) -> TranscriptFoldSummary {
    TranscriptFoldSummary {
        kind,
        text_lines,
        text_chars,
        tool_calls,
        related_items,
    }
}

#[test]
fn assigns_one_id_to_contiguous_assistant_stream_cells() {
    let cells = vec![
        user_cell("first"),
        assistant_cell(&["part one"]),
        assistant_cell(&["part two"]),
        user_cell("second"),
        assistant_cell(&["final answer"]),
    ];

    assert_eq!(
        message_ids(&cells),
        vec![
            Some(TranscriptMessageId {
                kind: TranscriptMessageKind::User,
                ordinal: 0,
            }),
            Some(TranscriptMessageId {
                kind: TranscriptMessageKind::Assistant,
                ordinal: 0,
            }),
            Some(TranscriptMessageId {
                kind: TranscriptMessageKind::Assistant,
                ordinal: 0,
            }),
            Some(TranscriptMessageId {
                kind: TranscriptMessageKind::User,
                ordinal: 1,
            }),
            Some(TranscriptMessageId {
                kind: TranscriptMessageKind::Assistant,
                ordinal: 1,
            }),
        ]
    );
}

#[test]
fn folded_assistant_stream_emits_one_placeholder() {
    let message = TranscriptMessageId {
        kind: TranscriptMessageKind::Assistant,
        ordinal: 0,
    };
    let cells = vec![assistant_cell(&["part one"]), assistant_cell(&["part two"])];
    let ids = vec![Some(message), Some(message)];
    let summaries = message_summaries(&cells, &ids);
    let mut state = TranscriptFoldState::default();
    state.toggle(message);

    let first = folded_message_lines(&ids, &summaries, &state, 0).expect("folded first cell");
    let continuation =
        folded_message_lines(&ids, &summaries, &state, 1).expect("folded continuation");

    assert_eq!(first.len(), 1);
    assert_eq!(
        first[0].text,
        "▶ Assistant response collapsed · 2 lines · 16 chars"
    );
    assert!(first[0].dim);
    assert!(continuation.is_empty());
}

#[test]
fn assigns_tool_activity_to_the_surrounding_assistant_response() {
    let cells = vec![
        user_cell("look this up"),
        assistant_cell(&["I will search"]),
        other_cell(&["Searched Codex"], 1),
        assistant_cell(&["final answer"]),
    ];
    let ids = message_ids(&cells);
    let assistant = TranscriptMessageId {
        kind: TranscriptMessageKind::Assistant,
        ordinal: 0,
    };

    assert_eq!(
        ids[1..],
        [Some(assistant), Some(assistant), Some(assistant)]
    );
    assert!(is_selectable_message_start(&cells, &ids, 1));
    assert!(!is_selectable_message_start(&cells, &ids, 2));
    assert!(!is_selectable_message_start(&cells, &ids, 3));

    let summaries = message_summaries(&cells, &ids);
    assert_eq!(
        summaries[1].as_ref().map(TranscriptFoldSummary::label),
        Some("▶ Assistant response collapsed · 1 tool call · 2 lines · 25 chars".to_string())
    );
}

#[test]
fn cells_before_the_first_user_message_belong_to_no_message() {
    let cells = vec![
        other_cell(&["session started"], 0),
        assistant_cell(&["welcome"]),
        user_cell("hi"),
    ];
    assert_eq!(message_ids(&cells), vec![None, None, Some(user(0))]);
}

#[test]
fn reply_without_assistant_output_gets_no_id() {
    let cells = vec![
        user_cell("run it"),
        other_cell(&["$ ls"], 1),
        user_cell("again"),
        other_cell(&["status"], 0),
        assistant_cell(&["done"]),
    ];
    assert_eq!(
        message_ids(&cells),
        vec![
            Some(user(0)),
            None,
            Some(user(1)),
            Some(assistant(0)),
            Some(assistant(0)),
        ]
    );
}

#[test]
fn empty_transcript_has_no_messages() {
    let cells: Vec<TranscriptCell> = Vec::new();
    assert!(message_ids(&cells).is_empty());
    assert!(message_summaries(&cells, &[]).is_empty());
}

#[test]
fn message_starts_are_first_cells_of_runs() {
    let ids = vec![
        None,
        Some(user(0)),
        Some(assistant(0)),
        Some(assistant(0)),
        Some(user(1)),
    ];
    assert!(!is_message_start(&ids, 0));
    assert!(is_message_start(&ids, 1));
    assert!(is_message_start(&ids, 2));
    assert!(!is_message_start(&ids, 3));
    assert!(is_message_start(&ids, 4));
    assert!(!is_message_start(&ids, 5));
}

#[test]
fn selectable_start_skips_leading_activity() {
    let cells = vec![
        user_cell("question"),
        other_cell(&["thinking"], 0),
        assistant_cell(&["answer"]),
    ];
    let ids = message_ids(&cells);
    assert!(is_selectable_message_start(&cells, &ids, 0));
    assert!(!is_selectable_message_start(&cells, &ids, 1));
    assert!(is_selectable_message_start(&cells, &ids, 2));
    assert!(!is_selectable_message_start(&cells, &ids, 7));
}

#[test]
fn summaries_count_related_items_and_user_text() {
    let cells = vec![
        user_cell("hello there"),
        other_cell(&["reasoning"], 0),
        assistant_cell(&["a", "bc"]),
        other_cell(&["tool"], 2),
    ];
    let ids = message_ids(&cells);
    let summaries = message_summaries(&cells, &ids);
    assert_eq!(
        summaries,
        vec![
            Some(summary(TranscriptMessageKind::User, 1, 11, 0, 0)),
            Some(summary(TranscriptMessageKind::Assistant, 2, 3, 2, 1)),
            None,
            None,
        ]
    );
    assert_eq!(
        summaries[0].unwrap().label(),
        "▶ User message collapsed · 1 line · 11 chars"
    );
    assert_eq!(
        summaries[1].unwrap().label(),
        "▶ Assistant response collapsed · 2 tool calls · 2 lines · 3 chars · 1 related item"
    );
}

#[test]
fn label_counts_use_singular_only_for_one() {
    assert_eq!(counted(0, "line", "lines"), "0 lines");
    assert_eq!(counted(1, "line", "lines"), "1 line");
    assert_eq!(counted(2, "line", "lines"), "2 lines");
    assert_eq!(counted(1234567, "char", "chars"), "1234567 chars");
    assert_eq!(
        summary(TranscriptMessageKind::Assistant, 1, 1, 1, 3).label(),
        "▶ Assistant response collapsed · 1 tool call · 1 line · 1 char · 3 related items"
    );
    assert_eq!(
        summary(TranscriptMessageKind::User, 0, 0, 0, 0).label(),
        "▶ User message collapsed · 0 lines · 0 chars"
    );
}

#[test]
fn kind_labels() {
    assert_eq!(TranscriptMessageKind::User.label(), "User");
    assert_eq!(TranscriptMessageKind::Assistant.label(), "Assistant");
}

#[test]
fn folded_message_without_summary_gets_generic_placeholder() {
    let ids = vec![Some(user(0)), Some(assistant(0))];
    let mut state = TranscriptFoldState::new();
    state.collapse_all(&[user(0), assistant(0)]);
    let lines = folded_message_lines(&ids, &[], &state, 0).expect("folded user message");
    assert_eq!(lines.len(), 1);
    assert_eq!(lines[0].text, "▶ User message collapsed");
    assert!(lines[0].dim);
    let lines = folded_message_lines(&ids, &[None, None], &state, 1).expect("folded reply");
    assert_eq!(lines.len(), 1);
    assert_eq!(lines[0].text, "▶ Assistant message collapsed");
}

#[test]
fn expanded_and_unassigned_cells_are_shown_as_they_are() {
    let ids = vec![None, Some(user(0)), Some(user(1))];
    let mut state = TranscriptFoldState::new();
    state.toggle(user(1));
    assert!(folded_message_lines(&ids, &[], &state, 0).is_none());
    assert!(folded_message_lines(&ids, &[], &state, 1).is_none());
    assert!(folded_message_lines(&ids, &[], &state, 2).is_some());
    assert!(folded_message_lines(&ids, &[], &state, 3).is_none());
}

#[test]
fn toggle_twice_restores_state() {
    let mut state = TranscriptFoldState::new();
    state.toggle(assistant(2));
    assert!(state.is_collapsed(assistant(2)));
    assert!(!state.is_collapsed(user(2)));
    state.toggle(assistant(2));
    assert!(!state.is_collapsed(assistant(2)));
    assert!(state.collapsed_messages().is_empty());
}

#[test]
fn collapse_all_then_expand_all() {
    let mut state = TranscriptFoldState::new();
    state.toggle(user(5));
    state.collapse_all(&[user(0), assistant(0), user(0)]);
    assert!(state.is_collapsed(user(0)));
    assert!(state.is_collapsed(assistant(0)));
    assert!(state.is_collapsed(user(5)));
    assert!(!state.is_collapsed(assistant(5)));
    assert_eq!(
        state.collapsed_messages(),
        vec![user(0), user(5), assistant(0)]
    );
    let copy = state.clone();
    state.expand_all();
    assert!(state.collapsed_messages().is_empty());
    assert_eq!(copy.collapsed_messages().len(), 3);
}

#[test]
fn fold_state_files_are_per_thread() {
    assert_eq!(
        fold_state_path("0194a6e8-1c2b-7d3e-8f40-123456789abc"),
        "ui-state/transcript-folds/0194a6e8-1c2b-7d3e-8f40-123456789abc.json"
    );
    assert_ne!(fold_state_path("a"), fold_state_path("b"));
}

#[test]
fn cache_reads_back_what_was_written() {
    let mut cache = TranscriptFoldCache::new();
    let thread = Some("thread-1".to_string());
    assert_eq!(cache.thread_to_load(&thread), thread);
    let mut loaded = TranscriptFoldState::new();
    loaded.toggle(user(0));
    let state = cache.current_transcript_fold_state(thread.clone(), Some(loaded));
    assert_eq!(state.collapsed_messages(), vec![user(0)]);
    assert_eq!(cache.thread_to_load(&thread), None);

    let mut written = TranscriptFoldState::new();
    written.toggle(assistant(1));
    let persist = cache.update_transcript_fold_state(thread.clone(), None, written);
    assert_eq!(persist, thread);
    let state = cache.current_transcript_fold_state(thread.clone(), None);
    assert_eq!(state.collapsed_messages(), vec![assistant(1)]);
}

#[test]
fn cache_does_not_carry_state_across_threads() {
    let mut cache = TranscriptFoldCache::default();
    let mut loaded = TranscriptFoldState::new();
    loaded.toggle(user(0));
    cache.refresh_transcript_fold_cache(Some("a".to_string()), Some(loaded));
    let other = Some("b".to_string());
    assert_eq!(cache.thread_to_load(&other), other);
    let state = cache.current_transcript_fold_state(other.clone(), None);
    assert!(state.collapsed_messages().is_empty());
    let state = cache.current_transcript_fold_state(None, None);
    assert!(state.collapsed_messages().is_empty());
    assert_eq!(cache.thread_to_load(&None), None);
    let persist = cache.update_transcript_fold_state(None, None, TranscriptFoldState::new());
    assert_eq!(persist, None);
}

#[test]
fn states_compare_by_folded_messages() {
    let mut a = TranscriptFoldState::new();
    a.toggle(assistant(2));
    let mut b = TranscriptFoldState::default();
    b.collapse_all(&[assistant(2)]);
    assert_eq!(a, b);
    assert!(a.same_folds(&b));
    b.toggle(user(0));
    assert_ne!(a, b);
    a.toggle(user(0));
    assert_eq!(a, b);
    a.expand_all();
    assert_ne!(a, b);
}

#[test]
fn message_ids_order_users_first() {
    assert!(user(3) < assistant(0));
    assert!(assistant(0) < assistant(1));
    assert!(TranscriptMessageKind::User < TranscriptMessageKind::Assistant);
}
