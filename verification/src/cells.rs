//! Grouping transcript cells into foldable messages.
//!
//! A transcript is a sequence of cells. Every user cell is a user message of
//! its own. The cells between one user cell and the next form that user's
//! reply; when the reply holds assistant output, all of its cells (streamed
//! assistant parts, tool activity, status cards) share one assistant message
//! id. Cells before the first user cell belong to no message.

use vstd::prelude::*;

use crate::message::TranscriptMessageId;
use crate::fold_state::TranscriptFoldState;
use crate::message::TranscriptMessageKind;
use crate::message::kind_label_spec;
use crate::summary::TranscriptFoldSummary;
use crate::summary::summary_label_spec;

verus! {

/// What a transcript cell is, as far as folding is concerned.
#[derive(Clone, Copy, Debug, PartialEq, Eq, Structural)]
pub enum TranscriptCellKind {
    /// A message the user sent.
    User,
    /// Assistant output (a streamed message part or a rendered answer).
    AssistantMessage,
    /// Anything else: tool calls, command output, status and reasoning cells.
    Other,
}

/// The facts about one transcript cell that folding reads.
pub struct TranscriptCell {
    pub kind: TranscriptCellKind,
    /// The cell's raw text, one entry per line.
    pub raw_lines: Vec<String>,
    /// How many tool calls the cell shows.
    pub tool_calls: usize,
}

impl TranscriptCell {
    pub open spec fn is_user(&self) -> bool {
        self.kind is User
    }

    pub open spec fn is_assistant_message(&self) -> bool {
        self.kind is AssistantMessage
    }
}

/// Whether the cell shows assistant output.
pub fn is_assistant_message_cell(cell: &TranscriptCell) -> (res: bool)
    ensures
        res == cell.is_assistant_message(),
{
    matches!(cell.kind, TranscriptCellKind::AssistantMessage)
}

/// Number of user cells among the first `n` cells.
pub open spec fn users_before(cells: Seq<TranscriptCell>, n: int) -> nat
    decreases n,
{
    if n <= 0 {
        0
    } else {
        users_before(cells, n - 1) + if cells[n - 1].is_user() { 1nat } else { 0nat }
    }
}

/// Whether the reply that starts at cell `k` (and runs up to the next user
/// cell or the end) holds an assistant message cell.
pub open spec fn reply_has_assistant(cells: Seq<TranscriptCell>, k: int) -> bool
    decreases cells.len() - k,
{
    if k < 0 || k >= cells.len() || cells[k].is_user() {
        false
    } else {
        cells[k].is_assistant_message() || reply_has_assistant(cells, k + 1)
    }
}

/// Number of user cells among the first `n` cells whose reply holds
/// assistant output.
pub open spec fn answered_before(cells: Seq<TranscriptCell>, n: int) -> nat
    decreases n,
{
    if n <= 0 {
        0
    } else {
        answered_before(cells, n - 1) + if cells[n - 1].is_user() && reply_has_assistant(
            cells,
            n,
        ) {
            1nat
        } else {
            0nat
        }
    }
}

/// The nearest user cell before cell `i`, if any.
pub open spec fn owning_user(cells: Seq<TranscriptCell>, i: int) -> Option<int>
    decreases i,
{
    if i <= 0 {
        None
    } else if cells[i - 1].is_user() {
        Some(i - 1)
    } else {
        owning_user(cells, i - 1)
    }
}

/// The message that cell `i` belongs to.
pub open spec fn message_id_spec(cells: Seq<TranscriptCell>, i: int) -> Option<TranscriptMessageId> {
    if cells[i].is_user() {
        Some(
            TranscriptMessageId {
                kind: TranscriptMessageKind::User,
                ordinal: users_before(cells, i) as usize,
            },
        )
    } else {
        match owning_user(cells, i) {
            Some(u) => if reply_has_assistant(cells, u + 1) {
                Some(
                    TranscriptMessageId {
                        kind: TranscriptMessageKind::Assistant,
                        ordinal: answered_before(cells, u) as usize,
                    },
                )
            } else {
                None
            },
            None => None,
        }
    }
}

proof fn lemma_users_before_bound(cells: Seq<TranscriptCell>, n: int)
    requires
        0 <= n,
    ensures
        users_before(cells, n) <= n,
        answered_before(cells, n) <= users_before(cells, n),
    decreases n,
{
    if n > 0 {
        lemma_users_before_bound(cells, n - 1);
    }
}

/// Over a reply `[a, e)` that ends at a user cell or at the end, the reply
/// holds assistant output exactly when one of its cells is an assistant
/// message.
proof fn lemma_reply_span(cells: Seq<TranscriptCell>, a: int, e: int)
    requires
        0 <= a <= e <= cells.len(),
        forall|k: int| a <= k < e ==> !(#[trigger] cells[k]).is_user(),
        e == cells.len() || cells[e].is_user(),
    ensures
        reply_has_assistant(cells, a) <==> exists|k: int|
            a <= k < e && (#[trigger] cells[k]).is_assistant_message(),
    decreases e - a,
{
    if a < e {
        lemma_reply_span(cells, a + 1, e);
        if reply_has_assistant(cells, a + 1) {
            let k = choose|k: int| a + 1 <= k < e && (#[trigger] cells[k]).is_assistant_message();
            assert(a <= k < e && cells[k].is_assistant_message());
        }
        if cells[a].is_assistant_message() {
            assert(a <= a < e && cells[a].is_assistant_message());
        }
    }
}

/// Inside the reply of the user cell `u`, every cell is owned by `u`.
proof fn lemma_owner_in_reply(cells: Seq<TranscriptCell>, u: int, k: int)
    requires
        0 <= u < k <= cells.len(),
        cells[u].is_user(),
        forall|j: int| u < j < k ==> !(#[trigger] cells[j]).is_user(),
    ensures
        owning_user(cells, k) == Some(u),
    decreases k - u,
{
    if k > u + 1 {
        lemma_owner_in_reply(cells, u, k - 1);
    }
}

/// Counting across a whole user turn `[u, e)`: one more user, and one more
/// answered user when the reply holds assistant output.
proof fn lemma_counts_over_turn(cells: Seq<TranscriptCell>, u: int, e: int)
    requires
        0 <= u < e <= cells.len(),
        cells[u].is_user(),
        forall|j: int| u < j < e ==> !(#[trigger] cells[j]).is_user(),
    ensures
        users_before(cells, e) == users_before(cells, u) + 1,
        answered_before(cells, e) == answered_before(cells, u) + if reply_has_assistant(
            cells,
            u + 1,
        ) {
            1nat
        } else {
            0nat
        },
    decreases e - u,
{
    if e > u + 1 {
        lemma_counts_over_turn(cells, u, e - 1);
        assert(!cells[e - 1].is_user());
    }
}

/// Assigns each cell the message it belongs to.
///
/// User cells get user ids numbered in order. The cells between a user cell
/// and the next one share one assistant id when they hold an assistant
/// message, numbered in order among such replies; otherwise they get none.
pub fn message_ids(cells: &[TranscriptCell]) -> (ids: Vec<Option<TranscriptMessageId>>)
    ensures
        ids@.len() == cells@.len(),
        forall|i: int| 0 <= i < cells@.len() ==> #[trigger] ids@[i] == message_id_spec(cells@, i),
{
    let n = cells.len();
    let mut ids: Vec<Option<TranscriptMessageId>> = Vec::new();
    let mut fill: usize = 0;
    while fill < n
        invariant
            fill <= n,
            ids@.len() == fill,
            forall|j: int| 0 <= j < fill ==> #[trigger] ids@[j] is None,
        decreases n - fill,
    {
        ids.push(None);
        fill += 1;
    }
    let mut user_ordinal: usize = 0;
    let mut assistant_ordinal: usize = 0;
    let mut index: usize = 0;
    while index < n
        invariant
            n == cells@.len(),
            ids@.len() == n,
            index <= n,
            forall|j: int| 0 <= j < index ==> #[trigger] ids@[j] == message_id_spec(cells@, j),
            forall|j: int| index <= j < n ==> #[trigger] ids@[j] is None,
            user_ordinal == users_before(cells@, index as int),
            assistant_ordinal == answered_before(cells@, index as int),
            index < n ==> (cells@[index as int].is_user() || owning_user(
                cells@,
                index as int,
            ) is None),
        decreases n - index,
    {
        proof {
            lemma_users_before_bound(cells@, index as int);
        }
        if !matches!(cells[index].kind, TranscriptCellKind::User) {
            index += 1;
        } else {
            let user_index = index;
            ids.set(
                index,
                Some(TranscriptMessageId { kind: TranscriptMessageKind::User, ordinal: user_ordinal }),
            );
            user_ordinal += 1;
            let response_start = index + 1;
            let mut response_end = response_start;
            let mut has_assistant = false;
            while response_end < n && !matches!(cells[response_end].kind, TranscriptCellKind::User)
                invariant
                    n == cells@.len(),
                    response_start == user_index + 1,
                    response_start <= response_end <= n,
                    forall|k: int|
                        response_start <= k < response_end ==> !(#[trigger] cells@[k]).is_user(),
                    has_assistant <==> exists|k: int|
                        response_start <= k < response_end
                            && (#[trigger] cells@[k]).is_assistant_message(),
                decreases n - response_end,
            {
                if is_assistant_message_cell(&cells[response_end]) {
                    has_assistant = true;
                }
                response_end += 1;
            }
            proof {
                lemma_reply_span(cells@, response_start as int, response_end as int);
                lemma_counts_over_turn(cells@, user_index as int, response_end as int);
                lemma_users_before_bound(cells@, response_end as int);
            }
            if has_assistant {
                let response = Some(
                    TranscriptMessageId {
                        kind: TranscriptMessageKind::Assistant,
                        ordinal: assistant_ordinal,
                    },
                );
                assistant_ordinal += 1;
                let mut j = response_start;
                while j < response_end
                    invariant
                        n == cells@.len(),
                        ids@.len() == n,
                        response_start <= j <= response_end <= n,
                        forall|k: int|
                            0 <= k < response_start ==> #[trigger] ids@[k] == message_id_spec(
                                cells@,
                                k,
                            ),
                        forall|k: int| response_start <= k < j ==> #[trigger] ids@[k] == response,
                        forall|k: int| j <= k < n ==> #[trigger] ids@[k] is None,
                    decreases response_end - j,
                {
                    ids.set(j, response);
                    j += 1;
                }
            }
            proof {
                assert forall|k: int| response_start <= k < response_end implies #[trigger] ids@[k]
                    == message_id_spec(cells@, k) by {
                    lemma_owner_in_reply(cells@, user_index as int, k);
                }
            }
            index = response_end;
        }
    }
    ids
}

fn same_message(a: Option<TranscriptMessageId>, b: Option<TranscriptMessageId>) -> (res: bool)
    ensures
        res == (a == b),
{
    match (a, b) {
        (Some(x), Some(y)) => x.kind == y.kind && x.ordinal == y.ordinal,
        (None, None) => true,
        _ => false,
    }
}

/// Cell `index` is the first cell of its message: it belongs to a message,
/// and the cell before it (if any) does not belong to the same one.
pub open spec fn is_message_start_spec(ids: Seq<Option<TranscriptMessageId>>, index: int) -> bool {
    &&& 0 <= index < ids.len()
    &&& ids[index] is Some
    &&& (index == 0 || ids[index - 1] != ids[index])
}

/// Whether cell `index` is the first cell of its message.
pub fn is_message_start(message_ids: &[Option<TranscriptMessageId>], index: usize) -> (res: bool)
    ensures
        res == is_message_start_spec(message_ids@, index as int),
{
    if index >= message_ids.len() {
        return false;
    }
    match message_ids[index] {
        None => false,
        Some(message) => index == 0 || !same_message(message_ids[index - 1], Some(message)),
    }
}

/// Whether the cell shows the text of a message of this kind (rather than
/// tool activity or status around it).
pub open spec fn shows_message_text(cell: TranscriptCell, kind: TranscriptMessageKind) -> bool {
    match kind {
        TranscriptMessageKind::User => cell.is_user(),
        TranscriptMessageKind::Assistant => cell.is_assistant_message(),
    }
}

fn cell_shows_message_text(cell: &TranscriptCell, kind: TranscriptMessageKind) -> (res: bool)
    ensures
        res == shows_message_text(*cell, kind),
{
    match kind {
        TranscriptMessageKind::User => matches!(cell.kind, TranscriptCellKind::User),
        TranscriptMessageKind::Assistant => is_assistant_message_cell(cell),
    }
}

/// Cell `index` is where its message can be selected: it shows the
/// message's text, and no earlier cell of the same message does.
pub open spec fn is_selectable_message_start_spec(
    cells: Seq<TranscriptCell>,
    ids: Seq<Option<TranscriptMessageId>>,
    index: int,
) -> bool {
    &&& 0 <= index < ids.len()
    &&& ids[index] is Some
    &&& shows_message_text(cells[index], ids[index]->0.kind)
    &&& forall|e: int|
        0 <= e < index && ids[e] == ids[index] ==> !shows_message_text(
            #[trigger] cells[e],
            ids[index]->0.kind,
        )
}

/// Whether cell `index` is the place where its message is selected: the
/// first cell of the message that shows the message's own text.
pub fn is_selectable_message_start(
    cells: &[TranscriptCell],
    message_ids: &[Option<TranscriptMessageId>],
    index: usize,
) -> (res: bool)
    requires
        index < message_ids@.len() && message_ids@[index as int] is Some ==> index < cells@.len(),
    ensures
        res == is_selectable_message_start_spec(cells@, message_ids@, index as int),
{
    if index >= message_ids.len() {
        return false;
    }
    let message = match message_ids[index] {
        None => {
            return false;
        },
        Some(message) => message,
    };
    if !cell_shows_message_text(&cells[index], message.kind) {
        return false;
    }
    let mut earlier: usize = 0;
    while earlier < index
        invariant
            index < message_ids@.len(),
            index < cells@.len(),
            message_ids@[index as int] == Some(message),
            earlier <= index,
            forall|e: int|
                0 <= e < earlier && message_ids@[e] == Some(message) ==> !shows_message_text(
                    #[trigger] cells@[e],
                    message.kind,
                ),
        decreases index - earlier,
    {
        if same_message(message_ids[earlier], Some(message)) && cell_shows_message_text(
            &cells[earlier],
            message.kind,
        ) {
            return false;
        }
        earlier += 1;
    }
    true
}

/// Characters in a sequence of text lines.
pub open spec fn line_chars(lines: Seq<String>) -> int
    decreases lines.len(),
{
    if lines.len() == 0 {
        0
    } else {
        line_chars(lines.drop_last()) + lines.last()@.len()
    }
}

/// The number of cells that have both a cell and an id.
pub open spec fn paired_len(cells: Seq<TranscriptCell>, ids: Seq<Option<TranscriptMessageId>>) -> int {
    if cells.len() < ids.len() {
        cells.len() as int
    } else {
        ids.len() as int
    }
}

/// Totals over the first `n` cells that belong to message `m`:
/// (text lines, text characters, tool calls, related items).
/// Cells that show the message's text add their lines and characters;
/// every other cell of the message adds its tool calls, or counts as one
/// related item when it shows none.
pub open spec fn summary_totals(
    cells: Seq<TranscriptCell>,
    ids: Seq<Option<TranscriptMessageId>>,
    m: TranscriptMessageId,
    n: int,
) -> (int, int, int, int)
    decreases n,
{
    if n <= 0 {
        (0, 0, 0, 0)
    } else {
        let prev = summary_totals(cells, ids, m, n - 1);
        let cell = cells[n - 1];
        if ids[n - 1] != Some(m) {
            prev
        } else if shows_message_text(cell, m.kind) {
            (prev.0 + cell.raw_lines@.len(), prev.1 + line_chars(cell.raw_lines@), prev.2, prev.3)
        } else {
            (
                prev.0,
                prev.1,
                prev.2 + cell.tool_calls,
                prev.3 + if cell.tool_calls == 0 {
                    1int
                } else {
                    0int
                },
            )
        }
    }
}

/// The totals of message `m` fit the counters of a summary.
pub open spec fn summary_fits(
    cells: Seq<TranscriptCell>,
    ids: Seq<Option<TranscriptMessageId>>,
    m: TranscriptMessageId,
) -> bool {
    let t = summary_totals(cells, ids, m, paired_len(cells, ids));
    &&& t.0 <= usize::MAX
    &&& t.1 <= usize::MAX
    &&& t.2 <= usize::MAX
    &&& t.3 <= usize::MAX
}

/// The summary of message `m` over all its cells.
pub open spec fn summary_spec(
    cells: Seq<TranscriptCell>,
    ids: Seq<Option<TranscriptMessageId>>,
    m: TranscriptMessageId,
) -> TranscriptFoldSummary {
    let t = summary_totals(cells, ids, m, paired_len(cells, ids));
    TranscriptFoldSummary {
        kind: m.kind,
        text_lines: t.0 as usize,
        text_chars: t.1 as usize,
        tool_calls: t.2 as usize,
        related_items: t.3 as usize,
    }
}

proof fn lemma_line_chars_prefix(lines: Seq<String>, j: int)
    requires
        0 <= j <= lines.len(),
    ensures
        0 <= line_chars(lines.take(j)) <= line_chars(lines),
    decreases lines.len(),
{
    if lines.len() > 0 {
        if j == lines.len() {
            assert(lines.take(j) =~= lines);
            lemma_line_chars_prefix(lines.drop_last(), j - 1);
            assert(lines.drop_last().take(j - 1) =~= lines.drop_last());
        } else {
            lemma_line_chars_prefix(lines.drop_last(), j);
            assert(lines.drop_last().take(j) =~= lines.take(j));
        }
    }
}

proof fn lemma_summary_totals_monotone(
    cells: Seq<TranscriptCell>,
    ids: Seq<Option<TranscriptMessageId>>,
    m: TranscriptMessageId,
    a: int,
    b: int,
)
    requires
        0 <= a <= b <= paired_len(cells, ids),
    ensures
        0 <= summary_totals(cells, ids, m, a).0 <= summary_totals(cells, ids, m, b).0,
        0 <= summary_totals(cells, ids, m, a).1 <= summary_totals(cells, ids, m, b).1,
        0 <= summary_totals(cells, ids, m, a).2 <= summary_totals(cells, ids, m, b).2,
        0 <= summary_totals(cells, ids, m, a).3 <= summary_totals(cells, ids, m, b).3,
    decreases b,
{
    if b > 0 {
        if a == b {
            lemma_summary_totals_monotone(cells, ids, m, a - 1, b - 1);
        } else {
            lemma_summary_totals_monotone(cells, ids, m, a, b - 1);
        }
        lemma_line_chars_prefix(cells[b - 1].raw_lines@, 0);
    }
}

fn summarize(
    cells: &[TranscriptCell],
    message_ids: &[Option<TranscriptMessageId>],
    message: TranscriptMessageId,
) -> (res: TranscriptFoldSummary)
    requires
        summary_fits(cells@, message_ids@, message),
    ensures
        res == summary_spec(cells@, message_ids@, message),
{
    let n = if cells.len() < message_ids.len() {
        cells.len()
    } else {
        message_ids.len()
    };
    let ghost total = summary_totals(cells@, message_ids@, message, n as int);
    let mut text_lines: usize = 0;
    let mut text_chars: usize = 0;
    let mut tool_calls: usize = 0;
    let mut related_items: usize = 0;
    let mut k: usize = 0;
    while k < n
        invariant
            n == paired_len(cells@, message_ids@),
            k <= n,
            summary_fits(cells@, message_ids@, message),
            total == summary_totals(cells@, message_ids@, message, n as int),
            (text_lines as int, text_chars as int, tool_calls as int, related_items as int)
                == summary_totals(cells@, message_ids@, message, k as int),
        decreases n - k,
    {
        proof {
            lemma_summary_totals_monotone(cells@, message_ids@, message, k + 1, n as int);
            lemma_summary_totals_monotone(cells@, message_ids@, message, k as int, k + 1);
        }
        if same_message(message_ids[k], Some(message)) {
            let cell = &cells[k];
            if cell_shows_message_text(cell, message.kind) {
                let lines = &cell.raw_lines;
                text_lines = text_lines + lines.len();
                let ghost base = text_chars as int;
                let mut j: usize = 0;
                while j < lines.len()
                    invariant
                        j <= lines@.len(),
                        text_chars as int == base + line_chars(lines@.take(j as int)),
                        base + line_chars(lines@) <= usize::MAX,
                    decreases lines@.len() - j,
                {
                    proof {
                        lemma_line_chars_prefix(lines@, j + 1);
                        assert(lines@.take(j + 1).drop_last() =~= lines@.take(j as int));
                    }
                    text_chars = text_chars + lines[j].as_str().unicode_len();
                    j += 1;
                }
                proof {
                    assert(lines@.take(j as int) =~= lines@);
                }
            } else {
                tool_calls = tool_calls + cell.tool_calls;
                if cell.tool_calls == 0 {
                    related_items = related_items + 1;
                }
            }
        }
        k += 1;
    }
    TranscriptFoldSummary { kind: message.kind, text_lines, text_chars, tool_calls, related_items }
}

/// The summary of each message, at the first cell of the message; `None`
/// at every other cell.
pub fn message_summaries(
    cells: &[TranscriptCell],
    message_ids: &[Option<TranscriptMessageId>],
) -> (res: Vec<Option<TranscriptFoldSummary>>)
    requires
        forall|i: int|
            #[trigger] is_message_start_spec(message_ids@, i) ==> i < cells@.len() && summary_fits(
                cells@,
                message_ids@,
                message_ids@[i]->0,
            ),
    ensures
        res@.len() == cells@.len(),
        forall|i: int|
            0 <= i < cells@.len() ==> #[trigger] res@[i] == if is_message_start_spec(
                message_ids@,
                i,
            ) {
                Some(summary_spec(cells@, message_ids@, message_ids@[i]->0))
            } else {
                None
            },
{
    let mut summaries: Vec<Option<TranscriptFoldSummary>> = Vec::new();
    let mut fill: usize = 0;
    while fill < cells.len()
        invariant
            fill <= cells@.len(),
            summaries@.len() == fill,
            forall|j: int| 0 <= j < fill ==> #[trigger] summaries@[j] is None,
        decreases cells@.len() - fill,
    {
        summaries.push(None);
        fill += 1;
    }
    let mut index: usize = 0;
    while index < message_ids.len()
        invariant
            summaries@.len() == cells@.len(),
            index <= message_ids@.len(),
            forall|i: int|
                #[trigger] is_message_start_spec(message_ids@, i) ==> i < cells@.len()
                    && summary_fits(cells@, message_ids@, message_ids@[i]->0),
            forall|i: int|
                0 <= i < cells@.len() ==> #[trigger] summaries@[i] == if i < index
                    && is_message_start_spec(message_ids@, i) {
                    Some(summary_spec(cells@, message_ids@, message_ids@[i]->0))
                } else {
                    None
                },
        decreases message_ids@.len() - index,
    {
        if let Some(message) = message_ids[index] {
            if is_message_start(message_ids, index) {
                let summary = summarize(cells, message_ids, message);
                summaries.set(index, Some(summary));
            }
        }
        index += 1;
    }
    summaries
}

/// The placeholder text of the folded message at cell `index`: its
/// summary's label, or a generic one where no summary was made.
pub open spec fn placeholder_spec(
    ids: Seq<Option<TranscriptMessageId>>,
    summaries: Seq<Option<TranscriptFoldSummary>>,
    index: int,
) -> Seq<char> {
    if index < summaries.len() && summaries[index] is Some {
        summary_label_spec(summaries[index]->0)
    } else {
        "▶ "@ + kind_label_spec(ids[index]->0.kind) + " message collapsed"@
    }
}

/// A line that replaces folded content in the normal view.
pub struct PlaceholderLine {
    pub text: String,
    /// Whether the line is drawn dimmed.
    pub dim: bool,
}

/// Cell `index` belongs to a message that is folded.
pub open spec fn is_folded_cell(
    ids: Seq<Option<TranscriptMessageId>>,
    state: Set<TranscriptMessageId>,
    index: int,
) -> bool {
    &&& 0 <= index < ids.len()
    &&& ids[index] is Some
    &&& state.contains(ids[index]->0)
}

/// What replaces cell `index` in the normal view: `None` when the cell is
/// shown as it is; otherwise the dimmed placeholder line at the first cell of
/// the folded message and nothing at its other cells, so that a message that
/// spans several cells leaves one placeholder.
pub fn folded_message_lines(
    message_ids: &[Option<TranscriptMessageId>],
    message_summaries: &[Option<TranscriptFoldSummary>],
    fold_state: &TranscriptFoldState,
    index: usize,
) -> (res: Option<Vec<PlaceholderLine>>)
    ensures
        res is Some <==> is_folded_cell(message_ids@, fold_state@, index as int),
        res matches Some(lines) ==> if is_message_start_spec(message_ids@, index as int) {
            &&& lines@.len() == 1
            &&& lines@[0].text@ == placeholder_spec(
                message_ids@,
                message_summaries@,
                index as int,
            )
            &&& lines@[0].dim
        } else {
            lines@.len() == 0
        },
{
    if index >= message_ids.len() {
        return None;
    }
    let message = match message_ids[index] {
        None => {
            return None;
        },
        Some(message) => message,
    };
    if !fold_state.is_collapsed(message) {
        return None;
    }
    if !is_message_start(message_ids, index) {
        return Some(Vec::new());
    }
    let label = if index < message_summaries.len() {
        match &message_summaries[index] {
            Some(summary) => summary.label(),
            None => generic_placeholder(message.kind),
        }
    } else {
        generic_placeholder(message.kind)
    };
    let mut lines = Vec::new();
    lines.push(PlaceholderLine { text: label, dim: true });
    Some(lines)
}

fn generic_placeholder(kind: TranscriptMessageKind) -> (res: String)
    ensures
        res@ == "▶ "@ + kind_label_spec(kind) + " message collapsed"@,
{
    let mut out = String::new();
    out.append("▶ ");
    out.append(kind.label());
    out.append(" message collapsed");
    out
}

proof fn lemma_users_before_monotone(cells: Seq<TranscriptCell>, a: int, b: int)
    requires
        0 <= a <= b,
    ensures
        users_before(cells, a) <= users_before(cells, b),
        answered_before(cells, a) <= answered_before(cells, b),
    decreases b - a,
{
    if a < b {
        lemma_users_before_monotone(cells, a, b - 1);
    }
}

/// What the owning user of a cell is: the last user cell before it.
proof fn lemma_owner_facts(cells: Seq<TranscriptCell>, i: int)
    requires
        0 <= i <= cells.len(),
    ensures
        owning_user(cells, i) matches Some(u) ==> {
            &&& 0 <= u < i
            &&& cells[u].is_user()
            &&& forall|t: int| u < t < i ==> !(#[trigger] cells[t]).is_user()
        },
        owning_user(cells, i) is None ==> forall|t: int| 0 <= t < i ==> !(#[trigger] cells[t]).is_user(),
    decreases i,
{
    if i > 0 {
        lemma_owner_facts(cells, i - 1);
    }
}

/// Every message occupies one contiguous run of cells: two cells with the
/// same message id enclose only cells of that message. So each message is
/// given one id, and ids are never shared by separate messages.
pub proof fn lemma_message_ids_contiguous(cells: Seq<TranscriptCell>, i: int, k: int, j: int)
    requires
        0 <= i <= k <= j < cells.len() <= usize::MAX,
        message_id_spec(cells, i) is Some,
        message_id_spec(cells, i) == message_id_spec(cells, j),
    ensures
        message_id_spec(cells, k) == message_id_spec(cells, i),
{
    if i < j {
        lemma_users_before_bound(cells, j);
        lemma_users_before_bound(cells, i);
        if cells[i].is_user() {
            lemma_users_before_monotone(cells, i + 1, j);
            if cells[j].is_user() {
                assert(false);
            }
            assert(false);
        } else {
            lemma_owner_facts(cells, i);
            lemma_owner_facts(cells, j);
            let ui = owning_user(cells, i)->0;
            let uj = owning_user(cells, j)->0;
            lemma_users_before_bound(cells, ui);
            lemma_users_before_bound(cells, uj);
            if ui < uj {
                lemma_users_before_monotone(cells, ui + 1, uj);
                assert(false);
            }
            if uj < ui {
                assert(false);
            }
            assert forall|t: int| ui < t < k implies !(#[trigger] cells[t]).is_user() by {
            }
            if k > i {
                lemma_owner_in_reply(cells, ui, k);
            }
        }
    }
}

/// The cells of one reply (no user cell among them) share one message id:
/// a streamed assistant response and the tool activity around it are one
/// message.
pub proof fn lemma_reply_cells_share_id(cells: Seq<TranscriptCell>, i: int, j: int)
    requires
        0 <= i <= j < cells.len(),
        forall|t: int| i <= t <= j ==> !(#[trigger] cells[t]).is_user(),
    ensures
        message_id_spec(cells, i) == message_id_spec(cells, j),
    decreases j - i,
{
    if i < j {
        lemma_reply_cells_share_id(cells, i, j - 1);
        assert(!cells[j - 1].is_user());
        assert(owning_user(cells, j) == owning_user(cells, j - 1));
    }
}

/// A user message always has an id of its own, and cells before the first
/// user message belong to no message.
pub proof fn lemma_user_cells_are_messages(cells: Seq<TranscriptCell>, i: int)
    requires
        0 <= i < cells.len(),
    ensures
        cells[i].is_user() ==> message_id_spec(cells, i) == Some(
            TranscriptMessageId {
                kind: TranscriptMessageKind::User,
                ordinal: users_before(cells, i) as usize,
            },
        ),
        (forall|t: int| 0 <= t <= i ==> !(#[trigger] cells[t]).is_user()) ==> message_id_spec(
            cells,
            i,
        ) is None,
{
    if forall|t: int| 0 <= t <= i ==> !(#[trigger] cells[t]).is_user() {
        lemma_owner_facts(cells, i);
        if owning_user(cells, i) is Some {
            let u = owning_user(cells, i)->0;
            assert(!cells[u].is_user());
        }
    }
}

/// Within a run of cells of one message, only the first cell is a message
/// start; a folded message therefore yields a single placeholder.
pub proof fn lemma_one_start_per_run(ids: Seq<Option<TranscriptMessageId>>, a: int, b: int, k: int)
    requires
        0 <= a < k <= b < ids.len(),
        forall|t: int| a <= t <= b ==> #[trigger] ids[t] == ids[a],
    ensures
        !is_message_start_spec(ids, k),
{
    assert(ids[k - 1] == ids[a]);
}

/// A message has at most one selectable cell.
pub proof fn lemma_one_selectable_start(
    cells: Seq<TranscriptCell>,
    ids: Seq<Option<TranscriptMessageId>>,
    i: int,
    j: int,
)
    requires
        is_selectable_message_start_spec(cells, ids, i),
        is_selectable_message_start_spec(cells, ids, j),
        ids[i] == ids[j],
    ensures
        i == j,
{
    if i < j {
        assert(shows_message_text(cells[i], ids[j]->0.kind));
    }
    if j < i {
        assert(shows_message_text(cells[j], ids[i]->0.kind));
    }
}

/// The ids that `message_ids` assigns to a whole transcript.
pub open spec fn message_ids_spec(cells: Seq<TranscriptCell>) -> Seq<Option<TranscriptMessageId>> {
    Seq::new(cells.len(), |k: int| message_id_spec(cells, k))
}

/// A message of the transcript starts at one cell only: when its cells are
/// folded, exactly one of them shows the placeholder.
pub proof fn lemma_one_start_per_message(cells: Seq<TranscriptCell>, i: int, j: int)
    requires
        0 <= i < j < cells.len() <= usize::MAX,
        message_id_spec(cells, i) is Some,
        message_id_spec(cells, i) == message_id_spec(cells, j),
    ensures
        !is_message_start_spec(message_ids_spec(cells), j),
{
    lemma_message_ids_contiguous(cells, i, j - 1, j);
}

/// Two transcripts agree on the cells of message `m`: every cell that
/// carries `m` has the same kind, raw lines and tool-call count in both.
pub open spec fn agree_on_message(
    cells: Seq<TranscriptCell>,
    other: Seq<TranscriptCell>,
    ids: Seq<Option<TranscriptMessageId>>,
    m: TranscriptMessageId,
) -> bool {
    forall|j: int|
        0 <= j < ids.len() && j < cells.len() && ids[j] == Some(m) ==> {
            &&& (#[trigger] cells[j]).kind == other[j].kind
            &&& cells[j].raw_lines@ == other[j].raw_lines@
            &&& cells[j].tool_calls == other[j].tool_calls
        }
}

proof fn lemma_summary_totals_local(
    cells: Seq<TranscriptCell>,
    other: Seq<TranscriptCell>,
    ids: Seq<Option<TranscriptMessageId>>,
    m: TranscriptMessageId,
    n: int,
)
    requires
        cells.len() == other.len(),
        agree_on_message(cells, other, ids, m),
        n <= paired_len(cells, ids),
    ensures
        summary_totals(cells, ids, m, n) == summary_totals(other, ids, m, n),
    decreases n,
{
    if n > 0 {
        lemma_summary_totals_local(cells, other, ids, m, n - 1);
        if ids[n - 1] == Some(m) {
            assert(cells[n - 1].kind == other[n - 1].kind);
        }
    }
}

/// A message's summary depends only on the cells that carry its id: user
/// prompts, other responses and cells of no message do not change it.
pub proof fn lemma_summary_is_local(
    cells: Seq<TranscriptCell>,
    other: Seq<TranscriptCell>,
    ids: Seq<Option<TranscriptMessageId>>,
    m: TranscriptMessageId,
)
    requires
        cells.len() == other.len(),
        agree_on_message(cells, other, ids, m),
    ensures
        summary_spec(cells, ids, m) == summary_spec(other, ids, m),
        summary_fits(cells, ids, m) == summary_fits(other, ids, m),
{
    lemma_summary_totals_local(cells, other, ids, m, paired_len(cells, ids));
}

/// Every message of a transcript starts at exactly one cell, at or before
/// any of its cells; so `message_summaries` gives each message exactly one
/// summary, at its first cell, and no other cell gets one.
pub proof fn lemma_message_has_one_start(cells: Seq<TranscriptCell>, i: int)
    requires
        0 <= i < cells.len() <= usize::MAX,
        message_id_spec(cells, i) is Some,
    ensures
        exists|s: int|
            0 <= s <= i && #[trigger] is_message_start_spec(message_ids_spec(cells), s)
                && message_id_spec(cells, s) == message_id_spec(cells, i) && forall|t: int|
                #![trigger is_message_start_spec(message_ids_spec(cells), t)]
                is_message_start_spec(message_ids_spec(cells), t) && message_id_spec(cells, t)
                    == message_id_spec(cells, i) ==> t == s,
    decreases i,
{
    let ids = message_ids_spec(cells);
    if i > 0 && message_id_spec(cells, i - 1) == message_id_spec(cells, i) {
        lemma_message_has_one_start(cells, i - 1);
        let s = choose|s: int|
            0 <= s <= i - 1 && #[trigger] is_message_start_spec(message_ids_spec(cells), s)
                && message_id_spec(cells, s) == message_id_spec(cells, i - 1) && forall|t: int|
                #![trigger is_message_start_spec(message_ids_spec(cells), t)]
                is_message_start_spec(message_ids_spec(cells), t) && message_id_spec(cells, t)
                    == message_id_spec(cells, i - 1) ==> t == s;
        assert(0 <= s <= i && is_message_start_spec(ids, s) && message_id_spec(cells, s)
            == message_id_spec(cells, i));
    } else {
        assert(is_message_start_spec(ids, i));
        assert forall|t: int|
            #![trigger is_message_start_spec(message_ids_spec(cells), t)]
            is_message_start_spec(message_ids_spec(cells), t) && message_id_spec(cells, t)
                == message_id_spec(cells, i) implies t == i by {
            if t < i {
                lemma_one_start_per_message(cells, t, i);
            } else if t > i {
                lemma_one_start_per_message(cells, i, t);
            }
        }
    }
}

/// A cell that shows the text of its message, with no earlier cell of the
/// same message showing it, is where that message is selected, whatever
/// messages (of the same kind or not) come before it.
pub proof fn lemma_first_text_cell_is_selectable(
    cells: Seq<TranscriptCell>,
    ids: Seq<Option<TranscriptMessageId>>,
    i: int,
)
    requires
        0 <= i < ids.len(),
        i < cells.len(),
        ids[i] is Some,
        shows_message_text(cells[i], ids[i]->0.kind),
        forall|e: int|
            0 <= e < i && ids[e] == ids[i] ==> !shows_message_text(
                #[trigger] cells[e],
                ids[i]->0.kind,
            ),
    ensures
        is_selectable_message_start_spec(cells, ids, i),
{
}

proof fn lemma_earliest_text_cell(
    cells: Seq<TranscriptCell>,
    ids: Seq<Option<TranscriptMessageId>>,
    k: int,
)
    requires
        0 <= k < ids.len(),
        k < cells.len(),
        ids[k] is Some,
        shows_message_text(cells[k], ids[k]->0.kind),
    ensures
        exists|s: int|
            0 <= s <= k && #[trigger] is_selectable_message_start_spec(cells, ids, s) && ids[s]
                == ids[k],
    decreases k,
{
    if exists|e: int|
        0 <= e < k && ids[e] == ids[k] && shows_message_text(#[trigger] cells[e], ids[k]->0.kind) {
        let e = choose|e: int|
            0 <= e < k && ids[e] == ids[k] && shows_message_text(
                #[trigger] cells[e],
                ids[k]->0.kind,
            );
        lemma_earliest_text_cell(cells, ids, e);
        let s = choose|s: int|
            0 <= s <= e && #[trigger] is_selectable_message_start_spec(cells, ids, s) && ids[s]
                == ids[e];
        assert(0 <= s <= k && is_selectable_message_start_spec(cells, ids, s) && ids[s] == ids[k]);
    } else {
        assert(is_selectable_message_start_spec(cells, ids, k));
    }
}

/// The reply that starts at `a`, right after the user cell `u`, holds
/// assistant output exactly when some cell after `u`, with no user cell
/// between, is an assistant message.
proof fn lemma_reply_has_assistant_iff(cells: Seq<TranscriptCell>, u: int, a: int)
    requires
        0 <= u < a <= cells.len(),
        cells[u].is_user(),
        forall|t: int| u < t < a ==> !(#[trigger] cells[t]).is_user(),
    ensures
        reply_has_assistant(cells, a) <==> exists|k: int|
            a <= k < cells.len() && (#[trigger] cells[k]).is_assistant_message() && forall|t: int|
                a <= t <= k ==> !(#[trigger] cells[t]).is_user(),
    decreases cells.len() - a,
{
    if a < cells.len() && !cells[a].is_user() {
        lemma_reply_has_assistant_iff(cells, u, a + 1);
        if reply_has_assistant(cells, a) {
            if cells[a].is_assistant_message() {
                assert(forall|t: int| a <= t <= a ==> !(#[trigger] cells[t]).is_user());
            } else {
                let k = choose|k: int|
                    a + 1 <= k < cells.len() && (#[trigger] cells[k]).is_assistant_message()
                        && forall|t: int| a + 1 <= t <= k ==> !(#[trigger] cells[t]).is_user();
                assert(forall|t: int| a <= t <= k ==> !(#[trigger] cells[t]).is_user());
            }
        }
        if exists|k: int|
            a <= k < cells.len() && (#[trigger] cells[k]).is_assistant_message() && forall|t: int|
                a <= t <= k ==> !(#[trigger] cells[t]).is_user() {
            let k = choose|k: int|
                a <= k < cells.len() && (#[trigger] cells[k]).is_assistant_message() && forall|
                    t: int,
                | a <= t <= k ==> !(#[trigger] cells[t]).is_user();
            if k > a {
                assert(forall|t: int| a + 1 <= t <= k ==> !(#[trigger] cells[t]).is_user());
            }
        }
    } else if a < cells.len() {
        if exists|k: int|
            a <= k < cells.len() && (#[trigger] cells[k]).is_assistant_message() && forall|t: int|
                a <= t <= k ==> !(#[trigger] cells[t]).is_user() {
            let k = choose|k: int|
                a <= k < cells.len() && (#[trigger] cells[k]).is_assistant_message() && forall|
                    t: int,
                | a <= t <= k ==> !(#[trigger] cells[t]).is_user();
            assert(!cells[a].is_user());
        }
    }
}

/// Every cell after a user message belongs to an assistant response exactly
/// when that reply holds an assistant message cell, whatever cell opens the
/// reply (tool activity, status, or assistant text).
pub proof fn lemma_reply_with_assistant_output_is_a_message(
    cells: Seq<TranscriptCell>,
    u: int,
    i: int,
)
    requires
        0 <= u < i < cells.len(),
        cells[u].is_user(),
        forall|t: int| u < t <= i ==> !(#[trigger] cells[t]).is_user(),
    ensures
        message_id_spec(cells, i) is Some <==> exists|k: int|
            u < k < cells.len() && (#[trigger] cells[k]).is_assistant_message() && forall|t: int|
                u < t <= k ==> !(#[trigger] cells[t]).is_user(),
        message_id_spec(cells, i) matches Some(m) ==> m.kind == TranscriptMessageKind::Assistant,
{
    lemma_owner_in_reply(cells, u, i);
    lemma_reply_has_assistant_iff(cells, u, u + 1);
}

/// Every message of a transcript can be selected at exactly one cell.
pub proof fn lemma_every_message_is_selectable(cells: Seq<TranscriptCell>, i: int)
    requires
        0 <= i < cells.len() <= usize::MAX,
        message_id_spec(cells, i) is Some,
    ensures
        exists|s: int|
            #[trigger] is_selectable_message_start_spec(cells, message_ids_spec(cells), s)
                && message_id_spec(cells, s) == message_id_spec(cells, i),
        forall|s: int, t: int|
            #[trigger] is_selectable_message_start_spec(cells, message_ids_spec(cells), s)
                && #[trigger] is_selectable_message_start_spec(cells, message_ids_spec(cells), t)
                && message_id_spec(cells, s) == message_id_spec(cells, i) && message_id_spec(
                cells,
                t,
            ) == message_id_spec(cells, i) ==> s == t,
{
    let ids = message_ids_spec(cells);
    assert forall|s: int, t: int|
        #[trigger] is_selectable_message_start_spec(cells, ids, s)
            && #[trigger] is_selectable_message_start_spec(cells, ids, t) && message_id_spec(
            cells,
            s,
        ) == message_id_spec(cells, i) && message_id_spec(cells, t) == message_id_spec(
            cells,
            i,
        ) implies s == t by {
        lemma_one_selectable_start(cells, ids, s, t);
    }
    if cells[i].is_user() {
        lemma_earliest_text_cell(cells, ids, i);
    } else {
        lemma_owner_facts(cells, i);
        let u = owning_user(cells, i)->0;
        lemma_reply_has_assistant_iff(cells, u, u + 1);
        let k = choose|k: int|
            u + 1 <= k < cells.len() && (#[trigger] cells[k]).is_assistant_message() && forall|
                t: int,
            | u + 1 <= t <= k ==> !(#[trigger] cells[t]).is_user();
        lemma_owner_in_reply(cells, u, k);
        assert(message_id_spec(cells, k) == message_id_spec(cells, i));
        lemma_earliest_text_cell(cells, ids, k);
        let s = choose|s: int|
            0 <= s <= k && #[trigger] is_selectable_message_start_spec(cells, ids, s) && ids[s]
                == ids[k];
        assert(message_id_spec(cells, s) == message_id_spec(cells, i));
    }
}

/// The placeholder at a cell that has a summary is the label of the summary
/// stored at that same cell.
pub proof fn lemma_placeholder_is_own_summary_label(
    ids: Seq<Option<TranscriptMessageId>>,
    summaries: Seq<Option<TranscriptFoldSummary>>,
    i: int,
)
    requires
        0 <= i < ids.len(),
        ids[i] is Some,
        i < summaries.len(),
        summaries[i] is Some,
    ensures
        placeholder_spec(ids, summaries, i) == summary_label_spec(summaries[i]->0),
{
}

/// The placeholder of a cell depends only on what is stored at that cell:
/// the kind of its message and its summary, not the message's ordinal nor
/// the summaries of other cells.
pub proof fn lemma_placeholder_is_local(
    ids: Seq<Option<TranscriptMessageId>>,
    summaries: Seq<Option<TranscriptFoldSummary>>,
    other_ids: Seq<Option<TranscriptMessageId>>,
    other_summaries: Seq<Option<TranscriptFoldSummary>>,
    i: int,
)
    requires
        0 <= i < ids.len(),
        i < other_ids.len(),
        ids[i] is Some,
        other_ids[i] is Some,
        ids[i]->0.kind == other_ids[i]->0.kind,
        (i < summaries.len()) == (i < other_summaries.len()),
        i < summaries.len() ==> summaries[i] == other_summaries[i],
    ensures
        placeholder_spec(ids, summaries, i) == placeholder_spec(other_ids, other_summaries, i),
{
}

/// Componentwise sum of two totals.
pub open spec fn add_totals(a: (int, int, int, int), b: (int, int, int, int)) -> (
    int,
    int,
    int,
    int,
) {
    (a.0 + b.0, a.1 + b.1, a.2 + b.2, a.3 + b.3)
}

proof fn lemma_summary_totals_prefix(
    cells: Seq<TranscriptCell>,
    ids: Seq<Option<TranscriptMessageId>>,
    more_cells: Seq<TranscriptCell>,
    more_ids: Seq<Option<TranscriptMessageId>>,
    m: TranscriptMessageId,
    n: int,
)
    requires
        cells.len() == ids.len(),
        n <= cells.len(),
    ensures
        summary_totals(cells + more_cells, ids + more_ids, m, n) == summary_totals(cells, ids, m, n),
    decreases n,
{
    if n > 0 {
        lemma_summary_totals_prefix(cells, ids, more_cells, more_ids, m, n - 1);
        assert((cells + more_cells)[n - 1] == cells[n - 1]);
        assert((ids + more_ids)[n - 1] == ids[n - 1]);
    }
}

proof fn lemma_summary_totals_split(
    cells: Seq<TranscriptCell>,
    ids: Seq<Option<TranscriptMessageId>>,
    more_cells: Seq<TranscriptCell>,
    more_ids: Seq<Option<TranscriptMessageId>>,
    m: TranscriptMessageId,
    n: int,
)
    requires
        cells.len() == ids.len(),
        more_cells.len() == more_ids.len(),
        0 <= n <= more_cells.len(),
    ensures
        summary_totals(cells + more_cells, ids + more_ids, m, cells.len() + n) == add_totals(
            summary_totals(cells, ids, m, cells.len() as int),
            summary_totals(more_cells, more_ids, m, n),
        ),
    decreases n,
{
    if n == 0 {
        lemma_summary_totals_prefix(cells, ids, more_cells, more_ids, m, cells.len() as int);
    } else {
        lemma_summary_totals_split(cells, ids, more_cells, more_ids, m, n - 1);
        assert((cells + more_cells)[cells.len() + n - 1] == more_cells[n - 1]);
        assert((ids + more_ids)[cells.len() + n - 1] == more_ids[n - 1]);
    }
}

/// Summaries add up over a transcript split in two: every count of a
/// message (lines, characters, tool calls, related items) over the whole
/// transcript is the sum of its counts over the two parts.
pub proof fn lemma_summary_totals_add_up(
    cells: Seq<TranscriptCell>,
    ids: Seq<Option<TranscriptMessageId>>,
    more_cells: Seq<TranscriptCell>,
    more_ids: Seq<Option<TranscriptMessageId>>,
    m: TranscriptMessageId,
)
    requires
        cells.len() == ids.len(),
        more_cells.len() == more_ids.len(),
    ensures
        summary_totals(
            cells + more_cells,
            ids + more_ids,
            m,
            paired_len(cells + more_cells, ids + more_ids),
        ) == add_totals(
            summary_totals(cells, ids, m, paired_len(cells, ids)),
            summary_totals(more_cells, more_ids, m, paired_len(more_cells, more_ids)),
        ),
{
    lemma_summary_totals_split(cells, ids, more_cells, more_ids, m, more_cells.len() as int);
}

/// One cell's contribution to the summary of message `m`: a cell of `m` that
/// shows its text adds its lines and characters; any other cell of `m` adds
/// all its tool calls, and one related item when it shows none; cells of
/// other messages add nothing.
pub proof fn lemma_summary_of_one_cell(
    cell: TranscriptCell,
    id: Option<TranscriptMessageId>,
    m: TranscriptMessageId,
)
    ensures
        summary_totals(seq![cell], seq![id], m, 1) == if id != Some(m) {
            (0int, 0int, 0int, 0int)
        } else if shows_message_text(cell, m.kind) {
            (cell.raw_lines@.len() as int, line_chars(cell.raw_lines@), 0int, 0int)
        } else {
            (0int, 0int, cell.tool_calls as int, if cell.tool_calls == 0 {
                1int
            } else {
                0int
            })
        },
{
    assert(summary_totals(seq![cell], seq![id], m, 0) == (0int, 0int, 0int, 0int));
}

proof fn lemma_user_with_count(cells: Seq<TranscriptCell>, i: int, o: nat)
    requires
        0 <= i <= cells.len(),
        users_before(cells, i) == o + 1,
    ensures
        exists|j: int| 0 <= j < i && #[trigger] cells[j].is_user() && users_before(cells, j) == o,
    decreases i,
{
    if cells[i - 1].is_user() && users_before(cells, i - 1) == o {
        assert(cells[i - 1].is_user());
    } else {
        lemma_user_with_count(cells, i - 1, o);
        let j = choose|j: int|
            0 <= j < i - 1 && #[trigger] cells[j].is_user() && users_before(cells, j) == o;
        assert(0 <= j < i && cells[j].is_user());
    }
}

proof fn lemma_answered_with_count(cells: Seq<TranscriptCell>, i: int, o: nat)
    requires
        0 <= i <= cells.len(),
        answered_before(cells, i) == o + 1,
    ensures
        exists|j: int|
            0 <= j < i && #[trigger] cells[j].is_user() && reply_has_assistant(cells, j + 1)
                && answered_before(cells, j) == o,
    decreases i,
{
    if cells[i - 1].is_user() && reply_has_assistant(cells, i) && answered_before(cells, i - 1)
        == o {
        assert(cells[i - 1].is_user());
    } else {
        lemma_answered_with_count(cells, i - 1, o);
        let j = choose|j: int|
            0 <= j < i - 1 && #[trigger] cells[j].is_user() && reply_has_assistant(cells, j + 1)
                && answered_before(cells, j) == o;
        assert(0 <= j < i && cells[j].is_user());
    }
}

/// Messages of each kind are numbered in order of appearance from 0, with
/// no gaps: a message with ordinal `o > 0` comes after a message of the same
/// kind with ordinal `o - 1`.
pub proof fn lemma_ordinals_have_no_gaps(cells: Seq<TranscriptCell>, i: int)
    requires
        0 <= i < cells.len() <= usize::MAX,
        message_id_spec(cells, i) is Some,
        message_id_spec(cells, i)->0.ordinal > 0,
    ensures
        exists|j: int|
            0 <= j < i && #[trigger] message_id_spec(cells, j) == Some(
                TranscriptMessageId {
                    kind: message_id_spec(cells, i)->0.kind,
                    ordinal: (message_id_spec(cells, i)->0.ordinal - 1) as usize,
                },
            ),
{
    let m = message_id_spec(cells, i)->0;
    if cells[i].is_user() {
        lemma_users_before_bound(cells, i);
        lemma_user_with_count(cells, i, (users_before(cells, i) - 1) as nat);
        let j = choose|j: int|
            0 <= j < i && #[trigger] cells[j].is_user() && users_before(cells, j) == (
            users_before(cells, i) - 1) as nat;
        assert(message_id_spec(cells, j) == Some(
            TranscriptMessageId { kind: m.kind, ordinal: (m.ordinal - 1) as usize },
        ));
    } else {
        lemma_owner_facts(cells, i);
        let u = owning_user(cells, i)->0;
        lemma_users_before_bound(cells, u);
        lemma_answered_with_count(cells, u, (answered_before(cells, u) - 1) as nat);
        let j = choose|j: int|
            0 <= j < u && #[trigger] cells[j].is_user() && reply_has_assistant(cells, j + 1)
                && answered_before(cells, j) == (answered_before(cells, u) - 1) as nat;
        lemma_users_before_bound(cells, j);
        assert(!cells[j + 1].is_user());
        lemma_owner_in_reply(cells, j, j + 1);
        assert(message_id_spec(cells, j + 1) == Some(
            TranscriptMessageId { kind: m.kind, ordinal: (m.ordinal - 1) as usize },
        ));
        assert(j + 1 < i);
    }
}

/// A user message's ordinal is the number of user messages before it.
pub proof fn lemma_user_ordinal_counts_earlier_users(cells: Seq<TranscriptCell>, i: int)
    requires
        0 <= i < cells.len() <= usize::MAX,
        cells[i].is_user(),
    ensures
        message_id_spec(cells, i) == Some(
            TranscriptMessageId {
                kind: TranscriptMessageKind::User,
                ordinal: cells.take(i).filter(|c: TranscriptCell| c.is_user()).len() as usize,
            },
        ),
{
    lemma_users_before_filter(cells, i);
}

proof fn lemma_users_before_filter(cells: Seq<TranscriptCell>, n: int)
    requires
        0 <= n <= cells.len(),
    ensures
        users_before(cells, n) == cells.take(n).filter(|c: TranscriptCell| c.is_user()).len(),
    decreases n,
{
    reveal_with_fuel(Seq::filter, 1);
    if n > 0 {
        lemma_users_before_filter(cells, n - 1);
        assert(cells.take(n).drop_last() =~= cells.take(n - 1));
    }
}

} // verus!
