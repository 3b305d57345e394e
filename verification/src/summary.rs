//! What a folded message is replaced with: a one-line summary label.

use vstd::prelude::*;

use crate::message::TranscriptMessageKind;

verus! {

/// Counts shown in the placeholder of a folded message.
#[derive(Clone, Copy, Debug, PartialEq, Eq, Structural)]
pub struct TranscriptFoldSummary {
    pub kind: TranscriptMessageKind,
    /// Lines of message text.
    pub text_lines: usize,
    /// Characters of message text.
    pub text_chars: usize,
    /// Tool calls shown by the message's other cells.
    pub tool_calls: usize,
    /// Other cells of the message that show no tool call.
    pub related_items: usize,
}

/// The decimal numeral of a single digit.
pub open spec fn digit_spec(d: nat) -> Seq<char> {
    if d == 0 {
        "0"@
    } else if d == 1 {
        "1"@
    } else if d == 2 {
        "2"@
    } else if d == 3 {
        "3"@
    } else if d == 4 {
        "4"@
    } else if d == 5 {
        "5"@
    } else if d == 6 {
        "6"@
    } else if d == 7 {
        "7"@
    } else if d == 8 {
        "8"@
    } else {
        "9"@
    }
}

/// The decimal numeral of `n`, without leading zeros.
pub open spec fn decimal_spec(n: nat) -> Seq<char>
    decreases n,
{
    if n < 10 {
        digit_spec(n)
    } else {
        decimal_spec(n / 10) + digit_spec(n % 10)
    }
}

/// `count` followed by the singular noun when it is one, else the plural.
pub open spec fn counted_spec(count: nat, singular: Seq<char>, plural: Seq<char>) -> Seq<char> {
    decimal_spec(count) + " "@ + if count == 1 {
        singular
    } else {
        plural
    }
}

/// The noun that names a folded message of this kind.
pub open spec fn noun_spec(kind: TranscriptMessageKind) -> Seq<char> {
    match kind {
        TranscriptMessageKind::User => "User message"@,
        TranscriptMessageKind::Assistant => "Assistant response"@,
    }
}

/// The placeholder text: the noun, then the tool calls when there are any,
/// the line and character counts, and the related items when there are any,
/// separated by middle dots.
pub open spec fn summary_label_spec(s: TranscriptFoldSummary) -> Seq<char> {
    "▶ "@ + noun_spec(s.kind) + " collapsed · "@ + (if s.tool_calls > 0 {
        counted_spec(s.tool_calls as nat, "tool call"@, "tool calls"@) + " · "@
    } else {
        Seq::empty()
    }) + counted_spec(s.text_lines as nat, "line"@, "lines"@) + " · "@ + counted_spec(
        s.text_chars as nat,
        "char"@,
        "chars"@,
    ) + (if s.related_items > 0 {
        " · "@ + counted_spec(s.related_items as nat, "related item"@, "related items"@)
    } else {
        Seq::empty()
    })
}

fn digit(d: usize) -> (res: &'static str)
    requires
        d < 10,
    ensures
        res@ == digit_spec(d as nat),
{
    if d == 0 {
        "0"
    } else if d == 1 {
        "1"
    } else if d == 2 {
        "2"
    } else if d == 3 {
        "3"
    } else if d == 4 {
        "4"
    } else if d == 5 {
        "5"
    } else if d == 6 {
        "6"
    } else if d == 7 {
        "7"
    } else if d == 8 {
        "8"
    } else {
        "9"
    }
}

fn append_decimal(out: &mut String, n: usize)
    ensures
        final(out)@ == old(out)@ + decimal_spec(n as nat),
    decreases n,
{
    if n >= 10 {
        append_decimal(out, n / 10);
    }
    out.append(digit(n % 10));
    proof {
        if n >= 10 {
            assert(final(out)@ =~= old(out)@ + decimal_spec(n as nat));
        }
    }
}

/// `count` and the noun that agrees with it, such as "1 line" or "3 lines".
pub fn counted(count: usize, singular: &str, plural: &str) -> (res: String)
    ensures
        res@ == counted_spec(count as nat, singular@, plural@),
{
    let mut out = String::new();
    append_decimal(&mut out, count);
    out.append(" ");
    if count == 1 {
        out.append(singular);
    } else {
        out.append(plural);
    }
    out
}

impl TranscriptFoldSummary {
    /// The placeholder line shown in place of the folded message.
    pub fn label(&self) -> (res: String)
        ensures
            res@ == summary_label_spec(*self),
    {
        let noun = match self.kind {
            TranscriptMessageKind::User => "User message",
            TranscriptMessageKind::Assistant => "Assistant response",
        };
        let mut out = String::new();
        out.append("▶ ");
        out.append(noun);
        out.append(" collapsed · ");
        let ghost head = out@;
        if self.tool_calls > 0 {
            let tools = counted(self.tool_calls, "tool call", "tool calls");
            out.append(tools.as_str());
            out.append(" · ");
        }
        assert(out@ =~= head + (if self.tool_calls > 0 {
            counted_spec(self.tool_calls as nat, "tool call"@, "tool calls"@) + " · "@
        } else {
            Seq::empty()
        }));
        let lines = counted(self.text_lines, "line", "lines");
        out.append(lines.as_str());
        out.append(" · ");
        let chars = counted(self.text_chars, "char", "chars");
        out.append(chars.as_str());
        let ghost body = out@;
        if self.related_items > 0 {
            out.append(" · ");
            let related = counted(self.related_items, "related item", "related items");
            out.append(related.as_str());
        }
        assert(out@ =~= body + (if self.related_items > 0 {
            " · "@ + counted_spec(self.related_items as nat, "related item"@, "related items"@)
        } else {
            Seq::empty()
        }));
        out
    }
}

/// The value of a decimal digit character, or -1 for any other character.
pub open spec fn digit_value(c: char) -> int {
    if c == '0' {
        0
    } else if c == '1' {
        1
    } else if c == '2' {
        2
    } else if c == '3' {
        3
    } else if c == '4' {
        4
    } else if c == '5' {
        5
    } else if c == '6' {
        6
    } else if c == '7' {
        7
    } else if c == '8' {
        8
    } else if c == '9' {
        9
    } else {
        -1
    }
}

/// The number that a string of decimal digits denotes, read left to right.
pub open spec fn numeral_value(s: Seq<char>) -> int
    decreases s.len(),
{
    if s.len() == 0 {
        0
    } else {
        numeral_value(s.drop_last()) * 10 + digit_value(s.last())
    }
}

/// A standard decimal numeral: one or more digits, and no leading zero
/// unless the numeral is "0" itself.
pub open spec fn is_numeral(s: Seq<char>) -> bool {
    &&& s.len() > 0
    &&& forall|i: int| 0 <= i < s.len() ==> 0 <= #[trigger] digit_value(s[i])
    &&& (s.len() > 1 ==> s[0] != '0')
}

proof fn lemma_digit_spec(d: nat)
    requires
        d < 10,
    ensures
        digit_spec(d).len() == 1,
        digit_value(digit_spec(d)[0]) == d,
        d != 0 ==> digit_spec(d)[0] != '0',
{
    reveal_strlit("0");
    reveal_strlit("1");
    reveal_strlit("2");
    reveal_strlit("3");
    reveal_strlit("4");
    reveal_strlit("5");
    reveal_strlit("6");
    reveal_strlit("7");
    reveal_strlit("8");
    reveal_strlit("9");
}

/// The numeral of a count is its standard base-10 representation: it is a
/// string of digits without a leading zero, and it reads back as the count.
pub proof fn lemma_decimal_reads_back(n: nat)
    ensures
        is_numeral(decimal_spec(n)),
        numeral_value(decimal_spec(n)) == n,
        n != 0 ==> decimal_spec(n)[0] != '0',
    decreases n,
{
    if n < 10 {
        lemma_digit_spec(n);
        let s = decimal_spec(n);
        assert(s.drop_last() =~= Seq::<char>::empty());
        assert(numeral_value(s.drop_last()) == 0);
        assert(s.last() == s[0]);
        assert(numeral_value(s) == numeral_value(s.drop_last()) * 10 + digit_value(s.last()));
    } else {
        lemma_decimal_reads_back(n / 10);
        lemma_digit_spec(n % 10);
        let high = decimal_spec(n / 10);
        let s = decimal_spec(n);
        assert(s == high + digit_spec(n % 10));
        assert(s.drop_last() =~= high);
        assert(s.last() == digit_spec(n % 10)[0]);
        assert(s[0] == high[0]);
        assert(numeral_value(s) == numeral_value(s.drop_last()) * 10 + digit_value(s.last()));
        assert(n == (n / 10) * 10 + n % 10);
        assert forall|i: int| 0 <= i < s.len() implies 0 <= #[trigger] digit_value(s[i]) by {
            if i < high.len() {
                assert(s[i] == high[i]);
            }
        }
    }
}

/// A counted phrase starts with the count's numeral, which reads back as the
/// count, then a space, then the noun: singular exactly when the count is one.
pub proof fn lemma_counted_reads_back(n: nat, singular: Seq<char>, plural: Seq<char>)
    ensures
        ({
            let s = counted_spec(n, singular, plural);
            let k = decimal_spec(n).len() as int;
            &&& 0 < k < s.len()
            &&& is_numeral(s.take(k))
            &&& numeral_value(s.take(k)) == n
            &&& s[k] == ' '
            &&& s.skip(k + 1) == if n == 1 {
                singular
            } else {
                plural
            }
        }),
{
    lemma_decimal_reads_back(n);
    reveal_strlit(" ");
    let s = counted_spec(n, singular, plural);
    let d = decimal_spec(n);
    let k = d.len() as int;
    assert(s.take(k) =~= d);
    assert(s[k] == ' ');
    assert(s.skip(k + 1) =~= if n == 1 {
        singular
    } else {
        plural
    });
}

} // verus!
