//! Which messages of one transcript are folded.

use std::collections::BTreeSet;

use vstd::prelude::*;
use vstd::std_specs::btree::increasing_seq;
use vstd::std_specs::cmp::OrdSpec;
use vstd::std_specs::btree::spec_btree_keys_iter;
use vstd::std_specs::iter::IteratorSpec;

use crate::message::TranscriptMessageId;
use crate::message::TranscriptMessageKind;

verus! {

broadcast use {vstd::std_specs::btree::group_btree_axioms, vstd::laws_cmp::group_laws_cmp};

/// The key under which a message is stored: its kind as a number (user
/// first) and its ordinal.
pub open spec fn message_key(m: TranscriptMessageId) -> (u8, usize) {
    (
        match m.kind {
            TranscriptMessageKind::User => 0u8,
            TranscriptMessageKind::Assistant => 1u8,
        },
        m.ordinal,
    )
}

/// The message stored under a key.
pub open spec fn key_message(k: (u8, usize)) -> TranscriptMessageId {
    TranscriptMessageId {
        kind: if k.0 == 0 {
            TranscriptMessageKind::User
        } else {
            TranscriptMessageKind::Assistant
        },
        ordinal: k.1,
    }
}

/// Keys in ascending order: by kind (user first), then by ordinal.
pub open spec fn key_less(a: (u8, usize), b: (u8, usize)) -> bool {
    a.0 < b.0 || (a.0 == b.0 && a.1 < b.1)
}

/// A sequence of keys that the set's iterator yields in increasing order is
/// ascending by kind, then ordinal.
proof fn lemma_increasing_keys(seq: Seq<&(u8, usize)>)
    requires
        increasing_seq(seq),
    ensures
        forall|i: int, j: int|
            0 <= i < j < seq.len() ==> key_less(*#[trigger] seq[i], *#[trigger] seq[j]),
{
    assert(vstd::laws_cmp::obeys_cmp::<&(u8, usize)>());
    assert forall|i: int, j: int| 0 <= i < j < seq.len() implies key_less(
        *#[trigger] seq[i],
        *#[trigger] seq[j],
    ) by {
        assert(OrdSpec::cmp_spec(&seq[i], &seq[j]) is Less);
    }
}

/// The fold state after toggling `m`: a folded message is expanded, any
/// other is folded.
pub open spec fn toggled(s: Set<TranscriptMessageId>, m: TranscriptMessageId) -> Set<
    TranscriptMessageId,
> {
    if s.contains(m) {
        s.remove(m)
    } else {
        s.insert(m)
    }
}

fn key_of(m: TranscriptMessageId) -> (k: (u8, usize))
    ensures
        k == message_key(m),
{
    match m.kind {
        TranscriptMessageKind::User => (0u8, m.ordinal),
        TranscriptMessageKind::Assistant => (1u8, m.ordinal),
    }
}

fn message_of(k: (u8, usize)) -> (m: TranscriptMessageId)
    ensures
        m == key_message(k),
{
    if k.0 == 0 {
        TranscriptMessageId { kind: TranscriptMessageKind::User, ordinal: k.1 }
    } else {
        TranscriptMessageId { kind: TranscriptMessageKind::Assistant, ordinal: k.1 }
    }
}

/// The set of folded messages of one transcript.
///
/// Folding never happens on its own: a message is folded only by `toggle`
/// or `collapse_all`.
#[derive(Debug)]
pub struct TranscriptFoldState {
    collapsed_messages: BTreeSet<(u8, usize)>,
}

impl View for TranscriptFoldState {
    type V = Set<TranscriptMessageId>;

    closed spec fn view(&self) -> Set<TranscriptMessageId> {
        Set::new(|m: TranscriptMessageId| self.collapsed_messages@.contains(message_key(m)))
    }
}

impl TranscriptFoldState {
    /// Every stored key is the key of a message.
    #[verifier::type_invariant]
    closed spec fn keys_are_messages(self) -> bool {
        forall|k: (u8, usize)| #[trigger] self.collapsed_messages@.contains(k) ==> k.0 < 2
    }

    /// A state with nothing folded.
    pub fn new() -> (res: Self)
        ensures
            res@ == Set::<TranscriptMessageId>::empty(),
    {
        let res = TranscriptFoldState { collapsed_messages: BTreeSet::new() };
        assert(res@ =~= Set::<TranscriptMessageId>::empty());
        res
    }

    /// Whether `message` is folded.
    pub fn is_collapsed(&self, message: TranscriptMessageId) -> (res: bool)
        ensures
            res == self@.contains(message),
    {
        let key = key_of(message);
        self.collapsed_messages.contains(&key)
    }

    /// Folds `message` when it is expanded, and expands it when it is folded.
    pub fn toggle(&mut self, message: TranscriptMessageId)
        ensures
            final(self)@ == toggled(old(self)@, message),
    {
        proof {
            use_type_invariant(&*self);
        }
        let key = key_of(message);
        let mut keys = BTreeSet::new();
        std::mem::swap(&mut keys, &mut self.collapsed_messages);
        if !keys.remove(&key) {
            keys.insert(key);
        }
        assert forall|k: (u8, usize)| #[trigger] keys@.contains(k) implies k.0 < 2 by {
            if k != key {
                assert(old(self).collapsed_messages@.contains(k));
            }
        }
        self.collapsed_messages = keys;
        proof {
            let expected = toggled(old(self)@, message);
            assert forall|m: TranscriptMessageId| #[trigger] self@.contains(m) == expected.contains(
                m,
            ) by {
                if m != message {
                    assert(message_key(m) != message_key(message));
                }
            }
            assert(self@ =~= expected);
        }
    }

    /// Folds every message of `messages`; folded messages stay folded.
    pub fn collapse_all(&mut self, messages: &[TranscriptMessageId])
        ensures
            final(self)@ == old(self)@.union(messages@.to_set()),
    {
        proof {
            use_type_invariant(&*self);
        }
        let mut keys = BTreeSet::new();
        std::mem::swap(&mut keys, &mut self.collapsed_messages);
        let mut i: usize = 0;
        while i < messages.len()
            invariant
                i <= messages@.len(),
                forall|k: (u8, usize)| #[trigger] keys@.contains(k) ==> k.0 < 2,
                forall|m: TranscriptMessageId|
                    #[trigger] keys@.contains(message_key(m)) <==> (old(self)@.contains(m)
                        || exists|j: int| 0 <= j < i && messages@[j] == m),
            decreases messages@.len() - i,
        {
            let key = key_of(messages[i]);
            keys.insert(key);
            proof {
                assert forall|m: TranscriptMessageId| #[trigger]
                    keys@.contains(message_key(m)) <==> (old(self)@.contains(m) || exists|j: int|
                        0 <= j < i + 1 && messages@[j] == m) by {
                    if m == messages@[i as int] {
                        assert(0 <= i < i + 1 && messages@[i as int] == m);
                    } else {
                        assert(message_key(m) != key);
                        if exists|j: int| 0 <= j < i + 1 && messages@[j] == m {
                            let j = choose|j: int| 0 <= j < i + 1 && messages@[j] == m;
                            assert(0 <= j < i && messages@[j] == m);
                        }
                    }
                }
            }
            i += 1;
        }
        self.collapsed_messages = keys;
        proof {
            let expected = old(self)@.union(messages@.to_set());
            assert forall|m: TranscriptMessageId| #[trigger] self@.contains(m) == expected.contains(
                m,
            ) by {
                if messages@.to_set().contains(m) {
                    let j = choose|j: int| 0 <= j < messages@.len() && messages@[j] == m;
                    assert(0 <= j < i && messages@[j] == m);
                }
                if exists|j: int| 0 <= j < i && messages@[j] == m {
                    let j = choose|j: int| 0 <= j < i && messages@[j] == m;
                    assert(messages@.contains(m));
                }
            }
            assert(self@ =~= expected);
        }
    }

    /// Expands every message.
    pub fn expand_all(&mut self)
        ensures
            final(self)@ == Set::<TranscriptMessageId>::empty(),
    {
        self.collapsed_messages = BTreeSet::new();
        assert(self@ =~= Set::<TranscriptMessageId>::empty());
    }

    /// The folded messages, each once, users first and then by ordinal.
    pub fn collapsed_messages(&self) -> (res: Vec<TranscriptMessageId>)
        ensures
            res@.no_duplicates(),
            res@.to_set() == self@,
            forall|i: int, j: int|
                0 <= i < j < res@.len() ==> key_less(
                    message_key(#[trigger] res@[i]),
                    message_key(#[trigger] res@[j]),
                ),
    {
        proof {
            use_type_invariant(self);
        }
        let mut res: Vec<TranscriptMessageId> = Vec::new();
        let ghost keys = self.collapsed_messages@;
        for k in it: self.collapsed_messages.iter()
            invariant
                res@.len() == it.index(),
                forall|j: int|
                    0 <= j < res@.len() ==> #[trigger] res@[j] == key_message(*it.seq()[j]),
                forall|k: (u8, usize)| #[trigger] keys.contains(k) ==> k.0 < 2,
                keys == self.collapsed_messages@,
        {
            res.push(message_of(*k));
        }
        proof {
            let seq = spec_btree_keys_iter(&self.collapsed_messages).remaining();
            assert(seq.unref().to_set() == keys);
            assert(res@.len() == seq.len());
            assert forall|j: int| 0 <= j < seq.len() implies keys.contains(*#[trigger] seq[j]) by {
                assert(seq.unref().to_set().contains(seq.unref()[j]));
            }
            assert forall|i: int, j: int|
                0 <= i < res@.len() && 0 <= j < res@.len() && i != j implies res@[i]
                != res@[j] by {
                assert(keys.contains(*seq[i]) && keys.contains(*seq[j]));
                assert(seq[i] != seq[j]);
            }
            assert forall|m: TranscriptMessageId| #[trigger] res@.to_set().contains(m) == self@.contains(
                m,
            ) by {
                if self@.contains(m) {
                    assert(seq.unref().to_set().contains(message_key(m)));
                    let j = choose|j: int|
                        0 <= j < seq.unref().len() && seq.unref()[j] == message_key(m);
                    assert(res@[j] == m);
                    assert(res@.contains(m));
                }
                if res@.to_set().contains(m) {
                    let j = choose|j: int| 0 <= j < res@.len() && res@[j] == m;
                    assert(keys.contains(*seq[j]));
                    assert(*seq[j] == message_key(m));
                }
            }
            assert(res@.to_set() =~= self@);
            lemma_increasing_keys(seq);
            assert forall|i: int, j: int| 0 <= i < j < res@.len() implies key_less(
                message_key(#[trigger] res@[i]),
                message_key(#[trigger] res@[j]),
            ) by {
                assert(keys.contains(*seq[i]) && keys.contains(*seq[j]));
                assert(key_less(*seq[i], *seq[j]));
            }
        }
        res
    }
}

impl Default for TranscriptFoldState {
    /// A state with nothing folded.
    fn default() -> (res: Self)
        ensures
            res@ == Set::<TranscriptMessageId>::empty(),
    {
        Self::new()
    }
}

impl TranscriptFoldState {
    /// Whether two states fold the same messages.
    pub fn same_folds(&self, other: &TranscriptFoldState) -> (res: bool)
        ensures
            res == (self@ == other@),
    {
        let mine = self.collapsed_messages();
        let mut i: usize = 0;
        while i < mine.len()
            invariant
                i <= mine@.len(),
                mine@.to_set() == self@,
                forall|j: int| 0 <= j < i ==> other@.contains(#[trigger] mine@[j]),
            decreases mine@.len() - i,
        {
            if !other.is_collapsed(mine[i]) {
                proof {
                    assert(mine@.to_set().contains(mine@[i as int]));
                }
                return false;
            }
            i += 1;
        }
        let theirs = other.collapsed_messages();
        let mut i: usize = 0;
        while i < theirs.len()
            invariant
                i <= theirs@.len(),
                theirs@.to_set() == other@,
                mine@.to_set() == self@,
                forall|j: int| 0 <= j < mine@.len() ==> other@.contains(#[trigger] mine@[j]),
                forall|j: int| 0 <= j < i ==> self@.contains(#[trigger] theirs@[j]),
            decreases theirs@.len() - i,
        {
            if !self.is_collapsed(theirs[i]) {
                proof {
                    assert(theirs@.to_set().contains(theirs@[i as int]));
                }
                return false;
            }
            i += 1;
        }
        proof {
            assert forall|m: TranscriptMessageId| self@.contains(m) == other@.contains(m) by {
                if self@.contains(m) {
                    assert(mine@.to_set().contains(m));
                    let j = choose|j: int| 0 <= j < mine@.len() && mine@[j] == m;
                }
                if other@.contains(m) {
                    assert(theirs@.to_set().contains(m));
                    let j = choose|j: int| 0 <= j < theirs@.len() && theirs@[j] == m;
                }
            }
            assert(self@ =~= other@);
        }
        true
    }
}

impl PartialEq for TranscriptFoldState {
    fn eq(&self, other: &Self) -> (res: bool) {
        self.same_folds(other)
    }
}

impl vstd::std_specs::cmp::PartialEqSpecImpl for TranscriptFoldState {
    open spec fn obeys_eq_spec() -> bool {
        true
    }

    open spec fn eq_spec(&self, other: &Self) -> bool {
        self@ == other@
    }
}

impl Eq for TranscriptFoldState {

}

impl Clone for TranscriptFoldState {
    fn clone(&self) -> (res: Self)
        ensures
            res@ == self@,
    {
        proof {
            use_type_invariant(self);
        }
        TranscriptFoldState { collapsed_messages: self.collapsed_messages.clone() }
    }
}

/// Folding is reversible: toggling a message twice restores the fold state.
pub proof fn lemma_toggle_twice(s: Set<TranscriptMessageId>, m: TranscriptMessageId)
    ensures
        toggled(toggled(s, m), m) == s,
{
    assert(toggled(toggled(s, m), m) =~= s);
}

/// Toggling one message leaves every other message as it was.
pub proof fn lemma_toggle_leaves_others(
    s: Set<TranscriptMessageId>,
    m: TranscriptMessageId,
    other: TranscriptMessageId,
)
    requires
        other != m,
    ensures
        toggled(s, m).contains(other) == s.contains(other),
        toggled(s, m).contains(m) != s.contains(m),
{
}

} // verus!
