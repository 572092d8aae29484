//! The address resolver of a selected mailbox: sequence numbers and UIDs on one
//! side, record identifiers on the other.
use vstd::prelude::*;

use crate::changes::{doc_id, Change};

verus! {

/// A visible message: its record identifier and its UID. Its sequence number is
/// its position in the mailbox, counting from 1.
#[derive(Clone, Copy, Debug, PartialEq, Eq, Structural)]
pub struct MailboxEntry {
    pub id: u32,
    pub uid: u32,
}

/// A resolved client address.
#[derive(Clone, Copy, Debug, PartialEq, Eq, Structural)]
pub struct ResolvedId {
    pub id: u32,
    pub seqnum: u32,
    pub uid: u32,
}

/// One end of a sequence-set range: a number, or `*` (the largest in use).
#[derive(Clone, Copy, Debug, PartialEq, Eq, Structural)]
pub enum SeqBound {
    Number(u32),
    Last,
}

/// A range `a:b` of a sequence set (a single number is `a:a`).
#[derive(Clone, Copy, Debug, PartialEq, Eq, Structural)]
pub struct SeqRange {
    pub start: SeqBound,
    pub end: SeqBound,
}

/// A set of sequence numbers or UIDs, as a client writes it.
pub struct SequenceSet {
    pub ranges: Vec<SeqRange>,
}

/// The state of a selected mailbox.
pub struct SelectedMailbox {
    /// The visible messages, in sequence order.
    pub entries: Vec<MailboxEntry>,
    /// UIDs of messages that were visible and have since been deleted.
    pub vanished: Vec<u32>,
    /// The UID that the next appended message receives.
    pub next_uid: u32,
}

/// The mathematical value of a selected mailbox.
pub struct MailboxModel {
    pub entries: Seq<MailboxEntry>,
    pub vanished: Seq<u32>,
    pub next_uid: u32,
}

impl View for SelectedMailbox {
    type V = MailboxModel;

    open spec fn view(&self) -> MailboxModel {
        MailboxModel { entries: self.entries@, vanished: self.vanished@, next_uid: self.next_uid }
    }
}

impl MailboxModel {
    /// UIDs ascend with sequence numbers, record identifiers are unique, every UID
    /// ever handed out lies below `next_uid`, and no vanished UID is live.
    pub open spec fn wf(self) -> bool {
        &&& self.entries.len() < u32::MAX
        &&& forall|i: int, j: int|
            0 <= i < j < self.entries.len() ==> #[trigger] self.entries[i].uid
                < #[trigger] self.entries[j].uid
        &&& forall|i: int, j: int|
            0 <= i < self.entries.len() && 0 <= j < self.entries.len() && i != j
                ==> #[trigger] self.entries[i].id != #[trigger] self.entries[j].id
        &&& forall|i: int| 0 <= i < self.entries.len() ==> #[trigger] self.entries[i].uid < self.next_uid
        &&& forall|k: int| 0 <= k < self.vanished.len() ==> #[trigger] self.vanished[k] < self.next_uid
        &&& forall|k: int, i: int|
            0 <= k < self.vanished.len() && 0 <= i < self.entries.len()
                ==> #[trigger] self.vanished[k] != #[trigger] self.entries[i].uid
    }

    pub open spec fn is_live_uid(self, u: u32) -> bool {
        exists|i: int| 0 <= i < self.entries.len() && #[trigger] self.entries[i].uid == u
    }

    pub open spec fn is_vanished_uid(self, u: u32) -> bool {
        self.vanished.contains(u)
    }
}

/// The index of the first entry with record identifier `id`, or -1.
pub open spec fn find_id(s: Seq<MailboxEntry>, id: u32) -> int
    decreases s.len(),
{
    if s.len() == 0 {
        -1
    } else if find_id(s.drop_last(), id) >= 0 {
        find_id(s.drop_last(), id)
    } else if s.last().id == id {
        s.len() - 1
    } else {
        -1
    }
}

/// The effect of one change-log entry on the mailbox: a deletion removes the
/// message (later ones move up one position) and records its UID as vanished; an
/// insertion of an unknown record appends it with the next UID, while UIDs last.
pub open spec fn sync_step(m: MailboxModel, c: Change) -> MailboxModel {
    match c {
        Change::Delete(x) => {
            let i = find_id(m.entries, doc_id(x));
            if i >= 0 {
                MailboxModel {
                    entries: m.entries.remove(i),
                    vanished: m.vanished.push(m.entries[i].uid),
                    next_uid: m.next_uid,
                }
            } else {
                m
            }
        },
        Change::Insert(x) => {
            if find_id(m.entries, doc_id(x)) < 0 && m.next_uid < u32::MAX && m.entries.len() + 1
                < u32::MAX {
                MailboxModel {
                    entries: m.entries.push(MailboxEntry { id: doc_id(x), uid: m.next_uid }),
                    vanished: m.vanished,
                    next_uid: (m.next_uid + 1) as u32,
                }
            } else {
                m
            }
        },
        _ => m,
    }
}

/// The mailbox after the first `k` changes.
pub open spec fn sync_all(m: MailboxModel, cs: Seq<Change>, k: int) -> MailboxModel
    decreases k,
{
    if k <= 0 {
        m
    } else {
        sync_step(sync_all(m, cs, k - 1), cs[k - 1])
    }
}

pub open spec fn bound_val(b: SeqBound, max: int) -> int {
    match b {
        SeqBound::Number(n) => n as int,
        SeqBound::Last => max,
    }
}

pub open spec fn in_range(r: SeqRange, v: int, max: int) -> bool {
    let a = bound_val(r.start, max);
    let b = bound_val(r.end, max);
    (a <= v && v <= b) || (b <= v && v <= a)
}

pub open spec fn in_set(set: Seq<SeqRange>, v: int, max: int) -> bool {
    exists|k: int| 0 <= k < set.len() && in_range(#[trigger] set[k], v, max)
}

/// What `*` stands for: the number of messages, or the largest UID (0 when empty).
pub open spec fn max_of(entries: Seq<MailboxEntry>, by_uid: bool) -> int {
    if !by_uid {
        entries.len() as int
    } else if entries.len() == 0 {
        0
    } else {
        entries.last().uid as int
    }
}

pub open spec fn key_of(entries: Seq<MailboxEntry>, i: int, by_uid: bool) -> int {
    if by_uid {
        entries[i].uid as int
    } else {
        i + 1
    }
}

/// The resolved addresses among the first `k` messages.
pub open spec fn resolve_prefix(
    entries: Seq<MailboxEntry>,
    set: Seq<SeqRange>,
    by_uid: bool,
    k: int,
) -> Seq<ResolvedId>
    decreases k,
{
    if k <= 0 {
        Seq::empty()
    } else {
        let prev = resolve_prefix(entries, set, by_uid, k - 1);
        if in_set(set, key_of(entries, k - 1, by_uid), max_of(entries, by_uid)) {
            prev.push(
                ResolvedId { id: entries[k - 1].id, seqnum: k as u32, uid: entries[k - 1].uid },
            )
        } else {
            prev
        }
    }
}

pub open spec fn resolve_spec(m: MailboxModel, set: Seq<SeqRange>, by_uid: bool) -> Seq<ResolvedId> {
    resolve_prefix(m.entries, set, by_uid, m.entries.len() as int)
}

/// The vanished UIDs among the first `k` that the set names.
pub open spec fn missing_prefix(m: MailboxModel, set: Seq<SeqRange>, k: int) -> Seq<u32>
    decreases k,
{
    if k <= 0 {
        Seq::empty()
    } else {
        let prev = missing_prefix(m, set, k - 1);
        if in_set(set, m.vanished[k - 1] as int, max_of(m.entries, true)) {
            prev.push(m.vanished[k - 1])
        } else {
            prev
        }
    }
}

/// The vanished UIDs that the set names; sequence numbers never name a vanished
/// message, so by sequence number there are none.
pub open spec fn missing_spec(m: MailboxModel, set: Seq<SeqRange>, by_uid: bool) -> Seq<u32> {
    if by_uid {
        missing_prefix(m, set, m.vanished.len() as int)
    } else {
        Seq::empty()
    }
}

fn bound_value(b: SeqBound, max: u32) -> (r: u32)
    ensures
        r as int == bound_val(b, max as int),
{
    match b {
        SeqBound::Number(n) => n,
        SeqBound::Last => max,
    }
}

impl SequenceSet {
    /// Tells whether `v` belongs to the set, `*` standing for `max`.
    pub fn contains(&self, v: u32, max: u32) -> (r: bool)
        ensures
            r == in_set(self.ranges@, v as int, max as int),
    {
        let mut k: usize = 0;
        while k < self.ranges.len()
            invariant
                k <= self.ranges@.len(),
                forall|j: int| 0 <= j < k ==> !in_range(#[trigger] self.ranges@[j], v as int, max as int),
            decreases self.ranges@.len() - k,
        {
            let r = self.ranges[k];
            let a = bound_value(r.start, max);
            let b = bound_value(r.end, max);
            if (a <= v && v <= b) || (b <= v && v <= a) {
                return true;
            }
            k = k + 1;
        }
        false
    }
}

impl SelectedMailbox {
    /// An empty mailbox whose first message will get UID `first_uid`.
    pub fn new(first_uid: u32) -> (r: SelectedMailbox)
        ensures
            r@.wf(),
            r@.entries.len() == 0,
            r@.vanished.len() == 0,
            r@.next_uid == first_uid,
    {
        SelectedMailbox { entries: Vec::new(), vanished: Vec::new(), next_uid: first_uid }
    }

    /// Tells whether the mailbox state is well formed.
    pub fn check(&self) -> (r: bool)
        ensures
            r == self@.wf(),
    {
        let n = self.entries.len();
        if n >= u32::MAX as usize {
            return false;
        }
        let mut i: usize = 0;
        while i < n
            invariant
                n == self.entries@.len(),
                n < u32::MAX,
                i <= n,
                forall|a: int, b: int| 0 <= a < b < n && a < i ==> #[trigger] self.entries@[a].uid
                    < #[trigger] self.entries@[b].uid,
                forall|a: int, b: int|
                    0 <= a < n && 0 <= b < n && a != b && a < i ==> #[trigger] self.entries@[a].id
                        != #[trigger] self.entries@[b].id,
                forall|a: int| 0 <= a < i ==> #[trigger] self.entries@[a].uid < self.next_uid,
            decreases n - i,
        {
            if self.entries[i].uid >= self.next_uid {
                return false;
            }
            let mut j: usize = 0;
            while j < n
                invariant
                    n == self.entries@.len(),
                    i < n,
                    j <= n,
                    forall|b: int| 0 <= b < j && i < b ==> self.entries@[i as int].uid
                        < #[trigger] self.entries@[b].uid,
                    forall|b: int| 0 <= b < j && b != i ==> self.entries@[i as int].id
                        != #[trigger] self.entries@[b].id,
                decreases n - j,
            {
                if j > i && self.entries[i].uid >= self.entries[j].uid {
                    return false;
                }
                if j != i && self.entries[i].id == self.entries[j].id {
                    return false;
                }
                j = j + 1;
            }
            i = i + 1;
        }
        let mut k: usize = 0;
        while k < self.vanished.len()
            invariant
                n == self.entries@.len(),
                k <= self.vanished@.len(),
                forall|a: int| 0 <= a < k ==> #[trigger] self.vanished@[a] < self.next_uid,
                forall|a: int, b: int|
                    0 <= a < k && 0 <= b < n ==> #[trigger] self.vanished@[a]
                        != #[trigger] self.entries@[b].uid,
            decreases self.vanished@.len() - k,
        {
            let u = self.vanished[k];
            if u >= self.next_uid {
                assert(self@.vanished[k as int] >= self@.next_uid);
                return false;
            }
            let mut j: usize = 0;
            while j < n
                invariant
                    n == self.entries@.len(),
                    k < self.vanished@.len(),
                    u == self.vanished@[k as int],
                    j <= n,
                    forall|b: int| 0 <= b < j ==> u != #[trigger] self.entries@[b].uid,
                decreases n - j,
            {
                if self.entries[j].uid == u {
                    assert(self@.vanished[k as int] == self@.entries[j as int].uid);
                    return false;
                }
                j = j + 1;
            }
            k = k + 1;
        }
        true
    }

    fn find(&self, id: u32) -> (r: Option<usize>)
        ensures
            match r {
                Some(i) => find_id(self.entries@, id) == i as int,
                None => find_id(self.entries@, id) == -1,
            },
    {
        let mut i: usize = 0;
        while i < self.entries.len()
            invariant
                i <= self.entries@.len(),
                find_id(self.entries@.subrange(0, i as int), id) == -1,
            decreases self.entries@.len() - i,
        {
            assert(self.entries@.subrange(0, i + 1).drop_last() =~= self.entries@.subrange(0, i as int));
            if self.entries[i].id == id {
                proof {
                    lemma_find_prefix(self.entries@, id, i as int + 1);
                }
                return Some(i);
            }
            i = i + 1;
        }
        assert(self.entries@.subrange(0, i as int) =~= self.entries@);
        None
    }

    /// Applies one change-log entry.
    pub fn apply_change(&mut self, c: Change)
        requires
            old(self)@.wf(),
        ensures
            final(self)@ == sync_step(old(self)@, c),
            final(self)@.wf(),
    {
        match c {
            Change::Delete(x) => {
                let id = (x % 4294967296) as u32;
                assert(id == doc_id(x));
                match self.find(id) {
                    Some(i) => {
                        proof {
                            lemma_find_valid(self.entries@, id);
                        }
                        let e = self.entries.remove(i);
                        self.vanished.push(e.uid);
                        proof {
                            lemma_delete_wf(old(self)@, i as int);
                        }
                    },
                    None => {},
                }
            },
            Change::Insert(x) => {
                let id = (x % 4294967296) as u32;
                assert(id == doc_id(x));
                if self.find(id).is_none() && self.next_uid < u32::MAX && self.entries.len() + 1
                    < u32::MAX as usize {
                    let uid = self.next_uid;
                    self.entries.push(MailboxEntry { id, uid });
                    self.next_uid = uid + 1;
                    proof {
                        lemma_insert_wf(old(self)@, id);
                    }
                }
            },
            _ => {},
        }
    }

    /// Brings the mailbox up to date with the change-log entries recorded since it
    /// was last synchronised.
    pub fn synchronize(&mut self, changes: &[Change])
        requires
            old(self)@.wf(),
        ensures
            final(self)@ == sync_all(old(self)@, changes@, changes@.len() as int),
            final(self)@.wf(),
    {
        let mut k: usize = 0;
        while k < changes.len()
            invariant
                k <= changes@.len(),
                self@ == sync_all(old(self)@, changes@, k as int),
                self@.wf(),
            decreases changes@.len() - k,
        {
            self.apply_change(changes[k]);
            k = k + 1;
        }
    }

    fn max_value(&self, by_uid: bool) -> (r: u32)
        requires
            self@.wf(),
        ensures
            r as int == max_of(self.entries@, by_uid),
    {
        if !by_uid {
            self.entries.len() as u32
        } else if self.entries.len() == 0 {
            0
        } else {
            self.entries[self.entries.len() - 1].uid
        }
    }

    /// Resolves a sequence set (of UIDs when `by_uid`) to the visible messages it
    /// names, in ascending sequence order. A set that names none gives an empty list.
    pub fn sequence_to_ids(&self, set: &SequenceSet, by_uid: bool) -> (r: Vec<ResolvedId>)
        requires
            self@.wf(),
        ensures
            r@ == resolve_spec(self@, set.ranges@, by_uid),
    {
        let max = self.max_value(by_uid);
        let mut r: Vec<ResolvedId> = Vec::new();
        let mut i: usize = 0;
        while i < self.entries.len()
            invariant
                self@.wf(),
                i <= self.entries@.len(),
                max as int == max_of(self.entries@, by_uid),
                r@ == resolve_prefix(self.entries@, set.ranges@, by_uid, i as int),
            decreases self.entries@.len() - i,
        {
            let e = self.entries[i];
            let key: u32 = if by_uid {
                e.uid
            } else {
                (i + 1) as u32
            };
            if set.contains(key, max) {
                r.push(ResolvedId { id: e.id, seqnum: (i + 1) as u32, uid: e.uid });
            }
            i = i + 1;
        }
        r
    }

    /// The UIDs that the set names and that have vanished since they were seen.
    pub fn sequence_expand_missing(&self, set: &SequenceSet, by_uid: bool) -> (r: Vec<u32>)
        requires
            self@.wf(),
        ensures
            r@ == missing_spec(self@, set.ranges@, by_uid),
    {
        let mut r: Vec<u32> = Vec::new();
        if !by_uid {
            return r;
        }
        let max = self.max_value(true);
        let mut k: usize = 0;
        while k < self.vanished.len()
            invariant
                k <= self.vanished@.len(),
                max as int == max_of(self.entries@, true),
                r@ == missing_prefix(self@, set.ranges@, k as int),
            decreases self.vanished@.len() - k,
        {
            let u = self.vanished[k];
            if set.contains(u, max) {
                r.push(u);
            }
            k = k + 1;
        }
        r
    }
}

proof fn lemma_find_prefix(s: Seq<MailboxEntry>, id: u32, k: int)
    requires
        0 < k <= s.len(),
        find_id(s.subrange(0, k - 1), id) == -1,
        s[k - 1].id == id,
    ensures
        find_id(s, id) == k - 1,
    decreases s.len() - k,
{
    if k == s.len() {
        assert(s.drop_last() =~= s.subrange(0, k - 1));
    } else {
        assert(s.drop_last().subrange(0, k - 1) =~= s.subrange(0, k - 1));
        lemma_find_prefix(s.drop_last(), id, k);
    }
}

pub(crate) proof fn lemma_find_valid(s: Seq<MailboxEntry>, id: u32)
    ensures
        find_id(s, id) >= 0 ==> find_id(s, id) < s.len() && s[find_id(s, id)].id == id,
        find_id(s, id) < 0 ==> find_id(s, id) == -1 && forall|i: int| 0 <= i < s.len() ==> #[trigger] s[i].id != id,
    decreases s.len(),
{
    if s.len() > 0 {
        lemma_find_valid(s.drop_last(), id);
        assert forall|i: int| 0 <= i < s.len() - 1 implies #[trigger] s[i].id == s.drop_last()[i].id by {}
    }
}

pub(crate) proof fn lemma_delete_wf(m: MailboxModel, i: int)
    requires
        m.wf(),
        0 <= i < m.entries.len(),
    ensures
        (MailboxModel {
            entries: m.entries.remove(i),
            vanished: m.vanished.push(m.entries[i].uid),
            next_uid: m.next_uid,
        }).wf(),
{
    let e = m.entries.remove(i);
    let v = m.vanished.push(m.entries[i].uid);
    assert forall|a: int, b: int| 0 <= a < b < e.len() implies #[trigger] e[a].uid < #[trigger] e[b].uid by {
        let a2 = if a < i { a } else { a + 1 };
        let b2 = if b < i { b } else { b + 1 };
        assert(e[a] == m.entries[a2]);
        assert(e[b] == m.entries[b2]);
        assert(m.entries[a2].uid < m.entries[b2].uid);
    }
    assert forall|a: int, b: int|
        0 <= a < e.len() && 0 <= b < e.len() && a != b implies #[trigger] e[a].id != #[trigger] e[b].id by {
        let a2 = if a < i { a } else { a + 1 };
        let b2 = if b < i { b } else { b + 1 };
        assert(e[a] == m.entries[a2]);
        assert(e[b] == m.entries[b2]);
    }
    assert forall|a: int| 0 <= a < e.len() implies #[trigger] e[a].uid < m.next_uid by {
        let a2 = if a < i { a } else { a + 1 };
        assert(e[a] == m.entries[a2]);
    }
    assert forall|k: int| 0 <= k < v.len() implies #[trigger] v[k] < m.next_uid by {
        if k < m.vanished.len() {
            assert(v[k] == m.vanished[k]);
        }
    }
    assert forall|k: int, a: int| 0 <= k < v.len() && 0 <= a < e.len() implies #[trigger] v[k] != #[trigger] e[a].uid by {
        let a2 = if a < i { a } else { a + 1 };
        assert(e[a] == m.entries[a2]);
        if k < m.vanished.len() {
            assert(v[k] == m.vanished[k]);
        } else {
            assert(v[k] == m.entries[i].uid);
            if a2 < i {
                assert(m.entries[a2].uid < m.entries[i].uid);
            } else {
                assert(m.entries[i].uid < m.entries[a2].uid);
            }
        }
    }
}

pub(crate) proof fn lemma_insert_wf(m: MailboxModel, id: u32)
    requires
        m.wf(),
        find_id(m.entries, id) < 0,
        m.next_uid < u32::MAX,
        m.entries.len() + 1 < u32::MAX,
    ensures
        (MailboxModel {
            entries: m.entries.push(MailboxEntry { id, uid: m.next_uid }),
            vanished: m.vanished,
            next_uid: (m.next_uid + 1) as u32,
        }).wf(),
{
    lemma_find_valid(m.entries, id);
    let e = m.entries.push(MailboxEntry { id, uid: m.next_uid });
    assert forall|a: int, b: int| 0 <= a < b < e.len() implies #[trigger] e[a].uid < #[trigger] e[b].uid by {
        assert(e[a] == m.entries[a]);
        if b < m.entries.len() {
            assert(e[b] == m.entries[b]);
        }
    }
    assert forall|a: int, b: int|
        0 <= a < e.len() && 0 <= b < e.len() && a != b implies #[trigger] e[a].id != #[trigger] e[b].id by {
        if a < m.entries.len() {
            assert(e[a] == m.entries[a]);
        }
        if b < m.entries.len() {
            assert(e[b] == m.entries[b]);
        }
    }
    assert forall|a: int| 0 <= a < e.len() implies #[trigger] e[a].uid < m.next_uid + 1 by {
        if a < m.entries.len() {
            assert(e[a] == m.entries[a]);
        }
    }
    assert forall|k: int, a: int|
        0 <= k < m.vanished.len() && 0 <= a < e.len() implies #[trigger] m.vanished[k] != #[trigger] e[a].uid by {
        if a < m.entries.len() {
            assert(e[a] == m.entries[a]);
        }
    }
}

} // verus!
