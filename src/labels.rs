//! The mutation engine: label-set operations, the decision to write, the retry
//! rule of the optimistic write, and the bookkeeping of one STORE command.
use vstd::prelude::*;

use crate::changes::{ChangeCounter, ChangeLogBuilder, Collection, LogEntry};

verus! {

/// A label (flag or keyword) of a message.
#[derive(Clone, Debug)]
pub enum Keyword {
    Seen,
    Draft,
    Flagged,
    Answered,
    Recent,
    Important,
    Phishing,
    Junk,
    NotJunk,
    Deleted,
    Forwarded,
    MdnSent,
    Other(String),
}

/// The mathematical value of a label.
pub enum KeywordView {
    Seen,
    Draft,
    Flagged,
    Answered,
    Recent,
    Important,
    Phishing,
    Junk,
    NotJunk,
    Deleted,
    Forwarded,
    MdnSent,
    Other(Seq<char>),
}

impl View for Keyword {
    type V = KeywordView;

    open spec fn view(&self) -> KeywordView {
        match self {
            Keyword::Seen => KeywordView::Seen,
            Keyword::Draft => KeywordView::Draft,
            Keyword::Flagged => KeywordView::Flagged,
            Keyword::Answered => KeywordView::Answered,
            Keyword::Recent => KeywordView::Recent,
            Keyword::Important => KeywordView::Important,
            Keyword::Phishing => KeywordView::Phishing,
            Keyword::Junk => KeywordView::Junk,
            Keyword::NotJunk => KeywordView::NotJunk,
            Keyword::Deleted => KeywordView::Deleted,
            Keyword::Forwarded => KeywordView::Forwarded,
            Keyword::MdnSent => KeywordView::MdnSent,
            Keyword::Other(s) => KeywordView::Other(s@),
        }
    }
}

/// The labels of a list, as values.
pub open spec fn labels(v: Seq<Keyword>) -> Seq<KeywordView> {
    v.map_values(|k: Keyword| k@)
}

/// Compares two labels.
pub fn same_keyword(a: &Keyword, b: &Keyword) -> (r: bool)
    ensures
        r == (a@ == b@),
{
    match (a, b) {
        (Keyword::Seen, Keyword::Seen) => true,
        (Keyword::Draft, Keyword::Draft) => true,
        (Keyword::Flagged, Keyword::Flagged) => true,
        (Keyword::Answered, Keyword::Answered) => true,
        (Keyword::Recent, Keyword::Recent) => true,
        (Keyword::Important, Keyword::Important) => true,
        (Keyword::Phishing, Keyword::Phishing) => true,
        (Keyword::Junk, Keyword::Junk) => true,
        (Keyword::NotJunk, Keyword::NotJunk) => true,
        (Keyword::Deleted, Keyword::Deleted) => true,
        (Keyword::Forwarded, Keyword::Forwarded) => true,
        (Keyword::MdnSent, Keyword::MdnSent) => true,
        (Keyword::Other(x), Keyword::Other(y)) => x.eq(y),
        _ => false,
    }
}

fn copy_keyword(k: &Keyword) -> (r: Keyword)
    ensures
        r@ == k@,
{
    match k {
        Keyword::Seen => Keyword::Seen,
        Keyword::Draft => Keyword::Draft,
        Keyword::Flagged => Keyword::Flagged,
        Keyword::Answered => Keyword::Answered,
        Keyword::Recent => Keyword::Recent,
        Keyword::Important => Keyword::Important,
        Keyword::Phishing => Keyword::Phishing,
        Keyword::Junk => Keyword::Junk,
        Keyword::NotJunk => Keyword::NotJunk,
        Keyword::Deleted => Keyword::Deleted,
        Keyword::Forwarded => Keyword::Forwarded,
        Keyword::MdnSent => Keyword::MdnSent,
        Keyword::Other(s) => Keyword::Other(s.clone()),
    }
}

/// Copies a label list.
pub fn copy_keywords(v: &Vec<Keyword>) -> (r: Vec<Keyword>)
    ensures
        labels(r@) == labels(v@),
{
    let mut r: Vec<Keyword> = Vec::new();
    let mut i: usize = 0;
    while i < v.len()
        invariant
            i <= v@.len(),
            labels(r@) == labels(v@.subrange(0, i as int)),
        decreases v@.len() - i,
    {
        let ghost before = r@;
        r.push(copy_keyword(&v[i]));
        i = i + 1;
        assert(labels(r@) =~= labels(before).push(v@[i - 1]@));
        assert(labels(v@.subrange(0, i as int)) =~= labels(v@.subrange(0, i - 1)).push(v@[i - 1]@));
    }
    assert(v@.subrange(0, v@.len() as int) =~= v@);
    r
}

pub fn contains_keyword(v: &Vec<Keyword>, k: &Keyword) -> (r: bool)
    ensures
        r == labels(v@).contains(k@),
{
    let mut i: usize = 0;
    while i < v.len()
        invariant
            i <= v@.len(),
            forall|j: int| 0 <= j < i ==> #[trigger] v@[j]@ != k@,
        decreases v@.len() - i,
    {
        if same_keyword(&v[i], k) {
            assert(labels(v@)[i as int] == k@);
            return true;
        }
        i = i + 1;
    }
    proof {
        if labels(v@).contains(k@) {
            let j = choose|j: int| 0 <= j < labels(v@).len() && labels(v@)[j] == k@;
            assert(v@[j]@ == k@);
        }
    }
    false
}

/// The labels of `s` with repeats dropped, first occurrences kept in order.
pub open spec fn dedup(s: Seq<KeywordView>) -> Seq<KeywordView>
    decreases s.len(),
{
    if s.len() == 0 {
        s
    } else {
        let prev = dedup(s.drop_last());
        if prev.contains(s.last()) {
            prev
        } else {
            prev.push(s.last())
        }
    }
}

/// `s` with `k` added at the end, unless already there.
pub open spec fn add_label(s: Seq<KeywordView>, k: KeywordView) -> Seq<KeywordView> {
    if s.contains(k) {
        s
    } else {
        s.push(k)
    }
}

/// `s` without `k`.
pub open spec fn remove_label(s: Seq<KeywordView>, k: KeywordView) -> Seq<KeywordView> {
    s.filter(|x: KeywordView| x != k)
}

pub open spec fn add_all(s: Seq<KeywordView>, ks: Seq<KeywordView>) -> Seq<KeywordView>
    decreases ks.len(),
{
    if ks.len() == 0 {
        s
    } else {
        add_label(add_all(s, ks.drop_last()), ks.last())
    }
}

pub open spec fn remove_all(s: Seq<KeywordView>, ks: Seq<KeywordView>) -> Seq<KeywordView>
    decreases ks.len(),
{
    if ks.len() == 0 {
        s
    } else {
        remove_label(remove_all(s, ks.drop_last()), ks.last())
    }
}

/// A label operation of STORE.
#[derive(Clone, Copy, Debug, PartialEq, Eq, Structural)]
pub enum StoreOperation {
    /// Replace the labels.
    Replace,
    /// Add labels.
    Add,
    /// Remove labels.
    Clear,
}

/// The labels after an operation.
pub open spec fn apply_spec(
    current: Seq<KeywordView>,
    op: StoreOperation,
    ks: Seq<KeywordView>,
) -> Seq<KeywordView> {
    match op {
        StoreOperation::Replace => dedup(ks),
        StoreOperation::Add => add_all(current, ks),
        StoreOperation::Clear => remove_all(current, ks),
    }
}

/// Two label lists hold the same labels.
pub open spec fn same_labels(a: Seq<KeywordView>, b: Seq<KeywordView>) -> bool {
    a.to_set() == b.to_set()
}

/// The first label of `after` that `before` lacks and that is `$Junk` or `$NotJunk`,
/// looking at the first `k` labels.
pub open spec fn first_added_marker(
    before: Seq<KeywordView>,
    after: Seq<KeywordView>,
    k: int,
) -> Option<KeywordView>
    decreases k,
{
    if k <= 0 {
        None
    } else {
        match first_added_marker(before, after, k - 1) {
            Some(m) => Some(m),
            None => if !before.contains(after[k - 1]) && (after[k - 1] is Junk || after[k - 1] is NotJunk) {
                Some(after[k - 1])
            } else {
                None
            },
        }
    }
}

/// The classifier training that a label change asks for: `Some(true)` (learn as
/// spam) when `$Junk` is added, `Some(false)` (learn as ham) when `$NotJunk` is
/// added or `$Junk` removed; the first added marker decides.
pub open spec fn train_spec(before: Seq<KeywordView>, after: Seq<KeywordView>, can_train: bool) -> Option<
    bool,
> {
    if !can_train {
        None
    } else {
        match first_added_marker(before, after, after.len() as int) {
            Some(m) => Some(m is Junk),
            None => if before.contains(KeywordView::Junk) && !after.contains(KeywordView::Junk) {
                Some(false)
            } else {
                None
            },
        }
    }
}

/// What an operation on a record's labels comes to.
pub struct UpdatePlan {
    pub labels: Vec<Keyword>,
    /// The labels differ from the current ones, so a write is due.
    pub changed: bool,
    /// The presence of `\Seen` changed, so the record's mailboxes changed.
    pub seen_changed: bool,
    pub train_spam: Option<bool>,
}

fn add_one(v: &mut Vec<Keyword>, k: &Keyword)
    ensures
        labels(final(v)@) == add_label(labels(old(v)@), k@),
{
    if !contains_keyword(v, k) {
        let ghost before = v@;
        v.push(copy_keyword(k));
        assert(labels(v@) =~= labels(before).push(k@));
    }
}

fn remove_one(v: &mut Vec<Keyword>, k: &Keyword)
    ensures
        labels(final(v)@) == remove_label(labels(old(v)@), k@),
{
    let mut out: Vec<Keyword> = Vec::new();
    let mut i: usize = 0;
    while i < v.len()
        invariant
            i <= v@.len(),
            v@ == old(v)@,
            labels(out@) == remove_label(labels(v@.subrange(0, i as int)), k@),
        decreases v@.len() - i,
    {
        let ghost before = out@;
        let ghost pre = labels(v@.subrange(0, i as int));
        assert(labels(v@.subrange(0, i + 1)) =~= pre.push(v@[i as int]@));
        reveal(Seq::filter);
        assert(labels(v@.subrange(0, i + 1)).drop_last() =~= pre);
        if !same_keyword(&v[i], k) {
            out.push(copy_keyword(&v[i]));
            assert(labels(out@) =~= labels(before).push(v@[i as int]@));
        }
        i = i + 1;
    }
    assert(v@.subrange(0, v@.len() as int) =~= v@);
    *v = out;
}

fn dedup_keywords(ks: &Vec<Keyword>) -> (r: Vec<Keyword>)
    ensures
        labels(r@) == dedup(labels(ks@)),
{
    let mut r: Vec<Keyword> = Vec::new();
    let mut i: usize = 0;
    while i < ks.len()
        invariant
            i <= ks@.len(),
            labels(r@) == dedup(labels(ks@.subrange(0, i as int))),
        decreases ks@.len() - i,
    {
        let ghost pre = labels(ks@.subrange(0, i as int));
        assert(labels(ks@.subrange(0, i + 1)) =~= pre.push(ks@[i as int]@));
        assert(labels(ks@.subrange(0, i + 1)).drop_last() =~= pre);
        add_one(&mut r, &ks[i]);
        i = i + 1;
    }
    assert(ks@.subrange(0, ks@.len() as int) =~= ks@);
    r
}

fn seen_in(v: &Vec<Keyword>) -> (r: bool)
    ensures
        r == labels(v@).contains(KeywordView::Seen),
{
    contains_keyword(v, &Keyword::Seen)
}

/// Applies an operation to a label list.
pub fn apply_operation(current: &Vec<Keyword>, op: StoreOperation, keywords: &Vec<Keyword>) -> (r:
    Vec<Keyword>)
    ensures
        labels(r@) == apply_spec(labels(current@), op, labels(keywords@)),
{
    match op {
        StoreOperation::Replace => dedup_keywords(keywords),
        StoreOperation::Add => {
            let mut v = copy_keywords(current);
            let mut i: usize = 0;
            while i < keywords.len()
                invariant
                    i <= keywords@.len(),
                    labels(v@) == add_all(labels(current@), labels(keywords@.subrange(0, i as int))),
                decreases keywords@.len() - i,
            {
                let ghost pre = labels(keywords@.subrange(0, i as int));
                assert(labels(keywords@.subrange(0, i + 1)) =~= pre.push(keywords@[i as int]@));
                assert(labels(keywords@.subrange(0, i + 1)).drop_last() =~= pre);
                add_one(&mut v, &keywords[i]);
                i = i + 1;
            }
            assert(keywords@.subrange(0, keywords@.len() as int) =~= keywords@);
            v
        },
        StoreOperation::Clear => {
            let mut v = copy_keywords(current);
            let mut i: usize = 0;
            while i < keywords.len()
                invariant
                    i <= keywords@.len(),
                    labels(v@) == remove_all(labels(current@), labels(keywords@.subrange(0, i as int))),
                decreases keywords@.len() - i,
            {
                let ghost pre = labels(keywords@.subrange(0, i as int));
                assert(labels(keywords@.subrange(0, i + 1)) =~= pre.push(keywords@[i as int]@));
                assert(labels(keywords@.subrange(0, i + 1)).drop_last() =~= pre);
                remove_one(&mut v, &keywords[i]);
                i = i + 1;
            }
            assert(keywords@.subrange(0, keywords@.len() as int) =~= keywords@);
            v
        },
    }
}

fn same_label_sets(a: &Vec<Keyword>, b: &Vec<Keyword>) -> (r: bool)
    ensures
        r == same_labels(labels(a@), labels(b@)),
{
    let mut i: usize = 0;
    while i < a.len()
        invariant
            i <= a@.len(),
            forall|j: int| 0 <= j < i ==> labels(b@).contains(#[trigger] labels(a@)[j]),
        decreases a@.len() - i,
    {
        if !contains_keyword(b, &a[i]) {
            proof {
                assert(labels(a@).to_set().contains(labels(a@)[i as int]));
                assert(!labels(b@).to_set().contains(labels(a@)[i as int]));
            }
            return false;
        }
        i = i + 1;
    }
    let mut j: usize = 0;
    while j < b.len()
        invariant
            j <= b@.len(),
            forall|k: int| 0 <= k < a@.len() ==> labels(b@).contains(#[trigger] labels(a@)[k]),
            forall|k: int| 0 <= k < j ==> labels(a@).contains(#[trigger] labels(b@)[k]),
        decreases b@.len() - j,
    {
        if !contains_keyword(a, &b[j]) {
            proof {
                assert(labels(b@).to_set().contains(labels(b@)[j as int]));
                assert(!labels(a@).to_set().contains(labels(b@)[j as int]));
            }
            return false;
        }
        j = j + 1;
    }
    proof {
        assert forall|x: KeywordView| labels(a@).to_set().contains(x) == labels(b@).to_set().contains(x) by {
            if labels(a@).contains(x) {
                let k = choose|k: int| 0 <= k < labels(a@).len() && labels(a@)[k] == x;
                assert(labels(b@).contains(labels(a@)[k]));
            }
            if labels(b@).contains(x) {
                let k = choose|k: int| 0 <= k < labels(b@).len() && labels(b@)[k] == x;
                assert(labels(a@).contains(labels(b@)[k]));
            }
        }
        assert(labels(a@).to_set() =~= labels(b@).to_set());
    }
    true
}

fn train_decision(before: &Vec<Keyword>, after: &Vec<Keyword>, can_train: bool) -> (r: Option<bool>)
    ensures
        r == train_spec(labels(before@), labels(after@), can_train),
{
    if !can_train {
        return None;
    }
    let mut i: usize = 0;
    while i < after.len()
        invariant
            can_train,
            i <= after@.len(),
            first_added_marker(labels(before@), labels(after@), i as int) is None,
        decreases after@.len() - i,
    {
        let k = &after[i];
        let marker = match k {
            Keyword::Junk | Keyword::NotJunk => true,
            _ => false,
        };
        if marker && !contains_keyword(before, k) {
            proof {
                assert(labels(after@)[i as int] == k@);
                assert(first_added_marker(labels(before@), labels(after@), i as int + 1) == Some(k@));
                lemma_marker_stays(labels(before@), labels(after@), i as int + 1);
                assert(first_added_marker(labels(before@), labels(after@), labels(after@).len() as int) == Some(k@));
            }
            let is_junk = match k {
                Keyword::Junk => true,
                _ => false,
            };
            proof {
                lemma_train_marker(labels(before@), labels(after@), k@);
            }
            return Some(is_junk);
        }
        i = i + 1;
    }
    if contains_keyword(before, &Keyword::Junk) && !contains_keyword(after, &Keyword::Junk) {
        Some(false)
    } else {
        None
    }
}

proof fn lemma_train_marker(before: Seq<KeywordView>, after: Seq<KeywordView>, m: KeywordView)
    requires
        first_added_marker(before, after, after.len() as int) == Some(m),
    ensures
        train_spec(before, after, true) == Some(m is Junk),
{
}

proof fn lemma_marker_stays(before: Seq<KeywordView>, after: Seq<KeywordView>, k: int)
    requires
        0 < k <= after.len(),
        first_added_marker(before, after, k) is Some,
    ensures
        first_added_marker(before, after, after.len() as int) == first_added_marker(before, after, k),
    decreases after.len() - k,
{
    if k < after.len() {
        lemma_marker_stays(before, after, k + 1);
    }
}

/// Works out what an operation does to a record's labels.
pub fn plan_update(
    current: &Vec<Keyword>,
    op: StoreOperation,
    keywords: &Vec<Keyword>,
    can_train: bool,
) -> (r: UpdatePlan)
    ensures
        labels(r.labels@) == apply_spec(labels(current@), op, labels(keywords@)),
        r.changed == !same_labels(labels(current@), labels(r.labels@)),
        r.seen_changed == (labels(current@).contains(KeywordView::Seen) != labels(
            r.labels@,
        ).contains(KeywordView::Seen)),
        r.train_spam == train_spec(labels(current@), labels(r.labels@), can_train),
{
    let new = apply_operation(current, op, keywords);
    let changed = !same_label_sets(current, &new);
    let seen_changed = seen_in(current) != seen_in(&new);
    let train_spam = train_decision(current, &new, can_train);
    UpdatePlan { labels: new, changed, seen_changed, train_spam }
}

// ---------------------------------------------------------------------------
// Optimistic write
// ---------------------------------------------------------------------------

/// How many times a conflicting write of one record is tried again.
pub const MAX_RETRIES: u32 = 10;

/// The outcome of a conditional write.
#[derive(Clone, Copy, Debug, PartialEq, Eq, Structural)]
pub enum WriteOutcome {
    Written,
    /// The version token no longer matched: another writer came first.
    Conflict,
}

/// What to do with a record after a conditional write.
#[derive(Clone, Copy, Debug, PartialEq, Eq, Structural)]
pub enum RetryDecision {
    Done,
    /// Read the record again and redo the operation.
    Retry,
    /// Too many conflicts: the record is reported as failed.
    GiveUp,
}

/// Decides after a conditional write that was tried `tries` times before.
pub fn after_write(tries: u32, outcome: WriteOutcome) -> (r: RetryDecision)
    ensures
        outcome == WriteOutcome::Written ==> r == RetryDecision::Done,
        outcome == WriteOutcome::Conflict && tries < MAX_RETRIES ==> r == RetryDecision::Retry,
        outcome == WriteOutcome::Conflict && tries >= MAX_RETRIES ==> r == RetryDecision::GiveUp,
{
    match outcome {
        WriteOutcome::Written => RetryDecision::Done,
        WriteOutcome::Conflict => if tries < MAX_RETRIES {
            RetryDecision::Retry
        } else {
            RetryDecision::GiveUp
        },
    }
}

/// The change identifier under which a record of a thread is logged: the thread in
/// the high 32 bits, the record in the low ones.
pub open spec fn id_from_parts(prefix: u32, id: u32) -> u64 {
    (prefix as int * 4294967296 + id as int) as u64
}

pub fn from_parts(prefix: u32, id: u32) -> (r: u64)
    ensures
        r == id_from_parts(prefix, id),
        r as int == prefix as int * 4294967296 + id as int,
{
    assert(prefix as int * 4294967296 + id as int <= u64::MAX) by (nonlinear_arith)
        requires
            prefix <= u32::MAX,
            id <= u32::MAX,
    ;
    prefix as u64 * 4294967296 + id as u64
}

// ---------------------------------------------------------------------------
// One STORE command
// ---------------------------------------------------------------------------

/// An item of the untagged response to STORE.
pub enum StoreDataItem {
    Flags(Vec<Keyword>),
    Uid(u32),
    ModSeq(u64),
}

/// The response items for one message.
pub struct StoreItem {
    pub seqnum: u32,
    pub items: Vec<StoreDataItem>,
}

/// What the response says of a written record, given the modseq it was written
/// under: its flags (unless silent), its UID (for UID STORE), its modseq (with
/// CONDSTORE).
pub open spec fn store_item_ok(
    it: StoreItem,
    seqnum: u32,
    uid: u32,
    flags: Seq<KeywordView>,
    modseq: u64,
    silent: bool,
    by_uid: bool,
    condstore: bool,
) -> bool {
    &&& it.seqnum == seqnum
    &&& if !silent {
        &&& it.items@.len() == 1 + (if by_uid {
            1int
        } else {
            0
        }) + (if condstore {
            1int
        } else {
            0
        })
        &&& it.items@[0] matches StoreDataItem::Flags(f) && labels(f@) == flags
        &&& by_uid ==> it.items@[1] == StoreDataItem::Uid(uid)
        &&& condstore ==> it.items@[it.items@.len() - 1] == StoreDataItem::ModSeq(modseq)
    } else if condstore {
        &&& it.items@.len() == (if by_uid {
            2int
        } else {
            1
        })
        &&& it.items@[0] == StoreDataItem::ModSeq(modseq)
        &&& by_uid ==> it.items@[1] == StoreDataItem::Uid(uid)
    } else {
        true
    }
}

/// A notification to the other sessions of an account: which kinds of objects
/// changed, and under which modification sequence.
pub struct StateChange {
    pub account_id: u32,
    pub changes: Vec<(Collection, u64)>,
}

/// What recording a successful write does to a command's state: one `Update`
/// entry, the record's mailboxes marked changed when `\Seen` changed, a training
/// task noted, and (unless silent without CONDSTORE) one response item.
pub open spec fn written_ok(
    before: StoreProgress,
    after: StoreProgress,
    id: u32,
    thread_id: u32,
    seqnum: u32,
    uid: u32,
    flags: Seq<KeywordView>,
    mailboxes: Seq<u32>,
    seen_changed: bool,
    train_spam: Option<bool>,
    silent: bool,
    by_uid: bool,
    condstore: bool,
) -> bool {
    &&& after.changelog.change_id == before.changelog.change_id
    &&& after.changelog.entries@ == before.changelog.entries@.push(
        LogEntry {
            collection: Collection::Email,
            change: crate::changes::Change::Update(id_from_parts(thread_id, id)),
        },
    )
    &&& forall|m: u32| #[trigger]
        after.changed_mailboxes@.contains(m) <==> before.changed_mailboxes@.contains(m) || (
        seen_changed && mailboxes.contains(m))
    &&& after.any_failed == before.any_failed
    &&& after.has_train_tasks == (before.has_train_tasks || train_spam is Some)
    &&& (!silent || condstore) ==> {
        &&& after.items@.len() == before.items@.len() + 1
        &&& after.items@.subrange(0, before.items@.len() as int) == before.items@
        &&& store_item_ok(
            after.items@.last(),
            seqnum,
            uid,
            flags,
            (before.changelog.change_id->0 + 1) as u64,
            silent,
            by_uid,
            condstore,
        )
    }
    &&& (silent && !condstore) ==> after.items@ == before.items@
}

/// What recording a failed record does: the failure flag is set, nothing else
/// changes.
pub open spec fn failed_ok(before: StoreProgress, after: StoreProgress) -> bool {
    &&& after.any_failed
    &&& after.changelog == before.changelog
    &&& after.changed_mailboxes@ == before.changed_mailboxes@
    &&& after.items@ == before.items@
    &&& after.has_train_tasks == before.has_train_tasks
}

/// The state of a STORE command across its records.
pub struct StoreProgress {
    pub changelog: ChangeLogBuilder,
    /// Mailboxes whose unseen counts changed, without repeats.
    pub changed_mailboxes: Vec<u32>,
    pub items: Vec<StoreItem>,
    /// Some record could not be written.
    pub any_failed: bool,
    /// Some record queued a classifier training task.
    pub has_train_tasks: bool,
}

impl StoreProgress {
    pub fn new() -> (r: StoreProgress)
        ensures
            r.changelog.change_id is None,
            r.changelog.entries@.len() == 0,
            r.changed_mailboxes@.len() == 0,
            r.items@.len() == 0,
            !r.any_failed,
            !r.has_train_tasks,
    {
        StoreProgress {
            changelog: ChangeLogBuilder::new(),
            changed_mailboxes: Vec::new(),
            items: Vec::new(),
            any_failed: false,
            has_train_tasks: false,
        }
    }

    /// The change identifier that a record about to be written carries; drawn
    /// from the counter for the command's first write only.
    pub fn change_id(&mut self, counter: &mut ChangeCounter) -> (r: Option<u64>)
        ensures
            final(self).changelog.entries@ == old(self).changelog.entries@,
            final(self).changed_mailboxes@ == old(self).changed_mailboxes@,
            final(self).items@ == old(self).items@,
            final(self).any_failed == old(self).any_failed,
            final(self).has_train_tasks == old(self).has_train_tasks,
            old(self).changelog.change_id is Some ==> r == old(self).changelog.change_id
                && final(counter).last == old(counter).last,
            old(self).changelog.change_id is None && old(counter).last < u64::MAX ==> r == Some(
                (old(counter).last + 1) as u64,
            ) && final(counter).last == old(counter).last + 1,
            r is Some ==> final(self).changelog.change_id == r,
    {
        self.changelog.assign_change_id(counter)
    }

    /// Records a successful write of record `id` of thread `thread_id`, whose new
    /// labels are `flags`, and which belongs to `mailboxes`.
    pub fn record_written(
        &mut self,
        id: u32,
        thread_id: u32,
        seqnum: u32,
        uid: u32,
        flags: &Vec<Keyword>,
        mailboxes: &Vec<u32>,
        seen_changed: bool,
        train_spam: Option<bool>,
        silent: bool,
        by_uid: bool,
        condstore: bool,
    )
        requires
            old(self).changelog.change_id is Some,
            old(self).changelog.change_id->0 < u64::MAX,
        ensures
            written_ok(
                *old(self),
                *final(self),
                id,
                thread_id,
                seqnum,
                uid,
                labels(flags@),
                mailboxes@,
                seen_changed,
                train_spam,
                silent,
                by_uid,
                condstore,
            ),
            no_repeats(old(self).changed_mailboxes@) ==> no_repeats(final(self).changed_mailboxes@),
    {
        let change_id = match self.changelog.change_id {
            Some(c) => c,
            None => 0,
        };
        self.changelog.log_update(Collection::Email, from_parts(thread_id, id));
        if seen_changed {
            let mut i: usize = 0;
            while i < mailboxes.len()
                invariant
                    i <= mailboxes@.len(),
                    self.changelog.change_id == old(self).changelog.change_id,
                    self.changelog.entries@ == old(self).changelog.entries@.push(
                        LogEntry {
                            collection: Collection::Email,
                            change: crate::changes::Change::Update(id_from_parts(thread_id, id)),
                        },
                    ),
                    self.items@ == old(self).items@,
                    self.any_failed == old(self).any_failed,
                    self.has_train_tasks == old(self).has_train_tasks,
                    forall|m: u32| #[trigger]
                        self.changed_mailboxes@.contains(m) <==> old(self).changed_mailboxes@.contains(m)
                            || mailboxes@.subrange(0, i as int).contains(m),
                    no_repeats(old(self).changed_mailboxes@) ==> no_repeats(self.changed_mailboxes@),
                decreases mailboxes@.len() - i,
            {
                insert_unique(&mut self.changed_mailboxes, mailboxes[i]);
                proof {
                    let a = mailboxes@.subrange(0, i + 1);
                    let b = mailboxes@.subrange(0, i as int);
                    assert(a =~= b.push(mailboxes@[i as int]));
                    assert forall|m: u32| a.contains(m) <==> (b.contains(m) || m == mailboxes@[i as int]) by {
                        if a.contains(m) {
                            let j = choose|j: int| 0 <= j < a.len() && #[trigger] a[j] == m;
                            if j < i {
                                assert(b[j] == m);
                            }
                        }
                        if b.contains(m) {
                            let j = choose|j: int| 0 <= j < b.len() && #[trigger] b[j] == m;
                            assert(a[j] == m);
                        }
                        if m == mailboxes@[i as int] {
                            assert(a[i as int] == m);
                        }
                    }
                }
                i = i + 1;
            }
            assert(mailboxes@.subrange(0, mailboxes@.len() as int) =~= mailboxes@);
        }
        if train_spam.is_some() {
            self.has_train_tasks = true;
        }
        let modseq = change_id + 1;
        if !silent {
            let mut data: Vec<StoreDataItem> = Vec::new();
            data.push(StoreDataItem::Flags(copy_keywords(flags)));
            if by_uid {
                data.push(StoreDataItem::Uid(uid));
            }
            if condstore {
                data.push(StoreDataItem::ModSeq(modseq));
            }
            let ghost before = self.items@;
            self.items.push(StoreItem { seqnum, items: data });
            assert(self.items@.subrange(0, before.len() as int) =~= before);
        } else if condstore {
            let mut data: Vec<StoreDataItem> = Vec::new();
            data.push(StoreDataItem::ModSeq(modseq));
            if by_uid {
                data.push(StoreDataItem::Uid(uid));
            }
            let ghost before = self.items@;
            self.items.push(StoreItem { seqnum, items: data });
            assert(self.items@.subrange(0, before.len() as int) =~= before);
        }
    }

    /// Records a record that could not be written.
    pub fn record_failed(&mut self)
        ensures
            failed_ok(*old(self), *final(self)),
            final(self).any_failed,
            final(self).changelog == old(self).changelog,
            final(self).changed_mailboxes@ == old(self).changed_mailboxes@,
            final(self).items@ == old(self).items@,
            final(self).has_train_tasks == old(self).has_train_tasks,
    {
        self.any_failed = true;
    }

    /// The notification that the command's commit under `change_id` publishes:
    /// messages changed, and mailboxes too when an unseen count changed.
    pub fn state_change(&self, account_id: u32, change_id: u64) -> (r: StateChange)
        ensures
            r.account_id == account_id,
            self.changed_mailboxes@.len() == 0 ==> r.changes@ == seq![(Collection::Email, change_id)],
            self.changed_mailboxes@.len() > 0 ==> r.changes@ == seq![
                (Collection::Email, change_id),
                (Collection::Mailbox, change_id),
            ],
    {
        let mut changes: Vec<(Collection, u64)> = Vec::new();
        changes.push((Collection::Email, change_id));
        if self.changed_mailboxes.len() > 0 {
            changes.push((Collection::Mailbox, change_id));
        }
        proof {
            if self.changed_mailboxes@.len() > 0 {
                assert(changes@ =~= seq![(Collection::Email, change_id), (Collection::Mailbox, change_id)]);
            } else {
                assert(changes@ =~= seq![(Collection::Email, change_id)]);
            }
        }
        StateChange { account_id, changes }
    }

    /// Ends the command: every mailbox whose unseen count changed is logged as
    /// having changed below it.
    pub fn finish(&mut self)
        ensures
            final(self).changelog.change_id == old(self).changelog.change_id,
            final(self).changelog.entries@ == old(self).changelog.entries@ + old(
                self,
            ).changed_mailboxes@.map_values(
                |m: u32|
                    LogEntry {
                        collection: Collection::Mailbox,
                        change: crate::changes::Change::ChildUpdate(m as u64),
                    },
            ),
            final(self).changed_mailboxes@ == old(self).changed_mailboxes@,
            final(self).items@ == old(self).items@,
            final(self).any_failed == old(self).any_failed,
            final(self).has_train_tasks == old(self).has_train_tasks,
    {
        let mut i: usize = 0;
        while i < self.changed_mailboxes.len()
            invariant
                i <= self.changed_mailboxes@.len(),
                self.changed_mailboxes@ == old(self).changed_mailboxes@,
                self.items@ == old(self).items@,
                self.any_failed == old(self).any_failed,
                self.has_train_tasks == old(self).has_train_tasks,
                self.changelog.change_id == old(self).changelog.change_id,
                self.changelog.entries@ == old(self).changelog.entries@ + old(
                    self,
                ).changed_mailboxes@.subrange(0, i as int).map_values(
                    |m: u32|
                        LogEntry {
                            collection: Collection::Mailbox,
                            change: crate::changes::Change::ChildUpdate(m as u64),
                        },
                ),
            decreases self.changed_mailboxes@.len() - i,
        {
            let m = self.changed_mailboxes[i];
            self.changelog.log_child_update(Collection::Mailbox, m as u64);
            i = i + 1;
            assert(old(self).changed_mailboxes@.subrange(0, i as int) =~= old(
                self,
            ).changed_mailboxes@.subrange(0, i - 1).push(m));
            assert(self.changelog.entries@ =~= old(self).changelog.entries@ + old(
                self,
            ).changed_mailboxes@.subrange(0, i as int).map_values(
                |m: u32|
                    LogEntry {
                        collection: Collection::Mailbox,
                        change: crate::changes::Change::ChildUpdate(m as u64),
                    },
            ));
        }
        assert(old(self).changed_mailboxes@.subrange(0, i as int) =~= old(self).changed_mailboxes@);
    }
}

pub open spec fn no_repeats(s: Seq<u32>) -> bool {
    forall|i: int, j: int| 0 <= i < s.len() && 0 <= j < s.len() && i != j ==> s[i] != s[j]
}

fn insert_unique(v: &mut Vec<u32>, x: u32)
    ensures
        forall|m: u32| #[trigger] final(v)@.contains(m) <==> old(v)@.contains(m) || m == x,
        no_repeats(old(v)@) ==> no_repeats(final(v)@),
{
    let mut i: usize = 0;
    while i < v.len()
        invariant
            i <= v@.len(),
            v@ == old(v)@,
            forall|j: int| 0 <= j < i ==> v@[j] != x,
        decreases v@.len() - i,
    {
        if v[i] == x {
            assert(v@[i as int] == x);
            return;
        }
        i = i + 1;
    }
    let ghost before = v@;
    v.push(x);
    proof {
        assert forall|m: u32| #[trigger] v@.contains(m) <==> before.contains(m) || m == x by {
            if v@.contains(m) {
                let j = choose|j: int| 0 <= j < v@.len() && v@[j] == m;
                if j < before.len() {
                    assert(before[j] == m);
                }
            }
            if before.contains(m) {
                let j = choose|j: int| 0 <= j < before.len() && before[j] == m;
                assert(v@[j] == m);
            }
            if m == x {
                assert(v@[before.len() as int] == x);
            }
        }
    }
}

} // verus!
