//! Change-log entries, the per-account modification counter, the builder that
//! collects one command's entries, and the filters that "changed since" and
//! "unchanged since" requests apply.
use vstd::prelude::*;

use crate::mailbox::ResolvedId;

verus! {

/// One change-log entry, over a change identifier whose low 32 bits are the
/// record identifier.
#[derive(Clone, Copy, Debug, PartialEq, Eq, Structural)]
pub enum Change {
    Insert(u64),
    Update(u64),
    ChildUpdate(u64),
    Delete(u64),
}

/// The record identifier that a change identifier names.
pub open spec fn doc_id(x: u64) -> u32 {
    (x % 4294967296) as u32
}

pub open spec fn change_key(c: Change) -> u64 {
    match c {
        Change::Insert(x) => x,
        Change::Update(x) => x,
        Change::ChildUpdate(x) => x,
        Change::Delete(x) => x,
    }
}

fn key_of_change(c: Change) -> (r: u32)
    ensures
        r == doc_id(change_key(c)),
{
    let x = match c {
        Change::Insert(x) => x,
        Change::Update(x) => x,
        Change::ChildUpdate(x) => x,
        Change::Delete(x) => x,
    };
    (x % 4294967296) as u32
}

/// The kind of object a change-log entry is about.
#[derive(Clone, Copy, Debug, PartialEq, Eq, Structural)]
pub enum Collection {
    Email,
    Mailbox,
}

/// A change-log entry together with its collection.
#[derive(Clone, Copy, Debug, PartialEq, Eq, Structural)]
pub struct LogEntry {
    pub collection: Collection,
    pub change: Change,
}

/// The per-account counter from which modification sequences are drawn.
pub struct ChangeCounter {
    pub last: u64,
}

impl ChangeCounter {
    /// Draws the next value; `None`, and no change, once the counter is exhausted.
    pub fn next(&mut self) -> (r: Option<u64>)
        ensures
            old(self).last < u64::MAX ==> r == Some((old(self).last + 1) as u64) && final(self).last
                == old(self).last + 1,
            old(self).last == u64::MAX ==> r is None && final(self).last == old(self).last,
    {
        if self.last < u64::MAX {
            self.last = self.last + 1;
            Some(self.last)
        } else {
            None
        }
    }
}

/// The entries that one command records, and the change identifier they share.
/// The identifier is drawn lazily, on first need, so that a command that records
/// nothing consumes no counter value.
pub struct ChangeLogBuilder {
    pub change_id: Option<u64>,
    pub entries: Vec<LogEntry>,
}

impl ChangeLogBuilder {
    pub fn new() -> (r: ChangeLogBuilder)
        ensures
            r.change_id is None,
            r.entries@.len() == 0,
    {
        ChangeLogBuilder { change_id: None, entries: Vec::new() }
    }

    pub fn is_empty(&self) -> (r: bool)
        ensures
            r == (self.entries@.len() == 0),
    {
        self.entries.len() == 0
    }

    /// Records an update of `id`.
    pub fn log_update(&mut self, collection: Collection, id: u64)
        ensures
            final(self).entries@ == old(self).entries@.push(
                LogEntry { collection, change: Change::Update(id) },
            ),
            final(self).change_id == old(self).change_id,
    {
        self.entries.push(LogEntry { collection, change: Change::Update(id) });
    }

    /// Records a change below `id` (a mailbox whose messages changed).
    pub fn log_child_update(&mut self, collection: Collection, id: u64)
        ensures
            final(self).entries@ == old(self).entries@.push(
                LogEntry { collection, change: Change::ChildUpdate(id) },
            ),
            final(self).change_id == old(self).change_id,
    {
        self.entries.push(LogEntry { collection, change: Change::ChildUpdate(id) });
    }

    /// The change identifier of this batch, drawn from the counter the first time
    /// it is asked for.
    pub fn assign_change_id(&mut self, counter: &mut ChangeCounter) -> (r: Option<u64>)
        ensures
            final(self).entries@ == old(self).entries@,
            old(self).change_id is Some ==> r == old(self).change_id && final(self).change_id
                == old(self).change_id && final(counter).last == old(counter).last,
            old(self).change_id is None && old(counter).last < u64::MAX ==> r == Some(
                (old(counter).last + 1) as u64,
            ) && final(self).change_id == r && final(counter).last == old(counter).last + 1,
            old(self).change_id is None && old(counter).last == u64::MAX ==> r is None
                && final(self).change_id is None && final(counter).last == old(counter).last,
    {
        match self.change_id {
            Some(id) => Some(id),
            None => {
                let id = counter.next();
                self.change_id = id;
                id
            },
        }
    }

    /// Closes the batch: the modification sequence it is written under, or `None`
    /// for a batch without entries, which consumes no counter value.
    pub fn commit(&mut self, counter: &mut ChangeCounter) -> (r: Option<u64>)
        ensures
            old(self).entries@.len() == 0 ==> r is None && final(counter).last == old(counter).last
                && final(self).change_id == old(self).change_id,
            old(self).entries@.len() > 0 ==> final(self).change_id == r,
            old(self).entries@.len() > 0 && old(self).change_id is Some ==> r == old(self).change_id
                && final(counter).last == old(counter).last,
            old(self).entries@.len() > 0 && old(self).change_id is None && old(counter).last
                < u64::MAX ==> r == Some((old(counter).last + 1) as u64) && final(counter).last
                == old(counter).last + 1,
            old(self).entries@.len() > 0 && old(self).change_id is None && old(counter).last
                == u64::MAX ==> r is None,
            final(self).entries@ == old(self).entries@,
    {
        if self.entries.len() == 0 {
            None
        } else {
            self.assign_change_id(counter)
        }
    }
}

/// Whether some entry of `cs` names record `id`; `deletes_only` counts deletions
/// alone, `non_deletes_only` all other entries alone.
pub open spec fn mentions(cs: Seq<Change>, id: u32, deletes_only: bool, non_deletes_only: bool) -> bool {
    exists|k: int|
        0 <= k < cs.len() && doc_id(change_key(#[trigger] cs[k])) == id && (!deletes_only
            || cs[k] is Delete) && (!non_deletes_only || !(cs[k] is Delete))
}

fn mentioned(cs: &[Change], id: u32, deletes_only: bool, non_deletes_only: bool) -> (r: bool)
    ensures
        r == mentions(cs@, id, deletes_only, non_deletes_only),
{
    let mut k: usize = 0;
    while k < cs.len()
        invariant
            k <= cs@.len(),
            forall|j: int|
                0 <= j < k ==> !(doc_id(change_key(#[trigger] cs@[j])) == id && (!deletes_only
                    || cs@[j] is Delete) && (!non_deletes_only || !(cs@[j] is Delete))),
        decreases cs@.len() - k,
    {
        let c = cs[k];
        let is_delete = matches!(c, Change::Delete(_));
        if key_of_change(c) == id && (!deletes_only || is_delete) && (!non_deletes_only || !is_delete) {
            return true;
        }
        k = k + 1;
    }
    false
}

/// The addresses among the first `k` whose record a non-deleting entry names.
pub open spec fn changed_prefix(ids: Seq<ResolvedId>, cs: Seq<Change>, k: int) -> Seq<ResolvedId>
    decreases k,
{
    if k <= 0 {
        Seq::empty()
    } else {
        let prev = changed_prefix(ids, cs, k - 1);
        if mentions(cs, ids[k - 1].id, false, true) {
            prev.push(ids[k - 1])
        } else {
            prev
        }
    }
}

/// Whether the changes may have made messages vanish: a deletion, or an update
/// (which may have moved a message out of the mailbox).
pub open spec fn may_have_vanished(cs: Seq<Change>) -> bool {
    exists|k: int| 0 <= k < cs.len() && (#[trigger] cs[k] is Delete || cs[k] is Update)
}

/// The outcome of a "changed since" filter.
pub struct ChangedSince {
    pub ids: Vec<ResolvedId>,
    pub has_vanished: bool,
}

/// Keeps, in order, the addresses whose record was inserted or updated in
/// `changes`, and tells whether messages may have vanished.
pub fn changed_since(ids: &[ResolvedId], changes: &[Change]) -> (r: ChangedSince)
    ensures
        r.ids@ == changed_prefix(ids@, changes@, ids@.len() as int),
        r.has_vanished == may_have_vanished(changes@),
{
    let mut out: Vec<ResolvedId> = Vec::new();
    let mut i: usize = 0;
    while i < ids.len()
        invariant
            i <= ids@.len(),
            out@ == changed_prefix(ids@, changes@, i as int),
        decreases ids@.len() - i,
    {
        if mentioned(changes, ids[i].id, false, true) {
            out.push(ids[i]);
        }
        i = i + 1;
    }
    let mut has_vanished = false;
    let mut k: usize = 0;
    while k < changes.len()
        invariant
            k <= changes@.len(),
            has_vanished == exists|j: int|
                0 <= j < k && (#[trigger] changes@[j] is Delete || changes@[j] is Update),
        decreases changes@.len() - k,
    {
        if matches!(changes[k], Change::Delete(_) | Change::Update(_)) {
            has_vanished = true;
        }
        k = k + 1;
    }
    ChangedSince { ids: out, has_vanished }
}

/// The addresses among the first `k` whose record no entry names.
pub open spec fn unchanged_prefix(ids: Seq<ResolvedId>, cs: Seq<Change>, k: int) -> Seq<ResolvedId>
    decreases k,
{
    if k <= 0 {
        Seq::empty()
    } else {
        let prev = unchanged_prefix(ids, cs, k - 1);
        if mentions(cs, ids[k - 1].id, false, false) {
            prev
        } else {
            prev.push(ids[k - 1])
        }
    }
}

pub open spec fn strictly_ascending(s: Seq<u32>) -> bool {
    forall|i: int, j: int| 0 <= i < j < s.len() ==> #[trigger] s[i] < #[trigger] s[j]
}

/// The number by which a response names an excluded address.
pub open spec fn address_number(r: ResolvedId, by_uid: bool) -> u32 {
    if by_uid {
        r.uid
    } else {
        r.seqnum
    }
}

/// Whether `v` is reported as modified: it is one of the missing numbers, or the
/// number of an address whose record some entry names.
pub open spec fn is_modified(
    ids: Seq<ResolvedId>,
    cs: Seq<Change>,
    by_uid: bool,
    missing: Seq<u32>,
    v: u32,
) -> bool {
    missing.contains(v) || exists|i: int|
        0 <= i < ids.len() && mentions(cs, ids[i].id, false, false) && address_number(
            #[trigger] ids[i],
            by_uid,
        ) == v
}

/// Whether some excluded address was deleted.
pub open spec fn some_deleted(ids: Seq<ResolvedId>, cs: Seq<Change>) -> bool {
    exists|i: int| 0 <= i < ids.len() && mentions(cs, #[trigger] ids[i].id, true, false)
}

/// The outcome of an "unchanged since" precondition.
pub struct UnchangedSince {
    /// The addresses that the command may still change, in order.
    pub ids: Vec<ResolvedId>,
    /// The numbers reported as modified, ascending and without repeats.
    pub modified: Vec<u32>,
    /// Set when an excluded address's record was deleted.
    pub failed: bool,
}

fn insert_sorted(v: &mut Vec<u32>, x: u32)
    requires
        strictly_ascending(old(v)@),
    ensures
        strictly_ascending(final(v)@),
        forall|y: u32| final(v)@.contains(y) <==> (old(v)@.contains(y) || y == x),
{
    let mut i: usize = 0;
    while i < v.len() && v[i] < x
        invariant
            i <= v@.len(),
            v@ == old(v)@,
            forall|j: int| 0 <= j < i ==> #[trigger] v@[j] < x,
        decreases v@.len() - i,
    {
        i = i + 1;
    }
    if i < v.len() && v[i] == x {
        return;
    }
    let ghost s = v@;
    v.insert(i, x);
    proof {
        let t = v@;
        assert(t == s.insert(i as int, x));
        assert forall|a: int, b: int| 0 <= a < b < t.len() implies #[trigger] t[a] < #[trigger] t[b] by {
            if b < i {
            } else if b == i {
                assert(t[a] == s[a]);
            } else if a < i {
                assert(t[b] == s[b - 1]);
                assert(s[a] < x);
                if i < s.len() {
                    assert(x < s[i as int]);
                    assert(s[i as int] <= s[b - 1]) by {
                        if (i as int) < b - 1 {
                        }
                    }
                }
            } else if a == i {
                assert(t[b] == s[b - 1]);
                assert(x < s[i as int]);
                if (i as int) < b - 1 {
                    assert(s[i as int] < s[b - 1]);
                }
            } else {
                assert(t[a] == s[a - 1]);
                assert(t[b] == s[b - 1]);
            }
        }
        assert forall|y: u32| t.contains(y) <==> (s.contains(y) || y == x) by {
            if t.contains(y) {
                let k = choose|k: int| 0 <= k < t.len() && t[k] == y;
                if k < i {
                    assert(s[k] == y);
                } else if k > i {
                    assert(s[k - 1] == y);
                }
            }
            if s.contains(y) {
                let k = choose|k: int| 0 <= k < s.len() && s[k] == y;
                if k < i {
                    assert(t[k] == y);
                } else {
                    assert(t[k + 1] == y);
                }
            }
            if y == x {
                assert(t[i as int] == x);
            }
        }
    }
}

/// Applies an "unchanged since" precondition: every address whose record an entry
/// of `changes` names is taken out of the command and reported as modified,
/// together with the `missing` (vanished) numbers; the result is flagged as failed
/// when a taken-out record was deleted.
pub fn unchanged_since(ids: &[ResolvedId], changes: &[Change], by_uid: bool, missing: &[u32]) -> (r:
    UnchangedSince)
    ensures
        r.ids@ == unchanged_prefix(ids@, changes@, ids@.len() as int),
        strictly_ascending(r.modified@),
        forall|v: u32| r.modified@.contains(v) <==> is_modified(ids@, changes@, by_uid, missing@, v),
        r.failed == some_deleted(ids@, changes@),
{
    let mut kept: Vec<ResolvedId> = Vec::new();
    let mut modified: Vec<u32> = Vec::new();
    let mut failed = false;
    let mut k: usize = 0;
    while k < missing.len()
        invariant
            k <= missing@.len(),
            strictly_ascending(modified@),
            forall|v: u32| modified@.contains(v) <==> missing@.subrange(0, k as int).contains(v),
        decreases missing@.len() - k,
    {
        insert_sorted(&mut modified, missing[k]);
        k = k + 1;
        proof {
            let ghost a = missing@.subrange(0, k as int);
            let ghost b = missing@.subrange(0, k - 1);
            assert(a =~= b.push(missing@[k - 1]));
            assert forall|v: u32| a.contains(v) <==> (b.contains(v) || v == missing@[k - 1]) by {
                if a.contains(v) {
                    let j = choose|j: int| 0 <= j < a.len() && #[trigger] a[j] == v;
                    if j < k - 1 {
                        assert(b[j] == v);
                    }
                }
                if b.contains(v) {
                    let j = choose|j: int| 0 <= j < b.len() && #[trigger] b[j] == v;
                    assert(a[j] == v);
                }
                if v == missing@[k - 1] {
                    assert(a[k - 1] == v);
                }
            }
        }
    }
    assert(missing@.subrange(0, missing@.len() as int) =~= missing@);
    let mut i: usize = 0;
    while i < ids.len()
        invariant
            i <= ids@.len(),
            kept@ == unchanged_prefix(ids@, changes@, i as int),
            strictly_ascending(modified@),
            forall|v: u32| modified@.contains(v) <==> (missing@.contains(v) || exists|j: int|
                0 <= j < i && mentions(changes@, ids@[j].id, false, false) && address_number(
                    #[trigger] ids@[j],
                    by_uid,
                ) == v),
            failed == exists|j: int| 0 <= j < i && mentions(changes@, #[trigger] ids@[j].id, true, false),
        decreases ids@.len() - i,
    {
        let a = ids[i];
        if mentioned(changes, a.id, false, false) {
            let n = if by_uid {
                a.uid
            } else {
                a.seqnum
            };
            insert_sorted(&mut modified, n);
            if mentioned(changes, a.id, true, false) {
                failed = true;
            }
        } else {
            kept.push(a);
            proof {
                if mentions(changes@, a.id, true, false) {
                    let k = choose|k: int| 0 <= k < changes@.len() && doc_id(change_key(#[trigger] changes@[k])) == a.id && changes@[k] is Delete;
                    assert(mentions(changes@, a.id, false, false));
                }
            }
        }
        i = i + 1;
    }
    UnchangedSince { ids: kept, modified, failed }
}

} // verus!
