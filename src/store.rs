//! The STORE command as a state machine: it tells the caller which record to read
//! or which conditional write to make, and takes the outcome back.
use vstd::prelude::*;

use crate::changes::ChangeCounter;
use crate::labels::{
    after_write, apply_spec, copy_keywords, failed_ok, labels, written_ok, plan_update, same_labels, train_spec, Keyword,
    RetryDecision, StoreOperation, StoreProgress, WriteOutcome, MAX_RETRIES,
};
use crate::mailbox::ResolvedId;

verus! {

/// A record as the store returned it.
pub struct StoredRecord {
    pub labels: Vec<Keyword>,
    /// The token that the conditional write must present.
    pub version: u64,
    pub thread_id: u32,
    pub mailboxes: Vec<u32>,
}

/// What the caller reports back.
pub enum StoreEvent {
    /// The record read, or `None` where it no longer exists.
    Loaded(Option<StoredRecord>),
    /// The outcome of the conditional write asked for.
    WriteDone(WriteOutcome),
}

/// What the caller must do next.
pub enum StoreAction {
    Read { id: u32 },
    /// Write `labels` over record `id` if its version is still `version`.
    Write { id: u32, version: u64, labels: Vec<Keyword>, change_id: u64, train_spam: Option<bool> },
    Finished,
}

/// The write that is awaited.
pub struct PendingWrite {
    pub labels: Vec<Keyword>,
    pub thread_id: u32,
    pub mailboxes: Vec<u32>,
    pub seen_changed: bool,
    pub train_spam: Option<bool>,
}

/// A STORE command in progress over the addresses `ids`, in order.
pub struct StoreRun {
    pub ids: Vec<ResolvedId>,
    pub pos: usize,
    pub tries: u32,
    pub operation: StoreOperation,
    pub keywords: Vec<Keyword>,
    pub can_train: bool,
    pub silent: bool,
    pub by_uid: bool,
    pub condstore: bool,
    pub pending: Option<PendingWrite>,
    pub progress: StoreProgress,
}

impl StoreRun {
    pub open spec fn wf(&self) -> bool {
        &&& self.pos <= self.ids@.len()
        &&& self.pending is Some ==> (self.progress.changelog.change_id matches Some(c) && c
            < u64::MAX)
    }

    /// The action that asks for the record at the current position.
    pub open spec fn read_next(&self, a: StoreAction) -> bool {
        if self.pos < self.ids@.len() {
            a == StoreAction::Read { id: self.ids@[self.pos as int].id }
        } else {
            a is Finished
        }
    }

    /// `self` is `old` moved on to the next address, with `progress` as given.
    pub open spec fn moved_on(&self, old: &StoreRun) -> bool {
        &&& self.ids@ == old.ids@
        &&& self.pos == old.pos + 1
        &&& self.tries == 0
        &&& self.pending is None
        &&& self.operation == old.operation
        &&& labels(self.keywords@) == labels(old.keywords@)
        &&& self.can_train == old.can_train
        &&& self.silent == old.silent
        &&& self.by_uid == old.by_uid
        &&& self.condstore == old.condstore
    }

    /// Starts a command.
    #[allow(clippy::too_many_arguments)]
    pub fn new(
        ids: Vec<ResolvedId>,
        operation: StoreOperation,
        keywords: Vec<Keyword>,
        can_train: bool,
        silent: bool,
        by_uid: bool,
        condstore: bool,
    ) -> (r: (StoreRun, StoreAction))
        ensures
            r.0.wf(),
            r.0.pos == 0,
            r.0.tries == 0,
            r.0.pending is None,
            r.0.ids@ == ids@,
            r.0.operation == operation,
            labels(r.0.keywords@) == labels(keywords@),
            r.0.can_train == can_train,
            r.0.silent == silent,
            r.0.by_uid == by_uid,
            r.0.condstore == condstore,
            r.0.progress.changelog.entries@.len() == 0,
            r.0.progress.changelog.change_id is None,
            r.0.read_next(r.1),
    {
        let run = StoreRun {
            ids,
            pos: 0,
            tries: 0,
            operation,
            keywords,
            can_train,
            silent,
            by_uid,
            condstore,
            pending: None,
            progress: StoreProgress::new(),
        };
        let action = run.next_read();
        (run, action)
    }

    fn next_read(&self) -> (r: StoreAction)
        ensures
            self.read_next(r),
    {
        if self.pos < self.ids.len() {
            StoreAction::Read { id: self.ids[self.pos].id }
        } else {
            StoreAction::Finished
        }
    }

    fn move_on(&mut self)
        requires
            old(self).pos < old(self).ids@.len(),
        ensures
            final(self).moved_on(old(self)),
            final(self).progress == old(self).progress,
    {
        if self.pos < self.ids.len() {
            self.pos = self.pos + 1;
        }
        self.tries = 0;
        self.pending = None;
    }

    /// Takes the outcome of the last action and gives the next one.
    ///
    /// After a read: a record that is gone, or whose labels the operation leaves
    /// as they are, is passed over; otherwise the new labels are to be written
    /// under the command's change identifier (drawn from `counter` for the first
    /// write only). After a write: a success is recorded; a conflict reads the
    /// record again, until `MAX_RETRIES` retries have failed and the record is
    /// reported as failed.
    pub fn step(&mut self, event: StoreEvent, counter: &mut ChangeCounter) -> (r: StoreAction)
        requires
            old(self).wf(),
        ensures
            final(self).wf(),
            old(self).pos >= old(self).ids@.len() ==> r is Finished,
            old(self).pos < old(self).ids@.len() ==> match event {
                StoreEvent::Loaded(None) => final(self).moved_on(old(self)) && final(self).read_next(r)
                    && final(self).progress == old(self).progress,
                StoreEvent::Loaded(Some(rec)) => {
                    let new_labels = apply_spec(
                        labels(rec.labels@),
                        old(self).operation,
                        labels(old(self).keywords@),
                    );
                    if same_labels(labels(rec.labels@), new_labels) {
                        final(self).moved_on(old(self)) && final(self).read_next(r)
                            && final(self).progress == old(self).progress
                    } else {
                        &&& ((old(self).progress.changelog.change_id matches Some(c) && c < u64::MAX)
                            || (old(self).progress.changelog.change_id is None && old(counter).last
                            < u64::MAX - 1)) ==> r is Write
                        &&& match r {
                            StoreAction::Write { id, version, labels: l, change_id, train_spam } => {
                                &&& id == old(self).ids@[old(self).pos as int].id
                                &&& version == rec.version
                                &&& labels(l@) == new_labels
                                &&& Some(change_id) == final(self).progress.changelog.change_id
                                &&& change_id < u64::MAX
                                &&& train_spam == train_spec(
                                    labels(rec.labels@),
                                    new_labels,
                                    old(self).can_train,
                                )
                                &&& final(self).pos == old(self).pos
                                &&& final(self).tries == old(self).tries
                                &&& final(self).pending is Some
                                &&& final(self).progress.changelog.entries@
                                    == old(self).progress.changelog.entries@
                                &&& final(self).progress.items@ == old(self).progress.items@
                                &&& final(self).progress.changed_mailboxes@
                                    == old(self).progress.changed_mailboxes@
                                &&& final(self).progress.any_failed == old(self).progress.any_failed
                                &&& final(self).progress.has_train_tasks
                                    == old(self).progress.has_train_tasks
                            },
                            _ => final(self).moved_on(old(self)) && final(self).read_next(r)
                                && final(self).progress.any_failed
                                && final(self).progress.changelog.entries@
                                == old(self).progress.changelog.entries@
                                && final(self).progress.items@ == old(self).progress.items@
                                && final(self).progress.changed_mailboxes@
                                == old(self).progress.changed_mailboxes@,
                        }
                    }
                },
                StoreEvent::WriteDone(WriteOutcome::Written) => match old(self).pending {
                    Some(w) => final(self).moved_on(old(self)) && final(self).read_next(r)
                        && written_ok(
                        old(self).progress,
                        final(self).progress,
                        old(self).ids@[old(self).pos as int].id,
                        w.thread_id,
                        old(self).ids@[old(self).pos as int].seqnum,
                        old(self).ids@[old(self).pos as int].uid,
                        labels(w.labels@),
                        w.mailboxes@,
                        w.seen_changed,
                        w.train_spam,
                        old(self).silent,
                        old(self).by_uid,
                        old(self).condstore,
                    ),
                    None => true,
                },
                StoreEvent::WriteDone(WriteOutcome::Conflict) => if old(self).tries < MAX_RETRIES {
                    &&& r == StoreAction::Read { id: old(self).ids@[old(self).pos as int].id }
                    &&& final(self).pos == old(self).pos
                    &&& final(self).tries == old(self).tries + 1
                    &&& final(self).pending is None
                    &&& final(self).progress == old(self).progress
                } else {
                    final(self).moved_on(old(self)) && final(self).read_next(r) && failed_ok(
                        old(self).progress,
                        final(self).progress,
                    )
                },
            },
    {
        if self.pos >= self.ids.len() {
            return StoreAction::Finished;
        }
        match event {
            StoreEvent::Loaded(None) => {
                self.move_on();
                self.next_read()
            },
            StoreEvent::Loaded(Some(rec)) => {
                let plan = plan_update(&rec.labels, self.operation, &self.keywords, self.can_train);
                if !plan.changed {
                    self.move_on();
                    return self.next_read();
                }
                let change_id = match self.progress.change_id(counter) {
                    Some(c) => c,
                    None => {
                        self.progress.record_failed();
                        self.move_on();
                        return self.next_read();
                    },
                };
                if change_id == u64::MAX {
                    self.progress.record_failed();
                    self.move_on();
                    return self.next_read();
                }
                let action = StoreAction::Write {
                    id: self.ids[self.pos].id,
                    version: rec.version,
                    labels: copy_keywords(&plan.labels),
                    change_id,
                    train_spam: plan.train_spam,
                };
                self.pending = Some(
                    PendingWrite {
                        labels: plan.labels,
                        thread_id: rec.thread_id,
                        mailboxes: rec.mailboxes,
                        seen_changed: plan.seen_changed,
                        train_spam: plan.train_spam,
                    },
                );
                action
            },
            StoreEvent::WriteDone(outcome) => {
                match after_write(self.tries, outcome) {
                    RetryDecision::Done => {
                        let pending = self.pending.take();
                        match pending {
                            Some(w) => {
                                let a = self.ids[self.pos];
                                if self.progress.changelog.change_id.is_some()
                                    && self.progress.changelog.change_id.unwrap() < u64::MAX {
                                    self.progress.record_written(
                                        a.id,
                                        w.thread_id,
                                        a.seqnum,
                                        a.uid,
                                        &w.labels,
                                        &w.mailboxes,
                                        w.seen_changed,
                                        w.train_spam,
                                        self.silent,
                                        self.by_uid,
                                        self.condstore,
                                    );
                                } else {
                                    self.progress.record_failed();
                                }
                                self.move_on();
                                self.next_read()
                            },
                            None => self.next_read(),
                        }
                    },
                    RetryDecision::Retry => {
                        self.tries = self.tries + 1;
                        self.pending = None;
                        StoreAction::Read { id: self.ids[self.pos].id }
                    },
                    RetryDecision::GiveUp => {
                        self.progress.record_failed();
                        self.move_on();
                        self.next_read()
                    },
                }
            },
        }
    }
}

} // verus!
