use mailstore_engine::changes::{
    changed_since, unchanged_since, Change, ChangeCounter, ChangeLogBuilder, Collection,
};
use mailstore_engine::dav::DavConfig;
use mailstore_engine::folder::{folder_key_id, topology_key_ids, ExpandedFolders, FolderEntry};
use mailstore_engine::directory::{
    AddressMapping, Principal, PrincipalAction, PrincipalField, PrincipalInfo, PrincipalUpdate, PrincipalValue,
    SpecialSecrets, Type,
};
use mailstore_engine::labels::{
    after_write, apply_operation, from_parts, plan_update, Keyword, RetryDecision, StoreDataItem,
    StoreOperation, StoreProgress, WriteOutcome, MAX_RETRIES,
};
use mailstore_engine::mailbox::{SelectedMailbox, SeqBound, SeqRange, SequenceSet};
use mailstore_engine::queue::{is_zero, parse_queued_report_id, QueueClass, ReportEvent};
use mailstore_engine::codec::{deserialize_string, read_leb128, write_leb128};
use mailstore_engine::sharing::{AccessToken, AclGrant, EffectiveAcl};
use mailstore_engine::sieve::{check_script_name, ScriptNameError};
use mailstore_engine::store::{StoreAction, StoreEvent, StoreRun, StoredRecord};

fn set_of(ranges: &[(SeqBound, SeqBound)]) -> SequenceSet {
    SequenceSet { ranges: ranges.iter().map(|(a, b)| SeqRange { start: *a, end: *b }).collect() }
}

fn all() -> SequenceSet {
    set_of(&[(SeqBound::Number(1), SeqBound::Last)])
}

fn mailbox_with(ids: &[u32]) -> SelectedMailbox {
    let mut m = SelectedMailbox::new(1);
    let changes: Vec<Change> = ids.iter().map(|i| Change::Insert(*i as u64)).collect();
    m.synchronize(&changes);
    m
}

#[test]
fn sync_appends_and_removes() {
    let mut m = mailbox_with(&[10, 11, 12]);
    assert_eq!(m.entries.len(), 3);
    assert_eq!(m.entries[2].uid, 3);
    m.synchronize(&[Change::Delete(11), Change::Insert(13), Change::Insert(10), Change::Update(12)]);
    let ids: Vec<u32> = m.entries.iter().map(|e| e.id).collect();
    assert_eq!(ids, vec![10, 12, 13]);
    let uids: Vec<u32> = m.entries.iter().map(|e| e.uid).collect();
    assert_eq!(uids, vec![1, 3, 4]);
    assert_eq!(m.vanished, vec![2]);
    assert_eq!(m.next_uid, 5);
    // The low 32 bits of a change identifier name the record.
    m.synchronize(&[Change::Delete((5u64 << 32) | 12)]);
    assert_eq!(m.entries.len(), 2);
    assert_eq!(m.vanished, vec![2, 3]);
}

#[test]
fn mailbox_check() {
    let mut m = mailbox_with(&[10, 11]);
    assert!(m.check());
    m.synchronize(&[Change::Delete(10)]);
    assert!(m.check());
    let mut dup = mailbox_with(&[10, 11]);
    dup.entries[1].id = 10;
    assert!(!dup.check());
    let mut order = mailbox_with(&[10, 11]);
    order.entries.swap(0, 1);
    assert!(!order.check());
    let mut stale = mailbox_with(&[10]);
    stale.vanished.push(1);
    assert!(!stale.check());
}

#[test]
fn resolve_by_sequence_and_uid() {
    let mut m = mailbox_with(&[10, 11, 12, 13]);
    m.synchronize(&[Change::Delete(11)]);
    let r = m.sequence_to_ids(&all(), false);
    let seqs: Vec<u32> = r.iter().map(|x| x.seqnum).collect();
    assert_eq!(seqs, vec![1, 2, 3]);
    let ids: Vec<u32> = r.iter().map(|x| x.id).collect();
    assert_eq!(ids, vec![10, 12, 13]);
    let by_uid = m.sequence_to_ids(&set_of(&[(SeqBound::Number(3), SeqBound::Last)]), true);
    let uids: Vec<u32> = by_uid.iter().map(|x| x.uid).collect();
    assert_eq!(uids, vec![3, 4]);
    assert_eq!(by_uid[0].seqnum, 2);
    let reversed = m.sequence_to_ids(&set_of(&[(SeqBound::Last, SeqBound::Number(3))]), false);
    assert_eq!(reversed.len(), 1);
    assert_eq!(reversed[0].id, 13);
    assert!(m.sequence_to_ids(&set_of(&[(SeqBound::Number(9), SeqBound::Number(9))]), false).is_empty());
    let empty = SelectedMailbox::new(1);
    assert!(empty.sequence_to_ids(&all(), true).is_empty());
}

#[test]
fn resolve_and_missing_partition_uids() {
    let mut m = mailbox_with(&[10, 11, 12, 13, 14]);
    m.synchronize(&[Change::Delete(11), Change::Delete(14), Change::Insert(15)]);
    let set = set_of(&[(SeqBound::Number(1), SeqBound::Number(5))]);
    let live: Vec<u32> = m.sequence_to_ids(&set, true).iter().map(|x| x.uid).collect();
    let missing = m.sequence_expand_missing(&set, true);
    assert_eq!(live, vec![1, 3, 4]);
    assert_eq!(missing, vec![2, 5]);
    assert!(live.iter().all(|u| !missing.contains(u)));
    assert!(m.sequence_expand_missing(&set, false).is_empty());
}

#[test]
fn sequence_numbers_stay_contiguous() {
    let mut m = mailbox_with(&[1, 2, 3, 4, 5, 6]);
    m.synchronize(&[Change::Delete(2), Change::Delete(5), Change::Delete(1), Change::Insert(7)]);
    let seqs: Vec<u32> = m.sequence_to_ids(&all(), false).iter().map(|x| x.seqnum).collect();
    assert_eq!(seqs, vec![1, 2, 3, 4]);
}

#[test]
fn change_log_draws_lazily() {
    let mut counter = ChangeCounter { last: 41 };
    let mut empty = ChangeLogBuilder::new();
    assert!(empty.is_empty());
    assert_eq!(empty.commit(&mut counter), None);
    assert_eq!(counter.last, 41);
    let mut log = ChangeLogBuilder::new();
    assert_eq!(log.assign_change_id(&mut counter), Some(42));
    assert_eq!(log.assign_change_id(&mut counter), Some(42));
    log.log_update(Collection::Email, 7);
    log.log_child_update(Collection::Mailbox, 2);
    assert_eq!(log.commit(&mut counter), Some(42));
    assert_eq!(counter.last, 42);
    let mut late = ChangeLogBuilder::new();
    late.log_update(Collection::Email, 1);
    assert_eq!(late.commit(&mut counter), Some(43));
    let mut full = ChangeCounter { last: u64::MAX };
    assert_eq!(full.next(), None);
}

#[test]
fn changed_since_keeps_changed_records() {
    let m = mailbox_with(&[10, 11, 12]);
    let ids = m.sequence_to_ids(&all(), false);
    let r = changed_since(&ids, &[Change::Update(12), Change::Insert(10)]);
    let kept: Vec<u32> = r.ids.iter().map(|x| x.id).collect();
    assert_eq!(kept, vec![10, 12]);
    assert!(r.has_vanished);
    let r2 = changed_since(&ids, &[Change::ChildUpdate(11), Change::Delete(10)]);
    let kept2: Vec<u32> = r2.ids.iter().map(|x| x.id).collect();
    assert_eq!(kept2, vec![11]);
    assert!(r2.has_vanished);
    let r3 = changed_since(&ids, &[Change::Insert(11)]);
    assert!(!r3.has_vanished);
}

#[test]
fn unchanged_since_excludes_modified() {
    // Records 10, 11, 12; record 11 changed at a later modseq.
    let m = mailbox_with(&[10, 11, 12]);
    let ids = m.sequence_to_ids(&all(), false);
    let r = unchanged_since(&ids, &[Change::Update(11)], false, &[]);
    let kept: Vec<u32> = r.ids.iter().map(|x| x.id).collect();
    assert_eq!(kept, vec![10, 12]);
    assert_eq!(r.modified, vec![2]);
    assert!(!r.failed);
    let r2 = unchanged_since(&ids, &[Change::Delete(12), Change::Update(10)], true, &[9, 1]);
    assert_eq!(r2.modified, vec![1, 3, 9]);
    assert!(r2.failed);
    let kept2: Vec<u32> = r2.ids.iter().map(|x| x.id).collect();
    assert_eq!(kept2, vec![11]);
}

fn names(v: &[Keyword]) -> Vec<String> {
    v.iter()
        .map(|k| match k {
            Keyword::Seen => "\\Seen".to_string(),
            Keyword::Flagged => "\\Flagged".to_string(),
            Keyword::Junk => "$Junk".to_string(),
            Keyword::NotJunk => "$NotJunk".to_string(),
            Keyword::Deleted => "\\Deleted".to_string(),
            Keyword::Other(s) => s.clone(),
            _ => "?".to_string(),
        })
        .collect()
}

#[test]
fn label_operations() {
    let current = vec![Keyword::Seen, Keyword::Other("work".to_string())];
    let add = apply_operation(&current, StoreOperation::Add, &vec![Keyword::Flagged, Keyword::Seen]);
    assert_eq!(names(&add), vec!["\\Seen", "work", "\\Flagged"]);
    let clear = apply_operation(&current, StoreOperation::Clear, &vec![Keyword::Seen]);
    assert_eq!(names(&clear), vec!["work"]);
    let replace = apply_operation(&current, StoreOperation::Replace, &vec![Keyword::Deleted, Keyword::Deleted]);
    assert_eq!(names(&replace), vec!["\\Deleted"]);
}

#[test]
fn plan_reports_changes() {
    let current = vec![Keyword::Seen, Keyword::Junk];
    let p = plan_update(&current, StoreOperation::Clear, &vec![Keyword::Seen], true);
    assert!(p.changed && p.seen_changed);
    assert_eq!(p.train_spam, None);
    let same = plan_update(&current, StoreOperation::Replace, &vec![Keyword::Junk, Keyword::Seen], true);
    assert!(!same.changed && !same.seen_changed);
    let junk = plan_update(&vec![], StoreOperation::Add, &vec![Keyword::Junk], true);
    assert_eq!(junk.train_spam, Some(true));
    let ham = plan_update(&current, StoreOperation::Clear, &vec![Keyword::Junk], true);
    assert_eq!(ham.train_spam, Some(false));
    let not_junk = plan_update(&vec![], StoreOperation::Add, &vec![Keyword::NotJunk, Keyword::Junk], true);
    assert_eq!(not_junk.train_spam, Some(false));
    let no_train = plan_update(&vec![], StoreOperation::Add, &vec![Keyword::Junk], false);
    assert_eq!(no_train.train_spam, None);
}

#[test]
fn replace_twice_logs_once() {
    let labels = vec![Keyword::Flagged, Keyword::Seen];
    let first = plan_update(&vec![], StoreOperation::Replace, &labels, false);
    assert!(first.changed);
    let second = plan_update(&first.labels, StoreOperation::Replace, &labels, false);
    assert!(!second.changed);
    let mut progress = StoreProgress::new();
    let mut counter = ChangeCounter { last: 0 };
    for plan in [first, second] {
        if plan.changed {
            progress.change_id(&mut counter);
            progress.record_written(7, 1, 1, 1, &plan.labels, &vec![], plan.seen_changed, None, false, false, false);
        }
    }
    assert_eq!(progress.changelog.entries.len(), 1);
}

#[test]
fn retry_rule() {
    assert_eq!(after_write(0, WriteOutcome::Written), RetryDecision::Done);
    assert_eq!(after_write(0, WriteOutcome::Conflict), RetryDecision::Retry);
    assert_eq!(after_write(MAX_RETRIES, WriteOutcome::Conflict), RetryDecision::GiveUp);
}

/// A record in a store that accepts a write only with the current version.
struct Stored {
    labels: Vec<Keyword>,
    version: u64,
}

impl Stored {
    fn write(&mut self, expected: u64, labels: Vec<Keyword>) -> WriteOutcome {
        if self.version != expected {
            return WriteOutcome::Conflict;
        }
        self.labels = labels;
        self.version += 1;
        WriteOutcome::Written
    }
}

#[test]
fn concurrent_additions_merge_after_one_retry() {
    let mut store = Stored { labels: vec![], version: 1 };
    // Both sessions read the same state.
    let (a_labels, a_version) = (apply_operation(&store.labels, StoreOperation::Add, &vec![Keyword::Flagged]), store.version);
    let (b_labels, b_version) = (apply_operation(&store.labels, StoreOperation::Add, &vec![Keyword::Seen]), store.version);
    assert_eq!(after_write(0, store.write(a_version, a_labels)), RetryDecision::Done);
    let first = store.write(b_version, b_labels);
    assert_eq!(after_write(0, first), RetryDecision::Retry);
    // The second session reads again and redoes its operation.
    let plan = plan_update(&store.labels, StoreOperation::Add, &vec![Keyword::Seen], false);
    let version = store.version;
    assert_eq!(after_write(1, store.write(version, plan.labels)), RetryDecision::Done);
    assert_eq!(names(&store.labels), vec!["\\Flagged", "\\Seen"]);
}

#[test]
fn store_progress_items_and_mailboxes() {
    let mut counter = ChangeCounter { last: 4 };
    let mut p = StoreProgress::new();
    assert_eq!(p.change_id(&mut counter), Some(5));
    let flags = vec![Keyword::Seen];
    p.record_written(7, 3, 2, 40, &flags, &vec![100, 101], true, Some(true), false, true, true);
    p.record_written(8, 3, 3, 41, &flags, &vec![101], true, None, true, false, false);
    p.record_failed();
    p.finish();
    assert!(p.any_failed && p.has_train_tasks);
    assert_eq!(p.changed_mailboxes, vec![100, 101]);
    assert_eq!(p.items.len(), 1);
    assert_eq!(p.items[0].seqnum, 2);
    assert_eq!(p.items[0].items.len(), 3);
    assert!(matches!(p.items[0].items[1], StoreDataItem::Uid(40)));
    assert!(matches!(p.items[0].items[2], StoreDataItem::ModSeq(6)));
    assert_eq!(p.changelog.entries.len(), 4);
    assert!(p.changelog.entries[0].change == Change::Update((3u64 << 32) | 7));
    assert!(p.changelog.entries[2].change == Change::ChildUpdate(100));
    assert!(p.changelog.entries[3].collection == Collection::Mailbox);
    assert_eq!(from_parts(1, 2), (1u64 << 32) + 2);
    let note = p.state_change(9, 5);
    assert_eq!(note.account_id, 9);
    assert_eq!(note.changes.len(), 2);
    assert!(note.changes[1] == (Collection::Mailbox, 5));
    let quiet = StoreProgress::new().state_change(9, 5);
    assert_eq!(quiet.changes.len(), 1);
}

#[test]
fn principal_fields() {
    assert_eq!(PrincipalField::UsedQuota.id(), 13);
    assert!(PrincipalField::from_id(14) == Some(PrincipalField::Picture));
    assert!(PrincipalField::from_id(15).is_none());
    assert_eq!(PrincipalField::EnabledPermissions.as_str(), "enabledPermissions");
    assert!(PrincipalField::try_parse("memberOf") == Some(PrincipalField::MemberOf));
    assert!(PrincipalField::try_parse("MemberOf").is_none());
    for id in 0u8..15 {
        let f = PrincipalField::from_id(id).unwrap();
        assert_eq!(f.id(), id);
        assert!(PrincipalField::try_parse(f.as_str()) == Some(f));
    }
}

#[test]
fn principal_types_and_access() {
    assert_eq!(Type::Superuser.to_jmap(), "individual");
    assert_eq!(Type::List.to_jmap(), "list");
    assert!(Type::default() == Type::Other);
    assert!(Type::from_u8(Type::Tenant.as_u8()) == Type::Tenant);
    assert!(Type::from_u8(200) == Type::Other);
    let user = PrincipalInfo::new(5, Type::Individual, Some(9));
    assert!(user.has_tenant_access(None));
    assert!(user.has_tenant_access(Some(9)));
    assert!(!user.has_tenant_access(Some(8)));
    let tenant = PrincipalInfo::new(9, Type::Tenant, None);
    assert!(tenant.has_tenant_access(Some(9)));
    assert!(!tenant.has_tenant_access(Some(1)));
    let p = Principal {
        id: 1,
        typ: Type::Individual,
        quota: 0,
        name: "jane".to_string(),
        secrets: vec![],
        emails: vec![],
        member_of: vec![],
        description: Some("Jane".to_string()),
    };
    assert_eq!(p.name(), "jane");
    assert!(p.has_name());
    assert_eq!(p.description(), Some("Jane"));
}

#[test]
fn principal_updates() {
    let u = PrincipalUpdate::set(PrincipalField::Name, PrincipalValue::String("x".to_string()));
    assert!(u.action == PrincipalAction::SetValue && u.field == PrincipalField::Name);
    let a = PrincipalUpdate::add_item(PrincipalField::Emails, PrincipalValue::StringList(vec![]));
    assert!(a.action == PrincipalAction::AddItem);
    let r = PrincipalUpdate::remove_item(PrincipalField::Quota, PrincipalValue::Integer(3));
    assert!(r.action == PrincipalAction::RemoveItem);
    assert!(matches!(r.value, PrincipalValue::Integer(3)));
}

#[test]
fn secret_kinds() {
    let otp = "otpauth://totp/x".to_string();
    let app = "$app$name$hash".to_string();
    let plain = "$6$salt$hash".to_string();
    assert!(otp.is_otp_auth() && !otp.is_password());
    assert!(app.is_app_password() && !app.is_password());
    assert!(plain.is_password());
}

#[test]
fn report_ids() {
    match parse_queued_report_id("d!example.org!12!34!56") {
        Some(QueueClass::DmarcReportHeader(e)) => {
            assert_eq!(e.domain, "example.org");
            assert_eq!((e.policy_hash, e.seq_id, e.due), (12, 34, 56));
        }
        _ => panic!("dmarc"),
    }
    assert!(matches!(parse_queued_report_id("t!a!+1!2!3!extra"), Some(QueueClass::TlsReportHeader(_))));
    assert!(parse_queued_report_id("x!a!1!2!3").is_none());
    assert!(parse_queued_report_id("d!a!1!2").is_none());
    assert!(parse_queued_report_id("d!a!1!-2!3").is_none());
    assert!(is_zero(&0) && !is_zero(&-1));
}

#[test]
fn dav_limits() {
    let d = DavConfig::parse(None, None, None);
    assert_eq!(d.max_request_size, 25 * 1024 * 1024);
    assert_eq!(d.dead_property_size, Some(1024));
    assert_eq!(d.live_property_size, 250);
    let e = DavConfig::parse(Some(1), Some(None), Some(2));
    assert_eq!((e.max_request_size, e.dead_property_size, e.live_property_size), (1, None, 2));
}

#[test]
fn leb128_and_strings() {
    let mut out = Vec::new();
    write_leb128(&mut out, 300);
    assert_eq!(out, vec![0xac, 0x02]);
    assert_eq!(read_leb128(&out, 0, 10, u64::MAX), Some((300, 2)));
    assert_eq!(read_leb128(&out, 0, 1, u64::MAX), None);
    assert_eq!(read_leb128(&out, 0, 10, 299), None);
    assert_eq!(read_leb128(&[0x80], 0, 10, u64::MAX), None);
    let mut big = Vec::new();
    write_leb128(&mut big, u64::MAX);
    assert_eq!(big.len(), 10);
    assert_eq!(read_leb128(&big, 0, 10, u64::MAX), Some((u64::MAX, 10)));
    let mut s = vec![9];
    write_leb128(&mut s, 5);
    s.extend_from_slice(b"hello!");
    assert_eq!(deserialize_string(&s, 1), Some(("hello".to_string(), 7)));
    assert_eq!(deserialize_string(&[3, b'a'], 0), None);
    assert_eq!(deserialize_string(&[2, 0xff, 0xfe], 0), None);
}

#[test]
fn principal_info_round_trip() {
    for info in [
        PrincipalInfo::new(7, Type::Group, None),
        PrincipalInfo::new(u32::MAX, Type::Tenant, Some(300)),
    ] {
        let bytes = info.serialize();
        assert!(PrincipalInfo::deserialize(&bytes) == Some(info));
    }
    assert_eq!(PrincipalInfo::new(1, Type::Individual, Some(2)).serialize(), vec![1, 0, 2]);
    assert!(PrincipalInfo::deserialize(&[1]).is_none());
    assert!(PrincipalInfo::deserialize(&[0x80, 0x80, 0x80, 0x80, 0x80, 0x01, 0]).is_none());
}

#[test]
fn effective_rights() {
    let token = AccessToken { primary_id: 1, member_of: vec![5] };
    let grants = vec![
        AclGrant { account_id: 1, grants: 0b0011 },
        AclGrant { account_id: 2, grants: 0b1000 },
        AclGrant { account_id: 5, grants: 0b0100 },
    ];
    assert_eq!(grants.effective_acl(&token), 0b0111);
    assert_eq!(Vec::<AclGrant>::new().effective_acl(&token), 0);
}

#[test]
fn report_id_round_trip() {
    let q = QueueClass::TlsReportHeader(ReportEvent {
        domain: "example.org".to_string(),
        policy_hash: 18446744073709551615,
        seq_id: 0,
        due: 1700000000,
    });
    let id = q.queue_id();
    assert_eq!(id, "t!example.org!18446744073709551615!0!1700000000");
    match parse_queued_report_id(&id) {
        Some(QueueClass::TlsReportHeader(e)) => {
            assert_eq!(e.domain, "example.org");
            assert_eq!((e.policy_hash, e.seq_id, e.due), (u64::MAX, 0, 1700000000));
        }
        _ => panic!("tls"),
    }
}

fn stored(store: &Stored) -> StoredRecord {
    StoredRecord { labels: store.labels.clone(), version: store.version, thread_id: 1, mailboxes: vec![4] }
}

#[test]
fn two_sessions_add_labels_concurrently() {
    let m = mailbox_with(&[7]);
    let ids = m.sequence_to_ids(&all(), false);
    let mut store = Stored { labels: vec![Keyword::Other("work".to_string())], version: 1 };
    let mut counter = ChangeCounter { last: 0 };
    let (mut a, a0) = StoreRun::new(ids.clone(), StoreOperation::Add, vec![Keyword::Flagged], false, false, false, false);
    let (mut b, b0) = StoreRun::new(ids, StoreOperation::Add, vec![Keyword::Seen], false, false, false, false);
    assert!(matches!(a0, StoreAction::Read { id: 7 }) && matches!(b0, StoreAction::Read { id: 7 }));
    // Both read the same version.
    let a1 = a.step(StoreEvent::Loaded(Some(stored(&store))), &mut counter);
    let b1 = b.step(StoreEvent::Loaded(Some(stored(&store))), &mut counter);
    let StoreAction::Write { version: av, labels: al, .. } = a1 else { panic!("write a") };
    let StoreAction::Write { version: bv, labels: bl, .. } = b1 else { panic!("write b") };
    // A writes first and succeeds at once.
    let outcome_a = store.write(av, al);
    assert_eq!(outcome_a, WriteOutcome::Written);
    assert!(matches!(a.step(StoreEvent::WriteDone(outcome_a), &mut counter), StoreAction::Finished));
    // B loses the race, reads again, and succeeds on its one retry.
    let outcome_b = store.write(bv, bl);
    assert_eq!(outcome_b, WriteOutcome::Conflict);
    assert!(matches!(b.step(StoreEvent::WriteDone(outcome_b), &mut counter), StoreAction::Read { id: 7 }));
    let b2 = b.step(StoreEvent::Loaded(Some(stored(&store))), &mut counter);
    let StoreAction::Write { version, labels, .. } = b2 else { panic!("retry write") };
    let outcome = store.write(version, labels);
    assert_eq!(outcome, WriteOutcome::Written);
    assert!(matches!(b.step(StoreEvent::WriteDone(outcome), &mut counter), StoreAction::Finished));
    assert_eq!(b.tries, 0);
    assert_eq!(names(&store.labels), vec!["work", "\\Flagged", "\\Seen"]);
    assert_eq!(a.progress.changelog.entries.len(), 1);
    assert_eq!(b.progress.changelog.entries.len(), 1);
    assert!(!a.progress.any_failed && !b.progress.any_failed);
}

#[test]
fn store_run_gives_up_after_retries() {
    let m = mailbox_with(&[7, 8]);
    let ids = m.sequence_to_ids(&all(), false);
    let mut counter = ChangeCounter { last: 0 };
    let (mut run, _) = StoreRun::new(ids, StoreOperation::Replace, vec![Keyword::Seen], false, true, false, false);
    let rec = || StoredRecord { labels: vec![], version: 1, thread_id: 1, mailboxes: vec![] };
    for _ in 0..MAX_RETRIES {
        assert!(matches!(run.step(StoreEvent::Loaded(Some(rec())), &mut counter), StoreAction::Write { .. }));
        assert!(matches!(run.step(StoreEvent::WriteDone(WriteOutcome::Conflict), &mut counter), StoreAction::Read { id: 7 }));
    }
    assert!(matches!(run.step(StoreEvent::Loaded(Some(rec())), &mut counter), StoreAction::Write { .. }));
    let next = run.step(StoreEvent::WriteDone(WriteOutcome::Conflict), &mut counter);
    assert!(matches!(next, StoreAction::Read { id: 8 }));
    assert!(run.progress.any_failed);
    // Record 8 is gone.
    assert!(matches!(run.step(StoreEvent::Loaded(None), &mut counter), StoreAction::Finished));
    assert_eq!(run.progress.changelog.entries.len(), 0);
    assert_eq!(counter.last, 1);
}

#[test]
fn script_names() {
    assert_eq!(check_script_name("", 10), Err(ScriptNameError::Empty));
    assert_eq!(check_script_name("abcdefghijk", 10), Err(ScriptNameError::TooLong));
    assert_eq!(check_script_name("VaCaTiOn", 10), Err(ScriptNameError::Reserved));
    assert_eq!(check_script_name("vacations", 10), Ok(()));
    assert_eq!(check_script_name("é", 1), Err(ScriptNameError::TooLong));
}

#[test]
fn address_mappings() {
    let m = AddressMapping::Enable;
    assert_eq!(m.to_subaddress("jane+lists@example.org"), "jane@example.org");
    assert_eq!(m.to_subaddress("a+b+c@x@example.org"), "a@example.org");
    assert_eq!(m.to_subaddress("jane@example.org"), "jane@example.org");
    assert_eq!(m.to_subaddress("no-domain+x"), "no-domain+x");
    assert_eq!(m.to_catch_all("jane@example.org").as_deref(), Some("@example.org"));
    assert_eq!(m.to_catch_all("jane"), None);
    assert_eq!(AddressMapping::Disable.to_subaddress("jane+x@y"), "jane+x@y");
    assert_eq!(AddressMapping::Disable.to_catch_all("jane@y"), None);
}

#[test]
fn folder_paths() {
    let entry = |id: u32, name: &str, parent_id: u32| FolderEntry { id, name: name.to_string(), parent_id };
    let folders = ExpandedFolders {
        folders: vec![entry(3, "c", 2), entry(1, "a", 0), entry(2, "b", 1), entry(4, "d", 9)],
    };
    assert_eq!(folders.len(), 4);
    assert!(!folders.is_empty());
    let paths = folders.into_iterator();
    assert_eq!(
        paths,
        vec![(2, "a/b/c".to_string()), (0, "a".to_string()), (1, "a/b".to_string()), (3, "d".to_string())]
    );
    assert!(ExpandedFolders { folders: vec![] }.is_empty());
}

#[test]
fn store_unchanged_since_skips_record_changed_later() {
    let m = mailbox_with(&[10, 11, 12]);
    let ids = m.sequence_to_ids(&all(), false);
    // The change log, with the modseq of each entry: record 11 changed at 7.
    let log = [(3u64, Change::Update(10)), (7u64, Change::Update(11))];
    let since: Vec<Change> = log.iter().filter(|(modseq, _)| *modseq > 5).map(|(_, c)| *c).collect();
    let filtered = unchanged_since(&ids, &since, false, &[]);
    assert_eq!(filtered.modified, vec![2]);
    assert!(!filtered.failed);
    let mut counter = ChangeCounter { last: 7 };
    let (mut run, mut action) =
        StoreRun::new(filtered.ids, StoreOperation::Add, vec![Keyword::Flagged], false, false, false, true);
    let mut written = Vec::new();
    loop {
        let event = match action {
            StoreAction::Read { .. } => {
                StoreEvent::Loaded(Some(StoredRecord { labels: vec![], version: 1, thread_id: 0, mailboxes: vec![] }))
            }
            StoreAction::Write { id, .. } => {
                written.push(id);
                StoreEvent::WriteDone(WriteOutcome::Written)
            }
            StoreAction::Finished => break,
        };
        action = run.step(event, &mut counter);
    }
    assert_eq!(written, vec![10, 12]);
    assert_eq!(run.progress.items.len(), 2);
    assert!(matches!(run.progress.items[1].items[1], StoreDataItem::ModSeq(9)));
    assert!(!run.progress.any_failed);
}

#[test]
fn folder_keys() {
    let key = [9u8, 9, 0, 0, 1, 2, 0, 0, 0, 5];
    assert_eq!(topology_key_ids(&key), Some((5, 258)));
    assert_eq!(topology_key_ids(&key[..7]), None);
    assert_eq!(folder_key_id(&key), Some(6));
    assert_eq!(folder_key_id(&[0xff, 0xff, 0xff, 0xff]), None);
    assert_eq!(folder_key_id(&[1, 2]), None);
}

#[test]
fn replayed_changes_change_nothing() {
    let mut m = mailbox_with(&[10, 11, 12]);
    m.synchronize(&[Change::Delete(11)]);
    let snapshot: Vec<(u32, u32)> = m.entries.iter().map(|e| (e.id, e.uid)).collect();
    m.synchronize(&[Change::Delete(11), Change::Insert(12), Change::Insert(10)]);
    let again: Vec<(u32, u32)> = m.entries.iter().map(|e| (e.id, e.uid)).collect();
    assert_eq!(snapshot, again);
    assert_eq!(m.vanished, vec![2]);
    assert_eq!(m.next_uid, 4);
}

#[test]
fn store_run_marks_mailboxes_when_seen_changes() {
    let m = mailbox_with(&[7]);
    let ids = m.sequence_to_ids(&all(), true);
    let mut counter = ChangeCounter { last: 0 };
    let (mut run, _) = StoreRun::new(ids, StoreOperation::Add, vec![Keyword::Seen], false, false, true, false);
    let rec = StoredRecord { labels: vec![], version: 1, thread_id: 2, mailboxes: vec![4, 5] };
    assert!(matches!(run.step(StoreEvent::Loaded(Some(rec)), &mut counter), StoreAction::Write { change_id: 1, .. }));
    assert!(matches!(run.step(StoreEvent::WriteDone(WriteOutcome::Written), &mut counter), StoreAction::Finished));
    let mut progress = run.progress;
    assert_eq!(progress.items.len(), 1);
    assert_eq!(progress.items[0].seqnum, 1);
    assert!(matches!(progress.items[0].items[1], StoreDataItem::Uid(1)));
    progress.finish();
    assert_eq!(progress.changelog.entries.len(), 3);
    assert!(progress.changelog.entries[1].change == Change::ChildUpdate(4));
    assert_eq!(progress.state_change(1, 1).changes.len(), 2);
}
