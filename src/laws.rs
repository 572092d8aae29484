//! Properties that relate several operations of the engine.
use vstd::prelude::*;

use crate::changes::Change;
use crate::fetch::{item_ok, Attribute, DataItem, RecordData};
use crate::labels::{add_all, add_label, apply_spec, same_labels, KeywordView, StoreOperation};
use crate::mailbox::{
    find_id, in_range, in_set, lemma_delete_wf, lemma_find_valid, lemma_insert_wf, max_of,
    missing_prefix, missing_spec, resolve_prefix, resolve_spec, sync_all, sync_step, MailboxEntry,
    MailboxModel, SeqBound, SeqRange,
};
use crate::structure::{
    body_section_spec, crlf, header_block, header_line, in_fields, keeps, kept_lines, raw_range,
    Header, MessageTree, Section,
};

verus! {

// ---------------------------------------------------------------------------
// Address resolver
// ---------------------------------------------------------------------------

/// One change-log entry keeps a well-formed mailbox well formed.
pub proof fn lemma_sync_step_wf(m: MailboxModel, c: Change)
    requires
        m.wf(),
    ensures
        sync_step(m, c).wf(),
{
    match c {
        Change::Delete(x) => {
            let id = crate::changes::doc_id(x);
            lemma_find_valid(m.entries, id);
            if find_id(m.entries, id) >= 0 {
                lemma_delete_wf(m, find_id(m.entries, id));
            }
        },
        Change::Insert(x) => {
            let id = crate::changes::doc_id(x);
            if find_id(m.entries, id) < 0 && m.next_uid < u32::MAX && m.entries.len() + 1 < u32::MAX {
                lemma_insert_wf(m, id);
            }
        },
        _ => {},
    }
}

/// Any sequence of change-log entries keeps a well-formed mailbox well formed.
pub proof fn lemma_sync_wf(m: MailboxModel, cs: Seq<Change>, k: int)
    requires
        m.wf(),
        k <= cs.len(),
    ensures
        sync_all(m, cs, k).wf(),
    decreases k,
{
    if k > 0 {
        lemma_sync_wf(m, cs, k - 1);
        lemma_sync_step_wf(sync_all(m, cs, k - 1), cs[k - 1]);
    }
}

proof fn lemma_find_absent(s: Seq<MailboxEntry>, id: u32)
    requires
        forall|i: int| 0 <= i < s.len() ==> #[trigger] s[i].id != id,
    ensures
        find_id(s, id) == -1,
    decreases s.len(),
{
    if s.len() > 0 {
        assert forall|i: int| 0 <= i < s.drop_last().len() implies #[trigger] s.drop_last()[i].id != id by {
            assert(s.drop_last()[i] == s[i]);
        }
        lemma_find_absent(s.drop_last(), id);
        assert(s.last() == s[s.len() - 1]);
    }
}

proof fn lemma_find_present(s: Seq<MailboxEntry>, id: u32, k: int)
    requires
        0 <= k < s.len(),
        s[k].id == id,
    ensures
        find_id(s, id) >= 0,
    decreases s.len(),
{
    if k < s.len() - 1 {
        assert(s.drop_last()[k] == s[k]);
        lemma_find_present(s.drop_last(), id, k);
    }
}

/// Replaying a change-log entry that was already applied changes nothing:
/// a deleted record is gone, an inserted one is present.
pub proof fn lemma_sync_step_idempotent(m: MailboxModel, c: Change)
    requires
        m.wf(),
    ensures
        sync_step(sync_step(m, c), c) == sync_step(m, c),
{
    let m1 = sync_step(m, c);
    match c {
        Change::Delete(x) => {
            let id = crate::changes::doc_id(x);
            lemma_find_valid(m.entries, id);
            let i = find_id(m.entries, id);
            if i >= 0 {
                let e = m.entries.remove(i);
                assert forall|k: int| 0 <= k < e.len() implies #[trigger] e[k].id != id by {
                    let k2 = if k < i { k } else { k + 1 };
                    assert(e[k] == m.entries[k2]);
                    assert(k2 != i);
                }
                lemma_find_absent(e, id);
            } else {
                lemma_find_valid(m.entries, id);
            }
        },
        Change::Insert(x) => {
            let id = crate::changes::doc_id(x);
            lemma_find_valid(m.entries, id);
            if find_id(m.entries, id) < 0 && m.next_uid < u32::MAX && m.entries.len() + 1 < u32::MAX {
                let e = m1.entries;
                assert(e[e.len() - 1].id == id);
                lemma_find_present(e, id, e.len() - 1);
            } else {
                lemma_find_valid(m.entries, id);
            }
        },
        _ => {},
    }
}

proof fn lemma_resolved_uids(entries: Seq<MailboxEntry>, set: Seq<SeqRange>, k: int, u: u32)
    requires
        0 <= k <= entries.len(),
    ensures
        (exists|j: int|
            0 <= j < resolve_prefix(entries, set, true, k).len() && #[trigger] resolve_prefix(
                entries,
                set,
                true,
                k,
            )[j].uid == u) <==> (exists|i: int|
            0 <= i < k && #[trigger] entries[i].uid == u && in_set(set, u as int, max_of(entries, true))),
    decreases k,
{
    if k > 0 {
        lemma_resolved_uids(entries, set, k - 1, u);
        let prev = resolve_prefix(entries, set, true, k - 1);
        let cur = resolve_prefix(entries, set, true, k);
        if exists|j: int| 0 <= j < cur.len() && #[trigger] cur[j].uid == u {
            let j = choose|j: int| 0 <= j < cur.len() && #[trigger] cur[j].uid == u;
            if j < prev.len() {
                assert(prev[j] == cur[j]);
            } else {
                assert(entries[k - 1].uid == u);
            }
        }
        if exists|i: int|
            0 <= i < k && #[trigger] entries[i].uid == u && in_set(set, u as int, max_of(entries, true)) {
            let i = choose|i: int|
                0 <= i < k && #[trigger] entries[i].uid == u && in_set(
                    set,
                    u as int,
                    max_of(entries, true),
                );
            if i < k - 1 {
                let j = choose|j: int| 0 <= j < prev.len() && #[trigger] prev[j].uid == u;
                assert(cur[j] == prev[j]);
            } else {
                assert(cur[prev.len() as int].uid == u);
            }
        }
    }
}

proof fn lemma_missing_uids(m: MailboxModel, set: Seq<SeqRange>, k: int, u: u32)
    requires
        0 <= k <= m.vanished.len(),
    ensures
        missing_prefix(m, set, k).contains(u) <==> (exists|i: int|
            0 <= i < k && #[trigger] m.vanished[i] == u && in_set(set, u as int, max_of(m.entries, true))),
    decreases k,
{
    if k > 0 {
        lemma_missing_uids(m, set, k - 1, u);
        let prev = missing_prefix(m, set, k - 1);
        let cur = missing_prefix(m, set, k);
        if cur.contains(u) {
            let j = choose|j: int| 0 <= j < cur.len() && cur[j] == u;
            if j < prev.len() {
                assert(prev[j] == u);
            }
        }
        if exists|i: int|
            0 <= i < k && #[trigger] m.vanished[i] == u && in_set(set, u as int, max_of(m.entries, true)) {
            let i = choose|i: int|
                0 <= i < k && #[trigger] m.vanished[i] == u && in_set(
                    set,
                    u as int,
                    max_of(m.entries, true),
                );
            if i < k - 1 {
                let j = choose|j: int| 0 <= j < prev.len() && prev[j] == u;
                assert(cur[j] == u);
            } else {
                assert(cur[prev.len() as int] == u);
            }
        }
    }
}

/// The UIDs that resolving by UID returns.
pub open spec fn resolved_uid(m: MailboxModel, set: Seq<SeqRange>, u: u32) -> bool {
    exists|j: int|
        0 <= j < resolve_prefix(m.entries, set, true, m.entries.len() as int).len()
            && #[trigger] resolve_prefix(m.entries, set, true, m.entries.len() as int)[j].uid == u
}

/// After any resynchronisation, resolving a UID set and expanding its missing
/// UIDs split the UIDs it names that the mailbox has known into the live ones and
/// the vanished ones, with none in both.
pub proof fn lemma_resolve_partition(m: MailboxModel, changes: Seq<Change>, set: Seq<SeqRange>)
    requires
        m.wf(),
    ensures
        ({
            let m2 = sync_all(m, changes, changes.len() as int);
            &&& m2.wf()
            &&& forall|u: u32|
                (#[trigger] resolved_uid(m2, set, u) || missing_spec(m2, set, true).contains(u)) <==> (
                in_set(set, u as int, max_of(m2.entries, true)) && (m2.is_live_uid(u)
                    || m2.is_vanished_uid(u)))
            &&& forall|u: u32|
                !(#[trigger] resolved_uid(m2, set, u) && missing_spec(m2, set, true).contains(u))
        }),
{
    let m2 = sync_all(m, changes, changes.len() as int);
    lemma_sync_wf(m, changes, changes.len() as int);
    assert forall|u: u32|
        (#[trigger] resolved_uid(m2, set, u) || missing_spec(m2, set, true).contains(u)) <==> (in_set(
            set,
            u as int,
            max_of(m2.entries, true),
        ) && (m2.is_live_uid(u) || m2.is_vanished_uid(u))) by {
        lemma_resolved_uids(m2.entries, set, m2.entries.len() as int, u);
        lemma_missing_uids(m2, set, m2.vanished.len() as int, u);
        if m2.is_vanished_uid(u) {
            let i = choose|i: int| 0 <= i < m2.vanished.len() && m2.vanished[i] == u;
            assert(m2.vanished[i] == u);
        }
        if m2.is_live_uid(u) && in_set(set, u as int, max_of(m2.entries, true)) {
            let i = choose|i: int| 0 <= i < m2.entries.len() && #[trigger] m2.entries[i].uid == u;
            assert(m2.entries[i].uid == u);
            assert(exists|i: int|
                0 <= i < m2.entries.len() && #[trigger] m2.entries[i].uid == u && in_set(set, u as int, max_of(m2.entries, true)));
            assert(resolved_uid(m2, set, u));
        }
        if missing_spec(m2, set, true).contains(u) {
            let i = choose|i: int| 0 <= i < m2.vanished.len() && #[trigger] m2.vanished[i] == u && in_set(set, u as int, max_of(m2.entries, true));
            assert(m2.vanished.contains(u));
        }
        if resolved_uid(m2, set, u) {
            let i = choose|i: int| 0 <= i < m2.entries.len() && #[trigger] m2.entries[i].uid == u && in_set(set, u as int, max_of(m2.entries, true));
            assert(m2.is_live_uid(u));
        }
    }
    assert forall|u: u32| !(#[trigger] resolved_uid(m2, set, u) && missing_spec(m2, set, true).contains(u)) by {
        lemma_resolved_uids(m2.entries, set, m2.entries.len() as int, u);
        lemma_missing_uids(m2, set, m2.vanished.len() as int, u);
        if resolved_uid(m2, set, u) && missing_spec(m2, set, true).contains(u) {
            let i = choose|i: int| 0 <= i < m2.entries.len() && #[trigger] m2.entries[i].uid == u && in_set(set, u as int, max_of(m2.entries, true));
            let k = choose|k: int| 0 <= k < m2.vanished.len() && #[trigger] m2.vanished[k] == u && in_set(set, u as int, max_of(m2.entries, true));
            assert(m2.vanished[k] != m2.entries[i].uid);
        }
    }
}

/// The set `1:*`.
pub open spec fn all_messages() -> Seq<SeqRange> {
    seq![SeqRange { start: SeqBound::Number(1), end: SeqBound::Last }]
}

proof fn lemma_resolve_all(entries: Seq<MailboxEntry>, k: int)
    requires
        0 <= k <= entries.len(),
        entries.len() < u32::MAX,
    ensures
        resolve_prefix(entries, all_messages(), false, k).len() == k,
        forall|i: int|
            0 <= i < k ==> #[trigger] resolve_prefix(entries, all_messages(), false, k)[i].seqnum
                == i + 1,
    decreases k,
{
    if k > 0 {
        lemma_resolve_all(entries, k - 1);
        assert(in_range(all_messages()[0], k, max_of(entries, false)));
        assert(in_set(all_messages(), k, max_of(entries, false)));
        let prev = resolve_prefix(entries, all_messages(), false, k - 1);
        let cur = resolve_prefix(entries, all_messages(), false, k);
        assert forall|i: int| 0 <= i < k implies #[trigger] cur[i].seqnum == i + 1 by {
            if i < k - 1 {
                assert(cur[i] == prev[i]);
            }
        }
    }
}

proof fn lemma_resolve_ascending(entries: Seq<MailboxEntry>, set: Seq<SeqRange>, k: int)
    requires
        0 <= k <= entries.len(),
        entries.len() < u32::MAX,
    ensures
        forall|i: int|
            0 <= i < resolve_prefix(entries, set, false, k).len() ==> 1 <= #[trigger] resolve_prefix(
                entries,
                set,
                false,
                k,
            )[i].seqnum <= k,
        forall|i: int, j: int|
            0 <= i < j < resolve_prefix(entries, set, false, k).len() ==> #[trigger] resolve_prefix(
                entries,
                set,
                false,
                k,
            )[i].seqnum < #[trigger] resolve_prefix(entries, set, false, k)[j].seqnum,
    decreases k,
{
    if k > 0 {
        lemma_resolve_ascending(entries, set, k - 1);
        let prev = resolve_prefix(entries, set, false, k - 1);
        let cur = resolve_prefix(entries, set, false, k);
        assert forall|i: int| 0 <= i < cur.len() implies 1 <= #[trigger] cur[i].seqnum <= k by {
            if i < prev.len() {
                assert(cur[i] == prev[i]);
            }
        }
        assert forall|i: int, j: int| 0 <= i < j < cur.len() implies #[trigger] cur[i].seqnum < #[trigger] cur[j].seqnum by {
            assert(cur[i] == prev[i]);
            if j < prev.len() {
                assert(cur[j] == prev[j]);
            }
        }
    }
}

/// After any resynchronisation, the sequence numbers that resolving returns
/// ascend strictly within `1..=N`, `N` being the number of visible messages, and
/// resolving `1:*` returns exactly `1, 2, ..., N`.
pub proof fn lemma_sequence_numbers_contiguous(
    m: MailboxModel,
    changes: Seq<Change>,
    set: Seq<SeqRange>,
)
    requires
        m.wf(),
    ensures
        ({
            let m2 = sync_all(m, changes, changes.len() as int);
            let n = m2.entries.len() as int;
            let r = resolve_spec(m2, set, false);
            let all = resolve_spec(m2, all_messages(), false);
            &&& forall|i: int| 0 <= i < r.len() ==> 1 <= #[trigger] r[i].seqnum <= n
            &&& forall|i: int, j: int| 0 <= i < j < r.len() ==> #[trigger] r[i].seqnum < #[trigger] r[j].seqnum
            &&& all.len() == n
            &&& forall|i: int| 0 <= i < n ==> #[trigger] all[i].seqnum == i + 1
        }),
{
    let m2 = sync_all(m, changes, changes.len() as int);
    lemma_sync_wf(m, changes, changes.len() as int);
    lemma_resolve_ascending(m2.entries, set, m2.entries.len() as int);
    lemma_resolve_all(m2.entries, m2.entries.len() as int);
}

// ---------------------------------------------------------------------------
// Mutation engine
// ---------------------------------------------------------------------------

/// Replacing the labels with `ks` a second time, with no change in between,
/// leaves them as they are, so the second operation writes nothing and logs
/// nothing.
pub proof fn lemma_replace_idempotent(current: Seq<KeywordView>, ks: Seq<KeywordView>)
    ensures
        ({
            let once = apply_spec(current, StoreOperation::Replace, ks);
            let twice = apply_spec(once, StoreOperation::Replace, ks);
            twice == once && same_labels(once, twice)
        }),
{
}

proof fn lemma_add_label_set(s: Seq<KeywordView>, k: KeywordView)
    ensures
        add_label(s, k).to_set() == s.to_set().insert(k),
{
    if s.contains(k) {
        assert(s.to_set().insert(k) =~= s.to_set());
    } else {
        assert forall|x: KeywordView| s.push(k).to_set().contains(x) == s.to_set().insert(k).contains(x) by {
            if s.push(k).contains(x) {
                let i = choose|i: int| 0 <= i < s.push(k).len() && s.push(k)[i] == x;
                if i < s.len() {
                    assert(s[i] == x);
                }
            }
            if s.contains(x) {
                let i = choose|i: int| 0 <= i < s.len() && s[i] == x;
                assert(s.push(k)[i] == x);
            }
            if x == k {
                assert(s.push(k)[s.len() as int] == k);
            }
        }
        assert(s.push(k).to_set() =~= s.to_set().insert(k));
    }
}

/// Adding labels gives exactly the labels there were and the ones added.
pub proof fn lemma_add_all_set(s: Seq<KeywordView>, ks: Seq<KeywordView>)
    ensures
        add_all(s, ks).to_set() == s.to_set() + ks.to_set(),
    decreases ks.len(),
{
    if ks.len() == 0 {
        assert(ks.to_set() =~= Set::<KeywordView>::empty());
        assert(s.to_set() + ks.to_set() =~= s.to_set());
    } else {
        lemma_add_all_set(s, ks.drop_last());
        lemma_add_label_set(add_all(s, ks.drop_last()), ks.last());
        assert forall|x: KeywordView| ks.to_set().contains(x) == ks.drop_last().to_set().insert(ks.last()).contains(x) by {
            if ks.contains(x) {
                let i = choose|i: int| 0 <= i < ks.len() && ks[i] == x;
                if i < ks.len() - 1 {
                    assert(ks.drop_last()[i] == x);
                }
            }
            if ks.drop_last().contains(x) {
                let i = choose|i: int| 0 <= i < ks.drop_last().len() && ks.drop_last()[i] == x;
                assert(ks[i] == x);
            }
            if x == ks.last() {
                assert(ks[ks.len() - 1] == x);
            }
        }
        assert(add_all(s, ks).to_set() =~= s.to_set() + ks.to_set());
    }
}

/// Two STORE commands that add labels to the same record lose nothing to each
/// other: whichever write lands first, the one that is retried adds its labels to
/// what the first wrote, and the record ends with the labels it had and both
/// additions, the same either way round.
pub proof fn lemma_concurrent_additions(k0: Seq<KeywordView>, l1: Seq<KeywordView>, l2: Seq<KeywordView>)
    ensures
        apply_spec(apply_spec(k0, StoreOperation::Add, l1), StoreOperation::Add, l2).to_set() == k0.to_set()
            + l1.to_set() + l2.to_set(),
        same_labels(
            apply_spec(apply_spec(k0, StoreOperation::Add, l1), StoreOperation::Add, l2),
            apply_spec(apply_spec(k0, StoreOperation::Add, l2), StoreOperation::Add, l1),
        ),
{
    lemma_add_all_set(k0, l1);
    lemma_add_all_set(add_all(k0, l1), l2);
    lemma_add_all_set(k0, l2);
    lemma_add_all_set(add_all(k0, l2), l1);
    assert(k0.to_set() + l1.to_set() + l2.to_set() =~= k0.to_set() + l2.to_set() + l1.to_set());
}

// ---------------------------------------------------------------------------
// Structure navigator
// ---------------------------------------------------------------------------

/// Fetching the whole message (`BODY[]`, no path) returns exactly the bytes from
/// the start of the root's headers to the end of its body.
pub proof fn lemma_whole_message(
    t: MessageTree,
    item: Option<DataItem>,
    peek: bool,
    sections: Vec<Section>,
    i: int,
    rec: RecordData,
    set_seen: bool,
)
    requires
        sections@.len() == 0,
        item_ok(item, Attribute::BodySection { peek, sections, partial: None }, i, t, rec, set_seen),
    ensures
        body_section_spec(t, sections@, None) == raw_range(
            t,
            0,
            t.part(0, 0).offset_header,
            t.part(0, 0).offset_end,
        ),
        match raw_range(t, 0, t.part(0, 0).offset_header, t.part(0, 0).offset_end) {
            Some(b) => item matches Some(DataItem::BodySection { contents, .. }) && contents@ == b,
            None => item is None,
        },
{
}

/// Concatenates header lines.
pub open spec fn concat_lines(s: Seq<Seq<u8>>) -> Seq<u8>
    decreases s.len(),
{
    if s.len() == 0 {
        Seq::empty()
    } else {
        concat_lines(s.drop_last()) + s.last()
    }
}

/// The lines, one per header, that a header filter keeps among the first `k`.
pub open spec fn kept_line_seq(
    t: MessageTree,
    l: int,
    hs: Seq<Header>,
    not: bool,
    fields: Seq<Vec<u8>>,
    k: int,
) -> Seq<Seq<u8>>
    decreases k,
{
    if k <= 0 {
        Seq::empty()
    } else {
        let prev = kept_line_seq(t, l, hs, not, fields, k - 1);
        if keeps(false, not, fields, hs[k - 1].name@) {
            prev.push(header_line(t, l, hs[k - 1]))
        } else {
            prev
        }
    }
}

/// Rebuilds a header list header by header from the lines a `HEADER.FIELDS`
/// query kept (`a`) and those its `.NOT` counterpart kept (`b`), `picks[i]`
/// telling which of the two holds header `i`.
pub open spec fn merge_lines(a: Seq<Seq<u8>>, b: Seq<Seq<u8>>, picks: Seq<bool>) -> Seq<Seq<u8>>
    decreases picks.len(),
{
    if picks.len() == 0 {
        Seq::empty()
    } else if picks.last() {
        merge_lines(a.drop_last(), b, picks.drop_last()).push(a.last())
    } else {
        merge_lines(a, b.drop_last(), picks.drop_last()).push(b.last())
    }
}

proof fn lemma_kept_concat(t: MessageTree, l: int, hs: Seq<Header>, not: bool, fields: Seq<Vec<u8>>, k: int)
    requires
        0 <= k,
    ensures
        kept_lines(t, l, hs, false, not, fields, k) == concat_lines(kept_line_seq(t, l, hs, not, fields, k)),
    decreases k,
{
    if k > 0 {
        lemma_kept_concat(t, l, hs, not, fields, k - 1);
        let prev = kept_line_seq(t, l, hs, not, fields, k - 1);
        if keeps(false, not, fields, hs[k - 1].name@) {
            assert(prev.push(header_line(t, l, hs[k - 1])).drop_last() =~= prev);
        }
    }
}

proof fn lemma_merge(t: MessageTree, l: int, hs: Seq<Header>, fields: Seq<Vec<u8>>, k: int)
    requires
        0 <= k <= hs.len(),
    ensures
        merge_lines(
            kept_line_seq(t, l, hs, false, fields, k),
            kept_line_seq(t, l, hs, true, fields, k),
            hs.subrange(0, k).map_values(|h: Header| in_fields(h.name@, fields)),
        ) == kept_line_seq(t, l, hs, true, Seq::empty(), k),
    decreases k,
{
    if k > 0 {
        lemma_merge(t, l, hs, fields, k - 1);
        let picks = hs.subrange(0, k).map_values(|h: Header| in_fields(h.name@, fields));
        let prev_picks = hs.subrange(0, k - 1).map_values(|h: Header| in_fields(h.name@, fields));
        assert(picks.drop_last() =~= prev_picks);
        assert(picks.last() == in_fields(hs[k - 1].name@, fields));
        assert(!in_fields(hs[k - 1].name@, Seq::<Vec<u8>>::empty()));
        let a = kept_line_seq(t, l, hs, false, fields, k);
        let b = kept_line_seq(t, l, hs, true, fields, k);
        if in_fields(hs[k - 1].name@, fields) {
            assert(a.drop_last() =~= kept_line_seq(t, l, hs, false, fields, k - 1));
        } else {
            assert(b.drop_last() =~= kept_line_seq(t, l, hs, true, fields, k - 1));
        }
    }
}

/// For any name list, each header of a part is kept by exactly one of
/// `HEADER.FIELDS (names)` and `HEADER.FIELDS.NOT (names)`; both blocks are the
/// concatenation of the lines they keep, ended by a blank line; and merging the two
/// line lists header by header gives back the lines of every header, whose
/// concatenation is the full header block.
pub proof fn lemma_header_fields_complement(t: MessageTree, l: int, p: int, fields: Seq<Vec<u8>>)
    ensures
        ({
            let hs = t.part(l, p).headers@;
            let n = hs.len() as int;
            let a = kept_line_seq(t, l, hs, false, fields, n);
            let b = kept_line_seq(t, l, hs, true, fields, n);
            let all = kept_line_seq(t, l, hs, true, Seq::empty(), n);
            &&& forall|i: int|
                0 <= i < n ==> keeps(false, false, fields, #[trigger] hs[i].name@) != keeps(
                    false,
                    true,
                    fields,
                    hs[i].name@,
                )
            &&& header_block(t, l, p, false, false, fields) == concat_lines(a) + crlf()
            &&& header_block(t, l, p, false, true, fields) == concat_lines(b) + crlf()
            &&& merge_lines(a, b, hs.map_values(|h: Header| in_fields(h.name@, fields))) == all
            &&& header_block(t, l, p, false, true, Seq::empty()) == concat_lines(all) + crlf()
        }),
{
    let hs = t.part(l, p).headers@;
    let n = hs.len() as int;
    lemma_kept_concat(t, l, hs, false, fields, n);
    lemma_kept_concat(t, l, hs, true, fields, n);
    lemma_kept_concat(t, l, hs, true, Seq::empty(), n);
    lemma_merge(t, l, hs, fields, n);
    assert(hs.subrange(0, n) =~= hs);
}

} // verus!
