//! The attribute projection engine of FETCH: which attributes need the raw
//! message, which set `\Seen`, and the value of each attribute of one record.
use vstd::prelude::*;

use crate::labels::{copy_keywords, from_parts, id_from_parts, labels, Keyword, KeywordView};
use crate::structure::{
    binary_matches, binary_walk, body_section_spec, raw_range, BinaryContents,
    MessageTree, Section,
};
use crate::summary::{envelope_matches, structure_ok, BodyStructure, Envelope};

verus! {

/// An attribute that FETCH can ask for.
pub enum Attribute {
    Envelope,
    Flags,
    InternalDate,
    Preview,
    Rfc822Size,
    Uid,
    Rfc822,
    Rfc822Header,
    Rfc822Text,
    Body,
    BodyStructure,
    BodySection { peek: bool, sections: Vec<Section>, partial: Option<(u32, u32)> },
    Binary { peek: bool, sections: Vec<u32>, partial: Option<(u32, u32)> },
    BinarySize { sections: Vec<u32> },
    ModSeq,
    EmailId,
    ThreadId,
}

/// A FETCH request that cannot be served.
#[derive(Clone, Copy, Debug, PartialEq, Eq, Structural)]
pub enum FetchError {
    /// `VANISHED` was asked for before QRESYNC was enabled.
    QresyncNotEnabled,
    /// `VANISHED` was asked for in a FETCH that is not a UID FETCH.
    VanishedNeedsUid,
}

/// Checks the `VANISHED` modifier against the session state.
pub fn validate_vanished(include_vanished: bool, is_qresync: bool, is_uid: bool) -> (r: Result<
    (),
    FetchError,
>)
    ensures
        !include_vanished ==> r is Ok,
        include_vanished && !is_qresync ==> r == Err::<(), FetchError>(FetchError::QresyncNotEnabled),
        include_vanished && is_qresync && !is_uid ==> r == Err::<(), FetchError>(
            FetchError::VanishedNeedsUid,
        ),
        include_vanished && is_qresync && is_uid ==> r is Ok,
{
    if include_vanished {
        if !is_qresync {
            return Err(FetchError::QresyncNotEnabled);
        } else if !is_uid {
            return Err(FetchError::VanishedNeedsUid);
        }
    }
    Ok(())
}

/// Whether a FETCH turns CONDSTORE on (and so ends with the highest modseq):
/// a "changed since" modifier in a session without it, or a `MODSEQ` attribute.
pub fn enables_condstore(is_condstore: bool, has_changed_since: bool, attrs: &Vec<Attribute>) -> (r:
    bool)
    ensures
        r == ((!is_condstore && has_changed_since) || any_modseq(attrs@)),
{
    (!is_condstore && has_changed_since) || has_modseq(attrs)
}

/// Whether answering the attribute needs the raw message.
pub open spec fn needs_content(a: Attribute) -> bool {
    a is Body || a is BodyStructure || a is BinarySize || a is BodySection || a is Binary
        || a is Rfc822 || a is Rfc822Text
}

/// Whether the attribute marks the message as read: a non-`PEEK` section (other
/// than a header-only one) or binary fetch, or `RFC822` and `RFC822.TEXT`.
pub open spec fn marks_seen(a: Attribute) -> bool {
    match a {
        Attribute::BodySection { peek, sections, .. } => !peek && !(sections@.len() > 0 && (
        sections@[0] is Header || sections@[0] is HeaderFields)),
        Attribute::Binary { peek, .. } => !peek,
        Attribute::Rfc822 => true,
        Attribute::Rfc822Text => true,
        _ => false,
    }
}

/// Which work the attributes of a request ask for.
pub struct FetchPlan {
    pub needs_blobs: bool,
    pub set_seen: bool,
    pub needs_thread_id: bool,
}

fn attr_needs_content(a: &Attribute) -> (r: bool)
    ensures
        r == needs_content(*a),
{
    match a {
        Attribute::Body | Attribute::BodyStructure | Attribute::BinarySize { .. }
        | Attribute::BodySection { .. } | Attribute::Binary { .. } | Attribute::Rfc822
        | Attribute::Rfc822Text => true,
        _ => false,
    }
}

fn attr_marks_seen(a: &Attribute) -> (r: bool)
    ensures
        r == marks_seen(*a),
{
    match a {
        Attribute::BodySection { peek, sections, .. } => {
            let header_only = sections.len() > 0 && match &sections[0] {
                Section::Header | Section::HeaderFields { .. } => true,
                _ => false,
            };
            !*peek && !header_only
        },
        Attribute::Binary { peek, .. } => !*peek,
        Attribute::Rfc822 | Attribute::Rfc822Text => true,
        _ => false,
    }
}

/// Works out the plan of a request. `\Seen` is set only in a mailbox opened
/// read-write (`is_select`) by a user who may modify its messages.
pub fn fetch_plan(attrs: &Vec<Attribute>, is_select: bool, may_modify: bool) -> (r: FetchPlan)
    ensures
        r.needs_blobs == exists|i: int| 0 <= i < attrs@.len() && needs_content(#[trigger] attrs@[i]),
        r.set_seen == (is_select && may_modify && exists|i: int|
            0 <= i < attrs@.len() && marks_seen(#[trigger] attrs@[i])),
        r.needs_thread_id == exists|i: int| 0 <= i < attrs@.len() && #[trigger] attrs@[i] is ThreadId,
{
    let mut needs_blobs = false;
    let mut seen = false;
    let mut needs_thread_id = false;
    let mut i: usize = 0;
    while i < attrs.len()
        invariant
            i <= attrs@.len(),
            needs_blobs == exists|j: int| 0 <= j < i && needs_content(#[trigger] attrs@[j]),
            seen == exists|j: int| 0 <= j < i && marks_seen(#[trigger] attrs@[j]),
            needs_thread_id == exists|j: int| 0 <= j < i && #[trigger] attrs@[j] is ThreadId,
        decreases attrs@.len() - i,
    {
        let a = &attrs[i];
        if attr_needs_content(a) {
            needs_blobs = true;
        }
        if attr_marks_seen(a) {
            seen = true;
        }
        if matches!(a, Attribute::ThreadId) {
            needs_thread_id = true;
        }
        i = i + 1;
    }
    FetchPlan { needs_blobs, set_seen: is_select && may_modify && seen, needs_thread_id }
}

pub open spec fn any_modseq(s: Seq<Attribute>) -> bool {
    exists|i: int| 0 <= i < s.len() && #[trigger] s[i] is ModSeq
}

pub open spec fn any_uid(s: Seq<Attribute>) -> bool {
    exists|i: int| 0 <= i < s.len() && #[trigger] s[i] is Uid
}

/// The attribute list that is answered: `MODSEQ` added at the end for a "changed
/// since" request that lacks it; for UID FETCH, `UID` put first where missing, or
/// `FLAGS` alone where nothing was asked.
pub open spec fn prepared_spec(attrs: Seq<Attribute>, is_uid: bool, changed_since: bool) -> Seq<
    Attribute,
> {
    let with_modseq = if changed_since && !any_modseq(attrs) {
        attrs.push(Attribute::ModSeq)
    } else {
        attrs
    };
    if !is_uid {
        with_modseq
    } else if with_modseq.len() == 0 {
        seq![Attribute::Flags]
    } else if any_uid(with_modseq) {
        with_modseq
    } else {
        with_modseq.insert(0, Attribute::Uid)
    }
}

fn has_modseq(attrs: &Vec<Attribute>) -> (r: bool)
    ensures
        r == any_modseq(attrs@),
{
    let mut i: usize = 0;
    while i < attrs.len()
        invariant
            i <= attrs@.len(),
            forall|j: int| 0 <= j < i ==> !(#[trigger] attrs@[j] is ModSeq),
        decreases attrs@.len() - i,
    {
        if matches!(attrs[i], Attribute::ModSeq) {
            return true;
        }
        i = i + 1;
    }
    false
}

fn has_uid(attrs: &Vec<Attribute>) -> (r: bool)
    ensures
        r == any_uid(attrs@),
{
    let mut i: usize = 0;
    while i < attrs.len()
        invariant
            i <= attrs@.len(),
            forall|j: int| 0 <= j < i ==> !(#[trigger] attrs@[j] is Uid),
        decreases attrs@.len() - i,
    {
        if matches!(attrs[i], Attribute::Uid) {
            return true;
        }
        i = i + 1;
    }
    false
}

/// Completes the attribute list of a request.
pub fn prepare_attributes(attrs: Vec<Attribute>, is_uid: bool, changed_since: bool) -> (r: Vec<
    Attribute,
>)
    ensures
        r@ == prepared_spec(attrs@, is_uid, changed_since),
{
    let mut v = attrs;
    if changed_since && !has_modseq(&v) {
        v.push(Attribute::ModSeq);
    }
    if is_uid {
        if v.len() == 0 {
            v.push(Attribute::Flags);
            assert(v@ =~= seq![Attribute::Flags]);
        } else if !has_uid(&v) {
            v.insert(0, Attribute::Uid);
        }
    }
    v
}

/// What the engine knows of one record besides its structure.
pub struct RecordData {
    pub account_id: u32,
    pub id: u32,
    pub thread_id: u32,
    pub seqnum: u32,
    pub uid: u32,
    /// Seconds since the Unix epoch.
    pub received_at: u64,
    pub size: u32,
    pub preview: String,
    pub keywords: Vec<Keyword>,
    /// The change identifier the record was last written under.
    pub change_id: Option<u64>,
}

/// The value of one attribute of one record.
pub enum DataItem {
    Envelope(Envelope),
    Flags(Vec<Keyword>),
    InternalDate(u64),
    Preview(Option<String>),
    Rfc822Size(u32),
    Uid(u32),
    Rfc822(Vec<u8>),
    Rfc822Header(Vec<u8>),
    Rfc822Text(Vec<u8>),
    Body(BodyStructure),
    BodyStructure(BodyStructure),
    /// The contents of the section that attribute `attribute` asked for.
    BodySection { attribute: usize, origin: Option<u32>, contents: Vec<u8> },
    Binary { attribute: usize, origin: Option<u32>, contents: BinaryContents },
    /// The part that attribute `attribute` asked for could not be decoded.
    BinaryError { attribute: usize },
    BinarySize { attribute: usize, size: usize },
    ModSeq(u64),
    EmailId(u64),
    ThreadId(u64),
}

/// The answer for one record: one entry per attribute (`None` where the attribute
/// has no value for this record), and the flags that are added at the end when the
/// record was marked as read and `FLAGS` was not asked for.
pub struct RecordItems {
    pub items: Vec<Option<DataItem>>,
    pub seen_flags: Option<Vec<Keyword>>,
    /// This fetch marks the record as read, so `\Seen` is to be stored.
    pub marked_seen: bool,
}

pub open spec fn origin_of(partial: Option<(u32, u32)>) -> Option<u32> {
    match partial {
        Some((s, _)) => Some(s),
        None => None,
    }
}

pub open spec fn flags_with_seen(rec: RecordData, set_seen: bool) -> Seq<KeywordView> {
    if set_seen {
        labels(rec.keywords@).push(KeywordView::Seen)
    } else {
        labels(rec.keywords@)
    }
}

/// The value of attribute `a`, at position `i` of the request, for a record;
/// `set_seen` tells whether this fetch marks the record as read.
pub open spec fn item_ok(
    item: Option<DataItem>,
    a: Attribute,
    i: int,
    t: MessageTree,
    rec: RecordData,
    set_seen: bool,
) -> bool {
    let root = t.part(0, 0);
    match a {
        Attribute::Envelope => item matches Some(DataItem::Envelope(e)) && envelope_matches(
            e,
            t.levels@[0].envelope,
        ),
        Attribute::Flags => item matches Some(DataItem::Flags(f)) && labels(f@) == flags_with_seen(
            rec,
            set_seen,
        ),
        Attribute::InternalDate => item == Some(DataItem::InternalDate(rec.received_at)),
        Attribute::Preview => item matches Some(DataItem::Preview(p)) && p == if rec.preview@.len()
            == 0 {
            None
        } else {
            Some(rec.preview)
        },
        Attribute::Rfc822Size => item == Some(DataItem::Rfc822Size(rec.size)),
        Attribute::Uid => item == Some(DataItem::Uid(rec.uid)),
        Attribute::Rfc822 => item matches Some(DataItem::Rfc822(v)) && v@ == t.raw(0),
        Attribute::Rfc822Header => match raw_range(t, 0, root.offset_header, root.offset_body) {
            Some(b) => item matches Some(DataItem::Rfc822Header(v)) && v@ == b,
            None => item is None,
        },
        Attribute::Rfc822Text => item matches Some(DataItem::Rfc822Text(v)) && v@ == t.raw(0),
        Attribute::Body => item matches Some(DataItem::Body(s)) && structure_ok(s, t, false),
        Attribute::BodyStructure => item matches Some(DataItem::BodyStructure(s)) && structure_ok(
            s,
            t,
            true,
        ),
        Attribute::BodySection { sections, partial, .. } => match body_section_spec(
            t,
            sections@,
            partial,
        ) {
            Some(b) => item matches Some(DataItem::BodySection { attribute, origin, contents })
                && attribute == i && origin == origin_of(partial) && contents@ == b,
            None => item is None,
        },
        Attribute::Binary { sections, partial, .. } => match binary_walk(t, sections@, 0, 0, 0) {
            None => item is None,
            Some((l, p)) => if t.part(l, p).encoding_problem {
                item == Some(DataItem::BinaryError { attribute: i as usize })
            } else {
                item matches Some(DataItem::Binary { attribute, origin, contents }) && attribute
                    == i && origin == origin_of(partial) && binary_matches(
                    t,
                    sections@,
                    partial,
                    Ok(Some(contents)),
                )
            },
        },
        Attribute::BinarySize { sections } => match crate::structure::binary_size_spec(
            t,
            sections@,
        ) {
            Some(n) => item matches Some(DataItem::BinarySize { attribute, size }) && attribute == i
                && size == n,
            None => item is None,
        },
        Attribute::ModSeq => match rec.change_id {
            Some(c) => if c < u64::MAX {
                item == Some(DataItem::ModSeq((c + 1) as u64))
            } else {
                item is None
            },
            None => item is None,
        },
        Attribute::EmailId => item == Some(DataItem::EmailId(id_from_parts(rec.account_id, rec.id))),
        Attribute::ThreadId => item == Some(
            DataItem::ThreadId(id_from_parts(rec.account_id, rec.thread_id)),
        ),
    }
}

fn flags_item(rec: &RecordData, set_seen: bool) -> (r: Vec<Keyword>)
    ensures
        labels(r@) == flags_with_seen(*rec, set_seen),
{
    let mut f = copy_keywords(&rec.keywords);
    if set_seen {
        let ghost before = f@;
        f.push(Keyword::Seen);
        assert(labels(f@) =~= labels(before).push(KeywordView::Seen));
    }
    f
}

fn project_one(a: &Attribute, i: usize, t: &MessageTree, rec: &RecordData, set_seen: bool) -> (r:
    Option<DataItem>)
    requires
        t.wf(),
    ensures
        item_ok(r, *a, i as int, *t, *rec, set_seen),
{
    proof {
        assert(t.levels@[0].parts@.len() >= 1);
    }
    let root = &t.levels[0].parts[0];
    match a {
        Attribute::Envelope => Some(DataItem::Envelope(t.envelope())),
        Attribute::Flags => Some(DataItem::Flags(flags_item(rec, set_seen))),
        Attribute::InternalDate => Some(DataItem::InternalDate(rec.received_at)),
        Attribute::Preview => Some(
            DataItem::Preview(
                if rec.preview.as_str().is_empty() {
                    None
                } else {
                    Some(rec.preview.clone())
                },
            ),
        ),
        Attribute::Rfc822Size => Some(DataItem::Rfc822Size(rec.size)),
        Attribute::Uid => Some(DataItem::Uid(rec.uid)),
        Attribute::Rfc822 => Some(
            DataItem::Rfc822(vstd::slice::slice_to_vec(t.levels[0].raw.as_slice())),
        ),
        Attribute::Rfc822Header => match crate::structure::raw_section(
            t,
            0,
            root.offset_header,
            root.offset_body,
        ) {
            Some(b) => Some(DataItem::Rfc822Header(vstd::slice::slice_to_vec(b))),
            None => None,
        },
        Attribute::Rfc822Text => Some(
            DataItem::Rfc822Text(vstd::slice::slice_to_vec(t.levels[0].raw.as_slice())),
        ),
        Attribute::Body => Some(DataItem::Body(t.body_structure(false))),
        Attribute::BodyStructure => Some(DataItem::BodyStructure(t.body_structure(true))),
        Attribute::BodySection { sections, partial, .. } => {
            match t.body_section(sections.as_slice(), *partial) {
                Some(contents) => Some(
                    DataItem::BodySection {
                        attribute: i,
                        origin: match partial {
                            Some((s, _)) => Some(*s),
                            None => None,
                        },
                        contents,
                    },
                ),
                None => None,
            }
        },
        Attribute::Binary { sections, partial, .. } => {
            let res = t.binary(sections.as_slice(), *partial);
            match res {
                Ok(Some(contents)) => Some(
                    DataItem::Binary {
                        attribute: i,
                        origin: match partial {
                            Some((s, _)) => Some(*s),
                            None => None,
                        },
                        contents,
                    },
                ),
                Ok(None) => None,
                Err(_) => Some(DataItem::BinaryError { attribute: i }),
            }
        },
        Attribute::BinarySize { sections } => match t.binary_size(sections.as_slice()) {
            Some(size) => Some(DataItem::BinarySize { attribute: i, size }),
            None => None,
        },
        Attribute::ModSeq => match rec.change_id {
            Some(c) => if c < u64::MAX {
                Some(DataItem::ModSeq(c + 1))
            } else {
                None
            },
            None => None,
        },
        Attribute::EmailId => Some(DataItem::EmailId(from_parts(rec.account_id, rec.id))),
        Attribute::ThreadId => Some(DataItem::ThreadId(from_parts(rec.account_id, rec.thread_id))),
    }
}

/// Whether this fetch marks the record as read: the plan sets `\Seen` and the
/// record does not have it yet.
pub open spec fn record_set_seen(rec: RecordData, plan_set_seen: bool) -> bool {
    plan_set_seen && !labels(rec.keywords@).contains(KeywordView::Seen)
}

fn has_flags(attrs: &Vec<Attribute>) -> (r: bool)
    ensures
        r == exists|i: int| 0 <= i < attrs@.len() && #[trigger] attrs@[i] is Flags,
{
    let mut i: usize = 0;
    while i < attrs.len()
        invariant
            i <= attrs@.len(),
            forall|j: int| 0 <= j < i ==> !(#[trigger] attrs@[j] is Flags),
        decreases attrs@.len() - i,
    {
        if matches!(attrs[i], Attribute::Flags) {
            return true;
        }
        i = i + 1;
    }
    false
}

/// Projects the requested attributes of one record, in request order.
pub fn project(attrs: &Vec<Attribute>, t: &MessageTree, rec: &RecordData, plan_set_seen: bool) -> (r:
    RecordItems)
    requires
        t.wf(),
    ensures
        r.items@.len() == attrs@.len(),
        r.marked_seen == record_set_seen(*rec, plan_set_seen),
        forall|i: int|
            0 <= i < attrs@.len() ==> item_ok(
                #[trigger] r.items@[i],
                attrs@[i],
                i,
                *t,
                *rec,
                record_set_seen(*rec, plan_set_seen),
            ),
        record_set_seen(*rec, plan_set_seen) && !(exists|i: int|
            0 <= i < attrs@.len() && #[trigger] attrs@[i] is Flags) ==> (r.seen_flags matches Some(f)
            && labels(f@) == flags_with_seen(*rec, true)),
        !(record_set_seen(*rec, plan_set_seen) && !(exists|i: int|
            0 <= i < attrs@.len() && #[trigger] attrs@[i] is Flags)) ==> r.seen_flags is None,
{
    let set_seen = plan_set_seen && !crate::labels::contains_keyword(&rec.keywords, &Keyword::Seen);
    let mut items: Vec<Option<DataItem>> = Vec::new();
    let mut i: usize = 0;
    while i < attrs.len()
        invariant
            t.wf(),
            i <= attrs@.len(),
            set_seen == record_set_seen(*rec, plan_set_seen),
            items@.len() == i,
            forall|j: int|
                0 <= j < i ==> item_ok(#[trigger] items@[j], attrs@[j], j, *t, *rec, set_seen),
        decreases attrs@.len() - i,
    {
        items.push(project_one(&attrs[i], i, t, rec, set_seen));
        i = i + 1;
    }
    let seen_flags = if set_seen && !has_flags(attrs) {
        Some(flags_item(rec, true))
    } else {
        None
    };
    RecordItems { items, seen_flags, marked_seen: set_seen }
}

} // verus!
