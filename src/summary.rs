//! Envelope and structural summary (`ENVELOPE`, `BODY`, `BODYSTRUCTURE`) of a
//! message tree.
use vstd::prelude::*;
use vstd::string::StringExecFns;

use crate::structure::{
    at, part_wf, raw_range, raw_section, AddressValue, EnvelopeHeaders, MailAddr,
    MessageTree, MimeHeaders, Param, Part, PartKind,
};

verus! {

// ---------------------------------------------------------------------------
// Outside calls
// ---------------------------------------------------------------------------

/// The lowercase hex MD5 digest of some bytes.
pub uninterp spec fn md5_hex_of(b: Seq<u8>) -> Seq<char>;

/// Relies on `md5::compute` and its `LowerHex` impl: two lowercase hex digits for
/// each of the 16 digest bytes, depending on the input bytes alone.
#[verifier::external_body]
fn md5_hex(b: &[u8]) -> (r: String)
    ensures
        r@ == md5_hex_of(b@),
        r@.len() == 32,
{
    format!("{:x}", md5::compute(b))
}

/// The RFC 822 date that a Unix timestamp stands for.
pub uninterp spec fn rfc822_date_of(ts: i64) -> Seq<char>;

/// Relies on `mail_parser::DateTime::from_timestamp` and `DateTime::to_rfc822`:
/// the text depends on the timestamp alone.
#[verifier::external_body]
fn rfc822_date(ts: i64) -> (r: String)
    ensures
        r@ == rfc822_date_of(ts),
{
    mail_parser::DateTime::from_timestamp(ts).to_rfc822()
}

// ---------------------------------------------------------------------------
// Small copies
// ---------------------------------------------------------------------------

pub open spec fn opt_str(o: Option<String>) -> Option<Seq<char>> {
    match o {
        Some(s) => Some(s@),
        None => None,
    }
}

fn clone_opt(o: &Option<String>) -> (r: Option<String>)
    ensures
        r == *o,
{
    match o {
        Some(s) => Some(s.clone()),
        None => None,
    }
}

fn clone_params(v: &Vec<Param>) -> (r: Vec<Param>)
    ensures
        r@ == v@,
{
    let mut r: Vec<Param> = Vec::new();
    let mut i: usize = 0;
    while i < v.len()
        invariant
            i <= v@.len(),
            r@ == v@.subrange(0, i as int),
        decreases v@.len() - i,
    {
        r.push(Param { name: v[i].name.clone(), value: v[i].value.clone() });
        i = i + 1;
        assert(r@ =~= v@.subrange(0, i as int));
    }
    assert(v@.subrange(0, v@.len() as int) =~= v@);
    r
}

fn clone_strings(v: &Vec<String>) -> (r: Vec<String>)
    ensures
        r@ == v@,
{
    let mut r: Vec<String> = Vec::new();
    let mut i: usize = 0;
    while i < v.len()
        invariant
            i <= v@.len(),
            r@ == v@.subrange(0, i as int),
        decreases v@.len() - i,
    {
        r.push(v[i].clone());
        i = i + 1;
        assert(r@ =~= v@.subrange(0, i as int));
    }
    assert(v@.subrange(0, v@.len() as int) =~= v@);
    r
}

pub open spec fn bracketed(s: Seq<char>) -> Seq<char> {
    seq!['<'] + s + seq!['>']
}

fn bracket(s: &String) -> (r: String)
    ensures
        r@ == bracketed(s@),
{
    let mut r = String::from_str("<");
    r.append(s.as_str());
    r.append(">");
    proof {
        reveal_strlit("<");
        reveal_strlit(">");
    }
    r
}

// ---------------------------------------------------------------------------
// Envelope
// ---------------------------------------------------------------------------

/// A mailbox of an envelope address list.
pub struct EmailAddress {
    pub name: Option<String>,
    pub address: String,
}

/// An entry of an envelope address list.
pub enum ImapAddress {
    Single(EmailAddress),
    Group { name: Option<String>, addresses: Vec<EmailAddress> },
}

/// The envelope of a message.
pub struct Envelope {
    pub date: Option<String>,
    pub subject: Option<String>,
    pub from: Vec<ImapAddress>,
    pub sender: Vec<ImapAddress>,
    pub reply_to: Vec<ImapAddress>,
    pub to: Vec<ImapAddress>,
    pub cc: Vec<ImapAddress>,
    pub bcc: Vec<ImapAddress>,
    pub in_reply_to: Option<String>,
    pub message_id: Option<String>,
}

/// The mathematical value of an envelope address entry.
pub enum AddrView {
    Single(Option<Seq<char>>, Seq<char>),
    Group(Option<Seq<char>>, Seq<(Option<Seq<char>>, Seq<char>)>),
}

pub open spec fn email_view(e: EmailAddress) -> (Option<Seq<char>>, Seq<char>) {
    (opt_str(e.name), e.address@)
}

pub open spec fn addr_view(a: ImapAddress) -> AddrView {
    match a {
        ImapAddress::Single(e) => AddrView::Single(opt_str(e.name), e.address@),
        ImapAddress::Group { name, addresses } => AddrView::Group(
            opt_str(name),
            addresses@.map_values(|e: EmailAddress| email_view(e)),
        ),
    }
}

pub open spec fn addrs_view(v: Seq<ImapAddress>) -> Seq<AddrView> {
    v.map_values(|a: ImapAddress| addr_view(a))
}

/// The mailboxes among the first `k` entries that carry an address.
pub open spec fn mailboxes(addrs: Seq<MailAddr>, k: int) -> Seq<(Option<Seq<char>>, Seq<char>)>
    decreases k,
{
    if k <= 0 {
        Seq::empty()
    } else {
        let prev = mailboxes(addrs, k - 1);
        match addrs[k - 1].address {
            Some(a) => prev.push((opt_str(addrs[k - 1].name), a@)),
            None => prev,
        }
    }
}

pub open spec fn singles(m: Seq<(Option<Seq<char>>, Seq<char>)>) -> Seq<AddrView> {
    m.map_values(|e: (Option<Seq<char>>, Seq<char>)| AddrView::Single(e.0, e.1))
}

/// The envelope entries of one address header value.
pub open spec fn value_addrs(v: AddressValue) -> Seq<AddrView> {
    match v {
        AddressValue::List(list) => singles(mailboxes(list@, list@.len() as int)),
        AddressValue::Group(groups) => groups@.map_values(
            |g: crate::structure::MailGroup|
                AddrView::Group(opt_str(g.name), mailboxes(g.addresses@, g.addresses@.len() as int)),
        ),
        AddressValue::Other => Seq::empty(),
    }
}

/// The envelope entries of the first `k` values of an address header.
pub open spec fn header_addrs(vals: Seq<AddressValue>, k: int) -> Seq<AddrView>
    decreases k,
{
    if k <= 0 {
        Seq::empty()
    } else {
        header_addrs(vals, k - 1) + value_addrs(vals[k - 1])
    }
}

pub open spec fn all_addrs(vals: Seq<AddressValue>) -> Seq<AddrView> {
    header_addrs(vals, vals.len() as int)
}

/// The `In-Reply-To` list written as `<a> <b> ...` (first `k` entries).
pub open spec fn joined_ids(list: Seq<String>, k: int) -> Seq<char>
    decreases k,
{
    if k <= 0 {
        Seq::empty()
    } else if k == 1 {
        bracketed(list[0]@)
    } else {
        joined_ids(list, k - 1) + seq![' '] + bracketed(list[k - 1]@)
    }
}

pub open spec fn envelope_matches(e: Envelope, h: EnvelopeHeaders) -> bool {
    &&& opt_str(e.date) == match h.date {
        Some(ts) => Some(rfc822_date_of(ts)),
        None => None::<Seq<char>>,
    }
    &&& e.subject == h.subject
    &&& addrs_view(e.from@) == all_addrs(h.from@)
    &&& addrs_view(e.sender@) == all_addrs(h.sender@)
    &&& addrs_view(e.reply_to@) == all_addrs(h.reply_to@)
    &&& addrs_view(e.to@) == all_addrs(h.to@)
    &&& addrs_view(e.cc@) == all_addrs(h.cc@)
    &&& addrs_view(e.bcc@) == all_addrs(h.bcc@)
    &&& opt_str(e.in_reply_to) == match h.in_reply_to {
        Some(list) => Some(joined_ids(list@, list@.len() as int)),
        None => None::<Seq<char>>,
    }
    &&& opt_str(e.message_id) == match h.message_id {
        Some(id) => Some(bracketed(id@)),
        None => None::<Seq<char>>,
    }
}

fn collect_mailboxes(addrs: &Vec<MailAddr>) -> (r: Vec<EmailAddress>)
    ensures
        r@.map_values(|e: EmailAddress| email_view(e)) == mailboxes(addrs@, addrs@.len() as int),
{
    let mut r: Vec<EmailAddress> = Vec::new();
    let mut i: usize = 0;
    while i < addrs.len()
        invariant
            i <= addrs@.len(),
            r@.map_values(|e: EmailAddress| email_view(e)) == mailboxes(addrs@, i as int),
        decreases addrs@.len() - i,
    {
        let a = &addrs[i];
        match &a.address {
            Some(addr) => {
                let e = EmailAddress { name: clone_opt(&a.name), address: addr.clone() };
                let ghost before = r@;
                r.push(e);
                assert(r@.map_values(|e: EmailAddress| email_view(e)) =~= before.map_values(
                    |e: EmailAddress| email_view(e),
                ).push(email_view(e)));
            },
            None => {},
        }
        i = i + 1;
    }
    r
}

fn push_value_addrs(out: &mut Vec<ImapAddress>, v: &AddressValue)
    ensures
        addrs_view(final(out)@) == addrs_view(old(out)@) + value_addrs(*v),
{
    match v {
        AddressValue::List(list) => {
            let ms = collect_mailboxes(list);
            let mut i: usize = 0;
            while i < ms.len()
                invariant
                    i <= ms@.len(),
                    addrs_view(out@) == addrs_view(old(out)@) + singles(
                        ms@.map_values(|e: EmailAddress| email_view(e)),
                    ).subrange(0, i as int),
                decreases ms@.len() - i,
            {
                let e = EmailAddress { name: clone_opt(&ms[i].name), address: ms[i].address.clone() };
                let ghost before = out@;
                out.push(ImapAddress::Single(e));
                assert(addrs_view(out@) =~= addrs_view(before).push(addr_view(ImapAddress::Single(e))));
                i = i + 1;
                assert(singles(ms@.map_values(|e: EmailAddress| email_view(e))).subrange(0, i as int)
                    =~= singles(ms@.map_values(|e: EmailAddress| email_view(e))).subrange(0, i - 1).push(
                    AddrView::Single(opt_str(e.name), e.address@),
                ));
            }
            assert(singles(ms@.map_values(|e: EmailAddress| email_view(e))).subrange(
                0,
                ms@.len() as int,
            ) =~= singles(ms@.map_values(|e: EmailAddress| email_view(e))));
        },
        AddressValue::Group(groups) => {
            let mut i: usize = 0;
            while i < groups.len()
                invariant
                    i <= groups@.len(),
                    addrs_view(out@) == addrs_view(old(out)@) + value_addrs(*v).subrange(0, i as int),
                    *v == AddressValue::Group(*groups),
                decreases groups@.len() - i,
            {
                let g = &groups[i];
                let a = ImapAddress::Group { name: clone_opt(&g.name), addresses: collect_mailboxes(&g.addresses) };
                let ghost before = out@;
                out.push(a);
                assert(addrs_view(out@) =~= addrs_view(before).push(addr_view(a)));
                i = i + 1;
                assert(value_addrs(*v).subrange(0, i as int) =~= value_addrs(*v).subrange(0, i - 1).push(
                    addr_view(a),
                ));
            }
            assert(value_addrs(*v).subrange(0, groups@.len() as int) =~= value_addrs(*v));
        },
        AddressValue::Other => {
            assert(addrs_view(out@) =~= addrs_view(out@) + value_addrs(*v));
        },
    }
}

fn envelope_addrs(vals: &Vec<AddressValue>) -> (r: Vec<ImapAddress>)
    ensures
        addrs_view(r@) == all_addrs(vals@),
{
    let mut r: Vec<ImapAddress> = Vec::new();
    let mut i: usize = 0;
    assert(addrs_view(r@) =~= Seq::empty());
    while i < vals.len()
        invariant
            i <= vals@.len(),
            addrs_view(r@) == header_addrs(vals@, i as int),
        decreases vals@.len() - i,
    {
        push_value_addrs(&mut r, &vals[i]);
        i = i + 1;
    }
    r
}

fn join_ids(list: &Vec<String>) -> (r: String)
    ensures
        r@ == joined_ids(list@, list@.len() as int),
{
    let mut r = String::new();
    let mut i: usize = 0;
    while i < list.len()
        invariant
            i <= list@.len(),
            r@ == joined_ids(list@, i as int),
        decreases list@.len() - i,
    {
        if i > 0 {
            r.append(" ");
            proof {
                reveal_strlit(" ");
            }
        }
        let b = bracket(&list[i]);
        r.append(b.as_str());
        i = i + 1;
    }
    r
}

/// Builds the envelope of a message from its parsed root headers.
pub fn envelope_of(h: &EnvelopeHeaders) -> (r: Envelope)
    ensures
        envelope_matches(r, *h),
{
    Envelope {
        date: match h.date {
            Some(ts) => Some(rfc822_date(ts)),
            None => None,
        },
        subject: clone_opt(&h.subject),
        from: envelope_addrs(&h.from),
        sender: envelope_addrs(&h.sender),
        reply_to: envelope_addrs(&h.reply_to),
        to: envelope_addrs(&h.to),
        cc: envelope_addrs(&h.cc),
        bcc: envelope_addrs(&h.bcc),
        in_reply_to: match &h.in_reply_to {
            Some(list) => Some(join_ids(list)),
            None => None,
        },
        message_id: match &h.message_id {
            Some(id) => Some(bracket(id)),
            None => None,
        },
    }
}

impl MessageTree {
    /// The envelope of the message, read from the headers of its root.
    pub fn envelope(&self) -> (r: Envelope)
        requires
            self.wf(),
        ensures
            envelope_matches(r, self.levels@[0].envelope),
    {
        envelope_of(&self.levels[0].envelope)
    }
}

// ---------------------------------------------------------------------------
// Structural summary
// ---------------------------------------------------------------------------

/// A reference to part `part` of level `level` of the tree, and so to the node
/// of the summary that stands for it.
#[derive(Clone, Copy, Debug, PartialEq, Eq, Structural)]
pub struct PartRef {
    pub level: usize,
    pub part: usize,
}

/// A `Content-Disposition` as the extended summary gives it.
pub struct Disposition {
    pub kind: String,
    pub params: Vec<Param>,
}

/// The basic fields of a summary node.
pub struct BodyFields {
    pub parameters: Option<Vec<Param>>,
    pub subtype: Option<String>,
    pub id: Option<String>,
    pub description: Option<String>,
    pub encoding: Option<String>,
    pub size_octets: usize,
}

/// The fields that only the extended summary fills.
pub struct BodyExtension {
    pub disposition: Option<Disposition>,
    pub language: Option<Vec<String>>,
    pub location: Option<String>,
}

/// The kind of a summary node, with its links to the nodes below it.
pub enum BodyKind {
    Multipart { children: Vec<PartRef>, subtype: String },
    Message { body: PartRef, envelope: Envelope },
    /// The number of lines of the body; counted for the extended form only.
    Text { lines: usize },
    Basic { body_type: Option<String> },
}

/// The summary of one part.
pub struct BodyNode {
    pub kind: BodyKind,
    pub fields: BodyFields,
    pub md5: Option<String>,
    pub extension: BodyExtension,
}

/// The structural summary of a message: one node for each part of each level,
/// laid out as the tree is, so `nodes[l][p]` describes part `p` of level `l` and
/// the root is `nodes[0][0]`.
pub struct BodyStructure {
    pub nodes: Vec<Vec<BodyNode>>,
}

pub open spec fn ct_subtype(m: MimeHeaders) -> Option<Seq<char>> {
    match m.content_type {
        Some(ct) => opt_str(ct.c_subtype),
        None => None,
    }
}

pub open spec fn ct_type(m: MimeHeaders) -> Option<Seq<char>> {
    match m.content_type {
        Some(ct) => Some(ct.c_type@),
        None => None,
    }
}

pub open spec fn ct_params(m: MimeHeaders) -> Option<Seq<Param>> {
    match m.content_type {
        Some(ct) => match ct.attributes {
            Some(a) => Some(a@),
            None => None,
        },
        None => None,
    }
}

pub open spec fn opt_params(o: Option<Vec<Param>>) -> Option<Seq<Param>> {
    match o {
        Some(v) => Some(v@),
        None => None,
    }
}

pub open spec fn opt_strings(o: Option<Vec<String>>) -> Option<Seq<String>> {
    match o {
        Some(v) => Some(v@),
        None => None,
    }
}

/// The number of line feeds in some bytes.
pub open spec fn newlines(b: Seq<u8>) -> nat
    decreases b.len(),
{
    if b.len() == 0 {
        0
    } else {
        newlines(b.drop_last()) + if b.last() == 10u8 {
            1nat
        } else {
            0nat
        }
    }
}

pub open spec fn default_params_ok(v: Seq<Param>) -> bool {
    v.len() == 1 && v[0].name@ == "charset"@ && v[0].value@ == "us-ascii"@
}

/// The parameters of a node: those of its `Content-Type`, on a leaf or in the
/// extended form, with `charset=us-ascii` where a text leaf has none.
pub open spec fn params_ok(got: Option<Vec<Param>>, part: Part, ext: bool) -> bool {
    let multipart = part.kind is Multipart;
    let src = if !multipart || ext {
        ct_params(part.mime)
    } else {
        None
    };
    if !multipart && crate::structure::is_text_kind(part.kind) && src is None {
        got matches Some(v) && default_params_ok(v@)
    } else {
        opt_params(got) == src
    }
}

pub open spec fn or_default(o: Option<Seq<char>>, dflt: Seq<char>, use_default: bool) -> Option<
    Seq<char>,
> {
    if o is None && use_default {
        Some(dflt)
    } else {
        o
    }
}

pub open spec fn fields_ok(f: BodyFields, t: MessageTree, l: int, p: int, ext: bool) -> bool {
    let part = t.part(l, p);
    let m = part.mime;
    let text = crate::structure::is_text_kind(part.kind);
    let body = raw_range(t, l, part.offset_body, part.offset_end);
    &&& params_ok(f.parameters, part, ext)
    &&& if part.kind is Multipart {
        &&& f.subtype is None
        &&& f.id is None
        &&& f.description is None
        &&& f.encoding is None
        &&& f.size_octets == 0
    } else {
        &&& opt_str(f.subtype) == or_default(ct_subtype(m), "plain"@, text)
        &&& opt_str(f.id) == match m.content_id {
            Some(id) => Some(bracketed(id@)),
            None => None,
        }
        &&& f.description == m.description
        &&& opt_str(f.encoding) == or_default(opt_str(m.encoding), "7bit"@, text)
        &&& f.size_octets == match body {
            Some(b) => b.len(),
            None => 0,
        }
    }
}

pub open spec fn extension_ok(e: BodyExtension, m: MimeHeaders, ext: bool) -> bool {
    if ext {
        &&& match (e.disposition, m.disposition) {
            (Some(d), Some(cd)) => d.kind@ == cd.c_type@ && d.params@ == match cd.attributes {
                Some(a) => a@,
                None => Seq::empty(),
            },
            (None, None) => true,
            _ => false,
        }
        &&& opt_strings(e.language) == opt_strings(m.language)
        &&& e.location == m.location
    } else {
        e.disposition is None && e.language is None && e.location is None
    }
}

pub open spec fn kind_ok(k: BodyKind, t: MessageTree, l: int, p: int, ext: bool) -> bool {
    let part = t.part(l, p);
    let body = raw_range(t, l, part.offset_body, part.offset_end);
    match part.kind {
        PartKind::Multipart(children) => match k {
            BodyKind::Multipart { children: refs, subtype } => {
                &&& refs@.len() == children@.len()
                &&& forall|i: int|
                    0 <= i < refs@.len() ==> #[trigger] refs@[i] == (PartRef {
                        level: l as usize,
                        part: children@[i] as usize,
                    })
                &&& Some(subtype@) == or_default(ct_subtype(part.mime), Seq::empty(), true)
            },
            _ => false,
        },
        PartKind::Message(n) => match k {
            BodyKind::Message { body: r, envelope } => r == (PartRef { level: n as usize, part: 0 })
                && envelope_matches(envelope, t.levels@[n as int].envelope),
            _ => false,
        },
        PartKind::Text | PartKind::Html => match k {
            BodyKind::Text { lines } => lines == if ext {
                newlines(
                    match body {
                        Some(b) => b,
                        None => Seq::empty(),
                    },
                )
            } else {
                0
            },
            _ => false,
        },
        _ => match k {
            BodyKind::Basic { body_type } => opt_str(body_type) == ct_type(part.mime),
            _ => false,
        },
    }
}

/// What the summary node of part `p` of level `l` holds; `ext` asks for the
/// extended (`BODYSTRUCTURE`) form, with checksums and extension fields.
pub open spec fn node_ok(n: BodyNode, t: MessageTree, l: int, p: int, ext: bool) -> bool {
    let part = t.part(l, p);
    let body = raw_range(t, l, part.offset_body, part.offset_end);
    &&& kind_ok(n.kind, t, l, p, ext)
    &&& fields_ok(n.fields, t, l, p, ext)
    &&& extension_ok(n.extension, part.mime, ext)
    &&& opt_str(n.md5) == if ext && !(part.kind is Multipart) {
        match body {
            Some(b) => Some(md5_hex_of(b)),
            None => None,
        }
    } else {
        None
    }
}

fn count_newlines(b: &[u8]) -> (r: usize)
    ensures
        r == newlines(b@),
{
    let mut n: usize = 0;
    let mut i: usize = 0;
    while i < b.len()
        invariant
            i <= b@.len(),
            n == newlines(b@.subrange(0, i as int)),
            n <= i,
        decreases b@.len() - i,
    {
        assert(b@.subrange(0, i + 1).drop_last() =~= b@.subrange(0, i as int));
        if b[i] == 10u8 {
            n = n + 1;
        }
        i = i + 1;
    }
    assert(b@.subrange(0, b@.len() as int) =~= b@);
    n
}

fn default_string(o: Option<String>, dflt: &str, use_default: bool) -> (r: Option<String>)
    ensures
        opt_str(r) == or_default(opt_str(o), dflt@, use_default),
{
    if o.is_none() && use_default {
        Some(String::from_str(dflt))
    } else {
        o
    }
}

fn content_params(m: &MimeHeaders) -> (r: Option<Vec<Param>>)
    ensures
        opt_params(r) == ct_params(*m),
{
    match &m.content_type {
        Some(ct) => match &ct.attributes {
            Some(a) => Some(clone_params(a)),
            None => None,
        },
        None => None,
    }
}

fn content_subtype(m: &MimeHeaders) -> (r: Option<String>)
    ensures
        opt_str(r) == ct_subtype(*m),
{
    match &m.content_type {
        Some(ct) => clone_opt(&ct.c_subtype),
        None => None,
    }
}

fn node_fields(t: &MessageTree, l: usize, p: usize, ext: bool) -> (r: BodyFields)
    requires
        at(*t, l as int, p as int),
    ensures
        fields_ok(r, *t, l as int, p as int, ext),
{
    let part = &t.levels[l].parts[p];
    let m = &part.mime;
    let multipart = matches!(part.kind, PartKind::Multipart(_));
    let text = matches!(part.kind, PartKind::Text | PartKind::Html);
    let mut parameters = if !multipart || ext {
        content_params(m)
    } else {
        None
    };
    if !multipart && text && parameters.is_none() {
        let mut v: Vec<Param> = Vec::new();
        v.push(Param { name: String::from_str("charset"), value: String::from_str("us-ascii") });
        parameters = Some(v);
    }
    if multipart {
        return BodyFields {
            parameters,
            subtype: None,
            id: None,
            description: None,
            encoding: None,
            size_octets: 0,
        };
    }
    let size_octets = match raw_section(t, l, part.offset_body, part.offset_end) {
        Some(b) => b.len(),
        None => 0,
    };
    BodyFields {
        parameters,
        subtype: default_string(content_subtype(m), "plain", text),
        id: match &m.content_id {
            Some(id) => Some(bracket(id)),
            None => None,
        },
        description: clone_opt(&m.description),
        encoding: default_string(clone_opt(&m.encoding), "7bit", text),
        size_octets,
    }
}

fn node_extension(m: &MimeHeaders, ext: bool) -> (r: BodyExtension)
    ensures
        extension_ok(r, *m, ext),
{
    if !ext {
        return BodyExtension { disposition: None, language: None, location: None };
    }
    BodyExtension {
        disposition: match &m.disposition {
            Some(cd) => Some(
                Disposition {
                    kind: cd.c_type.clone(),
                    params: match &cd.attributes {
                        Some(a) => clone_params(a),
                        None => Vec::new(),
                    },
                },
            ),
            None => None,
        },
        language: match &m.language {
            Some(v) => Some(clone_strings(v)),
            None => None,
        },
        location: clone_opt(&m.location),
    }
}

fn node_kind(t: &MessageTree, l: usize, p: usize, ext: bool) -> (r: BodyKind)
    requires
        t.wf(),
        at(*t, l as int, p as int),
    ensures
        kind_ok(r, *t, l as int, p as int, ext),
{
    let part = &t.levels[l].parts[p];
    proof {
        assert(part_wf(*t, l as int, p as int));
    }
    match &part.kind {
        PartKind::Multipart(children) => {
            let mut refs: Vec<PartRef> = Vec::new();
            let mut i: usize = 0;
            while i < children.len()
                invariant
                    i <= children@.len(),
                    refs@.len() == i,
                    forall|j: int|
                        0 <= j < i ==> #[trigger] refs@[j] == (PartRef {
                            level: l,
                            part: children@[j] as usize,
                        }),
                decreases children@.len() - i,
            {
                refs.push(PartRef { level: l, part: children[i] as usize });
                i = i + 1;
            }
            let subtype = match content_subtype(&part.mime) {
                Some(s) => s,
                None => String::new(),
            };
            BodyKind::Multipart { children: refs, subtype }
        },
        PartKind::Message(n) => {
            let n = *n as usize;
            BodyKind::Message {
                body: PartRef { level: n, part: 0 },
                envelope: envelope_of(&t.levels[n].envelope),
            }
        },
        PartKind::Text | PartKind::Html => {
            let lines = if !ext {
                0
            } else {
                match raw_section(t, l, part.offset_body, part.offset_end) {
                    Some(b) => count_newlines(b),
                    None => 0,
                }
            };
            BodyKind::Text { lines }
        },
        _ => BodyKind::Basic {
            body_type: match &part.mime.content_type {
                Some(ct) => Some(ct.c_type.clone()),
                None => None,
            },
        },
    }
}

fn summarize(t: &MessageTree, l: usize, p: usize, ext: bool) -> (r: BodyNode)
    requires
        t.wf(),
        at(*t, l as int, p as int),
    ensures
        node_ok(r, *t, l as int, p as int, ext),
{
    let part = &t.levels[l].parts[p];
    let md5 = if ext && !matches!(part.kind, PartKind::Multipart(_)) {
        match raw_section(t, l, part.offset_body, part.offset_end) {
            Some(b) => Some(md5_hex(b)),
            None => None,
        }
    } else {
        None
    };
    BodyNode {
        kind: node_kind(t, l, p, ext),
        fields: node_fields(t, l, p, ext),
        md5,
        extension: node_extension(&part.mime, ext),
    }
}

/// The summary has one node for each part of the tree, each as `node_ok` says.
pub open spec fn structure_ok(s: BodyStructure, t: MessageTree, ext: bool) -> bool {
    &&& s.nodes@.len() == t.levels@.len()
    &&& forall|l: int|
        0 <= l < t.levels@.len() ==> #[trigger] s.nodes@[l]@.len() == t.levels@[l].parts@.len()
    &&& forall|l: int, p: int|
        at(t, l, p) ==> #[trigger] node_ok(s.nodes@[l]@[p], t, l, p, ext)
}

impl MessageTree {
    /// The structural summary of the message (`BODY` when `ext` is false,
    /// `BODYSTRUCTURE` when it is true). It is built level by level and part by
    /// part, without recursion, so its cost in stack does not grow with the depth
    /// of nesting; each node links to the nodes of its sub-parts, and a message
    /// node to the root of the embedded message.
    pub fn body_structure(&self, ext: bool) -> (r: BodyStructure)
        requires
            self.wf(),
        ensures
            structure_ok(r, *self, ext),
    {
        let mut nodes: Vec<Vec<BodyNode>> = Vec::new();
        let mut l: usize = 0;
        while l < self.levels.len()
            invariant
                self.wf(),
                l <= self.levels@.len(),
                nodes@.len() == l,
                forall|k: int|
                    0 <= k < l ==> #[trigger] nodes@[k]@.len() == self.levels@[k].parts@.len(),
                forall|k: int, p: int|
                    0 <= k < l && at(*self, k, p) ==> #[trigger] node_ok(
                        nodes@[k]@[p],
                        *self,
                        k,
                        p,
                        ext,
                    ),
            decreases self.levels@.len() - l,
        {
            let mut row: Vec<BodyNode> = Vec::new();
            let mut p: usize = 0;
            while p < self.levels[l].parts.len()
                invariant
                    self.wf(),
                    l < self.levels@.len(),
                    p <= self.levels@[l as int].parts@.len(),
                    row@.len() == p,
                    forall|q: int| 0 <= q < p ==> #[trigger] node_ok(row@[q], *self, l as int, q, ext),
                decreases self.levels@[l as int].parts@.len() - p,
            {
                row.push(summarize(self, l, p, ext));
                p = p + 1;
            }
            nodes.push(row);
            l = l + 1;
        }
        BodyStructure { nodes }
    }
}

// ---------------------------------------------------------------------------
// Walk order
// ---------------------------------------------------------------------------

pub open spec fn parts_len(t: MessageTree, l: int) -> int {
    t.levels@[l].parts@.len() as int
}

/// The parts under part `p` of level `l`, the part itself first, in the order a
/// nested structure lists them: each multipart's sub-parts in turn, and an
/// embedded message's root after the message part.
pub open spec fn walk_from(t: MessageTree, l: int, p: int) -> Seq<PartRef>
    decreases t.levels@.len() - l, parts_len(t, l) - p, 1int, 0int,
{
    if !t.wf() || !at(t, l, p) {
        Seq::empty()
    } else {
        seq![PartRef { level: l as usize, part: p as usize }] + match t.part(l, p).kind {
            PartKind::Multipart(cs) => walk_list(t, l, p, cs@, 0),
            PartKind::Message(n) => if l < n < t.levels@.len() {
                walk_from(t, n as int, 0)
            } else {
                Seq::empty()
            },
            _ => Seq::empty(),
        }
    }
}

/// The walks of the sub-parts `cs[k..]` of part `p` of level `l`, one after the
/// other.
pub open spec fn walk_list(t: MessageTree, l: int, p: int, cs: Seq<u16>, k: int) -> Seq<PartRef>
    decreases t.levels@.len() - l, parts_len(t, l) - p, 0int, cs.len() - k,
{
    if !t.wf() || !at(t, l, p) || k < 0 || k >= cs.len() {
        Seq::empty()
    } else if p < cs[k] < parts_len(t, l) {
        walk_from(t, l, cs[k] as int) + walk_list(t, l, p, cs, k + 1)
    } else {
        walk_list(t, l, p, cs, k + 1)
    }
}

/// The walks still to do for a work stack whose top is its last element.
pub open spec fn pending(t: MessageTree, stack: Seq<PartRef>) -> Seq<PartRef>
    decreases stack.len(),
{
    if stack.len() == 0 {
        Seq::empty()
    } else {
        walk_from(t, stack.last().level as int, stack.last().part as int) + pending(
            t,
            stack.drop_last(),
        )
    }
}

pub open spec fn refs_in_tree(t: MessageTree, stack: Seq<PartRef>) -> bool {
    forall|i: int| 0 <= i < stack.len() ==> at(t, #[trigger] stack[i].level as int, stack[i].part as int)
}

impl MessageTree {
    /// The parts of the message in the order that a nested `BODYSTRUCTURE` lists
    /// them (each part before what it contains), found with an explicit work
    /// stack rather than recursion, so that deep nesting costs heap, not stack.
    pub fn structure_order(&self) -> (r: Vec<PartRef>)
        requires
            self.wf(),
        ensures
            r@ == walk_from(*self, 0, 0),
    {
        proof {
            assert(self.levels@[0].parts@.len() >= 1);
        }
        let mut out: Vec<PartRef> = Vec::new();
        let mut stack: Vec<PartRef> = Vec::new();
        stack.push(PartRef { level: 0, part: 0 });
        proof {
            assert(stack@.drop_last() =~= Seq::<PartRef>::empty());
            assert(stack@.last() == PartRef { level: 0, part: 0 });
            assert(pending(*self, stack@) == walk_from(*self, 0, 0) + pending(*self, stack@.drop_last()));
            assert(pending(*self, Seq::<PartRef>::empty()) =~= Seq::<PartRef>::empty());
            assert(out@ + pending(*self, stack@) =~= walk_from(*self, 0, 0));
        }
        while stack.len() > 0
            invariant
                self.wf(),
                refs_in_tree(*self, stack@),
                out@ + pending(*self, stack@) == walk_from(*self, 0, 0),
            decreases pending(*self, stack@).len(),
        {
            let x = stack.pop().unwrap();
            let ghost rest = stack@;
            let l = x.level;
            let p = x.part;
            proof {
                assert(at(*self, l as int, p as int));
                assert(part_wf(*self, l as int, p as int));
            }
            let ghost before = out@;
            out.push(x);
            match &self.levels[l].parts[p].kind {
                PartKind::Multipart(children) => {
                    let mut j: usize = children.len();
                    proof {
                        assert(walk_list(*self, l as int, p as int, children@, j as int) =~= Seq::<PartRef>::empty());
                        assert(pending(*self, stack@) =~= walk_list(*self, l as int, p as int, children@, j as int) + pending(*self, rest));
                    }
                    while j > 0
                        invariant
                            self.wf(),
                            at(*self, l as int, p as int),
                            self.levels@[l as int].parts@[p as int].kind == PartKind::Multipart(*children),
                            j <= children@.len(),
                            refs_in_tree(*self, stack@),
                            pending(*self, stack@) == walk_list(*self, l as int, p as int, children@, j as int) + pending(*self, rest),
                        decreases j,
                    {
                        j = j - 1;
                        let c = children[j] as usize;
                        proof {
                            assert(part_wf(*self, l as int, p as int));
                            assert(p < children@[j as int] < parts_len(*self, l as int));
                        }
                        let ghost prev = stack@;
                        stack.push(PartRef { level: l, part: c });
                        proof {
                            assert(stack@.drop_last() =~= prev);
                            assert(stack@.last() == PartRef { level: l, part: c });
                        }
                    }
                },
                PartKind::Message(n) => {
                    let n = *n as usize;
                    proof {
                        assert(self.levels@[n as int].parts@.len() >= 1);
                    }
                    let ghost prev = stack@;
                    stack.push(PartRef { level: n, part: 0 });
                    proof {
                        assert(stack@.drop_last() =~= prev);
                    }
                },
                _ => {},
            }
            proof {
                assert(out@ =~= before.push(x));
                assert(walk_from(*self, l as int, p as int) =~= seq![x] + (walk_from(*self, l as int, p as int).subrange(1, walk_from(*self, l as int, p as int).len() as int)));
            }
        }
        proof {
            assert(stack@ =~= Seq::<PartRef>::empty());
            assert(out@ + Seq::<PartRef>::empty() =~= out@);
        }
        out
    }
}

} // verus!
