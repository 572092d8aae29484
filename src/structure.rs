//! The parsed structure of a stored message and the navigation over it.
//!
//! A message is held as an arena of levels. Level 0 is the message itself; every
//! embedded message (a `message/rfc822` part) has a level of its own, with its own
//! raw bytes, to which all the byte offsets of its parts refer.
use vstd::prelude::*;

verus! {

/// One header line of a part: its name and the byte range of its raw value.
pub struct Header {
    pub name: Vec<u8>,
    pub offset_start: u32,
    pub offset_end: u32,
}

/// A name/value parameter of a MIME header (`charset=utf-8`).
pub struct Param {
    pub name: String,
    pub value: String,
}

/// A parsed `Content-Type` or `Content-Disposition` value.
pub struct ContentType {
    pub c_type: String,
    pub c_subtype: Option<String>,
    pub attributes: Option<Vec<Param>>,
}

/// The MIME headers of a part, already parsed.
pub struct MimeHeaders {
    pub content_type: Option<ContentType>,
    pub content_id: Option<String>,
    pub description: Option<String>,
    pub encoding: Option<String>,
    pub disposition: Option<ContentType>,
    pub language: Option<Vec<String>>,
    pub location: Option<String>,
}

/// What a part holds.
pub enum PartKind {
    Text,
    Html,
    Binary,
    InlineBinary,
    /// The indices, within the same level, of the sub-parts.
    Multipart(Vec<u16>),
    /// The level that holds the embedded message.
    Message(u32),
}

/// One node of a level's part list.
pub struct Part {
    pub kind: PartKind,
    pub headers: Vec<Header>,
    pub mime: MimeHeaders,
    pub offset_header: u32,
    pub offset_body: u32,
    pub offset_end: u32,
    /// Set when the content-transfer-encoding of the part could not be decoded.
    pub encoding_problem: bool,
    /// The decoded content of a leaf part.
    pub decoded: Vec<u8>,
}

/// A mailbox as it stands in an address header.
pub struct MailAddr {
    pub name: Option<String>,
    pub address: Option<String>,
}

/// A named group of mailboxes in an address header.
pub struct MailGroup {
    pub name: Option<String>,
    pub addresses: Vec<MailAddr>,
}

/// The parsed value of one address header.
pub enum AddressValue {
    List(Vec<MailAddr>),
    Group(Vec<MailGroup>),
    Other,
}

/// The parsed envelope headers of a level's root part.
pub struct EnvelopeHeaders {
    /// Seconds since the Unix epoch.
    pub date: Option<i64>,
    pub subject: Option<String>,
    pub from: Vec<AddressValue>,
    pub sender: Vec<AddressValue>,
    pub reply_to: Vec<AddressValue>,
    pub to: Vec<AddressValue>,
    pub cc: Vec<AddressValue>,
    pub bcc: Vec<AddressValue>,
    pub in_reply_to: Option<Vec<String>>,
    pub message_id: Option<String>,
}

/// One message (the outer one, or an embedded one).
pub struct Level {
    pub parts: Vec<Part>,
    pub raw: Vec<u8>,
    pub envelope: EnvelopeHeaders,
}

/// The structure tree of a message.
pub struct MessageTree {
    pub levels: Vec<Level>,
}

/// A section discriminator of a `BODY[...]` request.
pub enum Section {
    Part(u32),
    Header,
    HeaderFields { not: bool, fields: Vec<Vec<u8>> },
    Text,
    Mime,
}

pub open spec fn children_after(children: Seq<u16>, p: int, n: int) -> bool {
    forall|i: int| 0 <= i < children.len() ==> p < #[trigger] children[i] < n
}

pub open spec fn part_wf(t: MessageTree, l: int, p: int) -> bool {
    let parts = t.levels@[l].parts@;
    match parts[p].kind {
        PartKind::Multipart(children) => children_after(children@, p, parts.len() as int),
        PartKind::Message(n) => l < n < t.levels@.len(),
        _ => true,
    }
}

impl MessageTree {
    /// Every level has a root part, sub-parts come after their parent within a
    /// level, and embedded messages come after the level that holds them.
    pub open spec fn wf(self) -> bool {
        &&& self.levels@.len() >= 1
        &&& self.levels@.len() <= u32::MAX
        &&& forall|l: int|
            0 <= l < self.levels@.len() ==> {
                &&& #[trigger] self.levels@[l].parts@.len() >= 1
                &&& self.levels@[l].parts@.len() <= u16::MAX + 1
                &&& forall|p: int|
                    0 <= p < self.levels@[l].parts@.len() ==> #[trigger] part_wf(self, l, p)
            }
    }

    pub open spec fn part(self, l: int, p: int) -> Part {
        self.levels@[l].parts@[p]
    }

    pub open spec fn raw(self, l: int) -> Seq<u8> {
        self.levels@[l].raw@
    }

    /// Tells whether the tree is well formed.
    pub fn check(&self) -> (r: bool)
        ensures
            r == self.wf(),
    {
        let n = self.levels.len();
        if n == 0 || n > u32::MAX as usize {
            return false;
        }
        let mut l: usize = 0;
        while l < n
            invariant
                n == self.levels@.len(),
                1 <= n <= u32::MAX,
                l <= n,
                forall|j: int|
                    0 <= j < l ==> {
                        &&& #[trigger] self.levels@[j].parts@.len() >= 1
                        &&& self.levels@[j].parts@.len() <= u16::MAX + 1
                        &&& forall|p: int|
                            0 <= p < self.levels@[j].parts@.len() ==> #[trigger] part_wf(
                                *self,
                                j,
                                p,
                            )
                    },
            decreases n - l,
        {
            let parts = &self.levels[l].parts;
            let np = parts.len();
            if np == 0 || np > 65536 {
                return false;
            }
            let mut p: usize = 0;
            while p < np
                invariant
                    n == self.levels@.len(),
                    l < n,
                    parts == &self.levels@[l as int].parts,
                    np == parts@.len(),
                    p <= np,
                    forall|q: int| 0 <= q < p ==> #[trigger] part_wf(*self, l as int, q),
                decreases np - p,
            {
                match &parts[p].kind {
                    PartKind::Multipart(children) => {
                        let mut i: usize = 0;
                        while i < children.len()
                            invariant
                                n == self.levels@.len(),
                                l < n,
                                parts == &self.levels@[l as int].parts,
                                np == parts@.len(),
                                p < np,
                                parts@[p as int].kind == PartKind::Multipart(*children),
                                i <= children@.len(),
                                forall|k: int|
                                    0 <= k < i ==> p < #[trigger] children@[k] < np,
                            decreases children@.len() - i,
                        {
                            let c = children[i] as usize;
                            if c <= p || c >= np {
                                assert(children@[i as int] == c as u16);
                                assert(self.levels@[l as int].parts@[p as int].kind
                                    == PartKind::Multipart(*children));
                                let ghost ii = i as int;
                                assert(!(p < children@[ii] < np));
                                assert(!children_after(children@, p as int, np as int));
                                assert(!part_wf(*self, l as int, p as int));
                                assert(!self.wf());
                                return false;
                            }
                            i = i + 1;
                        }
                    },
                    PartKind::Message(m) => {
                        if (*m as usize) <= l || (*m as usize) >= n {
                            assert(!part_wf(*self, l as int, p as int));
                            assert(!self.wf());
                            return false;
                        }
                    },
                    _ => {},
                }
                p = p + 1;
            }
            l = l + 1;
        }
        true
    }
}

/// The bytes `[a, b)` of a level's raw buffer, when that range lies inside it.
pub open spec fn raw_range(t: MessageTree, l: int, a: u32, b: u32) -> Option<Seq<u8>> {
    if a <= b && b <= t.raw(l).len() {
        Some(t.raw(l).subrange(a as int, b as int))
    } else {
        None
    }
}

/// The clamp of a byte range: `len` bytes from `start`, cut at the end of `b`.
pub open spec fn partial_spec(b: Seq<u8>, partial: Option<(u32, u32)>) -> Seq<u8> {
    match partial {
        None => b,
        Some((start, len)) => {
            let end = if start + len < b.len() {
                start + len
            } else {
                b.len() as int
            };
            if start <= end {
                b.subrange(start as int, end)
            } else {
                Seq::empty()
            }
        },
    }
}

pub open spec fn partial_opt(b: Option<Seq<u8>>, partial: Option<(u32, u32)>) -> Option<Seq<u8>> {
    match b {
        Some(b) => Some(partial_spec(b, partial)),
        None => None,
    }
}

/// Applies an optional `(start, length)` clamp to a byte range.
pub fn get_partial_bytes(bytes: &[u8], partial: Option<(u32, u32)>) -> (r: &[u8])
    ensures
        r@ == partial_spec(bytes@, partial),
{
    match partial {
        None => bytes,
        Some((start, len)) => {
            let sum: u64 = start as u64 + len as u64;
            let end: usize = if sum < bytes.len() as u64 {
                sum as usize
            } else {
                bytes.len()
            };
            if (start as usize) <= end {
                vstd::slice::slice_subrange(bytes, start as usize, end)
            } else {
                &[]
            }
        },
    }
}

/// Reads the bytes `[a, b)` of level `l`.
pub fn raw_section(t: &MessageTree, l: usize, a: u32, b: u32) -> (r: Option<&[u8]>)
    requires
        l < t.levels@.len(),
    ensures
        match r {
            Some(s) => raw_range(*t, l as int, a, b) == Some(s@),
            None => raw_range(*t, l as int, a, b) is None,
        },
{
    let raw = &t.levels[l].raw;
    if a <= b && (b as usize) <= raw.len() {
        Some(vstd::slice::slice_subrange(raw.as_slice(), a as usize, b as usize))
    } else {
        None
    }
}

/// The raw bytes of level `l` from `[a, b)`, or nothing where the range is out of bounds.
pub open spec fn raw_or_empty(t: MessageTree, l: int, a: u32, b: u32) -> Seq<u8> {
    match raw_range(t, l, a, b) {
        Some(s) => s,
        None => Seq::empty(),
    }
}

fn copy_bytes(out: &mut Vec<u8>, b: &[u8])
    ensures
        final(out)@ == old(out)@ + b@,
{
    let mut i: usize = 0;
    while i < b.len()
        invariant
            i <= b@.len(),
            out@ == old(out)@ + b@.subrange(0, i as int),
        decreases b@.len() - i,
    {
        out.push(b[i]);
        i = i + 1;
        assert(b@.subrange(0, i as int) == b@.subrange(0, i - 1) + seq![b@[i - 1]]);
    }
    assert(b@.subrange(0, b@.len() as int) == b@);
}

// ---------------------------------------------------------------------------
// Header blocks
// ---------------------------------------------------------------------------

pub open spec fn lower(c: u8) -> u8 {
    if 65 <= c <= 90 {
        (c + 32) as u8
    } else {
        c
    }
}

/// ASCII case-insensitive equality.
pub open spec fn eq_ci(a: Seq<u8>, b: Seq<u8>) -> bool {
    a.len() == b.len() && forall|i: int| 0 <= i < a.len() ==> lower(a[i]) == lower(b[i])
}

fn lower_byte(c: u8) -> (r: u8)
    ensures
        r == lower(c),
{
    if 65 <= c && c <= 90 {
        c + 32
    } else {
        c
    }
}

/// Compares two names ignoring ASCII case.
pub fn eq_ignore_ascii_case(a: &[u8], b: &[u8]) -> (r: bool)
    ensures
        r == eq_ci(a@, b@),
{
    if a.len() != b.len() {
        return false;
    }
    let mut i: usize = 0;
    while i < a.len()
        invariant
            a@.len() == b@.len(),
            i <= a@.len(),
            forall|j: int| 0 <= j < i ==> lower(a@[j]) == lower(b@[j]),
        decreases a@.len() - i,
    {
        if lower_byte(a[i]) != lower_byte(b[i]) {
            return false;
        }
        i = i + 1;
    }
    true
}

pub open spec fn in_fields(name: Seq<u8>, fields: Seq<Vec<u8>>) -> bool {
    exists|j: int| 0 <= j < fields.len() && eq_ci(name, #[trigger] fields[j]@)
}

fn name_in_fields(name: &[u8], fields: &Vec<Vec<u8>>) -> (r: bool)
    ensures
        r == in_fields(name@, fields@),
{
    let mut j: usize = 0;
    while j < fields.len()
        invariant
            j <= fields@.len(),
            forall|k: int| 0 <= k < j ==> !eq_ci(name@, #[trigger] fields@[k]@),
        decreases fields@.len() - j,
    {
        if eq_ignore_ascii_case(name, fields[j].as_slice()) {
            return true;
        }
        j = j + 1;
    }
    false
}

/// `Content-`, with that case.
pub open spec fn content_prefix() -> Seq<u8> {
    seq![67u8, 111, 110, 116, 101, 110, 116, 45]
}

/// The names of the headers that the message parser classifies as MIME headers.
pub open spec fn mime_names() -> Seq<Seq<u8>> {
    seq![
        seq![99u8, 111, 110, 116, 101, 110, 116, 45, 100, 101, 115, 99, 114, 105, 112, 116, 105, 111, 110],
        seq![99u8, 111, 110, 116, 101, 110, 116, 45, 105, 100],
        seq![99u8, 111, 110, 116, 101, 110, 116, 45, 108, 97, 110, 103, 117, 97, 103, 101],
        seq![99u8, 111, 110, 116, 101, 110, 116, 45, 108, 111, 99, 97, 116, 105, 111, 110],
        seq![99u8, 111, 110, 116, 101, 110, 116, 45, 116, 114, 97, 110, 115, 102, 101, 114, 45, 101, 110, 99, 111, 100, 105, 110, 103],
        seq![99u8, 111, 110, 116, 101, 110, 116, 45, 116, 121, 112, 101],
        seq![99u8, 111, 110, 116, 101, 110, 116, 45, 100, 105, 115, 112, 111, 115, 105, 116, 105, 111, 110],
    ]
}

/// A header is MIME-related when its name is one of `mime_names` (ignoring case,
/// as the parser reads names) or starts with `Content-` (with that case).
pub open spec fn is_mime_name(name: Seq<u8>) -> bool {
    (exists|k: int| 0 <= k < mime_names().len() && eq_ci(name, #[trigger] mime_names()[k])) || (
    name.len() >= 8 && name.subrange(0, 8) == content_prefix())
}

fn is_mime_header(name: &[u8]) -> (r: bool)
    ensures
        r == is_mime_name(name@),
{
    let known: Vec<Vec<u8>> = vec![
        vec![99u8, 111, 110, 116, 101, 110, 116, 45, 100, 101, 115, 99, 114, 105, 112, 116, 105, 111, 110],
        vec![99u8, 111, 110, 116, 101, 110, 116, 45, 105, 100],
        vec![99u8, 111, 110, 116, 101, 110, 116, 45, 108, 97, 110, 103, 117, 97, 103, 101],
        vec![99u8, 111, 110, 116, 101, 110, 116, 45, 108, 111, 99, 97, 116, 105, 111, 110],
        vec![99u8, 111, 110, 116, 101, 110, 116, 45, 116, 114, 97, 110, 115, 102, 101, 114, 45, 101, 110, 99, 111, 100, 105, 110, 103],
        vec![99u8, 111, 110, 116, 101, 110, 116, 45, 116, 121, 112, 101],
        vec![99u8, 111, 110, 116, 101, 110, 116, 45, 100, 105, 115, 112, 111, 115, 105, 116, 105, 111, 110],
    ];
    proof {
        assert(known@[0]@ == mime_names()[0]);
        assert(known@[1]@ == mime_names()[1]);
        assert(known@[2]@ == mime_names()[2]);
        assert(known@[3]@ == mime_names()[3]);
        assert(known@[4]@ == mime_names()[4]);
        assert(known@[5]@ == mime_names()[5]);
        assert(known@[6]@ == mime_names()[6]);
    }
    let mut k: usize = 0;
    while k < known.len()
        invariant
            known@.len() == mime_names().len(),
            forall|j: int| 0 <= j < known@.len() ==> #[trigger] known@[j]@ == mime_names()[j],
            k <= known@.len(),
            forall|j: int| 0 <= j < k ==> !eq_ci(name@, #[trigger] mime_names()[j]),
        decreases known@.len() - k,
    {
        if eq_ignore_ascii_case(name, known[k].as_slice()) {
            return true;
        }
        k = k + 1;
    }
    if name.len() < 8 {
        return false;
    }
    let prefix: [u8; 8] = [67u8, 111, 110, 116, 101, 110, 116, 45];
    let mut i: usize = 0;
    while i < 8
        invariant
            name@.len() >= 8,
            prefix@ == content_prefix(),
            !(exists|k: int| 0 <= k < mime_names().len() && eq_ci(name@, #[trigger] mime_names()[k])),
            i <= 8,
            forall|j: int| 0 <= j < i ==> name@[j] == prefix@[j],
        decreases 8 - i,
    {
        if name[i] != prefix[i] {
            assert(name@.subrange(0, 8)[i as int] != content_prefix()[i as int]);
            return false;
        }
        i = i + 1;
    }
    assert(name@.subrange(0, 8) =~= content_prefix());
    true
}

/// Which headers a synthesised header block keeps: the MIME-related ones, or
/// those named in `fields` (with `not`, all others).
pub open spec fn keeps(mime: bool, not: bool, fields: Seq<Vec<u8>>, name: Seq<u8>) -> bool {
    if mime {
        is_mime_name(name)
    } else {
        in_fields(name, fields) != not
    }
}

/// A header as it is written back: its name, a colon, and its raw value.
pub open spec fn header_line(t: MessageTree, l: int, h: Header) -> Seq<u8> {
    h.name@ + seq![58u8] + raw_or_empty(t, l, h.offset_start, h.offset_end)
}

/// The lines of the first `k` headers that the filter keeps.
pub open spec fn kept_lines(
    t: MessageTree,
    l: int,
    hs: Seq<Header>,
    mime: bool,
    not: bool,
    fields: Seq<Vec<u8>>,
    k: int,
) -> Seq<u8>
    decreases k,
{
    if k <= 0 {
        Seq::empty()
    } else {
        let prev = kept_lines(t, l, hs, mime, not, fields, k - 1);
        if keeps(mime, not, fields, hs[k - 1].name@) {
            prev + header_line(t, l, hs[k - 1])
        } else {
            prev
        }
    }
}

pub open spec fn crlf() -> Seq<u8> {
    seq![13u8, 10]
}

/// The header block that a filter synthesises for part `p` of level `l`.
pub open spec fn header_block(
    t: MessageTree,
    l: int,
    p: int,
    mime: bool,
    not: bool,
    fields: Seq<Vec<u8>>,
) -> Seq<u8> {
    let hs = t.part(l, p).headers@;
    kept_lines(t, l, hs, mime, not, fields, hs.len() as int) + crlf()
}

fn keeps_header(mime: bool, not: bool, fields: &Vec<Vec<u8>>, name: &[u8]) -> (r: bool)
    ensures
        r == keeps(mime, not, fields@, name@),
{
    if mime {
        is_mime_header(name)
    } else {
        name_in_fields(name, fields) != not
    }
}

/// Builds the header block that keeps, in order, the headers of a part that the
/// filter selects, ended by a blank line.
pub fn build_header_block(
    t: &MessageTree,
    l: usize,
    p: usize,
    mime: bool,
    not: bool,
    fields: &Vec<Vec<u8>>,
) -> (r: Vec<u8>)
    requires
        l < t.levels@.len(),
        p < t.levels@[l as int].parts@.len(),
    ensures
        r@ == header_block(*t, l as int, p as int, mime, not, fields@),
{
    let headers = &t.levels[l].parts[p].headers;
    let mut out: Vec<u8> = Vec::new();
    let mut i: usize = 0;
    while i < headers.len()
        invariant
            l < t.levels@.len(),
            p < t.levels@[l as int].parts@.len(),
            headers == &t.part(l as int, p as int).headers,
            i <= headers@.len(),
            out@ == kept_lines(*t, l as int, headers@, mime, not, fields@, i as int),
        decreases headers@.len() - i,
    {
        let h = &headers[i];
        if keeps_header(mime, not, fields, h.name.as_slice()) {
            copy_bytes(&mut out, h.name.as_slice());
            out.push(58u8);
            match raw_section(t, l, h.offset_start, h.offset_end) {
                Some(v) => copy_bytes(&mut out, v),
                None => {},
            }
            assert(out@ == kept_lines(*t, l as int, headers@, mime, not, fields@, i as int) + header_line(
                *t,
                l as int,
                *h,
            ));
        }
        i = i + 1;
    }
    out.push(13u8);
    out.push(10u8);
    out
}

// ---------------------------------------------------------------------------
// Navigation
// ---------------------------------------------------------------------------

/// One path segment taken from part `p` of level `l`: the `num`-th sub-part of a
/// multipart (1-based; 0 is read as 1), or the part itself for a segment "1" on a
/// part without sub-parts.
pub open spec fn step_spec(t: MessageTree, l: int, p: int, num: u32) -> Option<int> {
    match t.part(l, p).kind {
        PartKind::Multipart(children) => {
            let i: int = if num == 0 {
                0
            } else {
                num - 1
            };
            if i < children@.len() {
                Some(children@[i] as int)
            } else {
                None
            }
        },
        _ => if num == 1 {
            Some(p)
        } else {
            None
        },
    }
}

/// Moves into an embedded message, to its root part, when `go` holds and the part
/// is a message.
pub open spec fn descend_spec(t: MessageTree, l: int, p: int, go: bool) -> (int, int) {
    match t.part(l, p).kind {
        PartKind::Message(n) => if go {
            (n as int, 0)
        } else {
            (l, p)
        },
        _ => (l, p),
    }
}

/// Whether a section that follows a message part addresses the embedded message.
pub open spec fn enters_message(s: Section) -> bool {
    !(s is Mime)
}

/// What `BODY[...]` returns for the sections from `i` on, standing at part `p` of
/// level `l`.
pub open spec fn section_walk(
    t: MessageTree,
    secs: Seq<Section>,
    i: int,
    l: int,
    p: int,
    partial: Option<(u32, u32)>,
) -> Option<Seq<u8>>
    decreases secs.len() - i,
{
    if i < 0 || i >= secs.len() {
        // A path that ends on a part returns the body alone.
        partial_opt(raw_range(t, l, t.part(l, p).offset_body, t.part(l, p).offset_end), partial)
    } else {
        match secs[i] {
            Section::Part(num) => match step_spec(t, l, p, num) {
                None => None,
                Some(p2) => {
                    let go = i + 1 < secs.len() && enters_message(secs[i + 1]);
                    let (l3, p3) = descend_spec(t, l, p2, go);
                    section_walk(t, secs, i + 1, l3, p3, partial)
                },
            },
            Section::Header => partial_opt(
                raw_range(t, l, t.part(l, p).offset_header, t.part(l, p).offset_body),
                partial,
            ),
            Section::HeaderFields { not, fields } => Some(
                partial_spec(
                    header_block(t, l, p, false, not, fields@),
                    partial,
                ),
            ),
            Section::Text => partial_opt(
                raw_range(t, l, t.part(l, p).offset_body, t.part(l, p).offset_end),
                partial,
            ),
            Section::Mime => Some(partial_spec(header_block(t, l, p, true, false, Seq::empty()), partial)),
        }
    }
}

/// What `BODY[sections]<partial>` returns: with no section, the whole message from
/// the start of its headers to the end of its body.
pub open spec fn body_section_spec(
    t: MessageTree,
    secs: Seq<Section>,
    partial: Option<(u32, u32)>,
) -> Option<Seq<u8>> {
    if secs.len() == 0 {
        partial_opt(raw_range(t, 0, t.part(0, 0).offset_header, t.part(0, 0).offset_end), partial)
    } else {
        section_walk(t, secs, 0, 0, 0, partial)
    }
}

pub open spec fn at(t: MessageTree, l: int, p: int) -> bool {
    0 <= l < t.levels@.len() && 0 <= p < t.levels@[l].parts@.len()
}

proof fn lemma_step_in_tree(t: MessageTree, l: int, p: int, num: u32, go: bool)
    requires
        t.wf(),
        at(t, l, p),
    ensures
        match step_spec(t, l, p, num) {
            Some(p2) => at(t, l, p2) && at(
                t,
                descend_spec(t, l, p2, go).0,
                descend_spec(t, l, p2, go).1,
            ),
            None => true,
        },
{
    assert(part_wf(t, l, p));
    match step_spec(t, l, p, num) {
        Some(p2) => {
            assert(at(t, l, p2));
            assert(part_wf(t, l, p2));
            match t.part(l, p2).kind {
                PartKind::Message(n) => {
                    assert(t.levels@[n as int].parts@.len() >= 1);
                },
                _ => {},
            }
        },
        None => {},
    }
}

fn clamp_to_vec(b: &[u8], partial: Option<(u32, u32)>) -> (r: Vec<u8>)
    ensures
        r@ == partial_spec(b@, partial),
{
    vstd::slice::slice_to_vec(get_partial_bytes(b, partial))
}

fn raw_clamped(t: &MessageTree, l: usize, a: u32, b: u32, partial: Option<(u32, u32)>) -> (r:
    Option<Vec<u8>>)
    requires
        l < t.levels@.len(),
    ensures
        match r {
            Some(v) => partial_opt(raw_range(*t, l as int, a, b), partial) == Some(v@),
            None => partial_opt(raw_range(*t, l as int, a, b), partial) is None,
        },
{
    match raw_section(t, l, a, b) {
        Some(s) => Some(clamp_to_vec(s, partial)),
        None => None,
    }
}

fn step(t: &MessageTree, l: usize, p: usize, num: u32) -> (r: Option<usize>)
    requires
        t.wf(),
        at(*t, l as int, p as int),
    ensures
        r matches Some(p2) ==> step_spec(*t, l as int, p as int, num) == Some(p2 as int),
        r is None ==> step_spec(*t, l as int, p as int, num) is None,
{
    proof {
        assert(part_wf(*t, l as int, p as int));
    }
    match &t.levels[l].parts[p].kind {
        PartKind::Multipart(children) => {
            let i: usize = if num == 0 {
                0
            } else {
                (num - 1) as usize
            };
            if i < children.len() {
                Some(children[i] as usize)
            } else {
                None
            }
        },
        _ => if num == 1 {
            Some(p)
        } else {
            None
        },
    }
}

fn descend(t: &MessageTree, l: usize, p: usize, go: bool) -> (r: (usize, usize))
    requires
        t.wf(),
        at(*t, l as int, p as int),
    ensures
        r.0 as int == descend_spec(*t, l as int, p as int, go).0,
        r.1 as int == descend_spec(*t, l as int, p as int, go).1,
{
    match &t.levels[l].parts[p].kind {
        PartKind::Message(n) => if go {
            (*n as usize, 0)
        } else {
            (l, p)
        },
        _ => (l, p),
    }
}

impl MessageTree {
    /// The bytes that `BODY[sections]<partial>` returns, or `None` where the path
    /// addresses no part or a byte range falls outside the raw message.
    pub fn body_section(&self, sections: &[Section], partial: Option<(u32, u32)>) -> (r: Option<
        Vec<u8>,
    >)
        requires
            self.wf(),
        ensures
            match r {
                Some(v) => body_section_spec(*self, sections@, partial) == Some(v@),
                None => body_section_spec(*self, sections@, partial) is None,
            },
    {
        proof {
            assert(self.levels@[0].parts@.len() >= 1);
        }
        if sections.len() == 0 {
            let root = &self.levels[0].parts[0];
            return raw_clamped(self, 0, root.offset_header, root.offset_end, partial);
        }
        let mut l: usize = 0;
        let mut p: usize = 0;
        let mut i: usize = 0;
        while i < sections.len()
            invariant
                self.wf(),
                at(*self, l as int, p as int),
                i <= sections@.len(),
                sections@.len() > 0,
                body_section_spec(*self, sections@, partial) == section_walk(
                    *self,
                    sections@,
                    i as int,
                    l as int,
                    p as int,
                    partial,
                ),
            decreases sections@.len() - i,
        {
            let part = &self.levels[l].parts[p];
            match &sections[i] {
                Section::Part(num) => {
                    match step(self, l, p, *num) {
                        None => return None,
                        Some(p2) => {
                            let go = i + 1 < sections.len() && !matches!(sections[i + 1], Section::Mime);
                            proof {
                                lemma_step_in_tree(*self, l as int, p as int, *num, go);
                            }
                            let (l3, p3) = descend(self, l, p2, go);
                            l = l3;
                            p = p3;
                        },
                    }
                },
                Section::Header => {
                    return raw_clamped(self, l, part.offset_header, part.offset_body, partial);
                },
                Section::HeaderFields { not, fields } => {
                    let block = build_header_block(self, l, p, false, *not, fields);
                    return Some(clamp_to_vec(block.as_slice(), partial));
                },
                Section::Text => {
                    return raw_clamped(self, l, part.offset_body, part.offset_end, partial);
                },
                Section::Mime => {
                    let none: Vec<Vec<u8>> = Vec::new();
                    let block = build_header_block(self, l, p, true, false, &none);
                    return Some(clamp_to_vec(block.as_slice(), partial));
                },
            }
            i = i + 1;
        }
        let part = &self.levels[l].parts[p];
        raw_clamped(self, l, part.offset_body, part.offset_end, partial)
    }
}

/// The text that `String::from_utf8_lossy` makes of some bytes.
pub uninterp spec fn utf8_lossy_of(b: Seq<u8>) -> Seq<char>;

/// Relies on `String::from_utf8_lossy`: the text depends on the bytes alone.
#[verifier::external_body]
fn lossy_text(b: &[u8]) -> (r: String)
    ensures
        r@ == utf8_lossy_of(b@),
{
    String::from_utf8_lossy(b).into_owned()
}

/// The decoded content of a `BINARY[...]` request.
pub enum BinaryContents {
    Text(String),
    Bytes(Vec<u8>),
}

/// The addressed part could not be decoded from its transfer encoding.
pub struct DecodeError;

/// Where a `BINARY[...]` path leads from the segments `i` on: a segment that
/// lands on a message part, with more segments after it, enters the message.
pub open spec fn binary_walk(t: MessageTree, secs: Seq<u32>, i: int, l: int, p: int) -> Option<
    (int, int),
>
    decreases secs.len() - i,
{
    if i < 0 || i >= secs.len() {
        Some((l, p))
    } else {
        match step_spec(t, l, p, secs[i]) {
            None => None,
            Some(p2) => {
                let (l3, p3) = descend_spec(t, l, p2, i + 1 < secs.len());
                binary_walk(t, secs, i + 1, l3, p3)
            },
        }
    }
}

pub open spec fn raw_len_spec(part: Part) -> int {
    if part.offset_header <= part.offset_end {
        part.offset_end - part.offset_header
    } else {
        0
    }
}

/// The bytes that `BINARY[...]` returns for part `p` of level `l`, before the clamp.
pub open spec fn binary_bytes(t: MessageTree, l: int, p: int) -> Seq<u8> {
    let part = t.part(l, p);
    match part.kind {
        PartKind::Message(n) => raw_or_empty(
            t,
            n as int,
            t.part(n as int, 0).offset_header,
            t.part(n as int, 0).offset_end,
        ),
        PartKind::Multipart(_) => raw_or_empty(t, l, part.offset_header, part.offset_end),
        _ => part.decoded@,
    }
}

pub open spec fn is_text_kind(k: PartKind) -> bool {
    k is Text || k is Html
}

/// What `BINARY[sections]<partial>` returns.
pub open spec fn binary_matches(
    t: MessageTree,
    secs: Seq<u32>,
    partial: Option<(u32, u32)>,
    r: Result<Option<BinaryContents>, DecodeError>,
) -> bool {
    match binary_walk(t, secs, 0, 0, 0) {
        None => r == Ok::<Option<BinaryContents>, DecodeError>(None),
        Some((l, p)) => if t.part(l, p).encoding_problem {
            r is Err
        } else {
            let b = partial_spec(binary_bytes(t, l, p), partial);
            match r {
                Ok(Some(BinaryContents::Text(s))) => is_text_kind(t.part(l, p).kind) && s@
                    == utf8_lossy_of(b),
                Ok(Some(BinaryContents::Bytes(v))) => !is_text_kind(t.part(l, p).kind) && v@ == b,
                _ => false,
            }
        },
    }
}

/// The size that `BINARY.SIZE[sections]` reports.
pub open spec fn binary_size_spec(t: MessageTree, secs: Seq<u32>) -> Option<int> {
    match binary_walk(t, secs, 0, 0, 0) {
        None => None,
        Some((l, p)) => match t.part(l, p).kind {
            PartKind::Message(n) => Some(raw_len_spec(t.part(n as int, 0))),
            PartKind::Multipart(_) => Some(raw_len_spec(t.part(l, p))),
            _ => Some(t.part(l, p).decoded@.len() as int),
        },
    }
}

fn raw_len(part: &Part) -> (r: usize)
    ensures
        r as int == raw_len_spec(*part),
{
    if part.offset_header <= part.offset_end {
        (part.offset_end - part.offset_header) as usize
    } else {
        0
    }
}

fn raw_or_empty_vec(t: &MessageTree, l: usize, a: u32, b: u32, partial: Option<(u32, u32)>) -> (r:
    Vec<u8>)
    requires
        l < t.levels@.len(),
    ensures
        r@ == partial_spec(raw_or_empty(*t, l as int, a, b), partial),
{
    match raw_section(t, l, a, b) {
        Some(s) => clamp_to_vec(s, partial),
        None => clamp_to_vec(&[], partial),
    }
}

impl MessageTree {
    /// Follows a `BINARY` part path to the part it addresses.
    pub fn binary_path(&self, sections: &[u32]) -> (r: Option<(usize, usize)>)
        requires
            self.wf(),
        ensures
            match r {
                Some((l, p)) => binary_walk(*self, sections@, 0, 0, 0) == Some((l as int, p as int))
                    && at(*self, l as int, p as int),
                None => binary_walk(*self, sections@, 0, 0, 0) is None,
            },
    {
        proof {
            assert(self.levels@[0].parts@.len() >= 1);
        }
        let mut l: usize = 0;
        let mut p: usize = 0;
        let mut i: usize = 0;
        while i < sections.len()
            invariant
                self.wf(),
                at(*self, l as int, p as int),
                i <= sections@.len(),
                binary_walk(*self, sections@, 0, 0, 0) == binary_walk(
                    *self,
                    sections@,
                    i as int,
                    l as int,
                    p as int,
                ),
            decreases sections@.len() - i,
        {
            match step(self, l, p, sections[i]) {
                None => return None,
                Some(p2) => {
                    let go = i + 1 < sections.len();
                    proof {
                        lemma_step_in_tree(*self, l as int, p as int, sections@[i as int], go);
                    }
                    let (l3, p3) = descend(self, l, p2, go);
                    l = l3;
                    p = p3;
                },
            }
            i = i + 1;
        }
        Some((l, p))
    }

    /// The decoded content that `BINARY[sections]<partial>` returns: `Ok(None)`
    /// where the path addresses no part, an error where the part could not be
    /// decoded.
    pub fn binary(&self, sections: &[u32], partial: Option<(u32, u32)>) -> (r: Result<
        Option<BinaryContents>,
        DecodeError,
    >)
        requires
            self.wf(),
        ensures
            binary_matches(*self, sections@, partial, r),
    {
        match self.binary_path(sections) {
            None => Ok(None),
            Some((l, p)) => {
                let part = &self.levels[l].parts[p];
                if part.encoding_problem {
                    return Err(DecodeError);
                }
                proof {
                    assert(part_wf(*self, l as int, p as int));
                }
                match &part.kind {
                    PartKind::Text | PartKind::Html => {
                        let b = get_partial_bytes(part.decoded.as_slice(), partial);
                        Ok(Some(BinaryContents::Text(lossy_text(b))))
                    },
                    PartKind::Binary | PartKind::InlineBinary => {
                        Ok(Some(BinaryContents::Bytes(clamp_to_vec(part.decoded.as_slice(), partial))))
                    },
                    PartKind::Message(n) => {
                        let n = *n as usize;
                        proof {
                            assert(self.levels@[n as int].parts@.len() >= 1);
                        }
                        let root = &self.levels[n].parts[0];
                        Ok(Some(BinaryContents::Bytes(raw_or_empty_vec(self, n, root.offset_header, root.offset_end, partial))))
                    },
                    PartKind::Multipart(_) => {
                        Ok(Some(BinaryContents::Bytes(raw_or_empty_vec(self, l, part.offset_header, part.offset_end, partial))))
                    },
                }
            },
        }
    }

    /// The size that `BINARY.SIZE[sections]` reports, or `None` where the path
    /// addresses no part.
    pub fn binary_size(&self, sections: &[u32]) -> (r: Option<usize>)
        requires
            self.wf(),
        ensures
            match r {
                Some(n) => binary_size_spec(*self, sections@) == Some(n as int),
                None => binary_size_spec(*self, sections@) is None,
            },
    {
        match self.binary_path(sections) {
            None => None,
            Some((l, p)) => {
                let part = &self.levels[l].parts[p];
                proof {
                    assert(part_wf(*self, l as int, p as int));
                }
                match &part.kind {
                    PartKind::Message(n) => {
                        let n = *n as usize;
                        proof {
                            assert(self.levels@[n as int].parts@.len() >= 1);
                        }
                        Some(raw_len(&self.levels[n].parts[0]))
                    },
                    PartKind::Multipart(_) => Some(raw_len(part)),
                    _ => Some(part.decoded.len()),
                }
            },
        }
    }
}

} // verus!
