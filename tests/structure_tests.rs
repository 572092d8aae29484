use mailstore_engine::fetch::{
    enables_condstore, fetch_plan, prepare_attributes, project, validate_vanished, Attribute, DataItem, FetchError,
    RecordData,
};
use mailstore_engine::labels::Keyword;
use mailstore_engine::structure::{
    get_partial_bytes, AddressValue, BinaryContents, ContentType, EnvelopeHeaders, Header, Level,
    MailAddr, MailGroup, MessageTree, MimeHeaders, Param, Part, PartKind, Section,
};
use mailstore_engine::summary::{BodyKind, ImapAddress, PartRef};

fn no_mime() -> MimeHeaders {
    MimeHeaders {
        content_type: None,
        content_id: None,
        description: None,
        encoding: None,
        disposition: None,
        language: None,
        location: None,
    }
}

fn text_mime(subtype: &str) -> MimeHeaders {
    let mut m = no_mime();
    m.content_type = Some(ContentType {
        c_type: "text".to_string(),
        c_subtype: Some(subtype.to_string()),
        attributes: None,
    });
    m
}

fn no_envelope() -> EnvelopeHeaders {
    EnvelopeHeaders {
        date: None,
        subject: None,
        from: vec![],
        sender: vec![],
        reply_to: vec![],
        to: vec![],
        cc: vec![],
        bcc: vec![],
        in_reply_to: None,
        message_id: None,
    }
}

/// Appends a part (headers, blank line, body) to `raw` and describes it.
fn add_part(raw: &mut Vec<u8>, headers: &[(&str, &str)], body: &[u8], kind: PartKind, mime: MimeHeaders) -> Part {
    let offset_header = raw.len() as u32;
    let mut hs = Vec::new();
    for (name, value) in headers {
        raw.extend_from_slice(name.as_bytes());
        raw.push(b':');
        let start = raw.len() as u32;
        raw.extend_from_slice(format!(" {}\r\n", value).as_bytes());
        hs.push(Header { name: name.as_bytes().to_vec(), offset_start: start, offset_end: raw.len() as u32 });
    }
    raw.extend_from_slice(b"\r\n");
    let offset_body = raw.len() as u32;
    raw.extend_from_slice(body);
    Part {
        kind,
        headers: hs,
        mime,
        offset_header,
        offset_body,
        offset_end: raw.len() as u32,
        encoding_problem: false,
        decoded: body.to_vec(),
    }
}

/// A multipart message with a text part and a binary part.
fn simple_tree() -> MessageTree {
    let mut raw = Vec::new();
    let mut root = add_part(
        &mut raw,
        &[("Subject", "hi"), ("Content-Type", "multipart/mixed"), ("X-Extra", "1")],
        b"",
        PartKind::Multipart(vec![1, 2]),
        no_mime(),
    );
    let text = add_part(&mut raw, &[("Content-Type", "text/plain")], b"hello\nworld\n", PartKind::Text, text_mime("plain"));
    let mut bin = add_part(
        &mut raw,
        &[("Content-Type", "application/octet-stream"), ("Content-Transfer-Encoding", "base64")],
        b"AAEC",
        PartKind::Binary,
        no_mime(),
    );
    bin.decoded = vec![0, 1, 2];
    root.offset_end = raw.len() as u32;
    let mut env = no_envelope();
    env.subject = Some("hi".to_string());
    env.message_id = Some("id@x".to_string());
    env.in_reply_to = Some(vec!["a@x".to_string(), "b@x".to_string()]);
    env.from = vec![AddressValue::List(vec![
        MailAddr { name: Some("Ann".to_string()), address: Some("ann@x".to_string()) },
        MailAddr { name: Some("Nobody".to_string()), address: None },
    ])];
    env.to = vec![AddressValue::Group(vec![MailGroup {
        name: Some("team".to_string()),
        addresses: vec![MailAddr { name: None, address: Some("bob@x".to_string()) }],
    }])];
    MessageTree { levels: vec![Level { parts: vec![root, text, bin], raw, envelope: env }] }
}

fn raw_of(t: &MessageTree, l: usize, a: u32, b: u32) -> Vec<u8> {
    t.levels[l].raw[a as usize..b as usize].to_vec()
}

#[test]
fn partial_bytes_clamps() {
    let b = b"0123456789";
    assert_eq!(get_partial_bytes(b, None), b);
    assert_eq!(get_partial_bytes(b, Some((2, 3))), b"234");
    assert_eq!(get_partial_bytes(b, Some((8, 10))), b"89");
    assert_eq!(get_partial_bytes(b, Some((12, 1))), b"");
    assert_eq!(get_partial_bytes(b, Some((u32::MAX, u32::MAX))), b"");
}

#[test]
fn tree_check() {
    let t = simple_tree();
    assert!(t.check());
    let mut bad = simple_tree();
    bad.levels[0].parts[0].kind = PartKind::Multipart(vec![0]);
    assert!(!bad.check());
    let mut bad2 = simple_tree();
    bad2.levels[0].parts[1].kind = PartKind::Message(0);
    assert!(!bad2.check());
}

#[test]
fn whole_message_section() {
    let t = simple_tree();
    let root = &t.levels[0].parts[0];
    let whole = t.body_section(&[], None).unwrap();
    assert_eq!(whole, raw_of(&t, 0, root.offset_header, root.offset_end));
    assert_eq!(whole, t.levels[0].raw);
    let part = t.body_section(&[], Some((0, 7))).unwrap();
    assert_eq!(part, b"Subject".to_vec());
}

#[test]
fn header_and_text_sections() {
    let t = simple_tree();
    let text = &t.levels[0].parts[1];
    let header = t.body_section(&[Section::Header], None).unwrap();
    assert!(header.starts_with(b"Subject: hi\r\n"));
    assert!(header.ends_with(b"\r\n\r\n"));
    assert_eq!(t.body_section(&[Section::Part(1)], None).unwrap(), b"hello\nworld\n".to_vec());
    assert_eq!(t.body_section(&[Section::Part(1), Section::Text], None).unwrap(), b"hello\nworld\n".to_vec());
    assert_eq!(
        t.body_section(&[Section::Part(1), Section::Header], None).unwrap(),
        raw_of(&t, 0, text.offset_header, text.offset_body)
    );
    assert_eq!(t.body_section(&[Section::Part(3)], None), None);
    assert_eq!(t.body_section(&[Section::Part(1), Section::Part(2)], None), None);
    assert_eq!(t.body_section(&[Section::Part(1), Section::Part(1)], None).unwrap(), b"hello\nworld\n".to_vec());
}

#[test]
fn header_fields_and_not() {
    let t = simple_tree();
    let fields = vec![b"subject".to_vec(), b"X-EXTRA".to_vec()];
    let kept = t.body_section(&[Section::HeaderFields { not: false, fields: fields.clone() }], None).unwrap();
    assert_eq!(kept, b"Subject: hi\r\nX-Extra: 1\r\n\r\n".to_vec());
    let rest = t.body_section(&[Section::HeaderFields { not: true, fields: fields.clone() }], None).unwrap();
    assert_eq!(rest, b"Content-Type: multipart/mixed\r\n\r\n".to_vec());
    let all = t.body_section(&[Section::HeaderFields { not: true, fields: vec![] }], None).unwrap();
    assert_eq!(all, raw_of(&t, 0, t.levels[0].parts[0].offset_header, t.levels[0].parts[0].offset_body));
    let partial = t.body_section(&[Section::HeaderFields { not: false, fields }], Some((9, 2))).unwrap();
    assert_eq!(partial, b"hi".to_vec());
}

#[test]
fn header_fields_complement_rebuilds_block() {
    let t = simple_tree();
    let fields = vec![b"content-type".to_vec()];
    let a = t.body_section(&[Section::HeaderFields { not: false, fields: fields.clone() }], None).unwrap();
    let b = t.body_section(&[Section::HeaderFields { not: true, fields: fields.clone() }], None).unwrap();
    let all = t.body_section(&[Section::Header], None).unwrap();
    // Header by header: Subject (NOT), Content-Type (FIELDS), X-Extra (NOT).
    let a_lines: Vec<&[u8]> = a[..a.len() - 2].split_inclusive(|c| *c == b'\n').collect();
    let b_lines: Vec<&[u8]> = b[..b.len() - 2].split_inclusive(|c| *c == b'\n').collect();
    let mut merged = Vec::new();
    merged.extend_from_slice(b_lines[0]);
    merged.extend_from_slice(a_lines[0]);
    merged.extend_from_slice(b_lines[1]);
    merged.extend_from_slice(b"\r\n");
    assert_eq!(merged, all);
}

#[test]
fn mime_section() {
    let t = simple_tree();
    let m = t.body_section(&[Section::Part(2), Section::Mime], None).unwrap();
    assert_eq!(m, b"Content-Type: application/octet-stream\r\nContent-Transfer-Encoding: base64\r\n\r\n".to_vec());
    let root = t.body_section(&[Section::Mime], None).unwrap();
    assert_eq!(root, b"Content-Type: multipart/mixed\r\n\r\n".to_vec());
}

#[test]
fn binary_and_size() {
    let t = simple_tree();
    match t.binary(&[2], None) {
        Ok(Some(BinaryContents::Bytes(b))) => assert_eq!(b, vec![0, 1, 2]),
        _ => panic!("binary part"),
    }
    match t.binary(&[1], Some((0, 5))) {
        Ok(Some(BinaryContents::Text(s))) => assert_eq!(s, "hello"),
        _ => panic!("text part"),
    }
    assert!(matches!(t.binary(&[4], None), Ok(None)));
    assert_eq!(t.binary_size(&[2]), Some(3));
    assert_eq!(t.binary_size(&[1]), Some(12));
    assert_eq!(t.binary_size(&[]), Some(t.levels[0].raw.len()));
    assert_eq!(t.binary_size(&[9]), None);
    let mut broken = simple_tree();
    broken.levels[0].parts[2].encoding_problem = true;
    assert!(broken.binary(&[2], None).is_err());
}

#[test]
fn envelope_fields() {
    let mut t = simple_tree();
    t.levels[0].envelope.date = Some(0);
    let e = t.envelope();
    assert_eq!(e.subject.as_deref(), Some("hi"));
    assert_eq!(e.message_id.as_deref(), Some("<id@x>"));
    assert_eq!(e.in_reply_to.as_deref(), Some("<a@x> <b@x>"));
    assert_eq!(e.date.as_deref(), Some("Thu, 1 Jan 1970 00:00:00 +0000"));
    assert_eq!(e.from.len(), 1);
    match &e.from[0] {
        ImapAddress::Single(a) => {
            assert_eq!(a.address, "ann@x");
            assert_eq!(a.name.as_deref(), Some("Ann"));
        }
        _ => panic!("single"),
    }
    match &e.to[0] {
        ImapAddress::Group { name, addresses } => {
            assert_eq!(name.as_deref(), Some("team"));
            assert_eq!(addresses.len(), 1);
            assert_eq!(addresses[0].address, "bob@x");
        }
        _ => panic!("group"),
    }
    assert!(e.cc.is_empty());
}

#[test]
fn body_structure_basic_and_extended() {
    let t = simple_tree();
    let s = t.body_structure(false);
    assert_eq!(s.nodes.len(), 1);
    assert_eq!(s.nodes[0].len(), 3);
    match &s.nodes[0][0].kind {
        BodyKind::Multipart { children, subtype } => {
            assert_eq!(children.len(), 2);
            assert!(children[0] == PartRef { level: 0, part: 1 });
            assert!(children[1] == PartRef { level: 0, part: 2 });
            assert_eq!(subtype, "");
        }
        _ => panic!("multipart"),
    }
    let text = &s.nodes[0][1];
    match &text.kind {
        BodyKind::Text { lines } => assert_eq!(*lines, 0),
        _ => panic!("text"),
    }
    assert_eq!(text.fields.subtype.as_deref(), Some("plain"));
    assert_eq!(text.fields.encoding.as_deref(), Some("7bit"));
    let params = text.fields.parameters.as_ref().unwrap();
    assert_eq!(params.len(), 1);
    assert_eq!(params[0].name, "charset");
    assert_eq!(params[0].value, "us-ascii");
    assert_eq!(text.fields.size_octets, 12);
    assert!(text.md5.is_none());
    match &s.nodes[0][2].kind {
        BodyKind::Basic { body_type } => assert!(body_type.is_none()),
        _ => panic!("basic"),
    }
    let ext = t.body_structure(true);
    match &ext.nodes[0][1].kind {
        BodyKind::Text { lines } => assert_eq!(*lines, 2),
        _ => panic!("text"),
    }
    assert_eq!(ext.nodes[0][1].md5.as_deref(), Some(format!("{:x}", md5::compute(b"hello\nworld\n")).as_str()));
    assert!(ext.nodes[0][0].md5.is_none());
}

#[test]
fn nested_message_structure() {
    // A message whose body is a message whose body is a multipart.
    let mut raw2 = Vec::new();
    let mut mroot = add_part(&mut raw2, &[("Content-Type", "multipart/alternative")], b"", PartKind::Multipart(vec![1, 2]), no_mime());
    let a = add_part(&mut raw2, &[("Content-Type", "text/plain")], b"plain body\n", PartKind::Text, text_mime("plain"));
    let b = add_part(&mut raw2, &[("Content-Type", "text/html")], b"<p>html</p>\n\n", PartKind::Html, text_mime("html"));
    mroot.offset_end = raw2.len() as u32;
    let mut raw1 = Vec::new();
    let mut root1 = add_part(&mut raw1, &[("Subject", "inner"), ("Content-Type", "message/rfc822")], b"", PartKind::Message(2), no_mime());
    raw1.extend_from_slice(&raw2);
    root1.offset_end = raw1.len() as u32;
    let mut raw0 = Vec::new();
    let mut root0 = add_part(&mut raw0, &[("Subject", "outer"), ("Content-Type", "message/rfc822")], b"", PartKind::Message(1), no_mime());
    raw0.extend_from_slice(&raw1);
    root0.offset_end = raw0.len() as u32;
    let mut env1 = no_envelope();
    env1.subject = Some("inner".to_string());
    let mut env2 = no_envelope();
    env2.subject = Some("deepest".to_string());
    let t = MessageTree {
        levels: vec![
            Level { parts: vec![root0], raw: raw0, envelope: no_envelope() },
            Level { parts: vec![root1], raw: raw1, envelope: env1 },
            Level { parts: vec![mroot, a, b], raw: raw2.clone(), envelope: env2 },
        ],
    };
    assert!(t.check());
    let s = t.body_structure(true);
    match &s.nodes[0][0].kind {
        BodyKind::Message { body, envelope } => {
            assert!(*body == PartRef { level: 1, part: 0 });
            assert_eq!(envelope.subject.as_deref(), Some("inner"));
        }
        _ => panic!("outer message"),
    }
    match &s.nodes[1][0].kind {
        BodyKind::Message { body, envelope } => {
            assert!(*body == PartRef { level: 2, part: 0 });
            assert_eq!(envelope.subject.as_deref(), Some("deepest"));
        }
        _ => panic!("inner message"),
    }
    match &s.nodes[2][0].kind {
        BodyKind::Multipart { children, .. } => {
            assert_eq!(children.len(), 2);
            assert!(children[0] == PartRef { level: 2, part: 1 });
            assert!(children[1] == PartRef { level: 2, part: 2 });
        }
        _ => panic!("multipart"),
    }
    assert_eq!(s.nodes[2][1].md5.as_deref(), Some(format!("{:x}", md5::compute(b"plain body\n")).as_str()));
    let order = t.structure_order();
    let expect = [(0, 0), (1, 0), (2, 0), (2, 1), (2, 2)];
    assert_eq!(order.len(), expect.len());
    for (r, (l, p)) in order.iter().zip(expect) {
        assert!(*r == PartRef { level: l, part: p });
    }
    assert_eq!(s.nodes[2][2].md5.as_deref(), Some(format!("{:x}", md5::compute(b"<p>html</p>\n\n")).as_str()));
    assert_eq!(s.nodes[2][2].fields.subtype.as_deref(), Some("html"));
    // BODY[1.1] enters both messages and reaches the first alternative.
    assert_eq!(t.body_section(&[Section::Part(1), Section::Part(1), Section::Part(1)], None).unwrap(), b"plain body\n".to_vec());
    assert_eq!(t.body_section(&[Section::Part(1), Section::Header], None).unwrap(), b"Subject: inner\r\nContent-Type: message/rfc822\r\n\r\n".to_vec());
    match t.binary(&[1], None) {
        Ok(Some(BinaryContents::Bytes(v))) => assert_eq!(v, t.levels[1].raw),
        _ => panic!("embedded message"),
    }
}

#[test]
fn content_type_parameters_kept() {
    let mut t = simple_tree();
    t.levels[0].parts[1].mime.content_type = Some(ContentType {
        c_type: "text".to_string(),
        c_subtype: Some("plain".to_string()),
        attributes: Some(vec![Param { name: "charset".to_string(), value: "utf-8".to_string() }]),
    });
    t.levels[0].parts[1].mime.content_id = Some("cid1".to_string());
    let s = t.body_structure(true);
    let f = &s.nodes[0][1].fields;
    assert_eq!(f.parameters.as_ref().unwrap()[0].value, "utf-8");
    assert_eq!(f.id.as_deref(), Some("<cid1>"));
}

fn record(keywords: Vec<Keyword>) -> RecordData {
    RecordData {
        account_id: 1,
        id: 7,
        thread_id: 3,
        seqnum: 2,
        uid: 40,
        received_at: 1000,
        size: 55,
        preview: String::new(),
        keywords,
        change_id: Some(9),
    }
}

#[test]
fn plan_and_attributes() {
    let attrs = vec![Attribute::Flags, Attribute::BodySection { peek: false, sections: vec![], partial: None }];
    let plan = fetch_plan(&attrs, true, true);
    assert!(plan.needs_blobs && plan.set_seen && !plan.needs_thread_id);
    assert!(!fetch_plan(&attrs, false, true).set_seen);
    assert!(!fetch_plan(&attrs, true, false).set_seen);
    let peek = vec![Attribute::BodySection { peek: true, sections: vec![], partial: None }, Attribute::ThreadId];
    let p2 = fetch_plan(&peek, true, true);
    assert!(!p2.set_seen && p2.needs_blobs && p2.needs_thread_id);
    let header_only = vec![Attribute::BodySection { peek: false, sections: vec![Section::Header], partial: None }];
    assert!(!fetch_plan(&header_only, true, true).set_seen);
    let meta = vec![Attribute::Envelope, Attribute::InternalDate];
    assert!(!fetch_plan(&meta, true, true).needs_blobs);

    let a = prepare_attributes(vec![Attribute::Flags], true, true);
    assert_eq!(a.len(), 3);
    assert!(matches!(a[0], Attribute::Uid));
    assert!(matches!(a[2], Attribute::ModSeq));
    let b = prepare_attributes(vec![], true, false);
    assert!(b.len() == 1 && matches!(b[0], Attribute::Flags));
    let c = prepare_attributes(vec![Attribute::Uid, Attribute::ModSeq], true, true);
    assert_eq!(c.len(), 2);
}

#[test]
fn vanished_modifier() {
    assert!(validate_vanished(false, false, false).is_ok());
    assert!(validate_vanished(true, false, true) == Err(FetchError::QresyncNotEnabled));
    assert!(validate_vanished(true, true, false) == Err(FetchError::VanishedNeedsUid));
    assert!(validate_vanished(true, true, true).is_ok());
}

#[test]
fn project_record() {
    let t = simple_tree();
    let attrs = vec![
        Attribute::Uid,
        Attribute::BodySection { peek: false, sections: vec![], partial: None },
        Attribute::Binary { peek: true, sections: vec![2], partial: None },
        Attribute::BodySection { peek: true, sections: vec![Section::Part(5)], partial: None },
        Attribute::ModSeq,
        Attribute::EmailId,
        Attribute::Rfc822Size,
    ];
    let r = project(&attrs, &t, &record(vec![Keyword::Flagged]), true);
    assert_eq!(r.items.len(), 7);
    assert!(matches!(r.items[0], Some(DataItem::Uid(40))));
    match &r.items[1] {
        Some(DataItem::BodySection { attribute, origin, contents }) => {
            assert_eq!(*attribute, 1);
            assert!(origin.is_none());
            assert_eq!(*contents, t.levels[0].raw);
        }
        _ => panic!("section"),
    }
    assert!(matches!(r.items[2], Some(DataItem::Binary { attribute: 2, .. })));
    assert!(r.items[3].is_none());
    assert!(matches!(r.items[4], Some(DataItem::ModSeq(10))));
    assert!(matches!(r.items[5], Some(DataItem::EmailId(v)) if v == (1u64 << 32) + 7));
    assert!(matches!(r.items[6], Some(DataItem::Rfc822Size(55))));
    let flags = r.seen_flags.expect("seen flags appended");
    assert_eq!(flags.len(), 2);
    assert!(matches!(flags[1], Keyword::Seen));

    let seen = project(&attrs, &t, &record(vec![Keyword::Seen]), true);
    assert!(seen.seen_flags.is_none());
}

#[test]
fn project_binary_error_is_per_attribute() {
    let mut t = simple_tree();
    t.levels[0].parts[2].encoding_problem = true;
    let attrs = vec![Attribute::Binary { peek: true, sections: vec![2], partial: None }, Attribute::Uid];
    let r = project(&attrs, &t, &record(vec![]), false);
    assert!(matches!(r.items[0], Some(DataItem::BinaryError { attribute: 0 })));
    assert!(matches!(r.items[1], Some(DataItem::Uid(40))));
}

#[test]
fn condstore_enabling() {
    assert!(enables_condstore(false, true, &vec![]));
    assert!(!enables_condstore(true, true, &vec![]));
    assert!(enables_condstore(true, false, &vec![Attribute::ModSeq]));
    assert!(!enables_condstore(false, false, &vec![Attribute::Flags]));
}

#[test]
fn structure_order_of_multipart() {
    let t = simple_tree();
    let order = t.structure_order();
    assert_eq!(order.len(), 3);
    assert!(order[0] == PartRef { level: 0, part: 0 });
    assert!(order[1] == PartRef { level: 0, part: 1 });
    assert!(order[2] == PartRef { level: 0, part: 2 });
}

#[test]
fn mime_section_keeps_content_headers_only() {
    let mut raw = Vec::new();
    let root = add_part(
        &mut raw,
        &[("MIME-Version", "1.0"), ("content-type", "text/plain"), ("Content-Foo", "x"), ("content-bar", "y")],
        b"body\n",
        PartKind::Text,
        text_mime("plain"),
    );
    let t = MessageTree { levels: vec![Level { parts: vec![root], raw, envelope: no_envelope() }] };
    assert!(t.check());
    let m = t.body_section(&[Section::Mime], None).unwrap();
    assert_eq!(m, b"content-type: text/plain\r\nContent-Foo: x\r\n\r\n".to_vec());
    let mut raw2 = Vec::new();
    let only = add_part(&mut raw2, &[("MIME-Version", "1.0")], b"", PartKind::Text, text_mime("plain"));
    let t2 = MessageTree { levels: vec![Level { parts: vec![only], raw: raw2, envelope: no_envelope() }] };
    assert_eq!(t2.body_section(&[Section::Mime], None).unwrap(), b"\r\n".to_vec());
}

#[test]
fn single_part_segment_one_then_header() {
    let mut raw = Vec::new();
    let root = add_part(&mut raw, &[("Subject", "s")], b"text\n", PartKind::Text, text_mime("plain"));
    let t = MessageTree { levels: vec![Level { parts: vec![root], raw, envelope: no_envelope() }] };
    assert_eq!(t.body_section(&[Section::Part(1), Section::Header], None).unwrap(), b"Subject: s\r\n\r\n".to_vec());
    assert_eq!(t.body_section(&[Section::Part(1), Section::Text], None).unwrap(), b"text\n".to_vec());
    assert_eq!(t.body_section(&[Section::Part(2)], None), None);
    assert_eq!(t.binary_size(&[1, 1]), Some(5));
}
