//! Identifiers of queued outgoing reports, and small helpers of the queue API.
use vstd::prelude::*;
use vstd::string::StringExecFns;

verus! {

/// `s` cut at every `sep`, the pieces in order (an empty `s` is one empty piece).
pub open spec fn split_on(s: Seq<char>, sep: char) -> Seq<Seq<char>>
    decreases s.len(),
{
    if s.len() == 0 {
        seq![Seq::empty()]
    } else {
        let prev = split_on(s.drop_last(), sep);
        if s.last() == sep {
            prev.push(Seq::empty())
        } else {
            prev.update(prev.len() - 1, prev.last().push(s.last()))
        }
    }
}

pub open spec fn is_digit(c: char) -> bool {
    '0' <= c && c <= '9'
}

/// The value of a run of decimal digits.
pub open spec fn digits_value(s: Seq<char>) -> int
    decreases s.len(),
{
    if s.len() == 0 {
        0
    } else {
        digits_value(s.drop_last()) * 10 + (s.last() as int - '0' as int)
    }
}

/// What parsing a `u64` accepts: an optional `+`, then one or more decimal digits
/// whose value fits.
pub open spec fn parse_u64_spec(s: Seq<char>) -> Option<u64> {
    let d = if s.len() > 0 && s[0] == '+' {
        s.subrange(1, s.len() as int)
    } else {
        s
    };
    if d.len() > 0 && (forall|i: int| 0 <= i < d.len() ==> is_digit(#[trigger] d[i]))
        && digits_value(d) <= u64::MAX {
        Some(digits_value(d) as u64)
    } else {
        None
    }
}

/// Relies on `str::split` (collected into owned strings): the pieces of `s`
/// between the separators, in order.
#[verifier::external_body]
fn split_bang(s: &str) -> (r: Vec<String>)
    ensures
        r@.map_values(|p: String| p@) == split_on(s@, '!'),
{
    s.split('!').map(|p| p.to_string()).collect()
}

/// Relies on `u64`'s `FromStr`: an optional `+` and decimal digits whose value
/// fits, nothing else.
#[verifier::external_body]
fn parse_u64(s: &str) -> (r: Option<u64>)
    ensures
        r == parse_u64_spec(s@),
{
    s.parse::<u64>().ok()
}

/// The header of a queued aggregate report.
pub struct ReportEvent {
    pub domain: String,
    pub policy_hash: u64,
    pub seq_id: u64,
    pub due: u64,
}

/// A queued report, by kind.
pub enum QueueClass {
    DmarcReportHeader(ReportEvent),
    TlsReportHeader(ReportEvent),
}

/// What `parse_queued_report_id` makes of the pieces of an identifier
/// `kind!domain!policy!seq!due`; pieces after the fifth are ignored.
pub open spec fn report_id_ok(parts: Seq<Seq<char>>, r: Option<QueueClass>) -> bool {
    let ok = parts.len() >= 5 && parse_u64_spec(parts[2]) is Some && parse_u64_spec(parts[3]) is Some
        && parse_u64_spec(parts[4]) is Some && (parts[0] == seq!['d'] || parts[0] == seq!['t']);
    if !ok {
        r is None
    } else {
        match r {
            Some(QueueClass::DmarcReportHeader(e)) => parts[0] == seq!['d'] && e.domain@ == parts[1]
                && Some(e.policy_hash) == parse_u64_spec(parts[2]) && Some(e.seq_id)
                == parse_u64_spec(parts[3]) && Some(e.due) == parse_u64_spec(parts[4]),
            Some(QueueClass::TlsReportHeader(e)) => parts[0] == seq!['t'] && e.domain@ == parts[1]
                && Some(e.policy_hash) == parse_u64_spec(parts[2]) && Some(e.seq_id)
                == parse_u64_spec(parts[3]) && Some(e.due) == parse_u64_spec(parts[4]),
            None => false,
        }
    }
}

/// Reads a report identifier `d!domain!policy!seq!due` (DMARC) or
/// `t!domain!policy!seq!due` (TLS).
pub fn parse_queued_report_id(id: &str) -> (r: Option<QueueClass>)
    ensures
        report_id_ok(split_on(id@, '!'), r),
{
    let parts = split_bang(id);
    let ghost views = parts@.map_values(|p: String| p@);
    if parts.len() < 5 {
        return None;
    }
    assert(views[0] == parts@[0]@ && views[1] == parts@[1]@ && views[2] == parts@[2]@);
    assert(views[3] == parts@[3]@ && views[4] == parts@[4]@);
    let policy_hash = match parse_u64(parts[2].as_str()) {
        Some(v) => v,
        None => return None,
    };
    let seq_id = match parse_u64(parts[3].as_str()) {
        Some(v) => v,
        None => return None,
    };
    let due = match parse_u64(parts[4].as_str()) {
        Some(v) => v,
        None => return None,
    };
    let d = String::from_str("d");
    let t = String::from_str("t");
    proof {
        reveal_strlit("d");
        reveal_strlit("t");
        assert("d"@ =~= seq!['d']);
        assert("t"@ =~= seq!['t']);
    }
    let event = ReportEvent { domain: parts[1].clone(), policy_hash, seq_id, due };
    if parts[0].eq(&d) {
        Some(QueueClass::DmarcReportHeader(event))
    } else if parts[0].eq(&t) {
        Some(QueueClass::TlsReportHeader(event))
    } else {
        None
    }
}

pub open spec fn digit_char(d: int) -> char {
    if d == 0 {
        '0'
    } else if d == 1 {
        '1'
    } else if d == 2 {
        '2'
    } else if d == 3 {
        '3'
    } else if d == 4 {
        '4'
    } else if d == 5 {
        '5'
    } else if d == 6 {
        '6'
    } else if d == 7 {
        '7'
    } else if d == 8 {
        '8'
    } else {
        '9'
    }
}

/// The decimal digits of `n`, without leading zeros.
pub open spec fn decimal_spec(n: nat) -> Seq<char>
    decreases n,
{
    if n < 10 {
        seq![digit_char(n as int)]
    } else {
        decimal_spec(n / 10).push(digit_char((n % 10) as int))
    }
}

/// Relies on the `Display` impl of `u64` (through `to_string`): decimal digits
/// without leading zeros.
#[verifier::external_body]
fn decimal(n: u64) -> (r: String)
    ensures
        r@ == decimal_spec(n as nat),
{
    n.to_string()
}

/// The identifier text of a queued report: `d!` (DMARC) or `t!` (TLS), then the
/// domain, the policy hash, the sequence number and the due time, separated by `!`.
pub open spec fn report_id_text(q: QueueClass) -> Seq<char> {
    let (kind, e) = match q {
        QueueClass::DmarcReportHeader(e) => (seq!['d'], e),
        QueueClass::TlsReportHeader(e) => (seq!['t'], e),
    };
    kind + seq!['!'] + e.domain@ + seq!['!'] + decimal_spec(e.policy_hash as nat) + seq!['!']
        + decimal_spec(e.seq_id as nat) + seq!['!'] + decimal_spec(e.due as nat)
}

impl QueueClass {
    /// The identifier under which the report is listed.
    pub fn queue_id(&self) -> (r: String)
        ensures
            r@ == report_id_text(*self),
    {
        let (kind, e) = match self {
            QueueClass::DmarcReportHeader(e) => ("d!", e),
            QueueClass::TlsReportHeader(e) => ("t!", e),
        };
        let mut r = String::from_str(kind);
        r.append(e.domain.as_str());
        r.append("!");
        let h = decimal(e.policy_hash);
        r.append(h.as_str());
        r.append("!");
        let sq = decimal(e.seq_id);
        r.append(sq.as_str());
        r.append("!");
        let d = decimal(e.due);
        r.append(d.as_str());
        proof {
            reveal_strlit("d!");
            reveal_strlit("t!");
            reveal_strlit("!");
            assert("d!"@ =~= seq!['d'] + seq!['!']);
            assert("t!"@ =~= seq!['t'] + seq!['!']);
            assert(r@ =~= report_id_text(*self));
        }
        r
    }
}

proof fn lemma_split_single(s: Seq<char>, sep: char)
    requires
        !s.contains(sep),
    ensures
        split_on(s, sep) == seq![s],
    decreases s.len(),
{
    if s.len() > 0 {
        assert(!s.drop_last().contains(sep)) by {
            if s.drop_last().contains(sep) {
                let i = choose|i: int| 0 <= i < s.drop_last().len() && s.drop_last()[i] == sep;
                assert(s[i] == sep);
            }
        }
        lemma_split_single(s.drop_last(), sep);
        assert(s.last() != sep) by {
            assert(s[s.len() - 1] == s.last());
        }
        assert(s.drop_last().push(s.last()) =~= s);
        assert(seq![s.drop_last()].update(0, s.drop_last().push(s.last())) =~= seq![s]);
    } else {
        assert(s =~= Seq::<char>::empty());
    }
}

proof fn lemma_split_join(x: Seq<char>, y: Seq<char>, sep: char)
    requires
        !y.contains(sep),
    ensures
        split_on(x + seq![sep] + y, sep) == split_on(x, sep).push(y),
    decreases y.len(),
{
    let s = x + seq![sep] + y;
    if y.len() == 0 {
        assert(s.drop_last() =~= x);
        assert(y =~= Seq::<char>::empty());
    } else {
        let y2 = y.drop_last();
        assert(!y2.contains(sep)) by {
            if y2.contains(sep) {
                let i = choose|i: int| 0 <= i < y2.len() && y2[i] == sep;
                assert(y[i] == sep);
            }
        }
        lemma_split_join(x, y2, sep);
        assert(s.drop_last() =~= x + seq![sep] + y2);
        assert(s.last() == y.last());
        assert(y.last() != sep) by {
            assert(y[y.len() - 1] == y.last());
        }
        let prev = split_on(x, sep).push(y2);
        assert(prev.update(prev.len() - 1, prev.last().push(s.last())) =~= split_on(x, sep).push(y)) by {
            assert(y2.push(y.last()) =~= y);
        }
    }
}

proof fn lemma_digit_char(d: int)
    requires
        0 <= d <= 9,
    ensures
        digit_char(d) as int - '0' as int == d,
        is_digit(digit_char(d)),
        digit_char(d) != '+',
{
    if d == 0 {
    } else if d == 1 {
    } else if d == 2 {
    } else if d == 3 {
    } else if d == 4 {
    } else if d == 5 {
    } else if d == 6 {
    } else if d == 7 {
    } else if d == 8 {
    } else {
    }
}

proof fn lemma_decimal(n: nat)
    ensures
        decimal_spec(n).len() > 0,
        decimal_spec(n)[0] != '+',
        forall|i: int| 0 <= i < decimal_spec(n).len() ==> is_digit(#[trigger] decimal_spec(n)[i]),
        digits_value(decimal_spec(n)) == n,
    decreases n,
{
    lemma_digit_char((n % 10) as int);
    if n >= 10 {
        lemma_decimal(n / 10);
        let prev = decimal_spec(n / 10);
        let cur = decimal_spec(n);
        assert(cur.drop_last() =~= prev);
        assert(forall|i: int| 0 <= i < prev.len() ==> cur[i] == prev[i]);
        assert(n == (n / 10) * 10 + n % 10);
        assert(cur.last() == digit_char((n % 10) as int));
        assert(digits_value(cur) == digits_value(cur.drop_last()) * 10 + (cur.last() as int
            - '0' as int));
    } else {
        lemma_digit_char(n as int);
        assert(decimal_spec(n).drop_last() =~= Seq::<char>::empty());
        assert(digits_value(decimal_spec(n)) == digits_value(decimal_spec(n).drop_last()) * 10 + (
        decimal_spec(n).last() as int - '0' as int));
    }
}

proof fn lemma_no_bang_decimal(n: nat)
    ensures
        !decimal_spec(n).contains('!'),
{
    lemma_decimal(n);
    if decimal_spec(n).contains('!') {
        let i = choose|i: int| 0 <= i < decimal_spec(n).len() && decimal_spec(n)[i] == '!';
        assert(is_digit(decimal_spec(n)[i]));
    }
}

proof fn lemma_parse_decimal(n: u64)
    ensures
        parse_u64_spec(decimal_spec(n as nat)) == Some(n),
{
    lemma_decimal(n as nat);
}

/// Listing a report under its identifier and reading the identifier back gives
/// the same report, provided its domain holds no `!`.
pub proof fn lemma_report_id_round_trip(q: QueueClass, r: Option<QueueClass>)
    requires
        !(match q {
            QueueClass::DmarcReportHeader(e) => e.domain@,
            QueueClass::TlsReportHeader(e) => e.domain@,
        }).contains('!'),
        report_id_ok(split_on(report_id_text(q), '!'), r),
    ensures
        match (q, r) {
            (QueueClass::DmarcReportHeader(a), Some(QueueClass::DmarcReportHeader(b))) => a.domain@
                == b.domain@ && a.policy_hash == b.policy_hash && a.seq_id == b.seq_id && a.due
                == b.due,
            (QueueClass::TlsReportHeader(a), Some(QueueClass::TlsReportHeader(b))) => a.domain@
                == b.domain@ && a.policy_hash == b.policy_hash && a.seq_id == b.seq_id && a.due
                == b.due,
            _ => false,
        },
{
    let (kind, e) = match q {
        QueueClass::DmarcReportHeader(e) => (seq!['d'], e),
        QueueClass::TlsReportHeader(e) => (seq!['t'], e),
    };
    let p2 = decimal_spec(e.policy_hash as nat);
    let p3 = decimal_spec(e.seq_id as nat);
    let p4 = decimal_spec(e.due as nat);
    lemma_no_bang_decimal(e.policy_hash as nat);
    lemma_no_bang_decimal(e.seq_id as nat);
    lemma_no_bang_decimal(e.due as nat);
    lemma_parse_decimal(e.policy_hash);
    lemma_parse_decimal(e.seq_id);
    lemma_parse_decimal(e.due);
    assert(!kind.contains('!')) by {
        if kind.contains('!') {
            let i = choose|i: int| 0 <= i < kind.len() && kind[i] == '!';
            assert(kind[0] != '!');
        }
    }
    lemma_split_single(kind, '!');
    lemma_split_join(kind, e.domain@, '!');
    let t1 = kind + seq!['!'] + e.domain@;
    lemma_split_join(t1, p2, '!');
    let t2 = t1 + seq!['!'] + p2;
    lemma_split_join(t2, p3, '!');
    let t3 = t2 + seq!['!'] + p3;
    lemma_split_join(t3, p4, '!');
    assert(report_id_text(q) == t3 + seq!['!'] + p4);
    let parts = split_on(report_id_text(q), '!');
    assert(parts =~= seq![kind, e.domain@, p2, p3, p4]);
}

/// Whether a priority is zero (a zero priority is left out of the JSON form).
pub fn is_zero(num: &i16) -> (r: bool)
    ensures
        r == (*num == 0),
{
    *num == 0
}

} // verus!
