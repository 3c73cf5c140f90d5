//! A reading of the JSON that the agent writes: arrays of objects whose
//! members are strings, without whitespace between tokens and without
//! escapes. What this reader accepts is valid JSON, and the values it gives
//! are the ones JSON gives; the interface list reads back to its fields.
use vstd::prelude::*;
use crate::report::{self, MacRecord};
use crate::text;

verus! {

/// A character that may stand in a JSON string as it is: not a quote, not a
/// backslash, not a control character.
pub open spec fn plain_char(c: char) -> bool {
    c != '"' && c != '\\' && c as u32 >= 0x20
}

/// Text made only of characters that may stand in a JSON string as they are.
pub open spec fn plain_text(s: Seq<char>) -> bool {
    forall|i: int| 0 <= i < s.len() ==> plain_char(#[trigger] s[i])
}

/// One member of an object: its key and its string value.
pub type Member = (Seq<char>, Seq<char>);

/// Reads a string without escapes at the start of `s`: its content and the
/// text after it.
#[verifier::opaque]
pub open spec fn read_string(s: Seq<char>) -> Option<(Seq<char>, Seq<char>)> {
    if s.len() > 0 && s[0] == '"' {
        let t = s.drop_first();
        let k = text::prefix_before(t, '"');
        if k < t.len() && plain_text(t.take(k as int)) {
            Some((t.take(k as int), t.skip(k + 1 as int)))
        } else {
            None
        }
    } else {
        None
    }
}

/// Reads one member, `"key":"value"`, at the start of `s`.
#[verifier::opaque]
pub open spec fn read_member(s: Seq<char>) -> Option<(Member, Seq<char>)> {
    match read_string(s) {
        Some((key, r1)) => if r1.len() > 0 && r1[0] == ':' {
            match read_string(r1.drop_first()) {
                Some((value, r2)) => Some(((key, value), r2)),
                None => None,
            }
        } else {
            None
        },
        None => None,
    }
}

/// Reading a string or a member consumes at least one character.
pub proof fn lemma_read_member_shorter(s: Seq<char>)
    ensures
        read_string(s) matches Some((_, r)) ==> r.len() < s.len(),
        read_member(s) matches Some((_, r)) ==> r.len() < s.len(),
{
    reveal(read_string);
    reveal(read_member);
    text::lemma_prefix_before_excludes(s.drop_first(), '"');
    if let Some((_, r1)) = read_string(s) {
        if r1.len() > 0 {
            text::lemma_prefix_before_excludes(r1.drop_first().drop_first(), '"');
        }
    }
}

/// Reads the members of an object after its `{`, through its `}`.
pub open spec fn read_members(s: Seq<char>) -> Option<(Seq<Member>, Seq<char>)>
    decreases s.len(),
{
    match read_member(s) {
        Some((m, r)) => if r.len() > 0 && r[0] == '}' {
            Some((seq![m], r.drop_first()))
        } else if r.len() > 0 && r[0] == ',' {
            proof {
                lemma_read_member_shorter(s);
            }
            match read_members(r.drop_first()) {
                Some((ms, r2)) => Some((seq![m] + ms, r2)),
                None => None,
            }
        } else {
            None
        },
        None => None,
    }
}

/// Reads an object at the start of `s`.
pub open spec fn read_object(s: Seq<char>) -> Option<(Seq<Member>, Seq<char>)> {
    if s.len() > 0 && s[0] == '{' {
        let t = s.drop_first();
        if t.len() > 0 && t[0] == '}' {
            Some((seq![], t.drop_first()))
        } else {
            read_members(t)
        }
    } else {
        None
    }
}

/// Reading members or an object consumes at least one character.
pub proof fn lemma_read_object_shorter(s: Seq<char>)
    ensures
        read_members(s) matches Some((_, r)) ==> r.len() < s.len(),
        read_object(s) matches Some((_, r)) ==> r.len() < s.len(),
    decreases s.len(),
{
    lemma_read_member_shorter(s);
    if let Some((_, r)) = read_member(s) {
        if r.len() > 0 && r[0] == ',' {
            lemma_read_object_shorter(r.drop_first());
        }
    }
    if s.len() > 0 {
        lemma_read_object_shorter_members(s.drop_first());
    }
}

proof fn lemma_read_object_shorter_members(t: Seq<char>)
    ensures
        read_members(t) matches Some((_, r)) ==> r.len() < t.len(),
    decreases t.len(),
{
    lemma_read_member_shorter(t);
    if let Some((_, r)) = read_member(t) {
        if r.len() > 0 && r[0] == ',' {
            lemma_read_object_shorter_members(r.drop_first());
        }
    }
}

/// Reads the objects of an array after its `[`, through its `]`.
pub open spec fn read_objects(s: Seq<char>) -> Option<(Seq<Seq<Member>>, Seq<char>)>
    decreases s.len(),
{
    match read_object(s) {
        Some((o, r)) => if r.len() > 0 && r[0] == ']' {
            Some((seq![o], r.drop_first()))
        } else if r.len() > 0 && r[0] == ',' {
            proof {
                lemma_read_object_shorter(s);
            }
            match read_objects(r.drop_first()) {
                Some((os, r2)) => Some((seq![o] + os, r2)),
                None => None,
            }
        } else {
            None
        },
        None => None,
    }
}

/// Reads a whole text that is one array of objects.
pub open spec fn read_document(s: Seq<char>) -> Option<Seq<Seq<Member>>> {
    if s.len() > 0 && s[0] == '[' {
        let t = s.drop_first();
        let read = if t.len() > 0 && t[0] == ']' {
            Some((seq![], t.drop_first()))
        } else {
            read_objects(t)
        };
        match read {
            Some((os, r)) => if r.len() == 0 {
                Some(os)
            } else {
                None
            },
            None => None,
        }
    } else {
        None
    }
}

// ---------------------------------------------------------------------------
//  The interface list reads back
// ---------------------------------------------------------------------------

/// `s` between quotes.
pub open spec fn quoted(s: Seq<char>) -> Seq<char> {
    seq!['"'] + s + seq!['"']
}

/// The text of one member.
pub open spec fn member_text(key: Seq<char>, value: Seq<char>) -> Seq<char> {
    quoted(key) + seq![':'] + quoted(value)
}

/// The members of an interface's object, in order.
pub open spec fn record_members(m: MacRecord) -> Seq<Member> {
    seq![("interface"@, m.interface), ("mac"@, m.mac), ("ip"@, m.ip)]
}

/// Whether every field of `m` may be written in JSON as it is.
pub open spec fn plain_record(m: MacRecord) -> bool {
    plain_text(m.interface) && plain_text(m.mac) && plain_text(m.ip)
}

proof fn lemma_read_string(x: Seq<char>, rest: Seq<char>)
    requires
        plain_text(x),
    ensures
        read_string(quoted(x) + rest) == Some((x, rest)),
{
    reveal(read_string);
    let s = quoted(x) + rest;
    let t = s.drop_first();
    assert(t =~= x + seq!['"'] + rest);
    assert forall|i: int| 0 <= i < x.len() implies t[i] != '"' by {
        assert(t[i] == x[i]);
        assert(plain_char(x[i]));
    }
    text::lemma_prefix_before(t, '"', x.len() as int);
    assert(t.take(x.len() as int) =~= x);
    assert(t.skip(x.len() + 1int) =~= rest);
}

proof fn lemma_read_member(key: Seq<char>, value: Seq<char>, rest: Seq<char>)
    requires
        plain_text(key),
        plain_text(value),
    ensures
        read_member(member_text(key, value) + rest) == Some(((key, value), rest)),
{
    reveal(read_member);
    let r1 = seq![':'] + quoted(value) + rest;
    assert(member_text(key, value) + rest =~= quoted(key) + r1);
    lemma_read_string(key, r1);
    assert(r1.drop_first() =~= quoted(value) + rest);
    lemma_read_string(value, rest);
}

proof fn lemma_key_names()
    ensures
        plain_text("interface"@),
        plain_text("mac"@),
        plain_text("ip"@),
{
    reveal_strlit("interface");
    reveal_strlit("mac");
    reveal_strlit("ip");
}

/// The object that [`report::mac_object`] writes, token by token.
proof fn lemma_mac_object_tokens(m: MacRecord)
    ensures
        report::mac_object(m) == seq!['{'] + member_text("interface"@, m.interface) + seq![',']
            + member_text("mac"@, m.mac) + seq![','] + member_text("ip"@, m.ip) + seq!['}'],
{
    reveal_strlit("{\"interface\":\"");
    reveal_strlit("\",\"mac\":\"");
    reveal_strlit("\",\"ip\":\"");
    reveal_strlit("\"}");
    reveal_strlit("interface");
    reveal_strlit("mac");
    reveal_strlit("ip");
    assert("{\"interface\":\""@ =~= seq!['{'] + seq!['"'] + "interface"@ + seq!['"'] + seq![':']
        + seq!['"']);
    assert("\",\"mac\":\""@ =~= seq!['"'] + seq![','] + seq!['"'] + "mac"@ + seq!['"'] + seq![
        ':',
    ] + seq!['"']);
    assert("\",\"ip\":\""@ =~= seq!['"'] + seq![','] + seq!['"'] + "ip"@ + seq!['"'] + seq![':']
        + seq!['"']);
    assert("\"}"@ =~= seq!['"'] + seq!['}']);
    assert(report::mac_object(m) =~= seq!['{'] + member_text("interface"@, m.interface) + seq![
        ',',
    ] + member_text("mac"@, m.mac) + seq![','] + member_text("ip"@, m.ip) + seq!['}']);
}

proof fn lemma_members_last(key: Seq<char>, value: Seq<char>, rest: Seq<char>)
    requires
        plain_text(key),
        plain_text(value),
    ensures
        read_members(member_text(key, value) + (seq!['}'] + rest)) == Some(
            (seq![(key, value)], rest),
        ),
{
    let c = seq!['}'] + rest;
    lemma_read_member(key, value, c);
    assert(c.drop_first() =~= rest);
}

proof fn lemma_members_cons(key: Seq<char>, value: Seq<char>, more: Seq<char>)
    requires
        plain_text(key),
        plain_text(value),
    ensures
        read_members(member_text(key, value) + (seq![','] + more)) == match read_members(more) {
            Some((ms, r2)) => Some((seq![(key, value)] + ms, r2)),
            None => None,
        },
{
    let c = seq![','] + more;
    lemma_read_member(key, value, c);
    assert(c.drop_first() =~= more);
}

proof fn lemma_mac_object_nested(m: MacRecord, rest: Seq<char>)
    ensures
        report::mac_object(m) + rest == seq!['{'] + (member_text("interface"@, m.interface) + (
        seq![','] + (member_text("mac"@, m.mac) + (seq![','] + (member_text("ip"@, m.ip) + (
        seq!['}'] + rest)))))),
{
    lemma_mac_object_tokens(m);
    assert(report::mac_object(m) + rest =~= seq!['{'] + (member_text("interface"@, m.interface)
        + (seq![','] + (member_text("mac"@, m.mac) + (seq![','] + (member_text("ip"@, m.ip) + (
    seq!['}'] + rest)))))));
}

proof fn lemma_read_mac_object(m: MacRecord, rest: Seq<char>)
    requires
        plain_record(m),
    ensures
        read_object(report::mac_object(m) + rest) == Some((record_members(m), rest)),
{
    lemma_key_names();
    let mi = member_text("interface"@, m.interface);
    let b = member_text("ip"@, m.ip) + (seq!['}'] + rest);
    let a = member_text("mac"@, m.mac) + (seq![','] + b);
    let t = mi + (seq![','] + a);
    lemma_mac_object_nested(m, rest);
    let s = report::mac_object(m) + rest;
    assert(s == seq!['{'] + t);
    assert(s.drop_first() =~= t);
    assert(t[0] == '"');
    lemma_members_last("ip"@, m.ip, rest);
    lemma_members_cons("mac"@, m.mac, b);
    lemma_members_cons("interface"@, m.interface, a);
    assert(seq![("mac"@, m.mac)] + seq![("ip"@, m.ip)] =~= seq![("mac"@, m.mac), ("ip"@, m.ip)]);
    assert(seq![("interface"@, m.interface)] + seq![("mac"@, m.mac), ("ip"@, m.ip)]
        =~= record_members(m));
}

/// The list of objects, written from its first object on.
proof fn lemma_joined_front(ms: Seq<MacRecord>)
    requires
        ms.len() > 0,
    ensures
        report::joined_objects(ms) == report::mac_object(ms[0]) + (if ms.len() > 1 {
            ","@ + report::joined_objects(ms.drop_first())
        } else {
            seq![]
        }),
    decreases ms.len(),
{
    if ms.len() == 1 {
        assert(report::joined_objects(ms) =~= report::mac_object(ms[0]) + seq![]);
    } else if ms.len() == 2 {
        let d = ms.drop_first();
        assert(d.len() == 1);
        assert(report::joined_objects(d) == report::mac_object(d[0]));
        assert(ms.drop_last().len() == 1);
        assert(report::joined_objects(ms.drop_last()) == report::mac_object(ms[0]));
        assert(report::joined_objects(ms) =~= report::mac_object(ms[0]) + (","@
            + report::joined_objects(d)));
    } else {
        let l = ms.drop_last();
        lemma_joined_front(l);
        let d = ms.drop_first();
        assert(l.drop_first() =~= d.drop_last());
        assert(l[0] == ms[0]);
        assert(d.last() == ms.last());
        assert(report::joined_objects(d) == report::joined_objects(d.drop_last()) + ","@
            + report::mac_object(d.last()));
        assert(report::joined_objects(ms) =~= report::mac_object(ms[0]) + (","@
            + report::joined_objects(d)));
    }
}

/// The members of each interface's object, in order.
pub open spec fn records_members(ms: Seq<MacRecord>) -> Seq<Seq<Member>> {
    ms.map_values(|m: MacRecord| record_members(m))
}

proof fn lemma_objects_last(m: MacRecord, rest: Seq<char>)
    requires
        plain_record(m),
    ensures
        read_objects(report::mac_object(m) + (seq![']'] + rest)) == Some(
            (seq![record_members(m)], rest),
        ),
{
    let c = seq![']'] + rest;
    lemma_read_mac_object(m, c);
    assert(c.drop_first() =~= rest);
}

proof fn lemma_objects_cons(m: MacRecord, more: Seq<char>)
    requires
        plain_record(m),
    ensures
        read_objects(report::mac_object(m) + (seq![','] + more)) == match read_objects(more) {
            Some((os, r2)) => Some((seq![record_members(m)] + os, r2)),
            None => None,
        },
{
    let c = seq![','] + more;
    lemma_read_mac_object(m, c);
    assert(c.drop_first() =~= more);
}

proof fn lemma_read_objects(ms: Seq<MacRecord>, rest: Seq<char>)
    requires
        ms.len() > 0,
        forall|k: int| 0 <= k < ms.len() ==> plain_record(#[trigger] ms[k]),
    ensures
        read_objects(report::joined_objects(ms) + (seq![']'] + rest)) == Some(
            (records_members(ms), rest),
        ),
    decreases ms.len(),
{
    reveal_strlit(",");
    assert(","@ =~= seq![',']);
    lemma_joined_front(ms);
    assert(plain_record(ms[0]));
    if ms.len() == 1 {
        assert(report::joined_objects(ms) =~= report::mac_object(ms[0]));
        lemma_objects_last(ms[0], rest);
        assert(records_members(ms) =~= seq![record_members(ms[0])]);
    } else {
        let d = ms.drop_first();
        let more = report::joined_objects(d) + (seq![']'] + rest);
        assert(report::joined_objects(ms) + (seq![']'] + rest) =~= report::mac_object(ms[0]) + (
        seq![','] + more));
        assert forall|k: int| 0 <= k < d.len() implies plain_record(#[trigger] d[k]) by {
            assert(d[k] == ms[k + 1]);
        }
        lemma_read_objects(d, rest);
        lemma_objects_cons(ms[0], more);
        assert(records_members(ms) =~= seq![record_members(ms[0])] + records_members(d));
    }
}

/// The JSON that [`report::macs_to_json`] writes reads back as an array with
/// one object per interface, in order, each with the members `interface`,
/// `mac` and `ip` holding the interface's fields, whenever those fields hold
/// no quote, backslash or control character.
pub proof fn lemma_macs_json_reads_back(ms: Seq<MacRecord>)
    requires
        forall|k: int| 0 <= k < ms.len() ==> plain_record(#[trigger] ms[k]),
    ensures
        read_document(report::macs_json(ms)) == Some(records_members(ms)),
        records_members(ms).len() == ms.len(),
{
    reveal_strlit("[");
    reveal_strlit("]");
    assert("["@ =~= seq!['[']);
    assert("]"@ =~= seq![']']);
    let s = report::macs_json(ms);
    let t = s.drop_first();
    if ms.len() == 0 {
        assert(report::joined_objects(ms) == Seq::<char>::empty());
        assert(t =~= seq![']']);
        assert(t.drop_first() =~= Seq::<char>::empty());
        assert(records_members(ms) =~= seq![]);
    } else {
        assert(t =~= report::joined_objects(ms) + (seq![']'] + Seq::<char>::empty()));
        lemma_read_objects(ms, Seq::<char>::empty());
        lemma_joined_front(ms);
        lemma_mac_object_tokens(ms[0]);
        assert(t[0] == '{');
    }
}

/// The report body opens with the member `"hostname":"HOST"` holding the
/// hostname as it is, followed by `,"macs":`, the interface list and the
/// closing brace.
pub proof fn lemma_report_body_hostname(hostname: Seq<char>, macs: Seq<char>)
    requires
        plain_text(hostname),
    ensures
        ({
            let body = crate::http::report_body(hostname, macs);
            &&& body[0] == '{'
            &&& read_member(body.drop_first()) == Some(
                (
                    ("hostname"@, hostname),
                    seq![','] + quoted("macs"@) + seq![':'] + macs + seq!['}'],
                ),
            )
        }),
{
    reveal_strlit("{\"hostname\":\"");
    reveal_strlit("\",\"macs\":");
    reveal_strlit("}");
    reveal_strlit("hostname");
    reveal_strlit("macs");
    assert("{\"hostname\":\""@ =~= seq!['{'] + seq!['"'] + "hostname"@ + seq!['"'] + seq![':']
        + seq!['"']);
    assert("\",\"macs\":"@ =~= seq!['"'] + seq![','] + seq!['"'] + "macs"@ + seq!['"'] + seq![
        ':',
    ]);
    assert("}"@ =~= seq!['}']);
    let rest = seq![','] + quoted("macs"@) + seq![':'] + macs + seq!['}'];
    let body = crate::http::report_body(hostname, macs);
    assert(body.drop_first() =~= member_text("hostname"@, hostname) + rest);
    assert(plain_text("hostname"@));
    lemma_read_member("hostname"@, hostname, rest);
}

} // verus!
