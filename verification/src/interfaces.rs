//! Reading the network interfaces out of what the system reports about
//! them: the sysfs address files and `ip addr show` on Unix, the adapter
//! listing of PowerShell on Windows.
use vstd::prelude::*;
use vstd::string::StringExecFns;
use crate::report::{self, MacInfo, MacRecord};
use crate::text::{
    self, chars_of, decode_lossy, find_char, line_ranges, push_char, range_equals,
    range_starts_with, string_of, to_lowercase, trim_bounds, word_ranges,
};

verus! {

/// The address that an interface without a hardware address reports.
pub open spec fn zero_mac() -> Seq<char> {
    "00:00:00:00:00:00"@
}

/// Whether `mac` names a hardware address worth reporting.
pub open spec fn reportable_mac(mac: Seq<char>) -> bool {
    mac.len() > 0 && mac != zero_mac()
}

/// Whether `iface` is the loopback interface, which is never reported.
pub fn is_loopback(iface: &str) -> (b: bool)
    ensures
        b == (iface@ == "lo"@),
{
    let chars = chars_of(iface);
    let lo = chars_of("lo");
    let r = range_equals(chars.as_slice(), 0, chars.len(), lo.as_slice());
    assert(chars@.subrange(0, chars@.len() as int) =~= iface@);
    r
}

/// The MAC address held by an interface's sysfs `address` file: its content
/// trimmed, unless that is empty or the all-zero address.
pub open spec fn sysfs_mac(content: Seq<char>) -> Option<Seq<char>> {
    let m = text::trim(content);
    if reportable_mac(m) {
        Some(m)
    } else {
        None
    }
}

/// The MAC address held by the content of an interface's `address` file,
/// when it is one worth reporting.
pub fn usable_mac(content: &str) -> (r: Option<String>)
    ensures
        match r {
            Some(m) => sysfs_mac(content@) == Some(m@),
            None => sysfs_mac(content@) is None,
        },
        r matches Some(m) ==> reportable_mac(m@) && text::trim(m@) == m@,
{
    let chars = chars_of(content);
    let (a, b) = trim_bounds(chars.as_slice(), 0, chars.len());
    assert(chars@.subrange(0, chars@.len() as int) =~= content@);
    let zero = chars_of("00:00:00:00:00:00");
    if a == b || range_equals(chars.as_slice(), a, b, zero.as_slice()) {
        return None;
    }
    proof {
        text::lemma_trim_idempotent(content@);
    }
    Some(string_of(chars.as_slice(), a, b))
}

// ---------------------------------------------------------------------------
//  IPv4 address from `ip addr show`
// ---------------------------------------------------------------------------

/// Whether a line of `ip addr show` describes an IPv4 address: trimmed, it
/// starts with `inet ` (with the space).
pub open spec fn is_inet_line(l: Seq<char>) -> bool {
    text::starts_with(text::trim(l), "inet "@)
}

/// The first IPv4 address line among `ls`.
pub open spec fn first_inet_line(ls: Seq<Seq<char>>) -> Option<Seq<char>>
    decreases ls.len(),
{
    if ls.len() == 0 {
        None
    } else if is_inet_line(ls[0]) {
        Some(ls[0])
    } else {
        first_inet_line(ls.drop_first())
    }
}

/// The part of `s` before its first `/`.
pub open spec fn before_slash(s: Seq<char>) -> Seq<char> {
    s.take(text::prefix_before(s, '/') as int)
}

/// The address that an `inet` line gives: its second word without the
/// prefix length that follows `/`, or nothing when it has no second word.
pub open spec fn inet_line_address(l: Seq<char>) -> Seq<char> {
    let ws = text::words(text::trim(l));
    if ws.len() >= 2 {
        before_slash(ws[1])
    } else {
        seq![]
    }
}

/// The IPv4 address that the output of `ip addr show` gives for an
/// interface: that of its first `inet` line, or nothing when it has none.
pub open spec fn inet_address_of(output: Seq<char>) -> Seq<char> {
    match first_inet_line(text::lines(output)) {
        Some(l) => inet_line_address(l),
        None => seq![],
    }
}

proof fn lemma_first_inet_line(ls: Seq<Seq<char>>, i: int)
    requires
        0 <= i <= ls.len(),
        forall|k: int| 0 <= k < i ==> !is_inet_line(#[trigger] ls[k]),
    ensures
        i < ls.len() && is_inet_line(ls[i]) ==> first_inet_line(ls) == Some(ls[i]),
        i == ls.len() ==> first_inet_line(ls) is None,
    decreases i,
{
    if i > 0 {
        let rest = ls.drop_first();
        assert forall|k: int| 0 <= k < i - 1 implies !is_inet_line(#[trigger] rest[k]) by {
            assert(rest[k] == ls[k + 1]);
        }
        lemma_first_inet_line(rest, i - 1);
        assert(!is_inet_line(ls[0]));
    }
}

/// The address read from `ip addr show` holds no `/` and no whitespace: the
/// prefix length is cut off and the address is a single word.
pub proof fn lemma_inet_address_clean(output: Seq<char>)
    ensures
        forall|i: int|
            0 <= i < inet_address_of(output).len() ==> #[trigger] inet_address_of(output)[i] != '/'
                && !text::is_space(inet_address_of(output)[i]),
{
    if let Some(l) = first_inet_line(text::lines(output)) {
        let ws = text::words(text::trim(l));
        if ws.len() >= 2 {
            text::lemma_words_shape(text::trim(l));
            text::lemma_prefix_before_excludes(ws[1], '/');
            let a = before_slash(ws[1]);
            assert(a == inet_address_of(output));
            assert forall|i: int| 0 <= i < a.len() implies #[trigger] a[i] != '/' && !text::is_space(
                a[i],
            ) by {
                assert(a[i] == ws[1][i]);
            }
        }
    }
}

/// The IPv4 address in the text of `ip addr show` for one interface.
pub fn inet_address(output: &str) -> (r: String)
    ensures
        r@ == inet_address_of(output@),
{
    let chars = chars_of(output);
    let s = chars.as_slice();
    let ranges = line_ranges(s);
    let ghost ls = text::lines(output@);
    let prefix = chars_of("inet ");
    let n = ranges.len();
    let mut i: usize = 0;
    while i < n
        invariant
            n == ranges@.len(),
            ls == text::lines(s@),
            s@ == output@,
            ranges@.len() == ls.len(),
            forall|k: int|
                #![trigger ranges@[k]]
                0 <= k < ranges@.len() ==> ranges@[k].0 <= ranges@[k].1 <= s@.len()
                    && s@.subrange(ranges@[k].0 as int, ranges@[k].1 as int) == ls[k],
            prefix@ == "inet "@,
            i <= n,
            forall|k: int| 0 <= k < i ==> !is_inet_line(#[trigger] ls[k]),
        decreases n - i,
    {
        let (lo, hi) = ranges[i];
        assert(s@.subrange(lo as int, hi as int) == ls[i as int]);
        let (a, b) = trim_bounds(s, lo, hi);
        if range_starts_with(s, a, b, prefix.as_slice()) {
            proof {
                lemma_first_inet_line(ls, i as int);
            }
            let ws = word_ranges(s, a, b);
            if ws.len() >= 2 {
                let (x, y) = ws[1];
                let k = find_char(s, x, y, '/');
                assert(s@.subrange(x as int, y as int).take(k - x) =~= s@.subrange(
                    x as int,
                    k as int,
                ));
                return string_of(s, x, k);
            } else {
                return String::new();
            }
        }
        i = i + 1;
    }
    proof {
        lemma_first_inet_line(ls, n as int);
    }
    String::new()
}

/// The IPv4 address in the raw output of `ip addr show` for one interface,
/// read as UTF-8 with invalid sequences replaced.
pub fn ipv4_from_ip_output(stdout: &[u8]) -> (r: String)
    ensures
        r@ == inet_address_of(text::utf8_lossy(stdout@)),
{
    let out = decode_lossy(stdout);
    inet_address(out.as_str())
}

// ---------------------------------------------------------------------------
//  The Unix interface list
// ---------------------------------------------------------------------------

/// What the system tells about one network interface on Unix: its name, the
/// content of its sysfs `address` file (`None` when it was not read), and
/// the raw output of `ip addr show` for it (`None` when that did not run).
pub struct InterfaceProbe {
    pub name: String,
    pub address_file: Option<String>,
    pub ip_output: Option<Vec<u8>>,
}

/// The plain values of an [`InterfaceProbe`].
pub struct ProbeView {
    pub name: Seq<char>,
    pub address_file: Option<Seq<char>>,
    pub ip_output: Option<Seq<u8>>,
}

impl View for InterfaceProbe {
    type V = ProbeView;

    open spec fn view(&self) -> ProbeView {
        ProbeView {
            name: self.name@,
            address_file: match self.address_file {
                Some(c) => Some(c@),
                None => None,
            },
            ip_output: match self.ip_output {
                Some(b) => Some(b@),
                None => None,
            },
        }
    }
}

/// The plain values of a list of probes, in order.
pub open spec fn probe_views(ps: Seq<InterfaceProbe>) -> Seq<ProbeView> {
    ps.map_values(|p: InterfaceProbe| p@)
}

/// The interface that a probe reports: none for the loopback interface, for
/// an unread address file, or for a MAC address not worth reporting;
/// otherwise its name, its MAC address and the IPv4 address of its `ip`
/// output (nothing when that did not run).
pub open spec fn probe_record(p: ProbeView) -> Option<MacRecord> {
    if p.name == "lo"@ {
        None
    } else {
        match p.address_file {
            None => None,
            Some(c) => match sysfs_mac(c) {
                None => None,
                Some(m) => Some(
                    MacRecord {
                        interface: p.name,
                        mac: m,
                        ip: match p.ip_output {
                            Some(b) => inet_address_of(text::utf8_lossy(b)),
                            None => seq![],
                        },
                    },
                ),
            },
        }
    }
}

/// The interfaces that the probes `ps` report, in the probes' order.
pub open spec fn sysfs_report(ps: Seq<ProbeView>) -> Seq<MacRecord>
    decreases ps.len(),
{
    if ps.len() == 0 {
        seq![]
    } else {
        let prev = sysfs_report(ps.drop_last());
        match probe_record(ps.last()) {
            Some(m) => prev.push(m),
            None => prev,
        }
    }
}

/// The interface that one probe reports, if any.
pub fn interface_entry(probe: &InterfaceProbe) -> (r: Option<MacInfo>)
    ensures
        match r {
            Some(m) => probe_record(probe@) == Some(m@),
            None => probe_record(probe@) is None,
        },
{
    if is_loopback(probe.name.as_str()) {
        return None;
    }
    let content = match &probe.address_file {
        Some(c) => c,
        None => return None,
    };
    let mac = match usable_mac(content.as_str()) {
        Some(m) => m,
        None => return None,
    };
    let ip = match &probe.ip_output {
        Some(b) => ipv4_from_ip_output(b.as_slice()),
        None => String::new(),
    };
    let m = MacInfo { interface: probe.name.clone(), mac: mac, ip: ip };
    assert(probe_record(probe@) == Some(m@));
    Some(m)
}

/// The interfaces that the probes report, in the probes' order.
pub fn interfaces_from_probes(probes: &[InterfaceProbe]) -> (r: Vec<MacInfo>)
    ensures
        report::records(r@) == sysfs_report(probe_views(probes@)),
{
    let ghost ps = probe_views(probes@);
    let mut r: Vec<MacInfo> = Vec::new();
    let n = probes.len();
    let mut i: usize = 0;
    while i < n
        invariant
            n == probes@.len(),
            ps == probe_views(probes@),
            i <= n,
            report::records(r@) == sysfs_report(ps.take(i as int)),
        decreases n - i,
    {
        assert(ps.take(i + 1).drop_last() =~= ps.take(i as int));
        assert(ps.take(i + 1).last() == probes@[i as int]@);
        if let Some(m) = interface_entry(&probes[i]) {
            let ghost old_r = r@;
            r.push(m);
            assert(report::records(r@) =~= report::records(old_r).push(m@));
        }
        i = i + 1;
    }
    assert(ps.take(n as int) =~= ps);
    r
}

/// Every interface in the Unix report is not the loopback interface, has a
/// MAC address worth reporting with no surrounding whitespace, and is named
/// after one of the probes; interfaces come in the probes' order, so
/// probes with distinct names give interfaces with distinct names.
pub proof fn lemma_sysfs_report_clean(ps: Seq<ProbeView>)
    ensures
        forall|k: int|
            0 <= k < sysfs_report(ps).len() ==> {
                let m = #[trigger] sysfs_report(ps)[k];
                &&& m.interface != "lo"@
                &&& reportable_mac(m.mac)
                &&& text::trim(m.mac) == m.mac
                &&& exists|i: int| 0 <= i < ps.len() && ps[i].name == m.interface
            },
        (forall|i: int, j: int|
            0 <= i < j < ps.len() ==> ps[i].name != ps[j].name) ==> forall|k: int, l: int|
            0 <= k < l < sysfs_report(ps).len() ==> sysfs_report(ps)[k].interface
                != sysfs_report(ps)[l].interface,
    decreases ps.len(),
{
    if ps.len() > 0 {
        let q = ps.drop_last();
        lemma_sysfs_report_clean(q);
        let prev = sysfs_report(q);
        let p = ps.last();
        match probe_record(p) {
            Some(m) => {
                let c = p.address_file->0;
                text::lemma_trim_idempotent(c);
                assert(sysfs_report(ps) == prev.push(m));
                assert forall|k: int| 0 <= k < sysfs_report(ps).len() implies {
                    let m = #[trigger] sysfs_report(ps)[k];
                    &&& m.interface != "lo"@
                    &&& reportable_mac(m.mac)
                    &&& text::trim(m.mac) == m.mac
                    &&& exists|i: int| 0 <= i < ps.len() && ps[i].name == m.interface
                } by {
                    if k < prev.len() {
                        assert(sysfs_report(ps)[k] == prev[k]);
                        let i = choose|i: int| 0 <= i < q.len() && q[i].name == prev[k].interface;
                        assert(ps[i] == q[i]);
                    } else {
                        assert(ps[ps.len() - 1] == p);
                    }
                }
                if forall|i: int, j: int| 0 <= i < j < ps.len() ==> ps[i].name != ps[j].name {
                    assert forall|i: int, j: int| 0 <= i < j < q.len() implies q[i].name
                        != q[j].name by {
                        assert(q[i] == ps[i] && q[j] == ps[j]);
                    }
                    assert forall|k: int, l: int|
                        0 <= k < l < sysfs_report(ps).len() implies sysfs_report(ps)[k].interface
                        != sysfs_report(ps)[l].interface by {
                        if l == prev.len() {
                            assert(sysfs_report(ps)[k] == prev[k]);
                            let i = choose|i: int|
                                0 <= i < q.len() && q[i].name == prev[k].interface;
                            assert(ps[i] == q[i]);
                            assert(ps[ps.len() - 1] == p);
                        } else {
                            assert(sysfs_report(ps)[k] == prev[k]);
                            assert(sysfs_report(ps)[l] == prev[l]);
                        }
                    }
                }
            },
            None => {
                assert(sysfs_report(ps) == prev);
                assert forall|k: int| 0 <= k < sysfs_report(ps).len() implies {
                    let m = #[trigger] sysfs_report(ps)[k];
                    exists|i: int| 0 <= i < ps.len() && ps[i].name == m.interface
                } by {
                    let i = choose|i: int| 0 <= i < q.len() && q[i].name == prev[k].interface;
                    assert(ps[i] == q[i]);
                }
                if forall|i: int, j: int| 0 <= i < j < ps.len() ==> ps[i].name != ps[j].name {
                    assert forall|i: int, j: int| 0 <= i < j < q.len() implies q[i].name
                        != q[j].name by {
                        assert(q[i] == ps[i] && q[j] == ps[j]);
                    }
                }
            },
        }
    }
}

// ---------------------------------------------------------------------------
//  Windows adapter listing
// ---------------------------------------------------------------------------

/// The three `|`-separated fields of a listing line (name, MAC address, IPv4
/// address); the third keeps any further `|`. `None` when the line has fewer
/// than two `|`.
pub open spec fn pipe_fields(l: Seq<char>) -> Option<(Seq<char>, Seq<char>, Seq<char>)> {
    let a = text::prefix_before(l, '|');
    if a >= l.len() {
        None
    } else {
        let rest = l.skip(a + 1 as int);
        let b = text::prefix_before(rest, '|');
        if b >= rest.len() {
            None
        } else {
            Some((l.take(a as int), rest.take(b as int), rest.skip(b + 1 as int)))
        }
    }
}

/// `s` with every `from` replaced by `to`.
pub open spec fn replace_char(s: Seq<char>, from: char, to: char) -> Seq<char> {
    Seq::new(s.len(), |i: int| if s[i] == from { to } else { s[i] })
}

/// The MAC address that a listing gives in its second field: trimmed, with
/// `-` replaced by `:`, lowercased.
pub open spec fn listed_mac(field: Seq<char>) -> Seq<char> {
    text::lowercase(replace_char(text::trim(field), '-', ':'))
}

/// The interface for a listing line with the name field `name`, the
/// normalised MAC address `mac` and the address field `ip`: reported when
/// the MAC address is worth reporting, with the two fields trimmed.
pub open spec fn adapter_record(name: Seq<char>, mac: Seq<char>, ip: Seq<char>) -> Option<
    MacRecord,
> {
    if reportable_mac(mac) {
        Some(MacRecord { interface: text::trim(name), mac: mac, ip: text::trim(ip) })
    } else {
        None
    }
}

/// The interface that one listing line reports, if any.
pub open spec fn line_adapter(l: Seq<char>) -> Option<MacRecord> {
    match pipe_fields(l) {
        Some(f) => adapter_record(f.0, listed_mac(f.1), f.2),
        None => None,
    }
}

/// The interfaces that the listing lines `ls` report, in order.
pub open spec fn adapters_of_lines(ls: Seq<Seq<char>>) -> Seq<MacRecord>
    decreases ls.len(),
{
    if ls.len() == 0 {
        seq![]
    } else {
        let prev = adapters_of_lines(ls.drop_last());
        match line_adapter(ls.last()) {
            Some(m) => prev.push(m),
            None => prev,
        }
    }
}

/// Every interface read from the adapter listing has a MAC address worth
/// reporting (never empty, never all zeros), and its name and IPv4 address
/// have no surrounding whitespace.
pub proof fn lemma_adapters_reportable(ls: Seq<Seq<char>>)
    ensures
        forall|k: int|
            0 <= k < adapters_of_lines(ls).len() ==> {
                let m = #[trigger] adapters_of_lines(ls)[k];
                &&& reportable_mac(m.mac)
                &&& text::trim(m.interface) == m.interface
                &&& text::trim(m.ip) == m.ip
            },
    decreases ls.len(),
{
    if ls.len() > 0 {
        lemma_adapters_reportable(ls.drop_last());
        let prev = adapters_of_lines(ls.drop_last());
        match line_adapter(ls.last()) {
            Some(m) => {
                let f = pipe_fields(ls.last())->0;
                text::lemma_trim_idempotent(f.0);
                text::lemma_trim_idempotent(f.2);
                assert(adapters_of_lines(ls) == prev.push(m));
                assert forall|k: int| 0 <= k < adapters_of_lines(ls).len() implies {
                    let m = #[trigger] adapters_of_lines(ls)[k];
                    &&& reportable_mac(m.mac)
                    &&& text::trim(m.interface) == m.interface
                    &&& text::trim(m.ip) == m.ip
                } by {
                    if k < prev.len() {
                        assert(adapters_of_lines(ls)[k] == prev[k]);
                    }
                }
            },
            None => {},
        }
    }
}

/// The interface for a listing line's name field, its normalised MAC address
/// and its address field, when the MAC address is worth reporting.
pub fn adapter_entry(name_field: &str, mac: String, ip_field: &str) -> (r: Option<MacInfo>)
    ensures
        match r {
            Some(m) => adapter_record(name_field@, mac@, ip_field@) == Some(m@),
            None => adapter_record(name_field@, mac@, ip_field@) is None,
        },
{
    let mac_chars = chars_of(mac.as_str());
    let zero = chars_of("00:00:00:00:00:00");
    if mac_chars.len() == 0 || range_equals(
        mac_chars.as_slice(),
        0,
        mac_chars.len(),
        zero.as_slice(),
    ) {
        assert(mac_chars@.subrange(0, mac_chars@.len() as int) =~= mac@);
        return None;
    }
    assert(mac_chars@.subrange(0, mac_chars@.len() as int) =~= mac@);
    let name_chars = chars_of(name_field);
    let (a, b) = trim_bounds(name_chars.as_slice(), 0, name_chars.len());
    assert(name_chars@.subrange(0, name_chars@.len() as int) =~= name_field@);
    let ip_chars = chars_of(ip_field);
    let (c, d) = trim_bounds(ip_chars.as_slice(), 0, ip_chars.len());
    assert(ip_chars@.subrange(0, ip_chars@.len() as int) =~= ip_field@);
    let m = MacInfo {
        interface: string_of(name_chars.as_slice(), a, b),
        mac: mac,
        ip: string_of(ip_chars.as_slice(), c, d),
    };
    assert(adapter_record(name_field@, mac@, ip_field@) == Some(m@));
    Some(m)
}

/// The MAC address of a listing's second field `s[lo..hi]`: trimmed, with
/// `-` replaced by `:`, lowercased.
fn normalised_mac(s: &[char], lo: usize, hi: usize) -> (r: String)
    requires
        lo <= hi <= s@.len(),
    ensures
        r@ == listed_mac(s@.subrange(lo as int, hi as int)),
{
    let (a, b) = trim_bounds(s, lo, hi);
    let mut replaced = String::new();
    let mut i = a;
    while i < b
        invariant
            a <= i <= b <= s@.len(),
            replaced@ == replace_char(s@.subrange(a as int, i as int), '-', ':'),
        decreases b - i,
    {
        let c = if s[i] == '-' {
            ':'
        } else {
            s[i]
        };
        push_char(&mut replaced, c);
        assert(replaced@ =~= replace_char(s@.subrange(a as int, i + 1), '-', ':'));
        i = i + 1;
    }
    to_lowercase(replaced.as_str())
}

/// The interfaces that the text of the PowerShell adapter listing reports:
/// one per line of the form `name|mac|ip` whose MAC address is worth
/// reporting, in order.
pub fn adapters_from_listing(listing: &str) -> (r: Vec<MacInfo>)
    ensures
        report::records(r@) == adapters_of_lines(text::lines(listing@)),
{
    let chars = chars_of(listing);
    let s = chars.as_slice();
    let ranges = line_ranges(s);
    let ghost ls = text::lines(listing@);
    let mut r: Vec<MacInfo> = Vec::new();
    let n = ranges.len();
    let mut i: usize = 0;
    while i < n
        invariant
            n == ranges@.len(),
            ls == text::lines(s@),
            s@ == listing@,
            ranges@.len() == ls.len(),
            forall|k: int|
                #![trigger ranges@[k]]
                0 <= k < ranges@.len() ==> ranges@[k].0 <= ranges@[k].1 <= s@.len()
                    && s@.subrange(ranges@[k].0 as int, ranges@[k].1 as int) == ls[k],
            i <= n,
            report::records(r@) == adapters_of_lines(ls.take(i as int)),
        decreases n - i,
    {
        let (lo, hi) = ranges[i];
        let ghost l = s@.subrange(lo as int, hi as int);
        assert(l == ls[i as int]);
        assert(ls.take(i + 1).drop_last() =~= ls.take(i as int));
        assert(ls.take(i + 1).last() == l);
        let ghost before = report::records(r@);
        let a = find_char(s, lo, hi, '|');
        if a < hi {
            let b = find_char(s, a + 1, hi, '|');
            proof {
                assert(l.skip(a - lo + 1) =~= s@.subrange(a + 1, hi as int));
            }
            if b < hi {
                proof {
                    assert(l.take(a - lo) =~= s@.subrange(lo as int, a as int));
                    assert(s@.subrange(a + 1, hi as int).take(b - (a + 1)) =~= s@.subrange(
                        a + 1,
                        b as int,
                    ));
                    assert(s@.subrange(a + 1, hi as int).skip(b - (a + 1) + 1) =~= s@.subrange(
                        b + 1,
                        hi as int,
                    ));
                }
                let name = string_of(s, lo, a);
                let mac = normalised_mac(s, a + 1, b);
                let ip = string_of(s, b + 1, hi);
                let entry = adapter_entry(name.as_str(), mac, ip.as_str());
                if let Some(m) = entry {
                    let ghost old_r = r@;
                    r.push(m);
                    assert(report::records(r@) =~= report::records(old_r).push(m@));
                }
            }
        }
        assert(report::records(r@) == adapters_of_lines(ls.take(i + 1)));
        i = i + 1;
    }
    assert(ls.take(n as int) =~= ls);
    r
}

/// The interfaces that the raw output of the PowerShell adapter listing
/// reports, read as UTF-8 with invalid sequences replaced.
pub fn adapters_from_output(stdout: &[u8]) -> (r: Vec<MacInfo>)
    ensures
        report::records(r@) == adapters_of_lines(text::lines(text::utf8_lossy(stdout@))),
{
    let out = decode_lossy(stdout);
    adapters_from_listing(out.as_str())
}

// ---------------------------------------------------------------------------
//  Laws
// ---------------------------------------------------------------------------

/// A probe is reported exactly when it is not the loopback interface, its
/// address file was read, and that file's content trimmed is neither empty
/// nor the all-zero address; it is then reported under its own name, with
/// that trimmed content as MAC address and the address of its `ip` output.
pub proof fn lemma_probe_record(p: ProbeView)
    ensures
        probe_record(p) is Some <==> (p.name != "lo"@ && p.address_file is Some && text::trim(
            p.address_file->0,
        ).len() > 0 && text::trim(p.address_file->0) != "00:00:00:00:00:00"@),
        probe_record(p) is Some ==> probe_record(p)->0 == (MacRecord {
            interface: p.name,
            mac: text::trim(p.address_file->0),
            ip: match p.ip_output {
                Some(b) => inet_address_of(text::utf8_lossy(b)),
                None => seq![],
            },
        }),
{
}

/// The Unix report takes every probe in turn: no probes give no interfaces,
/// and one more probe adds its interface, if it has one, at the end.
pub proof fn lemma_sysfs_report_steps(ps: Seq<ProbeView>, p: ProbeView)
    ensures
        sysfs_report(seq![]) == Seq::<MacRecord>::empty(),
        sysfs_report(ps.push(p)) == sysfs_report(ps) + match probe_record(p) {
            Some(m) => seq![m],
            None => Seq::<MacRecord>::empty(),
        },
        sysfs_report(seq![p]) == match probe_record(p) {
            Some(m) => seq![m],
            None => Seq::<MacRecord>::empty(),
        },
{
    assert(ps.push(p).drop_last() =~= ps);
    assert(seq![p].drop_last() =~= Seq::<ProbeView>::empty());
    assert(seq![p] =~= Seq::<ProbeView>::empty().push(p));
    assert(sysfs_report(Seq::<ProbeView>::empty()) == Seq::<MacRecord>::empty());
    assert(seq![p].last() == p);
    assert(sysfs_report(ps.push(p)) =~= sysfs_report(ps) + match probe_record(p) {
        Some(m) => seq![m],
        None => Seq::<MacRecord>::empty(),
    });
    assert(sysfs_report(seq![p]) =~= match probe_record(p) {
        Some(m) => seq![m],
        None => Seq::<MacRecord>::empty(),
    });
}

/// A listing line reports an interface exactly when its MAC address is worth
/// reporting; the interface then has the whole name field trimmed (inner
/// spaces kept), that MAC address, and the whole address field trimmed.
pub proof fn lemma_adapter_record(name: Seq<char>, mac: Seq<char>, ip: Seq<char>)
    ensures
        adapter_record(name, mac, ip) is Some <==> (mac.len() > 0 && mac
            != "00:00:00:00:00:00"@),
        adapter_record(name, mac, ip) is Some ==> adapter_record(name, mac, ip)->0
            == (MacRecord { interface: text::trim(name), mac: mac, ip: text::trim(ip) }),
{
}

/// The line `name|mac|ip`, whose first two fields hold no `|`, reports the
/// interface named by the trimmed name field, whose MAC address is the
/// trimmed second field with every `-` turned into `:` and lowercased, and
/// whose address is the trimmed rest of the line; unless that MAC address is
/// empty or all zeros. A line with no `|` reports nothing.
pub proof fn lemma_listing_line(name: Seq<char>, mac: Seq<char>, ip: Seq<char>, other: Seq<char>)
    requires
        forall|i: int| 0 <= i < name.len() ==> name[i] != '|',
        forall|i: int| 0 <= i < mac.len() ==> mac[i] != '|',
    ensures
        ({
            let t = text::trim(mac);
            let normal = text::lowercase(
                Seq::new(t.len(), |i: int| if t[i] == '-' { ':' } else { t[i] }),
            );
            line_adapter(name + seq!['|'] + mac + seq!['|'] + ip) == if normal.len() > 0 && normal
                != "00:00:00:00:00:00"@ {
                Some(MacRecord { interface: text::trim(name), mac: normal, ip: text::trim(ip) })
            } else {
                None
            }
        }),
        (forall|i: int| 0 <= i < other.len() ==> other[i] != '|') ==> line_adapter(other) is None,
{
    let l = name + seq!['|'] + mac + seq!['|'] + ip;
    assert forall|i: int| 0 <= i < name.len() implies l[i] != '|' by {
        assert(l[i] == name[i]);
    }
    text::lemma_prefix_before(l, '|', name.len() as int);
    let rest = l.skip(name.len() + 1int);
    assert(rest =~= mac + seq!['|'] + ip);
    assert forall|i: int| 0 <= i < mac.len() implies rest[i] != '|' by {
        assert(rest[i] == mac[i]);
    }
    text::lemma_prefix_before(rest, '|', mac.len() as int);
    assert(l.take(name.len() as int) =~= name);
    assert(rest.take(mac.len() as int) =~= mac);
    assert(rest.skip(mac.len() + 1int) =~= ip);
    let t = text::trim(mac);
    assert(replace_char(t, '-', ':') =~= Seq::new(t.len(), |i: int| if t[i] == '-' { ':' } else { t[i] }));
    text::lemma_prefix_before_excludes(other, '|');
    if text::prefix_before(other, '|') < other.len() {
        assert(other[text::prefix_before(other, '|') as int] == '|') by {
            text::lemma_prefix_before_found(other, '|');
        }
    }
}

/// The listing is read line by line: no lines give no interfaces, and one
/// more line adds its interface, if it reports one, at the end.
pub proof fn lemma_adapters_steps(ls: Seq<Seq<char>>, l: Seq<char>)
    ensures
        adapters_of_lines(seq![]) == Seq::<MacRecord>::empty(),
        adapters_of_lines(ls.push(l)) == adapters_of_lines(ls) + match line_adapter(l) {
            Some(m) => seq![m],
            None => Seq::<MacRecord>::empty(),
        },
{
    assert(ls.push(l).drop_last() =~= ls);
    assert(adapters_of_lines(ls.push(l)) =~= adapters_of_lines(ls) + match line_adapter(l) {
        Some(m) => seq![m],
        None => Seq::<MacRecord>::empty(),
    });
}

/// When the first line of `ip addr show` output is an indented
/// `inet ADDRESS/...` line, the reported address is exactly ADDRESS: the
/// part of the second word before the `/`, whatever follows on the line or
/// in the rest of the output.
pub proof fn lemma_inet_first_line(
    indent: Seq<char>,
    addr: Seq<char>,
    after: Seq<char>,
    rest: Seq<char>,
)
    requires
        forall|i: int| 0 <= i < indent.len() ==> indent[i] == ' ',
        addr.len() > 0,
        forall|i: int|
            0 <= i < addr.len() ==> !text::is_space(#[trigger] addr[i]) && addr[i] != '/',
        forall|i: int| 0 <= i < after.len() ==> after[i] != '\n',
    ensures
        inet_address_of(indent + "inet "@ + addr + seq!['/'] + after + seq!['\n'] + rest) == addr,
{
    reveal_strlit("inet ");
    let head = "inet "@;
    let x = indent + head + addr + seq!['/'] + after;
    let s = x + seq!['\n'] + rest;
    let a0 = indent.len() as int;
    let slash = a0 + 5 + addr.len();
    assert(x[a0] == 'i');
    assert(x[slash] == '/');
    assert forall|i: int| 0 <= i < x.len() implies x[i] != '\n' by {
        if i < a0 {
            assert(x[i] == indent[i]);
        } else if i < a0 + 5 {
            assert(x[i] == head[i - a0]);
        } else if i < slash {
            assert(x[i] == addr[i - a0 - 5]);
            assert(!text::is_space(addr[i - a0 - 5]));
        } else if i > slash {
            assert(x[i] == after[i - slash - 1]);
        }
    }
    // The first line is `x` (a carriage return at its end aside).
    assert forall|i: int| 0 <= i < x.len() implies s[i] != '\n' by {
        assert(s[i] == x[i]);
    }
    text::lemma_prefix_before(s, '\n', x.len() as int);
    assert(s.take(x.len() as int) =~= x);
    assert(s.skip(x.len() + 1int) =~= rest);
    let l = text::strip_cr(x);
    assert(text::lines(s) == seq![l] + text::lines(rest));
    // Trimming the line keeps everything from `inet` through the `/`.
    let (i, j) = text::lemma_trim_bounds(l);
    text::lemma_trim_idempotent(l);
    let t = text::trim(l);
    assert(l.len() > slash);
    assert(l[a0] == 'i' && l[slash] == '/');
    assert(i <= a0) by {
        if i > a0 {
            assert(text::is_space(l[a0]));
        }
    }
    assert(i >= a0) by {
        if i < a0 {
            assert(t[0] == l[i]);
            assert(l[i] == indent[i]);
        }
    }
    assert(j > slash) by {
        if j <= slash {
            assert(text::is_space(l[slash]));
        }
    }
    assert(t =~= l.subrange(a0, j));
    let y = l.subrange(slash + 1, j);
    let w = addr + seq!['/'] + y;
    assert(t =~= seq!['i', 'n', 'e', 't'] + seq![' '] + w) by {
        assert forall|k: int| 0 <= k < t.len() implies t[k] == (seq!['i', 'n', 'e', 't'] + seq![' '] + w)[k] by {
            if k < 5 {
                assert(t[k] == head[k]);
            } else if k < 5 + addr.len() {
                assert(t[k] == addr[k - 5]);
            }
        }
    }
    assert(text::starts_with(t, head)) by {
        assert(t.take(5) =~= head);
    }
    assert(is_inet_line(l));
    assert(first_inet_line(text::lines(s)) == Some(l));
    let inet = seq!['i', 'n', 'e', 't'];
    assert forall|k: int| 0 <= k < 4 implies !text::is_space(#[trigger] inet[k]) by {}
    text::lemma_words_cons(inet, ' ', w);
    text::lemma_words_skip_space(' ', w);
    assert forall|k: int| 0 <= k < addr.len() + 1 implies !text::is_space(#[trigger] w[k]) by {
        if k < addr.len() {
            assert(w[k] == addr[k]);
        }
    }
    text::lemma_first_word_prefix(w, addr.len() + 1int);
    let ws = text::words(t);
    assert(ws == seq![inet] + text::words(w));
    let second = ws[1];
    assert(second == w.take(text::word_len(w) as int));
    assert forall|k: int| 0 <= k < addr.len() implies second[k] != '/' by {
        assert(second[k] == addr[k]);
    }
    assert(second[addr.len() as int] == '/');
    text::lemma_prefix_before(second, '/', addr.len() as int);
    assert(before_slash(second) =~= addr);
}

/// A first line of `ip addr show` output that is not an `inet` line is
/// passed over: the address is the one the rest of the output gives.
pub proof fn lemma_inet_skips_line(l: Seq<char>, rest: Seq<char>)
    requires
        forall|i: int| 0 <= i < l.len() ==> l[i] != '\n',
        !text::starts_with(text::trim(l), "inet "@),
    ensures
        inet_address_of(l + seq!['\n'] + rest) == inet_address_of(rest),
{
    text::lemma_lines_step(l, rest);
    let first = if l.len() > 0 && l.last() == '\r' {
        l.drop_last()
    } else {
        l
    };
    // Dropping a final carriage return does not change the trimmed line.
    assert(text::trim(first) == text::trim(l)) by {
        if l.len() > 0 && l.last() == '\r' {
            assert(text::trim_end(text::trim_start(l)) == text::trim_end(text::trim_start(first)))
                by {
                lemma_trim_drop_space_end(l);
            }
        }
    }
    let ls = text::lines(l + seq!['\n'] + rest);
    assert(ls[0] == first);
    assert(ls.drop_first() =~= text::lines(rest));
}

proof fn lemma_trim_drop_space_end(l: Seq<char>)
    requires
        l.len() > 0,
        text::is_space(l.last()),
    ensures
        text::trim(l) == text::trim(l.drop_last()),
    decreases l.len(),
{
    if l.len() > 0 && text::is_space(l[0]) {
        if l.len() == 1 {
            assert(l.drop_first() =~= Seq::<char>::empty());
            assert(l.drop_last() =~= Seq::<char>::empty());
        } else {
            lemma_trim_drop_space_end(l.drop_first());
            assert(l.drop_first().drop_last() =~= l.drop_last().drop_first());
        }
    } else {
        assert(text::trim_start(l) == l);
        assert(text::trim_start(l.drop_last()) == l.drop_last()) by {
            if l.len() > 1 {
                assert(l.drop_last()[0] == l[0]);
            } else {
                assert(l.drop_last().len() == 0);
            }
        }
    }
}

} // verus!
