//! The network interfaces that the agent reports, and their JSON rendering.
use vstd::prelude::*;
use vstd::string::StringExecFns;

verus! {

/// One reported network interface: its name, MAC address and IPv4 address
/// (empty when it has none).
#[derive(Debug, Clone)]
pub struct MacInfo {
    pub interface: String,
    pub mac: String,
    pub ip: String,
}

/// The text of a [`MacInfo`]'s three fields.
pub struct MacRecord {
    pub interface: Seq<char>,
    pub mac: Seq<char>,
    pub ip: Seq<char>,
}

impl View for MacInfo {
    type V = MacRecord;

    open spec fn view(&self) -> MacRecord {
        MacRecord { interface: self.interface@, mac: self.mac@, ip: self.ip@ }
    }
}

/// The records of a list of interfaces, in order.
pub open spec fn records(ms: Seq<MacInfo>) -> Seq<MacRecord> {
    ms.map_values(|m: MacInfo| m@)
}

/// The JSON object of one interface; field text is written as it stands.
pub open spec fn mac_object(m: MacRecord) -> Seq<char> {
    "{\"interface\":\""@ + m.interface + "\",\"mac\":\""@ + m.mac + "\",\"ip\":\""@ + m.ip
        + "\"}"@
}

/// The objects of `ms`, in order, separated by commas.
pub open spec fn joined_objects(ms: Seq<MacRecord>) -> Seq<char>
    decreases ms.len(),
{
    if ms.len() == 0 {
        seq![]
    } else if ms.len() == 1 {
        mac_object(ms[0])
    } else {
        joined_objects(ms.drop_last()) + ","@ + mac_object(ms.last())
    }
}

/// The JSON array of the interfaces `ms`.
pub open spec fn macs_json(ms: Seq<MacRecord>) -> Seq<char> {
    "["@ + joined_objects(ms) + "]"@
}

/// Appends the JSON object of `m` to `out`.
fn push_mac_object(out: &mut String, m: &MacInfo)
    ensures
        final(out)@ == old(out)@ + mac_object(m@),
{
    out.append("{\"interface\":\"");
    out.append(m.interface.as_str());
    out.append("\",\"mac\":\"");
    out.append(m.mac.as_str());
    out.append("\",\"ip\":\"");
    out.append(m.ip.as_str());
    out.append("\"}");
    assert(out@ =~= old(out)@ + mac_object(m@));
}

/// Renders the interfaces as a JSON array of objects with the fields
/// `interface`, `mac` and `ip`, in the order given.
pub fn macs_to_json(macs: &[MacInfo]) -> (r: String)
    ensures
        r@ == macs_json(records(macs@)),
{
    let mut out = String::new();
    out.append("[");
    let n = macs.len();
    let mut i: usize = 0;
    while i < n
        invariant
            n == macs@.len(),
            i <= n,
            out@ == "["@ + joined_objects(records(macs@.take(i as int))),
        decreases n - i,
    {
        let ghost before = out@;
        if i > 0 {
            out.append(",");
        }
        push_mac_object(&mut out, &macs[i]);
        proof {
            let prev = records(macs@.take(i as int));
            let next = records(macs@.take(i + 1));
            assert(next.drop_last() =~= prev);
            assert(next.last() == macs@[i as int]@);
            if i == 0 {
                assert(prev =~= seq![]);
                assert(out@ =~= "["@ + joined_objects(next));
            } else {
                assert(out@ =~= "["@ + joined_objects(next));
            }
        }
        i = i + 1;
    }
    out.append("]");
    assert(macs@.take(n as int) =~= macs@);
    out
}

} // verus!
