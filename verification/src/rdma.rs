//! RDMA state from `rdma_ctl status` and the devices `ibv_devinfo` lists.

use vstd::prelude::*;
use crate::text::{
    chars_of, contains, lines, next_line, parse_dec, parse_unsigned, piece_end, piece_len,
    range_contains, starts_with, string_of, strip_start_bound, strip_start_char, trim, trim_bounds,
    next_word, words, matches_at, lower_seq,
};
use vstd::utf8::is_ascii_chars;

verus! {

/// One RDMA device, with the port fields of the last port listed.
#[derive(Debug, Clone, PartialEq, Eq)]
pub struct RdmaDevice {
    pub name: String,
    pub transport: String,
    pub node_guid: String,
    pub port_state: String,
    pub active_mtu: u32,
    pub link_layer: String,
    /// The network interface: `rdma_en2` is on `en2`; empty when the name does not say.
    pub interface: String,
}

/// Whether RDMA is on, the state in words, and its devices.
#[derive(Debug, Clone, PartialEq, Eq)]
pub struct RdmaStatus {
    pub available: bool,
    pub status: String,
    pub devices: Vec<RdmaDevice>,
}

/// A device as its fields: name, transport, node GUID, port state, active MTU, link
/// layer, interface.
pub type DeviceView = (Seq<char>, Seq<char>, Seq<char>, Seq<char>, u32, Seq<char>, Seq<char>);

pub open spec fn device_view(d: RdmaDevice) -> DeviceView {
    (d.name@, d.transport@, d.node_guid@, d.port_state@, d.active_mtu, d.link_layer@, d.interface@)
}

pub open spec fn devices_view(ds: Seq<RdmaDevice>) -> Seq<DeviceView> {
    ds.map_values(|d: RdmaDevice| device_view(d))
}

/// The value of a `key: value` line: what follows `key`, its leading colons dropped,
/// trimmed.
pub open spec fn field_value(line: Seq<char>, key: Seq<char>) -> Option<Seq<char>> {
    if starts_with(line, key) {
        Some(trim(strip_start_char(line.skip(key.len() as int), ':')))
    } else {
        None
    }
}

/// `InfiniBand (0)` is `InfiniBand`: the text before the first `(`, trimmed.
pub open spec fn before_paren(v: Seq<char>) -> Seq<char> {
    trim(v.take(piece_len(v, '(') as int))
}

/// The first word of the value as a `u32`, or 0.
pub open spec fn mtu_of(v: Seq<char>) -> u32 {
    if words(v).len() > 0 {
        match parse_unsigned(words(v)[0], u32::MAX as nat) {
            Some(n) => n as u32,
            None => 0,
        }
    } else {
        0
    }
}

pub open spec fn interface_of(name: Seq<char>) -> Seq<char> {
    if starts_with(name, "rdma_"@) {
        name.skip(5)
    } else {
        seq![]
    }
}

/// One line of `ibv_devinfo`: `hca_id` opens a device; the other fields go to the last
/// device opened, a later port's value replacing an earlier one's.
pub open spec fn ibv_step(devs: Seq<DeviceView>, raw: Seq<char>) -> Seq<DeviceView> {
    let line = trim(raw);
    match field_value(line, "hca_id"@) {
        Some(name) => devs.push((name, seq![], seq![], seq![], 0, seq![], interface_of(name))),
        None => if devs.len() == 0 {
            devs
        } else {
            let d = devs.last();
            let nd = if field_value(line, "transport"@) is Some {
                (d.0, before_paren(field_value(line, "transport"@).unwrap()), d.2, d.3, d.4, d.5, d.6)
            } else if field_value(line, "node_guid"@) is Some {
                (d.0, d.1, field_value(line, "node_guid"@).unwrap(), d.3, d.4, d.5, d.6)
            } else if field_value(line, "state"@) is Some {
                (d.0, d.1, d.2, before_paren(field_value(line, "state"@).unwrap()), d.4, d.5, d.6)
            } else if field_value(line, "active_mtu"@) is Some {
                (d.0, d.1, d.2, d.3, mtu_of(field_value(line, "active_mtu"@).unwrap()), d.5, d.6)
            } else if field_value(line, "link_layer"@) is Some {
                (d.0, d.1, d.2, d.3, d.4, field_value(line, "link_layer"@).unwrap(), d.6)
            } else {
                d
            };
            devs.update(devs.len() - 1, nd)
        },
    }
}

pub open spec fn ibv_devices(ls: Seq<Seq<char>>) -> Seq<DeviceView>
    decreases ls.len(),
{
    if ls.len() == 0 {
        seq![]
    } else {
        ibv_step(ibv_devices(ls.drop_last()), ls.last())
    }
}

/// Bounds of the value of `key` in the line `chars[lo..hi]`.
fn field_bounds(chars: &[char], lo: usize, hi: usize, key: &str) -> (r: Option<(usize, usize)>)
    requires
        lo <= hi <= chars@.len(),
    ensures
        r is None <==> field_value(chars@.subrange(lo as int, hi as int), key@) is None,
        r matches Some((a, b)) ==> lo <= a <= b <= hi && field_value(
            chars@.subrange(lo as int, hi as int),
            key@,
        ) == Some(chars@.subrange(a as int, b as int)),
{
    let k = chars_of(key);
    let ghost line = chars@.subrange(lo as int, hi as int);
    let m = matches_at(chars, lo, k.as_slice());
    if !m || k.len() > hi - lo {
        proof {
            if starts_with(line, key@) {
                assert(line.subrange(0, key@.len() as int) =~= chars@.subrange(lo as int, lo + key@.len()));
            }
        }
        return None;
    }
    assert(line.subrange(0, key@.len() as int) =~= chars@.subrange(lo as int, lo + key@.len()));
    let start = lo + k.len();
    let s = strip_start_bound(chars, start, hi, ':');
    let (a, b) = trim_bounds(chars, s, hi);
    assert(line.skip(key@.len() as int) =~= chars@.subrange(start as int, hi as int));
    Some((a, b))
}

/// Bounds of `before_paren` of `chars[a..b]`.
fn before_paren_bounds(chars: &[char], a: usize, b: usize) -> (r: (usize, usize))
    requires
        a <= b <= chars@.len(),
    ensures
        a <= r.0 <= r.1 <= b,
        chars@.subrange(r.0 as int, r.1 as int) == before_paren(chars@.subrange(a as int, b as int)),
{
    let e = piece_end(chars, a, b, '(');
    assert(chars@.subrange(a as int, b as int).take(e - a) =~= chars@.subrange(a as int, e as int));
    trim_bounds(chars, a, e)
}

fn mtu_value(chars: &[char], a: usize, b: usize) -> (n: u32)
    requires
        a <= b <= chars@.len(),
    ensures
        n == mtu_of(chars@.subrange(a as int, b as int)),
{
    match next_word(chars, a, b) {
        None => 0,
        Some((x, y)) => match parse_dec(chars, x, y, u32::MAX as u64) {
            Some(v) => v as u32,
            None => 0,
        },
    }
}

fn interface_name_of(name: &[char]) -> (s: String)
    ensures
        s@ == interface_of(name@),
{
    proof {
        reveal_strlit("rdma_");
    }
    let prefix = chars_of("rdma_");
    if matches_at(name, 0, prefix.as_slice()) {
        assert(name@.subrange(5, name@.len() as int) =~= name@.skip(5));
        string_of(name, 5, name.len())
    } else {
        String::new()
    }
}

/// The devices `ibv_devinfo` lists.
pub fn parse_ibv_devinfo(stdout: &str) -> (r: Vec<RdmaDevice>)
    ensures
        devices_view(r@) == ibv_devices(lines(stdout@)),
{
    let chars = chars_of(stdout);
    assert(chars@.subrange(0, chars@.len() as int) =~= stdout@);
    let mut devices: Vec<RdmaDevice> = Vec::new();
    let ghost mut done: Seq<Seq<char>> = seq![];
    let mut pos: usize = 0;
    while pos < chars.len()
        invariant
            pos <= chars@.len(),
            chars@ == stdout@,
            lines(stdout@) == done + lines(chars@.subrange(pos as int, chars@.len() as int)),
            devices_view(devices@) == ibv_devices(done),
        decreases chars@.len() - pos,
    {
        let (a0, b0, next) = next_line(chars.as_slice(), pos, chars.len());
        let ghost raw = chars@.subrange(a0 as int, b0 as int);
        let (lo, hi) = trim_bounds(chars.as_slice(), a0, b0);
        let ghost line = chars@.subrange(lo as int, hi as int);
        let ghost before = devices_view(devices@);
        proof {
            assert(done.push(raw).drop_last() =~= done);
            assert(done.push(raw).last() == raw);
        }
        match field_bounds(chars.as_slice(), lo, hi, "hca_id") {
            Some((x, y)) => {
                let name = string_of(chars.as_slice(), x, y);
                let interface = interface_name_of(&chars[x..y]);
                devices.push(
                    RdmaDevice {
                        name,
                        transport: String::new(),
                        node_guid: String::new(),
                        port_state: String::new(),
                        active_mtu: 0,
                        link_layer: String::new(),
                        interface,
                    },
                );
                assert(devices_view(devices@) =~= ibv_step(before, raw));
            },
            None => {
                if devices.len() > 0 {
                    let mut d = devices.pop().unwrap();
                    let ghost dv = device_view(d);
                    assert(dv == before.last());
                    if let Some((x, y)) = field_bounds(chars.as_slice(), lo, hi, "transport") {
                        let (p, q) = before_paren_bounds(chars.as_slice(), x, y);
                        d.transport = string_of(chars.as_slice(), p, q);
                    } else if let Some((x, y)) = field_bounds(chars.as_slice(), lo, hi, "node_guid") {
                        d.node_guid = string_of(chars.as_slice(), x, y);
                    } else if let Some((x, y)) = field_bounds(chars.as_slice(), lo, hi, "state") {
                        let (p, q) = before_paren_bounds(chars.as_slice(), x, y);
                        d.port_state = string_of(chars.as_slice(), p, q);
                    } else if let Some((x, y)) = field_bounds(chars.as_slice(), lo, hi, "active_mtu") {
                        d.active_mtu = mtu_value(chars.as_slice(), x, y);
                    } else if let Some((x, y)) = field_bounds(chars.as_slice(), lo, hi, "link_layer") {
                        d.link_layer = string_of(chars.as_slice(), x, y);
                    }
                    devices.push(d);
                    assert(devices_view(devices@) =~= ibv_step(before, raw));
                }
            },
        }
        proof {
            assert(lines(stdout@) =~= done.push(raw) + lines(chars@.subrange(next as int, chars@.len() as int)));
            done = done.push(raw);
        }
        pos = next;
    }
    assert(chars@.subrange(pos as int, chars@.len() as int) =~= Seq::<char>::empty());
    assert(done + Seq::<Seq<char>>::empty() =~= done);
    devices
}

/// What `str::to_lowercase` makes of a text.
pub uninterp spec fn lowercase_text(s: Seq<char>) -> Seq<char>;

/// `str::to_lowercase`: every character mapped to its Unicode lowercase form; for ASCII
/// text that is each upper-case letter replaced by its lower-case letter.
#[verifier::external_body]
fn to_lowercase(s: &str) -> (r: String)
    ensures
        r@ == lowercase_text(s@),
        is_ascii_chars(s@) ==> r@ == lower_seq(s@),
{
    s.to_lowercase()
}

/// `rdma_ctl status`, trimmed and lower-cased.
pub open spec fn ctl_text(stdout: Seq<char>) -> Seq<char> {
    lowercase_text(trim(stdout))
}

/// RDMA is off when the status says `disabled` or `not enabled`, which is tested first
/// since `not enabled` holds `enabled`.
pub open spec fn ctl_disabled(stdout: Seq<char>) -> bool {
    contains(ctl_text(stdout), "disabled"@) || contains(ctl_text(stdout), "not enabled"@)
}

/// For ASCII output: the status, lower-cased letter by letter, says `disabled` or
/// `not enabled`.
pub open spec fn ascii_disabled(stdout: Seq<char>) -> bool {
    contains(lower_seq(trim(stdout)), "disabled"@) || contains(lower_seq(trim(stdout)), "not enabled"@)
}

pub open spec fn ctl_enabled(stdout: Seq<char>) -> bool {
    !ctl_disabled(stdout) && contains(ctl_text(stdout), "enabled"@)
}

/// The RDMA state from `rdma_ctl status`; `devinfo` gives the `ibv_devinfo` output, and is
/// only asked for when RDMA is on. Any other text is passed through as the status.
pub fn parse_rdma_ctl<F: FnOnce() -> String>(stdout: &str, devinfo: F) -> (r: RdmaStatus)
    requires
        call_requires(devinfo, ()),
    ensures
        ctl_disabled(stdout@) ==> !r.available && r.status@ == "Disabled"@ && r.devices@.len() == 0,
        ctl_enabled(stdout@) ==> r.available && r.status@ == "Enabled"@ && exists|o: String|
            call_ensures(devinfo, (), o) && devices_view(r.devices@) == ibv_devices(lines(o@)),
        !ctl_disabled(stdout@) && !ctl_enabled(stdout@) ==> !r.available && r.status@ == trim(stdout@)
            && r.devices@.len() == 0,
        is_ascii_chars(trim(stdout@)) && ascii_disabled(stdout@) ==> !r.available && r.status@ == "Disabled"@
            && r.devices@.len() == 0,
        is_ascii_chars(trim(stdout@)) ==> (r.available <==> !ascii_disabled(stdout@) && contains(
            lower_seq(trim(stdout@)),
            "enabled"@,
        )),
        is_ascii_chars(trim(stdout@)) && r.available ==> r.status@ == "Enabled"@ && exists|o: String|
            call_ensures(devinfo, (), o) && devices_view(r.devices@) == ibv_devices(lines(o@)),
        is_ascii_chars(trim(stdout@)) && !ascii_disabled(stdout@) && !r.available ==> r.status@ == trim(stdout@)
            && r.devices@.len() == 0,
{
    let chars = chars_of(stdout);
    let (lo, hi) = trim_bounds(chars.as_slice(), 0, chars.len());
    assert(chars@.subrange(0, chars@.len() as int) =~= stdout@);
    let trimmed = string_of(chars.as_slice(), lo, hi);
    let lowered = to_lowercase(trimmed.as_str());
    let n = chars_of(lowered.as_str());
    let disabled = chars_of("disabled");
    let not_enabled = chars_of("not enabled");
    let enabled = chars_of("enabled");
    assert(n@.subrange(0, n@.len() as int) =~= n@);
    if range_contains(n.as_slice(), 0, n.len(), disabled.as_slice()) || range_contains(
        n.as_slice(),
        0,
        n.len(),
        not_enabled.as_slice(),
    ) {
        return RdmaStatus { available: false, status: "Disabled".to_owned(), devices: Vec::new() };
    }
    if range_contains(n.as_slice(), 0, n.len(), enabled.as_slice()) {
        let out = devinfo();
        let devices = parse_ibv_devinfo(out.as_str());
        return RdmaStatus { available: true, status: "Enabled".to_owned(), devices };
    }
    RdmaStatus { available: false, status: trimmed, devices: Vec::new() }
}

} // verus!
