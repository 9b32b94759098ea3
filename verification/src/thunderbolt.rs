//! The Thunderbolt topology: the flat switch list grouped into buses, and its text tree.

use vstd::prelude::*;
use vstd::string::StringExecFns;
use crate::text::{dec, join, join_strings, push_dec, strings_view};

verus! {

/// A device hanging off a bus.
#[derive(Debug, Clone, PartialEq, Eq)]
pub struct TbDevice {
    pub name: String,
    pub vendor: String,
    pub mode: String,
}

/// A Thunderbolt bus with the devices attached to it.
#[derive(Debug, Clone, PartialEq, Eq)]
pub struct TbBus {
    pub name: String,
    pub is_active: bool,
    pub speed_label: String,
    pub devices: Vec<TbDevice>,
}

/// One switch as the native layer lists it: depth 0 is a bus's root switch.
#[derive(Debug, Clone, PartialEq, Eq)]
pub struct TbSwitchInfo {
    pub uid: i64,
    pub parent_uid: i64,
    pub depth: i32,
    pub link_speed: i32,
    pub current_speed: i32,
    pub vendor: String,
    pub device: String,
}

/// The generation a speed code stands for: 14 and up TB5, 12 and up TB4, any other
/// positive code TB3, and TB4 when unknown. Devices go by their negotiated speed when
/// there is one.
pub open spec fn tb_mode_text(link_speed: i32, current_speed: i32, prefer_current: bool) -> Seq<char> {
    let speed = if prefer_current && current_speed > 0 {
        current_speed
    } else {
        link_speed
    };
    if speed >= 14 {
        "TB5"@
    } else if speed >= 12 {
        "TB4"@
    } else if speed > 0 {
        "TB3"@
    } else {
        "TB4"@
    }
}

pub fn tb_mode(link_speed: i32, current_speed: i32, prefer_current: bool) -> (s: &'static str)
    ensures
        s@ == tb_mode_text(link_speed, current_speed, prefer_current),
{
    let speed = if prefer_current && current_speed > 0 {
        current_speed
    } else {
        link_speed
    };
    if speed >= 14 {
        "TB5"
    } else if speed >= 12 {
        "TB4"
    } else if speed > 0 {
        "TB3"
    } else {
        "TB4"
    }
}

/// A device as its name, vendor and mode.
pub type DeviceView = (Seq<char>, Seq<char>, Seq<char>);

/// A bus as its name, activity, speed label and devices.
pub type BusView = (Seq<char>, bool, Seq<char>, Seq<DeviceView>);

pub open spec fn device_view(d: TbDevice) -> DeviceView {
    (d.name@, d.vendor@, d.mode@)
}

pub open spec fn bus_view(b: TbBus) -> BusView {
    (b.name@, b.is_active, b.speed_label@, b.devices@.map_values(|d: TbDevice| device_view(d)))
}

pub open spec fn buses_view(bs: Seq<TbBus>) -> Seq<BusView> {
    bs.map_values(|b: TbBus| bus_view(b))
}

/// The bus a root switch opens: `TB4 Bus 5` for uid `0x25`, up to 80 Gb/s on TB5 and
/// 40 Gb/s otherwise, inactive and empty until a device is found on it.
pub open spec fn root_bus(s: TbSwitchInfo) -> BusView {
    let mode = tb_mode_text(s.link_speed, s.current_speed, false);
    (
        mode + " Bus "@ + dec((s.uid & 15) as nat),
        false,
        if mode == "TB5"@ {
            "Up to 80 Gb/s"@
        } else {
            "Up to 40 Gb/s"@
        },
        seq![],
    )
}

/// The root switches' buses, keyed by uid, in list order.
pub open spec fn root_buses(sw: Seq<TbSwitchInfo>) -> Seq<(i64, BusView)>
    decreases sw.len(),
{
    if sw.len() == 0 {
        seq![]
    } else if sw.last().depth == 0 {
        root_buses(sw.drop_last()).push((sw.last().uid, root_bus(sw.last())))
    } else {
        root_buses(sw.drop_last())
    }
}

/// The first bus with uid `uid`.
pub open spec fn first_bus(buses: Seq<(i64, BusView)>, uid: i64, k: int) -> bool {
    &&& 0 <= k < buses.len()
    &&& buses[k].0 == uid
    &&& forall|j: int| 0 <= j < k ==> #[trigger] buses[j].0 != uid
}

/// A switch below a root attaches as a device to the first bus whose uid is its parent's,
/// and makes that bus active; a switch whose parent is no bus is dropped.
pub open spec fn attach(buses: Seq<(i64, BusView)>, s: TbSwitchInfo) -> Seq<(i64, BusView)> {
    if exists|k: int| first_bus(buses, s.parent_uid, k) {
        let k = choose|k: int| first_bus(buses, s.parent_uid, k);
        let b = buses[k].1;
        buses.update(
            k,
            (
                buses[k].0,
                (b.0, true, b.2, b.3.push((s.device@, s.vendor@, tb_mode_text(s.link_speed, s.current_speed, true)))),
            ),
        )
    } else {
        buses
    }
}

/// All switches below a root, attached in list order.
pub open spec fn attached(buses: Seq<(i64, BusView)>, sw: Seq<TbSwitchInfo>) -> Seq<(i64, BusView)>
    decreases sw.len(),
{
    if sw.len() == 0 {
        buses
    } else if sw.last().depth > 0 {
        attach(attached(buses, sw.drop_last()), sw.last())
    } else {
        attached(buses, sw.drop_last())
    }
}

pub open spec fn tb_tree_spec(sw: Seq<TbSwitchInfo>) -> Seq<BusView> {
    attached(root_buses(sw), sw).map_values(|e: (i64, BusView)| e.1)
}

proof fn lemma_first_bus_unique(buses: Seq<(i64, BusView)>, uid: i64, k: int)
    requires
        first_bus(buses, uid, k),
    ensures
        (choose|c: int| first_bus(buses, uid, c)) == k,
{
    let c = choose|c: int| first_bus(buses, uid, c);
    assert(first_bus(buses, uid, c));
    if c < k {
        assert(buses[c].0 != uid);
    }
    if c > k {
        assert(buses[k].0 != uid);
    }
}

pub open spec fn keyed(uids: Seq<i64>, buses: Seq<TbBus>) -> Seq<(i64, BusView)> {
    Seq::new(uids.len(), |k: int| (uids[k], bus_view(buses[k])))
}

fn make_root_bus(s: &TbSwitchInfo) -> (b: TbBus)
    ensures
        bus_view(b) == root_bus(*s),
{
    proof {
        reveal_strlit("TB5");
        reveal_strlit("TB4");
        reveal_strlit("TB3");
    }
    let mode = tb_mode(s.link_speed, s.current_speed, false);
    let uid = s.uid;
    let low = uid & 15;
    assert(0 <= low <= 15) by (bit_vector)
        requires
            low == uid & 15,
    ;
    let mut name = mode.to_owned();
    name.append(" Bus ");
    push_dec(&mut name, low as u64);
    let speed = if s.link_speed >= 14 {
        "Up to 80 Gb/s".to_owned()
    } else {
        "Up to 40 Gb/s".to_owned()
    };
    assert(name@ == root_bus(*s).0);
    assert("TB4"@[2] != "TB5"@[2] && "TB3"@[2] != "TB5"@[2]);
    assert(speed@ == root_bus(*s).2);
    let b = TbBus { name, is_active: false, speed_label: speed, devices: Vec::new() };
    assert(b.devices@.map_values(|d: TbDevice| device_view(d)) =~= Seq::<DeviceView>::empty());
    b
}

/// The buses of a switch list: one per root switch, in list order, each with the devices
/// found below it.
pub fn build_tb_buses(switches: &[TbSwitchInfo]) -> (r: Vec<TbBus>)
    ensures
        buses_view(r@) == tb_tree_spec(switches@),
{
    let mut uids: Vec<i64> = Vec::new();
    let mut buses: Vec<TbBus> = Vec::new();
    let mut i: usize = 0;
    while i < switches.len()
        invariant
            i <= switches@.len(),
            uids@.len() == buses@.len(),
            keyed(uids@, buses@) == root_buses(switches@.take(i as int)),
        decreases switches@.len() - i,
    {
        assert(switches@.take(i + 1).drop_last() =~= switches@.take(i as int));
        assert(switches@.take(i + 1).last() == switches@[i as int]);
        if switches[i].depth == 0 {
            let b = make_root_bus(&switches[i]);
            uids.push(switches[i].uid);
            buses.push(b);
            assert(keyed(uids@, buses@) =~= root_buses(switches@.take(i + 1)));
        } else {
            assert(keyed(uids@, buses@) =~= root_buses(switches@.take(i + 1)));
        }
        i = i + 1;
    }
    assert(switches@.take(switches@.len() as int) =~= switches@);
    let ghost roots = root_buses(switches@);
    let mut j: usize = 0;
    while j < switches.len()
        invariant
            j <= switches@.len(),
            uids@.len() == buses@.len(),
            roots == root_buses(switches@),
            keyed(uids@, buses@) == attached(roots, switches@.take(j as int)),
        decreases switches@.len() - j,
    {
        let ghost before = keyed(uids@, buses@);
        assert(switches@.take(j + 1).drop_last() =~= switches@.take(j as int));
        assert(switches@.take(j + 1).last() == switches@[j as int]);
        if switches[j].depth > 0 {
            let parent = switches[j].parent_uid;
            let mut k: usize = 0;
            while k < uids.len() && uids[k] != parent
                invariant
                    k <= uids@.len(),
                    forall|m: int| 0 <= m < k ==> #[trigger] uids@[m] != parent,
                decreases uids@.len() - k,
            {
                k = k + 1;
            }
            if k < uids.len() {
                proof {
                    assert forall|m: int| 0 <= m < k implies #[trigger] before[m].0 != parent by {
                        assert(before[m].0 == uids@[m]);
                    }
                    assert(first_bus(before, parent, k as int));
                    lemma_first_bus_unique(before, parent, k as int);
                }
                let mut b = buses.remove(k);
                let ghost old_devices = b.devices@;
                b.is_active = true;
                b.devices.push(
                    TbDevice {
                        name: switches[j].device.clone(),
                        vendor: switches[j].vendor.clone(),
                        mode: tb_mode(switches[j].link_speed, switches[j].current_speed, true).to_owned(),
                    },
                );
                assert(b.devices@.map_values(|d: TbDevice| device_view(d)) =~= old_devices.map_values(
                    |d: TbDevice| device_view(d),
                ).push(
                    (
                        switches[j as int].device@,
                        switches[j as int].vendor@,
                        tb_mode_text(switches[j as int].link_speed, switches[j as int].current_speed, true),
                    ),
                ));
                buses.insert(k, b);
                assert(keyed(uids@, buses@) =~= attach(before, switches@[j as int]));
            } else {
                proof {
                    if exists|c: int| first_bus(before, parent, c) {
                        let c = choose|c: int| first_bus(before, parent, c);
                        assert(uids@[c] == before[c].0);
                    }
                }
                assert(keyed(uids@, buses@) =~= attach(before, switches@[j as int]));
            }
        }
        j = j + 1;
    }
    assert(switches@.take(switches@.len() as int) =~= switches@);
    assert(buses_view(buses@) =~= attached(roots, switches@).map_values(|e: (i64, BusView)| e.1));
    buses
}

/// The branch drawn before an entry: a corner for the last one, a tee otherwise.
pub open spec fn branch(last: bool) -> Seq<char> {
    if last {
        "  └─"@
    } else {
        "  ├─"@
    }
}

/// `<branch> <name> (<vendor>, <mode>)`, or just the mode when the vendor is unknown.
pub open spec fn device_line(d: DeviceView, last: bool) -> Seq<char> {
    let info = if d.1.len() == 0 {
        d.2
    } else {
        d.1 + ", "@ + d.2
    };
    branch(last) + " "@ + d.0 + " ("@ + info + ")"@
}

/// A bus line, `ϟ` when active and `○` when idle, then one line per device.
pub open spec fn bus_lines(b: BusView) -> Seq<Seq<char>> {
    seq![(if b.1 {
        "ϟ"@
    } else {
        "○"@
    }) + " "@ + b.0 + " @ "@ + b.2] + Seq::new(
        b.3.len(),
        |i: int| device_line(b.3[i], i == b.3.len() - 1),
    )
}

pub open spec fn tree_lines(bs: Seq<BusView>) -> Seq<Seq<char>>
    decreases bs.len(),
{
    if bs.len() == 0 {
        seq![]
    } else {
        tree_lines(bs.drop_last()) + bus_lines(bs.last())
    }
}

/// Hosts bridged over Thunderbolt, under their own heading.
pub open spec fn peer_lines(peers: Seq<Seq<char>>) -> Seq<Seq<char>> {
    if peers.len() == 0 {
        seq![]
    } else {
        seq!["Thunderbolt Bridge:"@] + Seq::new(
            peers.len(),
            |i: int| branch(i == peers.len() - 1) + " "@ + peers[i] + " (peer host)"@,
        )
    }
}

fn push_branch(out: &mut String, last: bool)
    ensures
        final(out)@ == old(out)@ + branch(last),
{
    if last {
        out.append("  └─");
    } else {
        out.append("  ├─");
    }
}

/// The topology as text, one line per bus, device and bridged host.
pub fn render_tb_tree(buses: &[TbBus], bridge_peers: &[String]) -> (s: String)
    ensures
        s@ == join(tree_lines(buses_view(buses@)) + peer_lines(strings_view(bridge_peers@)), "\n"@),
{
    let mut lines: Vec<String> = Vec::new();
    let mut i: usize = 0;
    assert(buses_view(buses@).take(0) =~= Seq::<BusView>::empty());
    while i < buses.len()
        invariant
            i <= buses@.len(),
            strings_view(lines@) == tree_lines(buses_view(buses@).take(i as int)),
        decreases buses@.len() - i,
    {
        let bus = &buses[i];
        let ghost bv = bus_view(*bus);
        let ghost before = strings_view(lines@);
        let mut head = String::new();
        if bus.is_active {
            head.append("ϟ");
        } else {
            head.append("○");
        }
        head.append(" ");
        head.append(bus.name.as_str());
        head.append(" @ ");
        head.append(bus.speed_label.as_str());
        lines.push(head);
        let n = bus.devices.len();
        let mut k: usize = 0;
        while k < n
            invariant
                k <= n,
                n == bus.devices@.len(),
                bv == bus_view(*bus),
                strings_view(lines@) == before + bus_lines(bv).take(k + 1),
            decreases n - k,
        {
            let d = &bus.devices[k];
            let mut line = String::new();
            push_branch(&mut line, k + 1 == n);
            line.append(" ");
            line.append(d.name.as_str());
            line.append(" (");
            if d.vendor.as_str().is_empty() {
                line.append(d.mode.as_str());
            } else {
                line.append(d.vendor.as_str());
                line.append(", ");
                line.append(d.mode.as_str());
            }
            line.append(")");
            let ghost prev = strings_view(lines@);
            lines.push(line);
            proof {
                assert(bv.3[k as int] == device_view(*d));
                assert(line@ == device_line(bv.3[k as int], k == n - 1));
                assert(bus_lines(bv).take(k + 2) =~= bus_lines(bv).take(k + 1).push(line@));
                assert(strings_view(lines@) =~= prev.push(line@));
            }
            k = k + 1;
        }
        proof {
            assert(bus_lines(bv).take(n + 1) =~= bus_lines(bv));
            let bs = buses_view(buses@).take(i + 1);
            assert(bs.drop_last() =~= buses_view(buses@).take(i as int));
            assert(bs.last() == bv);
        }
        i = i + 1;
    }
    assert(buses_view(buses@).take(buses@.len() as int) =~= buses_view(buses@));
    let ghost tree = strings_view(lines@);
    let m = bridge_peers.len();
    if m > 0 {
        lines.push("Thunderbolt Bridge:".to_owned());
        let mut k: usize = 0;
        while k < m
            invariant
                k <= m,
                m == bridge_peers@.len(),
                m > 0,
                strings_view(lines@) == tree + peer_lines(strings_view(bridge_peers@)).take(k + 1),
            decreases m - k,
        {
            let mut line = String::new();
            push_branch(&mut line, k + 1 == m);
            line.append(" ");
            line.append(bridge_peers[k].as_str());
            line.append(" (peer host)");
            let ghost prev = strings_view(lines@);
            lines.push(line);
            proof {
                let pl = peer_lines(strings_view(bridge_peers@));
                assert(pl[k + 1] == line@);
                assert(pl.take(k + 2) =~= pl.take(k + 1).push(line@));
                assert(strings_view(lines@) =~= prev.push(line@));
            }
            k = k + 1;
        }
        assert(peer_lines(strings_view(bridge_peers@)).take(m + 1) =~= peer_lines(strings_view(bridge_peers@)));
    } else {
        assert(tree + peer_lines(strings_view(bridge_peers@)) =~= tree);
    }
    join_strings(&lines, "\n")
}

/// Device `d` is switch `s`, a switch below a root, under its own device name and vendor.
pub open spec fn names_switch(d: DeviceView, s: TbSwitchInfo) -> bool {
    &&& s.depth > 0
    &&& d.0 == s.device@
    &&& d.1 == s.vendor@
}

/// Device `d` is one of the switches of `sw`, under its own device name and vendor.
pub open spec fn names_some_switch(d: DeviceView, sw: Seq<TbSwitchInfo>) -> bool {
    exists|i: int| 0 <= i < sw.len() && #[trigger] names_switch(d, sw[i])
}

spec fn devices_from_switches(buses: Seq<(i64, BusView)>, sw: Seq<TbSwitchInfo>) -> bool {
    forall|k: int, j: int|
        0 <= k < buses.len() && 0 <= j < buses[k].1.3.len() ==> #[trigger] names_some_switch(buses[k].1.3[j], sw)
}

proof fn lemma_root_buses_empty(sw: Seq<TbSwitchInfo>)
    ensures
        forall|k: int| 0 <= k < root_buses(sw).len() ==> (#[trigger] root_buses(sw)[k]).1.3.len() == 0,
    decreases sw.len(),
{
    if sw.len() > 0 {
        lemma_root_buses_empty(sw.drop_last());
        let r = root_buses(sw.drop_last());
        assert forall|k: int| 0 <= k < root_buses(sw).len() implies (#[trigger] root_buses(sw)[k]).1.3.len() == 0 by {
            if k < r.len() {
                assert(root_buses(sw)[k] == r[k]);
            }
        }
    }
}

proof fn lemma_attached_from_switches(buses: Seq<(i64, BusView)>, sw: Seq<TbSwitchInfo>, full: Seq<TbSwitchInfo>)
    requires
        sw.len() <= full.len(),
        sw == full.take(sw.len() as int),
        devices_from_switches(buses, full),
    ensures
        devices_from_switches(attached(buses, sw), full),
        attached(buses, sw).len() == buses.len(),
    decreases sw.len(),
{
    if sw.len() > 0 {
        let d = sw.drop_last();
        assert(d == full.take(d.len() as int));
        lemma_attached_from_switches(buses, d, full);
        let prev = attached(buses, d);
        let s = sw.last();
        let n = sw.len() - 1;
        assert(s == full[n]);
        if s.depth > 0 && exists|k: int| first_bus(prev, s.parent_uid, k) {
            let k0 = choose|k: int| first_bus(prev, s.parent_uid, k);
            let out = attach(prev, s);
            assert(attached(buses, sw) == out);
            assert forall|k: int, j: int| 0 <= k < out.len() && 0 <= j < out[k].1.3.len() implies #[trigger] names_some_switch(
                out[k].1.3[j],
                full,
            ) by {
                if k == k0 && j == prev[k0].1.3.len() {
                    assert(out[k].1.3[j] == (s.device@, s.vendor@, tb_mode_text(s.link_speed, s.current_speed, true)));
                    assert(names_switch(out[k].1.3[j], full[n]));
                } else {
                    assert(out[k].1.3[j] == prev[k].1.3[j]);
                    assert(names_some_switch(prev[k].1.3[j], full));
                }
            }
        } else {
            assert(attached(buses, sw) == prev);
        }
    }
}

/// Every device listed under a bus in `bs` is a switch of `sw` below a root, named by its
/// `device` field with its `vendor` field as vendor.
pub open spec fn devices_name_switches(bs: Seq<BusView>, sw: Seq<TbSwitchInfo>) -> bool {
    forall|k: int, j: int| 0 <= k < bs.len() && 0 <= j < bs[k].3.len() ==> #[trigger] names_some_switch(bs[k].3[j], sw)
}

/// The buses built from a switch list list only that list's switches below a root: every
/// device is one of them, named by its `device` field with its `vendor` field as vendor.
pub proof fn lemma_bus_devices_name_their_switches(sw: Seq<TbSwitchInfo>)
    ensures
        devices_name_switches(tb_tree_spec(sw), sw),
{
    let roots = root_buses(sw);
    lemma_root_buses_empty(sw);
    assert(devices_from_switches(roots, sw));
    assert(sw == sw.take(sw.len() as int));
    lemma_attached_from_switches(roots, sw, sw);
    let a = attached(roots, sw);
    let bs = tb_tree_spec(sw);
    assert forall|k: int, j: int| 0 <= k < bs.len() && 0 <= j < bs[k].3.len() implies #[trigger] names_some_switch(
        bs[k].3[j],
        sw,
    ) by {
        assert(bs[k] == a[k].1);
        assert(names_some_switch(a[k].1.3[j], sw));
    }
}

/// A root switch with one switch attached below it gives one active bus, on which that
/// switch is the only device: named by its `device` field, with its `vendor` field as
/// vendor and the generation of its negotiated speed as mode.
pub proof fn lemma_single_child_is_the_bus_device(root: TbSwitchInfo, child: TbSwitchInfo)
    requires
        root.depth == 0,
        child.depth > 0,
        child.parent_uid == root.uid,
    ensures
        tb_tree_spec(seq![root, child]).len() == 1,
        tb_tree_spec(seq![root, child])[0].1,
        tb_tree_spec(seq![root, child])[0].3.len() == 1,
        tb_tree_spec(seq![root, child])[0].3[0].0 == child.device@,
        tb_tree_spec(seq![root, child])[0].3[0].1 == child.vendor@,
        tb_tree_spec(seq![root, child])[0].3[0].2 == tb_mode_text(child.link_speed, child.current_speed, true),
{
    let sw = seq![root, child];
    assert(sw.drop_last() =~= seq![root]);
    assert(seq![root].drop_last() =~= Seq::<TbSwitchInfo>::empty());
    let roots = root_buses(sw);
    assert(root_buses(Seq::<TbSwitchInfo>::empty()) == Seq::<(i64, BusView)>::empty());
    assert(root_buses(seq![root]) == root_buses(Seq::<TbSwitchInfo>::empty()).push((root.uid, root_bus(root))));
    assert(roots == root_buses(seq![root]));
    assert(roots =~= seq![(root.uid, root_bus(root))]);
    assert(attached(roots, seq![root]) == attached(roots, Seq::<TbSwitchInfo>::empty()));
    assert(first_bus(roots, child.parent_uid, 0));
    lemma_first_bus_unique(roots, child.parent_uid, 0);
}

} // verus!
