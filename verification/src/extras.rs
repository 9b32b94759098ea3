//! Metrics beyond the SoC: the battery and the network link.

use vstd::prelude::*;
use vstd::string::StringExecFns;
use crate::decimal::{one_decimal_text, push_one_decimal};
use crate::text::{dec, push_dec};

verus! {

/// The built-in battery; a snapshot without one has none.
#[derive(Debug, Clone, Copy, PartialEq, Eq, Structural)]
pub struct BatteryInfo {
    /// Charge in percent; `None` when the battery does not report it.
    pub percent: Option<u8>,
    pub charging: bool,
    pub on_ac: bool,
}

/// The battery from the native reading: present only when the reading says `1`, the
/// charge kept only when it lies in `0..=100`.
pub fn battery_from_raw(present: i32, percent: i32, charging: i32, on_ac: i32) -> (r: Option<BatteryInfo>)
    ensures
        r is Some <==> present == 1,
        r matches Some(b) ==> {
            &&& b.percent == (if 0 <= percent <= 100 {
                Some(percent as u8)
            } else {
                None::<u8>
            })
            &&& b.charging == (charging != 0)
            &&& b.on_ac == (on_ac != 0)
        },
{
    if present != 1 {
        return None;
    }
    let level = if 0 <= percent && percent <= 100 {
        Some(percent as u8)
    } else {
        None
    };
    Some(BatteryInfo { percent: level, charging: charging != 0, on_ac: on_ac != 0 })
}

#[derive(Debug, Clone, PartialEq, Eq)]
pub struct EthernetLink {
    pub name: String,
    pub speed_mbps: u64,
    pub is_up: bool,
}

#[derive(Debug, Clone, PartialEq, Eq)]
pub struct WifiLink {
    pub name: String,
    /// `Wi-Fi 4` to `Wi-Fi 7`; empty when the PHY mode is unknown.
    pub generation: String,
    pub phy_mode: String,
    pub tx_rate_mbps: u32,
    pub is_connected: bool,
}

#[derive(Debug, Clone, PartialEq, Eq)]
pub struct LinkInfo {
    pub ethernet: Vec<EthernetLink>,
    pub wifi: Option<WifiLink>,
}

impl Default for LinkInfo {
    fn default() -> (l: Self)
        ensures
            l.ethernet@.len() == 0,
            l.wifi is None,
    {
        LinkInfo { ethernet: Vec::new(), wifi: None }
    }
}

/// A link speed: whole gigabits as `10GbE`, other speeds from a gigabit on with one
/// decimal as `2.5GbE`, lower ones as `100Mbps`, and `--` when unknown.
pub open spec fn link_speed_text(mbps: nat) -> Seq<char> {
    if mbps >= 10000 || (mbps >= 1000 && mbps % 1000 == 0) {
        dec(mbps / 1000) + "GbE"@
    } else if mbps >= 1000 {
        one_decimal_text(mbps) + "GbE"@
    } else if mbps > 0 {
        dec(mbps) + "Mbps"@
    } else {
        "--"@
    }
}

pub fn format_link_speed(mbps: u64) -> (s: String)
    ensures
        s@ == link_speed_text(mbps as nat),
{
    let mut s = String::new();
    if mbps >= 10000 || (mbps >= 1000 && mbps % 1000 == 0) {
        push_dec(&mut s, mbps / 1000);
        s.append("GbE");
    } else if mbps >= 1000 {
        push_one_decimal(&mut s, mbps);
        s.append("GbE");
    } else if mbps > 0 {
        push_dec(&mut s, mbps);
        s.append("Mbps");
    } else {
        s.append("--");
    }
    s
}

/// The fastest Ethernet link that is up, or 0.
pub open spec fn best_ethernet(links: Seq<EthernetLink>) -> nat
    decreases links.len(),
{
    if links.len() == 0 {
        0
    } else {
        let rest = best_ethernet(links.drop_last());
        let last = links.last();
        if last.is_up && last.speed_mbps > rest {
            last.speed_mbps as nat
        } else {
            rest
        }
    }
}

/// The Ethernet speed set against the Wi-Fi is the fastest link that is up: at least the
/// speed of every link that is up, equal to the speed of one of them, and 0 when none is.
pub proof fn lemma_best_ethernet_is_fastest_up_link(links: Seq<EthernetLink>)
    ensures
        forall|i: int| 0 <= i < links.len() && links[i].is_up ==> #[trigger] links[i].speed_mbps <= best_ethernet(links),
        best_ethernet(links) == 0 || exists|i: int|
            0 <= i < links.len() && links[i].is_up && #[trigger] links[i].speed_mbps == best_ethernet(links),
        (forall|i: int| 0 <= i < links.len() ==> !(#[trigger] links[i]).is_up) ==> best_ethernet(links) == 0,
    decreases links.len(),
{
    if links.len() > 0 {
        let rest = links.drop_last();
        lemma_best_ethernet_is_fastest_up_link(rest);
        assert forall|i: int| 0 <= i < rest.len() implies #[trigger] rest[i] == links[i] by {}
        if best_ethernet(rest) > 0 && best_ethernet(links) == best_ethernet(rest) {
            let i = choose|i: int| 0 <= i < rest.len() && rest[i].is_up && #[trigger] rest[i].speed_mbps == best_ethernet(rest);
            assert(links[i] == rest[i]);
        }
        if best_ethernet(links) != best_ethernet(rest) {
            assert(links[links.len() - 1] == links.last());
        }
        assert forall|i: int| 0 <= i < links.len() && links[i].is_up implies #[trigger] links[i].speed_mbps <= best_ethernet(links) by {
            if i < rest.len() {
                assert(links[i] == rest[i]);
            } else {
                assert(links[i] == links.last());
            }
        }
        if forall|i: int| 0 <= i < links.len() ==> !(#[trigger] links[i]).is_up {
            assert(!links[links.len() - 1].is_up);
            assert forall|i: int| 0 <= i < rest.len() implies !(#[trigger] rest[i]).is_up by {
                assert(links[i] == rest[i]);
            }
        }
    }
}

/// The label of the preferred link: Ethernet when it is at least as fast as a connected
/// Wi-Fi, else the Wi-Fi by its generation and rate.
pub open spec fn best_label_text(link: LinkInfo) -> Option<Seq<char>> {
    let eth = best_ethernet(link.ethernet@);
    let wifi_rate: nat = match link.wifi {
        Some(w) => if w.is_connected {
            w.tx_rate_mbps as nat
        } else {
            0
        },
        None => 0,
    };
    if eth > 0 && eth >= wifi_rate {
        Some(link_speed_text(eth))
    } else {
        match link.wifi {
            Some(w) => if !w.is_connected {
                None
            } else if w.generation@.len() == 0 {
                Some(dec(w.tx_rate_mbps as nat) + "Mbps"@)
            } else if w.tx_rate_mbps > 0 {
                Some(w.generation@ + " @ "@ + dec(w.tx_rate_mbps as nat) + "Mbps"@)
            } else {
                Some(w.generation@)
            },
            None => None,
        }
    }
}

impl LinkInfo {
    pub fn best_label(&self) -> (r: Option<String>)
        ensures
            r is Some <==> best_label_text(*self) is Some,
            r matches Some(s) ==> best_label_text(*self) == Some(s@),
    {
        let mut best: u64 = 0;
        let mut i: usize = 0;
        while i < self.ethernet.len()
            invariant
                i <= self.ethernet@.len(),
                best == best_ethernet(self.ethernet@.take(i as int)),
            decreases self.ethernet@.len() - i,
        {
            assert(self.ethernet@.take(i + 1).drop_last() =~= self.ethernet@.take(i as int));
            if self.ethernet[i].is_up && self.ethernet[i].speed_mbps > best {
                best = self.ethernet[i].speed_mbps;
            }
            i = i + 1;
        }
        assert(self.ethernet@.take(self.ethernet@.len() as int) =~= self.ethernet@);
        let wifi_rate: u64 = match &self.wifi {
            Some(w) => if w.is_connected {
                w.tx_rate_mbps as u64
            } else {
                0
            },
            None => 0,
        };
        if best > 0 && best >= wifi_rate {
            return Some(format_link_speed(best));
        }
        match &self.wifi {
            Some(w) => {
                if !w.is_connected {
                    None
                } else if w.generation.as_str().is_empty() {
                    let mut s = String::new();
                    push_dec(&mut s, w.tx_rate_mbps as u64);
                    s.append("Mbps");
                    Some(s)
                } else if w.tx_rate_mbps > 0 {
                    let mut s = w.generation.clone();
                    s.append(" @ ");
                    push_dec(&mut s, w.tx_rate_mbps as u64);
                    s.append("Mbps");
                    Some(s)
                } else {
                    Some(w.generation.clone())
                }
            },
            None => None,
        }
    }
}

} // verus!
