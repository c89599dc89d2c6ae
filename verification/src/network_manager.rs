//! Bookkeeping of nearby wireless networks: the scanned list, the selected
//! network, and the connection flag.
//!
//! Scanning and connecting are platform work done by the caller; what is
//! kept here is the state those actions revolve around, and the parsing of
//! the terse scan output into network records. A scan line has the shape
//! `SSID:SIGNAL:SECURITY` — the name, a decimal signal quality, and a
//! security descriptor that may be empty and may itself contain colons.
//! Lines without two colons, with an empty name, or with a malformed signal
//! field are skipped.

use vstd::prelude::*;

use crate::parse::{all_digits, digits_val, find_char, find_from, parse_u32};
use crate::trilateration_calc::Point;

verus! {

/// One nearby wireless network as the platform reports it.
pub struct Network {
    pub ssid: String,
    pub measured_power: u32,
    pub security: Option<String>,
}

/// The abstract value of a `Network`.
pub struct NetworkView {
    pub ssid: Seq<char>,
    pub measured_power: u32,
    pub security: Option<Seq<char>>,
}

/// The abstract value of an optional security descriptor.
pub open spec fn sec_view(security: Option<String>) -> Option<Seq<char>> {
    match security {
        Some(s) => Some(s@),
        None => None,
    }
}

impl View for Network {
    type V = NetworkView;

    open spec fn view(&self) -> NetworkView {
        NetworkView {
            ssid: self.ssid@,
            measured_power: self.measured_power,
            security: sec_view(self.security),
        }
    }
}

impl Network {
    pub fn new(ssid: String, measured_power: u32, security: Option<String>) -> (n: Network)
        ensures
            n@.ssid == ssid@,
            n@.measured_power == measured_power,
            n@.security == sec_view(security),
    {
        Network { ssid, measured_power, security }
    }

    /// A fresh record with the same contents.
    pub fn from(network: &Network) -> (n: Network)
        ensures
            n@ == network@,
    {
        let security = match &network.security {
            Some(s) => Some(s.clone()),
            None => None,
        };
        Network { ssid: network.ssid.clone(), measured_power: network.measured_power, security }
    }
}

/// Caller-facing state around scanning, selecting and connecting.
pub struct NetworkManager {
    available_networks: Vec<Network>,
    selected_network: Option<Network>,
    connected: bool,
}

/// The abstract state of a `NetworkManager`.
pub struct NetworkManagerView {
    pub available_networks: Seq<NetworkView>,
    pub selected_network: Option<NetworkView>,
    pub connected: bool,
}

impl View for NetworkManager {
    type V = NetworkManagerView;

    closed spec fn view(&self) -> NetworkManagerView {
        NetworkManagerView {
            available_networks: self.available_networks@.map_values(|n: Network| n@),
            selected_network: match self.selected_network {
                Some(n) => Some(n@),
                None => None,
            },
            connected: self.connected,
        }
    }
}

impl Default for NetworkManager {
    /// A manager with no scanned networks, no selection, and no connection.
    fn default() -> (m: Self)
        ensures
            m@.available_networks.len() == 0,
            m@.selected_network is None,
            m@.connected == false,
    {
        Self { available_networks: Vec::new(), selected_network: None, connected: false }
    }
}

impl NetworkManager {
    /// An estimation round may start: a network is selected and every
    /// anchor point carries a measurement slot that has been filled.
    pub fn ready_to_calc(&self, points: &[Point; 3]) -> (r: bool)
        ensures
            r == (self@.selected_network is Some && points@[0].net_info is Some
                && points@[1].net_info is Some && points@[2].net_info is Some),
    {
        self.selected_network.is_some() && points[0].net_info.is_some()
            && points[1].net_info.is_some() && points[2].net_info.is_some()
    }

    pub fn get_available_networks(&self) -> (r: &Vec<Network>)
        ensures
            r@.map_values(|n: Network| n@) == self@.available_networks,
    {
        &self.available_networks
    }

    pub fn clear_available_networks(&mut self)
        ensures
            final(self)@.available_networks.len() == 0,
            final(self)@.selected_network == old(self)@.selected_network,
            final(self)@.connected == old(self)@.connected,
    {
        self.available_networks.clear();
    }

    pub fn get_selected_network(&self) -> (r: &Option<Network>)
        ensures
            r is Some <==> self@.selected_network is Some,
            r matches Some(n) ==> self@.selected_network == Some(n@),
    {
        &self.selected_network
    }

    /// Records a copy of the given network as the selection.
    pub fn select_network(&mut self, network: Option<&Network>)
        requires
            network is Some,
        ensures
            final(self)@.selected_network == Some(network.unwrap()@),
            final(self)@.available_networks == old(self)@.available_networks,
            final(self)@.connected == old(self)@.connected,
    {
        self.selected_network = Some(Network::from(network.unwrap()));
    }

    pub fn get_connection_status(&self) -> (r: bool)
        ensures
            r == self@.connected,
    {
        self.connected
    }

    /// Records whether the platform-level connection attempt succeeded.
    pub fn is_connected(&mut self, connected: bool)
        ensures
            final(self)@.connected == connected,
            final(self)@.available_networks == old(self)@.available_networks,
            final(self)@.selected_network == old(self)@.selected_network,
    {
        self.connected = connected;
    }

    /// Clears the selection and the connection flag for a fresh round; the
    /// platform-level disconnect that goes with it is the caller's step.
    pub fn reset_network_manager(&mut self)
        ensures
            final(self)@.connected == false,
            final(self)@.selected_network is None,
            final(self)@.available_networks == old(self)@.available_networks,
    {
        self.connected = false;
        self.selected_network = None;
    }
}

/// The network record a scan line denotes, if it is well formed: the name
/// before the first colon (non-empty), the decimal signal quality between
/// the first and second colons, and the security descriptor after the
/// second colon (absent when empty).
pub open spec fn scan_line_network(s: Seq<char>) -> Option<NetworkView> {
    match find_from(s, ':', 0) {
        None => None,
        Some(i) => match find_from(s, ':', i + 1) {
            None => None,
            Some(j) => {
                let ssid = s.subrange(0, i);
                let sig = s.subrange(i + 1, j);
                let sec = s.subrange(j + 1, s.len() as int);
                if ssid.len() == 0 {
                    None
                } else if !(sig.len() > 0 && all_digits(sig) && digits_val(sig) <= u32::MAX) {
                    None
                } else {
                    Some(
                        NetworkView {
                            ssid,
                            measured_power: digits_val(sig) as u32,
                            security: if sec.len() == 0 {
                                None
                            } else {
                                Some(sec)
                            },
                        },
                    )
                }
            },
        },
    }
}

/// Reads one scan line, as `scan_line_network` describes.
pub fn parse_scan_line(line: &str) -> (r: Option<Network>)
    ensures
        r is Some <==> scan_line_network(line@) is Some,
        r matches Some(n) ==> scan_line_network(line@) == Some(n@),
{
    let n = line.unicode_len();
    let i = match find_char(line, ':', 0) {
        Some(i) => i,
        None => {
            return None;
        },
    };
    let j = match find_char(line, ':', i + 1) {
        Some(j) => j,
        None => {
            return None;
        },
    };
    if i == 0 {
        return None;
    }
    let sig_str = line.substring_char(i + 1, j);
    let signal = match parse_u32(sig_str) {
        Some(v) => v,
        None => {
            return None;
        },
    };
    let ssid = line.substring_char(0, i).to_owned();
    let security = if j + 1 == n {
        None
    } else {
        Some(line.substring_char(j + 1, n).to_owned())
    };
    Some(Network::new(ssid, signal, security))
}

/// The network records of a whole scan, in order; malformed lines are
/// skipped.
pub open spec fn scan_results(lines: Seq<String>) -> Seq<NetworkView>
    decreases lines.len(),
{
    if lines.len() == 0 {
        Seq::empty()
    } else {
        scan_results(lines.drop_last()) + (match scan_line_network(lines.last()@) {
            Some(n) => seq![n],
            None => Seq::empty(),
        })
    }
}

proof fn lemma_scan_results_snoc(lines: Seq<String>, i: int)
    requires
        0 <= i < lines.len(),
    ensures
        scan_results(lines.subrange(0, i + 1)) == scan_results(lines.subrange(0, i)) + (match
            scan_line_network(lines[i]@) {
            Some(n) => seq![n],
            None => Seq::<NetworkView>::empty(),
        }),
{
    assert(lines.subrange(0, i + 1).drop_last() =~= lines.subrange(0, i));
    assert(lines.subrange(0, i + 1).last() == lines[i]);
}

impl NetworkManager {
    /// Replaces the scanned list with the networks the given scan lines
    /// denote — unless a network is already selected, in which case the
    /// whole state is left untouched.
    pub fn record_scan_results(&mut self, lines: &Vec<String>)
        ensures
            old(self)@.selected_network is Some ==> final(self)@ == old(self)@,
            old(self)@.selected_network is None ==> {
                &&& final(self)@.available_networks == scan_results(lines@)
                &&& final(self)@.selected_network is None
                &&& final(self)@.connected == old(self)@.connected
            },
    {
        if self.selected_network.is_some() {
            return;
        }
        self.available_networks.clear();
        let n = lines.len();
        let mut i: usize = 0;
        while i < n
            invariant
                0 <= i <= n,
                n == lines@.len(),
                self.available_networks@.map_values(|x: Network| x@) == scan_results(
                    lines@.subrange(0, i as int),
                ),
                self.selected_network == old(self).selected_network,
                self.selected_network is None,
                self.connected == old(self).connected,
            decreases n - i,
        {
            proof {
                lemma_scan_results_snoc(lines@, i as int);
            }
            let ghost before = self.available_networks@;
            match parse_scan_line(lines[i].as_str()) {
                Some(network) => {
                    self.available_networks.push(network);
                    proof {
                        assert(self.available_networks@.map_values(|x: Network| x@)
                            =~= scan_results(lines@.subrange(0, i as int + 1)));
                    }
                },
                None => {
                    proof {
                        assert(self.available_networks@.map_values(|x: Network| x@)
                            =~= scan_results(lines@.subrange(0, i as int + 1)));
                    }
                },
            }
            i = i + 1;
        }
        proof {
            assert(lines@.subrange(0, n as int) =~= lines@);
        }
    }
}

} // verus!
