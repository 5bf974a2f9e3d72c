//! The shared data model: discovered networks, the interface and its
//! connection, command lines handed to the process executor, and errors.
use vstd::prelude::*;

verus! {

/// One network seen by a scan.
#[derive(Clone, Debug, PartialEq, Eq)]
pub struct AvailableWifi {
    pub ssid: String,
    pub mac: String,
    pub channel: String,
    pub signal_level: String,
    pub security: String,
    pub in_use: bool,
}

/// What a scan record holds, as character sequences.
pub struct NetworkRecord {
    pub ssid: Seq<char>,
    pub mac: Seq<char>,
    pub channel: Seq<char>,
    pub signal_level: Seq<char>,
    pub security: Seq<char>,
    pub in_use: bool,
}

impl View for AvailableWifi {
    type V = NetworkRecord;

    open spec fn view(&self) -> NetworkRecord {
        NetworkRecord {
            ssid: self.ssid@,
            mac: self.mac@,
            channel: self.channel@,
            signal_level: self.signal_level@,
            security: self.security@,
            in_use: self.in_use,
        }
    }
}

/// The views of a sequence of scan records.
pub open spec fn records_view(v: Seq<AvailableWifi>) -> Seq<NetworkRecord> {
    v.map_values(|w: AvailableWifi| w@)
}

/// The network an interface is associated with.
#[derive(Clone, Debug, PartialEq, Eq)]
pub struct Connection {
    pub ssid: String,
}

/// The command-line tool family that drives the radio.
#[derive(Clone, Copy, Debug, PartialEq, Eq)]
pub enum Platform {
    /// NetworkManager's `nmcli`: tabular scan output.
    Nmcli,
    /// Windows' `netsh`: block-structured scan output, profiles before joining.
    Netsh,
}

/// A wireless interface and the connection it holds, if any.
#[derive(Clone, Debug, PartialEq, Eq)]
pub struct WiFi {
    pub platform: Platform,
    pub interface: String,
    pub connection: Option<Connection>,
}

/// A program and its arguments, for the process executor to run.
#[derive(Clone, Debug, PartialEq, Eq)]
pub struct CommandLine {
    pub program: String,
    pub args: Vec<String>,
}

/// The views of a sequence of strings.
pub open spec fn strings_view(v: Seq<String>) -> Seq<Seq<char>> {
    v.map_values(|s: String| s@)
}

/// Errors of the radio and of scanning.
#[derive(Clone, Debug, PartialEq, Eq)]
pub enum WifiError {
    /// The radio is switched off.
    WifiDisabled,
    /// The external tool could not be run; the text describes why.
    IoError(String),
}

/// Errors of connecting and disconnecting.
#[derive(Clone, Debug, PartialEq, Eq)]
pub enum WifiConnectionError {
    /// The join command could not be run.
    FailedToConnect(String),
    /// The disconnect command could not be run.
    FailedToDisconnect(String),
    /// The network profile could not be created.
    AddNetworkProfileFailed,
    /// A radio error, `WifiDisabled` among them.
    Other { kind: WifiError },
}

} // verus!
