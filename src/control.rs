//! The connection controller. Running a command and reading the radio state
//! happen outside; each function here takes what came back and decides the
//! result, the next command to run, and the interface's new state.
use vstd::prelude::*;
use crate::model::{
    AvailableWifi, CommandLine, Connection, Platform, WiFi, WifiConnectionError, WifiError,
    records_view, strings_view,
};
use crate::netsh::{netsh_scan, parse_netsh_scan};
use crate::nmcli::{nmcli_scan, parse_nmcli_scan};
use crate::text::{chars_of, contains, occurs_in};

verus! {

impl View for CommandLine {
    type V = (Seq<char>, Seq<Seq<char>>);

    open spec fn view(&self) -> (Seq<char>, Seq<Seq<char>>) {
        (self.program@, strings_view(self.args@))
    }
}

/// What to do next while connecting.
#[derive(Debug, PartialEq, Eq)]
pub enum ConnectAction {
    /// Write the network profile for the SSID and password, then run
    /// `profile_command` on its path; report with `connect_after_profile`.
    AddProfile,
    /// Run the join command; report its output with `finish_connect`.
    Run(CommandLine),
    /// Connecting is over, with this result.
    Finish(Result<bool, WifiConnectionError>),
}

/// The join command of a platform, for an interface.
pub open spec fn join_command(p: Platform, iface: Seq<char>, ssid: Seq<char>, password: Seq<char>) -> (
    Seq<char>,
    Seq<Seq<char>>,
) {
    match p {
        Platform::Nmcli => (
            "nmcli"@,
            seq!["d"@, "wifi"@, "connect"@, ssid, "password"@, password, "ifname"@, iface],
        ),
        Platform::Netsh => ("netsh"@, seq!["wlan"@, "connect"@, "name="@ + ssid]),
    }
}

/// The text in a join command's output that tells of success.
pub open spec fn join_marker(p: Platform) -> Seq<char> {
    match p {
        Platform::Nmcli => "successfully activated"@,
        Platform::Netsh => "completed successfully"@,
    }
}

/// The text in a disconnect command's output that tells of success.
pub open spec fn disconnect_marker() -> Seq<char> {
    "disconnect"@
}

/// The disconnect command of a platform, for an interface.
pub open spec fn disconnect_command(p: Platform, iface: Seq<char>) -> (Seq<char>, Seq<Seq<char>>) {
    match p {
        Platform::Nmcli => ("nmcli"@, seq!["d"@, "disconnect"@, "ifname"@, iface]),
        Platform::Netsh => ("netsh"@, seq!["wlan"@, "disconnect"@]),
    }
}

/// The scan command of a platform.
pub open spec fn scan_command(p: Platform) -> (Seq<char>, Seq<Seq<char>>) {
    match p {
        Platform::Nmcli => (
            "nmcli"@,
            seq!["-f"@, "IN-USE,BSSID,SSID,CHAN,SIGNAL,SECURITY"@, "d"@, "wifi"@, "list"@],
        ),
        Platform::Netsh => ("netsh"@, seq!["wlan"@, "show"@, "networks"@, "mode=bssid"@]),
    }
}

/// The records of a scan output in a platform's format.
pub open spec fn scan_records(p: Platform, text: Seq<char>) -> Seq<crate::model::NetworkRecord> {
    match p {
        Platform::Nmcli => nmcli_scan(text),
        Platform::Netsh => netsh_scan(text),
    }
}

fn owned(s: &str) -> (r: String)
    ensures
        r@ == s@,
{
    s.to_owned()
}

fn command(program: &str, args: Vec<String>) -> (r: CommandLine)
    ensures
        r.program@ == program@,
        r.args == args,
{
    CommandLine { program: owned(program), args }
}

impl WiFi {
    /// An interface of the given name, not connected.
    pub fn new(platform: Platform, interface: &str) -> (r: WiFi)
        ensures
            r.platform == platform,
            r.interface@ == interface@,
            r.connection is None,
    {
        WiFi { platform, interface: owned(interface), connection: None }
    }

    /// The command that joins `ssid` on this interface.
    pub fn join_command(&self, ssid: &str, password: &str) -> (r: CommandLine)
        ensures
            r@ == join_command(self.platform, self.interface@, ssid@, password@),
    {
        let mut args: Vec<String> = Vec::new();
        let r = match self.platform {
            Platform::Nmcli => {
                args.push(owned("d"));
                args.push(owned("wifi"));
                args.push(owned("connect"));
                args.push(owned(ssid));
                args.push(owned("password"));
                args.push(owned(password));
                args.push(owned("ifname"));
                args.push(self.interface.clone());
                command("nmcli", args)
            },
            Platform::Netsh => {
                args.push(owned("wlan"));
                args.push(owned("connect"));
                args.push(owned("name=").concat(ssid));
                command("netsh", args)
            },
        };
        proof {
            assert(r@.1 =~= join_command(self.platform, self.interface@, ssid@, password@).1);
        }
        r
    }

    /// The command that registers the profile document stored at `path`.
    pub fn profile_command(path: &str) -> (r: CommandLine)
        ensures
            r@ == ("netsh"@, seq!["wlan"@, "add"@, "profile"@, "filename="@ + path@]),
    {
        let mut args: Vec<String> = Vec::new();
        args.push(owned("wlan"));
        args.push(owned("add"));
        args.push(owned("profile"));
        args.push(owned("filename=").concat(path));
        let r = command("netsh", args);
        proof {
            assert(r@.1 =~= seq!["wlan"@, "add"@, "profile"@, "filename="@ + path@]);
        }
        r
    }

    /// The first decision of connecting, once the radio state is known. A
    /// radio that is off, or that could not be read, ends it with an error
    /// and no command; otherwise the profile comes first where the platform
    /// needs one, else the join command.
    pub fn connect_after_radio(&self, ssid: &str, password: &str, radio: Result<bool, WifiError>) -> (r:
        ConnectAction)
        ensures
            radio == Ok::<bool, WifiError>(false) ==> r == ConnectAction::Finish(
                Err(WifiConnectionError::Other { kind: WifiError::WifiDisabled }),
            ),
            radio matches Err(e) ==> r == ConnectAction::Finish(
                Err(WifiConnectionError::Other { kind: e }),
            ),
            radio == Ok::<bool, WifiError>(true) ==> match self.platform {
                Platform::Nmcli => (r matches ConnectAction::Run(c) && c@ == join_command(
                    self.platform,
                    self.interface@,
                    ssid@,
                    password@,
                )),
                Platform::Netsh => r == ConnectAction::AddProfile,
            },
    {
        match radio {
            Err(e) => ConnectAction::Finish(Err(WifiConnectionError::Other { kind: e })),
            Ok(false) => ConnectAction::Finish(
                Err(WifiConnectionError::Other { kind: WifiError::WifiDisabled }),
            ),
            Ok(true) => match self.platform {
                Platform::Nmcli => ConnectAction::Run(self.join_command(ssid, password)),
                Platform::Netsh => ConnectAction::AddProfile,
            },
        }
    }

    /// The decision once the profile step is over: its failure ends
    /// connecting with an error, its success leads to the join command.
    pub fn connect_after_profile(&self, ssid: &str, password: &str, added: bool) -> (r: ConnectAction)
        ensures
            !added ==> r == ConnectAction::Finish(Err(WifiConnectionError::AddNetworkProfileFailed)),
            added ==> (r matches ConnectAction::Run(c) && c@ == join_command(
                self.platform,
                self.interface@,
                ssid@,
                password@,
            )),
    {
        if !added {
            ConnectAction::Finish(Err(WifiConnectionError::AddNetworkProfileFailed))
        } else {
            ConnectAction::Run(self.join_command(ssid, password))
        }
    }

    /// The result of the join command: `Ok(true)` and the new connection
    /// where its output holds the platform's success text; `Ok(false)`
    /// where it does not; an error where it could not be run. Only success
    /// changes the interface.
    pub fn finish_connect(&mut self, ssid: &str, outcome: Result<String, String>) -> (r: Result<
        bool,
        WifiConnectionError,
    >)
        ensures
            final(self).platform == old(self).platform,
            final(self).interface == old(self).interface,
            match outcome {
                Err(d) => r == Err::<bool, WifiConnectionError>(WifiConnectionError::FailedToConnect(d)),
                Ok(out) => r == Ok::<bool, WifiConnectionError>(
                    occurs_in(join_marker(old(self).platform), out@),
                ),
            },
            r == Ok::<bool, WifiConnectionError>(true) ==> (final(self).connection matches Some(c)
                && c.ssid@ == ssid@),
            r != Ok::<bool, WifiConnectionError>(true) ==> final(self).connection == old(
                self,
            ).connection,
    {
        match outcome {
            Err(d) => Err(WifiConnectionError::FailedToConnect(d)),
            Ok(out) => {
                let text = chars_of(out.as_str());
                let ok = match self.platform {
                    Platform::Nmcli => contains(&text, "successfully activated"),
                    Platform::Netsh => contains(&text, "completed successfully"),
                };
                if ok {
                    self.connection = Some(Connection { ssid: owned(ssid) });
                }
                Ok(ok)
            },
        }
    }

    /// The command that disconnects this interface.
    pub fn disconnect_command(&self) -> (r: CommandLine)
        ensures
            r@ == disconnect_command(self.platform, self.interface@),
    {
        let mut args: Vec<String> = Vec::new();
        let r = match self.platform {
            Platform::Nmcli => {
                args.push(owned("d"));
                args.push(owned("disconnect"));
                args.push(owned("ifname"));
                args.push(self.interface.clone());
                command("nmcli", args)
            },
            Platform::Netsh => {
                args.push(owned("wlan"));
                args.push(owned("disconnect"));
                command("netsh", args)
            },
        };
        proof {
            assert(r@.1 =~= disconnect_command(self.platform, self.interface@).1);
        }
        r
    }

    /// The result of the disconnect command: `Ok(true)` where its output
    /// holds `disconnect`, and then the interface holds no connection;
    /// `Ok(false)` where it does not; an error where it could not be run.
    pub fn finish_disconnect(&mut self, outcome: Result<String, String>) -> (r: Result<
        bool,
        WifiConnectionError,
    >)
        ensures
            final(self).platform == old(self).platform,
            final(self).interface == old(self).interface,
            match outcome {
                Err(d) => r == Err::<bool, WifiConnectionError>(WifiConnectionError::FailedToDisconnect(d)),
                Ok(out) => r == Ok::<bool, WifiConnectionError>(occurs_in(disconnect_marker(), out@)),
            },
            r == Ok::<bool, WifiConnectionError>(true) ==> final(self).connection is None,
            r != Ok::<bool, WifiConnectionError>(true) ==> final(self).connection == old(
                self,
            ).connection,
    {
        match outcome {
            Err(d) => Err(WifiConnectionError::FailedToDisconnect(d)),
            Ok(out) => {
                let text = chars_of(out.as_str());
                let ok = contains(&text, "disconnect");
                if ok {
                    self.connection = None;
                }
                Ok(ok)
            },
        }
    }

    /// The command that lists the networks in range.
    pub fn scan_command(&self) -> (r: CommandLine)
        ensures
            r@ == scan_command(self.platform),
    {
        let mut args: Vec<String> = Vec::new();
        let r = match self.platform {
            Platform::Nmcli => {
                args.push(owned("-f"));
                args.push(owned("IN-USE,BSSID,SSID,CHAN,SIGNAL,SECURITY"));
                args.push(owned("d"));
                args.push(owned("wifi"));
                args.push(owned("list"));
                command("nmcli", args)
            },
            Platform::Netsh => {
                args.push(owned("wlan"));
                args.push(owned("show"));
                args.push(owned("networks"));
                args.push(owned("mode=bssid"));
                command("netsh", args)
            },
        };
        proof {
            assert(r@.1 =~= scan_command(self.platform).1);
        }
        r
    }

    /// The networks that the scan command's output lists, or the error of
    /// a scan command that could not be run.
    pub fn finish_scan(&self, outcome: Result<String, String>) -> (r: Result<Vec<AvailableWifi>, WifiError>)
        ensures
            match outcome {
                Err(d) => r == Err::<Vec<AvailableWifi>, WifiError>(WifiError::IoError(d)),
                Ok(out) => (r matches Ok(v) && records_view(v@) == scan_records(self.platform, out@)),
            },
    {
        match outcome {
            Err(d) => Err(WifiError::IoError(d)),
            Ok(out) => match self.platform {
                Platform::Nmcli => Ok(parse_nmcli_scan(out.as_str())),
                Platform::Netsh => Ok(parse_netsh_scan(out.as_str())),
            },
        }
    }
}

} // verus!
