use wifi_rs::control::ConnectAction;
use wifi_rs::model::{CommandLine, Connection, Platform, WiFi, WifiConnectionError, WifiError};

fn cmd(program: &str, args: &[&str]) -> CommandLine {
    CommandLine { program: program.to_string(), args: args.iter().map(|a| a.to_string()).collect() }
}

#[test]
fn connect_refused_when_radio_off() {
    for p in [Platform::Nmcli, Platform::Netsh] {
        let w = WiFi::new(p, "wlan0");
        let r = w.connect_after_radio("Home", "pw", Ok(false));
        assert_eq!(
            r,
            ConnectAction::Finish(Err(WifiConnectionError::Other { kind: WifiError::WifiDisabled }))
        );
    }
}

#[test]
fn connect_radio_query_error() {
    let w = WiFi::new(Platform::Nmcli, "wlan0");
    let r = w.connect_after_radio("Home", "pw", Err(WifiError::IoError("no rfkill".to_string())));
    assert_eq!(
        r,
        ConnectAction::Finish(Err(WifiConnectionError::Other {
            kind: WifiError::IoError("no rfkill".to_string())
        }))
    );
}

#[test]
fn nmcli_connect_runs_join_command() {
    let w = WiFi::new(Platform::Nmcli, "wlan0");
    let r = w.connect_after_radio("Home", "secret", Ok(true));
    assert_eq!(
        r,
        ConnectAction::Run(cmd(
            "nmcli",
            &["d", "wifi", "connect", "Home", "password", "secret", "ifname", "wlan0"]
        ))
    );
}

#[test]
fn netsh_connect_adds_profile_first() {
    let w = WiFi::new(Platform::Netsh, "Wi-Fi");
    assert_eq!(w.connect_after_radio("Office", "pw", Ok(true)), ConnectAction::AddProfile);
    assert_eq!(
        w.connect_after_profile("Office", "pw", false),
        ConnectAction::Finish(Err(WifiConnectionError::AddNetworkProfileFailed))
    );
    assert_eq!(
        w.connect_after_profile("Office", "pw", true),
        ConnectAction::Run(cmd("netsh", &["wlan", "connect", "name=Office"]))
    );
    assert_eq!(
        WiFi::profile_command("C:\\tmp\\p.xml"),
        cmd("netsh", &["wlan", "add", "profile", "filename=C:\\tmp\\p.xml"])
    );
}

#[test]
fn connect_success_records_connection() {
    let mut w = WiFi::new(Platform::Nmcli, "wlan0");
    let out = "Device 'wlan0' successfully activated with 'abc'.\n".to_string();
    assert_eq!(w.finish_connect("Home", Ok(out)), Ok(true));
    assert_eq!(w.connection, Some(Connection { ssid: "Home".to_string() }));
    assert_eq!(w.interface, "wlan0");

    let mut v = WiFi::new(Platform::Netsh, "Wi-Fi");
    let out = "Connection request was completed successfully.\r\n".to_string();
    assert_eq!(v.finish_connect("Office", Ok(out)), Ok(true));
    assert_eq!(v.connection, Some(Connection { ssid: "Office".to_string() }));
}

#[test]
fn connect_failure_keeps_state() {
    let mut w = WiFi::new(Platform::Nmcli, "wlan0");
    w.connection = Some(Connection { ssid: "Old".to_string() });
    let out = "Error: Connection activation failed.\n".to_string();
    assert_eq!(w.finish_connect("New", Ok(out)), Ok(false));
    assert_eq!(w.connection, Some(Connection { ssid: "Old".to_string() }));
    // the marker text is matched with its case
    let out = "Device 'wlan0' Successfully Activated\n".to_string();
    assert_eq!(w.finish_connect("New", Ok(out)), Ok(false));
    // the other platform's marker does not count
    let out = "completed successfully".to_string();
    assert_eq!(w.finish_connect("New", Ok(out)), Ok(false));
    assert_eq!(
        w.finish_connect("New", Err("not found".to_string())),
        Err(WifiConnectionError::FailedToConnect("not found".to_string()))
    );
    assert_eq!(w.connection, Some(Connection { ssid: "Old".to_string() }));
}

#[test]
fn disconnect_outcomes() {
    let mut w = WiFi::new(Platform::Nmcli, "wlan0");
    assert_eq!(w.disconnect_command(), cmd("nmcli", &["d", "disconnect", "ifname", "wlan0"]));
    w.connection = Some(Connection { ssid: "Home".to_string() });
    assert_eq!(w.finish_disconnect(Ok("nothing".to_string())), Ok(false));
    assert_eq!(w.connection, Some(Connection { ssid: "Home".to_string() }));
    assert_eq!(
        w.finish_disconnect(Err("spawn".to_string())),
        Err(WifiConnectionError::FailedToDisconnect("spawn".to_string()))
    );
    assert_eq!(w.connection, Some(Connection { ssid: "Home".to_string() }));
    let out = "Device 'wlan0' successfully disconnected.\n".to_string();
    assert_eq!(w.finish_disconnect(Ok(out)), Ok(true));
    assert_eq!(w.connection, None);

    let v = WiFi::new(Platform::Netsh, "Wi-Fi");
    assert_eq!(v.disconnect_command(), cmd("netsh", &["wlan", "disconnect"]));
}

#[test]
fn scan_commands_and_results() {
    let w = WiFi::new(Platform::Nmcli, "wlan0");
    assert_eq!(
        w.scan_command(),
        cmd("nmcli", &["-f", "IN-USE,BSSID,SSID,CHAN,SIGNAL,SECURITY", "d", "wifi", "list"])
    );
    assert_eq!(
        w.finish_scan(Err("denied".to_string())),
        Err(WifiError::IoError("denied".to_string()))
    );
    let r = w.finish_scan(Ok("HEADER\n* AA Home 6 80 WPA2\n".to_string())).unwrap();
    assert_eq!(r.len(), 1);
    assert_eq!(r[0].ssid, "Home");
    assert!(r[0].in_use);

    let v = WiFi::new(Platform::Netsh, "Wi-Fi");
    assert_eq!(v.scan_command(), cmd("netsh", &["wlan", "show", "networks", "mode=bssid"]));
    let r = v
        .finish_scan(Ok("SSID 1 : Office\nBSSID 1 : 01\nSignal : 72%\nChannel : 10\n".to_string()))
        .unwrap();
    assert_eq!(r.len(), 1);
    assert_eq!(r[0].signal_level, "72");
}
