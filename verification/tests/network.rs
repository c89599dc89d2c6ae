use triangle_gator::network_manager::{parse_scan_line, Network, NetworkManager};
use triangle_gator::rat::Rat;
use triangle_gator::trilateration_calc::{NetInfo, Point};

#[test]
fn network_new_and_from_copy_all_fields() {
    let n = Network::new(String::from("lab"), 72, Some(String::from("WPA2")));
    assert_eq!(n.ssid, "lab");
    assert_eq!(n.measured_power, 72);
    assert_eq!(n.security.as_deref(), Some("WPA2"));
    let copy = Network::from(&n);
    assert_eq!(copy.ssid, n.ssid);
    assert_eq!(copy.measured_power, n.measured_power);
    assert_eq!(copy.security, n.security);
}

#[test]
fn scan_line_with_all_fields() {
    let n = parse_scan_line("HomeWifi:72:WPA2").unwrap();
    assert_eq!(n.ssid, "HomeWifi");
    assert_eq!(n.measured_power, 72);
    assert_eq!(n.security.as_deref(), Some("WPA2"));
}

#[test]
fn scan_line_with_empty_security() {
    let n = parse_scan_line("open_net:31:").unwrap();
    assert_eq!(n.ssid, "open_net");
    assert_eq!(n.measured_power, 31);
    assert_eq!(n.security, None);
}

#[test]
fn scan_line_security_keeps_later_colons() {
    let n = parse_scan_line("net:12:WPA1 WPA2:802.1X").unwrap();
    assert_eq!(n.security.as_deref(), Some("WPA1 WPA2:802.1X"));
}

#[test]
fn malformed_scan_lines_are_skipped() {
    assert!(parse_scan_line("").is_none());
    assert!(parse_scan_line("no colons here").is_none());
    assert!(parse_scan_line("one:colon").is_none());
    assert!(parse_scan_line(":55:WPA").is_none()); // empty name
    assert!(parse_scan_line("net:notanumber:WPA").is_none());
    assert!(parse_scan_line("net::WPA").is_none()); // empty signal
    assert!(parse_scan_line("net:99999999999:WPA").is_none()); // over u32
}

#[test]
fn manager_records_selection_and_connection() {
    let mut manager = NetworkManager::default();
    assert!(manager.get_selected_network().is_none());
    assert!(!manager.get_connection_status());
    assert!(manager.get_available_networks().is_empty());

    let chosen = Network::new(String::from("lab"), 70, None);
    manager.select_network(Some(&chosen));
    assert_eq!(manager.get_selected_network().as_ref().unwrap().ssid, "lab");

    manager.is_connected(true);
    assert!(manager.get_connection_status());

    manager.reset_network_manager();
    assert!(manager.get_selected_network().is_none());
    assert!(!manager.get_connection_status());
}

#[test]
fn scan_results_fill_the_list_in_order() {
    let mut manager = NetworkManager::default();
    let lines = vec![
        String::from("alpha:10:"),
        String::from("not a scan line"),
        String::from("beta:20:WPA2"),
        String::from(":9:skipped"),
    ];
    manager.record_scan_results(&lines);
    let nets = manager.get_available_networks();
    assert_eq!(nets.len(), 2);
    assert_eq!(nets[0].ssid, "alpha");
    assert_eq!(nets[1].ssid, "beta");
}

#[test]
fn scanning_is_skipped_while_a_network_is_selected() {
    let mut manager = NetworkManager::default();
    manager.record_scan_results(&vec![String::from("alpha:10:")]);
    let chosen = Network::from(&manager.get_available_networks()[0]);
    manager.select_network(Some(&chosen));
    manager.record_scan_results(&vec![String::from("beta:20:")]);
    let nets = manager.get_available_networks();
    assert_eq!(nets.len(), 1);
    assert_eq!(nets[0].ssid, "alpha");
}

#[test]
fn clearing_empties_the_scanned_list() {
    let mut manager = NetworkManager::default();
    manager.record_scan_results(&vec![String::from("alpha:10:")]);
    assert_eq!(manager.get_available_networks().len(), 1);
    manager.clear_available_networks();
    assert!(manager.get_available_networks().is_empty());
}

#[test]
fn ready_to_calc_needs_selection_and_three_measurements() {
    let mut manager = NetworkManager::default();
    let info = Some(NetInfo {
        tx_power: Some(Rat::new(15, 1)),
        measured_power: Some(Rat::new(-40, 1)),
    });
    let mut points = [
        Point::new(0, 0, info.clone()),
        Point::new(100, 0, info.clone()),
        Point::new(50, 86, None),
    ];
    assert!(!manager.ready_to_calc(&points));

    manager.select_network(Some(&Network::new(String::from("lab"), 70, None)));
    assert!(!manager.ready_to_calc(&points));

    points[2] = Point::new(50, 86, info);
    assert!(manager.ready_to_calc(&points));
}
