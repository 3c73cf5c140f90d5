use agentemac::hostname::{
    hostname_from_command, hostname_from_file, hostname_from_files, select_hostname,
};
use agentemac::interfaces::{
    adapter_entry, adapters_from_listing, adapters_from_output, inet_address, interface_entry,
    interfaces_from_probes, ipv4_from_ip_output, is_loopback, usable_mac, InterfaceProbe,
};
use agentemac::port::{pids_from_lsof, words_of};

const IP_ADDR_SHOW: &str = "2: eth0: <BROADCAST,MULTICAST,UP,LOWER_UP> mtu 1500 qdisc fq_codel state UP group default qlen 1000
    link/ether 52:54:00:12:34:56 brd ff:ff:ff:ff:ff:ff
    inet 192.168.122.15/24 brd 192.168.122.255 scope global dynamic eth0
       valid_lft 3453sec preferred_lft 3453sec
    inet 10.1.2.3/8 scope global eth0
    inet6 fe80::5054:ff:fe12:3456/64 scope link
       valid_lft forever preferred_lft forever
";

#[test]
fn hostname_file_content_is_trimmed() {
    assert_eq!(hostname_from_file("myhost\n"), Some("myhost".to_string()));
    assert_eq!(hostname_from_file("  my host \t\n"), Some("my host".to_string()));
    assert_eq!(hostname_from_file(" \n\t"), None);
    assert_eq!(hostname_from_file(""), None);
}

#[test]
fn second_hostname_file_is_the_fallback() {
    assert_eq!(hostname_from_files(Some("kernel\n"), Some("etc\n")), Some("kernel".to_string()));
    assert_eq!(hostname_from_files(Some("\n"), Some("etc\n")), Some("etc".to_string()));
    assert_eq!(hostname_from_files(None, Some(" etc ")), Some("etc".to_string()));
    assert_eq!(hostname_from_files(None, Some("  ")), None);
    assert_eq!(hostname_from_files(None, None), None);
}

#[test]
fn hostname_command_output_is_decoded_and_trimmed() {
    assert_eq!(hostname_from_command(b"DESKTOP-01\r\n"), "DESKTOP-01");
    assert_eq!(hostname_from_command(b"  \r\n"), "");
    assert_eq!(hostname_from_command(b"PC\xff\r\n"), "PC\u{fffd}");
}

#[test]
fn hostname_falls_back_to_environment_then_unknown() {
    let s = |x: &str| Some(x.to_string());
    assert_eq!(select_hostname(s("local"), s("CN"), s("HN")), "local");
    assert_eq!(select_hostname(None, s("CN"), s("HN")), "CN");
    assert_eq!(select_hostname(None, None, s("HN")), "HN");
    assert_eq!(select_hostname(None, s(""), s("HN")), "");
    assert_eq!(select_hostname(None, None, None), "unknown");
}

#[test]
fn loopback_is_recognised() {
    assert!(is_loopback("lo"));
    assert!(!is_loopback("lo0"));
    assert!(!is_loopback("eth0"));
    assert!(!is_loopback(""));
}

#[test]
fn address_file_mac_is_trimmed_and_filtered() {
    assert_eq!(usable_mac("52:54:00:12:34:56\n"), Some("52:54:00:12:34:56".to_string()));
    assert_eq!(usable_mac("00:00:00:00:00:00\n"), None);
    assert_eq!(usable_mac("\n"), None);
    assert_eq!(usable_mac(" 00:00:00:00:00:01 "), Some("00:00:00:00:00:01".to_string()));
}

#[test]
fn first_inet_line_gives_the_address() {
    assert_eq!(inet_address(IP_ADDR_SHOW), "192.168.122.15");
    assert_eq!(ipv4_from_ip_output(IP_ADDR_SHOW.as_bytes()), "192.168.122.15");
}

#[test]
fn no_inet_line_gives_no_address() {
    assert_eq!(inet_address("3: wlan0: <NO-CARRIER>\n    inet6 fe80::1/64 scope link\n"), "");
    assert_eq!(inet_address(""), "");
    assert_eq!(ipv4_from_ip_output(b""), "");
    // `inet` must be followed by a space.
    assert_eq!(inet_address("    inet\t10.0.0.1/8\n    inet 10.0.0.2/8\n"), "10.0.0.2");
}

#[test]
fn address_without_prefix_length_is_kept_whole() {
    assert_eq!(inet_address("inet 172.16.0.1 peer 172.16.0.2/32\n"), "172.16.0.1");
    assert_eq!(inet_address("  inet /24 x\n"), "");
}

#[test]
fn adapter_listing_lines_are_parsed() {
    let listing = "Ethernet|AA-BB-CC-DD-EE-FF|192.168.1.20\r\nWi-Fi | 11-22-33-44-55-66 | \r\nbad line\r\nLoop|00-00-00-00-00-00|127.0.0.1\r\nVPN||10.8.0.2\r\nX|0A-0B-0C-0D-0E-0F|1.2.3.4|extra\r\n";
    let got = adapters_from_listing(listing);
    let flat: Vec<(String, String, String)> =
        got.into_iter().map(|m| (m.interface, m.mac, m.ip)).collect();
    assert_eq!(
        flat,
        vec![
            ("Ethernet".to_string(), "aa:bb:cc:dd:ee:ff".to_string(), "192.168.1.20".to_string()),
            ("Wi-Fi".to_string(), "11:22:33:44:55:66".to_string(), "".to_string()),
            ("X".to_string(), "0a:0b:0c:0d:0e:0f".to_string(), "1.2.3.4|extra".to_string()),
        ]
    );
}

#[test]
fn adapter_listing_from_raw_output() {
    let got = adapters_from_output(b"Eth|AA-00-00-00-00-01|10.0.0.9\n");
    assert_eq!(got.len(), 1);
    assert_eq!(got[0].mac, "aa:00:00:00:00:01");
    assert_eq!(got[0].interface, "Eth");
    assert!(adapters_from_output(b"").is_empty());
}

#[test]
fn adapter_entry_checks_the_normalised_mac() {
    let e = adapter_entry(" Eth ", "aa:bb:cc:dd:ee:ff".to_string(), " 1.1.1.1 ").unwrap();
    assert_eq!((e.interface.as_str(), e.mac.as_str(), e.ip.as_str()), ("Eth", "aa:bb:cc:dd:ee:ff", "1.1.1.1"));
    assert!(adapter_entry("Eth", "".to_string(), "").is_none());
    assert!(adapter_entry("Eth", "00:00:00:00:00:00".to_string(), "").is_none());
}

#[test]
fn lsof_pids_are_its_words() {
    assert_eq!(pids_from_lsof(b"1234\n5678\n"), vec!["1234", "5678"]);
    assert!(pids_from_lsof(b"").is_empty());
    assert!(pids_from_lsof(b" \n ").is_empty());
    assert_eq!(words_of("  a  b\tc\n"), vec!["a", "b", "c"]);
}

fn probe(name: &str, address: Option<&str>, ip: Option<&str>) -> InterfaceProbe {
    InterfaceProbe {
        name: name.to_string(),
        address_file: address.map(|a| a.to_string()),
        ip_output: ip.map(|i| i.as_bytes().to_vec()),
    }
}

#[test]
fn unix_interface_list_keeps_order_and_filters() {
    let probes = vec![
        probe("lo", Some("00:00:00:00:00:00\n"), Some("    inet 127.0.0.1/8 scope host lo\n")),
        probe("eth0", Some("52:54:00:12:34:56\n"), Some(IP_ADDR_SHOW)),
        probe("dummy0", Some("00:00:00:00:00:00\n"), None),
        probe("wlan0", None, None),
        probe("br0", Some(" 02:42:ac:11:00:01 \n"), None),
        probe("lo", Some("aa:bb:cc:dd:ee:ff\n"), None),
    ];
    let got: Vec<(String, String, String)> = interfaces_from_probes(&probes)
        .into_iter()
        .map(|m| (m.interface, m.mac, m.ip))
        .collect();
    assert_eq!(
        got,
        vec![
            ("eth0".to_string(), "52:54:00:12:34:56".to_string(), "192.168.122.15".to_string()),
            ("br0".to_string(), "02:42:ac:11:00:01".to_string(), "".to_string()),
        ]
    );
    assert!(interfaces_from_probes(&[]).is_empty());
}

#[test]
fn one_probe_at_a_time() {
    let e = interface_entry(&probe("enp3s0", Some("de:ad:be:ef:00:01"), Some("inet 10.0.0.4/24\n"))).unwrap();
    assert_eq!((e.interface.as_str(), e.mac.as_str(), e.ip.as_str()), ("enp3s0", "de:ad:be:ef:00:01", "10.0.0.4"));
    assert!(interface_entry(&probe("lo", Some("de:ad:be:ef:00:01"), None)).is_none());
    assert!(interface_entry(&probe("eth1", None, None)).is_none());
}
