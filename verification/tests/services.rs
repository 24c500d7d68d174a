use storage_daemon::harness::Runner;
use storage_daemon::named_map::NamedMap;
use storage_daemon::services::block::{Block, BlockError};
use storage_daemon::services::network::{InterfaceReading, Network, NetworkError};
use storage_daemon::services::pool::{Pool, PoolError};
use storage_daemon::services::system::System;
use storage_daemon::services::user::User;
use storage_daemon::services::volume::{SambaReload, Volume};
use storage_daemon::text::trim_str;

const LSBLK: &str = r#"{"blockdevices": [
  {"name": "sda", "size": "10G", "type": "disk", "model": "QEMU HARDDISK", "mountpoint": null},
  {"name": "sdb", "size": "20G", "type": "disk", "model": null, "mountpoint": "/"},
  {"name": "sr0", "size": "1G", "type": "rom", "model": "DVD", "mountpoint": null},
  {"size": "5G", "type": "disk"},
  {"name": "vdb", "size": 7, "type": "disk"}
]}"#;

#[test]
fn block_list_shows_every_named_device() {
    let m = Block::list_devices(LSBLK.as_bytes()).unwrap();
    let names: Vec<&str> = m.entries().iter().map(|(n, _)| n.as_str()).collect();
    assert_eq!(names, vec!["sda", "sdb", "sr0", "vdb"]);
    let sda = m.get("sda").unwrap();
    assert_eq!(sda.size.as_deref(), Some("10G"));
    assert_eq!(sda.dtype.as_deref(), Some("disk"));
    assert_eq!(sda.model.as_deref(), Some("QEMU HARDDISK"));
    assert_eq!(sda.mountpoint, None);
    assert_eq!(m.get("sdb").unwrap().mountpoint.as_deref(), Some("/"));
    assert_eq!(m.get("sr0").unwrap().dtype.as_deref(), Some("rom"));
    let vdb = m.get("vdb").unwrap();
    assert_eq!(vdb.size, None);
    let rom_only = br#"{"blockdevices": [{"name": "sr0", "type": "rom"}]}"#;
    assert_eq!(Block::list_devices(rom_only).unwrap().len(), 1);
}

#[test]
fn block_list_errors() {
    assert!(matches!(Block::list_devices(b"not json"), Err(BlockError::InvalidJson(_))));
    assert!(matches!(Block::list_devices(br#"{"devices": []}"#), Err(BlockError::UnexpectedOutput)));
    assert_eq!(Block::list_devices(br#"{"blockdevices": []}"#).unwrap().len(), 0);
}

#[test]
fn block_info_takes_first_device() {
    let d = Block::device_info(LSBLK.as_bytes()).unwrap();
    assert_eq!(d.size.as_deref(), Some("10G"));
    assert!(matches!(Block::device_info(br#"{"blockdevices": []}"#), Err(BlockError::NotFound)));
    assert!(matches!(Block::device_info(br#"{"x": 1}"#), Err(BlockError::NotFound)));
    assert!(matches!(Block::device_info(br#"{"blockdevices": [{"size": "1G"}]}"#), Err(BlockError::Unparsable)));
    assert!(matches!(Block::device_info(b"{"), Err(BlockError::InvalidJson(_))));
    assert_eq!(BlockError::NotFound.message("sdz").as_deref(), Some("device 'sdz' not found"));
    assert_eq!(BlockError::Unparsable.message("sdz").as_deref(), Some("failed to parse device 'sdz'"));
    assert_eq!(BlockError::UnexpectedOutput.message("").as_deref(), Some("unexpected lsblk output"));
    match Block::device_info(b"{") {
        Err(json_error) => assert_eq!(json_error.message("sdz"), None),
        Ok(_) => panic!("expected a JSON error"),
    }
}

#[test]
fn block_lsblk_arguments() {
    assert_eq!(Block::list_args(), vec!["-d", "-o", "NAME,SIZE,TYPE,MODEL,MOUNTPOINT", "-J"]);
    assert_eq!(Block::info_args("sda"), vec!["-o", "NAME,SIZE,TYPE,MODEL,MOUNTPOINT", "/dev/sda", "-J"]);
}

const IP_ADDR: &str = "2: eth0: <BROADCAST,MULTICAST,UP,LOWER_UP> mtu 1500 qdisc fq_codel state UP
    link/ether 52:54:00:12:34:56 brd ff:ff:ff:ff:ff:ff
    inet 10.0.0.1/24 brd 10.0.0.255 scope global eth0
       valid_lft forever preferred_lft forever
    inet 10.0.0.2/24 scope global secondary eth0
    inet6 fe80::5054:ff:fe12:3456/64 scope link
    inet6 2001:db8::1/64 scope global
    inet6 2001:db8::2/64 scope global
";

const NET_DEV: &str = "Inter-|   Receive                                                |  Transmit
 face |bytes    packets errs drop fifo frame compressed multicast|bytes    packets errs drop fifo colls carrier compressed
    lo:   1000      10    0    0    0     0          0         0     1000      10    0    0    0     0       0          0
  eth0: 123456     789    0    0    0     0          0         0    65432     321    0    0    0     0       0          0
  wlan0: x 5 0 0 0 0 0 0 77 8 0 0 0 0 0 0
";

#[test]
fn network_addresses() {
    let (v4, v6) = Network::parse_addresses(IP_ADDR);
    assert_eq!(v4, "10.0.0.1/24");
    assert_eq!(v6, "2001:db8::1/64");
    assert_eq!(Network::parse_addresses("inet6 fe80::1/64\n"), (String::new(), String::new()));
    assert_eq!(Network::parse_addresses("inet\ninet 1.2.3.4/8\n"), ("1.2.3.4/8".to_string(), String::new()));
}

#[test]
fn network_stats() {
    assert_eq!(Network::read_interface_stats(NET_DEV, "eth0"), (123456, 65432));
    assert_eq!(Network::read_interface_stats(NET_DEV, "wlan0"), (0, 77));
    assert_eq!(Network::read_interface_stats(NET_DEV, "eth1"), (0, 0));
    assert_eq!(Network::read_interface_stats("eth0: 1 2 3 4 5 6 7 8 9 10 11\n", "eth0"), (0, 0));
}

#[test]
fn network_stats_agree_with_traffic_table() {
    let table = System::parse_net_dev(NET_DEV);
    for name in ["eth0", "wlan0"] {
        let t = table.get(name).unwrap();
        assert_eq!(Network::read_interface_stats(NET_DEV, name), (t.rx_bytes, t.tx_bytes));
    }
    assert!(table.get("eth9").is_none());
    assert_eq!(Network::read_interface_stats(NET_DEV, "eth9"), (0, 0));
}

#[test]
fn network_interface_report() {
    let info = Network::interface_info("eth0", "up\n", "52:54:00:12:34:56\n", Some(IP_ADDR), NET_DEV);
    assert_eq!(info.state, "UP");
    assert_eq!(info.mac, "52:54:00:12:34:56");
    assert_eq!(info.ipv4, "10.0.0.1/24");
    assert_eq!(info.ipv6, "2001:db8::1/64");
    assert_eq!((info.rx_bytes, info.tx_bytes), (123456, 65432));
    let none = Network::interface_info("eth9", "", "", None, "");
    assert_eq!((none.state.as_str(), none.ipv4.as_str(), none.rx_bytes), ("", "", 0));
    assert!(Network::is_loopback_name("lo"));
    assert!(!Network::is_loopback_name("lo0"));
}

#[test]
fn network_find_and_setip() {
    let mut all = NamedMap::new();
    all.insert("eth0".to_string(), Network::interface_info("eth0", "down", "", None, NET_DEV));
    let found = Network::find_interface(all, "eth0").unwrap();
    assert_eq!(found.state, "DOWN");
    let mut all = NamedMap::new();
    all.insert("eth0".to_string(), Network::interface_info("eth0", "down", "", None, NET_DEV));
    assert!(matches!(Network::find_interface(all, "eth1"), Err(NetworkError::NotFound)));
    assert_eq!(NetworkError::NotFound.message("eth1"), "interface 'eth1' not found");
    assert_eq!(Network::flush_args("eth0"), vec!["addr", "flush", "dev", "eth0"]);
    assert_eq!(Network::add_address_args("eth0", "192.168.1.1/24"), vec!["addr", "add", "192.168.1.1/24", "dev", "eth0"]);
    let msg = Network::setip_message("eth0", "192.168.1.1/24");
    assert_eq!(msg, "Set 192.168.1.1/24 on interface 'eth0'");
    assert!(msg.contains("192.168.1.1") && msg.contains("eth0"));
}

fn reading(name: &str, state: &str, ip: Option<&str>) -> InterfaceReading {
    InterfaceReading {
        name: name.to_string(),
        operstate: state.to_string(),
        address: String::new(),
        ip_output: ip.map(str::to_string),
        net_dev: NET_DEV.to_string(),
    }
}

#[test]
fn network_list_skips_loopback() {
    let readings = vec![
        reading("lo", "unknown", None),
        reading("wlan0", "dormant", None),
        reading("eth0", "up", Some(IP_ADDR)),
    ];
    let m = Network::list_interfaces(&readings);
    let names: Vec<&str> = m.entries().iter().map(|(n, _)| n.as_str()).collect();
    assert_eq!(names, vec!["eth0", "wlan0"]);
    let eth0 = m.get("eth0").unwrap();
    assert_eq!((eth0.state.as_str(), eth0.ipv4.as_str(), eth0.rx_bytes), ("UP", "10.0.0.1/24", 123456));
    let wlan0 = m.get("wlan0").unwrap();
    assert_eq!((wlan0.state.as_str(), wlan0.rx_bytes, wlan0.tx_bytes), ("DORMANT", 0, 77));
    assert!(m.get("lo").is_none());
}

#[test]
fn pool_create_rejects_invalid_raid() {
    assert_eq!(Pool::check_create("stripe", 2), Err(PoolError::InvalidRaidType));
    assert_eq!(Pool::check_create("", 9), Err(PoolError::InvalidRaidType));
}

#[test]
fn pool_create_needs_enough_devices() {
    assert_eq!(Pool::check_create("mirror", 1), Err(PoolError::TooFewDevices { required: 2, got: 1 }));
    assert_eq!(Pool::check_create("raidz2", 2), Err(PoolError::TooFewDevices { required: 3, got: 2 }));
    assert_eq!(Pool::check_create("raidz3", 3), Err(PoolError::TooFewDevices { required: 4, got: 3 }));
    assert_eq!(Pool::check_create("raidz", 2), Ok(()));
    assert_eq!(Pool::check_create("raidz3", 4), Ok(()));
}

#[test]
fn pool_create_error_texts() {
    let invalid = Pool::check_create("stripe", 2).unwrap_err();
    assert_eq!(invalid.message("stripe"), "invalid raid type 'stripe' (expected: mirror, raidz, raidz2, raidz3)");
    assert!(invalid.message("stripe").contains("invalid"));
    let few = Pool::check_create("mirror", 1).unwrap_err();
    assert_eq!(few.message("mirror"), "mirror requires at least 2 devices, got 1");
    assert!(few.message("mirror").contains("at least"));
    let none = Pool::check_create("raidz3", 0).unwrap_err();
    assert_eq!(none.message("raidz3"), "raidz3 requires at least 4 devices, got 0");
    let big = PoolError::TooFewDevices { required: 10, got: 1234567 };
    assert_eq!(big.message("x"), "x requires at least 10 devices, got 1234567");
}

#[test]
fn pool_create_arguments() {
    let devs = vec!["vdb".to_string(), "vdc".to_string()];
    assert_eq!(Pool::create_args("tank", "mirror", &devs), vec!["create", "-f", "tank", "mirror", "/dev/vdb", "/dev/vdc"]);
}

#[test]
fn pool_list_parses_tab_columns() {
    let out = "tank\t9.50G\t1.2M\t9.50G\t0%\t0%\t1.00x\tONLINE\t-\nshort\t1\t2\n";
    let m = Pool::parse_pool_list(out);
    assert_eq!(m.len(), 1);
    let t = m.get("tank").unwrap();
    assert_eq!((t.size.as_str(), t.cap.as_str(), t.health.as_str()), ("9.50G", "0%", "ONLINE"));
}

#[test]
fn system_cores_and_cpu() {
    assert_eq!(System::count_cores("processor\t: 0\nmodel\nprocessor\t: 1\n"), 2);
    assert_eq!(System::count_cores(""), 1);
    assert_eq!(System::cpu_counters("cpu  10 0 20 70 x 0\ncpu0 1 2 3 4\n"), Some((100, 70)));
    assert_eq!(System::cpu_counters("cpu  1 2 3\n"), None);
    assert_eq!(System::cpu_counters("cpu0 1 2 3 4\n"), None);
}

#[test]
fn system_memory() {
    let m = System::parse_meminfo("MemTotal:  2048000 kB\nMemFree:  1024000 kB\nMemAvailable: 1536000 kB\n");
    assert_eq!((m.total_kb, m.used_kb, m.available_kb), (2048000, 512000, 1536000));
    assert_eq!((m.total_mb, m.used_mb, m.free_mb, m.available_mb), (2000, 500, 1000, 1500));
    let m = System::parse_meminfo("MemTotal: 1000\nMemFree: 100\nBuffers: 200\nCached: 300\nbad\n");
    assert_eq!((m.available_kb, m.used_kb), (600, 400));
    let m = System::parse_meminfo("MemTotal: 10\nMemAvailable: 20\n");
    assert_eq!(m.used_kb, 0);
}

#[test]
fn system_network_skips_loopback() {
    let m = System::parse_net_dev(NET_DEV);
    let names: Vec<&str> = m.entries().iter().map(|(n, _)| n.as_str()).collect();
    assert_eq!(names, vec!["eth0", "wlan0"]);
    let e = m.get("eth0").unwrap();
    assert_eq!((e.rx_bytes, e.rx_packets, e.tx_bytes, e.tx_packets), (123456, 789, 65432, 321));
    assert_eq!(m.get("wlan0").unwrap().rx_bytes, 0);
    assert_eq!(System::parse_net_dev("a\nb\n").len(), 0);
}

#[test]
fn system_disks() {
    let out = "Mounted on 1M-blocks Used Avail Use%\n/ 20000 5000 15000 25%\ntmpfs 100 0 100 0%\n/boot 500 100 400 20%\nshort 1\n";
    let v = System::parse_df(out);
    assert_eq!(v.len(), 2);
    assert_eq!((v[0].mountpoint.as_str(), v[0].total_mb, v[0].used_mb, v[0].free_mb, v[0].usage.as_str()), ("/", 20000, 5000, 15000, "25"));
    assert_eq!(v[1].mountpoint, "/boot");
    assert_eq!(System::parse_df("").len(), 0);
}

#[test]
fn system_hostname_and_uptime() {
    assert_eq!(System::hostname_file("nas"), "nas\n");
    assert_eq!(trim_str(&System::hostname_file("nas")), "nas");
    assert_eq!(System::hostname_message("nas"), "Hostname set to 'nas'");
    assert_eq!(System::first_word("12345.67 54321.00\n"), Some("12345.67".to_string()));
    assert_eq!(System::first_word("  \n"), None);
}

#[test]
fn users_are_root_and_regular() {
    let passwd = "root:x:0:0:root:/root:/bin/bash\ndaemon:x:1:1:daemon:/usr/sbin:/usr/sbin/nologin\nalice:x:1000:1000:Alice,,,:/home/alice:/bin/bash\nbroken:x:abc:1:b:/b\nshort:x:1001\n";
    let m = User::parse_passwd(passwd);
    let names: Vec<&str> = m.entries().iter().map(|(n, _)| n.as_str()).collect();
    assert_eq!(names, vec!["alice", "root"]);
    let a = m.get("alice").unwrap();
    assert_eq!((a.uid, a.gid, a.comment.as_str(), a.home.as_str()), (1000, 1000, "Alice,,,", "/home/alice"));
}

#[test]
fn user_commands() {
    assert_eq!(User::useradd_args("bob", ""), vec!["-m", "bob"]);
    assert_eq!(User::useradd_args("bob", "Bob B"), vec!["-m", "-c", "Bob B", "bob"]);
    assert_eq!(User::chpasswd_input("bob", "pw"), "bob:pw\n");
    assert_eq!(User::chpasswd_input("bob", "x'\\''y $(id)"), "bob:x'\\''y $(id)\n");
    assert_eq!(User::userdel_args("bob"), vec!["-r", "bob"]);
}

#[test]
fn volume_list_skips_pools() {
    let out = "tank\t1M\t9G\t96K\t/tank\ntank/myvol\t96K\t9G\t96K\t/mnt/pools/tank/myvol\nbad\t1\n";
    let m = Volume::parse_volume_list(out);
    assert_eq!(m.len(), 1);
    assert_eq!(m.get("tank/myvol").unwrap().mountpoint, "/mnt/pools/tank/myvol");
}

#[test]
fn volume_paths_and_names() {
    assert_eq!(Volume::volume_mountpoint("myvol", "tank"), "/mnt/pools/tank/myvol");
    assert_eq!(Volume::create_args("myvol", "tank"), vec!["create", "-o", "mountpoint=/mnt/pools/tank/myvol", "tank/myvol"]);
    assert_eq!(Volume::share_name_of("tank/myvol"), "myvol");
    assert_eq!(Volume::share_name_of("tank/a/b"), "b");
    assert_eq!(Volume::share_name_of("plain"), "plain");
    assert_eq!(Volume::share_name_of("tank/"), "");
}

#[test]
fn samba_share_add_and_remove() {
    let conf = "[global]\n   workgroup = WG\n";
    let added = Volume::add_share(conf, "myvol", "/mnt/pools/tank/myvol").unwrap();
    assert!(added.starts_with(conf));
    assert!(added.contains("\n[myvol]\n   path = /mnt/pools/tank/myvol\n   browseable = yes\n"));
    assert!(added.ends_with("   directory mask = 0775\n"));
    assert_eq!(Volume::add_share(&added, "myvol", "/elsewhere"), None);
    let removed = Volume::remove_share(&added, "myvol");
    assert_eq!(removed, "[global]\n   workgroup = WG\n\n");
    let two = "[a]\nx=1\n  [b]  \ny=2\n[c]\nz=3";
    assert_eq!(Volume::remove_share(two, "b"), "[a]\nx=1\n[c]\nz=3\n");
}

#[test]
fn samba_share_removed_twice_is_removed_once() {
    let conf = "[global]\n   workgroup = WG\n[myvol]\n   path = /mnt/x\n[other]\n   path = /mnt/y\n";
    let once = Volume::remove_share(conf, "myvol");
    assert_eq!(once, "[global]\n   workgroup = WG\n[other]\n   path = /mnt/y\n");
    assert_eq!(Volume::remove_share(&once, "myvol"), once);
}

#[test]
fn samba_reload_command() {
    match Volume::reload_command(Some(" 4242\n")) {
        SambaReload::Hangup(a) => assert_eq!(a, vec!["-HUP", "4242"]),
        SambaReload::Control(_) => panic!("expected a hang-up"),
    }
    match Volume::reload_command(Some("-7")) {
        SambaReload::Hangup(a) => assert_eq!(a, vec!["-HUP", "-7"]),
        SambaReload::Control(_) => panic!("expected a hang-up"),
    }
    for pid_file in [None, Some("none"), Some("")] {
        match Volume::reload_command(pid_file) {
            SambaReload::Control(a) => assert_eq!(a, vec!["all", "reload-config"]),
            SambaReload::Hangup(_) => panic!("expected a reload request"),
        }
    }
}

fn non_empty_lines(s: &str) -> Vec<String> {
    s.lines().filter(|l| !l.is_empty()).map(String::from).collect()
}

#[test]
fn samba_share_removed_after_adding() {
    for conf in ["[global]\n   workgroup = WG\n", "[global]\n   workgroup = WG", "", "[a]\n\n  x = 1\n[b]\n"] {
        let added = Volume::add_share(conf, "myvol", "/mnt/pools/tank/myvol").unwrap();
        let removed = Volume::remove_share(&added, "myvol");
        assert_eq!(non_empty_lines(&removed), non_empty_lines(conf), "conf {:?}", conf);
    }
    let added = Volume::add_share("x\n", "v", "/p\nmore").unwrap();
    assert_eq!(non_empty_lines(&Volume::remove_share(&added, "v")), vec!["x"]);
}

#[test]
fn samba_pid_file() {
    assert_eq!(Volume::parse_pid(" 4242\n"), Some(4242));
    assert_eq!(Volume::parse_pid("none"), None);
}

#[test]
fn runner_counts_checks() {
    let mut r = Runner::new();
    assert_eq!(r.check("one", Ok(())), "  PASS  one");
    assert_eq!(r.check("two", Err("boom".to_string())), "  FAIL  two — boom");
    assert_eq!((r.passed(), r.failed()), (1, 1));
    assert_eq!(r.totals(), "1 passed, 1 failed");
    assert_eq!(r.summary(), 1);
    let mut ok = Runner::new();
    ok.check("x", Ok(()));
    assert_eq!(ok.summary(), 0);
}
