use darkheim_launcher::progress::ProgressCounters;
use darkheim_launcher::server::{minecraft_server, split_server_address, MINECRAFT_SERVER};

#[test]
fn server_address_is_split() {
    assert_eq!(minecraft_server(), ("37.9.13.3".to_string(), 32991));
    assert_eq!(MINECRAFT_SERVER, "37.9.13.3:32991");
}

fn split_like_std(s: &str) -> (String, u16) {
    let mut parts = s.split(':');
    let host = parts.next().unwrap_or("37.9.13.3").to_string();
    let port = parts.next().and_then(|p| p.parse().ok()).unwrap_or(25565);
    (host, port)
}

#[test]
fn server_address_edge_cases() {
    for s in ["host", "host:1", "host:1:2", ":7", "host:", "host:x", "a:+80", "", "h:99999"] {
        assert_eq!(split_server_address(s), split_like_std(s), "input {:?}", s);
    }
}

#[test]
fn counters_start_at_zero_and_accumulate() {
    let mut c = ProgressCounters::new();
    assert_eq!(c.get(), (0, 0));
    c.add_total(100);
    c.add_downloaded(30);
    c.add_downloaded(20);
    c.add_total(5);
    assert_eq!(c.get(), (50, 105));
}

#[test]
fn counters_wrap_like_atomics() {
    let mut c = ProgressCounters::new();
    c.add_total(u64::MAX);
    c.add_total(2);
    assert_eq!(c.get(), (0, 1));
}

#[test]
fn counter_additions_commute() {
    let mut a = ProgressCounters::new();
    let mut b = ProgressCounters::new();
    a.add_total(u64::MAX - 3);
    a.add_total(10);
    b.add_total(10);
    b.add_total(u64::MAX - 3);
    assert_eq!(a.get(), b.get());
}

#[test]
fn counters_only_grow() {
    let mut c = ProgressCounters::new();
    let mut last = c.get();
    for d in [0u64, 5, 1 << 40, 3] {
        c.add_downloaded(d);
        c.add_total(d * 2);
        let now = c.get();
        assert!(now.0 >= last.0 && now.1 >= last.1);
        last = now;
    }
}
