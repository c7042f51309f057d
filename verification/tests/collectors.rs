use netwatch::collectors::traceroute::{
    output_result, parse_traceroute_output, spawn_error, subprocess_result, ProbeReply,
    QueuedError, Rtt, SpawnFailure, Trace, TraceStep, TracerouteResult, TracerouteStatus,
    BASE_PORT, MAX_HOPS, PROBES,
};
use netwatch::collectors::traffic::{
    after_update, byte_deltas, is_due, push_sample, tick, InterfaceStats, InterfaceTraffic,
    Reading, Sampled, SPARKLINE_HISTORY,
};
use netwatch::ebpf::EbpfStatus;
use std::collections::VecDeque;

#[test]
fn test_parse_traceroute_basic() {
    let output = "\
traceroute to 8.8.8.8 (8.8.8.8), 30 hops max, 60 byte packets
 1  192.168.1.1  1.234 ms  1.456 ms  1.789 ms
 2  10.0.0.1  5.123 ms  5.456 ms  5.789 ms
 3  * * *
 4  8.8.8.8  12.345 ms  12.456 ms  12.789 ms
";
    let hops = parse_traceroute_output(output);
    assert_eq!(hops.len(), 4);
    assert_eq!(hops[0].hop_number, 1);
    assert_eq!(hops[0].ip.as_deref(), Some("192.168.1.1"));
    assert_eq!(hops[2].ip, None);
    assert!(hops[2].rtt_ms.iter().all(|r| r.is_none()));
    assert_eq!(hops[3].ip.as_deref(), Some("8.8.8.8"));
}

#[test]
fn test_parse_traceroute_partial_stars() {
    let output = "\
traceroute to 1.1.1.1 (1.1.1.1), 30 hops max
 1  192.168.1.1  1.0 ms  *  1.5 ms
";
    let hops = parse_traceroute_output(output);
    assert_eq!(hops.len(), 1);
    assert_eq!(hops[0].rtt_ms.len(), 3);
    assert!(hops[0].rtt_ms[0].is_some());
    assert!(hops[0].rtt_ms[1].is_none());
    assert!(hops[0].rtt_ms[2].is_some());
}

fn printed(rtts: &[Option<Rtt>]) -> Vec<Option<String>> {
    rtts.iter()
        .map(|r| match r {
            Some(Rtt::Printed(s)) => Some(s.clone()),
            Some(Rtt::Measured(ns)) => panic!("measured {}", ns),
            None => None,
        })
        .collect()
}

#[test]
fn printed_times_keep_their_text() {
    let hops = parse_traceroute_output("1 10.0.0.1 1.50 ms 2 ms * 3e0\r\n");
    assert_eq!(hops.len(), 1);
    assert_eq!(hops[0].ip.as_deref(), Some("10.0.0.1"));
    assert_eq!(
        printed(&hops[0].rtt_ms),
        vec![
            Some("1.50".to_string()),
            Some("2".to_string()),
            None,
            Some("3e0".to_string())
        ]
    );
    let times: Vec<f64> = printed(&hops[0].rtt_ms)
        .into_iter()
        .flatten()
        .map(|s| s.parse().unwrap())
        .collect();
    assert_eq!(times, vec![1.5, 2.0, 3.0]);
}

#[test]
fn host_names_and_addresses_in_parentheses() {
    let hops = parse_traceroute_output("2 gateway (192.168.0.1) 1 ms\n3 r1.isp (10.1.1.1) 2 ms\n");
    assert_eq!(hops[0].host.as_deref(), Some("gateway"));
    assert_eq!(hops[0].ip.as_deref(), Some("192.168.0.1"));
    // A host name with a dot is taken for the address until one in
    // parentheses follows.
    assert_eq!(hops[1].host, None);
    assert_eq!(hops[1].ip.as_deref(), Some("10.1.1.1"));
    let hops = parse_traceroute_output("4 fe80::1 ((::1)) x (no\n");
    assert_eq!(hops[0].ip.as_deref(), Some("::1"));
    assert_eq!(hops[0].host, None);
}

#[test]
fn lines_that_are_no_hops() {
    for line in ["", "   ", "7", "256 10.0.0.1 1 ms", "x 10.0.0.1", "-1 10.0.0.1", "1.5 a"] {
        assert!(parse_traceroute_output(line).is_empty(), "{}", line);
    }
    let hops = parse_traceroute_output("+5 a\n255 *\n007 b");
    let numbers: Vec<u8> = hops.iter().map(|h| h.hop_number).collect();
    assert_eq!(numbers, vec![5, 255, 7]);
    assert_eq!(hops[1].rtt_ms.len(), 3);
}

#[test]
fn lines_stand_for_themselves() {
    let a = "header\n1 10.0.0.1 1 ms";
    let b = "2 * * *\n\n3 gw 2 ms";
    let both = parse_traceroute_output(&format!("{}\n{}", a, b));
    let mut numbers: Vec<u8> = parse_traceroute_output(a).iter().map(|h| h.hop_number).collect();
    numbers.extend(parse_traceroute_output(b).iter().map(|h| h.hop_number));
    assert_eq!(both.iter().map(|h| h.hop_number).collect::<Vec<u8>>(), numbers);
    assert_eq!(numbers, vec![1, 2, 3]);
}

#[test]
fn process_results() {
    let ok = output_result(true, "1 10.0.0.1 1 ms\n", "ignored").unwrap();
    assert_eq!(ok.len(), 1);
    let err = output_result(false, "1 10.0.0.1 1 ms\n", "  no route \n").unwrap_err();
    assert_eq!(err, "no route");
    let ok = output_result(false, "1 10.0.0.1 1 ms\n", " \n").unwrap();
    assert_eq!(ok.len(), 1);
}

#[test]
fn process_output_need_not_be_utf8() {
    let ok = subprocess_result(true, b"1 10.0.0.1 1 ms\n\xff\n2 h\xc3\xa9 *\n", b"").unwrap();
    assert_eq!(ok.len(), 2);
    assert_eq!(ok[1].host.as_deref(), Some("h\u{e9}"));
    let err = subprocess_result(false, b"", b"bad \xff\n").unwrap_err();
    assert_eq!(err, "bad \u{fffd}");
}

#[test]
fn spawn_errors_say_how_to_install() {
    assert_eq!(
        spawn_error("traceroute", &SpawnFailure::NotFound),
        "`traceroute` not installed \u{2014} install with `sudo apt install traceroute` (Debian/Ubuntu), `sudo dnf install traceroute` (Fedora), or `brew install traceroute` (macOS)"
    );
    assert_eq!(
        spawn_error("tracert", &SpawnFailure::NotFound),
        "`tracert` not installed \u{2014} tracert ships with Windows; PATH or %SystemRoot%\\System32 may be misconfigured"
    );
    assert_eq!(
        spawn_error("mtr", &SpawnFailure::NotFound),
        "`mtr` not installed \u{2014} binary not found on PATH"
    );
    assert_eq!(
        spawn_error("mtr", &SpawnFailure::Other("denied".to_string())),
        "Failed to run mtr: denied"
    );
}

#[test]
fn one_run_at_a_time() {
    let mut r = TracerouteResult::new();
    assert_eq!(r.status, TracerouteStatus::Idle);
    assert!(r.begin("a"));
    assert!(!r.begin("b"));
    assert_eq!(r.target, "a");
    assert_eq!(r.status, TracerouteStatus::Running);
    r.finish(Ok(parse_traceroute_output("1 *\n")));
    assert_eq!(r.status, TracerouteStatus::Done);
    assert_eq!(r.hops.len(), 1);
    assert!(r.begin("b"));
    assert_eq!(r.target, "b");
    assert!(r.hops.is_empty());
    r.finish(Err("failed".to_string()));
    assert_eq!(r.status, TracerouteStatus::Error("failed".to_string()));
    assert_eq!(r.target, "b");
    r.clear();
    assert_eq!(r.target, "");
    assert_eq!(r.status, TracerouteStatus::Idle);
}

fn error(kind: u8, code: u8, source: Option<(u8, u8, u8, u8)>) -> QueuedError {
    QueuedError {
        origin: 2,
        kind,
        code,
        source,
    }
}

fn errors(queue: Vec<QueuedError>) -> ProbeReply {
    ProbeReply::Errors {
        elapsed_ns: 1_500_000,
        queue,
    }
}

#[test]
fn silent_traces_try_every_hop() {
    let mut trace = Trace::start();
    let mut ports = Vec::new();
    let mut changes = Vec::new();
    loop {
        match trace.step() {
            TraceStep::Stop => break,
            TraceStep::Probe { ttl, port, first } => {
                ports.push(port);
                if first {
                    changes.push(ttl);
                }
            }
        }
        trace = trace.record(&ProbeReply::Silence);
    }
    assert_eq!(ports.len(), MAX_HOPS as usize * PROBES);
    assert_eq!(ports[0], BASE_PORT + 3);
    for pair in ports.windows(2) {
        assert_eq!(pair[1], pair[0] + 1);
    }
    assert_eq!(changes, (1..=30).collect::<Vec<u8>>());
    // A trace that is over takes nothing in.
    let trace = trace.record(&errors(vec![error(3, 3, Some((1, 2, 3, 4)))]));
    let hops = trace.into_hops();
    assert_eq!(hops.len(), 30);
    assert!(hops.iter().all(|h| h.ip.is_none() && h.rtt_ms.len() == 3));
}

#[test]
fn traces_stop_at_the_target() {
    let router = errors(vec![error(11, 0, Some((10, 0, 0, 1)))]);
    let other = errors(vec![error(11, 0, Some((10, 0, 0, 2)))]);
    let target = errors(vec![error(3, 3, Some((8, 8, 8, 8)))]);
    let mut trace = Trace::start();
    for reply in [&router, &other, &ProbeReply::Silence, &ProbeReply::Silence, &target] {
        assert!(trace.step() != TraceStep::Stop);
        trace = trace.record(reply);
    }
    assert!(trace.step() != TraceStep::Stop);
    trace = trace.record(&other);
    assert_eq!(trace.step(), TraceStep::Stop);
    let hops = trace.into_hops();
    assert_eq!(hops.len(), 2);
    assert_eq!(hops[0].hop_number, 1);
    assert_eq!(hops[0].ip.as_deref(), Some("10.0.0.1"));
    assert_eq!(hops[1].hop_number, 2);
    assert_eq!(hops[1].ip.as_deref(), Some("8.8.8.8"));
    assert!(hops[1].rtt_ms[0].is_none());
    assert!(matches!(hops[1].rtt_ms[1], Some(Rtt::Measured(1_500_000))));
}

#[test]
fn only_icmp_answers_count() {
    let local = QueuedError {
        origin: 1,
        kind: 3,
        code: 3,
        source: Some((127, 0, 0, 1)),
    };
    let unreachable_net = error(3, 0, Some((192, 168, 100, 255)));
    let nameless = error(11, 0, None);
    let mut trace = Trace::start();
    trace = trace.record(&errors(vec![local.clone()]));
    trace = trace.record(&errors(vec![local.clone(), nameless, unreachable_net.clone()]));
    trace = trace.record(&errors(vec![unreachable_net]));
    assert!(trace.step() != TraceStep::Stop);
    let hops = trace.into_hops();
    assert_eq!(hops.len(), 1);
    assert_eq!(hops[0].ip.as_deref(), Some("192.168.100.255"));
    assert!(hops[0].rtt_ms[0].is_none());
    assert!(hops[0].rtt_ms[1].is_some());
    assert!(hops[0].rtt_ms[2].is_none());
}

fn stats(name: &str, rx: u64, tx: u64) -> InterfaceStats {
    InterfaceStats {
        name: name.to_string(),
        rx_bytes: rx,
        tx_bytes: tx,
        rx_packets: 1,
        tx_packets: 2,
        rx_errors: 3,
        tx_errors: 4,
        rx_drops: 5,
        tx_drops: 6,
    }
}

fn reading(name: &str, rx_sample: u64, tx_sample: u64) -> Reading {
    Reading {
        stats: stats(name, 1000, 2000),
        rx_rate_bits: (rx_sample as f64).to_bits(),
        tx_rate_bits: (tx_sample as f64).to_bits(),
        rx_sample,
        tx_sample,
    }
}

#[test]
fn counters_grow_or_were_reset() {
    let before = [stats("eth0", 100, 50), stats("lo", 7, 7)];
    assert_eq!(byte_deltas(&before, &stats("eth0", 150, 50)), Some((50, 0)));
    assert_eq!(byte_deltas(&before, &stats("lo", 6, u64::MAX)), Some((0, u64::MAX - 7)));
    assert_eq!(byte_deltas(&before, &stats("wlan0", 1, 1)), None);
    assert_eq!(byte_deltas(&[], &stats("lo", 1, 1)), None);
}

#[test]
fn ticks_keep_their_distance() {
    for ns in [0u64, 1, 9_999_999, 10_000_000, 10_000_001, u64::MAX] {
        let elapsed = std::time::Duration::from_nanos(ns).as_secs_f64();
        assert_eq!(is_due(ns), !(elapsed < 0.01));
    }
}

#[test]
fn ticks_carry_histories_on() {
    let first = tick(&[], &[reading("wlan0", 1, 2), reading("eth0", 3, 4)]);
    let names: Vec<&str> = first.iter().map(|i| i.name.as_str()).collect();
    assert_eq!(names, vec!["eth0", "wlan0"]);
    let second = tick(&first, &[reading("lo", 9, 9), reading("eth0", 5, 6)]);
    let names: Vec<&str> = second.iter().map(|i| i.name.as_str()).collect();
    assert_eq!(names, vec!["eth0", "lo"]);
    assert_eq!(second[0].rx_history, VecDeque::from(vec![3, 5]));
    assert_eq!(second[0].tx_history, VecDeque::from(vec![4, 6]));
    assert_eq!(second[1].rx_history, VecDeque::from(vec![9]));
    assert_eq!(f64::from_bits(second[0].rx_rate_bits), 5.0);
    assert_eq!(f64::from_bits(second[0].tx_rate_bits), 6.0);
    let i = &second[0];
    assert_eq!((i.rx_bytes_total, i.tx_bytes_total), (1000, 2000));
    assert_eq!((i.rx_packets, i.tx_packets), (1, 2));
    assert_eq!((i.rx_errors, i.tx_errors), (3, 4));
    assert_eq!((i.rx_drops, i.tx_drops), (5, 6));
}

#[test]
fn the_order_of_readings_does_not_matter() {
    let names = ["b", "aa", "a", "\u{e9}", "z", ""];
    let readings: Vec<Reading> = names.iter().map(|n| reading(n, 1, 1)).collect();
    let reversed: Vec<Reading> = names.iter().rev().map(|n| reading(n, 1, 1)).collect();
    let order = |list: &[InterfaceTraffic]| -> Vec<String> {
        list.iter().map(|i| i.name.clone()).collect()
    };
    let a = tick(&[], &readings);
    let b = tick(&[], &reversed);
    assert_eq!(order(&a), order(&b));
    let mut sorted: Vec<String> = names.iter().map(|n| n.to_string()).collect();
    sorted.sort();
    assert_eq!(order(&a), sorted);
}

#[test]
fn updates_take_a_sample_or_change_nothing() {
    let start = Sampled::new(1_000, vec![stats("eth0", 400, 900)]);
    assert_eq!((start.taken_ns, start.stats.len(), start.shown.len()), (1_000, 1, 0));
    assert_eq!(start.elapsed_ns(5_000), 4_000);
    assert_eq!(start.elapsed_ns(500), 0);

    // Too early: the reading does not count.
    let (state, taken) = after_update(start, 10_000_999, Some(vec![reading("eth0", 1, 1)]));
    assert!(!taken);
    assert_eq!((state.taken_ns, state.stats[0].rx_bytes, state.shown.len()), (1_000, 400, 0));

    // Due, but nothing could be read.
    let (state, taken) = after_update(state, 20_000_000, None);
    assert!(!taken);
    assert_eq!((state.taken_ns, state.stats[0].rx_bytes, state.shown.len()), (1_000, 400, 0));

    // Due, from the very nanosecond on.
    let (state, taken) = after_update(
        state,
        10_001_000,
        Some(vec![reading("wlan0", 3, 4), reading("eth0", 1, 2)]),
    );
    assert!(taken);
    assert_eq!(state.taken_ns, 10_001_000);
    let recorded: Vec<&str> = state.stats.iter().map(|s| s.name.as_str()).collect();
    assert_eq!(recorded, vec!["wlan0", "eth0"]);
    assert_eq!((state.stats[1].rx_bytes, state.stats[1].tx_bytes), (1000, 2000));
    assert_eq!((state.stats[1].rx_drops, state.stats[1].tx_drops), (5, 6));
    let shown: Vec<&str> = state.shown.iter().map(|i| i.name.as_str()).collect();
    assert_eq!(shown, vec!["eth0", "wlan0"]);
    assert_eq!(byte_deltas(&state.stats, &stats("eth0", 1010, 1999)), Some((10, 0)));
    assert_eq!(byte_deltas(&state.stats, &stats("lo", 1, 1)), None);

    let (state, taken) = after_update(state, 30_000_000, Some(vec![reading("eth0", 7, 8)]));
    assert!(taken);
    assert_eq!(state.shown.len(), 1);
    assert_eq!(state.shown[0].rx_history, VecDeque::from(vec![1, 7]));
}

#[test]
fn updates_keep_order_and_bound() {
    let mut state = Sampled::new(0, Vec::new());
    for n in 1..=650u64 {
        let names = if n % 2 == 0 { ["b", "a", "c"] } else { ["c", "b", "a"] };
        let read = names.iter().map(|name| reading(name, n, n)).collect();
        let (next, taken) = after_update(state, n * 10_000_000, Some(read));
        assert!(taken);
        state = next;
        for pair in state.shown.windows(2) {
            assert!(pair[0].name < pair[1].name);
        }
        for i in &state.shown {
            assert_eq!(i.rx_history.len() as u64, n.min(600));
            assert_eq!(i.tx_history.len() as u64, n.min(600));
        }
    }
}

#[test]
fn histories_stop_growing() {
    let mut history = VecDeque::new();
    for sample in 0..700 {
        push_sample(&mut history, sample);
    }
    assert_eq!(history.len(), SPARKLINE_HISTORY);
    assert_eq!(history.front(), Some(&100));
    assert_eq!(history.back(), Some(&699));
    let mut shown = Vec::new();
    for sample in 0..610 {
        shown = tick(&shown, &[reading("eth0", sample, 0)]);
    }
    assert_eq!(shown[0].rx_history.len(), 600);
    assert_eq!(shown[0].rx_history.front(), Some(&10));
    assert_eq!(shown[0].tx_history.len(), 600);
}

#[test]
fn ebpf_status_values() {
    let status = EbpfStatus::Unavailable("no CAP_BPF".to_string());
    assert!(matches!(status, EbpfStatus::Unavailable(why) if why == "no CAP_BPF"));
    assert!(matches!(EbpfStatus::Active, EbpfStatus::Active));
    assert!(matches!(EbpfStatus::NotCompiled, EbpfStatus::NotCompiled));
}
