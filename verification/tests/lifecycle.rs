//! Tests of the registry, its eviction lifecycle, and whole scrape cycles.

use jvm_exporter::identity::ProcessInfo;
use jvm_exporter::parse::ParseError;
use jvm_exporter::registry::{jstat_commands, tcp_state_names, Metrics, ProcessGaugeValues};
use jvm_exporter::scrape::{apply_jstat_output, build_current, run_scrape, JstatJob};

fn s(t: &str) -> String {
    t.to_string()
}

fn proc_info(container: &str, pid: &str, name: &str) -> ProcessInfo {
    ProcessInfo { container: s(container), pid: s(pid), process: s(name) }
}

fn labels3(container: &str, pid: &str, name: &str) -> Vec<String> {
    vec![s(container), s(pid), s(name)]
}

fn labels4(container: &str, pid: &str, name: &str, metric: &str) -> Vec<String> {
    vec![s(container), s(pid), s(name), s(metric)]
}

fn gauge_values(seed: &str) -> ProcessGaugeValues {
    let mut tcp_counts = Vec::new();
    for _ in 0..tcp_state_names().len() {
        tcp_counts.push(s("0"));
    }
    ProcessGaugeValues {
        cpu: s(seed),
        memory: s("2048"),
        memory_pct: s("1.5"),
        start_time: s("1700000000"),
        up_time: s("3600"),
        open_files: s("12"),
        open_files_limit: s("1024"),
        tcp_counts,
    }
}

#[test]
fn registry_exposes_the_expected_families() {
    let m = Metrics::new();
    assert_eq!(m.process_metrics.cpu_usage.name, "process_cpu_usage");
    assert_eq!(m.process_metrics.memory_usage.name, "process_memory_usage_bytes");
    assert_eq!(
        m.process_metrics.memory_usage_percentage.name,
        "process_memory_usage_percentage"
    );
    assert_eq!(m.process_metrics.start_time.name, "process_start_time_seconds");
    assert_eq!(m.process_metrics.up_time.name, "process_up_time_seconds");
    assert_eq!(m.process_metrics.jstat_metrics.len(), 2);
    assert_eq!(m.process_metrics.jstat_metrics[0].command, "-gc");
    assert_eq!(m.process_metrics.jstat_metrics[0].family.name, "jstat_gc_metrics");
    assert_eq!(m.process_metrics.jstat_metrics[1].command, "-class");
    assert_eq!(m.process_metrics.jstat_metrics[1].family.name, "jstat_class_metrics");
    assert_eq!(m.system_metrics.cpu_usage.name, "system_cpu_usage_percentage");
    assert_eq!(m.system_metrics.uptime.name, "system_uptime_seconds");
    let cmds = jstat_commands();
    assert_eq!(cmds, vec![s("-gc"), s("-class")]);
}

#[test]
fn sampling_sets_every_resource_series() {
    let mut m = Metrics::new();
    let p = proc_info("host", "11", "AppA");
    m.reconcile(build_current(&vec![proc_info("host", "11", "AppA")]));
    m.set_process_gauges(&p, &gauge_values("3.5"));
    let key = labels3("host", "11", "AppA");
    assert_eq!(m.process_metrics.cpu_usage.lookup(&key).unwrap(), "3.5");
    assert_eq!(m.process_metrics.memory_usage.lookup(&key).unwrap(), "2048");
    assert_eq!(
        m.process_metrics.memory_usage_percentage.lookup(&key).unwrap(),
        "1.5"
    );
    assert!(m.process_metrics.start_time.contains(&key));
    assert!(m.process_metrics.up_time.contains(&key));
    assert!(m.process_metrics.open_file.contains(&key));
    assert!(m.process_metrics.open_file_limit.contains(&key));
    let tcp_key = labels4("host", "11", "AppA", "ESTABLISHED");
    assert!(m.process_metrics.tcp_connection_states.contains(&tcp_key));
}

#[test]
fn diagnostic_output_writes_series_and_records_names() {
    let mut m = Metrics::new();
    let p = proc_info("host", "11", "AppA");
    m.reconcile(build_current(&vec![proc_info("host", "11", "AppA")]));
    let out = apply_jstat_output(&mut m, 0, &p, "S0 EC\n1.5 -\n").unwrap();
    assert!(!out.1);
    assert_eq!(out.0, vec![s("S0"), s("EC")]);
    let f = &m.process_metrics.jstat_metrics[0].family;
    assert_eq!(f.lookup(&labels4("host", "11", "AppA", "S0")).unwrap(), "1.5");
    assert_eq!(f.lookup(&labels4("host", "11", "AppA", "EC")).unwrap(), "0");
}

#[test]
fn truncated_output_contributes_nothing_and_spares_the_rest() {
    let mut m = Metrics::new();
    let p1 = proc_info("host", "11", "AppA");
    let p2 = proc_info("host", "12", "AppB");
    m.reconcile(build_current(&vec![
        proc_info("host", "11", "AppA"),
        proc_info("host", "12", "AppB"),
    ]));
    let r = apply_jstat_output(&mut m, 0, &p1, "S0 EC\n");
    assert_eq!(r.unwrap_err(), ParseError::Truncated);
    assert_eq!(m.process_metrics.jstat_metrics[0].family.series_count(), 0);
    // the other pair of the same scrape still succeeds
    let ok = apply_jstat_output(&mut m, 0, &p2, "S0\n7\n").unwrap();
    assert_eq!(ok.0, vec![s("S0")]);
    assert!(m.process_metrics.jstat_metrics[0]
        .family
        .contains(&labels4("host", "12", "AppB", "S0")));
    assert!(!m.process_metrics.jstat_metrics[0]
        .family
        .contains(&labels4("host", "11", "AppA", "S0")));
}

#[test]
fn eviction_removes_exactly_the_recorded_series_once() {
    let mut m = Metrics::new();
    let p = proc_info("c7", "42", "AppA");
    m.reconcile(build_current(&vec![proc_info("c7", "42", "AppA")]));
    m.set_process_gauges(&p, &gauge_values("1.0"));
    apply_jstat_output(&mut m, 0, &p, "S0 EC\n1 2\n").unwrap();
    apply_jstat_output(&mut m, 1, &p, "Loaded\n77\n").unwrap();
    let key = labels3("c7", "42", "AppA");
    assert!(m.process_metrics.cpu_usage.contains(&key));
    assert!(m.process_metrics.jstat_metrics[0]
        .family
        .contains(&labels4("c7", "42", "AppA", "S0")));

    // the identity vanishes: everything of it goes, in one reconciliation
    m.reconcile(build_current(&Vec::new()));
    assert!(!m.process_metrics.cpu_usage.contains(&key));
    assert!(!m.process_metrics.memory_usage.contains(&key));
    assert!(!m.process_metrics.tcp_connection_states.contains(&labels4(
        "c7",
        "42",
        "AppA",
        "ESTABLISHED"
    )));
    assert!(!m.process_metrics.jstat_metrics[0]
        .family
        .contains(&labels4("c7", "42", "AppA", "S0")));
    assert!(!m.process_metrics.jstat_metrics[0]
        .family
        .contains(&labels4("c7", "42", "AppA", "EC")));
    assert!(!m.process_metrics.jstat_metrics[1]
        .family
        .contains(&labels4("c7", "42", "AppA", "Loaded")));
    assert_eq!(m.process_metrics.cpu_usage.series_count(), 0);
    assert_eq!(m.process_metrics.jstat_metrics[0].family.series_count(), 0);

    // a second reconciliation against the same outcome is a silent no-op
    m.reconcile(build_current(&Vec::new()));
    assert_eq!(m.process_metrics.cpu_usage.series_count(), 0);
    assert_eq!(m.active_pids.len(), 0);
}

#[test]
fn reconciliation_leaves_no_orphaned_series() {
    let mut m = Metrics::new();
    let discovered = vec![proc_info("host", "1", "AppA"), proc_info("host", "2", "AppB")];
    let samples = vec![Some(gauge_values("1.0")), Some(gauge_values("2.0"))];
    run_scrape(&mut m, &discovered, &samples, &Vec::new());
    assert!(m.process_metrics.cpu_usage.contains(&labels3("host", "1", "AppA")));
    assert!(m.process_metrics.cpu_usage.contains(&labels3("host", "2", "AppB")));
    assert_eq!(m.process_metrics.cpu_usage.series_count(), 2);

    // the next scrape sees only the second process
    let discovered2 = vec![proc_info("host", "2", "AppB")];
    let samples2 = vec![Some(gauge_values("2.5"))];
    run_scrape(&mut m, &discovered2, &samples2, &Vec::new());
    assert!(!m.process_metrics.cpu_usage.contains(&labels3("host", "1", "AppA")));
    assert!(m.process_metrics.cpu_usage.contains(&labels3("host", "2", "AppB")));
    assert_eq!(m.process_metrics.cpu_usage.series_count(), 1);
    assert_eq!(m.process_metrics.memory_usage.series_count(), 1);
    assert_eq!(m.active_pids.len(), 1);
}

#[test]
fn scrape_stays_alive_when_every_diagnostic_fails() {
    let mut m = Metrics::new();
    let discovered = vec![proc_info("host", "1", "AppA"), proc_info("host", "2", "AppB")];
    let samples = vec![Some(gauge_values("1.0")), Some(gauge_values("2.0"))];
    let jobs = vec![
        JstatJob { proc_idx: 0, cmd_idx: 0, output: None },
        JstatJob { proc_idx: 0, cmd_idx: 1, output: None },
        JstatJob { proc_idx: 1, cmd_idx: 0, output: None },
        JstatJob { proc_idx: 1, cmd_idx: 1, output: None },
    ];
    run_scrape(&mut m, &discovered, &samples, &jobs);
    // identity-level series are populated, diagnostic families stay empty
    assert!(m.process_metrics.cpu_usage.contains(&labels3("host", "1", "AppA")));
    assert!(m.process_metrics.cpu_usage.contains(&labels3("host", "2", "AppB")));
    assert!(m.process_metrics.memory_usage.contains(&labels3("host", "1", "AppA")));
    assert_eq!(m.process_metrics.jstat_metrics[0].family.series_count(), 0);
    assert_eq!(m.process_metrics.jstat_metrics[1].family.series_count(), 0);
    assert_eq!(m.active_pids.len(), 2);
}

#[test]
fn scrape_applies_successful_jobs_and_evicts_dynamic_names() {
    let mut m = Metrics::new();
    let discovered = vec![proc_info("host", "1", "AppA")];
    let samples = vec![Some(gauge_values("1.0"))];
    let jobs = vec![JstatJob { proc_idx: 0, cmd_idx: 0, output: Some(s("S0 S1\n3 4\n")) }];
    run_scrape(&mut m, &discovered, &samples, &jobs);
    let f = &m.process_metrics.jstat_metrics[0].family;
    assert_eq!(f.lookup(&labels4("host", "1", "AppA", "S0")).unwrap(), "3");
    assert_eq!(f.lookup(&labels4("host", "1", "AppA", "S1")).unwrap(), "4");

    // next scrape: the process is gone; the schema-free names must go too
    run_scrape(&mut m, &Vec::new(), &Vec::new(), &Vec::new());
    let f = &m.process_metrics.jstat_metrics[0].family;
    assert!(!f.contains(&labels4("host", "1", "AppA", "S0")));
    assert!(!f.contains(&labels4("host", "1", "AppA", "S1")));
    assert_eq!(f.series_count(), 0);
    assert_eq!(m.jstat_labels.len(), 0);
}

#[test]
fn unsampled_processes_stay_active_but_without_series() {
    let mut m = Metrics::new();
    let discovered = vec![proc_info("host", "1", "AppA"), proc_info("host", "2", "AppB")];
    let samples = vec![Some(gauge_values("1.0")), None];
    run_scrape(&mut m, &discovered, &samples, &Vec::new());
    assert!(m.process_metrics.cpu_usage.contains(&labels3("host", "1", "AppA")));
    assert!(!m.process_metrics.cpu_usage.contains(&labels3("host", "2", "AppB")));
    assert_eq!(m.active_pids.len(), 2);
}
