//! Tests of the text, numeric-token, table-parsing, discovery and
//! command-construction layers.

use jvm_exporter::config::Config;
use jvm_exporter::discovery::{
    assemble_discovery, class_name_of, parse_container_list, parse_jps_output,
    select_system_processes, HostProcess,
};
use jvm_exporter::identity::ProcessInfo;
use jvm_exporter::invoke::{
    container_list_invocation, java_home_env, jps_invocation, jstat_invocation, runtime_probe,
    select_runtime, Runtime,
};
use jvm_exporter::numeric::token_is_numeric;
use jvm_exporter::parse::{parse_table, ParseError};
use jvm_exporter::pattern::{compile_patterns, matches_any};
use jvm_exporter::resource::{
    count_tcp_states, cpu_core_label, decimal_string, is_container_mount, parse_pid, sum_counts,
    SocketEntry,
};
use jvm_exporter::text::{split_lines, whitespace_tokens};

fn s(t: &str) -> String {
    t.to_string()
}

#[test]
fn tokens_split_on_any_blank() {
    let toks = whitespace_tokens("  S0C \t S1C\r\nEC  ");
    let texts: Vec<&str> = toks.iter().map(|t| t.as_str()).collect();
    assert_eq!(texts, vec!["S0C", "S1C", "EC"]);
}

#[test]
fn lines_drop_only_the_trailing_newline() {
    let lines = split_lines("a b\nc d\n");
    assert_eq!(lines.len(), 2);
    assert_eq!(lines[0], "a b");
    assert_eq!(lines[1], "c d");
    assert_eq!(split_lines("").len(), 0);
    assert_eq!(split_lines("x").len(), 1);
    assert_eq!(split_lines("a\n\nb").len(), 3);
}

#[test]
fn numeric_tokens_are_finite_decimals() {
    assert!(token_is_numeric("12.3"));
    assert!(token_is_numeric("-7"));
    assert!(token_is_numeric("+.5"));
    assert!(token_is_numeric("1e5"));
    assert!(token_is_numeric("2.5E-3"));
    assert!(token_is_numeric("12."));
    assert!(!token_is_numeric("-"));
    assert!(!token_is_numeric("."));
    assert!(!token_is_numeric(""));
    assert!(!token_is_numeric("1.2.3"));
    assert!(!token_is_numeric("abc"));
    assert!(!token_is_numeric("1e"));
    assert!(!token_is_numeric("e5"));
}

#[test]
fn parser_reads_placeholder_as_zero() {
    let out = parse_table("S0 S1 EC\n12.3 - 45.0\n").unwrap();
    assert!(!out.mismatched);
    let pairs: Vec<(&str, f64)> = out
        .readings
        .iter()
        .map(|r| (r.name.as_str(), r.value.parse::<f64>().unwrap()))
        .collect();
    assert_eq!(pairs, vec![("S0", 12.3), ("S1", 0.0), ("EC", 45.0)]);
}

#[test]
fn parser_clips_mismatched_counts() {
    let out = parse_table("S0 S1 EC\n12.3 45.0\n").unwrap();
    assert!(out.mismatched);
    assert_eq!(out.readings.len(), 2);
    assert_eq!(out.readings[0].name, "S0");
    assert_eq!(out.readings[0].value, "12.3");
    assert_eq!(out.readings[1].name, "S1");
    assert_eq!(out.readings[1].value, "45.0");
}

#[test]
fn parser_zeroes_unparsable_values_when_clipping() {
    let out = parse_table("A B C D\nx 1.5 y\n").unwrap();
    assert!(out.mismatched);
    let pairs: Vec<(&str, &str)> = out
        .readings
        .iter()
        .map(|r| (r.name.as_str(), r.value.as_str()))
        .collect();
    assert_eq!(pairs, vec![("A", "0"), ("B", "1.5"), ("C", "0")]);
}

#[test]
fn parser_skips_unparsable_columns_when_counts_match() {
    let out = parse_table("A B C\nx 1.5 2\n").unwrap();
    assert!(!out.mismatched);
    let pairs: Vec<(&str, &str)> = out
        .readings
        .iter()
        .map(|r| (r.name.as_str(), r.value.as_str()))
        .collect();
    assert_eq!(pairs, vec![("B", "1.5"), ("C", "2")]);
}

#[test]
fn single_line_output_is_truncated() {
    assert_eq!(parse_table("S0 S1 EC\n").unwrap_err(), ParseError::Truncated);
    assert_eq!(parse_table("").unwrap_err(), ParseError::Truncated);
}

#[test]
fn jps_lines_parse_and_exclude_the_lister() {
    let out = parse_jps_output("12345 com.example.Main\n999 sun.tools.jps.Jps\n77 worker\n", false);
    assert_eq!(out.len(), 2);
    assert_eq!(out[0].pid, "12345");
    assert_eq!(out[0].name, "Main");
    assert_eq!(out[1].pid, "77");
    assert_eq!(out[1].name, "worker");
}

#[test]
fn jps_full_path_keeps_the_qualified_name() {
    let out = parse_jps_output("12345 com.example.Main\n", true);
    assert_eq!(out.len(), 1);
    assert_eq!(out[0].name, "com.example.Main");
}

#[test]
fn jps_short_lines_are_skipped() {
    let out = parse_jps_output("12345\n\n777 App\n", false);
    assert_eq!(out.len(), 1);
    assert_eq!(out[0].pid, "777");
}

#[test]
fn class_names_take_the_last_segment() {
    assert_eq!(class_name_of("com.example.Main"), "Main");
    assert_eq!(class_name_of("Main"), "Main");
    assert_eq!(class_name_of("a."), "");
}

#[test]
fn container_listing_is_one_id_per_line() {
    let ids = parse_container_list("c1\nc2\n");
    assert_eq!(ids, vec![s("c1"), s("c2")]);
    assert!(parse_container_list("").is_empty());
}

fn proc_info(container: &str, pid: &str, name: &str) -> ProcessInfo {
    ProcessInfo { container: s(container), pid: s(pid), process: s(name) }
}

#[test]
fn dedup_keeps_the_host_copy() {
    let host = vec![proc_info("host", "1", "AppA")];
    let container = vec![proc_info("c1", "9", "AppA"), proc_info("c1", "10", "AppB")];
    let all = assemble_discovery(host, container, Vec::new());
    let named_appa: Vec<&ProcessInfo> = all.iter().filter(|p| p.process == "AppA").collect();
    assert_eq!(named_appa.len(), 1);
    assert_eq!(named_appa[0].container, "host");
    assert_eq!(all.len(), 2);
    assert_eq!(all[1].process, "AppB");
}

#[test]
fn missing_runtime_leaves_host_and_system_findings() {
    let host = vec![proc_info("host", "1", "AppA")];
    let system = vec![proc_info("system", "42", "agentd")];
    let all = assemble_discovery(host, Vec::new(), system);
    assert_eq!(all.len(), 2);
    assert_eq!(all[0].container, "host");
    assert_eq!(all[1].container, "system");
}

#[test]
fn invalid_patterns_are_dropped_and_matching_consults_the_pattern() {
    let pats = compile_patterns(&vec![s("^App"), s("(")]);
    assert_eq!(pats.len(), 1);
    assert!(matches_any(&pats, "AppServer"));
    assert!(!matches_any(&pats, "ServerApp"));
}

#[test]
fn system_processes_need_a_match_and_an_init_parent() {
    let pats = compile_patterns(&vec![s("^App")]);
    let table = vec![
        HostProcess { pid: s("7"), name: s("AppServer"), ppid: 1 },
        HostProcess { pid: s("8"), name: s("AppServer"), ppid: 2 },
        HostProcess { pid: s("9"), name: s("other"), ppid: 1 },
    ];
    let out = select_system_processes(&table, &pats);
    assert_eq!(out.len(), 1);
    assert_eq!(out[0].container, "system");
    assert_eq!(out[0].pid, "7");
    assert_eq!(out[0].process, "AppServer");
}

#[test]
fn runtime_selection_prefers_docker() {
    assert_eq!(select_runtime(true, true), Some(Runtime::Docker));
    assert_eq!(select_runtime(false, true), Some(Runtime::Crictl));
    assert_eq!(select_runtime(true, false), Some(Runtime::Docker));
    assert_eq!(select_runtime(false, false), None);
}

#[test]
fn host_sampler_invocation_is_exact() {
    let c = jstat_invocation(&s("host"), &s("123"), &s("-gc"), false, false, None, &s("/usr/bin"))
        .unwrap();
    assert_eq!(c.program, "jstat");
    assert_eq!(c.args, vec![s("-gc"), s("123"), s("1000"), s("1")]);
    assert!(c.env.is_empty());
}

#[test]
fn container_sampler_goes_through_the_runtime() {
    let c = jstat_invocation(&s("c1"), &s("5"), &s("-class"), true, false, None, &s("/bin"))
        .unwrap();
    assert_eq!(c.program, "docker");
    assert_eq!(
        c.args,
        vec![s("exec"), s("c1"), s("jstat"), s("-class"), s("5"), s("1000"), s("1")]
    );
    let c2 = jstat_invocation(&s("c1"), &s("5"), &s("-gc"), false, true, None, &s("/bin")).unwrap();
    assert_eq!(c2.program, "crictl");
    assert!(jstat_invocation(&s("c1"), &s("5"), &s("-gc"), false, false, None, &s("/bin"))
        .is_none());
}

#[test]
fn java_home_sets_the_environment() {
    let jh = s("/opt/java");
    let env = java_home_env(Some(&jh), &s("/usr/bin:/bin"));
    assert_eq!(env.len(), 2);
    assert_eq!(env[0].name, "JAVA_HOME");
    assert_eq!(env[0].value, "/opt/java");
    assert_eq!(env[1].name, "PATH");
    assert_eq!(env[1].value, "/opt/java/bin:/usr/bin:/bin");
    assert!(java_home_env(None, &s("/bin")).is_empty());
}

#[test]
fn lister_invocation_is_exact() {
    let c = jps_invocation(&s("host"), false, false, None, &s("/bin")).unwrap();
    assert_eq!(c.program, "jps");
    assert_eq!(c.args, vec![s("-l")]);
    let c2 = jps_invocation(&s("c9"), true, false, None, &s("/bin")).unwrap();
    assert_eq!(c2.program, "docker");
    assert_eq!(c2.args, vec![s("exec"), s("c9"), s("jps"), s("-l")]);
    assert!(jps_invocation(&s("c9"), false, false, None, &s("/bin")).is_none());
}

#[test]
fn probe_and_listing_invocations_are_exact() {
    let p = runtime_probe(Runtime::Docker);
    assert_eq!(p.program, "docker");
    assert_eq!(p.args, vec![s("ps")]);
    let l = container_list_invocation(Runtime::Docker);
    assert_eq!(l.args, vec![s("ps"), s("--format"), s("{{.ID}}")]);
    let l2 = container_list_invocation(Runtime::Crictl);
    assert_eq!(l2.program, "crictl");
    assert_eq!(l2.args, vec![s("ps"), s("-q")]);
}

#[test]
fn remote_configuration_merges_field_by_field() {
    let mut local = Config {
        log_level: Some(s("info")),
        java_home: None,
        configuration_service_url: Some(s("http://cfg.internal/exporter")),
        system_processes: Some(vec![s("^App"), s("agent")]),
        detect_docker_processes: Some(true),
    };
    let remote = Config {
        log_level: Some(s("debug")),
        java_home: Some(s("/opt/java")),
        configuration_service_url: None,
        system_processes: Some(vec![s("agent"), s("svc")]),
        detect_docker_processes: None,
    };
    local.merge_remote(remote);
    assert_eq!(local.log_level, Some(s("debug")));
    assert_eq!(local.java_home, Some(s("/opt/java")));
    assert_eq!(
        local.configuration_service_url,
        Some(s("http://cfg.internal/exporter"))
    );
    assert_eq!(local.detect_docker_processes, Some(true));
    let merged = local.system_processes.unwrap();
    assert_eq!(merged, vec![s("^App"), s("agent"), s("svc")]);
}

#[test]
fn detection_defaults_to_off() {
    let mut c = Config::empty();
    c.apply_detect_default();
    assert_eq!(c.detect_docker_processes, Some(false));
    let mut c2 = Config::empty();
    c2.detect_docker_processes = Some(true);
    c2.apply_detect_default();
    assert_eq!(c2.detect_docker_processes, Some(true));
}

#[test]
fn tcp_states_are_bucketed_per_process() {
    // state 4 is ESTABLISHED, state 1 is LISTEN
    let sockets = vec![
        SocketEntry { state: 4, pids: vec![10] },
        SocketEntry { state: 4, pids: vec![11] },
        SocketEntry { state: 1, pids: vec![10, 11] },
    ];
    let per_pid = count_tcp_states(&sockets, Some(10));
    assert_eq!(per_pid[4], 1);
    assert_eq!(per_pid[1], 1);
    assert_eq!(per_pid[0], 0);
    let host_wide = count_tcp_states(&sockets, None);
    assert_eq!(host_wide[4], 2);
    assert_eq!(host_wide[1], 1);
    assert_eq!(host_wide.len(), 12);
}

#[test]
fn open_file_sums_saturate() {
    assert_eq!(sum_counts(&vec![1, 2, 3]), 6);
    assert_eq!(sum_counts(&vec![]), 0);
    assert_eq!(sum_counts(&vec![u64::MAX, 5]), u64::MAX);
}

#[test]
fn container_mounts_are_recognized() {
    assert!(is_container_mount("/var/lib/docker/overlay2/x"));
    assert!(is_container_mount("/run/containerd/io"));
    assert!(is_container_mount("/var/lib/kubelet/pods"));
    assert!(!is_container_mount("/home"));
    assert!(!is_container_mount(""));
}

#[test]
fn core_labels_render_in_decimal() {
    assert_eq!(cpu_core_label(0), "cpu_0");
    assert_eq!(cpu_core_label(7), "cpu_7");
    assert_eq!(cpu_core_label(12345), "cpu_12345");
    assert_eq!(decimal_string(0), "0");
    assert_eq!(decimal_string(100), "100");
}

#[test]
fn pid_texts_parse_exactly() {
    assert_eq!(parse_pid("123"), Some(123));
    assert_eq!(parse_pid("+42"), Some(42));
    assert_eq!(parse_pid("0"), Some(0));
    assert_eq!(parse_pid("18446744073709551615"), Some(u64::MAX));
    assert_eq!(parse_pid("18446744073709551616"), None);
    assert_eq!(parse_pid("12a"), None);
    assert_eq!(parse_pid(""), None);
    assert_eq!(parse_pid("+"), None);
    assert_eq!(parse_pid("-1"), None);
}
