use std::cell::Cell;

use levshell_modules::escalation::EscalationLevel;
use levshell_modules::events::{Event, WidgetStatus};
use levshell_modules::remote::gpu::{
    gpu_argv, gpu_state, utilization_fields, widget_status as gpu_widget_status,
    GpuDashboardModule, GpuFleetState, GpuHostState, GpuSample,
};
use levshell_modules::remote::host::{
    config_files, load_file, HostConfig, HostFileOutcome, HostRegistry, HostRegistryError,
    HostRole, LoadedFile,
};
use levshell_modules::remote::jobs::{
    jobs_argv, jobs_state, parse_jobs, widget_status as jobs_widget_status, JobsHostState,
    RemoteJobsModule, SlurmJob,
};
use levshell_modules::remote::runner::{
    CommandOutput, MockRunner, RemoteError, RemoteRunner, SshRunner,
};
use levshell_modules::remote::ssh_monitor::{
    shown_millis, ssh_raw_escalation, ssh_state, wants_poll, SshFleetState, SshHostState,
    SshMonitorModule, SshReport, SSH_WIDGET_ID,
};

fn strings(v: &[&str]) -> Vec<String> {
    v.iter().map(|s| s.to_string()).collect()
}

fn output(stdout: &str, stderr: &str, status: i32) -> CommandOutput {
    CommandOutput { stdout: stdout.into(), stderr: stderr.into(), status: Some(status) }
}

fn host(name: &str, user: Option<&str>, roles: Vec<HostRole>) -> HostConfig {
    HostConfig {
        name: name.into(),
        hostname: format!("{name}.example"),
        user: user.map(str::to_string),
        port: None,
        display_name: None,
        project: None,
        poll_interval_secs: None,
        connect_timeout_secs: 5,
        roles,
    }
}

// ---------------------------------------------------------------------------
// Hosts
// ---------------------------------------------------------------------------

fn bare(name: &str, hostname: &str) -> HostConfig {
    HostConfig { hostname: hostname.into(), ..host(name, None, vec![]) }
}

fn file(path: &str, hosts: Option<Vec<HostConfig>>) -> LoadedFile {
    LoadedFile { path: path.into(), hosts }
}

#[test]
fn empty_dir_yields_empty_registry() {
    let reg = HostRegistry::load_from_files(vec![]).unwrap();
    assert!(reg.hosts().is_empty());
}

#[test]
fn missing_dir_yields_empty_registry() {
    assert!(config_files(&[]).is_empty());
    assert!(HostRegistry::load_from_files(vec![]).unwrap().hosts().is_empty());
}

#[test]
fn parses_multiple_hosts_across_files() {
    let gpu_host = HostConfig {
        hostname: "gpu.lab.edu".into(),
        user: Some("l".into()),
        display_name: Some("Lab GPU Cluster".into()),
        ..host("lab-gpu", None, vec![HostRole::SshMonitor, HostRole::Gpu])
    };
    let hpc = HostConfig {
        hostname: "hpc.edu".into(),
        ..host("hpc", None, vec![HostRole::SshMonitor, HostRole::Jobs])
    };
    let reg = HostRegistry::load_from_files(vec![
        file("a.toml", Some(vec![gpu_host])),
        file("b.toml", Some(vec![hpc])),
    ])
    .unwrap();
    assert_eq!(reg.hosts().len(), 2);
    let gpu = reg.filter_by_role(HostRole::Gpu);
    assert_eq!(gpu.len(), 1);
    assert_eq!(gpu[0].name, "lab-gpu");
    let ssh = reg.filter_by_role(HostRole::SshMonitor);
    assert_eq!(ssh.len(), 2);
    let jobs = reg.filter_by_role(HostRole::Jobs);
    assert_eq!(jobs.len(), 1);
    assert_eq!(jobs[0].name, "hpc");
    assert_eq!(reg.by_name("hpc").map(|h| h.hostname.as_str()), Some("hpc.edu"));
    assert!(reg.by_name("nope").is_none());
}

#[test]
fn duplicate_name_across_files_errors() {
    let err = HostRegistry::load_from_files(vec![
        file("a.toml", Some(vec![bare("dup", "a")])),
        file("b.toml", Some(vec![bare("dup", "b")])),
    ])
    .unwrap_err();
    assert!(matches!(err, HostRegistryError::DuplicateName { .. }));
}

#[test]
fn malformed_file_is_skipped_not_fatal() {
    let reg = HostRegistry::load_from_files(vec![
        file("broken.toml", None),
        file("good.toml", Some(vec![bare("real", "real.example")])),
    ])
    .unwrap();
    assert_eq!(reg.hosts().len(), 1);
    assert_eq!(reg.hosts()[0].name, "real");
}

#[test]
fn host_defaults_are_sensible() {
    let reg =
        HostRegistry::load_from_files(vec![file("h.toml", Some(vec![bare("bare", "bare.example")]))])
            .unwrap();
    let h = &reg.hosts()[0];
    assert_eq!(h.display_name(), "bare");
    assert_eq!(h.connect_timeout_secs, 5);
    assert!(h.roles.is_empty(), "dormant by default");
    assert!(!h.is_local());
    assert!(h.user.is_none());
}

#[test]
fn localhost_host_is_local() {
    let h = HostConfig {
        hostname: "localhost".into(),
        ..host("local", None, vec![HostRole::Gpu])
    };
    assert!(h.is_local());
    assert!(h.has_role(HostRole::Gpu) && !h.has_role(HostRole::Jobs));
}

#[test]
fn only_toml_files_are_read_in_order() {
    assert_eq!(
        config_files(&strings(&["b.toml", "readme.md", "a.toml"])),
        strings(&["a.toml", "b.toml"])
    );
}

// ---------------------------------------------------------------------------
// Running commands
// ---------------------------------------------------------------------------

fn remote(name: &str) -> HostConfig {
    HostConfig {
        hostname: "host.example".into(),
        port: Some(2222),
        connect_timeout_secs: 3,
        ..host(name, Some("u"), vec![])
    }
}

fn local() -> HostConfig {
    HostConfig { hostname: "localhost".into(), ..host("workstation", None, vec![]) }
}

#[test]
fn ssh_runner_builds_expected_argv() {
    let runner = SshRunner::new();
    let args = runner.build_command(&remote("h"), &strings(&["nvidia-smi", "--query-gpu=name"]));
    assert_eq!(args[0], "ssh");
    assert!(args.contains(&"BatchMode=yes".to_string()));
    assert!(args.contains(&"ConnectTimeout=3".to_string()));
    assert!(args.contains(&"ControlMaster=auto".to_string()));
    assert!(args.contains(&"ControlPersist=60".to_string()));
    assert!(args.iter().any(|a| a == "u@host.example"));
    assert!(args.iter().any(|a| a == "nvidia-smi"));
    assert!(args.iter().any(|a| a == "--query-gpu=name"));
    assert!(args.contains(&"2222".to_string()));
}

#[test]
fn ssh_runner_local_skips_ssh_wrapping() {
    let runner = SshRunner::new();
    let args = runner.build_command(&local(), &strings(&["nvidia-smi"]));
    assert_eq!(args, strings(&["nvidia-smi"]), "local hosts bypass ssh entirely");
}

#[test]
fn ssh_runner_refuses_an_empty_command() {
    let runner = SshRunner::with_ssh_binary("/opt/ssh".into());
    assert!(matches!(runner.prepare(&local(), &[]), Err(RemoteError::Spawn { .. })));
    assert_eq!(runner.prepare(&remote("h"), &strings(&["true"])).unwrap()[0], "/opt/ssh");
}

#[test]
fn mock_runner_returns_registered_output() {
    let mut mock = MockRunner::new();
    mock.respond("h", &strings(&["true"]), output("ok\n", "", 0));
    let out = mock.run(&remote("h"), &strings(&["true"]), 5).unwrap();
    assert!(out.is_success());
    assert_eq!(out.stdout, "ok\n");
    assert_eq!(mock.calls(), &vec![("h".to_string(), vec!["true".to_string()])]);
}

#[test]
fn mock_runner_matches_prefix() {
    let mut mock = MockRunner::new();
    mock.respond("h", &strings(&["nvidia-smi"]), output("0, A100, 12, 100, 80000, 45", "", 0));
    let out = mock
        .run(
            &remote("h"),
            &strings(&[
                "nvidia-smi",
                "--query-gpu=index,name,utilization.gpu,memory.used,memory.total,temperature.gpu",
            ]),
            5,
        )
        .unwrap();
    assert_eq!(out.stdout, "0, A100, 12, 100, 80000, 45");
}

#[test]
fn mock_registrations_chain() {
    let mut mock = MockRunner::new();
    mock.respond("h", &strings(&["a"]), output("first", "", 0))
        .respond_with_timeout("h", &strings(&["b"]))
        .respond("h", &strings(&["a"]), output("second", "", 0));
    assert_eq!(mock.responses.len(), 2);
    assert_eq!(mock.run(&remote("h"), &strings(&["a"]), 5).unwrap().stdout, "second");
    assert!(matches!(
        mock.run(&remote("h"), &strings(&["b"]), 5),
        Err(RemoteError::Timeout { .. })
    ));
    assert_eq!(mock.calls().len(), 2);
}

#[test]
fn mock_runner_missing_response_errors() {
    let mut mock = MockRunner::new();
    let err = mock.run(&remote("h"), &strings(&["unregistered"]), 5).unwrap_err();
    assert!(matches!(err, RemoteError::MockMissing { .. }));
    assert!(err.message().contains("[\"unregistered\"]"), "{}", err.message());
}

#[test]
fn mock_runner_honors_timeout_response() {
    let mut mock = MockRunner::new();
    mock.respond_with_timeout("h", &strings(&["hang"]));
    let err = mock.run(&remote("h"), &strings(&["hang"]), 5).unwrap_err();
    assert!(matches!(err, RemoteError::Timeout { .. }));
}

// ---------------------------------------------------------------------------
// Jobs
// ---------------------------------------------------------------------------

#[test]
fn parses_running_and_pending_jobs() {
    let j = SlurmJob::parse_line("123456|train_gpt.sh|RUNNING|None|01:23:45|12:00:00").unwrap();
    assert_eq!(j.id, "123456");
    assert_eq!(j.name, "train_gpt.sh");
    assert_eq!(j.state, "RUNNING");
    assert_eq!(j.reason, "None");
    assert_eq!(j.time_used, "01:23:45");
    assert_eq!(j.time_limit, "12:00:00");
    let p = SlurmJob::parse_line("123457|long_eval|PENDING|Resources|0:00|4-00:00:00").unwrap();
    assert_eq!(p.state, "PENDING");
    assert_eq!(p.reason, "Resources");
    assert_eq!(p.time_limit, "4-00:00:00");
}

#[test]
fn rejects_malformed_lines() {
    assert!(SlurmJob::parse_line("").is_none());
    assert!(SlurmJob::parse_line("123|a|b|c|d").is_none());
    assert!(SlurmJob::parse_line("|a|b|c|d|e").is_none(), "empty id rejected");
}

fn jobs_module(h: HostConfig) -> RemoteJobsModule {
    RemoteJobsModule::new(HostRegistry::new(vec![h]))
}

#[test]
fn running_job_yields_running_status() {
    let m = jobs_module(host("h", Some("u"), vec![HostRole::Jobs]));
    let mut mock = MockRunner::new();
    mock.respond(
        "h",
        &strings(&["squeue"]),
        output(
            "123|job1|RUNNING|None|00:15:00|01:00:00\n124|job2|PENDING|Resources|0:00|02:00:00\n",
            "",
            0,
        ),
    );
    let state = m.run_once(&mut mock).unwrap();
    assert_eq!(state.hosts[0].status, "running");
    assert_eq!(state.hosts[0].jobs.len(), 2);
    let calls = mock.calls();
    assert_eq!(calls.len(), 1);
    let argv = &calls[0].1;
    assert_eq!(argv[0], "squeue");
    assert_eq!(argv[1], "-h");
    assert!(argv[2].starts_with("--user="));
    assert!(argv[2].contains('u'), "user is threaded through");
    assert!(argv[3].starts_with("--format="));
}

#[test]
fn empty_output_yields_idle_status() {
    let m = jobs_module(host("i", Some("u"), vec![HostRole::Jobs]));
    let mut mock = MockRunner::new();
    mock.respond("i", &strings(&["squeue"]), output("", "", 0));
    let state = m.run_once(&mut mock).unwrap();
    assert_eq!(state.hosts[0].status, "idle");
    assert_eq!(jobs_widget_status(&state), WidgetStatus::Normal);
}

#[test]
fn missing_user_falls_back_to_dollar_user() {
    let m = jobs_module(host("h", None, vec![HostRole::Jobs]));
    let mut mock = MockRunner::new();
    mock.respond("h", &strings(&["squeue"]), output("", "", 0));
    m.run_once(&mut mock);
    let argv = &mock.calls()[0].1;
    assert!(argv.iter().any(|a| a.contains("$USER")));
    assert_eq!(argv, &jobs_argv(&host("h", None, vec![])));
}

#[test]
fn squeue_not_installed_surfaces_as_offline() {
    let m = jobs_module(host("no-slurm", Some("u"), vec![HostRole::Jobs]));
    let mut mock = MockRunner::new();
    mock.respond("no-slurm", &strings(&["squeue"]), output("", "command not found", 127));
    let state = m.run_once(&mut mock).unwrap();
    assert_eq!(mock.calls().len(), 1);
    assert_eq!(state.hosts[0].status, "offline");
    assert!(state.hosts[0].error.is_some());
    assert_eq!(jobs_widget_status(&state), WidgetStatus::Stale);
}

#[test]
fn host_without_jobs_role_is_filtered() {
    let m = jobs_module(host("a", Some("u"), vec![HostRole::SshMonitor, HostRole::Gpu]));
    let mut mock = MockRunner::new();
    assert!(m.run_once(&mut mock).is_none());
    assert!(mock.calls().is_empty());
}

#[test]
fn offline_job_hosts_say_why() {
    let h = host("h", None, vec![]);
    let timeout: Result<CommandOutput, RemoteError> =
        Err(RemoteError::Timeout { host: "h".into() });
    let state: JobsHostState = jobs_state(&h, &timeout);
    assert_eq!(state.status, "offline");
    assert!(state.error.is_some());
    assert_eq!(parse_jobs("junk\n1|a|RUNNING|r|t|l\n").len(), 1);
}

// ---------------------------------------------------------------------------
// Graphics cards
// ---------------------------------------------------------------------------

fn percent(s: &str) -> Option<u64> {
    s.parse::<f64>().ok().map(f64::to_bits)
}

fn parse_gpu(line: &str) -> Option<GpuSample> {
    GpuSample::parse_csv_line(line, percent(&GpuSample::utilization_field(line)))
}

#[test]
fn parses_typical_nvidia_smi_line() {
    let s = parse_gpu("0, NVIDIA A100-SXM4-80GB, 12, 3024, 81920, 45").unwrap();
    assert_eq!(s.index, 0);
    assert_eq!(s.name, "NVIDIA A100-SXM4-80GB");
    assert_eq!(f64::from_bits(s.utilization_percent), 12.0);
    assert_eq!(s.memory_used_mb, 3024);
    assert_eq!(s.memory_total_mb, 81920);
    assert_eq!(s.temperature_c, 45);
}

#[test]
fn parse_rejects_malformed_lines() {
    assert!(parse_gpu("").is_none());
    assert!(parse_gpu("0, A100, 12, 3024, 81920").is_none());
    assert!(parse_gpu("abc, A100, 12, 3024, 81920, 45").is_none());
}

fn probe_gpus(h: HostConfig, mock: &mut MockRunner) -> Vec<GpuHostState> {
    let m = GpuDashboardModule::new(HostRegistry::new(vec![h]));
    m.run_once(mock, &percent).map(|state| state.hosts).unwrap_or_default()
}

#[test]
fn healthy_fleet_publishes_healthy_state() {
    let mut mock = MockRunner::new();
    mock.respond(
        "a",
        &strings(&["nvidia-smi"]),
        output("0, A100, 5, 800, 81920, 40\n1, A100, 10, 1200, 81920, 41\n", "", 0),
    );
    let hosts = probe_gpus(host("a", None, vec![HostRole::Gpu]), &mut mock);
    assert_eq!(hosts[0].status, "healthy");
    assert_eq!(hosts[0].gpus.len(), 2);
    assert_eq!(gpu_widget_status(&GpuFleetState { hosts }), WidgetStatus::Normal);
}

#[test]
fn high_utilization_flips_to_busy() {
    let mut mock = MockRunner::new();
    mock.respond("busy", &strings(&["nvidia-smi"]), output("0, A100, 95, 75000, 81920, 82\n", "", 0));
    let hosts = probe_gpus(host("busy", None, vec![HostRole::Gpu]), &mut mock);
    assert_eq!(hosts[0].status, "busy");
    let calls = mock.calls();
    assert_eq!(calls.len(), 1);
    assert_eq!(calls[0].1[0], "nvidia-smi");
    assert_eq!(calls[0].1, gpu_argv());
}

#[test]
fn nvidia_smi_missing_surfaces_as_offline() {
    let mut mock = MockRunner::new();
    mock.respond(
        "nonvidia",
        &strings(&["nvidia-smi"]),
        output("", "nvidia-smi: command not found", 127),
    );
    let hosts = probe_gpus(host("nonvidia", None, vec![HostRole::Gpu]), &mut mock);
    assert_eq!(mock.calls().len(), 1);
    assert_eq!(hosts[0].status, "offline");
    assert!(hosts[0].error.is_some());
}

#[test]
fn host_without_gpu_role_is_filtered() {
    let mut mock = MockRunner::new();
    let hosts = probe_gpus(host("a", None, vec![HostRole::SshMonitor]), &mut mock);
    assert!(hosts.is_empty());
    assert!(mock.calls().is_empty());
}

#[test]
fn utilization_is_read_line_by_line() {
    let stdout = "0, A100, 80, 1, 2, 3\n\n1, A100, 79.5, 1, 2, 3\n";
    let fields = utilization_fields(stdout);
    assert_eq!(fields, strings(&["80", "79.5"]));
    let percents: Vec<Option<u64>> = fields.iter().map(|f| percent(f)).collect();
    let state = gpu_state(&host("h", None, vec![]), &Ok(output(stdout, "", 0)), &percents);
    assert_eq!(state.status, "busy");
    assert_eq!(state.gpus.len(), 2);
}

// ---------------------------------------------------------------------------
// Reachability
// ---------------------------------------------------------------------------

fn fleet_state(reachability: &[bool]) -> SshFleetState {
    SshFleetState {
        hosts: reachability
            .iter()
            .enumerate()
            .map(|(i, r)| SshHostState {
                name: format!("h{i}"),
                display_name: format!("host-{i}"),
                project: None,
                reachable: *r,
                latency_ms: if *r { Some(50) } else { None },
                status: if *r { "healthy".into() } else { "offline".into() },
                error: None,
            })
            .collect(),
    }
}

#[test]
fn raw_escalation_empty_is_ambient() {
    assert_eq!(ssh_raw_escalation(&SshFleetState { hosts: vec![] }), EscalationLevel::Ambient);
}

#[test]
fn raw_escalation_all_reachable_is_ambient() {
    assert_eq!(ssh_raw_escalation(&fleet_state(&[true, true, true])), EscalationLevel::Ambient);
}

#[test]
fn raw_escalation_partial_outage_is_attention() {
    assert_eq!(ssh_raw_escalation(&fleet_state(&[true, false])), EscalationLevel::Attention);
}

#[test]
fn raw_escalation_full_outage_is_critical() {
    assert_eq!(ssh_raw_escalation(&fleet_state(&[false, false])), EscalationLevel::Critical);
    assert_eq!(ssh_raw_escalation(&fleet_state(&[false])), EscalationLevel::Critical);
}

fn monitor(hosts: Vec<HostConfig>) -> SshMonitorModule {
    SshMonitorModule::new(HostRegistry::new(hosts))
}

fn ssh_host(name: &str, roles: Vec<HostRole>) -> HostConfig {
    HostConfig {
        display_name: Some(format!("Display {name}")),
        project: Some("llm-alignment".into()),
        ..host(name, None, roles)
    }
}

fn ssh_tick(m: &mut SshMonitorModule, mock: &mut MockRunner, elapsed_ms: u128) -> Option<SshReport> {
    let told = Cell::new(0u128);
    let clock = || told.replace(told.get() + elapsed_ms);
    m.run_once(mock, &clock)
}

#[test]
fn no_registered_hosts_is_noop() {
    let mut mock = MockRunner::new();
    let mut m = monitor(vec![]);
    assert!(ssh_tick(&mut m, &mut mock, 10).is_none());
    assert!(mock.calls().is_empty(), "no hosts, no probes");
}

#[test]
fn healthy_host_publishes_healthy_status() {
    let mut mock = MockRunner::new();
    mock.respond("a", &strings(&["true"]), output("", "", 0));
    let mut m = monitor(vec![ssh_host("a", vec![HostRole::SshMonitor])]);
    let report = ssh_tick(&mut m, &mut mock, 12).unwrap();
    assert_eq!(mock.calls(), &vec![("a".to_string(), vec!["true".to_string()])]);
    assert_eq!(
        report.changes,
        vec![Event::SshHostStatus { host: "a".into(), reachable: true, latency_ms: Some(12) }]
    );
    assert_eq!(report.state.hosts[0].status, "healthy");
    assert_eq!(report.state.hosts[0].display_name, "Display a");
}

#[test]
fn unreachable_host_fires_offline_event() {
    let mut mock = MockRunner::new();
    mock.respond_with_timeout("b", &strings(&["true"]));
    let mut m = monitor(vec![ssh_host("b", vec![HostRole::SshMonitor])]);
    let report = ssh_tick(&mut m, &mut mock, 9000).unwrap();
    match &report.changes[0] {
        Event::SshHostStatus { host, reachable, .. } => {
            assert_eq!(host, "b");
            assert!(!reachable);
        }
        other => panic!("unexpected event: {other:?}"),
    }
    assert_eq!(report.level, EscalationLevel::Aware);
}

#[test]
fn repeated_same_state_does_not_republish_event() {
    let mut mock = MockRunner::new();
    mock.respond("c", &strings(&["true"]), output("", "", 0));
    let mut m = monitor(vec![ssh_host("c", vec![HostRole::SshMonitor])]);
    assert_eq!(ssh_tick(&mut m, &mut mock, 5).unwrap().changes.len(), 1);
    assert!(
        ssh_tick(&mut m, &mut mock, 5).unwrap().changes.is_empty(),
        "second healthy tick suppresses duplicate event"
    );
}

#[test]
fn filters_out_non_ssh_monitor_roles() {
    let mut mock = MockRunner::new();
    mock.respond("a", &strings(&["true"]), output("", "", 0));
    let mut m = monitor(vec![
        ssh_host("a", vec![HostRole::SshMonitor]),
        ssh_host("b", vec![HostRole::Gpu]),
    ]);
    ssh_tick(&mut m, &mut mock, 5);
    let hosts: Vec<&str> = mock.calls().iter().map(|c| c.0.as_str()).collect();
    assert_eq!(hosts, vec!["a"]);
}

#[test]
fn reconnect_action_triggers_immediate_reprobe() {
    let action = |widget: &str, data: &str| Event::WidgetActionReceived {
        widget_id: widget.into(),
        action: "reconnect".into(),
        data: data.into(),
    };
    assert!(wants_poll(&action(SSH_WIDGET_ID, r#"{"host":"a"}"#)), "reconnect should probe once");
    assert!(!wants_poll(&action("some-other-widget", "{}")), "non-ssh action must not probe");
}

#[test]
fn slow_hosts_are_degraded() {
    let mut mock = MockRunner::new();
    mock.respond("a", &strings(&["true"]), output("", "", 0));
    let mut m = monitor(vec![ssh_host("a", vec![HostRole::SshMonitor])]);
    let report = ssh_tick(&mut m, &mut mock, 900).unwrap();
    assert_eq!(report.state.hosts[0].status, "degraded");
    assert_eq!(shown_millis(u128::MAX), u32::MAX);
}

#[test]
fn clocks_that_go_back_show_no_time() {
    let mut mock = MockRunner::new();
    mock.respond("a", &strings(&["true"]), output("", "", 0));
    let m = monitor(vec![]);
    let told = Cell::new(70u128);
    let clock = || told.replace(told.get() - 10);
    let state = m.probe_host(&mut mock, &ssh_host("a", vec![]), &clock);
    assert_eq!(state.latency_ms, Some(0));
    assert_eq!(state.status, "healthy");
}

#[test]
fn every_host_is_asked_in_order() {
    let mut mock = MockRunner::new();
    mock.respond("b", &strings(&["true"]), output("", "", 0));
    let mut m = monitor(vec![
        ssh_host("a", vec![HostRole::SshMonitor]),
        ssh_host("b", vec![HostRole::Jobs, HostRole::SshMonitor]),
    ]);
    let report = ssh_tick(&mut m, &mut mock, 3).unwrap();
    let asked: Vec<&str> = mock.calls().iter().map(|c| c.0.as_str()).collect();
    assert_eq!(asked, vec!["a", "b"]);
    let reached: Vec<bool> = report.state.hosts.iter().map(|h| h.reachable).collect();
    assert_eq!(reached, vec![false, true]);
    assert_eq!(report.status, WidgetStatus::Stale);
    assert_eq!(
        report.state.hosts[0].error.as_deref(),
        Some("no mock response configured for host a command [\"true\"]")
    );
}

#[test]
fn host_files_say_what_is_wrong() {
    let unreadable = load_file("/h/a.toml", HostFileOutcome::Unreadable("denied".into()));
    assert_eq!(
        unreadable.unwrap_err().message(),
        "reading host config file /h/a.toml: denied"
    );
    let malformed = load_file("/h/a.toml", HostFileOutcome::Malformed("line 1".into()));
    assert_eq!(malformed.unwrap_err().message(), "parsing host config /h/a.toml: line 1");
    let hosts = load_file("/h/a.toml", HostFileOutcome::Read(vec![host("a", None, vec![])]));
    assert_eq!(hosts.unwrap()[0].name, "a");
    let dir = HostRegistryError::Io { path: "/h".into(), source: "gone".into() };
    assert_eq!(dir.message(), "reading host config dir /h: gone");
    let twice = HostRegistryError::DuplicateName { name: "a".into(), path: "/h/b.toml".into() };
    assert_eq!(twice.message(), "duplicate host name a in /h/b.toml");
}

#[test]
fn a_poll_tells_of_changes_alone() {
    let mut mock = MockRunner::new();
    mock.respond("a", &strings(&["true"]), output("", "", 0));
    mock.respond("b", &strings(&["true"]), output("", "", 0));
    let hosts = ["a", "b"].map(|n| ssh_host(n, vec![HostRole::SshMonitor]));
    let mut m = monitor(hosts.to_vec());
    let told = |r: &SshReport| -> Vec<(String, bool)> {
        r.changes
            .iter()
            .map(|e| match e {
                Event::SshHostStatus { host, reachable, .. } => (host.clone(), *reachable),
                other => panic!("unexpected event: {other:?}"),
            })
            .collect()
    };
    let first = ssh_tick(&mut m, &mut mock, 1).unwrap();
    assert_eq!(told(&first), vec![("a".to_string(), true), ("b".to_string(), true)]);
    mock.respond_with_timeout("b", &strings(&["true"]));
    assert_eq!(mock.responses.len(), 2, "an answer for the same command is replaced");
    let second = ssh_tick(&mut m, &mut mock, 1).unwrap();
    assert_eq!(told(&second), vec![("b".to_string(), false)]);
    assert!(second.alarm.is_none());
    assert_eq!(second.state.hosts.len(), 2);
    assert_eq!(second.status, WidgetStatus::Stale);
    let third = ssh_tick(&mut m, &mut mock, 1).unwrap();
    assert!(third.changes.is_empty());
    mock.respond_with_timeout("a", &strings(&["true"]));
    let fourth = ssh_tick(&mut m, &mut mock, 1).unwrap();
    assert!(matches!(&fourth.alarm, Some(Event::CriticalEscalation { .. })));
    assert!(ssh_tick(&mut m, &mut mock, 1).unwrap().alarm.is_none());
}
