use fastup::config::{external_check, record_external, ExternalCheck, FastUpConfig};
use fastup::elements::{finish_stop, pid_to_stop, ElementConfig, ElementType, StopStep};
use fastup::groups::GroupConfig;
use fastup::process::ProcessTable;
use fastup::state::FastUpState;

fn command(name: &str, port: u16, cmd: &str, args: &[&str]) -> ElementConfig {
    ElementConfig {
        name: name.to_string(),
        port,
        element_type: ElementType::Command {
            start_command: cmd.to_string(),
            args: args.iter().map(|s| s.to_string()).collect(),
            log_file: None,
        },
    }
}

fn service(name: &str, port: u16, svc: &str) -> ElementConfig {
    ElementConfig {
        name: name.to_string(),
        port,
        element_type: ElementType::Service { service_name: svc.to_string() },
    }
}

fn sample() -> FastUpConfig {
    FastUpConfig {
        elements_config: vec![
            command("api", 8080, "python", &["-m", "http.server", "8080"]),
            service("redis", 6379, "redis"),
            command("api", 9090, "node", &[]),
        ],
        groups_config: vec![GroupConfig {
            name: "backend".to_string(),
            description: Some("Backend services".to_string()),
            elements: vec!["api".to_string(), "redis".to_string()],
        }],
    }
}

#[test]
fn find_element_returns_first_match() {
    let cfg = sample();
    assert_eq!(cfg.find_element("api"), Some(0));
    assert_eq!(cfg.find_element("redis"), Some(1));
    assert_eq!(cfg.find_element("nope"), None);
}

#[test]
fn find_group_by_name() {
    let cfg = sample();
    assert_eq!(cfg.find_group("backend"), Some(0));
    assert_eq!(cfg.find_group("frontend"), None);
}

#[test]
fn external_check_only_for_unknown_online() {
    let cfg = sample();
    let mut st = FastUpState::new();
    assert!(matches!(external_check(&st, &cfg.elements_config[0], false), ExternalCheck::NotNeeded));
    assert!(matches!(external_check(&st, &cfg.elements_config[0], true), ExternalCheck::ListeningProcess));
    assert!(matches!(external_check(&st, &cfg.elements_config[1], true), ExternalCheck::ServiceActivity));
    st.register_element("api".to_string(), 3, "Command".to_string());
    assert!(matches!(external_check(&st, &cfg.elements_config[0], true), ExternalCheck::NotNeeded));
}

#[test]
fn record_external_command_needs_pid() {
    let cfg = sample();
    let mut st = FastUpState::new();
    assert!(!record_external(&mut st, &cfg.elements_config[0], true, None));
    assert!(st.get_element("api").is_none());
    assert!(!record_external(&mut st, &cfg.elements_config[0], true, Some(0)));
    assert!(record_external(&mut st, &cfg.elements_config[0], false, Some(555)));
    let info = st.get_element("api").unwrap();
    assert_eq!(info.pid, 555);
    assert_eq!(info.element_type, "Command");
    assert!(!info.started_by_fastup);
}

#[test]
fn record_external_service_needs_activity() {
    let cfg = sample();
    let mut st = FastUpState::new();
    assert!(!record_external(&mut st, &cfg.elements_config[1], false, Some(99)));
    assert!(record_external(&mut st, &cfg.elements_config[1], true, Some(99)));
    let info = st.get_element("redis").unwrap();
    assert_eq!(info.pid, 0);
    assert_eq!(info.element_type, "Service");
}

#[test]
fn start_invocations() {
    let cfg = sample();
    let inv = cfg.elements_config[0].element_type.start_invocation();
    assert_eq!(inv.program, "python");
    assert_eq!(inv.args, vec!["-m", "http.server", "8080"]);
    assert!(inv.output_file.is_none());
    let svc = cfg.elements_config[1].element_type.start_invocation();
    assert_eq!(svc.program, "sudo");
    assert_eq!(svc.args, vec!["systemctl", "start", "redis"]);
    let logged = ElementType::Command {
        start_command: "x".to_string(),
        args: vec![],
        log_file: Some("api.log".to_string()),
    };
    assert_eq!(logged.start_invocation().output_file.as_deref(), Some("api.log"));
    assert_eq!(logged.kind_name(), "Command");
    assert_eq!(cfg.elements_config[1].element_type.kind_name(), "Service");
}

#[test]
fn stop_steps() {
    let cfg = sample();
    let mut procs = ProcessTable::new();
    procs.add(40, vec!["python".to_string(), "-m".to_string(), "http.server".to_string()]);
    let api = &cfg.elements_config[0].element_type;

    let mut st = FastUpState::new();
    st.register_element("api".to_string(), 40, "Command".to_string());
    assert!(matches!(api.stop_step(41, &mut st, "api", &procs), StopStep::NoProcess));
    assert!(st.get_element("api").is_some());
    let step = api.stop_step(40, &mut st, "api", &procs);
    assert!(matches!(step, StopStep::Kill(40)));
    assert!(st.get_element("api").is_some());
    finish_stop(&mut st, "api", &step);
    assert!(st.get_element("api").is_none());

    let mut st = FastUpState::new();
    st.register_element("api".to_string(), 40, "Command".to_string());
    let node = &cfg.elements_config[2].element_type;
    assert!(matches!(node.stop_step(40, &mut st, "api", &procs), StopStep::Mismatch));
    assert!(st.get_element("api").is_none());
    assert!(matches!(api.stop_step(40, &mut st, "api", &procs), StopStep::Mismatch));

    st.register_external_element("redis".to_string(), 0, "Service".to_string());
    let step = cfg.elements_config[1].element_type.stop_step(0, &mut st, "redis", &procs);
    match &step {
        StopStep::StopService(inv) => {
            assert_eq!(inv.program, "sudo");
            assert_eq!(inv.args, vec!["systemctl", "stop", "redis"]);
        }
        _ => panic!("expected a service stop"),
    }
    assert!(st.get_element("redis").is_some());
    finish_stop(&mut st, "redis", &step);
    assert!(st.get_element("redis").is_none());
    finish_stop(&mut st, "api", &StopStep::NoProcess);
}

#[test]
fn choose_pid_to_stop() {
    let mut procs = ProcessTable::new();
    procs.add(10, vec![]);
    procs.add(20, vec![]);
    assert_eq!(pid_to_stop(10, &procs, Some(20)), Some(10));
    assert_eq!(pid_to_stop(11, &procs, Some(20)), Some(20));
    assert_eq!(pid_to_stop(11, &procs, Some(21)), None);
    assert_eq!(pid_to_stop(11, &procs, None), None);
    assert_eq!(pid_to_stop(11, &procs, Some(0)), None);
}

#[test]
fn record_started_elements() {
    let cfg = sample();
    let mut st = FastUpState::new();
    fastup::config::record_started(&mut st, &cfg.elements_config[0], 321);
    fastup::config::record_started(&mut st, &cfg.elements_config[1], 999);
    let api = st.get_element("api").unwrap();
    assert_eq!(api.pid, 321);
    assert_eq!(api.element_type, "Command");
    assert!(api.started_by_fastup);
    let redis = st.get_element("redis").unwrap();
    assert_eq!(redis.pid, 0);
    assert_eq!(redis.element_type, "Service");
}
