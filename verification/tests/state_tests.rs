use fastup::elements::ElementInfo;
use fastup::process::ProcessTable;
use fastup::state::{command_line_matches, FastUpState};

fn strings(v: &[&str]) -> Vec<String> {
    v.iter().map(|s| s.to_string()).collect()
}

#[test]
fn register_then_get() {
    let mut st = FastUpState::new();
    st.register_element("api".to_string(), 4242, "Command".to_string());
    let info = st.get_element("api").expect("registered");
    assert_eq!(info.pid, 4242);
    assert_eq!(info.name, "api");
    assert_eq!(info.element_type, "Command");
    assert_eq!(info.start_time, 0);
    assert!(info.started_by_fastup);
    assert!(st.get_element("db").is_none());
    assert!(st.contains_element("api"));
}

#[test]
fn register_external_marks_not_started_by_fastup() {
    let mut st = FastUpState::new();
    st.register_external_element("redis".to_string(), 0, "Service".to_string());
    let info = st.get_element("redis").unwrap();
    assert_eq!(info.pid, 0);
    assert!(!info.started_by_fastup);
}

#[test]
fn register_replaces_previous_record() {
    let mut st = FastUpState::new();
    st.register_element("api".to_string(), 1, "Command".to_string());
    st.register_external_element("api".to_string(), 2, "Command".to_string());
    assert_eq!(st.get_element("api").unwrap().pid, 2);
    assert_eq!(st.entries().len(), 1);
}

#[test]
fn remove_forgets_element() {
    let mut st = FastUpState::new();
    st.register_element("api".to_string(), 1, "Command".to_string());
    st.register_element("web".to_string(), 2, "Command".to_string());
    let removed = st.remove_element("api").unwrap();
    assert_eq!(removed.pid, 1);
    assert!(st.get_element("api").is_none());
    assert_eq!(st.get_element("web").unwrap().pid, 2);
    assert!(st.remove_element("api").is_none());
}

#[test]
fn cleanup_keeps_running_elements_only() {
    let mut st = FastUpState::new();
    st.register_element("a".to_string(), 10, "Command".to_string());
    st.register_element("b".to_string(), 20, "Command".to_string());
    st.register_external_element("c".to_string(), 30, "Command".to_string());
    let mut procs = ProcessTable::new();
    procs.add(20, strings(&["node", "b.js"]));
    procs.add(30, strings(&["python", "-m", "http.server"]));
    let remaining = st.cleanup_dead_elements(&procs);
    assert_eq!(remaining.len(), 2);
    let mut names: Vec<&str> = remaining.iter().map(|(n, _)| n.as_str()).collect();
    names.sort();
    assert_eq!(names, vec!["b", "c"]);
    assert!(remaining.iter().all(|(n, i)| st.get_element(n).map(|g| g.pid) == Some(i.pid)));
    assert!(st.get_element("a").is_none());
    assert_eq!(st.get_element("b").unwrap().pid, 20);
    assert_eq!(st.get_element("c").unwrap().pid, 30);
    st.cleanup_dead_elements(&procs);
    assert_eq!(st.entries().len(), 2);
}

#[test]
fn validate_checks_recorded_process_command() {
    let mut st = FastUpState::new();
    st.register_element("web".to_string(), 77, "Command".to_string());
    let mut procs = ProcessTable::new();
    procs.add(77, strings(&["python3", "-m", "http.server", "8081"]));
    assert!(st.validate("web", "python3", &procs));
    assert!(st.validate("web", "http.server 8081", &procs));
    let empty = ProcessTable::new();
    assert!(!st.validate("web", "python3", &empty));
    assert!(st.get_element("web").is_some());
    assert!(!st.validate("other", "python3", &procs));
    assert!(!st.validate("web", "node", &procs));
    assert!(st.get_element("web").is_none());
}

#[test]
fn command_line_joined_by_spaces() {
    let cmd = strings(&["a", "b c", "d"]);
    assert!(command_line_matches(&cmd, "b c d"));
    assert!(command_line_matches(&cmd, ""));
    assert!(!command_line_matches(&cmd, "ab"));
    assert!(!command_line_matches(&Vec::new(), "a"));
}

#[test]
fn process_table_lookup() {
    let mut procs = ProcessTable::new();
    procs.add(5, strings(&["x"]));
    procs.add(5, strings(&["y"]));
    assert!(procs.is_running(5));
    assert!(!procs.is_running(6));
    assert_eq!(procs.command_line(5).unwrap(), &strings(&["x"]));
}

#[test]
fn insert_element_keeps_given_record() {
    let mut st = FastUpState::new();
    let info = ElementInfo {
        pid: 9,
        name: "other-name".to_string(),
        start_time: 17,
        element_type: "Service".to_string(),
        started_by_fastup: false,
    };
    st.insert_element("svc".to_string(), info);
    let got = st.get_element("svc").unwrap();
    assert_eq!(got.start_time, 17);
    assert_eq!(got.name, "other-name");
}
