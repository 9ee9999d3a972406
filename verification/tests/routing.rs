use lib::executor::Executor;
use lib::routing::EndpointTable;

#[test]
fn registered_paths_resolve_to_their_endpoint() {
    let mut table = EndpointTable::new();
    assert_eq!(table.add("/"), 0);
    assert_eq!(table.add("/sleep"), 1);
    assert_eq!(table.add("/"), 0);
    assert_eq!(table.len(), 2);
    assert_eq!(table.resolve("/"), Some(0));
    assert_eq!(table.resolve("/sleep"), Some(1));
    assert_eq!(table.resolve("/other"), None);
    assert_eq!(table.find("/sleep"), Some(1));
}

#[test]
fn fallback_endpoint_answers_other_paths() {
    let mut table = EndpointTable::new();
    table.add("/a");
    table.add("*");
    assert_eq!(table.resolve("/a"), Some(0));
    assert_eq!(table.resolve("/b"), Some(1));
    let copy = table.duplicate();
    assert_eq!(copy.resolve("/b"), Some(1));
    assert_eq!(copy.paths(), &vec!["/a".to_string(), "*".to_string()]);
}

struct Idle;

impl Executor for Idle {}

#[test]
fn default_executor_does_not_run_jobs() {
    let mut executor = Idle;
    let ran = std::sync::Arc::new(std::sync::atomic::AtomicBool::new(false));
    let flag = ran.clone();
    executor.execute_mut(move || flag.store(true, std::sync::atomic::Ordering::SeqCst));
    assert!(!ran.load(std::sync::atomic::Ordering::SeqCst));
}
