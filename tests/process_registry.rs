use dev_services::registry::{ProcessRegistry, ServiceError, ServiceKey};
use std::sync::{Arc, Mutex};

fn start(
    reg: &mut ProcessRegistry<u32>,
    service_type: &str,
    project_path: &str,
    launched: Result<(u32, u32), String>,
) -> Result<u32, ServiceError> {
    reg.check_start(service_type, project_path, true)?;
    reg.record_start(service_type, project_path, "npm run dev", launched)
}

#[test]
fn second_start_is_refused() {
    let mut reg = ProcessRegistry::new();
    assert_eq!(start(&mut reg, "frontend", "/p", Ok((1, 101))), Ok(101));
    assert_eq!(start(&mut reg, "frontend", "/p", Ok((2, 102))), Err(ServiceError::AlreadyRunning));
    assert_eq!(reg.len(), 1);
    assert!(reg.contains(&ServiceKey::new("frontend", "/p")));
}

#[test]
fn stop_without_entry_is_refused() {
    let mut reg: ProcessRegistry<u32> = ProcessRegistry::new();
    assert_eq!(start(&mut reg, "backend", "/p", Ok((1, 7))), Ok(7));
    let r = reg.stop_service("frontend", "/p");
    assert_eq!(r.err(), Some(ServiceError::NotRunning));
    assert_eq!(reg.len(), 1);
}

#[test]
fn start_stop_start() {
    let mut reg = ProcessRegistry::new();
    assert_eq!(start(&mut reg, "backend", "/p", Ok((1, 11))), Ok(11));
    let stopped = reg.stop_service("backend", "/p").ok().unwrap();
    assert_eq!(stopped.handle, 1);
    assert_eq!(stopped.pid, 11);
    assert_eq!(stopped.command, "npm run dev");
    assert_eq!(stopped.working_dir, "/p");
    assert_eq!(reg.len(), 0);
    assert_eq!(start(&mut reg, "backend", "/p", Ok((2, 12))), Ok(12));
}

#[test]
fn missing_directory_is_refused() {
    let reg: ProcessRegistry<u32> = ProcessRegistry::new();
    assert_eq!(reg.check_start("frontend", "/gone", false), Err(ServiceError::PathNotFound));
}

#[test]
fn taken_key_reported_before_missing_directory() {
    let mut reg = ProcessRegistry::new();
    assert_eq!(start(&mut reg, "frontend", "/p", Ok((1, 5))), Ok(5));
    assert_eq!(reg.check_start("frontend", "/p", false), Err(ServiceError::AlreadyRunning));
}

#[test]
fn failed_launch_registers_nothing() {
    let mut reg = ProcessRegistry::new();
    let r = start(&mut reg, "frontend", "/p", Err("sh: not found".to_string()));
    assert_eq!(r, Err(ServiceError::SpawnFailed("sh: not found".to_string())));
    assert_eq!(reg.len(), 0);
    assert_eq!(start(&mut reg, "frontend", "/p", Ok((3, 9))), Ok(9));
}

#[test]
fn keys_are_path_and_type() {
    let mut reg = ProcessRegistry::new();
    assert_eq!(start(&mut reg, "b:c", "a", Ok((1, 1))), Ok(1));
    assert_eq!(start(&mut reg, "c", "a:b", Ok((2, 2))), Ok(2));
    assert_eq!(reg.len(), 2);
}

fn start_shared(reg: &Mutex<ProcessRegistry<u32>>, service_type: &str, pid: u32) -> Result<u32, ServiceError> {
    let mut guard = reg.lock().unwrap();
    guard.check_start(service_type, "/p", true)?;
    guard.record_start(service_type, "/p", "run", Ok((pid, pid)))
}

#[test]
fn concurrent_starts() {
    let reg = Arc::new(Mutex::new(ProcessRegistry::new()));
    let first = Arc::clone(&reg);
    let second = Arc::clone(&reg);
    assert!(start_shared(&first, "frontend", 1).is_ok());
    assert!(start_shared(&second, "backend", 2).is_ok());
    assert_eq!(reg.lock().unwrap().len(), 2);

    let results = vec![start_shared(&first, "worker", 3), start_shared(&second, "worker", 4)];
    assert_eq!(results.iter().filter(|r| r.is_ok()).count(), 1);
    assert!(results.contains(&Err(ServiceError::AlreadyRunning)));
    assert_eq!(reg.lock().unwrap().len(), 3);
}
