use dev_services::detect::{detect_project, name_or_unknown, project_name, ProjectProbe};
use dev_services::registry::ServiceError;

fn probe(exists: bool, manifest: bool, requirements: bool, entry: bool) -> ProjectProbe {
    ProjectProbe {
        exists,
        frontend_manifest: manifest,
        backend_requirements: requirements,
        backend_entry: entry,
    }
}

#[test]
fn frontend_only_project() {
    let p = probe(true, true, false, false);
    let d = detect_project("/work/shop", &p, &vec![], &vec![]).unwrap();
    assert!(d.has_frontend);
    assert!(!d.has_backend);
    assert_eq!(d.frontend_port, Some(5190));
    assert_eq!(d.backend_port, None);
    assert_eq!(d.project_name, "shop");
}

#[test]
fn missing_path_is_refused() {
    let p = probe(false, true, true, true);
    let r = detect_project("/no/such/dir", &p, &vec![], &vec![]);
    assert_eq!(r.unwrap_err(), ServiceError::PathNotFound);
}

#[test]
fn backend_from_entry_point_alone() {
    let p = probe(true, false, false, true);
    let env = "BACKEND_PORT=8123".to_string();
    let d = detect_project("/work/api", &p, &vec!["port: 3000".to_string()], &vec![env]).unwrap();
    assert!(!d.has_frontend);
    assert!(d.has_backend);
    assert_eq!(d.frontend_port, None);
    assert_eq!(d.backend_port, Some(8123));
}

#[test]
fn both_sides_with_configured_ports() {
    let p = probe(true, true, true, false);
    let vite = "  server: {\n    port: 5200,\n  },".to_string();
    let d = detect_project("/work/app", &p, &vec![vite], &vec![]).unwrap();
    assert_eq!(d.frontend_port, Some(5200));
    assert_eq!(d.backend_port, Some(8000));
}

#[test]
fn names_of_projects() {
    assert_eq!(project_name("/home/me/shop"), "shop");
    assert_eq!(project_name("/home/me/shop/"), "shop");
    assert_eq!(project_name("/"), "Unknown");
    assert_eq!(project_name(""), "Unknown");
    assert_eq!(name_or_unknown(Some("x".to_string())), "x");
    assert_eq!(name_or_unknown(None), "Unknown");
}

#[test]
fn probe_presence() {
    assert!(probe(true, true, false, false).has_frontend());
    assert!(!probe(true, false, false, false).has_backend());
    assert!(probe(true, false, true, false).has_backend());
}
