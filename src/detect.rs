use vstd::prelude::*;
use crate::port::{detect_port, port_of_configs, Side};
use crate::registry::ServiceError;

verus! {

/// Directory of the frontend, under the project root.
pub const FRONTEND_DIR: &'static str = "frontend";

/// Directory of the backend, under the project root.
pub const BACKEND_DIR: &'static str = "backend";

/// The frontend's dependency manifest, inside its directory.
pub const FRONTEND_MANIFEST: &'static str = "package.json";

/// The backend's dependency list, inside its directory.
pub const BACKEND_REQUIREMENTS: &'static str = "requirements.txt";

/// The backend's entry point, inside its directory.
pub const BACKEND_ENTRY: &'static str = "main.py";

/// Which of the files that detection looks at exist.
#[derive(Clone, Copy, Debug)]
pub struct ProjectProbe {
    /// The project directory itself.
    pub exists: bool,
    /// `frontend/package.json`.
    pub frontend_manifest: bool,
    /// `backend/requirements.txt`.
    pub backend_requirements: bool,
    /// `backend/main.py`.
    pub backend_entry: bool,
}

pub open spec fn frontend_present(p: ProjectProbe) -> bool {
    p.frontend_manifest
}

pub open spec fn backend_present(p: ProjectProbe) -> bool {
    p.backend_requirements || p.backend_entry
}

impl ProjectProbe {
    /// A frontend is present where its manifest exists.
    pub fn has_frontend(&self) -> (r: bool)
        ensures
            r == frontend_present(*self),
    {
        self.frontend_manifest
    }

    /// A backend is present where its dependency list or its entry point exists.
    pub fn has_backend(&self) -> (r: bool)
        ensures
            r == backend_present(*self),
    {
        self.backend_requirements || self.backend_entry
    }
}

/// What detection reports of a project.
#[derive(Debug)]
pub struct DetectedProject {
    pub has_frontend: bool,
    pub has_backend: bool,
    pub frontend_port: Option<u16>,
    pub backend_port: Option<u16>,
    pub project_name: String,
}

/// The last component of a path, where it has one.
pub uninterp spec fn final_component_of(path: Seq<char>) -> Option<Seq<char>>;

/// Relies on `std::path::Path::file_name`: the path's last component, none
/// for a root, an empty path or one that ends in `..`.
#[verifier::external_body]
fn final_component(path: &str) -> (r: Option<String>)
    ensures
        match r {
            Some(n) => final_component_of(path@) == Some(n@),
            None => final_component_of(path@) is None,
        },
{
    std::path::Path::new(path).file_name().and_then(|n| n.to_str()).map(|n| n.to_string())
}

/// A project's name: its directory's last component, else `Unknown`.
pub open spec fn project_name_of(component: Option<Seq<char>>) -> Seq<char> {
    match component {
        Some(n) => n,
        None => "Unknown"@,
    }
}

/// The name for a last path component, or `Unknown` where there is none.
pub fn name_or_unknown(component: Option<String>) -> (r: String)
    ensures
        r@ == project_name_of(
            match component {
                Some(n) => Some(n@),
                None => None,
            },
        ),
{
    match component {
        Some(n) => n,
        None => "Unknown".to_string(),
    }
}

/// The name of the project in the given directory.
pub fn project_name(project_path: &str) -> (r: String)
    ensures
        r@ == project_name_of(final_component_of(project_path@)),
{
    name_or_unknown(final_component(project_path))
}

/// Describes the project at `project_path` from what exists there and from the
/// texts of the configuration files of each side that could be read. A side's
/// port is reported where the side is present, and only there.
pub fn detect_project(
    project_path: &str,
    probe: &ProjectProbe,
    frontend_configs: &Vec<String>,
    backend_configs: &Vec<String>,
) -> (r: Result<DetectedProject, ServiceError>)
    ensures
        !probe.exists <==> r == Err::<DetectedProject, ServiceError>(ServiceError::PathNotFound),
        probe.exists <==> r is Ok,
        r matches Ok(d) ==> {
            &&& d.has_frontend == frontend_present(*probe)
            &&& d.has_backend == backend_present(*probe)
            &&& d.frontend_port == if frontend_present(*probe) {
                Some(port_of_configs(Side::Frontend, frontend_configs@))
            } else {
                None
            }
            &&& d.backend_port == if backend_present(*probe) {
                Some(port_of_configs(Side::Backend, backend_configs@))
            } else {
                None
            }
            &&& d.project_name@ == project_name_of(final_component_of(project_path@))
        },
{
    if !probe.exists {
        return Err(ServiceError::PathNotFound);
    }
    let has_frontend = probe.has_frontend();
    let has_backend = probe.has_backend();
    let frontend_port = if has_frontend {
        detect_port(Side::Frontend, frontend_configs)
    } else {
        None
    };
    let backend_port = if has_backend {
        detect_port(Side::Backend, backend_configs)
    } else {
        None
    };
    Ok(
        DetectedProject {
            has_frontend,
            has_backend,
            frontend_port,
            backend_port,
            project_name: project_name(project_path),
        },
    )
}

} // verus!
