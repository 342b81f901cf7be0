use vstd::prelude::*;

verus! {

/// The ways in which a service operation fails.
#[derive(Debug, PartialEq, Eq)]
pub enum ServiceError {
    /// The project directory does not exist.
    PathNotFound,
    /// A process is already registered under the key.
    AlreadyRunning,
    /// No process is registered under the key.
    NotRunning,
    /// The operating system refused to start the process; its message.
    SpawnFailed(String),
    /// The registry's lock could not be taken.
    LockUnavailable,
}

/// Identifies a running service: the project it belongs to and its type.
#[derive(Debug)]
pub struct ServiceKey {
    pub project_path: String,
    pub service_type: String,
}

pub type KeyView = (Seq<char>, Seq<char>);

impl View for ServiceKey {
    type V = KeyView;

    open spec fn view(&self) -> KeyView {
        (self.project_path@, self.service_type@)
    }
}

impl ServiceKey {
    pub fn new(service_type: &str, project_path: &str) -> (r: ServiceKey)
        ensures
            r@ == (project_path@, service_type@),
    {
        ServiceKey { project_path: project_path.to_string(), service_type: service_type.to_string() }
    }

    pub fn same(&self, other: &ServiceKey) -> (r: bool)
        ensures
            r == (self@ == other@),
    {
        self.project_path == other.project_path && self.service_type == other.service_type
    }
}

/// A child process that the registry tracks: its handle, its identifier,
/// the command line that launched it and its working directory.
pub struct ManagedProcess<P> {
    pub handle: P,
    pub pid: u32,
    pub command: String,
    pub working_dir: String,
}

/// What the registry knows of a process, over plain values.
pub struct ProcessView<P> {
    pub handle: P,
    pub pid: u32,
    pub command: Seq<char>,
    pub working_dir: Seq<char>,
}

impl<P> View for ManagedProcess<P> {
    type V = ProcessView<P>;

    open spec fn view(&self) -> ProcessView<P> {
        ProcessView {
            handle: self.handle,
            pid: self.pid,
            command: self.command@,
            working_dir: self.working_dir@,
        }
    }
}

pub type RegistryView<P> = Map<KeyView, ProcessView<P>>;

/// The running processes, at most one for each service key.
pub struct ProcessRegistry<P> {
    entries: Vec<(ServiceKey, ManagedProcess<P>)>,
    model: Ghost<RegistryView<P>>,
}

impl<P> View for ProcessRegistry<P> {
    type V = RegistryView<P>;

    closed spec fn view(&self) -> RegistryView<P> {
        self.model@
    }
}

/// What `start` decides before anything is launched: a key that is taken
/// is refused first, then a project directory that does not exist.
pub open spec fn start_check<P>(m: RegistryView<P>, key: KeyView, path_exists: bool) -> Result<
    (),
    ServiceError,
> {
    if m.contains_key(key) {
        Err(ServiceError::AlreadyRunning)
    } else if !path_exists {
        Err(ServiceError::PathNotFound)
    } else {
        Ok(())
    }
}

/// The registry after a launch attempt under a free key, and what is reported:
/// a launched process is registered and its identifier reported; a refused
/// launch leaves the registry as it was.
pub open spec fn start_record<P>(
    m: RegistryView<P>,
    key: KeyView,
    command: Seq<char>,
    launched: Result<(P, u32), String>,
) -> (RegistryView<P>, Result<u32, ServiceError>) {
    match launched {
        Ok((handle, pid)) => (
            m.insert(key, ProcessView { handle, pid, command, working_dir: key.0 }),
            Ok(pid),
        ),
        Err(msg) => (m, Err(ServiceError::SpawnFailed(msg))),
    }
}

/// A whole start: the check, then, where it passes, the launch's outcome.
pub open spec fn start_outcome<P>(
    m: RegistryView<P>,
    key: KeyView,
    path_exists: bool,
    command: Seq<char>,
    launched: Result<(P, u32), String>,
) -> (RegistryView<P>, Result<u32, ServiceError>) {
    match start_check(m, key, path_exists) {
        Err(e) => (m, Err(e)),
        Ok(()) => start_record(m, key, command, launched),
    }
}

/// A stop: the key's process leaves the registry and is handed back for
/// termination; without one, `NotRunning` and no change.
pub open spec fn stop_outcome<P>(m: RegistryView<P>, key: KeyView) -> (
    RegistryView<P>,
    Result<ProcessView<P>, ServiceError>,
) {
    if m.contains_key(key) {
        (m.remove(key), Ok(m[key]))
    } else {
        (m, Err(ServiceError::NotRunning))
    }
}

impl<P> ProcessRegistry<P> {
    pub closed spec fn wf(&self) -> bool {
        &&& forall|i: int, j: int|
            0 <= i < j < self.entries@.len() ==> self.entries@[i].0@ != self.entries@[j].0@
        &&& forall|k: KeyView|
            self.model@.contains_key(k) <==> exists|i: int|
                0 <= i < self.entries@.len() && self.entries@[i].0@ == k
        &&& forall|i: int|
            0 <= i < self.entries@.len() ==> self.model@[self.entries@[i].0@]
                == self.entries@[i].1@
    }

    pub fn new() -> (r: Self)
        ensures
            r.wf(),
            r@ == RegistryView::<P>::empty(),
    {
        ProcessRegistry { entries: Vec::new(), model: Ghost(Map::empty()) }
    }

    fn find(&self, key: &ServiceKey) -> (r: Option<usize>)
        requires
            self.wf(),
        ensures
            match r {
                Some(i) => i < self.entries@.len() && self.entries@[i as int].0@ == key@,
                None => !self@.contains_key(key@),
            },
    {
        let mut i: usize = 0;
        while i < self.entries.len()
            invariant
                i <= self.entries@.len(),
                forall|j: int| 0 <= j < i ==> self.entries@[j].0@ != key@,
            decreases self.entries.len() - i,
        {
            if self.entries[i].0.same(key) {
                return Some(i);
            }
            i = i + 1;
        }
        None
    }

    /// Whether a process is registered under the key.
    pub fn contains(&self, key: &ServiceKey) -> (r: bool)
        requires
            self.wf(),
        ensures
            r == self@.contains_key(key@),
    {
        self.find(key).is_some()
    }

    /// Number of registered processes.
    pub fn len(&self) -> (r: usize)
        requires
            self.wf(),
        ensures
            r == self@.len(),
    {
        proof {
            self.lemma_len();
        }
        self.entries.len()
    }

    proof fn lemma_len(&self)
        requires
            self.wf(),
        ensures
            self@.len() == self.entries@.len(),
            self@.dom().finite(),
        decreases self.entries@.len(),
    {
        let keys = self.entries@.map_values(|e: (ServiceKey, ManagedProcess<P>)| e.0@);
        assert forall|k: KeyView| self@.dom().contains(k) <==> keys.to_set().contains(k) by {
            if self@.dom().contains(k) {
                let i = choose|i: int| 0 <= i < self.entries@.len() && self.entries@[i].0@ == k;
                assert(keys[i] == k);
            }
            if keys.to_set().contains(k) {
                let i = choose|i: int| 0 <= i < keys.len() && keys[i] == k;
                assert(self.entries@[i].0@ == k);
            }
        }
        assert(self@.dom() =~= keys.to_set());
        assert(keys.no_duplicates());
        keys.unique_seq_to_set();
    }

    /// Registers a process under a free key.
    pub fn insert(&mut self, key: ServiceKey, process: ManagedProcess<P>)
        requires
            old(self).wf(),
            !old(self)@.contains_key(key@),
        ensures
            final(self).wf(),
            final(self)@ == old(self)@.insert(key@, process@),
    {
        let ghost k = key@;
        let ghost v = process@;
        let ghost before = self.entries@;
        self.entries.push((key, process));
        self.model = Ghost(self.model@.insert(k, v));
        assert forall|q: KeyView|
            self.model@.contains_key(q) implies exists|i: int|
                0 <= i < self.entries@.len() && self.entries@[i].0@ == q by {
            if q == k {
                assert(self.entries@[self.entries@.len() - 1].0@ == q);
            } else {
                let w = choose|i: int| 0 <= i < before.len() && before[i].0@ == q;
                assert(self.entries@[w].0@ == q);
            }
        }
    }

    /// Takes the key's process out of the registry, if there is one.
    pub fn remove(&mut self, key: &ServiceKey) -> (r: Option<ManagedProcess<P>>)
        requires
            old(self).wf(),
        ensures
            final(self).wf(),
            match r {
                Some(p) => old(self)@.contains_key(key@) && p@ == old(self)@[key@]
                    && final(self)@ == old(self)@.remove(key@),
                None => !old(self)@.contains_key(key@) && final(self)@ == old(self)@,
            },
    {
        match self.find(key) {
            None => None,
            Some(i) => {
                let ghost before = self.entries@;
                let (_, p) = self.entries.remove(i);
                self.model = Ghost(self.model@.remove(key@));
                assert forall|j: int|
                    0 <= j < self.entries@.len() implies #[trigger] self.entries@[j] == (if j
                    < i {
                    before[j]
                } else {
                    before[j + 1]
                }) by {}
                assert forall|q: KeyView|
                    self.model@.contains_key(q) implies exists|j: int|
                        0 <= j < self.entries@.len() && self.entries@[j].0@ == q by {
                    let w = choose|j: int| 0 <= j < before.len() && before[j].0@ == q;
                    if w < i {
                        assert(self.entries@[w].0@ == q);
                    } else {
                        assert(self.entries@[w - 1].0@ == q);
                    }
                }
                Some(p)
            },
        }
    }

    /// Decides whether a start may go on: `AlreadyRunning` where the key is
    /// taken, else `PathNotFound` where the project directory is missing.
    pub fn check_start(&self, service_type: &str, project_path: &str, path_exists: bool) -> (r:
        Result<(), ServiceError>)
        requires
            self.wf(),
        ensures
            r == start_check(self@, (project_path@, service_type@), path_exists),
    {
        let key = ServiceKey::new(service_type, project_path);
        if self.contains(&key) {
            Err(ServiceError::AlreadyRunning)
        } else if !path_exists {
            Err(ServiceError::PathNotFound)
        } else {
            Ok(())
        }
    }

    /// Records the outcome of launching `command` in `project_path`: the
    /// launched process with its identifier, or the system's message.
    pub fn record_start(
        &mut self,
        service_type: &str,
        project_path: &str,
        command: &str,
        launched: Result<(P, u32), String>,
    ) -> (r: Result<u32, ServiceError>)
        requires
            old(self).wf(),
            !old(self)@.contains_key((project_path@, service_type@)),
        ensures
            final(self).wf(),
            (final(self)@, r) == start_record(
                old(self)@,
                (project_path@, service_type@),
                command@,
                launched,
            ),
    {
        match launched {
            Ok((handle, pid)) => {
                let process = ManagedProcess {
                    handle,
                    pid,
                    command: command.to_string(),
                    working_dir: project_path.to_string(),
                };
                self.insert(ServiceKey::new(service_type, project_path), process);
                Ok(pid)
            },
            Err(msg) => Err(ServiceError::SpawnFailed(msg)),
        }
    }

    /// Stops tracking the service: its process leaves the registry and is
    /// handed back to be terminated; `NotRunning` where there is none.
    pub fn stop_service(&mut self, service_type: &str, project_path: &str) -> (r: Result<
        ManagedProcess<P>,
        ServiceError,
    >)
        requires
            old(self).wf(),
        ensures
            final(self).wf(),
            final(self)@ == stop_outcome(old(self)@, (project_path@, service_type@)).0,
            match (r, stop_outcome(old(self)@, (project_path@, service_type@)).1) {
                (Ok(p), Ok(v)) => p@ == v,
                (Err(e), Err(f)) => e == f,
                _ => false,
            },
    {
        let key = ServiceKey::new(service_type, project_path);
        match self.remove(&key) {
            Some(p) => Ok(p),
            None => Err(ServiceError::NotRunning),
        }
    }
}

/// A start that succeeded is followed by a refused one: a second start under
/// the same key fails with `AlreadyRunning` whatever its inputs, leaves the
/// registry as it was, and the key keeps its one process.
pub proof fn lemma_second_start_refused<P>(
    m: RegistryView<P>,
    key: KeyView,
    path_exists: bool,
    command: Seq<char>,
    launched: Result<(P, u32), String>,
    path_exists2: bool,
    command2: Seq<char>,
    launched2: Result<(P, u32), String>,
)
    requires
        start_outcome(m, key, path_exists, command, launched).1 is Ok,
    ensures
        ({
            let m1 = start_outcome(m, key, path_exists, command, launched).0;
            &&& m1.contains_key(key)
            &&& start_outcome(m1, key, path_exists2, command2, launched2) == (
                m1,
                Err::<u32, ServiceError>(ServiceError::AlreadyRunning),
            )
        }),
{
}

/// Start, stop and start again under one key succeed both times, where the
/// key is free at first, the directory exists and both launches succeed.
pub proof fn lemma_restart<P>(
    m: RegistryView<P>,
    key: KeyView,
    command: Seq<char>,
    first: (P, u32),
    second: (P, u32),
)
    requires
        !m.contains_key(key),
    ensures
        ({
            let m1 = start_outcome(m, key, true, command, Ok(first)).0;
            let m2 = stop_outcome(m1, key).0;
            &&& start_outcome(m, key, true, command, Ok(first)).1 == Ok::<u32, ServiceError>(
                first.1,
            )
            &&& m1.contains_key(key)
            &&& stop_outcome(m1, key).1 is Ok
            &&& !m2.contains_key(key)
            &&& m2 == m
            &&& start_outcome(m2, key, true, command, Ok(second)).1 == Ok::<u32, ServiceError>(
                second.1,
            )
        }),
{
    let m1 = start_outcome(m, key, true, command, Ok(first)).0;
    assert(stop_outcome(m1, key).0 =~= m);
}

/// Starts under two different free keys both succeed, in either order, and
/// leave both keys registered.
pub proof fn lemma_distinct_starts<P>(
    m: RegistryView<P>,
    k1: KeyView,
    k2: KeyView,
    c1: Seq<char>,
    c2: Seq<char>,
    l1: (P, u32),
    l2: (P, u32),
)
    requires
        k1 != k2,
        !m.contains_key(k1),
        !m.contains_key(k2),
    ensures
        ({
            let a = start_outcome(m, k1, true, c1, Ok(l1));
            let b = start_outcome(a.0, k2, true, c2, Ok(l2));
            &&& a.1 is Ok && b.1 is Ok
            &&& b.0.contains_key(k1) && b.0.contains_key(k2)
        }),
        ({
            let a = start_outcome(m, k2, true, c2, Ok(l2));
            let b = start_outcome(a.0, k1, true, c1, Ok(l1));
            &&& a.1 is Ok && b.1 is Ok
            &&& b.0.contains_key(k1) && b.0.contains_key(k2)
        }),
{
}

/// Of two starts under one key, whatever their inputs and in whichever
/// order they run, at most one succeeds; the other fails with
/// `AlreadyRunning` where the first did succeed.
pub proof fn lemma_same_key_starts<P>(
    m: RegistryView<P>,
    key: KeyView,
    e1: bool,
    c1: Seq<char>,
    l1: Result<(P, u32), String>,
    e2: bool,
    c2: Seq<char>,
    l2: Result<(P, u32), String>,
)
    ensures
        ({
            let a = start_outcome(m, key, e1, c1, l1);
            let b = start_outcome(a.0, key, e2, c2, l2);
            &&& !(a.1 is Ok && b.1 is Ok)
            &&& a.1 is Ok ==> b.1 == Err::<u32, ServiceError>(ServiceError::AlreadyRunning)
        }),
{
}

} // verus!
