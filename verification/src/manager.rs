//! The bookkeeping of running services: which services run, where they
//! listen, which failed and why. Starting a service is refused while
//! another running service holds the same listen binding; the tasks, their
//! cancellation and their counters stay with the caller, which hands in
//! what it observed of them.

use crate::error::AppError;
use crate::keyed::{
    contains_key, find_key, insert_key, keyed_map, lemma_keyed_dom, lemma_keyed_index, remove_key,
    unique_keys,
};
use crate::models::{RuntimeStatus, ServiceDetail, ServiceKind, ServiceRuntimeSummary};
use crate::text::{dec, dec_u64, from_chars, push_chars, push_str, to_chars, to_owned_string, trim, trim_ws};
use vstd::prelude::*;

verus! {

/// A snapshot of a running service's counters.
#[derive(Debug, Clone, Copy, PartialEq, Eq)]
pub struct ServiceCounters {
    /// Connections open now.
    pub active_connections: u64,
    /// Connections accepted in all.
    pub total_connections: u64,
    /// Bytes received from clients.
    pub bytes_in: u64,
    /// Bytes sent to clients.
    pub bytes_out: u64,
}

impl ServiceCounters {
    /// All counters at zero.
    pub fn new() -> (r: ServiceCounters)
        ensures
            r == (ServiceCounters { active_connections: 0, total_connections: 0, bytes_in: 0, bytes_out: 0 }),
    {
        ServiceCounters { active_connections: 0, total_connections: 0, bytes_in: 0, bytes_out: 0 }
    }
}

/// Where a service listens, the key of the listen domain it may not share
/// with another running service, and whether the local port is probed
/// before start.
#[derive(Debug, Clone)]
pub struct RuntimeBinding {
    pub listen_addr: String,
    pub conflict_key: String,
    pub check_local_port: bool,
}

/// The binding a service would take, or the message of why it has none.
/// A service listens on its own host and port, in the local domain; an
/// SSH remote forward listens on the remote host, in the domain of its
/// SSH profile.
pub open spec fn binding_of(d: ServiceDetail) -> Result<(Seq<char>, Seq<char>, bool), Seq<char>> {
    if !(d.kind is SshRemote) {
        let listen = d.listen_host@ + ":"@ + dec(d.listen_port as nat);
        Ok((listen, "local:"@ + listen, true))
    } else {
        match d.ssh_tunnel {
            None => Err("SSH remote 缺少隧道配置"@),
            Some(cfg) => if cfg.remote_bind_host is None || trim(cfg.remote_bind_host->0@).len() == 0 {
                Err("SSH remote 缺少远程绑定 host"@)
            } else if cfg.remote_bind_port is None || cfg.remote_bind_port->0 == 0 {
                Err("SSH remote 缺少远程绑定端口"@)
            } else {
                let listen = trim(cfg.remote_bind_host->0@) + ":"@ + dec(cfg.remote_bind_port->0 as nat);
                Ok((listen, "ssh_remote:"@ + cfg.ssh_profile_id@ + ":"@ + listen, false))
            },
        }
    }
}

/// The binding of a service.
pub fn runtime_binding(detail: &ServiceDetail) -> (r: Result<RuntimeBinding, AppError>)
    ensures
        match binding_of(*detail) {
            Ok((l, c, p)) => r matches Ok(b) && b.listen_addr@ == l && b.conflict_key@ == c && b.check_local_port
                == p,
            Err(m) => r matches Err(AppError::InvalidInput(x)) && x@ == m,
        },
{
    let remote = match detail.kind {
        ServiceKind::SshRemote => true,
        _ => false,
    };
    if !remote {
        let mut listen = to_chars(detail.listen_host.as_str());
        push_str(&mut listen, ":");
        let p = dec_u64(detail.listen_port as u64);
        push_chars(&mut listen, p.as_slice());
        let mut key = to_chars("local:");
        push_chars(&mut key, listen.as_slice());
        return Ok(
            RuntimeBinding {
                listen_addr: from_chars(listen.as_slice()),
                conflict_key: from_chars(key.as_slice()),
                check_local_port: true,
            },
        );
    }
    let cfg = match &detail.ssh_tunnel {
        Some(c) => c,
        None => return Err(AppError::InvalidInput(to_owned_string("SSH remote 缺少隧道配置"))),
    };
    let host = match &cfg.remote_bind_host {
        Some(h) => {
            let hv = to_chars(h.as_str());
            let t = trim_ws(hv.as_slice());
            if t.len() == 0 {
                return Err(AppError::InvalidInput(to_owned_string("SSH remote 缺少远程绑定 host")));
            }
            t
        },
        None => return Err(AppError::InvalidInput(to_owned_string("SSH remote 缺少远程绑定 host"))),
    };
    let port = match cfg.remote_bind_port {
        Some(p) => {
            if p == 0 {
                return Err(AppError::InvalidInput(to_owned_string("SSH remote 缺少远程绑定端口")));
            }
            p
        },
        None => return Err(AppError::InvalidInput(to_owned_string("SSH remote 缺少远程绑定端口"))),
    };
    let mut listen = host;
    push_str(&mut listen, ":");
    let pd = dec_u64(port as u64);
    push_chars(&mut listen, pd.as_slice());
    let mut key = to_chars("ssh_remote:");
    push_str(&mut key, cfg.ssh_profile_id.as_str());
    push_str(&mut key, ":");
    push_chars(&mut key, listen.as_slice());
    Ok(
        RuntimeBinding {
            listen_addr: from_chars(listen.as_slice()),
            conflict_key: from_chars(key.as_slice()),
            check_local_port: false,
        },
    )
}

/// The error when the local port cannot be bound: UDP services probe a
/// UDP socket, all others a TCP listener.
pub fn port_unavailable(kind: ServiceKind, listen_addr: &str, reason: &str) -> (r: AppError)
    ensures
        r matches AppError::Conflict(m) && m@ == (if kind is UdpForward {
            "UDP 端口不可用 "@
        } else {
            "TCP 端口不可用 "@
        }) + listen_addr@ + ": "@ + reason@,
{
    let mut m = match kind {
        ServiceKind::UdpForward => to_chars("UDP 端口不可用 "),
        _ => to_chars("TCP 端口不可用 "),
    };
    push_str(&mut m, listen_addr);
    push_str(&mut m, ": ");
    push_str(&mut m, reason);
    AppError::Conflict(from_chars(m.as_slice()))
}

/// A running service as the manager records it.
#[derive(Debug, Clone)]
pub struct RunningService {
    pub service_id: String,
    pub kind: ServiceKind,
    pub listen_addr: String,
    pub conflict_key: String,
    pub started_at: String,
}

/// What `start_check` decides.
#[derive(Debug, Clone)]
pub enum StartDecision {
    /// The service already runs: nothing to do.
    AlreadyRunning,
    /// Start the service with this binding (probing the local port first
    /// when the binding says so).
    Start(RuntimeBinding),
}

/// How waiting for a stopped service's task ended.
#[derive(Debug, Clone)]
pub enum StopOutcome {
    /// The task finished.
    Finished,
    /// The task failed; the text of its failure.
    Panicked(String),
    /// The task did not finish in time.
    TimedOut,
}

/// The message of a task that ended by itself.
pub open spec fn exited_message() -> Seq<char> {
    "服务任务已退出"@
}

/// The message of a task that failed while it was stopped.
pub open spec fn stop_failed_message(reason: Seq<char>) -> Seq<char> {
    "服务停止时任务异常: "@ + reason
}

/// The message of a task that did not stop in time.
pub open spec fn stop_timeout_message() -> Seq<char> {
    "服务停止超时，后台任务可能仍在退出"@
}

/// A status as text: its variant, and the message of a failure.
pub open spec fn status_view(s: RuntimeStatus) -> (int, Seq<char>) {
    match s {
        RuntimeStatus::Stopped => (0, Seq::empty()),
        RuntimeStatus::Starting => (1, Seq::empty()),
        RuntimeStatus::Running => (2, Seq::empty()),
        RuntimeStatus::Stopping => (3, Seq::empty()),
        RuntimeStatus::Failed { message } => (4, message@),
    }
}

/// Stopped, as text.
pub open spec fn stopped_view() -> (int, Seq<char>) {
    (0, Seq::empty())
}

/// Running, as text.
pub open spec fn running_view() -> (int, Seq<char>) {
    (2, Seq::empty())
}

/// Failed with a message, as text.
pub open spec fn failed_view(m: Seq<char>) -> (int, Seq<char>) {
    (4, m)
}

/// The status of a service: a running one is running unless its task
/// finished; otherwise its recorded failure, otherwise stopped.
pub open spec fn status_spec(
    running: Map<Seq<char>, RunningService>,
    failed: Map<Seq<char>, Seq<char>>,
    id: Seq<char>,
    finished: bool,
) -> (int, Seq<char>) {
    if running.dom().contains(id) {
        if finished {
            failed_view(exited_message())
        } else {
            running_view()
        }
    } else if failed.dom().contains(id) {
        failed_view(failed[id])
    } else {
        stopped_view()
    }
}

/// The summary of a running service.
pub open spec fn summary_of_running(s: ServiceRuntimeSummary, e: RunningService, finished: bool, c: ServiceCounters) -> bool {
    &&& s.service_id@ == e.service_id@
    &&& s.kind == e.kind
    &&& s.listen_addr@ == e.listen_addr@
    &&& status_view(s.runtime_status) == (if finished {
        failed_view(exited_message())
    } else {
        running_view()
    })
    &&& s.started_at matches Some(t) && t@ == e.started_at@
    &&& s.active_connections == c.active_connections
    &&& s.total_connections == c.total_connections
    &&& s.bytes_in == c.bytes_in
    &&& s.bytes_out == c.bytes_out
}

/// The summary of a failed service.
pub open spec fn summary_of_failed(s: ServiceRuntimeSummary, f: (Seq<char>, Seq<char>)) -> bool {
    &&& s.service_id@ == f.0
    &&& s.kind == ServiceKind::HttpForward
    &&& s.listen_addr@ == Seq::<char>::empty()
    &&& status_view(s.runtime_status) == failed_view(f.1)
    &&& s.started_at is None
    &&& s.active_connections == 0
    &&& s.total_connections == 0
    &&& s.bytes_in == 0
    &&& s.bytes_out == 0
}

/// Whether some running service holds the conflict key.
pub open spec fn holds_key(running: Map<Seq<char>, RunningService>, key: Seq<char>) -> bool {
    exists|id: Seq<char>| running.dom().contains(id) && #[trigger] running[id].conflict_key@ == key
}

/// The text of the failure values.
pub open spec fn texts(m: Map<Seq<char>, String>) -> Map<Seq<char>, Seq<char>> {
    m.map_values(|s: String| s@)
}

/// The registry of running and failed services. Vectors of pairs keyed by
/// service id, with no id listed twice, stand in for `HashMap<String, _>`:
/// vstd gives a map keyed by `String` no specification that lets its
/// lookups be proved, and the views of these vectors are the maps.
pub struct ServiceManager {
    running: Vec<(String, RunningService)>,
    failed: Vec<(String, String)>,
}

impl ServiceManager {
    /// The running services by id.
    pub closed spec fn running(&self) -> Map<Seq<char>, RunningService> {
        keyed_map(self.running@)
    }

    /// The failures recorded, by id.
    pub closed spec fn failed(&self) -> Map<Seq<char>, Seq<char>> {
        texts(keyed_map(self.failed@))
    }

    /// The running services in the order they are listed.
    pub closed spec fn running_list(&self) -> Seq<RunningService> {
        Seq::new(self.running@.len(), |i: int| self.running@[i].1)
    }

    /// The failures in the order they are listed.
    pub closed spec fn failed_list(&self) -> Seq<(Seq<char>, Seq<char>)> {
        Seq::new(self.failed@.len(), |i: int| (self.failed@[i].0@, self.failed@[i].1@))
    }

    /// No id is listed twice in either list, each running service is
    /// listed under its own id, and no two running services share a
    /// conflict key.
    pub closed spec fn wf(&self) -> bool {
        &&& unique_keys(self.running@)
        &&& unique_keys(self.failed@)
        &&& forall|i: int|
            0 <= i < self.running@.len() ==> #[trigger] self.running@[i].0@ == self.running@[i].1.service_id@
        &&& forall|i: int, j: int|
            0 <= i < j < self.running@.len() ==> #[trigger] self.running@[i].1.conflict_key@
                != #[trigger] self.running@[j].1.conflict_key@
    }

    /// No service runs and none failed.
    pub fn new() -> (r: ServiceManager)
        ensures
            r.wf(),
            r.running() == Map::<Seq<char>, RunningService>::empty(),
            r.failed() == Map::<Seq<char>, Seq<char>>::empty(),
    {
        let r = ServiceManager { running: Vec::new(), failed: Vec::new() };
        assert(r.failed() =~= Map::<Seq<char>, Seq<char>>::empty());
        r
    }

    /// What the lists hold: each running service under its own id, every
    /// running id listed, and no two running services sharing a conflict
    /// key; each failure under its id.
    pub proof fn lemma_lists(&self)
        requires
            self.wf(),
        ensures
            self.running_list().len() == self.running().dom().len(),
            self.running().dom().finite(),
            forall|i: int|
                0 <= i < self.running_list().len() ==> self.running().dom().contains(
                    #[trigger] self.running_list()[i].service_id@,
                ) && self.running()[self.running_list()[i].service_id@] == self.running_list()[i],
            forall|id: Seq<char>|
                #[trigger] self.running().dom().contains(id) ==> exists|i: int|
                    0 <= i < self.running_list().len() && #[trigger] self.running_list()[i].service_id@ == id,
            forall|i: int, j: int|
                0 <= i < j < self.running_list().len() ==> #[trigger] self.running_list()[i].conflict_key@
                    != #[trigger] self.running_list()[j].conflict_key@,
            self.failed_list().len() == self.failed().dom().len(),
            forall|i: int|
                0 <= i < self.failed_list().len() ==> self.failed().dom().contains(
                    #[trigger] self.failed_list()[i].0,
                ) && self.failed()[self.failed_list()[i].0] == self.failed_list()[i].1,
    {
        assert forall|i: int| 0 <= i < self.running_list().len() implies self.running().dom().contains(
            #[trigger] self.running_list()[i].service_id@,
        ) && self.running()[self.running_list()[i].service_id@] == self.running_list()[i] by {
            lemma_keyed_index(self.running@, i);
        }
        assert forall|id: Seq<char>| #[trigger] self.running().dom().contains(id) implies exists|i: int|
            0 <= i < self.running_list().len() && #[trigger] self.running_list()[i].service_id@ == id by {
            lemma_keyed_dom(self.running@, id);
            let i = choose|i: int| 0 <= i < self.running@.len() && self.running@[i].0@ == id;
            assert(self.running_list()[i].service_id@ == id);
        }
        assert forall|i: int| 0 <= i < self.failed_list().len() implies self.failed().dom().contains(
            #[trigger] self.failed_list()[i].0,
        ) && self.failed()[self.failed_list()[i].0] == self.failed_list()[i].1 by {
            lemma_keyed_index(self.failed@, i);
        }
        lemma_keyed_len(self.running@);
        lemma_keyed_len(self.failed@);
        assert(self.failed().dom() =~= keyed_map(self.failed@).dom());
    }

    /// Two different running services never hold the same conflict key:
    /// no two services listen on one local address, nor forward one remote
    /// binding of one SSH profile. `new` gives a registry with this
    /// property and every change of the registry keeps it.
    pub proof fn law_distinct_conflict_keys(&self)
        requires
            self.wf(),
        ensures
            forall|a: Seq<char>, b: Seq<char>|
                self.running().dom().contains(a) && self.running().dom().contains(b) && a != b
                    ==> #[trigger] self.running()[a].conflict_key@ != #[trigger] self.running()[b].conflict_key@,
    {
        self.lemma_lists();
        assert forall|a: Seq<char>, b: Seq<char>|
            self.running().dom().contains(a) && self.running().dom().contains(b) && a != b
                implies #[trigger] self.running()[a].conflict_key@ != #[trigger] self.running()[b].conflict_key@ by {
            let i = choose|i: int| 0 <= i < self.running_list().len() && #[trigger] self.running_list()[i].service_id@ == a;
            let j = choose|j: int| 0 <= j < self.running_list().len() && #[trigger] self.running_list()[j].service_id@ == b;
            assert(self.running()[self.running_list()[i].service_id@] == self.running_list()[i]);
            assert(self.running()[self.running_list()[j].service_id@] == self.running_list()[j]);
            if i < j {
                assert(self.running_list()[i].conflict_key@ != self.running_list()[j].conflict_key@);
            } else {
                assert(i != j);
                assert(self.running_list()[j].conflict_key@ != self.running_list()[i].conflict_key@);
            }
        }
    }

    /// Whether a service runs.
    pub fn is_running(&self, service_id: &str) -> (r: bool)
        ensures
            r == self.running().dom().contains(service_id@),
    {
        contains_key(&self.running, service_id)
    }

    /// Whether some running service holds the conflict key.
    fn conflict_exists(&self, key: &str) -> (r: bool)
        requires
            self.wf(),
        ensures
            r == holds_key(self.running(), key@),
    {
        let mut i: usize = 0;
        while i < self.running.len()
            invariant
                unique_keys(self.running@),
                i <= self.running@.len(),
                forall|j: int| 0 <= j < i ==> self.running@[j].1.conflict_key@ != key@,
            decreases self.running.len() - i,
        {
            let kv = to_chars(self.running[i].1.conflict_key.as_str());
            if crate::text::eq_str(kv.as_slice(), key) {
                proof {
                    lemma_keyed_index(self.running@, i as int);
                    let id = self.running@[i as int].0@;
                    assert(self.running()[id].conflict_key@ == key@);
                }
                return true;
            }
            i = i + 1;
        }
        proof {
            assert forall|id: Seq<char>| self.running().dom().contains(id) implies #[trigger] self.running()[id].conflict_key@
                != key@ by {
                lemma_keyed_dom(self.running@, id);
                let k = choose|k: int| 0 <= k < self.running@.len() && self.running@[k].0@ == id;
                lemma_keyed_index(self.running@, k);
            }
        }
        false
    }

    fn set_failed(&mut self, service_id: String, message: String)
        requires
            old(self).wf(),
        ensures
            final(self).wf(),
            final(self).running() == old(self).running(),
            final(self).failed() == old(self).failed().insert(service_id@, message@),
    {
        let ghost before = keyed_map(self.failed@);
        let mut failed = Vec::new();
        std::mem::swap(&mut failed, &mut self.failed);
        insert_key(&mut failed, service_id, message);
        self.failed = failed;
        assert(self.failed() =~= texts(before).insert(service_id@, message@));
    }

    fn clear_failed(&mut self, service_id: &str)
        requires
            old(self).wf(),
        ensures
            final(self).wf(),
            final(self).running() == old(self).running(),
            final(self).failed() == old(self).failed().remove(service_id@),
    {
        let ghost before = keyed_map(self.failed@);
        let mut failed = Vec::new();
        std::mem::swap(&mut failed, &mut self.failed);
        let _ = remove_key(&mut failed, service_id);
        self.failed = failed;
        assert(self.failed() =~= texts(before).remove(service_id@));
    }

    /// Takes a service off the running list, giving back its record.
    pub fn take_running(&mut self, service_id: &str) -> (r: Option<RunningService>)
        requires
            old(self).wf(),
        ensures
            final(self).wf(),
            final(self).running() == old(self).running().remove(service_id@),
            final(self).failed() == old(self).failed(),
            r == (if old(self).running().dom().contains(service_id@) {
                Some(old(self).running()[service_id@])
            } else {
                None
            }),
    {
        let ghost before = self.running@;
        let mut running = Vec::new();
        std::mem::swap(&mut running, &mut self.running);
        let ghost listed = running@;
        let r = remove_key(&mut running, service_id);
        proof {
            if running@ != listed {
                let i = choose|i: int| 0 <= i < listed.len() && running@ == listed.remove(i);
                assert forall|k: int| 0 <= k < running@.len() implies #[trigger] running@[k] == listed[if k < i {
                    k
                } else {
                    k + 1
                }] by {}
            }
        }
        self.running = running;
        r
    }

    /// Drops a service whose task finished by itself and records that it
    /// exited.
    pub fn reap_finished(&mut self, service_id: &str, finished: bool)
        requires
            old(self).wf(),
        ensures
            final(self).wf(),
            (old(self).running().dom().contains(service_id@) && finished) ==> (final(self).running()
                == old(self).running().remove(service_id@) && final(self).failed() == old(self).failed().insert(
                service_id@,
                exited_message(),
            )),
            !(old(self).running().dom().contains(service_id@) && finished) ==> (final(self).running()
                == old(self).running() && final(self).failed() == old(self).failed()),
    {
        if finished && contains_key(&self.running, service_id) {
            let _ = self.take_running(service_id);
            self.set_failed(to_owned_string(service_id), to_owned_string("服务任务已退出"));
        }
    }

    /// Decides whether a service can start: one that runs already needs
    /// nothing; a disabled one is refused; so is one without a binding,
    /// or whose binding another running service holds.
    pub fn start_check(&self, detail: &ServiceDetail) -> (r: Result<StartDecision, AppError>)
        requires
            self.wf(),
        ensures
            self.running().dom().contains(detail.id@) ==> r matches Ok(StartDecision::AlreadyRunning),
            !self.running().dom().contains(detail.id@) && !detail.enabled ==> (r matches Err(
                AppError::InvalidInput(m),
            ) && m@ == "服务已禁用，不能启动"@),
            !self.running().dom().contains(detail.id@) && detail.enabled ==> match binding_of(*detail) {
                Err(m) => r matches Err(AppError::InvalidInput(x)) && x@ == m,
                Ok((l, c, p)) => if holds_key(self.running(), c) {
                    r matches Err(AppError::Conflict(x)) && x@ == "监听地址已被其他服务占用: "@ + l
                } else {
                    r matches Ok(StartDecision::Start(b)) && b.listen_addr@ == l && b.conflict_key@ == c
                        && b.check_local_port == p
                },
            },
    {
        if self.is_running(detail.id.as_str()) {
            return Ok(StartDecision::AlreadyRunning);
        }
        if !detail.enabled {
            return Err(AppError::InvalidInput(to_owned_string("服务已禁用，不能启动")));
        }
        let binding = match runtime_binding(detail) {
            Ok(b) => b,
            Err(e) => return Err(e),
        };
        if self.conflict_exists(binding.conflict_key.as_str()) {
            let mut m = to_chars("监听地址已被其他服务占用: ");
            push_str(&mut m, binding.listen_addr.as_str());
            return Err(AppError::Conflict(from_chars(m.as_slice())));
        }
        Ok(StartDecision::Start(binding))
    }

    /// Records a started service: it runs with the binding it was checked
    /// with, and any earlier failure of it is forgotten.
    pub fn record_started(&mut self, kind: ServiceKind, service_id: String, binding: RuntimeBinding, started_at: String)
        requires
            old(self).wf(),
            !old(self).running().dom().contains(service_id@),
            !holds_key(old(self).running(), binding.conflict_key@),
        ensures
            final(self).wf(),
            final(self).running() == old(self).running().insert(
                service_id@,
                RunningService {
                    service_id,
                    kind,
                    listen_addr: binding.listen_addr,
                    conflict_key: binding.conflict_key,
                    started_at,
                },
            ),
            final(self).failed() == old(self).failed().remove(service_id@),
    {
        self.clear_failed(service_id.as_str());
        let ghost before = self.running@;
        proof {
            lemma_keyed_dom(before, service_id@);
            assert forall|i: int| 0 <= i < before.len() implies #[trigger] before[i].1.conflict_key@ != binding.conflict_key@ by {
                lemma_keyed_index(before, i);
                assert(self.running()[before[i].0@] == before[i].1);
            }
        }
        let entry = RunningService {
            service_id: service_id.clone(),
            kind,
            listen_addr: binding.listen_addr,
            conflict_key: binding.conflict_key,
            started_at,
        };
        self.running.push((service_id, entry));
        assert(self.running@.drop_last() =~= before);
    }

    /// Records how waiting for a stopped service's task ended: a task
    /// that finished leaves the service stopped; otherwise the service is
    /// recorded as failed, with the reason.
    pub fn record_stop(&mut self, service_id: &str, outcome: StopOutcome) -> (r: RuntimeStatus)
        requires
            old(self).wf(),
        ensures
            final(self).wf(),
            final(self).running() == old(self).running(),
            outcome is Finished ==> status_view(r) == stopped_view() && final(self).failed() == old(self).failed(),
            outcome matches StopOutcome::Panicked(t) ==> status_view(r) == failed_view(stop_failed_message(t@))
                && final(self).failed() == old(self).failed().insert(service_id@, stop_failed_message(t@)),
            outcome is TimedOut ==> status_view(r) == failed_view(stop_timeout_message())
                && final(self).failed() == old(self).failed().insert(service_id@, stop_timeout_message()),
    {
        match outcome {
            StopOutcome::Finished => RuntimeStatus::Stopped,
            StopOutcome::Panicked(t) => {
                let mut m = to_chars("服务停止时任务异常: ");
                push_str(&mut m, t.as_str());
                let message = from_chars(m.as_slice());
                self.set_failed(to_owned_string(service_id), message.clone());
                RuntimeStatus::Failed { message }
            },
            StopOutcome::TimedOut => {
                let message = to_owned_string("服务停止超时，后台任务可能仍在退出");
                self.set_failed(to_owned_string(service_id), message.clone());
                RuntimeStatus::Failed { message }
            },
        }
    }

    /// The status of a service, given whether its task finished.
    pub fn runtime_status(&self, service_id: &str, finished: bool) -> (r: RuntimeStatus)
        requires
            self.wf(),
        ensures
            status_view(r) == status_spec(self.running(), self.failed(), service_id@, finished),
    {
        if self.is_running(service_id) {
            if finished {
                return RuntimeStatus::Failed { message: to_owned_string("服务任务已退出") };
            }
            return RuntimeStatus::Running;
        }
        proof {
            lemma_keyed_dom(self.failed@, service_id@);
        }
        match find_key(&self.failed, service_id) {
            Some(i) => {
                proof {
                    lemma_keyed_index(self.failed@, i as int);
                }
                RuntimeStatus::Failed { message: self.failed[i].1.clone() }
            },
            None => RuntimeStatus::Stopped,
        }
    }

    /// The running services' ids, in the order `list_runtime_status`
    /// reports them.
    pub fn running_ids(&self) -> (r: Vec<String>)
        ensures
            r@.len() == self.running_list().len(),
            forall|i: int| 0 <= i < r@.len() ==> #[trigger] r@[i]@ == self.running_list()[i].service_id@,
    {
        let mut r: Vec<String> = Vec::new();
        let mut i: usize = 0;
        while i < self.running.len()
            invariant
                i <= self.running@.len(),
                r@.len() == i,
                forall|k: int| 0 <= k < i ==> #[trigger] r@[k]@ == self.running@[k].1.service_id@,
            decreases self.running.len() - i,
        {
            r.push(self.running[i].1.service_id.clone());
            i = i + 1;
        }
        r
    }

    /// The summaries of all services: the running ones (in the order of
    /// `running_ids`, each with whether its task finished and its
    /// counters), then the failed ones, which report no listen address,
    /// no start time and no traffic.
    pub fn list_runtime_status(&self, probes: &Vec<(bool, ServiceCounters)>) -> (r: Vec<ServiceRuntimeSummary>)
        requires
            self.wf(),
            probes@.len() == self.running_list().len(),
        ensures
            r@.len() == self.running_list().len() + self.failed_list().len(),
            forall|i: int|
                0 <= i < self.running_list().len() ==> summary_of_running(
                    #[trigger] r@[i],
                    self.running_list()[i],
                    probes@[i].0,
                    probes@[i].1,
                ),
            forall|j: int|
                0 <= j < self.failed_list().len() ==> summary_of_failed(
                    #[trigger] r@[self.running_list().len() + j],
                    self.failed_list()[j],
                ),
    {
        let mut r: Vec<ServiceRuntimeSummary> = Vec::new();
        let mut i: usize = 0;
        let n = self.running.len();
        while i < n
            invariant
                n == self.running@.len(),
                probes@.len() == n,
                i <= n,
                r@.len() == i,
                forall|k: int|
                    0 <= k < i ==> summary_of_running(
                        #[trigger] r@[k],
                        self.running_list()[k],
                        probes@[k].0,
                        probes@[k].1,
                    ),
            decreases n - i,
        {
            let e = &self.running[i].1;
            let (finished, c) = probes[i];
            let status = if finished {
                RuntimeStatus::Failed { message: to_owned_string("服务任务已退出") }
            } else {
                RuntimeStatus::Running
            };
            r.push(
                ServiceRuntimeSummary {
                    service_id: e.service_id.clone(),
                    kind: e.kind,
                    listen_addr: e.listen_addr.clone(),
                    runtime_status: status,
                    started_at: Some(e.started_at.clone()),
                    active_connections: c.active_connections,
                    total_connections: c.total_connections,
                    bytes_in: c.bytes_in,
                    bytes_out: c.bytes_out,
                },
            );
            i = i + 1;
        }
        let mut j: usize = 0;
        let m = self.failed.len();
        while j < m
            invariant
                n == self.running@.len(),
                m == self.failed@.len(),
                probes@.len() == n,
                j <= m,
                r@.len() == n + j,
                forall|k: int|
                    0 <= k < n ==> summary_of_running(
                        #[trigger] r@[k],
                        self.running_list()[k],
                        probes@[k].0,
                        probes@[k].1,
                    ),
                forall|k: int| 0 <= k < j ==> summary_of_failed(#[trigger] r@[n + k], self.failed_list()[k]),
            decreases m - j,
        {
            let empty = String::new();
            proof {
                assert(empty@ =~= Seq::<char>::empty());
            }
            r.push(
                ServiceRuntimeSummary {
                    service_id: self.failed[j].0.clone(),
                    kind: ServiceKind::HttpForward,
                    listen_addr: empty,
                    runtime_status: RuntimeStatus::Failed { message: self.failed[j].1.clone() },
                    started_at: None,
                    active_connections: 0,
                    total_connections: 0,
                    bytes_in: 0,
                    bytes_out: 0,
                },
            );
            proof {
                assert(r@[n + j as int] == r@.last());
            }
            j = j + 1;
        }
        r
    }

    /// The active and total connections of a running service, given its
    /// counters; zero for a service that does not run.
    pub fn counters(&self, service_id: &str, current: ServiceCounters) -> (r: (u64, u64))
        ensures
            self.running().dom().contains(service_id@) ==> r == (current.active_connections, current.total_connections),
            !self.running().dom().contains(service_id@) ==> r == (0u64, 0u64),
    {
        if self.is_running(service_id) {
            (current.active_connections, current.total_connections)
        } else {
            (0, 0)
        }
    }
}

/// A service that was just recorded as started reports running while its
/// task runs; once taken off the running list after its task finished, it
/// reports stopped, whatever it reported before it started.
pub proof fn law_start_then_stop(
    running: Map<Seq<char>, RunningService>,
    failed: Map<Seq<char>, Seq<char>>,
    id: Seq<char>,
    e: RunningService,
    finished: bool,
)
    ensures
        status_spec(running.insert(id, e), failed.remove(id), id, false) == running_view(),
        status_spec(running.insert(id, e).remove(id), failed.remove(id), id, finished) == stopped_view(),
{
}

/// A running service whose task ended by itself reports that it exited,
/// and still does after it is reaped; once reaped it no longer runs, so
/// starting it again is not refused as already running.
pub proof fn law_reaped_service_reports_exit(
    running: Map<Seq<char>, RunningService>,
    failed: Map<Seq<char>, Seq<char>>,
    id: Seq<char>,
    finished: bool,
)
    requires
        running.dom().contains(id),
    ensures
        status_spec(running, failed, id, true) == failed_view(exited_message()),
        status_spec(running.remove(id), failed.insert(id, exited_message()), id, finished) == failed_view(
            exited_message(),
        ),
        !running.remove(id).dom().contains(id),
{
}

/// Keys are as many as pairs.
pub proof fn lemma_keyed_len<T>(s: Seq<(String, T)>)
    requires
        unique_keys(s),
    ensures
        keyed_map(s).dom().len() == s.len(),
        keyed_map(s).dom().finite(),
    decreases s.len(),
{
    if s.len() > 0 {
        lemma_keyed_len(s.drop_last());
        assert(!keyed_map(s.drop_last()).dom().contains(s.last().0@)) by {
            lemma_keyed_dom(s.drop_last(), s.last().0@);
        }
    }
}

} // verus!
