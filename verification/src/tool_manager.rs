//! The registry of running tool services: which run, where they listen,
//! and the summary each reports. Two running tool services never share a
//! listen address. Listening, serving and stopping stay with the caller.

use crate::error::AppError;
use crate::keyed::{contains_key, find_key, keyed_map, lemma_keyed_dom, lemma_keyed_index, remove_key, unique_keys};
use crate::models::{RuntimeStatus, ToolServiceSummary};
use crate::manager::{failed_view, status_view, stopped_view};
use crate::records::host_and_port;
use crate::text::{dec, dec_u64, eq_str, from_chars, push_chars, push_str, to_chars, to_owned_string};
use crate::tool_runtime::ToolServiceRuntimeConfig;
use crate::tool_services::{display_path_for_summary, without_verbatim_prefix};
use vstd::prelude::*;

verus! {

/// A running tool service as the registry records it.
#[derive(Debug, Clone)]
pub struct RunningToolService {
    pub id: String,
    pub addr: String,
    pub started_at: String,
    pub config: ToolServiceRuntimeConfig,
}

/// The listen address of a configuration, `host:port`.
pub open spec fn listen_addr_of(c: ToolServiceRuntimeConfig) -> Seq<char> {
    c.host@ + ":"@ + dec(c.port as nat)
}

/// The address a running tool service is reached at.
pub open spec fn service_url(c: ToolServiceRuntimeConfig) -> Seq<char> {
    "http://"@ + host_and_port(c.host@, c.port as nat) + (if c.static_root_dir is Some {
        c.static_path_prefix@
    } else if c.routes@.len() > 0 {
        c.routes@[0].path@
    } else {
        "/"@
    })
}

/// The summary of a running tool service.
pub open spec fn running_summary_of(s: ToolServiceSummary, e: RunningToolService, total_requests: u64) -> bool {
    &&& s.id@ == e.id@
    &&& s.name@ == e.config.name@
    &&& s.host@ == e.config.host@
    &&& s.port == e.config.port
    &&& s.url@ == service_url(e.config)
    &&& match e.config.static_root_dir {
        Some(d) => s.static_root_dir matches Some(x) && x@ == without_verbatim_prefix(d@),
        None => s.static_root_dir is None,
    }
    &&& s.static_mode == e.config.static_mode
    &&& s.static_path_prefix@ == e.config.static_path_prefix@
    &&& s.route_count == e.config.routes@.len()
    &&& s.started_at matches Some(t) && t@ == e.started_at@
    &&& s.total_requests == total_requests
    &&& s.runtime_status == RuntimeStatus::Running
}

/// The summary of a running tool service, given its request count.
pub fn running_tool_summary(e: &RunningToolService, total_requests: u64) -> (r: ToolServiceSummary)
    ensures
        running_summary_of(r, *e, total_requests),
{
    let mut url = to_chars("http://");
    push_str(&mut url, e.config.host.as_str());
    push_str(&mut url, ":");
    let p = dec_u64(e.config.port as u64);
    push_chars(&mut url, p.as_slice());
    push_str(&mut url, e.config.first_access_path());
    proof {
        reveal_strlit(":");
        assert(url@ =~= service_url(e.config));
    }
    let root = match &e.config.static_root_dir {
        Some(d) => Some(display_path_for_summary(d.as_str())),
        None => None,
    };
    ToolServiceSummary {
        id: e.id.clone(),
        name: e.config.name.clone(),
        host: e.config.host.clone(),
        port: e.config.port,
        url: from_chars(url.as_slice()),
        static_root_dir: root,
        static_mode: e.config.static_mode,
        static_path_prefix: e.config.static_path_prefix.clone(),
        route_count: e.config.routes.len(),
        started_at: Some(e.started_at.clone()),
        total_requests,
        runtime_status: RuntimeStatus::Running,
    }
}

/// The registry of running tool services. A vector of pairs keyed by id,
/// with no id listed twice, stands in for `HashMap<String, _>`: vstd gives a
/// map keyed by `String` no specification that lets its lookups be proved,
/// and the vector's view is the map.
pub struct ToolServiceManager {
    running: Vec<(String, RunningToolService)>,
}

/// Whether some running tool service listens on the address.
pub open spec fn addr_taken(running: Map<Seq<char>, RunningToolService>, addr: Seq<char>) -> bool {
    exists|id: Seq<char>| running.dom().contains(id) && #[trigger] running[id].addr@ == addr
}

impl ToolServiceManager {
    /// The running tool services by id.
    pub closed spec fn running(&self) -> Map<Seq<char>, RunningToolService> {
        keyed_map(self.running@)
    }

    /// No id is listed twice, each service is listed under its own id and
    /// listens where its configuration says, and no two share an address.
    pub closed spec fn wf(&self) -> bool {
        &&& unique_keys(self.running@)
        &&& forall|i: int| 0 <= i < self.running@.len() ==> #[trigger] self.running@[i].0@ == self.running@[i].1.id@
        &&& forall|i: int|
            0 <= i < self.running@.len() ==> (#[trigger] self.running@[i]).1.addr@ == listen_addr_of(
                self.running@[i].1.config,
            )
        &&& forall|i: int, j: int|
            0 <= i < j < self.running@.len() ==> #[trigger] self.running@[i].1.addr@ != #[trigger] self.running@[j].1.addr@
    }

    /// Nothing runs.
    pub fn new() -> (r: ToolServiceManager)
        ensures
            r.wf(),
            r.running() == Map::<Seq<char>, RunningToolService>::empty(),
    {
        ToolServiceManager { running: Vec::new() }
    }

    /// No two running tool services listen on the same address.
    pub proof fn lemma_distinct_addresses(&self, a: Seq<char>, b: Seq<char>)
        requires
            self.wf(),
            self.running().dom().contains(a),
            self.running().dom().contains(b),
            a != b,
        ensures
            self.running()[a].addr@ != self.running()[b].addr@,
            self.running()[a].addr@ == listen_addr_of(self.running()[a].config),
    {
        lemma_keyed_dom(self.running@, a);
        lemma_keyed_dom(self.running@, b);
        let i = choose|i: int| 0 <= i < self.running@.len() && self.running@[i].0@ == a;
        let j = choose|j: int| 0 <= j < self.running@.len() && self.running@[j].0@ == b;
        lemma_keyed_index(self.running@, i);
        lemma_keyed_index(self.running@, j);
        assert(i != j);
        if i < j {
            assert(self.running@[i].1.addr@ != self.running@[j].1.addr@);
        } else {
            assert(self.running@[j].1.addr@ != self.running@[i].1.addr@);
        }
    }

    /// The record of a running tool service.
    pub fn get(&self, id: &str) -> (r: Option<&RunningToolService>)
        requires
            self.wf(),
        ensures
            self.running().dom().contains(id@) ==> r == Some(&self.running()[id@]),
            !self.running().dom().contains(id@) ==> r is None,
    {
        proof {
            lemma_keyed_dom(self.running@, id@);
        }
        match find_key(&self.running, id) {
            Some(i) => {
                proof {
                    lemma_keyed_index(self.running@, i as int);
                }
                Some(&self.running[i].1)
            },
            None => None,
        }
    }

    /// The summary of a running tool service, given its request count;
    /// `None` when it does not run.
    pub fn running_summary(&self, id: &str, total_requests: u64) -> (r: Option<ToolServiceSummary>)
        requires
            self.wf(),
        ensures
            self.running().dom().contains(id@) ==> (r matches Some(s) && running_summary_of(
                s,
                self.running()[id@],
                total_requests,
            )),
            !self.running().dom().contains(id@) ==> r is None,
    {
        match self.get(id) {
            Some(e) => Some(running_tool_summary(e, total_requests)),
            None => None,
        }
    }

    /// The listen address of a configuration.
    pub fn listen_addr(config: &ToolServiceRuntimeConfig) -> (r: String)
        ensures
            r@ == listen_addr_of(*config),
    {
        let mut a = to_chars(config.host.as_str());
        push_str(&mut a, ":");
        let p = dec_u64(config.port as u64);
        push_chars(&mut a, p.as_slice());
        from_chars(a.as_slice())
    }

    /// The refusal of a start on an address another running tool service
    /// listens on; `None` when the address is free.
    pub fn address_conflict(&self, config: &ToolServiceRuntimeConfig) -> (r: Option<AppError>)
        requires
            self.wf(),
        ensures
            addr_taken(self.running(), listen_addr_of(*config)) ==> (r matches Some(AppError::Conflict(m)) && m@
                == "工具服务端口已被占用: "@ + listen_addr_of(*config)),
            !addr_taken(self.running(), listen_addr_of(*config)) ==> r is None,
    {
        let addr = Self::listen_addr(config);
        let mut i: usize = 0;
        while i < self.running.len()
            invariant
                i <= self.running@.len(),
                addr@ == listen_addr_of(*config),
                unique_keys(self.running@),
                forall|j: int| 0 <= j < i ==> self.running@[j].1.addr@ != addr@,
            decreases self.running.len() - i,
        {
            let a = to_chars(self.running[i].1.addr.as_str());
            if eq_str(a.as_slice(), addr.as_str()) {
                proof {
                    lemma_keyed_index(self.running@, i as int);
                    assert(self.running()[self.running@[i as int].0@].addr@ == addr@);
                }
                let mut m = to_chars("工具服务端口已被占用: ");
                push_str(&mut m, addr.as_str());
                return Some(AppError::Conflict(from_chars(m.as_slice())));
            }
            i = i + 1;
        }
        proof {
            assert forall|id: Seq<char>| self.running().dom().contains(id) implies #[trigger] self.running()[id].addr@
                != addr@ by {
                lemma_keyed_dom(self.running@, id);
                let k = choose|k: int| 0 <= k < self.running@.len() && self.running@[k].0@ == id;
                lemma_keyed_index(self.running@, k);
            }
        }
        None
    }

    /// Records a tool service that now listens, with the port it got.
    pub fn record_started(&mut self, id: String, config: ToolServiceRuntimeConfig, started_at: String)
        requires
            old(self).wf(),
            !old(self).running().dom().contains(id@),
            !addr_taken(old(self).running(), listen_addr_of(config)),
        ensures
            final(self).wf(),
            final(self).running().dom() == old(self).running().dom().insert(id@),
            forall|k: Seq<char>| k != id@ && old(self).running().dom().contains(k) ==> final(self).running()[k] == old(
                self,
            ).running()[k],
            final(self).running()[id@].id@ == id@,
            final(self).running()[id@].config == config,
            final(self).running()[id@].started_at == started_at,
            final(self).running()[id@].addr@ == listen_addr_of(config),
    {
        let ghost before = self.running@;
        proof {
            lemma_keyed_dom(before, id@);
            assert forall|i: int| 0 <= i < before.len() implies #[trigger] before[i].1.addr@ != listen_addr_of(config) by {
                lemma_keyed_index(before, i);
                assert(self.running()[before[i].0@] == before[i].1);
            }
        }
        let addr = Self::listen_addr(&config);
        let entry = RunningToolService { id: id.clone(), addr, started_at, config };
        self.running.push((id, entry));
        assert(self.running@.drop_last() =~= before);
    }

    /// Takes a tool service off the running list (it is then to be
    /// cancelled and awaited), giving back its record.
    pub fn begin_stop(&mut self, id: &str) -> (r: Option<RunningToolService>)
        requires
            old(self).wf(),
        ensures
            final(self).wf(),
            final(self).running() == old(self).running().remove(id@),
            r == (if old(self).running().dom().contains(id@) {
                Some(old(self).running()[id@])
            } else {
                None
            }),
    {
        let ghost listed = self.running@;
        let r = remove_key(&mut self.running, id);
        proof {
            if self.running@ != listed {
                let i = choose|i: int| 0 <= i < listed.len() && self.running@ == listed.remove(i);
                assert forall|k: int| 0 <= k < self.running@.len() implies #[trigger] self.running@[k] == listed[if k
                    < i {
                    k
                } else {
                    k + 1
                }] by {}
            }
        }
        r
    }
}

/// Starting a tool service and then stopping it gives back the record that
/// was started and leaves the running services as they were before.
pub proof fn law_tool_start_then_stop(
    before: ToolServiceManager,
    started: ToolServiceManager,
    stopped: ToolServiceManager,
    id: Seq<char>,
    config: ToolServiceRuntimeConfig,
    started_at: String,
    taken: Option<RunningToolService>,
)
    requires
        !before.running().dom().contains(id),
        started.running().dom() == before.running().dom().insert(id),
        forall|k: Seq<char>|
            k != id && before.running().dom().contains(k) ==> started.running()[k] == before.running()[k],
        started.running()[id].config == config,
        started.running()[id].started_at == started_at,
        started.running()[id].addr@ == listen_addr_of(config),
        stopped.running() == started.running().remove(id),
        taken == (if started.running().dom().contains(id) {
            Some(started.running()[id])
        } else {
            None
        }),
    ensures
        stopped.running() == before.running(),
        taken matches Some(s) && s.config == config && s.started_at == started_at && s.addr@ == listen_addr_of(
            config,
        ),
{
    assert(stopped.running() =~= before.running());
}

/// How waiting for a stopped tool service's task ended.
#[derive(Debug, Clone)]
pub enum ToolStopOutcome {
    Finished,
    Panicked(String),
    TimedOut,
}

/// The status after a tool service was stopped.
pub fn tool_stop_status(outcome: ToolStopOutcome) -> (r: RuntimeStatus)
    ensures
        outcome is Finished ==> status_view(r) == stopped_view(),
        outcome matches ToolStopOutcome::Panicked(t) ==> status_view(r) == failed_view("工具服务停止异常: "@ + t@),
        outcome is TimedOut ==> status_view(r) == failed_view("工具服务停止超时，后台任务可能仍在退出"@),
{
    match outcome {
        ToolStopOutcome::Finished => RuntimeStatus::Stopped,
        ToolStopOutcome::Panicked(t) => {
            let mut m = to_chars("工具服务停止异常: ");
            push_str(&mut m, t.as_str());
            RuntimeStatus::Failed { message: from_chars(m.as_slice()) }
        },
        ToolStopOutcome::TimedOut => RuntimeStatus::Failed {
            message: to_owned_string("工具服务停止超时，后台任务可能仍在退出"),
        },
    }
}

/// The refusal when listening failed.
pub fn listen_failed(addr: &str, reason: &str) -> (r: AppError)
    ensures
        r matches AppError::Conflict(m) && m@ == "HTTP 服务监听失败 "@ + addr@ + ": "@ + reason@,
{
    let mut m = to_chars("HTTP 服务监听失败 ");
    push_str(&mut m, addr);
    push_str(&mut m, ": ");
    push_str(&mut m, reason);
    AppError::Conflict(from_chars(m.as_slice()))
}

} // verus!
