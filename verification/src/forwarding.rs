//! The decisions of plain TCP and UDP forwarding: where a service listens
//! and forwards to, and, for UDP, the table that maps each client to its
//! own upstream socket and forgets clients that went quiet. Sockets and
//! clocks stay with the caller, which hands in the time.

use crate::error::AppError;
use crate::keyed::{
    contains_key, find_key, insert_key, keyed_map, lemma_keyed_dom, lemma_keyed_index, remove_key, unique_keys,
};
use crate::models::ServiceDetail;
use crate::text::{string_views, dec, dec_u64, from_chars, push_chars, push_str, to_chars, to_owned_string};
use vstd::prelude::*;

verus! {

/// `host:port`.
pub open spec fn addr_text(host: Seq<char>, port: u16) -> Seq<char> {
    host + ":"@ + dec(port as nat)
}

fn addr_string(host: &str, port: u16) -> (r: String)
    ensures
        r@ == addr_text(host@, port),
{
    let mut a = to_chars(host);
    push_str(&mut a, ":");
    let p = dec_u64(port as u64);
    push_chars(&mut a, p.as_slice());
    from_chars(a.as_slice())
}

/// Where a TCP forward listens, where it connects, and how long a connect
/// may take (at least a millisecond).
#[derive(Debug, Clone)]
pub struct TcpForwardPlan {
    pub listen_addr: String,
    pub target_addr: String,
    pub connect_timeout_ms: u64,
}

/// The plan of a TCP forward; its settings must be present.
pub fn tcp_forward_plan(detail: &ServiceDetail) -> (r: Result<TcpForwardPlan, AppError>)
    ensures
        match detail.tcp_forward {
            None => r matches Err(AppError::InvalidInput(m)) && m@ == "TCP 转发缺少配置"@,
            Some(cfg) => r matches Ok(p) && p.listen_addr@ == addr_text(detail.listen_host@, detail.listen_port)
                && p.target_addr@ == addr_text(cfg.target_host@, cfg.target_port) && p.connect_timeout_ms == (if cfg.connect_timeout_ms
                == 0 {
                1
            } else {
                cfg.connect_timeout_ms
            }),
        },
{
    let cfg = match &detail.tcp_forward {
        Some(c) => c,
        None => return Err(AppError::InvalidInput(to_owned_string("TCP 转发缺少配置"))),
    };
    Ok(
        TcpForwardPlan {
            listen_addr: addr_string(detail.listen_host.as_str(), detail.listen_port),
            target_addr: addr_string(cfg.target_host.as_str(), cfg.target_port),
            connect_timeout_ms: if cfg.connect_timeout_ms == 0 {
                1
            } else {
                cfg.connect_timeout_ms
            },
        },
    )
}

/// The log line when a forward starts listening: the protocol label and
/// the address.
pub fn forward_listening_message(protocol: &str, listen_addr: &str) -> (r: String)
    ensures
        r@ == protocol@ + " 转发已监听 "@ + listen_addr@,
{
    let mut m = to_chars(protocol);
    push_str(&mut m, " 转发已监听 ");
    push_str(&mut m, listen_addr);
    from_chars(m.as_slice())
}

/// The error when connecting to the target took too long.
pub fn connect_timed_out(target_addr: &str) -> (r: AppError)
    ensures
        r matches AppError::Message(m) && m@ == "连接目标 "@ + target_addr@ + " 超时"@,
{
    let mut m = to_chars("连接目标 ");
    push_str(&mut m, target_addr);
    push_str(&mut m, " 超时");
    AppError::Message(from_chars(m.as_slice()))
}

/// Where a UDP forward listens, where it sends, and after how long a quiet
/// client is forgotten (zero: never).
#[derive(Debug, Clone)]
pub struct UdpForwardPlan {
    pub listen_addr: String,
    pub target_addr: String,
    pub idle_timeout_ms: u64,
}

/// The plan of a UDP forward; its settings must be present.
pub fn udp_forward_plan(detail: &ServiceDetail) -> (r: Result<UdpForwardPlan, AppError>)
    ensures
        match detail.udp_forward {
            None => r matches Err(AppError::InvalidInput(m)) && m@ == "UDP 转发缺少配置"@,
            Some(cfg) => r matches Ok(p) && p.listen_addr@ == addr_text(detail.listen_host@, detail.listen_port)
                && p.target_addr@ == addr_text(cfg.target_host@, cfg.target_port) && p.idle_timeout_ms
                == cfg.idle_timeout_ms,
        },
{
    let cfg = match &detail.udp_forward {
        Some(c) => c,
        None => return Err(AppError::InvalidInput(to_owned_string("UDP 转发缺少配置"))),
    };
    Ok(
        UdpForwardPlan {
            listen_addr: addr_string(detail.listen_host.as_str(), detail.listen_port),
            target_addr: addr_string(cfg.target_host.as_str(), cfg.target_port),
            idle_timeout_ms: cfg.idle_timeout_ms,
        },
    )
}

/// The error when the target name gave no address.
pub fn udp_target_unresolved(target_addr: &str) -> (r: AppError)
    ensures
        r matches AppError::InvalidInput(m) && m@ == "无法解析 UDP 目标: "@ + target_addr@,
{
    let mut m = to_chars("无法解析 UDP 目标: ");
    push_str(&mut m, target_addr);
    AppError::InvalidInput(from_chars(m.as_slice()))
}

/// The local address an upstream socket binds to: any IPv4 address for an
/// IPv4 target, any IPv6 address otherwise.
pub fn udp_bind_addr(target_is_ipv4: bool) -> (r: &'static str)
    ensures
        r@ == (if target_is_ipv4 {
            "0.0.0.0:0"@
        } else {
            "[::]:0"@
        }),
{
    if target_is_ipv4 {
        "0.0.0.0:0"
    } else {
        "[::]:0"
    }
}

/// Whether a client seen at `last_seen` has been quiet for longer than the
/// timeout at `now` (times in milliseconds; a zero timeout never expires).
pub open spec fn expired(last_seen: u64, now: u64, idle_timeout_ms: u64) -> bool {
    idle_timeout_ms > 0 && now > last_seen && now - last_seen > idle_timeout_ms
}

/// The pairs whose clients did not expire, in order.
pub open spec fn fresh_pairs(s: Seq<(String, u64)>, now: u64, t: u64) -> Seq<(String, u64)>
    decreases s.len(),
{
    if s.len() == 0 {
        Seq::empty()
    } else {
        let p = fresh_pairs(s.drop_last(), now, t);
        if expired(s.last().1, now, t) {
            p
        } else {
            p.push(s.last())
        }
    }
}

/// The clients that expired, in order.
pub open spec fn stale_keys(s: Seq<(String, u64)>, now: u64, t: u64) -> Seq<Seq<char>>
    decreases s.len(),
{
    if s.len() == 0 {
        Seq::empty()
    } else {
        let p = stale_keys(s.drop_last(), now, t);
        if expired(s.last().1, now, t) {
            p.push(s.last().0@)
        } else {
            p
        }
    }
}

/// Keeping the clients that did not expire keeps the keys unique and
/// keeps exactly those clients, with their times.
proof fn lemma_fresh_pairs(s: Seq<(String, u64)>, now: u64, t: u64)
    requires
        unique_keys(s),
    ensures
        unique_keys(fresh_pairs(s, now, t)),
        forall|c: Seq<char>|
            #[trigger] keyed_map(fresh_pairs(s, now, t)).dom().contains(c) <==> (keyed_map(s).dom().contains(c)
                && !expired(keyed_map(s)[c], now, t)),
        forall|c: Seq<char>|
            #[trigger] keyed_map(fresh_pairs(s, now, t)).dom().contains(c) ==> keyed_map(fresh_pairs(s, now, t))[c]
                == keyed_map(s)[c],
    decreases s.len(),
{
    if s.len() > 0 {
        let init = s.drop_last();
        assert(unique_keys(init));
        lemma_fresh_pairs(init, now, t);
        let last = s.last();
        assert(!keyed_map(init).dom().contains(last.0@)) by {
            lemma_keyed_dom(init, last.0@);
        }
        let p = fresh_pairs(init, now, t);
        if !expired(last.1, now, t) {
            assert(!keyed_map(p).dom().contains(last.0@));
            assert forall|a: int, b: int| 0 <= a < b < p.push(last).len() implies (#[trigger] p.push(last)[a]).0@
                != (#[trigger] p.push(last)[b]).0@ by {
                if b == p.len() {
                    assert(p.push(last)[a] == p[a]);
                    assert(keyed_map(p).dom().contains(p[a].0@)) by {
                        lemma_keyed_dom(p, p[a].0@);
                    }
                } else {
                    assert(p.push(last)[a] == p[a] && p.push(last)[b] == p[b]);
                }
            }
            assert(p.push(last).drop_last() =~= p);
        }
    }
}

/// The clients that expired are exactly the expired entries.
proof fn lemma_stale_keys(s: Seq<(String, u64)>, now: u64, t: u64)
    requires
        unique_keys(s),
    ensures
        forall|c: Seq<char>|
            #[trigger] stale_keys(s, now, t).contains(c) <==> (keyed_map(s).dom().contains(c) && expired(
                keyed_map(s)[c],
                now,
                t,
            )),
    decreases s.len(),
{
    if s.len() > 0 {
        let init = s.drop_last();
        lemma_stale_keys(init, now, t);
        let last = s.last();
        assert(!keyed_map(init).dom().contains(last.0@)) by {
            lemma_keyed_dom(init, last.0@);
        }
        let p = stale_keys(init, now, t);
        assert forall|c: Seq<char>| #[trigger] stale_keys(s, now, t).contains(c) <==> (keyed_map(s).dom().contains(c)
            && expired(keyed_map(s)[c], now, t)) by {
            if expired(last.1, now, t) {
                if p.push(last.0@).contains(c) && c != last.0@ {
                    let k = choose|k: int| 0 <= k < p.push(last.0@).len() && p.push(last.0@)[k] == c;
                    assert(k < p.len());
                    assert(p[k] == c);
                }
                if p.contains(c) {
                    let k = choose|k: int| 0 <= k < p.len() && p[k] == c;
                    assert(p.push(last.0@)[k] == c);
                }
                if c == last.0@ {
                    assert(p.push(last.0@)[p.len() as int] == c);
                }
            }
        }
    }
}

/// The clients of a UDP forward, each with the time it was last seen.
pub struct UdpClientTable {
    clients: Vec<(String, u64)>,
}

impl UdpClientTable {
    /// The clients by address, with the time each was last seen.
    pub closed spec fn clients(&self) -> Map<Seq<char>, u64> {
        keyed_map(self.clients@)
    }

    /// No client is listed twice.
    #[verifier::type_invariant]
    closed spec fn wf(self) -> bool {
        unique_keys(self.clients@)
    }

    /// No clients.
    pub fn new() -> (r: UdpClientTable)
        ensures
            r.clients() == Map::<Seq<char>, u64>::empty(),
    {
        UdpClientTable { clients: Vec::new() }
    }

    /// The number of clients.
    pub fn len(&self) -> (r: usize)
        ensures
            r == self.clients().dom().len(),
    {
        proof {
            use_type_invariant(self);
            crate::manager::lemma_keyed_len(self.clients@);
        }
        self.clients.len()
    }

    /// Marks a known client as seen now; whether it was known (a new
    /// client needs its own upstream socket first).
    pub fn refresh(&mut self, client: &str, now: u64) -> (r: bool)
        ensures
            r == old(self).clients().dom().contains(client@),
            r ==> final(self).clients() == old(self).clients().insert(client@, now),
            !r ==> final(self).clients() == old(self).clients(),
    {
        proof {
            use_type_invariant(&*self);
        }
        if contains_key(&self.clients, client) {
            let mut cs = Vec::new();
            std::mem::swap(&mut cs, &mut self.clients);
            insert_key(&mut cs, to_owned_string(client), now);
            self.clients = cs;
            true
        } else {
            false
        }
    }

    /// Records a new client seen now; a client recorded meanwhile keeps
    /// its entry. Whether the new entry was taken (otherwise the upstream
    /// socket made for it is dropped).
    pub fn insert_if_absent(&mut self, client: &str, now: u64) -> (r: bool)
        ensures
            r == !old(self).clients().dom().contains(client@),
            r ==> final(self).clients() == old(self).clients().insert(client@, now),
            !r ==> final(self).clients() == old(self).clients(),
    {
        proof {
            use_type_invariant(&*self);
        }
        if contains_key(&self.clients, client) {
            false
        } else {
            let mut cs = Vec::new();
            std::mem::swap(&mut cs, &mut self.clients);
            insert_key(&mut cs, to_owned_string(client), now);
            self.clients = cs;
            true
        }
    }

    /// Forgets the clients quiet for longer than the timeout, giving back
    /// their addresses (their sockets and response tasks are to be
    /// cancelled); the clients that remain are those that did not expire.
    pub fn cleanup_idle(&mut self, now: u64, idle_timeout_ms: u64) -> (r: Vec<String>)
        ensures
            forall|c: Seq<char>|
                #[trigger] final(self).clients().dom().contains(c) <==> (old(self).clients().dom().contains(c)
                    && !expired(old(self).clients()[c], now, idle_timeout_ms)),
            forall|c: Seq<char>| #[trigger] final(self).clients().dom().contains(c) ==> final(self).clients()[c] == old(
                self,
            ).clients()[c],
            forall|c: Seq<char>|
                #[trigger] string_views(r@).contains(c) <==> (old(self).clients().dom().contains(c) && expired(
                    old(self).clients()[c],
                    now,
                    idle_timeout_ms,
                )),
    {
        proof {
            use_type_invariant(&*self);
        }
        let ghost before = self.clients@;
        let mut kept: Vec<(String, u64)> = Vec::new();
        let mut removed: Vec<String> = Vec::new();
        let n = self.clients.len();
        let mut i: usize = 0;
        while i < n
            invariant
                n == before.len(),
                self.clients@ == before,
                i <= n,
                kept@ == fresh_pairs(before.take(i as int), now, idle_timeout_ms),
                string_views(removed@) == stale_keys(before.take(i as int), now, idle_timeout_ms),
            decreases n - i,
        {
            let c = self.clients[i].0.clone();
            let seen = self.clients[i].1;
            proof {
                assert(before.take(i + 1).drop_last() =~= before.take(i as int));
                assert(before.take(i + 1).last() == before[i as int]);
            }
            if idle_timeout_ms > 0 && now > seen && now - seen > idle_timeout_ms {
                let ghost r0 = string_views(removed@);
                removed.push(c);
                assert(string_views(removed@) =~= r0.push(before[i as int].0@));
            } else {
                kept.push((c, seen));
            }
            i = i + 1;
        }
        assert(before.take(n as int) =~= before);
        proof {
            lemma_fresh_pairs(before, now, idle_timeout_ms);
            lemma_stale_keys(before, now, idle_timeout_ms);
        }
        self.clients = kept;
        removed
    }

    /// Forgets every client, giving back their addresses.
    pub fn clear(&mut self) -> (r: Vec<String>)
        ensures
            final(self).clients() == Map::<Seq<char>, u64>::empty(),
            r@.len() == old(self).clients().dom().len(),
            forall|i: int| 0 <= i < r@.len() ==> old(self).clients().dom().contains(#[trigger] r@[i]@),
    {
        proof {
            use_type_invariant(&*self);
        }
        proof {
            crate::manager::lemma_keyed_len(self.clients@);
        }
        let ghost before = self.clients@;
        let mut out: Vec<String> = Vec::new();
        let mut i: usize = 0;
        while i < self.clients.len()
            invariant
                self.clients@ == before,
                unique_keys(before),
                i <= before.len(),
                out@.len() == i,
                forall|k: int| 0 <= k < i ==> #[trigger] out@[k]@ == before[k].0@,
            decreases self.clients.len() - i,
        {
            out.push(self.clients[i].0.clone());
            i = i + 1;
        }
        proof {
            assert forall|k: int| 0 <= k < out@.len() implies keyed_map(before).dom().contains(#[trigger] out@[k]@) by {
                lemma_keyed_index(before, k);
            }
        }
        self.clients = Vec::new();
        out
    }
}

} // verus!
