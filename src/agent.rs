use std::collections::{HashMap, HashSet};
use vstd::prelude::*;

use crate::config::{HfiConfig, lemma_push_contains, reconciled, table_view, table_wf};
use crate::session::{find_session_cookie, first_cookie, normalize_url, normalized_url};

verus! {

broadcast use vstd::std_specs::hash::group_hash_axioms;

/// Milliseconds between two configuration refreshes.
pub const CFG_UPDATE_INTERVAL_MS: u64 = 60000;

/// Milliseconds without any packet after which the agent stops.
pub const MAX_IDLE_TIME_MS: u64 = 60000;

/// Decision of the periodic hook about configuration refresh.
#[derive(PartialEq, Eq, Structural, Clone, Copy, Debug)]
pub enum TickAction {
    /// The refresh interval has not run out: wait briefly.
    Wait,
    /// Fetch the configuration now.
    Fetch,
}

/// Per-packet classification outcome.
#[derive(PartialEq, Eq, Structural, Clone, Copy, Debug)]
pub enum Verdict {
    Pass,
    Transform,
}

/// Time from `from` to `now`, zero if the clock reads earlier.
pub open spec fn elapsed(from: u64, now: u64) -> int {
    if now >= from {
        now - from
    } else {
        0
    }
}

/// True iff a refresh is due at `now` given the time of the last one
/// (`None`: none yet).
pub open spec fn fetch_due(last_update: Option<u64>, now: u64) -> bool {
    match last_update {
        None => true,
        Some(t) => elapsed(t, now) >= CFG_UPDATE_INTERVAL_MS,
    }
}

/// The rewritten timestamp value: now plus the delta, in the 32 bits of the
/// option field.
pub open spec fn fabricated_timestamp(now_secs: u64, delta: u64) -> u32 {
    ((now_secs + delta) % 0x1_0000_0000) as u32
}

/// State of the agent: server location, session token, watched ports, delta
/// table, and the times of the last refresh and of the last packet.
pub struct HfiActions {
    pub url: String,
    pub session_cookie: Option<String>,
    pub watched_ports: HashSet<u16>,
    pub deltas_map: HashMap<u16, Vec<u64>>,
    pub last_update: Option<u64>,
    pub last_packet: u64,
}

impl HfiActions {
    /// The delta table, as a map from port to its deltas.
    pub open spec fn table(&self) -> Map<u16, Seq<u64>> {
        table_view(self.deltas_map@)
    }

    /// No port of the delta table has an empty list.
    pub open spec fn wf(&self) -> bool {
        table_wf(self.table())
    }

    /// A fresh agent for the server at `url`, created at `now`: the address
    /// normalized, no session, nothing watched, and a refresh due at once.
    pub fn new(url: &str, now: u64) -> (r: HfiActions)
        ensures
            r.wf(),
            r.url@ == normalized_url(url@),
            r.session_cookie.is_none(),
            r.watched_ports@ == Set::<u16>::empty(),
            r.table().dom().is_empty(),
            r.last_update.is_none(),
            r.last_packet == now,
    {
        let r = HfiActions {
            url: normalize_url(url),
            session_cookie: None,
            watched_ports: HashSet::new(),
            deltas_map: HashMap::new(),
            last_update: None,
            last_packet: now,
        };
        proof {
            assert(r.table().dom() =~= Set::empty());
        }
        r
    }

    /// The address of `endpoint` on the server.
    pub fn url_for(&self, endpoint: &str) -> (r: String)
        ensures
            r@ == self.url@ + endpoint@,
    {
        self.url.clone().concat(endpoint)
    }

    /// Takes the header lines of the authentication response: the token of
    /// the first `Set-Cookie` line becomes the session, and without one the
    /// agent has none.
    pub fn auth(&mut self, headers: &Vec<String>)
        ensures
            final(self).url == old(self).url,
            final(self).watched_ports == old(self).watched_ports,
            final(self).deltas_map == old(self).deltas_map,
            final(self).last_update == old(self).last_update,
            final(self).last_packet == old(self).last_packet,
            match final(self).session_cookie {
                Some(c) => first_cookie(headers@.map_values(|h: String| h@)) == Some(c@),
                None => first_cookie(headers@.map_values(|h: String| h@)).is_none(),
            },
    {
        self.session_cookie = find_session_cookie(headers);
    }

    /// Whether a refresh is due at `now` (milliseconds of a monotonic clock).
    pub fn next_action(&self, now: u64) -> (r: TickAction)
        ensures
            r == (if fetch_due(self.last_update, now) {
                TickAction::Fetch
            } else {
                TickAction::Wait
            }),
    {
        match self.last_update {
            None => TickAction::Fetch,
            Some(t) => {
                if now >= t && now - t >= CFG_UPDATE_INTERVAL_MS {
                    TickAction::Fetch
                } else {
                    TickAction::Wait
                }
            },
        }
    }

    /// Takes the outcome of a refresh made at `now`: a configuration, or
    /// `None` where there was none to be had. The refresh time advances
    /// either way; a configuration replaces the delta table and the watched
    /// ports, and the ports added and removed are returned.
    pub fn update_config(&mut self, config: Option<HfiConfig>, now: u64) -> (r: (Vec<u16>, Vec<u16>))
        requires
            old(self).wf(),
        ensures
            final(self).wf(),
            final(self).last_update == Some(now),
            final(self).last_packet == old(self).last_packet,
            final(self).url == old(self).url,
            final(self).session_cookie == old(self).session_cookie,
            match config {
                None => {
                    &&& final(self).watched_ports@ == old(self).watched_ports@
                    &&& final(self).table() == old(self).table()
                    &&& r.0@.len() == 0
                    &&& r.1@.len() == 0
                },
                Some(c) => {
                    &&& reconciled(old(self).watched_ports@, c.port_set(), final(self).watched_ports@, r.0@, r.1@)
                    &&& final(self).table() == crate::config::delta_table_of(c.checkers@)
                },
            },
    {
        self.last_update = Some(now);
        match config {
            None => (Vec::new(), Vec::new()),
            Some(c) => {
                let diff = c.get_diff_ports(&mut self.watched_ports);
                self.deltas_map = c.get_deltas_map();
                diff
            },
        }
    }

    /// The packet engine refused to register `ports`: they are no longer
    /// counted as watched, so that the next refresh adds them again.
    pub fn add_ports_failed(&mut self, ports: &Vec<u16>)
        requires
            old(self).wf(),
        ensures
            final(self).wf(),
            final(self).watched_ports@ == old(self).watched_ports@.difference(ports@.to_set()),
            final(self).url == old(self).url,
            final(self).session_cookie == old(self).session_cookie,
            final(self).deltas_map == old(self).deltas_map,
            final(self).last_update == old(self).last_update,
            final(self).last_packet == old(self).last_packet,
    {
        let ghost before = self.watched_ports@;
        let mut i: usize = 0;
        while i < ports.len()
            invariant
                i <= ports.len(),
                self.wf(),
                self.url == old(self).url,
                self.session_cookie == old(self).session_cookie,
                self.deltas_map == old(self).deltas_map,
                self.last_update == old(self).last_update,
                self.last_packet == old(self).last_packet,
                before == old(self).watched_ports@,
                forall|x: u16| #[trigger] self.watched_ports@.contains(x) <==> before.contains(x) && !ports@.take(i as int).contains(x),
            decreases ports.len() - i,
        {
            let p = ports[i];
            proof {
                assert(ports@.take(i + 1) =~= ports@.take(i as int).push(p));
                lemma_push_contains(ports@.take(i as int), p);
            }
            self.watched_ports.remove(&p);
            i += 1;
        }
        proof {
            assert(ports@.take(ports@.len() as int) == ports@);
            assert(self.watched_ports@ =~= before.difference(ports@.to_set()));
        }
    }

    /// The packet engine refused to deregister `ports`: they count as watched
    /// again, so that the next refresh removes them again.
    pub fn remove_ports_failed(&mut self, ports: &Vec<u16>)
        requires
            old(self).wf(),
        ensures
            final(self).wf(),
            final(self).watched_ports@ == old(self).watched_ports@.union(ports@.to_set()),
            final(self).url == old(self).url,
            final(self).session_cookie == old(self).session_cookie,
            final(self).deltas_map == old(self).deltas_map,
            final(self).last_update == old(self).last_update,
            final(self).last_packet == old(self).last_packet,
    {
        let ghost before = self.watched_ports@;
        let mut i: usize = 0;
        while i < ports.len()
            invariant
                i <= ports.len(),
                self.wf(),
                self.url == old(self).url,
                self.session_cookie == old(self).session_cookie,
                self.deltas_map == old(self).deltas_map,
                self.last_update == old(self).last_update,
                self.last_packet == old(self).last_packet,
                before == old(self).watched_ports@,
                forall|x: u16| #[trigger] self.watched_ports@.contains(x) <==> before.contains(x) || ports@.take(i as int).contains(x),
            decreases ports.len() - i,
        {
            let p = ports[i];
            proof {
                assert(ports@.take(i + 1) =~= ports@.take(i as int).push(p));
                lemma_push_contains(ports@.take(i as int), p);
            }
            self.watched_ports.insert(p);
            i += 1;
        }
        proof {
            assert(ports@.take(ports@.len() as int) == ports@);
            assert(self.watched_ports@ =~= before.union(ports@.to_set()));
        }
    }

    /// False iff no packet has been seen for the idle limit or longer.
    pub fn still_active(&self, now: u64) -> (r: bool)
        ensures
            r == (elapsed(self.last_packet, now) < MAX_IDLE_TIME_MS),
    {
        !(now >= self.last_packet && now - self.last_packet >= MAX_IDLE_TIME_MS)
    }

    /// Classifies a packet to `dst_port` seen at `now`: `Transform` iff the
    /// port has deltas. Records the time of the packet in every case.
    pub fn filter(&mut self, dst_port: u16, now: u64) -> (r: Verdict)
        ensures
            final(self).last_packet == now,
            final(self).url == old(self).url,
            final(self).session_cookie == old(self).session_cookie,
            final(self).watched_ports == old(self).watched_ports,
            final(self).deltas_map == old(self).deltas_map,
            final(self).last_update == old(self).last_update,
            r == (if old(self).table().contains_key(dst_port) {
                Verdict::Transform
            } else {
                Verdict::Pass
            }),
    {
        self.last_packet = now;
        if self.deltas_map.contains_key(&dst_port) {
            Verdict::Transform
        } else {
            Verdict::Pass
        }
    }

    /// The timestamp option value to write into a segment to `dst_port` whose
    /// option holds `ts` (`None`: no option, the segment stays as it is), at
    /// wall-clock time `now_secs`. With a delta for the port the value is now
    /// plus the first delta; without one the option keeps its value.
    pub fn transform(&self, dst_port: u16, ts: Option<u32>, now_secs: u64) -> (r: Option<u32>)
        ensures
            match ts {
                None => r.is_none(),
                Some(t) => r == Some(
                    if self.table().contains_key(dst_port) && self.table()[dst_port].len() > 0 {
                        fabricated_timestamp(now_secs, self.table()[dst_port][0])
                    } else {
                        t
                    },
                ),
            },
    {
        match ts {
            None => None,
            Some(t) => match self.deltas_map.get(&dst_port) {
                Some(deltas) => {
                    if deltas.len() > 0 {
                        let sum: u128 = now_secs as u128 + deltas[0] as u128;
                        Some((sum % 0x1_0000_0000) as u32)
                    } else {
                        Some(t)
                    }
                },
                None => Some(t),
            },
        }
    }
}

/// After a refresh at `t`, no refresh is due again before a full interval
/// has passed: within one interval at most one fetch happens.
pub proof fn lemma_one_fetch_per_interval(t: u64, now: u64)
    requires
        t <= now,
        now - t < CFG_UPDATE_INTERVAL_MS,
    ensures
        !fetch_due(Some(t), now),
        fetch_due(Some(t), (t + CFG_UPDATE_INTERVAL_MS) as u64) || t + CFG_UPDATE_INTERVAL_MS > u64::MAX,
{
}

} // verus!
