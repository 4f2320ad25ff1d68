//! The daemon's event loop as decisions: what each event changes in the
//! loop's own state (connected clients, file checks being waited on, a
//! requested shutdown) and what work it asks for.

use vstd::prelude::*;
use crate::config::{Config, spec_pending_restart, pending_restart};
use crate::lifecycle::{Finalize, Pending, ShutdownKind, register_check, spec_register_check};
use crate::protocol::DaemonInfo;
use crate::text::{chars_of, eq_chars, string_views};

verus! {

/// An event reaching the loop, with what the loop reads of it.
#[derive(Debug)]
pub enum LoopEvent {
    ClientConnected { id: u64 },
    ClientDisconnected { id: u64 },
    /// A client's message, and whether it parsed as a request.
    ClientMessage { id: u64, parsed: bool },
    /// A stats tick's patches, and whether there are none.
    StatsReady { empty: bool },
    TorrentCompletedTick { info_hash: String },
    /// A torrent the engine put in the error state, and whether its record
    /// finished applying.
    TorrentErrored { info_hash: String, finalized: bool },
    CheckFinished { info_hash: String },
    AddCompleted { client: u64 },
    SelectForStream { info_hash: String, index: u32 },
    RestartRequested,
    ShutdownRequested,
}

/// The work an event asks of the daemon.
#[derive(Debug, PartialEq)]
pub enum LoopAction {
    Nothing,
    /// Send the new client a snapshot; it is registered already.
    Greet { id: u64 },
    /// Run the request and answer the client.
    Dispatch { id: u64 },
    /// Answer the client that its message was malformed.
    ReplyMalformed { id: u64 },
    BroadcastStats,
    BroadcastComplete { info_hash: String },
    /// Finish the add and answer the client that asked for it.
    FinishAdd { client: u64 },
    /// Recover a torrent that errored after its record was applied.
    Recover { info_hash: String },
    /// Finalize a torrent whose check ended, as the held decision says.
    FinalizeChecked { info_hash: String, pending: Pending },
    /// Select a file for a stream and answer the stream request.
    SelectForStream { info_hash: String, index: u32 },
}

/// What the loop keeps between events.
pub struct LoopState {
    /// Connected clients, each once.
    pub clients: Vec<u64>,
    /// Torrents whose file check is waited on, each once, with what to do
    /// when it ends.
    pub checks: Vec<(String, Pending)>,
    /// The shutdown asked for, if any.
    pub shutdown: Option<ShutdownKind>,
}

/// Each client and each checked torrent is held once.
pub open spec fn loop_wf(s: LoopState) -> bool {
    &&& forall|i: int, j: int| 0 <= i < j < s.clients@.len() ==> s.clients@[i] != s.clients@[j]
    &&& forall|i: int, j: int| 0 <= i < j < s.checks@.len() ==> s.checks@[i].0@ != s.checks@[j].0@
}

/// The checked torrents as a map from info hash to decision.
pub open spec fn checks_map(c: Seq<(String, Pending)>) -> Map<Seq<char>, Pending> {
    Map::new(
        |h: Seq<char>| exists|i: int| 0 <= i < c.len() && c[i].0@ == h,
        |h: Seq<char>| c[choose|i: int| 0 <= i < c.len() && c[i].0@ == h].1,
    )
}

proof fn lemma_checks_map_at(c: Seq<(String, Pending)>, i: int)
    requires
        forall|a: int, b: int| 0 <= a < b < c.len() ==> c[a].0@ != c[b].0@,
        0 <= i < c.len(),
    ensures
        checks_map(c).contains_key(c[i].0@),
        checks_map(c)[c[i].0@] == c[i].1,
{
    let h = c[i].0@;
    let j = choose|j: int| 0 <= j < c.len() && c[j].0@ == h;
    assert(j == i);
}

fn same_hash(a: &String, b: &String) -> (r: bool)
    ensures
        r == (a@ == b@),
{
    let av = chars_of(a.as_str());
    let bv = chars_of(b.as_str());
    eq_chars(av.as_slice(), bv.as_slice())
}

fn find_check(c: &Vec<(String, Pending)>, h: &String) -> (r: Option<usize>)
    ensures
        match r {
            Some(i) => i < c@.len() && c@[i as int].0@ == h@,
            None => forall|i: int| 0 <= i < c@.len() ==> c@[i].0@ != h@,
        },
{
    let mut i: usize = 0;
    while i < c.len()
        invariant
            i <= c@.len(),
            forall|j: int| 0 <= j < i ==> c@[j].0@ != h@,
        decreases c@.len() - i,
    {
        if same_hash(&c[i].0, h) {
            return Some(i);
        }
        i += 1;
    }
    None
}

fn find_client(c: &Vec<u64>, id: u64) -> (r: Option<usize>)
    ensures
        match r {
            Some(i) => i < c@.len() && c@[i as int] == id,
            None => !c@.contains(id),
        },
{
    let mut i: usize = 0;
    while i < c.len()
        invariant
            i <= c@.len(),
            forall|j: int| 0 <= j < i ==> c@[j] != id,
        decreases c@.len() - i,
    {
        if c[i] == id {
            return Some(i);
        }
        i += 1;
    }
    None
}

impl LoopState {
    /// A loop with no clients, no checks, and no shutdown asked for.
    pub fn new() -> (s: LoopState)
        ensures
            loop_wf(s),
            s.clients@.len() == 0,
            s.checks@.len() == 0,
            s.shutdown is None,
    {
        LoopState { clients: Vec::new(), checks: Vec::new(), shutdown: None }
    }

    /// The decision held for a torrent whose check is waited on.
    pub fn check_of(&self, info_hash: &String) -> (r: Option<Pending>)
        requires
            loop_wf(*self),
        ensures
            r == (if checks_map(self.checks@).contains_key(info_hash@) {
                Some(checks_map(self.checks@)[info_hash@])
            } else {
                None
            }),
    {
        match find_check(&self.checks, info_hash) {
            Some(i) => {
                proof {
                    lemma_checks_map_at(self.checks@, i as int);
                }
                Some(self.checks[i].1)
            },
            None => None,
        }
    }

    /// Ask to wait on a torrent's file check, deciding `from` and whether to
    /// pause it again after. Returns whether a waiter must be started: one
    /// already waiting keeps going, and its decision is replaced only by a
    /// more deliberate one.
    pub fn register_check(&mut self, info_hash: String, from: Finalize, repause: bool) -> (spawn: bool)
        requires
            loop_wf(*old(self)),
        ensures
            loop_wf(*final(self)),
            final(self).clients == old(self).clients,
            final(self).shutdown == old(self).shutdown,
            ({
                let existing = if checks_map(old(self).checks@).contains_key(info_hash@) {
                    Some(checks_map(old(self).checks@)[info_hash@])
                } else {
                    None
                };
                let (held, starts) = spec_register_check(existing, from, repause);
                &&& spawn == starts
                &&& checks_map(final(self).checks@) == checks_map(old(self).checks@).insert(info_hash@, held)
            }),
    {
        let ghost c0 = self.checks@;
        match find_check(&self.checks, &info_hash) {
            Some(i) => {
                proof {
                    lemma_checks_map_at(c0, i as int);
                }
                let (held, starts) = register_check(Some(self.checks[i].1), from, repause);
                let key = self.checks[i].0.clone();
                self.checks.set(i, (key, held));
                proof {
                    let c1 = self.checks@;
                    assert(c1 == c0.update(i as int, (c1[i as int].0, held)));
                    assert forall|a: int, b: int| 0 <= a < b < c1.len() implies c1[a].0@ != c1[b].0@ by {
                        assert(c1[a].0@ == c0[a].0@ && c1[b].0@ == c0[b].0@);
                    }
                    assert forall|h: Seq<char>| #![auto] checks_map(c1).contains_key(h) <==> checks_map(c0).insert(
                        info_hash@,
                        held,
                    ).contains_key(h) by {
                        if checks_map(c1).contains_key(h) {
                            let j = choose|j: int| 0 <= j < c1.len() && c1[j].0@ == h;
                            assert(c0[j].0@ == h);
                        }
                        if checks_map(c0).contains_key(h) {
                            let j = choose|j: int| 0 <= j < c0.len() && c0[j].0@ == h;
                            assert(c1[j].0@ == h);
                        }
                    }
                    assert forall|h: Seq<char>| #![auto] checks_map(c1).contains_key(h) implies checks_map(c1)[h]
                        == checks_map(c0).insert(info_hash@, held)[h] by {
                        let j = choose|j: int| 0 <= j < c1.len() && c1[j].0@ == h;
                        lemma_checks_map_at(c1, j);
                        if j != i {
                            lemma_checks_map_at(c0, j);
                        }
                    }
                    assert(checks_map(c1) =~= checks_map(c0).insert(info_hash@, held));
                }
                starts
            },
            None => {
                let (held, starts) = register_check(None, from, repause);
                let ghost key = info_hash@;
                self.checks.push((info_hash, held));
                proof {
                    let c1 = self.checks@;
                    assert(c1 == c0.push(c1[c0.len() as int]));
                    assert forall|a: int, b: int| 0 <= a < b < c1.len() implies c1[a].0@ != c1[b].0@ by {
                        if b < c0.len() {
                            assert(c1[a] == c0[a] && c1[b] == c0[b]);
                        } else {
                            assert(c1[a] == c0[a]);
                        }
                    }
                    assert forall|h: Seq<char>| #![auto] checks_map(c1).contains_key(h) <==> checks_map(c0).insert(
                        key,
                        held,
                    ).contains_key(h) by {
                        if checks_map(c1).contains_key(h) {
                            let j = choose|j: int| 0 <= j < c1.len() && c1[j].0@ == h;
                            if j < c0.len() {
                                assert(c0[j].0@ == h);
                            }
                        }
                        if checks_map(c0).contains_key(h) {
                            let j = choose|j: int| 0 <= j < c0.len() && c0[j].0@ == h;
                            assert(c1[j].0@ == h);
                        }
                        if h == key {
                            assert(c1[c0.len() as int].0@ == h);
                        }
                    }
                    assert forall|h: Seq<char>| #![auto] checks_map(c1).contains_key(h) implies checks_map(c1)[h]
                        == checks_map(c0).insert(key, held)[h] by {
                        let j = choose|j: int| 0 <= j < c1.len() && c1[j].0@ == h;
                        lemma_checks_map_at(c1, j);
                        if j < c0.len() {
                            lemma_checks_map_at(c0, j);
                        }
                    }
                    assert(checks_map(c1) =~= checks_map(c0).insert(key, held));
                }
                starts
            },
        }
    }

    /// Forget a torrent's check, returning what was decided for it.
    pub fn take_check(&mut self, info_hash: &String) -> (r: Option<Pending>)
        requires
            loop_wf(*old(self)),
        ensures
            loop_wf(*final(self)),
            final(self).clients == old(self).clients,
            final(self).shutdown == old(self).shutdown,
            r == (if checks_map(old(self).checks@).contains_key(info_hash@) {
                Some(checks_map(old(self).checks@)[info_hash@])
            } else {
                None
            }),
            checks_map(final(self).checks@) == checks_map(old(self).checks@).remove(info_hash@),
    {
        let ghost c0 = self.checks@;
        match find_check(&self.checks, info_hash) {
            Some(i) => {
                proof {
                    lemma_checks_map_at(c0, i as int);
                }
                let (_, p) = self.checks.remove(i);
                proof {
                    let c1 = self.checks@;
                    assert(c1 == c0.remove(i as int));
                    assert forall|a: int, b: int| 0 <= a < b < c1.len() implies c1[a].0@ != c1[b].0@ by {
                        let a0 = if a < i { a } else { a + 1 };
                        let b0 = if b < i { b } else { b + 1 };
                        assert(c1[a] == c0[a0] && c1[b] == c0[b0]);
                    }
                    assert forall|h: Seq<char>| #![auto] checks_map(c1).contains_key(h) <==> checks_map(c0).remove(
                        info_hash@,
                    ).contains_key(h) by {
                        if checks_map(c1).contains_key(h) {
                            let j = choose|j: int| 0 <= j < c1.len() && c1[j].0@ == h;
                            let j0 = if j < i { j } else { j + 1 };
                            assert(c0[j0].0@ == h);
                            assert(h != info_hash@);
                        }
                        if checks_map(c0).contains_key(h) && h != info_hash@ {
                            let j = choose|j: int| 0 <= j < c0.len() && c0[j].0@ == h;
                            assert(j != i);
                            if j < i {
                                assert(c1[j].0@ == h);
                            } else {
                                assert(c1[j - 1].0@ == h);
                            }
                        }
                    }
                    assert forall|h: Seq<char>| #![auto] checks_map(c1).contains_key(h) implies checks_map(c1)[h]
                        == checks_map(c0).remove(info_hash@)[h] by {
                        let j = choose|j: int| 0 <= j < c1.len() && c1[j].0@ == h;
                        lemma_checks_map_at(c1, j);
                        let j0 = if j < i { j } else { j + 1 };
                        assert(c1[j] == c0[j0]);
                        lemma_checks_map_at(c0, j0);
                    }
                    assert(checks_map(c1) =~= checks_map(c0).remove(info_hash@));
                }
                Some(p)
            },
            None => {
                proof {
                    assert(!checks_map(c0).contains_key(info_hash@));
                    assert(checks_map(c0) =~= checks_map(c0).remove(info_hash@));
                }
                None
            },
        }
    }

    /// Ask the loop to end after the current event.
    pub fn request_shutdown(&mut self, kind: ShutdownKind)
        ensures
            final(self).shutdown == Some(kind),
            final(self).clients == old(self).clients,
            final(self).checks == old(self).checks,
    {
        self.shutdown = Some(kind);
    }
}

/// What one event does to the loop and asks of the daemon.
pub fn handle_event(state: &mut LoopState, ev: LoopEvent) -> (action: LoopAction)
    requires
        loop_wf(*old(state)),
    ensures
        loop_wf(*final(state)),
        match ev {
            LoopEvent::ClientConnected { id } => {
                &&& action == (LoopAction::Greet { id })
                &&& final(state).clients@.to_set() == old(state).clients@.to_set().insert(id)
                &&& final(state).checks == old(state).checks
                &&& final(state).shutdown == old(state).shutdown
            },
            LoopEvent::ClientDisconnected { id } => {
                &&& action == LoopAction::Nothing
                &&& final(state).clients@.to_set() == old(state).clients@.to_set().remove(id)
                &&& final(state).checks == old(state).checks
                &&& final(state).shutdown == old(state).shutdown
            },
            LoopEvent::ClientMessage { id, parsed } => {
                &&& action == if parsed {
                    LoopAction::Dispatch { id }
                } else {
                    LoopAction::ReplyMalformed { id }
                }
                &&& *final(state) == *old(state)
            },
            LoopEvent::StatsReady { empty } => {
                &&& action == if empty {
                    LoopAction::Nothing
                } else {
                    LoopAction::BroadcastStats
                }
                &&& *final(state) == *old(state)
            },
            LoopEvent::TorrentCompletedTick { info_hash } => {
                &&& action matches LoopAction::BroadcastComplete { info_hash: h } && h@ == info_hash@
                &&& *final(state) == *old(state)
            },
            LoopEvent::TorrentErrored { info_hash, finalized } => {
                &&& if finalized {
                    action matches LoopAction::Recover { info_hash: h } && h@ == info_hash@
                } else {
                    action == LoopAction::Nothing
                }
                &&& *final(state) == *old(state)
            },
            LoopEvent::CheckFinished { info_hash } => {
                &&& if checks_map(old(state).checks@).contains_key(info_hash@) {
                    action matches LoopAction::FinalizeChecked { info_hash: h, pending } && h@ == info_hash@
                        && pending == checks_map(old(state).checks@)[info_hash@]
                } else {
                    action == LoopAction::Nothing
                }
                &&& checks_map(final(state).checks@) == checks_map(old(state).checks@).remove(info_hash@)
                &&& final(state).clients == old(state).clients
                &&& final(state).shutdown == old(state).shutdown
            },
            LoopEvent::AddCompleted { client } => {
                &&& action == (LoopAction::FinishAdd { client })
                &&& *final(state) == *old(state)
            },
            LoopEvent::SelectForStream { info_hash, index } => {
                &&& action matches LoopAction::SelectForStream { info_hash: h, index: i } && h@ == info_hash@
                    && i == index
                &&& *final(state) == *old(state)
            },
            LoopEvent::RestartRequested => {
                &&& action == LoopAction::Nothing
                &&& final(state).shutdown == Some(ShutdownKind::Restart)
                &&& final(state).clients == old(state).clients
                &&& final(state).checks == old(state).checks
            },
            LoopEvent::ShutdownRequested => {
                &&& action == LoopAction::Nothing
                &&& final(state).shutdown == Some(ShutdownKind::Stop)
                &&& final(state).clients == old(state).clients
                &&& final(state).checks == old(state).checks
            },
        },
{
    match ev {
        LoopEvent::ClientConnected { id } => {
            let ghost c0 = state.clients@;
            match find_client(&state.clients, id) {
                Some(_) => {},
                None => {
                    state.clients.push(id);
                    proof {
                        assert(state.clients@ == c0.push(id));
                        let c1 = state.clients@;
                        assert forall|i: int, j: int| 0 <= i < j < c1.len() implies c1[i] != c1[j] by {
                            if j == c0.len() {
                                assert(c1[i] == c0[i]);
                                assert(c0.contains(c0[i]));
                            }
                        }
                    }
                },
            }
            proof {
                let c1 = state.clients@;
                assert forall|x: u64| c1.to_set().contains(x) <==> c0.to_set().insert(id).contains(x) by {
                    if c1.contains(x) {
                        let j = choose|j: int| 0 <= j < c1.len() && c1[j] == x;
                        if j < c0.len() {
                            assert(c0[j] == x);
                        }
                    }
                    if c0.contains(x) {
                        let j = choose|j: int| 0 <= j < c0.len() && c0[j] == x;
                        assert(c1[j] == x);
                    }
                    if x == id && !c0.contains(id) {
                        assert(c1[c0.len() as int] == id);
                    }
                }
                assert(c1.to_set() =~= c0.to_set().insert(id));
            }
            LoopAction::Greet { id }
        },
        LoopEvent::ClientDisconnected { id } => {
            let ghost c0 = state.clients@;
            match find_client(&state.clients, id) {
                Some(i) => {
                    state.clients.remove(i);
                    proof {
                        let c1 = state.clients@;
                        assert(c1 == c0.remove(i as int));
                        assert forall|a: int, b: int| 0 <= a < b < c1.len() implies c1[a] != c1[b] by {
                            let a0 = if a < i { a } else { a + 1 };
                            let b0 = if b < i { b } else { b + 1 };
                            assert(c1[a] == c0[a0] && c1[b] == c0[b0]);
                        }
                        assert forall|x: u64| c1.to_set().contains(x) <==> c0.to_set().remove(id).contains(x) by {
                            if c1.contains(x) {
                                let j = choose|j: int| 0 <= j < c1.len() && c1[j] == x;
                                let j0 = if j < i { j } else { j + 1 };
                                assert(c0[j0] == x);
                                assert(j0 != i);
                            }
                            if c0.contains(x) && x != id {
                                let j = choose|j: int| 0 <= j < c0.len() && c0[j] == x;
                                if j < i {
                                    assert(c1[j] == x);
                                } else {
                                    assert(c1[j - 1] == x);
                                }
                            }
                        }
                        assert(c1.to_set() =~= c0.to_set().remove(id));
                    }
                },
                None => {
                    proof {
                        assert(c0.to_set() =~= c0.to_set().remove(id));
                    }
                },
            }
            LoopAction::Nothing
        },
        LoopEvent::ClientMessage { id, parsed } => {
            if parsed {
                LoopAction::Dispatch { id }
            } else {
                LoopAction::ReplyMalformed { id }
            }
        },
        LoopEvent::StatsReady { empty } => {
            if empty {
                LoopAction::Nothing
            } else {
                LoopAction::BroadcastStats
            }
        },
        LoopEvent::TorrentCompletedTick { info_hash } => LoopAction::BroadcastComplete { info_hash },
        LoopEvent::TorrentErrored { info_hash, finalized } => {
            if finalized {
                LoopAction::Recover { info_hash }
            } else {
                LoopAction::Nothing
            }
        },
        LoopEvent::CheckFinished { info_hash } => {
            match state.take_check(&info_hash) {
                Some(pending) => LoopAction::FinalizeChecked { info_hash, pending },
                None => LoopAction::Nothing,
            }
        },
        LoopEvent::AddCompleted { client } => LoopAction::FinishAdd { client },
        LoopEvent::SelectForStream { info_hash, index } => LoopAction::SelectForStream { info_hash, index },
        LoopEvent::RestartRequested => {
            state.request_shutdown(ShutdownKind::Restart);
            LoopAction::Nothing
        },
        LoopEvent::ShutdownRequested => {
            state.request_shutdown(ShutdownKind::Stop);
            LoopAction::Nothing
        },
    }
}

/// What the daemon tells its clients as it goes down.
#[derive(Debug, Clone, Copy, PartialEq, Eq, Structural)]
pub enum Farewell {
    Restarting,
    ShuttingDown,
}

/// How the daemon goes down.
#[derive(Debug, Clone, Copy, PartialEq, Eq, Structural)]
pub struct TeardownPlan {
    pub farewell: Farewell,
    /// Drop what the user did not keep (bounded in time).
    pub cleanup: bool,
    /// Remove the runtime descriptor.
    pub remove_descriptor: bool,
}

/// Only a deliberate stop drops what the user did not keep, and removes the
/// descriptor; a restart keeps everything for the next daemon.
pub fn teardown_plan(kind: ShutdownKind) -> (p: TeardownPlan)
    ensures
        p == (match kind {
            ShutdownKind::Restart => TeardownPlan {
                farewell: Farewell::Restarting,
                cleanup: false,
                remove_descriptor: false,
            },
            ShutdownKind::Stop => TeardownPlan {
                farewell: Farewell::ShuttingDown,
                cleanup: true,
                remove_descriptor: true,
            },
        }),
{
    match kind {
        ShutdownKind::Restart => TeardownPlan { farewell: Farewell::Restarting, cleanup: false, remove_descriptor: false },
        ShutdownKind::Stop => TeardownPlan { farewell: Farewell::ShuttingDown, cleanup: true, remove_descriptor: true },
    }
}

/// The daemon's part of a snapshot: its version, that it is ready, the ports
/// it bound, whether DLNA is up, and the saved settings that wait on a
/// restart.
pub fn daemon_info(version: String, started: &Config, config: &Config, upnp_active: bool) -> (d: DaemonInfo)
    ensures
        d.version@ == version@,
        d.status@ == "ready"@,
        d.control_port == started.network.control_port,
        d.lan_port == started.network.lan_port,
        d.upnp_active == upnp_active,
        string_views(d.pending_restart@) == spec_pending_restart(*started, *config),
{
    DaemonInfo {
        version,
        status: "ready".to_owned(),
        control_port: started.network.control_port,
        lan_port: started.network.lan_port,
        upnp_active,
        pending_restart: pending_restart(started, config),
    }
}

} // verus!
