//! The book-keeping of the reactor: which token stands for which listener or
//! connection, and which connections have been idle for too long.
//!
//! The sockets and the poll are the caller's; here is what the reactor
//! decides.
use vstd::prelude::*;

verus! {

pub const INITIAL_TOKEN_ID: usize = 0;

/// How long a connection may stay idle, in milliseconds.
pub const IDLE_LIMIT_MS: u64 = 1000;

/// A connection that was accepted and is not closed yet.
#[derive(Clone, Copy, Debug, PartialEq, Eq, Structural)]
pub struct Connection {
    /// The token that the connection is registered under.
    pub token: usize,
    /// The server whose listener accepted it.
    pub server: usize,
    /// When it was accepted, in milliseconds on the caller's clock.
    pub last_activity: u64,
}

/// What the reactor does about an event.
#[derive(Clone, Copy, Debug, PartialEq, Eq, Structural)]
pub enum Readiness {
    /// A listener is ready: accept until the socket would block. The server
    /// of the listener is given.
    Accept(usize),
    /// A connection is ready: handle its request against the configuration
    /// of the server that is given.
    Handle(usize),
    /// The token stands for nothing that is open.
    Ignore,
}

/// How the handling of a connection ended.
#[derive(Clone, Copy, Debug, PartialEq, Eq, Structural)]
pub enum Handled {
    /// The response was written.
    Done,
    /// The socket would block: the request is not all there yet.
    WouldBlock,
    /// The connection failed.
    Failed,
}

/// The listeners and the open connections of a reactor.
#[derive(Clone, Debug, PartialEq, Eq)]
pub struct ServerState {
    /// The server of each listener; a listener's token is its place here.
    pub listeners: Vec<usize>,
    /// The token that the next connection gets.
    pub token_id: usize,
    /// The open connections, in the order in which they were accepted.
    pub connections: Vec<Connection>,
}

/// The entries of `c` that `keep` holds of, in their order.
pub open spec fn kept(c: Seq<Connection>, keep: spec_fn(Connection) -> bool) -> Seq<Connection>
    decreases c.len(),
{
    if c.len() == 0 {
        Seq::empty()
    } else if keep(c.last()) {
        kept(c.drop_last(), keep).push(c.last())
    } else {
        kept(c.drop_last(), keep)
    }
}

/// Holds of the connections with another token than the given one.
pub open spec fn other_than(token: usize) -> spec_fn(Connection) -> bool {
    |x: Connection| x.token != token
}

/// Holds of the connections that are not idle at `now`.
pub open spec fn active_at(now: u64) -> spec_fn(Connection) -> bool {
    |x: Connection| !is_idle(x, now)
}

/// The entries of `c` but those with the given token.
pub open spec fn without_token(c: Seq<Connection>, token: usize) -> Seq<Connection> {
    kept(c, other_than(token))
}

/// Whether a connection has been idle for longer than the limit at `now`.
pub open spec fn is_idle(c: Connection, now: u64) -> bool {
    now > c.last_activity && now - c.last_activity > IDLE_LIMIT_MS
}

/// The connections of `c` that are not idle at `now`.
pub open spec fn alive(c: Seq<Connection>, now: u64) -> Seq<Connection> {
    kept(c, active_at(now))
}

/// The tokens of the connections of `c` that are idle at `now`.
pub open spec fn idle_tokens(c: Seq<Connection>, now: u64) -> Seq<usize>
    decreases c.len(),
{
    if c.len() == 0 {
        Seq::empty()
    } else if is_idle(c.last(), now) {
        idle_tokens(c.drop_last(), now).push(c.last().token)
    } else {
        idle_tokens(c.drop_last(), now)
    }
}

/// The tokens grow along the connections and lie from `low` up to `high`.
pub open spec fn tokens_ordered(c: Seq<Connection>, low: int, high: int) -> bool {
    &&& forall|i: int| 0 <= i < c.len() ==> low <= (#[trigger] c[i]).token < high
    &&& forall|i: int, j: int|
        0 <= i < j < c.len() ==> (#[trigger] c[i]).token < (#[trigger] c[j]).token
}

/// Taking entries out leaves the tokens ordered: what is kept stands in
/// `c`, in the order of `c`.
proof fn lemma_kept(c: Seq<Connection>, keep: spec_fn(Connection) -> bool, low: int, high: int)
    requires
        tokens_ordered(c, low, high),
    ensures
        tokens_ordered(kept(c, keep), low, high),
        kept(c, keep).len() <= c.len(),
        forall|i: int|
            0 <= i < kept(c, keep).len() ==> exists|k: int|
                i <= k < c.len() && c[k] == #[trigger] kept(c, keep)[i],
    decreases c.len(),
{
    if c.len() > 0 {
        let rest = c.drop_last();
        assert(tokens_ordered(rest, low, high)) by {
            assert forall|i: int| 0 <= i < rest.len() implies low <= (#[trigger] rest[i]).token
                < high by {
                assert(rest[i] == c[i]);
            }
            assert forall|i: int, j: int| 0 <= i < j < rest.len() implies (#[trigger] rest[i]).token
                < (#[trigger] rest[j]).token by {
                assert(rest[i] == c[i] && rest[j] == c[j]);
            }
        }
        lemma_kept(rest, keep, low, high);
        let w = kept(rest, keep);
        let out = kept(c, keep);
        assert forall|i: int| 0 <= i < out.len() implies (exists|k: int|
            i <= k < c.len() && c[k] == #[trigger] out[i]) by {
            if i < w.len() {
                assert(out[i] == w[i]);
                let k = choose|k: int| i <= k < rest.len() && rest[k] == w[i];
                assert(c[k] == out[i]);
            } else {
                assert(out[i] == c.last());
                assert(c[c.len() - 1] == out[i]);
            }
        }
        assert forall|i: int, j: int| 0 <= i < j < out.len() implies (#[trigger] out[i]).token < (
        #[trigger] out[j]).token by {
            if j < w.len() {
                assert(out[i] == w[i] && out[j] == w[j]);
            } else {
                assert(out[j] == c.last());
                assert(out[i] == w[i]);
                let k = choose|k: int| i <= k < rest.len() && rest[k] == w[i];
                assert(c[k] == out[i]);
                assert(c[k].token < c[c.len() - 1].token);
            }
        }
        assert forall|i: int| 0 <= i < out.len() implies low <= (#[trigger] out[i]).token
            < high by {
            let k = choose|k: int| i <= k < c.len() && c[k] == out[i];
            assert(low <= c[k].token < high);
        }
    }
}

impl ServerState {
    /// The tokens of the listeners are the places in `listeners`; those of
    /// the connections come after them, are all different, and lie below the
    /// token that comes next.
    pub open spec fn wf(&self) -> bool {
        &&& self.listeners@.len() <= self.token_id
        &&& tokens_ordered(self.connections@, self.listeners@.len() as int, self.token_id as int)
    }

    /// The state of a reactor at its start. `servers` gives for each server
    /// the number of its listeners. The listeners get the tokens from 0 on,
    /// server after server.
    pub fn init(servers: &Vec<usize>) -> (r: Option<ServerState>)
        ensures
            match r {
                Some(s) => s.wf() && s.connections@.len() == 0 && s.token_id == s.listeners@.len()
                    && s.listeners@ == listeners_of(servers@, servers@.len() as int),
                None => listeners_of(servers@, servers@.len() as int).len() > usize::MAX,
            },
    {
        let mut listeners: Vec<usize> = Vec::new();
        let mut i: usize = 0;
        while i < servers.len()
            invariant
                i <= servers.len(),
                listeners@ == listeners_of(servers@, i as int),
            decreases servers.len() - i,
        {
            let mut k: usize = 0;
            let count = servers[i];
            let ghost before = listeners@;
            assert(listeners@ =~= before + Seq::new(0nat, |j: int| i));
            while k < count
                invariant
                    i < servers.len(),
                    count == servers@[i as int],
                    k <= count,
                    listeners@ == before + Seq::new(k as nat, |j: int| i),
                    before == listeners_of(servers@, i as int),
                decreases count - k,
            {
                if listeners.len() == usize::MAX {
                    proof {
                        lemma_listeners_grow(servers@, i + 1, servers@.len() as int);
                        assert(listeners_of(servers@, i + 1).len() >= listeners@.len() + 1);
                    }
                    return None;
                }
                listeners.push(i);
                assert(listeners@ =~= before + Seq::new((k + 1) as nat, |j: int| i));
                k += 1;
            }
            i += 1;
        }
        let token_id = listeners.len();
        Some(ServerState { listeners, token_id, connections: Vec::new() })
    }

    /// What to do about an event for `token`.
    pub fn on_event(&self, token: usize) -> (r: Readiness)
        requires
            self.wf(),
        ensures
            r == self.readiness(token),
    {
        if token < self.listeners.len() {
            return Readiness::Accept(self.listeners[token]);
        }
        let mut i: usize = 0;
        while i < self.connections.len()
            invariant
                i <= self.connections.len(),
                self.wf(),
                token >= self.listeners@.len(),
                forall|j: int| 0 <= j < i ==> (#[trigger] self.connections@[j]).token != token,
            decreases self.connections.len() - i,
        {
            if self.connections[i].token == token {
                proof {
                    self.lemma_open_at(token, i as int);
                }
                return Readiness::Handle(self.connections[i].server);
            }
            i += 1;
        }
        Readiness::Ignore
    }

    /// What the reactor does about an event for `token`.
    pub open spec fn readiness(&self, token: usize) -> Readiness {
        if token < self.listeners@.len() {
            Readiness::Accept(self.listeners@[token as int])
        } else if exists|i: int|
            0 <= i < self.connections@.len() && (#[trigger] self.connections@[i]).token == token {
            Readiness::Handle(self.server_of(token))
        } else {
            Readiness::Ignore
        }
    }

    /// The server of the open connection with the given token.
    pub open spec fn server_of(&self, token: usize) -> usize {
        let i = choose|i: int|
            0 <= i < self.connections@.len() && (#[trigger] self.connections@[i]).token == token;
        self.connections@[i].server
    }

    /// A token stands for at most one open connection.
    proof fn lemma_open_at(&self, token: usize, i: int)
        requires
            self.wf(),
            0 <= i < self.connections@.len(),
            self.connections@[i].token == token,
        ensures
            self.server_of(token) == self.connections@[i].server,
    {
        let k = choose|k: int|
            0 <= k < self.connections@.len() && (#[trigger] self.connections@[k]).token == token;
        if k < i {
            assert(self.connections@[k].token < self.connections@[i].token);
        } else if i < k {
            assert(self.connections@[i].token < self.connections@[k].token);
        }
    }

    /// Takes note of a connection that the listener `listener` accepted at
    /// `now`, and gives the token to register it under: one that no listener
    /// or connection had before. `None`, and nothing noted, where `listener`
    /// is no listener or the tokens have run out.
    pub fn accept_connection(&mut self, listener: usize, now: u64) -> (r: Option<usize>)
        requires
            old(self).wf(),
        ensures
            final(self).wf(),
            final(self).listeners == old(self).listeners,
            match r {
                Some(token) => listener < old(self).listeners@.len() && token == old(self).token_id
                    && final(self).token_id == token + 1 && final(self).connections@ == old(
                    self,
                ).connections@.push(
                    Connection {
                        token,
                        server: old(self).listeners@[listener as int],
                        last_activity: now,
                    },
                ),
                None => (listener >= old(self).listeners@.len() || old(self).token_id
                    == usize::MAX) && *final(self) == *old(self),
            },
    {
        if listener >= self.listeners.len() || self.token_id == usize::MAX {
            return None;
        }
        let connection_token = self.token_id;
        self.token_id = self.token_id + 1;
        self.connections.push(
            Connection {
                token: connection_token,
                server: self.listeners[listener],
                last_activity: now,
            },
        );
        Some(connection_token)
    }

    /// Takes note of how the handling of the connection `token` ended: a
    /// connection whose socket would block stays open, any other is closed
    /// and forgotten. Says whether the connection is to be deregistered and
    /// closed.
    pub fn handle_existing_connection(&mut self, token: usize, outcome: Handled) -> (close: bool)
        requires
            old(self).wf(),
        ensures
            final(self).wf(),
            final(self).listeners == old(self).listeners,
            final(self).token_id == old(self).token_id,
            close == (outcome != Handled::WouldBlock && old(self).readiness(token) is Handle),
            final(self).connections@ == if outcome == Handled::WouldBlock {
                old(self).connections@
            } else {
                without_token(old(self).connections@, token)
            },
    {
        let open = matches!(self.on_event(token), Readiness::Handle(_));
        if outcome == Handled::WouldBlock {
            // Therefore, we keep the connection registered and return
            return false;
        }
        let ghost before = self.connections@;
        let mut kept: Vec<Connection> = Vec::new();
        let mut i: usize = 0;
        assert(before.subrange(0, 0) =~= Seq::<Connection>::empty());
        while i < self.connections.len()
            invariant
                i <= self.connections.len(),
                before == self.connections@,
                kept@ == without_token(before.subrange(0, i as int), token),
            decreases self.connections.len() - i,
        {
            assert(before.subrange(0, i + 1).drop_last() =~= before.subrange(0, i as int));
            assert(before.subrange(0, i + 1).last() == before[i as int]);
            if self.connections[i].token != token {
                kept.push(self.connections[i]);
            }
            i += 1;
        }
        assert(before.subrange(0, before.len() as int) =~= before);
        proof {
            lemma_kept(
                before,
                other_than(token),
                self.listeners@.len() as int,
                self.token_id as int,
            );
        }
        self.connections = kept;
        open
    }

    /// Forgets the connections that have been idle for longer than the limit
    /// at `now`, and gives their tokens: they are to be deregistered and
    /// closed.
    pub fn handle_timeout(&mut self, now: u64) -> (swept: Vec<usize>)
        requires
            old(self).wf(),
        ensures
            final(self).wf(),
            final(self).listeners == old(self).listeners,
            final(self).token_id == old(self).token_id,
            final(self).connections@ == alive(old(self).connections@, now),
            swept@ == idle_tokens(old(self).connections@, now),
    {
        let ghost before = self.connections@;
        let mut kept: Vec<Connection> = Vec::new();
        let mut swept: Vec<usize> = Vec::new();
        let mut i: usize = 0;
        assert(before.subrange(0, 0) =~= Seq::<Connection>::empty());
        while i < self.connections.len()
            invariant
                i <= self.connections.len(),
                before == self.connections@,
                kept@ == alive(before.subrange(0, i as int), now),
                swept@ == idle_tokens(before.subrange(0, i as int), now),
            decreases self.connections.len() - i,
        {
            assert(before.subrange(0, i + 1).drop_last() =~= before.subrange(0, i as int));
            assert(before.subrange(0, i + 1).last() == before[i as int]);
            let conn = self.connections[i];
            if now > conn.last_activity && now - conn.last_activity > IDLE_LIMIT_MS {
                swept.push(conn.token);
            } else {
                kept.push(conn);
            }
            i += 1;
        }
        assert(before.subrange(0, before.len() as int) =~= before);
        proof {
            lemma_kept(
                before,
                active_at(now),
                self.listeners@.len() as int,
                self.token_id as int,
            );
        }
        self.connections = kept;
        swept
    }
}

/// The server of each listener of the first `n` servers, in the order of
/// their tokens: as many times the place of a server as it has listeners.
pub open spec fn listeners_of(servers: Seq<usize>, n: int) -> Seq<usize>
    decreases n,
{
    if n <= 0 || n > servers.len() {
        Seq::empty()
    } else {
        listeners_of(servers, n - 1) + Seq::new(servers[n - 1] as nat, |j: int| (n - 1) as usize)
    }
}

/// More servers have no fewer listeners.
proof fn lemma_listeners_grow(servers: Seq<usize>, a: int, b: int)
    requires
        0 <= a <= b <= servers.len(),
    ensures
        listeners_of(servers, a).len() <= listeners_of(servers, b).len(),
    decreases b - a,
{
    if a < b {
        lemma_listeners_grow(servers, a, b - 1);
    }
}

} // verus!
