//! The token ledger: capability tokens with an expiry that every use
//! pushes forward.
//!
//! Times are whole seconds on a clock the caller reads. A token is live
//! while `now < expires_at`; an expired token that the sweep has not yet
//! removed is refused exactly as an unknown one.

use vstd::prelude::*;

verus! {

/// Seconds a freshly issued token lives.
pub const TOKEN_LIFETIME_SECS: u64 = 1200;

/// Seconds past the moment of use that each validated use keeps a token
/// alive.
pub const TOKEN_EXTENSION_SECS: u64 = 300;

/// Seconds between two sweeps of expired tokens.
pub const SWEEP_INTERVAL_SECS: u64 = 60;

/// A capability token: a serial number that is never handed out twice, and
/// a secret that the issuer draws at random.
#[derive(Clone, Copy, Debug, PartialEq, Eq, Structural)]
pub struct TokenId {
    pub serial: u64,
    pub secret: u64,
}

/// What the ledger keeps for one token.
#[derive(Clone, Copy, Debug, PartialEq, Eq, Structural)]
pub struct TokenState {
    pub created_at: u64,
    pub expires_at: u64,
    /// Transfers currently bound to the token; for display only.
    pub active_streams: u64,
}

/// A token was refused: unknown, or expired.
#[derive(Clone, Copy, Debug, PartialEq, Eq, Structural)]
pub enum TokenError {
    Unauthorized,
}

pub open spec fn add_capped(a: u64, b: u64) -> u64 {
    if a + b > u64::MAX {
        u64::MAX
    } else {
        (a + b) as u64
    }
}

/// Whether a token in `state` is accepted at time `now`.
pub open spec fn is_live(state: TokenState, now: u64) -> bool {
    now < state.expires_at
}

/// The state of a token that is issued at `now`.
pub open spec fn fresh_state(now: u64) -> TokenState {
    TokenState { created_at: now, expires_at: add_capped(now, TOKEN_LIFETIME_SECS), active_streams: 0 }
}

/// The state of a token after a validated use at `now`: it lives at least
/// `TOKEN_EXTENSION_SECS` more, and its expiry never moves back.
pub open spec fn extended_state(state: TokenState, now: u64) -> TokenState {
    let pushed = add_capped(now, TOKEN_EXTENSION_SECS);
    TokenState {
        expires_at: if pushed > state.expires_at { pushed } else { state.expires_at },
        ..state
    }
}

/// A stream count moved by `delta`, kept within `0..=u64::MAX`.
pub open spec fn adjusted_count(count: u64, delta: i64) -> u64 {
    let v = count + delta;
    if v < 0 {
        0
    } else if v > u64::MAX {
        u64::MAX
    } else {
        v as u64
    }
}

fn add_capped_exec(a: u64, b: u64) -> (r: u64)
    ensures
        r == add_capped(a, b),
{
    if a > u64::MAX - b {
        u64::MAX
    } else {
        a + b
    }
}

struct Record {
    id: TokenId,
    state: TokenState,
}

/// The live and not yet swept tokens.
pub struct TokenLedger {
    records: Vec<Record>,
    next_serial: u64,
    tokens: Ghost<Map<TokenId, TokenState>>,
}

impl View for TokenLedger {
    type V = Map<TokenId, TokenState>;

    closed spec fn view(&self) -> Map<TokenId, TokenState> {
        self.tokens@
    }
}

impl TokenLedger {
    /// The serial number the next token will get; every token held has a
    /// smaller one.
    pub closed spec fn next_serial(&self) -> u64 {
        self.next_serial
    }

    pub closed spec fn wf(&self) -> bool {
        &&& forall|i: int|
            0 <= i < self.records@.len() ==> {
                &&& self.tokens@.contains_key(#[trigger] self.records@[i].id)
                &&& self.tokens@[self.records@[i].id] == self.records@[i].state
            }
        &&& forall|i: int, j: int|
            0 <= i < self.records@.len() && 0 <= j < self.records@.len() && i != j
                ==> #[trigger] self.records@[i].id != #[trigger] self.records@[j].id
        &&& forall|k: TokenId|
            #[trigger] self.tokens@.contains_key(k) ==> exists|i: int|
                0 <= i < self.records@.len() && #[trigger] self.records@[i].id == k
        &&& forall|k: TokenId| #[trigger] self.tokens@.contains_key(k) ==> k.serial < self.next_serial
    }

    /// An empty ledger.
    pub fn new() -> (r: Self)
        ensures
            r.wf(),
            r@ == Map::<TokenId, TokenState>::empty(),
            r.next_serial() == 0,
    {
        TokenLedger { records: Vec::new(), next_serial: 0, tokens: Ghost(Map::empty()) }
    }

    fn find(&self, id: TokenId) -> (r: Option<usize>)
        requires
            self.wf(),
        ensures
            match r {
                Some(i) => i < self.records@.len() && self.records@[i as int].id == id
                    && self@.contains_key(id) && self@[id] == self.records@[i as int].state,
                None => !self@.contains_key(id),
            },
    {
        let mut i: usize = 0;
        while i < self.records.len()
            invariant
                self.wf(),
                i <= self.records@.len(),
                forall|j: int| 0 <= j < i ==> self.records@[j].id != id,
            decreases self.records@.len() - i,
        {
            if self.records[i].id.serial == id.serial && self.records[i].id.secret == id.secret {
                return Some(i);
            }
            i = i + 1;
        }
        None
    }

    /// How many tokens the ledger holds, expired ones not yet swept
    /// included.
    pub fn token_count(&self) -> (r: usize)
        requires
            self.wf(),
        ensures
            r == self@.dom().len(),
    {
        proof {
            let ids = self.records@.map_values(|r: Record| r.id);
            assert(ids.no_duplicates()) by {
                assert forall|i: int, j: int| 0 <= i < ids.len() && 0 <= j < ids.len() && i != j implies ids[i]
                    != ids[j] by {
                    assert(self.records@[i].id != self.records@[j].id);
                }
            }
            assert(ids.to_set() =~= self.tokens@.dom()) by {
                assert forall|k: TokenId| ids.to_set().contains(k) implies self.tokens@.dom().contains(k) by {
                    let i = choose|i: int| 0 <= i < ids.len() && ids[i] == k;
                    assert(self.tokens@.contains_key(self.records@[i].id));
                }
                assert forall|k: TokenId| self.tokens@.dom().contains(k) implies ids.to_set().contains(k) by {
                    assert(self.tokens@.contains_key(k));
                    let i = choose|i: int| 0 <= i < self.records@.len() && #[trigger] self.records@[i].id == k;
                    assert(ids[i] == k);
                }
            }
            ids.unique_seq_to_set();
        }
        self.records.len()
    }

    /// What the ledger holds for `id`, expired or not.
    pub fn state_of(&self, id: TokenId) -> (r: Option<TokenState>)
        requires
            self.wf(),
        ensures
            r == (if self@.contains_key(id) {
                Some(self@[id])
            } else {
                None
            }),
    {
        match self.find(id) {
            Some(i) => Some(self.records[i].state),
            None => None,
        }
    }

    /// Issues a token with `secret` at time `now`. Its serial number was
    /// never used before; `None` only once every serial number is spent.
    pub fn issue(&mut self, secret: u64, now: u64) -> (r: Option<TokenId>)
        requires
            old(self).wf(),
        ensures
            final(self).wf(),
            old(self).next_serial() == u64::MAX <==> r is None,
            r is None ==> final(self)@ == old(self)@ && final(self).next_serial() == old(self).next_serial(),
            r matches Some(id) ==> {
                &&& id == (TokenId { serial: old(self).next_serial(), secret })
                &&& !old(self)@.contains_key(id)
                &&& final(self)@ == old(self)@.insert(id, fresh_state(now))
                &&& final(self).next_serial() == old(self).next_serial() + 1
            },
    {
        if self.next_serial == u64::MAX {
            return None;
        }
        let id = TokenId { serial: self.next_serial, secret };
        let state = TokenState {
            created_at: now,
            expires_at: add_capped_exec(now, TOKEN_LIFETIME_SECS),
            active_streams: 0,
        };
        let ghost old_records = self.records@;
        self.records.push(Record { id, state });
        self.next_serial = self.next_serial + 1;
        self.tokens = Ghost(self.tokens@.insert(id, state));
        proof {
            let n = old_records.len() as int;
            assert forall|i: int| 0 <= i < self.records@.len() implies {
                &&& self.tokens@.contains_key(#[trigger] self.records@[i].id)
                &&& self.tokens@[self.records@[i].id] == self.records@[i].state
            } by {
                if i < n {
                    assert(self.records@[i] == old_records[i]);
                    assert(old(self).tokens@.contains_key(old_records[i].id));
                }
            }
            assert forall|k: TokenId| #[trigger] self.tokens@.contains_key(k) implies exists|i: int|
                0 <= i < self.records@.len() && #[trigger] self.records@[i].id == k by {
                if k == id {
                    assert(self.records@[n].id == k);
                } else {
                    let i = choose|i: int| 0 <= i < old_records.len() && #[trigger] old_records[i].id == k;
                    assert(self.records@[i] == old_records[i]);
                }
            }
            assert forall|i: int, j: int|
                0 <= i < self.records@.len() && 0 <= j < self.records@.len() && i != j
                implies #[trigger] self.records@[i].id != #[trigger] self.records@[j].id by {
                if i < n {
                    assert(self.records@[i] == old_records[i]);
                    assert(old(self).tokens@.contains_key(old_records[i].id));
                }
                if j < n {
                    assert(self.records@[j] == old_records[j]);
                    assert(old(self).tokens@.contains_key(old_records[j].id));
                }
            }
        }
        Some(id)
    }

    /// Replaces the state of the token at `i`.
    fn set_state(&mut self, i: usize, state: TokenState)
        requires
            old(self).wf(),
            i < old(self).records@.len(),
        ensures
            final(self).wf(),
            final(self)@ == old(self)@.insert(old(self).records@[i as int].id, state),
            final(self).next_serial() == old(self).next_serial(),
    {
        let id = self.records[i].id;
        let ghost old_records = self.records@;
        self.records.set(i, Record { id, state });
        self.tokens = Ghost(self.tokens@.insert(id, state));
        proof {
            assert forall|j: int| 0 <= j < self.records@.len() implies {
                &&& self.tokens@.contains_key(#[trigger] self.records@[j].id)
                &&& self.tokens@[self.records@[j].id] == self.records@[j].state
            } by {
                if j != i {
                    assert(self.records@[j] == old_records[j]);
                    assert(old(self).tokens@.contains_key(old_records[j].id));
                }
            }
            assert forall|k: TokenId| #[trigger] self.tokens@.contains_key(k) implies exists|j: int|
                0 <= j < self.records@.len() && #[trigger] self.records@[j].id == k by {
                if k == id {
                    assert(self.records@[i as int].id == k);
                } else {
                    let j = choose|j: int| 0 <= j < old_records.len() && #[trigger] old_records[j].id == k;
                    assert(self.records@[j].id == old_records[j].id);
                }
            }
            assert forall|a: int, b: int|
                0 <= a < self.records@.len() && 0 <= b < self.records@.len() && a != b
                implies #[trigger] self.records@[a].id != #[trigger] self.records@[b].id by {
                assert(self.records@[a].id == old_records[a].id);
                assert(self.records@[b].id == old_records[b].id);
            }
            assert(old(self).tokens@.contains_key(id));
        }
    }

    /// Accepts `id` at time `now` if it is held and live, and then pushes
    /// its expiry forward, in one step; refuses it with `Unauthorized`
    /// otherwise, changing nothing.
    pub fn validate_and_extend(&mut self, id: TokenId, now: u64) -> (r: Result<(), TokenError>)
        requires
            old(self).wf(),
        ensures
            final(self).wf(),
            r is Ok <==> old(self)@.contains_key(id) && is_live(old(self)@[id], now),
            r is Ok ==> final(self)@ == old(self)@.insert(id, extended_state(old(self)@[id], now)),
            r is Err ==> final(self)@ == old(self)@,
            final(self).next_serial() == old(self).next_serial(),
    {
        match self.find(id) {
            None => Err(TokenError::Unauthorized),
            Some(i) => {
                let state = self.records[i].state;
                if now >= state.expires_at {
                    return Err(TokenError::Unauthorized);
                }
                let pushed = add_capped_exec(now, TOKEN_EXTENSION_SECS);
                let expires_at = if pushed > state.expires_at {
                    pushed
                } else {
                    state.expires_at
                };
                self.set_state(i, TokenState { expires_at, ..state });
                Ok(())
            },
        }
    }

    /// Moves the stream count of `id` by `delta`, within `0..=u64::MAX`. A
    /// token that is not held is left alone: this is no error.
    pub fn adjust_active_count(&mut self, id: TokenId, delta: i64)
        requires
            old(self).wf(),
        ensures
            final(self).wf(),
            old(self)@.contains_key(id) ==> final(self)@ == old(self)@.insert(
                id,
                TokenState {
                    active_streams: adjusted_count(old(self)@[id].active_streams, delta),
                    ..old(self)@[id]
                },
            ),
            !old(self)@.contains_key(id) ==> final(self)@ == old(self)@,
            final(self).next_serial() == old(self).next_serial(),
    {
        match self.find(id) {
            None => {},
            Some(i) => {
                let state = self.records[i].state;
                let moved: i128 = state.active_streams as i128 + delta as i128;
                let count: u64 = if moved < 0 {
                    0
                } else if moved > u64::MAX as i128 {
                    u64::MAX
                } else {
                    moved as u64
                };
                self.set_state(i, TokenState { active_streams: count, ..state });
            },
        }
    }

    /// Removes every token whose expiry is at or before `now`, and keeps
    /// the others as they are.
    pub fn sweep(&mut self, now: u64)
        requires
            old(self).wf(),
        ensures
            final(self).wf(),
            forall|id: TokenId|
                #[trigger] final(self)@.contains_key(id) == (old(self)@.contains_key(id) && is_live(
                    old(self)@[id],
                    now,
                )),
            forall|id: TokenId| #[trigger] final(self)@.contains_key(id) ==> final(self)@[id] == old(self)@[id],
            final(self).next_serial() == old(self).next_serial(),
    {
        let ghost old_map = self.tokens@;
        let ghost old_records = self.records@;
        let mut kept: Vec<Record> = Vec::new();
        let ghost mut origin: Seq<int> = Seq::empty();
        let mut i: usize = 0;
        while i < self.records.len()
            invariant
                self.wf(),
                self.records@ == old_records,
                self.tokens@ == old_map,
                i <= old_records.len(),
                origin.len() == kept@.len(),
                forall|j: int| 0 <= j < kept@.len() ==> {
                    &&& 0 <= #[trigger] origin[j] < i
                    &&& kept@[j] == old_records[origin[j]]
                    &&& now < kept@[j].state.expires_at
                },
                forall|a: int, b: int| 0 <= a < b < kept@.len() ==> #[trigger] origin[a] < #[trigger] origin[b],
                forall|m: int|
                    0 <= m < i && now < (#[trigger] old_records[m]).state.expires_at ==> exists|j: int|
                        0 <= j < kept@.len() && origin[j] == m,
            decreases old_records.len() - i,
        {
            let record = &self.records[i];
            let ghost prev_origin = origin;
            let ghost prev_len = kept@.len();
            if now < record.state.expires_at {
                kept.push(Record { id: record.id, state: record.state });
                proof {
                    origin = origin.push(i as int);
                }
            }
            proof {
                assert forall|m: int|
                    0 <= m < i + 1 && now < (#[trigger] old_records[m]).state.expires_at implies exists|j: int|
                        0 <= j < kept@.len() && origin[j] == m by {
                    if m == i {
                        assert(origin[kept@.len() - 1] == m);
                    } else {
                        let j = choose|j: int| 0 <= j < prev_len && prev_origin[j] == m;
                        assert(origin[j] == m);
                    }
                }
            }
            i = i + 1;
        }
        let ghost swept = Map::new(
            |id: TokenId| old_map.contains_key(id) && now < old_map[id].expires_at,
            |id: TokenId| old_map[id],
        );
        self.records = kept;
        self.tokens = Ghost(swept);
        proof {
            assert forall|j: int| 0 <= j < self.records@.len() implies {
                &&& self.tokens@.contains_key(#[trigger] self.records@[j].id)
                &&& self.tokens@[self.records@[j].id] == self.records@[j].state
            } by {
                assert(old_map.contains_key(old_records[origin[j]].id));
            }
            assert forall|a: int, b: int|
                0 <= a < self.records@.len() && 0 <= b < self.records@.len() && a != b
                implies #[trigger] self.records@[a].id != #[trigger] self.records@[b].id by {
                if a < b {
                    assert(origin[a] < origin[b]);
                } else {
                    assert(origin[b] < origin[a]);
                }
            }
            assert forall|k: TokenId| #[trigger] self.tokens@.contains_key(k) implies exists|j: int|
                0 <= j < self.records@.len() && #[trigger] self.records@[j].id == k by {
                let m = choose|m: int| 0 <= m < old_records.len() && #[trigger] old_records[m].id == k;
                assert(old_map[old_records[m].id] == old_records[m].state);
                assert(now < old_records[m].state.expires_at);
                let j = choose|j: int| 0 <= j < self.records@.len() && origin[j] == m;
                assert(self.records@[j].id == k);
            }
        }
    }
}

/// The state of a token after validated uses at each of `times`, in
/// order; `None` if one of them is refused.
pub open spec fn after_uses(state: TokenState, times: Seq<u64>) -> Option<TokenState>
    decreases times.len(),
{
    if times.len() == 0 {
        Some(state)
    } else if !is_live(state, times[0]) {
        None
    } else {
        after_uses(extended_state(state, times[0]), times.skip(1))
    }
}

/// A token in use stays valid for as long as its uses come less than
/// `TOKEN_EXTENSION_SECS` apart, however far past its first lifetime that
/// goes; after the last use it lives at least that long again.
pub proof fn lemma_use_keeps_token_alive(state: TokenState, times: Seq<u64>)
    requires
        times.len() > 0,
        is_live(state, times[0]),
        forall|i: int|
            0 <= i < times.len() - 1 ==> times[i] <= #[trigger] times[i + 1] && times[i + 1] < times[i]
                + TOKEN_EXTENSION_SECS,
        times.last() + TOKEN_EXTENSION_SECS <= u64::MAX,
    ensures
        after_uses(state, times) is Some,
        after_uses(state, times)->Some_0.expires_at >= times.last() + TOKEN_EXTENSION_SECS,
    decreases times.len(),
{
    let next = extended_state(state, times[0]);
    let rest = times.skip(1);
    if times.len() == 1 {
        assert(rest.len() == 0);
        assert(times[0] + TOKEN_EXTENSION_SECS <= u64::MAX);
    } else {
        assert(rest[0] == times[1]);
        assert(rest.last() == times.last());
        assert forall|i: int| 0 <= i < rest.len() - 1 implies rest[i] <= #[trigger] rest[i + 1] && rest[i + 1]
            < rest[i] + TOKEN_EXTENSION_SECS by {
            assert(rest[i] == times[i + 1]);
            assert(rest[i + 1] == times[i + 2]);
            assert(times[i + 1] <= times[i + 2]);
        }
        assert forall|i: int| 0 <= i < times.len() implies times[i] <= times.last() by {
            lemma_sorted_below_last(times, i);
        }
        lemma_use_keeps_token_alive(next, rest);
    }
}

proof fn lemma_sorted_below_last(times: Seq<u64>, i: int)
    requires
        0 <= i < times.len(),
        forall|j: int| 0 <= j < times.len() - 1 ==> times[j] <= #[trigger] times[j + 1],
    ensures
        times[i] <= times.last(),
    decreases times.len() - i,
{
    if i < times.len() - 1 {
        assert(times[i] <= times[i + 1]);
        lemma_sorted_below_last(times, i + 1);
    }
}

/// A token last used at `time` is accepted until `time +
/// TOKEN_EXTENSION_SECS` at least, and refused from its expiry on, which is
/// the later of that bound and the expiry it had before.
pub proof fn lemma_idle_token_expires(state: TokenState, time: u64, now: u64)
    requires
        is_live(state, time),
        time + TOKEN_EXTENSION_SECS <= u64::MAX,
    ensures
        extended_state(state, time).expires_at == if state.expires_at > time + TOKEN_EXTENSION_SECS {
            state.expires_at as int
        } else {
            time + TOKEN_EXTENSION_SECS
        },
        extended_state(state, time).expires_at >= state.expires_at,
        time <= now < time + TOKEN_EXTENSION_SECS ==> is_live(extended_state(state, time), now),
        now >= extended_state(state, time).expires_at ==> !is_live(extended_state(state, time), now),
{
}

} // verus!
