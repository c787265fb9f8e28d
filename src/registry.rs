//! The stream registry: the pending transfers, keyed by file name.
//!
//! An uploader registers a session under a file name; a downloader claims
//! it, which removes it. A session that nobody claims is withdrawn by its
//! own uploader, and only by it: each registration gets a serial number, and
//! a withdrawal names the serial it registered.

use vstd::prelude::*;

verus! {

/// Why a registry operation was refused.
#[derive(Clone, Copy, Debug, PartialEq, Eq, Structural)]
pub enum RegistryError {
    /// A transfer under this file name is already pending.
    Conflict,
    /// No transfer is pending under this file name.
    NotFound,
    /// The pending transfer belongs to another token.
    Forbidden,
    /// Every serial number has been handed out.
    Exhausted,
}

/// What the registry holds for one pending file name.
pub struct PendingView<S> {
    pub serial: u64,
    pub owner: Option<u64>,
    pub payload: S,
}

struct Entry<S> {
    file_id: String,
    serial: u64,
    owner: Option<u64>,
    payload: S,
}

impl<S> Entry<S> {
    spec fn info(&self) -> PendingView<S> {
        PendingView { serial: self.serial, owner: self.owner, payload: self.payload }
    }
}

/// A session registered with `owner` may be claimed by a caller presenting
/// `presenter`: any caller where it has no owner, else only its owner.
pub open spec fn claim_allowed(owner: Option<u64>, presenter: Option<u64>) -> bool {
    owner is None || owner == presenter
}

/// The answer to registering `file_id` in a registry holding `pending`,
/// whose next serial number is `next_serial`.
pub open spec fn register_verdict<S>(
    pending: Map<Seq<char>, PendingView<S>>,
    next_serial: u64,
    file_id: Seq<char>,
) -> Result<u64, RegistryError> {
    if pending.contains_key(file_id) {
        Err(RegistryError::Conflict)
    } else if next_serial == u64::MAX {
        Err(RegistryError::Exhausted)
    } else {
        Ok(next_serial)
    }
}

/// The answer to claiming `file_id` with `presenter`.
pub open spec fn claim_verdict<S>(
    pending: Map<Seq<char>, PendingView<S>>,
    file_id: Seq<char>,
    presenter: Option<u64>,
) -> Result<S, RegistryError> {
    if !pending.contains_key(file_id) {
        Err(RegistryError::NotFound)
    } else if !claim_allowed(pending[file_id].owner, presenter) {
        Err(RegistryError::Forbidden)
    } else {
        Ok(pending[file_id].payload)
    }
}

/// Whether withdrawing `file_id` with `serial` removes it: only the
/// registration that got `serial` is withdrawn.
pub open spec fn withdraw_verdict<S>(
    pending: Map<Seq<char>, PendingView<S>>,
    file_id: Seq<char>,
    serial: u64,
) -> bool {
    pending.contains_key(file_id) && pending[file_id].serial == serial
}

/// The pending transfers, keyed by file name.
pub struct StreamRegistry<S> {
    entries: Vec<Entry<S>>,
    next_serial: u64,
    pending: Ghost<Map<Seq<char>, PendingView<S>>>,
}

impl<S> View for StreamRegistry<S> {
    type V = Map<Seq<char>, PendingView<S>>;

    closed spec fn view(&self) -> Map<Seq<char>, PendingView<S>> {
        self.pending@
    }
}

impl<S> StreamRegistry<S> {
    /// The serial number the next registration will get.
    pub closed spec fn next_serial(&self) -> u64 {
        self.next_serial
    }

    pub closed spec fn wf(&self) -> bool {
        &&& forall|i: int|
            0 <= i < self.entries@.len() ==> {
                &&& self.pending@.contains_key(#[trigger] self.entries@[i].file_id@)
                &&& self.pending@[self.entries@[i].file_id@] == self.entries@[i].info()
            }
        &&& forall|i: int, j: int|
            0 <= i < self.entries@.len() && 0 <= j < self.entries@.len() && i != j
                ==> #[trigger] self.entries@[i].file_id@ != #[trigger] self.entries@[j].file_id@
        &&& forall|k: Seq<char>|
            #[trigger] self.pending@.contains_key(k) ==> exists|i: int|
                0 <= i < self.entries@.len() && #[trigger] self.entries@[i].file_id@ == k
        &&& forall|k: Seq<char>|
            #[trigger] self.pending@.contains_key(k) ==> self.pending@[k].serial < self.next_serial
    }

    /// An empty registry.
    pub fn new() -> (r: Self)
        ensures
            r.wf(),
            r@ == Map::<Seq<char>, PendingView<S>>::empty(),
            r.next_serial() == 0,
    {
        StreamRegistry { entries: Vec::new(), next_serial: 0, pending: Ghost(Map::empty()) }
    }

    fn find(&self, file_id: &String) -> (r: Option<usize>)
        requires
            self.wf(),
        ensures
            match r {
                Some(i) => i < self.entries@.len() && self.entries@[i as int].file_id@ == file_id@,
                None => !self@.contains_key(file_id@),
            },
    {
        let mut i: usize = 0;
        while i < self.entries.len()
            invariant
                i <= self.entries@.len(),
                forall|j: int| 0 <= j < i ==> self.entries@[j].file_id@ != file_id@,
            decreases self.entries@.len() - i,
        {
            if self.entries[i].file_id == *file_id {
                return Some(i);
            }
            i = i + 1;
        }
        None
    }

    /// Whether a transfer is pending under `file_id`.
    pub fn contains(&self, file_id: &String) -> (r: bool)
        requires
            self.wf(),
        ensures
            r == self@.contains_key(file_id@),
    {
        self.find(file_id).is_some()
    }

    /// Registers a transfer under `file_id`, owned by `owner` (a token, or
    /// nobody). Refused with `Conflict` while one is pending under that
    /// name; on success returns the serial number of the registration.
    pub fn register(&mut self, file_id: String, owner: Option<u64>, payload: S) -> (r: Result<u64, RegistryError>)
        requires
            old(self).wf(),
        ensures
            final(self).wf(),
            r == register_verdict(old(self)@, old(self).next_serial(), file_id@),
            r is Ok ==> final(self)@ == old(self)@.insert(
                file_id@,
                PendingView { serial: old(self).next_serial(), owner, payload },
            ) && final(self).next_serial() == old(self).next_serial() + 1,
            r is Err ==> final(self)@ == old(self)@ && final(self).next_serial() == old(self).next_serial(),
    {
        if self.find(&file_id).is_some() {
            return Err(RegistryError::Conflict);
        }
        if self.next_serial == u64::MAX {
            return Err(RegistryError::Exhausted);
        }
        let serial = self.next_serial;
        let ghost key = file_id@;
        let entry = Entry { file_id, serial, owner, payload };
        let ghost old_entries = self.entries@;
        self.entries.push(entry);
        self.next_serial = serial + 1;
        self.pending = Ghost(self.pending@.insert(key, entry.info()));
        proof {
            let n = old_entries.len() as int;
            assert forall|i: int| 0 <= i < self.entries@.len() implies {
                &&& self.pending@.contains_key(#[trigger] self.entries@[i].file_id@)
                &&& self.pending@[self.entries@[i].file_id@] == self.entries@[i].info()
            } by {
                if i < n {
                    assert(self.entries@[i] == old_entries[i]);
                    assert(old(self).pending@.contains_key(old_entries[i].file_id@));
                }
            }
            assert forall|k: Seq<char>| #[trigger] self.pending@.contains_key(k) implies exists|i: int|
                0 <= i < self.entries@.len() && #[trigger] self.entries@[i].file_id@ == k by {
                if k == key {
                    assert(self.entries@[n].file_id@ == k);
                } else {
                    assert(old(self).pending@.contains_key(k));
                    let i = choose|i: int| 0 <= i < old_entries.len() && #[trigger] old_entries[i].file_id@ == k;
                    assert(self.entries@[i] == old_entries[i]);
                }
            }
            assert forall|i: int, j: int|
                0 <= i < self.entries@.len() && 0 <= j < self.entries@.len() && i != j
                implies #[trigger] self.entries@[i].file_id@ != #[trigger] self.entries@[j].file_id@ by {
                if i < n && j < n {
                    assert(self.entries@[i] == old_entries[i]);
                    assert(self.entries@[j] == old_entries[j]);
                } else if i < n {
                    assert(self.entries@[i] == old_entries[i]);
                    assert(old(self).pending@.contains_key(old_entries[i].file_id@));
                } else {
                    assert(self.entries@[j] == old_entries[j]);
                    assert(old(self).pending@.contains_key(old_entries[j].file_id@));
                }
            }
        }
        Ok(serial)
    }

    /// Removes the entry at `i`, which holds `file_id`.
    fn take_at(&mut self, i: usize) -> (r: Entry<S>)
        requires
            old(self).wf(),
            i < old(self).entries@.len(),
        ensures
            final(self).wf(),
            r.info() == old(self)@[r.file_id@],
            r.file_id@ == old(self).entries@[i as int].file_id@,
            final(self)@ == old(self)@.remove(r.file_id@),
            final(self).next_serial() == old(self).next_serial(),
    {
        let ghost old_entries = self.entries@;
        let ghost key = old_entries[i as int].file_id@;
        let entry = self.entries.swap_remove(i);
        self.pending = Ghost(self.pending@.remove(key));
        proof {
            let last = old_entries.len() - 1;
            assert forall|j: int| 0 <= j < self.entries@.len() implies {
                &&& self.pending@.contains_key(#[trigger] self.entries@[j].file_id@)
                &&& self.pending@[self.entries@[j].file_id@] == self.entries@[j].info()
            } by {
                let src = if j == i { last } else { j };
                assert(self.entries@[j] == old_entries[src]);
                assert(old(self).pending@.contains_key(old_entries[src].file_id@));
                assert(old_entries[src].file_id@ != key);
            }
            assert forall|a: int, b: int|
                0 <= a < self.entries@.len() && 0 <= b < self.entries@.len() && a != b
                implies #[trigger] self.entries@[a].file_id@ != #[trigger] self.entries@[b].file_id@ by {
                let sa = if a == i { last } else { a };
                let sb = if b == i { last } else { b };
                assert(self.entries@[a] == old_entries[sa]);
                assert(self.entries@[b] == old_entries[sb]);
                assert(old_entries[sa].file_id@ != old_entries[sb].file_id@);
            }
            assert forall|k: Seq<char>| #[trigger] self.pending@.contains_key(k) implies exists|j: int|
                0 <= j < self.entries@.len() && #[trigger] self.entries@[j].file_id@ == k by {
                assert(old(self).pending@.contains_key(k));
                let m = choose|m: int| 0 <= m < old_entries.len() && #[trigger] old_entries[m].file_id@ == k;
                assert(m != i);
                if m == last {
                    assert(self.entries@[i as int] == old_entries[m]);
                } else {
                    assert(self.entries@[m] == old_entries[m]);
                }
            }
            assert(old(self).pending@.contains_key(key));
        }
        entry
    }

    /// Claims the transfer pending under `file_id` for a caller presenting
    /// `presenter`: removes it and returns its payload. Refused with
    /// `NotFound` when none is pending, and with `Forbidden`, leaving it in
    /// place, when it belongs to another token.
    pub fn claim(&mut self, file_id: &String, presenter: Option<u64>) -> (r: Result<S, RegistryError>)
        requires
            old(self).wf(),
        ensures
            final(self).wf(),
            r == claim_verdict(old(self)@, file_id@, presenter),
            r is Ok ==> final(self)@ == old(self)@.remove(file_id@),
            r is Err ==> final(self)@ == old(self)@,
            final(self).next_serial() == old(self).next_serial(),
    {
        match self.find(file_id) {
            None => Err(RegistryError::NotFound),
            Some(i) => {
                proof {
                    assert(self.pending@.contains_key(self.entries@[i as int].file_id@));
                }
                let allowed = match self.entries[i].owner {
                    None => true,
                    Some(t) => match presenter {
                        Some(p) => t == p,
                        None => false,
                    },
                };
                if !allowed {
                    return Err(RegistryError::Forbidden);
                }
                let entry = self.take_at(i);
                Ok(entry.payload)
            },
        }
    }

    /// Withdraws the registration of `file_id` that got `serial`, if it is
    /// still pending; a later registration under the same name stays.
    /// Returns whether something was removed.
    pub fn withdraw(&mut self, file_id: &String, serial: u64) -> (r: bool)
        requires
            old(self).wf(),
        ensures
            final(self).wf(),
            r == withdraw_verdict(old(self)@, file_id@, serial),
            r ==> final(self)@ == old(self)@.remove(file_id@),
            !r ==> final(self)@ == old(self)@,
            final(self).next_serial() == old(self).next_serial(),
    {
        match self.find(file_id) {
            None => false,
            Some(i) => {
                proof {
                    assert(self.pending@.contains_key(self.entries@[i as int].file_id@));
                }
                if self.entries[i].serial != serial {
                    return false;
                }
                let _ = self.take_at(i);
                true
            },
        }
    }

    /// The file names of the pending transfers, each once.
    pub fn active_file_ids(&self) -> (r: Vec<String>)
        requires
            self.wf(),
        ensures
            forall|i: int| 0 <= i < r@.len() ==> self@.contains_key(#[trigger] r@[i]@),
            forall|k: Seq<char>| #[trigger] self@.contains_key(k) ==> exists|i: int|
                0 <= i < r@.len() && #[trigger] r@[i]@ == k,
            forall|i: int, j: int|
                0 <= i < r@.len() && 0 <= j < r@.len() && i != j ==> #[trigger] r@[i]@ != #[trigger] r@[j]@,
    {
        let mut out: Vec<String> = Vec::new();
        let mut i: usize = 0;
        while i < self.entries.len()
            invariant
                self.wf(),
                i <= self.entries@.len(),
                out@.len() == i,
                forall|j: int| 0 <= j < i ==> #[trigger] out@[j]@ == self.entries@[j].file_id@,
            decreases self.entries@.len() - i,
        {
            out.push(self.entries[i].file_id.clone());
            i = i + 1;
        }
        proof {
            assert forall|j: int| 0 <= j < out@.len() implies self@.contains_key(#[trigger] out@[j]@) by {
                assert(self.pending@.contains_key(self.entries@[j].file_id@));
            }
            assert forall|k: Seq<char>| #[trigger] self@.contains_key(k) implies exists|j: int|
                0 <= j < out@.len() && #[trigger] out@[j]@ == k by {
                let j = choose|j: int| 0 <= j < self.entries@.len() && #[trigger] self.entries@[j].file_id@ == k;
                assert(out@[j]@ == k);
            }
            assert forall|a: int, b: int|
                0 <= a < out@.len() && 0 <= b < out@.len() && a != b
                implies #[trigger] out@[a]@ != #[trigger] out@[b]@ by {
                assert(out@[a]@ == self.entries@[a].file_id@);
                assert(out@[b]@ == self.entries@[b].file_id@);
            }
        }
        out
    }
}

/// One operation on the registry, as the laws below speak of them.
pub enum RegistryOp<S> {
    Register(Seq<char>, Option<u64>, S),
    Claim(Seq<char>, Option<u64>),
    Withdraw(Seq<char>, u64),
}

impl<S> RegistryOp<S> {
    /// The file name the operation is about.
    pub open spec fn file_id(self) -> Seq<char> {
        match self {
            RegistryOp::Register(k, _, _) => k,
            RegistryOp::Claim(k, _) => k,
            RegistryOp::Withdraw(k, _) => k,
        }
    }
}

/// The pending transfers and next serial number after `op`, as
/// `register`, `claim` and `withdraw` leave them.
pub open spec fn apply_op<S>(
    pending: Map<Seq<char>, PendingView<S>>,
    next_serial: u64,
    op: RegistryOp<S>,
) -> (Map<Seq<char>, PendingView<S>>, u64) {
    match op {
        RegistryOp::Register(k, owner, payload) => match register_verdict(pending, next_serial, k) {
            Ok(serial) => (
                pending.insert(k, PendingView { serial, owner, payload }),
                (next_serial + 1) as u64,
            ),
            Err(_) => (pending, next_serial),
        },
        RegistryOp::Claim(k, presenter) => if claim_verdict(pending, k, presenter) is Ok {
            (pending.remove(k), next_serial)
        } else {
            (pending, next_serial)
        },
        RegistryOp::Withdraw(k, serial) => if withdraw_verdict(pending, k, serial) {
            (pending.remove(k), next_serial)
        } else {
            (pending, next_serial)
        },
    }
}

/// The registry after `ops`, applied in order.
pub open spec fn apply_ops<S>(
    pending: Map<Seq<char>, PendingView<S>>,
    next_serial: u64,
    ops: Seq<RegistryOp<S>>,
) -> (Map<Seq<char>, PendingView<S>>, u64)
    decreases ops.len(),
{
    if ops.len() == 0 {
        (pending, next_serial)
    } else {
        let (p, n) = apply_op(pending, next_serial, ops[0]);
        apply_ops(p, n, ops.skip(1))
    }
}

/// A second registration under a pending file name is refused with
/// `Conflict`; once that transfer is claimed or withdrawn, the name can be
/// registered again.
pub proof fn lemma_conflict_until_removed<S>(
    pending: Map<Seq<char>, PendingView<S>>,
    next_serial: u64,
    file_id: Seq<char>,
    owner: Option<u64>,
    payload: S,
    later_serial: u64,
)
    requires
        register_verdict(pending, next_serial, file_id) is Ok,
        later_serial < u64::MAX,
    ensures
        ({
            let (held, n) = apply_op(pending, next_serial, RegistryOp::Register(file_id, owner, payload));
            &&& register_verdict(held, n, file_id) == Err::<u64, RegistryError>(RegistryError::Conflict)
            &&& claim_verdict(held, file_id, owner) == Ok::<S, RegistryError>(payload)
            &&& register_verdict(apply_op(held, n, RegistryOp::Claim(file_id, owner)).0, later_serial, file_id)
                == Ok::<u64, RegistryError>(later_serial)
            &&& register_verdict(
                apply_op(held, n, RegistryOp::Withdraw(file_id, next_serial)).0,
                later_serial,
                file_id,
            ) == Ok::<u64, RegistryError>(later_serial)
        }),
{
}

/// A claim by a token that does not own the session is refused with
/// `Forbidden` and leaves the session in place, so its owner can still
/// claim it.
pub proof fn lemma_wrong_token_keeps_session<S>(
    pending: Map<Seq<char>, PendingView<S>>,
    next_serial: u64,
    file_id: Seq<char>,
    owner: u64,
    presenter: Option<u64>,
)
    requires
        pending.contains_key(file_id),
        pending[file_id].owner == Some(owner),
        presenter != Some(owner),
    ensures
        claim_verdict(pending, file_id, presenter) == Err::<S, RegistryError>(RegistryError::Forbidden),
        apply_op(pending, next_serial, RegistryOp::Claim(file_id, presenter)) == (pending, next_serial),
        claim_verdict(
            apply_op(pending, next_serial, RegistryOp::Claim(file_id, presenter)).0,
            file_id,
            Some(owner),
        ) == Ok::<S, RegistryError>(pending[file_id].payload),
{
}

/// Transfers under different file names do not disturb each other: however
/// operations on other names interleave, the session pending under
/// `file_id` stays exactly as it was, so its claim yields its own payload.
pub proof fn lemma_file_ids_isolated<S>(
    pending: Map<Seq<char>, PendingView<S>>,
    next_serial: u64,
    ops: Seq<RegistryOp<S>>,
    file_id: Seq<char>,
)
    requires
        forall|i: int| 0 <= i < ops.len() ==> (#[trigger] ops[i]).file_id() != file_id,
    ensures
        apply_ops(pending, next_serial, ops).0.contains_key(file_id) == pending.contains_key(file_id),
        pending.contains_key(file_id) ==> apply_ops(pending, next_serial, ops).0[file_id]
            == pending[file_id],
        forall|presenter: Option<u64>|
            claim_verdict(apply_ops(pending, next_serial, ops).0, file_id, presenter)
                == #[trigger] claim_verdict(pending, file_id, presenter),
    decreases ops.len(),
{
    if ops.len() > 0 {
        let (p, n) = apply_op(pending, next_serial, ops[0]);
        assert(ops[0].file_id() != file_id);
        assert forall|i: int| 0 <= i < ops.skip(1).len() implies (#[trigger] ops.skip(1)[i]).file_id() != file_id by {
            assert(ops.skip(1)[i] == ops[i + 1]);
        }
        lemma_file_ids_isolated(p, n, ops.skip(1), file_id);
    }
}

} // verus!
