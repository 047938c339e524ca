//! The client registry: the set of attached client sessions, keyed by
//! client id, together with the per-client transfer bookkeeping the
//! event loop relies on.
//!
//! The registry's contract is exact map semantics: registering a client
//! adds exactly its entry, deregistering removes exactly its entry, and
//! recording a transfer completion rewrites exactly the state of the one
//! client it concerns.  At any instant the registry holds exactly the
//! sessions that have been registered and not yet deregistered.

use vstd::prelude::*;

verus! {

/// The transfer state of one attached client session.
///
/// Bytes move from the file into a per-client pipe, and from the pipe on
/// to the socket; `offset` counts only bytes that reached the socket.
#[derive(Debug, Clone, Copy, PartialEq, Eq, Structural)]
pub struct Client {
    /// Byte position of the next file byte to deliver to the socket.
    pub offset: u64,
    /// Bytes spliced out of the file but not yet delivered to the socket.
    pub bytes_in_pipe: u64,
    /// Whether a transfer request for this client is with the kernel.
    pub in_flight: bool,
}

/// The request to issue next for one client.
#[derive(Debug, Clone, Copy, PartialEq, Eq, Structural)]
pub enum PlannedReq {
    /// Bytes wait in the pipe: splice them on to the socket.
    Drain,
    /// The client is behind the file: splice file bytes into the pipe
    /// and on to the socket.
    FillAndDrain,
}

/// What to issue for a client: nothing while a request is in flight;
/// a drain while the pipe holds undelivered bytes; a fill-and-drain
/// while the client is behind the observed file length; else nothing.
pub open spec fn spec_plan(c: Client, file_len: u64) -> Option<PlannedReq> {
    if c.in_flight {
        None
    } else if c.bytes_in_pipe > 0 {
        Some(PlannedReq::Drain)
    } else if c.offset < file_len {
        Some(PlannedReq::FillAndDrain)
    } else {
        None
    }
}

/// A client after a fill completed: `n` more file bytes sit in its pipe.
pub open spec fn spec_on_fill(c: Client, n: u64) -> Client {
    Client {
        offset: c.offset,
        bytes_in_pipe: (c.bytes_in_pipe + n) as u64,
        in_flight: c.in_flight,
    }
}

/// A client after a drain completed: `n` bytes reached its socket, so
/// its offset advanced by `n`, its pipe holds `n` fewer bytes, and no
/// request is in flight any more.
pub open spec fn spec_on_drain(c: Client, n: u64) -> Client {
    Client {
        offset: (c.offset + n) as u64,
        bytes_in_pipe: (c.bytes_in_pipe - n) as u64,
        in_flight: false,
    }
}

/// A client accounts for no byte beyond the end of the file: everything
/// delivered plus everything waiting in its pipe lies within the length
/// the watcher observed.
pub open spec fn client_within_file(c: Client, file_len: u64) -> bool {
    c.offset + c.bytes_in_pipe <= file_len
}

/// A fill bounded by the end of the file keeps the client within it:
/// a splice that read `n` bytes starting where the pipe's contents end
/// cannot account past the file.
pub proof fn lemma_fill_stays_within_file(c: Client, file_len: u64, n: u64)
    requires
        client_within_file(c, file_len),
        n <= file_len - c.offset - c.bytes_in_pipe,
    ensures
        client_within_file(spec_on_fill(c, n), file_len),
        spec_on_fill(c, n).offset == c.offset,
{
}

/// A drain never moves the offset backwards and never past the end of
/// the file: the offset advances by exactly the bytes delivered, which
/// were already accounted within the file.
pub proof fn lemma_drain_advances_offset(c: Client, file_len: u64, n: u64)
    requires
        client_within_file(c, file_len),
        n <= c.bytes_in_pipe,
    ensures
        client_within_file(spec_on_drain(c, n), file_len),
        c.offset <= spec_on_drain(c, n).offset <= file_len,
        spec_on_drain(c, n).offset == c.offset + n,
{
}

/// A client whose transfer could not run because its socket was not
/// ready: nothing was moved, so only the in-flight mark is cleared, and
/// the next planning pass issues the same transfer again.
pub open spec fn spec_on_would_block(c: Client) -> Client {
    Client { offset: c.offset, bytes_in_pipe: c.bytes_in_pipe, in_flight: false }
}

/// A client right after its planned request was issued: issuing a fill
/// marks the client in flight, anything else leaves it unchanged.
pub open spec fn spec_mark_issued(c: Client, file_len: u64) -> Client {
    if spec_plan(c, file_len) == Some(PlannedReq::FillAndDrain) {
        Client { offset: c.offset, bytes_in_pipe: c.bytes_in_pipe, in_flight: true }
    } else {
        c
    }
}

/// The request to issue next for one client, as `spec_plan` describes.
pub fn plan_request(c: &Client, file_len: u64) -> (r: Option<PlannedReq>)
    ensures
        r == spec_plan(*c, file_len),
{
    if c.in_flight {
        None
    } else if c.bytes_in_pipe > 0 {
        Some(PlannedReq::Drain)
    } else if c.offset < file_len {
        Some(PlannedReq::FillAndDrain)
    } else {
        None
    }
}

/// The requests one pass over a batch of clients issues, in order: one
/// per client whose state warrants one.
pub open spec fn spec_plan_seq(s: Seq<(u16, Client)>, file_len: u64) -> Seq<(u16, PlannedReq)>
    decreases s.len(),
{
    if s.len() == 0 {
        Seq::empty()
    } else {
        (match spec_plan(s[0].1, file_len) {
            Some(p) => seq![(s[0].0, p)],
            None => Seq::empty(),
        }) + spec_plan_seq(s.drop_first(), file_len)
    }
}

/// A batch of clients after one planning pass: each marked as issued.
pub open spec fn spec_mark_seq(s: Seq<(u16, Client)>, file_len: u64) -> Seq<(u16, Client)> {
    Seq::new(s.len(), |i: int| (s[i].0, spec_mark_issued(s[i].1, file_len)))
}

/// Planning one more client appends its request, if any, to the batch.
proof fn lemma_plan_seq_push(s: Seq<(u16, Client)>, e: (u16, Client), file_len: u64)
    ensures
        spec_plan_seq(s.push(e), file_len) == spec_plan_seq(s, file_len)
            + (match spec_plan(e.1, file_len) {
                Some(p) => seq![(e.0, p)],
                None => Seq::<(u16, PlannedReq)>::empty(),
            }),
    decreases s.len(),
{
    if s.len() == 0 {
        assert(s.push(e)[0] == e);
        assert(s.push(e).drop_first() =~= Seq::<(u16, Client)>::empty());
        assert(spec_plan_seq(Seq::<(u16, Client)>::empty(), file_len)
            =~= Seq::<(u16, PlannedReq)>::empty());
        assert(spec_plan_seq(s.push(e), file_len) =~= (match spec_plan(e.1, file_len) {
            Some(p) => seq![(e.0, p)],
            None => Seq::<(u16, PlannedReq)>::empty(),
        }));
    } else {
        assert(s.push(e)[0] == s[0]);
        assert(s.push(e).drop_first() =~= s.drop_first().push(e));
        lemma_plan_seq_push(s.drop_first(), e, file_len);
        assert(spec_plan_seq(s.push(e), file_len) =~= spec_plan_seq(s, file_len)
            + (match spec_plan(e.1, file_len) {
                Some(p) => seq![(e.0, p)],
                None => Seq::<(u16, PlannedReq)>::empty(),
            }));
    }
}

/// Every registered client whose state warrants a request gets one in
/// the planned batch: the wake broadcast reaches the whole registry.
pub proof fn lemma_plan_seq_covers(s: Seq<(u16, Client)>, file_len: u64, i: int)
    requires
        0 <= i < s.len(),
        spec_plan(s[i].1, file_len) is Some,
    ensures
        spec_plan_seq(s, file_len).contains((s[i].0, spec_plan(s[i].1, file_len)->Some_0)),
    decreases s.len(),
{
    let p = spec_plan(s[i].1, file_len)->Some_0;
    if i == 0 {
        assert(spec_plan_seq(s, file_len)[0] == (s[0].0, p));
    } else {
        lemma_plan_seq_covers(s.drop_first(), file_len, i - 1);
        let rest = spec_plan_seq(s.drop_first(), file_len);
        let j = choose|j: int| 0 <= j < rest.len() && rest[j] == (s[i].0, p);
        let head_len = spec_plan_seq(s, file_len).len() - rest.len();
        assert(spec_plan_seq(s, file_len)[head_len + j] == (s[i].0, p));
    }
}

/// A wake broadcast reaches every attached session: after the watcher
/// publishes a new length, a planning pass issues a transfer for every
/// registered session that is idle and behind that length, so each of
/// them comes to observe it.
pub proof fn lemma_wake_reaches_every_lagging_session(reg: Registry, file_len: u64, id: u16)
    requires
        reg.wf(),
        reg.contains_spec(id),
        !reg@[id].in_flight,
        reg@[id].bytes_in_pipe == 0,
        reg@[id].offset < file_len,
    ensures
        spec_plan_seq(reg.entries_spec(), file_len)
            .contains((id, PlannedReq::FillAndDrain)),
{
    let i = reg.index_of(id);
    lemma_plan_seq_covers(reg.entries_spec(), file_len, i);
}

/// The set of attached client sessions, keyed by client id.
pub struct Registry {
    entries: Vec<(u16, Client)>,
}

impl Registry {
    /// The registered sessions in registration order.
    pub closed spec fn entries_spec(self) -> Seq<(u16, Client)> {
        self.entries@
    }

    /// The id of the session at a position.
    pub open spec fn key_at(self, i: int) -> u16 {
        self.entries_spec()[i].0
    }

    /// The state of the session at a position.
    pub open spec fn client_at(self, i: int) -> Client {
        self.entries_spec()[i].1
    }

    /// Each session is registered at most once.
    pub open spec fn wf(self) -> bool {
        forall|i: int, j: int|
            0 <= i < j < self.entries_spec().len()
                ==> #[trigger] self.key_at(i) != #[trigger] self.key_at(j)
    }

    /// Whether a session with this id is registered.
    pub open spec fn contains_spec(self, id: u16) -> bool {
        exists|i: int| 0 <= i < self.entries_spec().len() && #[trigger] self.key_at(i) == id
    }

    /// The position of the session with this id.
    pub open spec fn index_of(self, id: u16) -> int {
        choose|i: int| 0 <= i < self.entries_spec().len() && #[trigger] self.key_at(i) == id
    }

    /// The state of the session with this id.
    pub open spec fn get_spec(self, id: u16) -> Client {
        self.client_at(self.index_of(id))
    }

    /// The registry as a map from client id to session state.
    pub open spec fn view(self) -> Map<u16, Client> {
        Map::new(|id: u16| self.contains_spec(id), |id: u16| self.get_spec(id))
    }

    /// Two positions holding the same id are the same position.
    proof fn lemma_key_unique(self, i: int, j: int)
        requires
            self.wf(),
            0 <= i < self.entries_spec().len(),
            0 <= j < self.entries_spec().len(),
            self.key_at(i) == self.key_at(j),
        ensures
            i == j,
    {
    }

    /// An empty registry: no session is attached.
    pub fn new() -> (r: Registry)
        ensures
            r.wf(),
            r@ == Map::<u16, Client>::empty(),
            r.entries_spec() == Seq::<(u16, Client)>::empty(),
    {
        let r = Registry { entries: Vec::new() };
        proof {
            assert(r.entries_spec() =~= Seq::<(u16, Client)>::empty());
            assert(r@ =~= Map::<u16, Client>::empty());
        }
        r
    }

    /// The position of the session with this id, if it is registered.
    fn find(&self, id: u16) -> (r: Option<usize>)
        ensures
            (match r {
                Some(i) => i < self.entries_spec().len() && self.key_at(i as int) == id,
                None => !self.contains_spec(id),
            }),
    {
        let n = self.entries.len();
        let mut k: usize = 0;
        while k < n
            invariant
                k <= n,
                n == self.entries_spec().len(),
                forall|m: int| 0 <= m < k ==> #[trigger] self.key_at(m) != id,
            decreases n - k,
        {
            if self.entries[k].0 == id {
                return Some(k);
            }
            k = k + 1;
        }
        None
    }

    /// Whether a session with this id is registered.
    pub fn contains(&self, id: u16) -> (r: bool)
        ensures
            r == self.contains_spec(id),
    {
        self.find(id).is_some()
    }

    /// The state of the registered session with this id.
    pub fn get(&self, id: u16) -> (r: Option<Client>)
        requires
            self.wf(),
        ensures
            (match r {
                Some(c) => self.contains_spec(id) && c == self@[id],
                None => !self.contains_spec(id),
            }),
    {
        match self.find(id) {
            Some(i) => {
                let c = self.entries[i].1;
                proof {
                    assert(self.contains_spec(id));
                    self.lemma_key_unique(i as int, self.index_of(id));
                }
                Some(c)
            },
            None => None,
        }
    }

    /// Registers a session under its id, replacing any earlier session
    /// registered under the same id: afterwards the registry holds
    /// exactly the old sessions plus this one.
    pub fn insert(&mut self, id: u16, c: Client)
        requires
            old(self).wf(),
        ensures
            final(self).wf(),
            final(self)@ == old(self)@.insert(id, c),
    {
        let found = self.find(id);
        match found {
            Some(i) => {
                self.entries.set(i, (id, c));
                proof {
                    self.lemma_view_insert_at(*old(self), id, c, i as int);
                }
            },
            None => {
                self.entries.push((id, c));
                proof {
                    self.lemma_view_insert_new(*old(self), id, c);
                }
            },
        }
    }

    /// After overwriting position `i`, the registry's map gained `id`.
    proof fn lemma_view_insert_at(self, prev: Registry, id: u16, c: Client, i: int)
        requires
            prev.wf(),
            0 <= i < prev.entries_spec().len(),
            prev.key_at(i) == id,
            self.entries_spec() == prev.entries_spec().update(i, (id, c)),
        ensures
            self.wf(),
            self@ == prev@.insert(id, c),
    {
        assert forall|m: int| 0 <= m < self.entries_spec().len()
            implies self.key_at(m) == prev.key_at(m) by {
            if m != i {
                assert(self.entries_spec()[m] == prev.entries_spec()[m]);
            }
        }
        assert forall|p: int, q: int| 0 <= p < q < self.entries_spec().len()
            implies self.key_at(p) != self.key_at(q) by {
            assert(prev.key_at(p) != prev.key_at(q));
        }
        assert(self.wf());
        assert forall|k: u16| self.contains_spec(k) implies prev@.insert(id, c).dom().contains(k) by {
            let m = self.index_of(k);
            if m != i {
                assert(prev.key_at(m) == k);
                assert(prev.contains_spec(k));
            }
        }
        assert forall|k: u16| prev@.insert(id, c).dom().contains(k) implies self.contains_spec(k) by {
            if k == id {
                assert(self.key_at(i) == id);
            } else {
                let m = prev.index_of(k);
                assert(self.key_at(m) == k);
            }
        }
        assert forall|k: u16| self.contains_spec(k)
            implies self.get_spec(k) == prev@.insert(id, c)[k] by {
            let m = self.index_of(k);
            if k == id {
                assert(self.key_at(i) == id);
                self.lemma_key_unique(m, i);
            } else {
                assert(m != i);
                assert(prev.key_at(m) == k);
                prev.lemma_key_unique(m, prev.index_of(k));
            }
        }
        assert(self@ =~= prev@.insert(id, c));
    }

    /// After appending a fresh entry, the registry's map gained `id`.
    proof fn lemma_view_insert_new(self, prev: Registry, id: u16, c: Client)
        requires
            prev.wf(),
            !prev.contains_spec(id),
            self.entries_spec() == prev.entries_spec().push((id, c)),
        ensures
            self.wf(),
            self@ == prev@.insert(id, c),
    {
        let n = prev.entries_spec().len() as int;
        assert forall|m: int| 0 <= m < n
            implies self.entries_spec()[m] == prev.entries_spec()[m] by {}
        assert(self.key_at(n) == id);
        assert forall|i: int, j: int| 0 <= i < j < self.entries_spec().len()
            implies self.key_at(i) != self.key_at(j) by {
            if j < n {
                assert(prev.key_at(i) != prev.key_at(j));
            } else {
                assert(j == n);
                if self.key_at(i) == id {
                    assert(prev.key_at(i) == id);
                    assert(prev.contains_spec(id));
                }
            }
        }
        assert forall|k: u16| self.contains_spec(k) implies prev@.insert(id, c).dom().contains(k) by {
            let m = self.index_of(k);
            if m < n {
                assert(prev.key_at(m) == k);
            }
        }
        assert forall|k: u16| prev@.insert(id, c).dom().contains(k) implies self.contains_spec(k) by {
            if k == id {
                assert(self.key_at(n) == id);
            } else {
                let m = prev.index_of(k);
                assert(self.key_at(m) == k);
            }
        }
        assert forall|k: u16| self.contains_spec(k)
            implies self.get_spec(k) == prev@.insert(id, c)[k] by {
            let m = self.index_of(k);
            if k == id {
                self.lemma_key_unique(m, n);
            } else {
                assert(m < n);
                assert(prev.key_at(m) == k);
                prev.lemma_key_unique(m, prev.index_of(k));
            }
        }
        assert(self@ =~= prev@.insert(id, c));
    }

    /// Deregisters the session with this id, if one is registered:
    /// afterwards the registry holds exactly the other sessions.
    /// Reports whether the session was registered.
    pub fn remove(&mut self, id: u16) -> (was: bool)
        requires
            old(self).wf(),
        ensures
            final(self).wf(),
            final(self)@ == old(self)@.remove(id),
            was == old(self).contains_spec(id),
    {
        let found = self.find(id);
        match found {
            Some(i) => {
                self.entries.remove(i);
                proof {
                    self.lemma_view_remove_at(*old(self), id, i as int);
                }
                true
            },
            None => {
                proof {
                    assert(self@ =~= old(self)@.remove(id));
                }
                false
            },
        }
    }

    /// Records that a fill completed: `n` more bytes of the file now sit
    /// in the client's pipe.  Fails, changing nothing, if the client is
    /// not registered or the count would not fit.
    pub fn record_fill(&mut self, id: u16, n: u64) -> (ok: bool)
        requires
            old(self).wf(),
        ensures
            final(self).wf(),
            old(self).contains_spec(id) && old(self)@[id].bytes_in_pipe + n <= u64::MAX
                ==> ok && final(self)@
                    == old(self)@.insert(id, spec_on_fill(old(self)@[id], n)),
            !(old(self).contains_spec(id) && old(self)@[id].bytes_in_pipe + n <= u64::MAX)
                ==> !ok && final(self)@ == old(self)@,
    {
        let found = self.find(id);
        match found {
            Some(i) => {
                let c = self.entries[i].1;
                proof {
                    self.lemma_key_unique(i as int, self.index_of(id));
                }
                if n <= u64::MAX - c.bytes_in_pipe {
                    let updated = Client {
                        offset: c.offset,
                        bytes_in_pipe: c.bytes_in_pipe + n,
                        in_flight: c.in_flight,
                    };
                    self.entries.set(i, (id, updated));
                    proof {
                        self.lemma_view_insert_at(*old(self), id, updated, i as int);
                    }
                    true
                } else {
                    false
                }
            },
            None => false,
        }
    }

    /// Records that a drain completed: `n` bytes left the client's pipe
    /// for its socket, so its offset advances by `n`, and no request is
    /// in flight any more.  Fails, changing nothing, if the client is
    /// not registered, the pipe held fewer than `n` bytes, or the offset
    /// would not fit.
    pub fn record_drain(&mut self, id: u16, n: u64) -> (ok: bool)
        requires
            old(self).wf(),
        ensures
            final(self).wf(),
            old(self).contains_spec(id) && n <= old(self)@[id].bytes_in_pipe
                && old(self)@[id].offset + n <= u64::MAX
                ==> ok && final(self)@
                    == old(self)@.insert(id, spec_on_drain(old(self)@[id], n)),
            !(old(self).contains_spec(id) && n <= old(self)@[id].bytes_in_pipe
                && old(self)@[id].offset + n <= u64::MAX)
                ==> !ok && final(self)@ == old(self)@,
    {
        let found = self.find(id);
        match found {
            Some(i) => {
                let c = self.entries[i].1;
                proof {
                    self.lemma_key_unique(i as int, self.index_of(id));
                }
                if n <= c.bytes_in_pipe && n <= u64::MAX - c.offset {
                    let updated = Client {
                        offset: c.offset + n,
                        bytes_in_pipe: c.bytes_in_pipe - n,
                        in_flight: false,
                    };
                    self.entries.set(i, (id, updated));
                    proof {
                        self.lemma_view_insert_at(*old(self), id, updated, i as int);
                    }
                    true
                } else {
                    false
                }
            },
            None => false,
        }
    }

    /// Records that a transfer could not run because the client's socket
    /// was not ready: no byte moved, so the session keeps its offset and
    /// its pipe account, and only its in-flight mark is cleared so the
    /// same transfer is issued again.  Fails, changing nothing, if the
    /// client is not registered.
    pub fn clear_in_flight(&mut self, id: u16) -> (ok: bool)
        requires
            old(self).wf(),
        ensures
            final(self).wf(),
            old(self).contains_spec(id)
                ==> ok && final(self)@
                    == old(self)@.insert(id, spec_on_would_block(old(self)@[id])),
            !old(self).contains_spec(id) ==> !ok && final(self)@ == old(self)@,
    {
        let found = self.find(id);
        match found {
            Some(i) => {
                let c = self.entries[i].1;
                proof {
                    self.lemma_key_unique(i as int, self.index_of(id));
                }
                let updated = Client {
                    offset: c.offset,
                    bytes_in_pipe: c.bytes_in_pipe,
                    in_flight: false,
                };
                self.entries.set(i, (id, updated));
                proof {
                    self.lemma_view_insert_at(*old(self), id, updated, i as int);
                }
                true
            },
            None => false,
        }
    }

    /// One planning pass over every registered session, as the event
    /// loop makes after any wake-up: returns the requests to issue, in
    /// registration order, and marks each client whose fill was planned
    /// as in flight.  Every client whose state warrants a request gets
    /// one: this is the wake broadcast reaching the whole registry.
    pub fn plan_requests(&mut self, file_len: u64) -> (r: Vec<(u16, PlannedReq)>)
        requires
            old(self).wf(),
        ensures
            final(self).wf(),
            final(self).entries_spec()
                == spec_mark_seq(old(self).entries_spec(), file_len),
            r@ == spec_plan_seq(old(self).entries_spec(), file_len),
            forall|k: u16| final(self).contains_spec(k) == old(self).contains_spec(k),
            forall|k: u16| old(self).contains_spec(k)
                ==> final(self)@[k] == spec_mark_issued(old(self)@[k], file_len),
    {
        let n = self.entries.len();
        let mut out: Vec<(u16, PlannedReq)> = Vec::new();
        let mut k: usize = 0;
        proof {
            assert(old(self).entries_spec().take(0) =~= Seq::<(u16, Client)>::empty());
            assert(self.entries_spec()
                =~= spec_mark_seq(old(self).entries_spec().take(0), file_len)
                    + old(self).entries_spec().skip(0));
            assert(out@ =~= spec_plan_seq(old(self).entries_spec().take(0), file_len));
        }
        while k < n
            invariant
                k <= n,
                n == self.entries_spec().len(),
                n == old(self).entries_spec().len(),
                forall|m: int| k <= m < n
                    ==> self.entries_spec()[m] == old(self).entries_spec()[m],
                self.entries_spec()
                    == spec_mark_seq(old(self).entries_spec().take(k as int), file_len)
                        + old(self).entries_spec().skip(k as int),
                out@ == spec_plan_seq(old(self).entries_spec().take(k as int), file_len),
            decreases n - k,
        {
            let e = self.entries[k];
            let id = e.0;
            let c = e.1;
            let plan = plan_request(&c, file_len);
            match plan {
                Some(p) => {
                    out.push((id, p));
                    match p {
                        PlannedReq::FillAndDrain => {
                            let marked = Client {
                                offset: c.offset,
                                bytes_in_pipe: c.bytes_in_pipe,
                                in_flight: true,
                            };
                            self.entries.set(k, (id, marked));
                        },
                        PlannedReq::Drain => {},
                    }
                },
                None => {},
            }
            proof {
                let prev_entries = old(self).entries_spec();
                assert(prev_entries.take(k + 1)
                    =~= prev_entries.take(k as int).push(prev_entries[k as int]));
                lemma_plan_seq_push(prev_entries.take(k as int), prev_entries[k as int],
                    file_len);
                assert(out@ =~= spec_plan_seq(prev_entries.take(k + 1), file_len));
                assert(self.entries_spec()
                    =~= spec_mark_seq(prev_entries.take(k + 1), file_len)
                        + prev_entries.skip(k + 1));
            }
            k = k + 1;
        }
        proof {
            let prev_entries = old(self).entries_spec();
            assert(prev_entries.take(n as int) =~= prev_entries);
            assert(prev_entries.skip(n as int) =~= Seq::<(u16, Client)>::empty());
            assert(self.entries_spec() =~= spec_mark_seq(prev_entries, file_len));
            self.lemma_view_mark(*old(self), file_len);
        }
        out
    }

    /// A planning pass preserves which sessions are registered, and maps
    /// each session's state through `spec_mark_issued`.
    proof fn lemma_view_mark(self, prev: Registry, file_len: u64)
        requires
            prev.wf(),
            self.entries_spec() == spec_mark_seq(prev.entries_spec(), file_len),
        ensures
            self.wf(),
            forall|k: u16| self.contains_spec(k) == prev.contains_spec(k),
            forall|k: u16| prev.contains_spec(k)
                ==> self@[k] == spec_mark_issued(prev@[k], file_len),
    {
        let n = prev.entries_spec().len() as int;
        assert forall|m: int| 0 <= m < n implies self.key_at(m) == prev.key_at(m)
            && self.client_at(m) == spec_mark_issued(prev.client_at(m), file_len) by {}
        assert forall|p: int, q: int| 0 <= p < q < self.entries_spec().len()
            implies self.key_at(p) != self.key_at(q) by {
            assert(prev.key_at(p) != prev.key_at(q));
        }
        assert forall|k: u16| self.contains_spec(k) == prev.contains_spec(k) by {
            if self.contains_spec(k) {
                let m = self.index_of(k);
                assert(prev.key_at(m) == k);
            }
            if prev.contains_spec(k) {
                let m = prev.index_of(k);
                assert(self.key_at(m) == k);
            }
        }
        assert forall|k: u16| prev.contains_spec(k)
            implies self@[k] == spec_mark_issued(prev@[k], file_len) by {
            let m = self.index_of(k);
            assert(prev.key_at(m) == k);
            prev.lemma_key_unique(m, prev.index_of(k));
        }
    }

    /// After dropping position `i`, the registry's map lost `id`.
    proof fn lemma_view_remove_at(self, prev: Registry, id: u16, i: int)
        requires
            prev.wf(),
            0 <= i < prev.entries_spec().len(),
            prev.key_at(i) == id,
            self.entries_spec() == prev.entries_spec().remove(i),
        ensures
            self.wf(),
            self@ == prev@.remove(id),
    {
        let n = prev.entries_spec().len() as int;
        assert forall|m: int| 0 <= m < n - 1
            implies self.entries_spec()[m]
                == prev.entries_spec()[if m < i { m } else { m + 1 }] by {}
        assert forall|p: int, q: int| 0 <= p < q < self.entries_spec().len()
            implies self.key_at(p) != self.key_at(q) by {
            let p0: int = if p < i { p } else { p + 1 };
            let q0: int = if q < i { q } else { q + 1 };
            assert(prev.key_at(p0) != prev.key_at(q0));
        }
        assert forall|k: u16| self.contains_spec(k)
            implies prev@.remove(id).dom().contains(k) by {
            let m = self.index_of(k);
            let m0: int = if m < i { m } else { m + 1 };
            assert(prev.key_at(m0) == k);
            assert(m0 != i);
            if k == id {
                prev.lemma_key_unique(m0, i);
            }
        }
        assert forall|k: u16| prev@.remove(id).dom().contains(k)
            implies self.contains_spec(k) by {
            let m0 = prev.index_of(k);
            assert(prev.key_at(m0) == k);
            assert(m0 != i);
            let m: int = if m0 < i { m0 } else { m0 - 1 };
            assert(self.key_at(m) == k);
        }
        assert forall|k: u16| self.contains_spec(k)
            implies self.get_spec(k) == prev@.remove(id)[k] by {
            let m = self.index_of(k);
            let m0: int = if m < i { m } else { m + 1 };
            assert(prev.key_at(m0) == k);
            prev.lemma_key_unique(m0, prev.index_of(k));
        }
        assert(self@ =~= prev@.remove(id));
    }
}

} // verus!
