//! Screensaver inhibitors held by bus clients (the `Inhibit` / `UnInhibit`
//! pair of the screensaver interface): each is identified by a cookie, owned
//! by the client that asked for it, and a client may hold only so many.
use vstd::prelude::*;

verus! {

/// The most inhibitors one client may hold at once.
pub const MAX_INHIBITORS_PER_CLIENT: usize = 32;

/// One inhibitor as seen in contracts.
pub struct InhibitorView {
    pub cookie: u32,
    pub application: Seq<char>,
    pub reason: Seq<char>,
    pub client: Seq<char>,
}

/// The set of inhibitors, in the order they were granted, and the next cookie.
pub struct InhibitorModel {
    pub entries: Seq<InhibitorView>,
    pub next_cookie: nat,
}

/// Why a request to inhibit was refused.
#[derive(Debug, Clone, Copy, PartialEq, Eq)]
pub enum InhibitError {
    /// The client already holds the most inhibitors it may.
    TooManyForClient,
    /// Every cookie a `u32` can hold has been handed out.
    CookiesExhausted,
}

/// A granted inhibitor.
pub struct Inhibitor {
    pub cookie: u32,
    pub application: String,
    pub reason: String,
    pub client: String,
}

impl View for Inhibitor {
    type V = InhibitorView;

    open spec fn view(&self) -> InhibitorView {
        InhibitorView {
            cookie: self.cookie,
            application: self.application@,
            reason: self.reason@,
            client: self.client@,
        }
    }
}

/// The inhibitors of `entries` held by `client`.
pub open spec fn held_by(entries: Seq<InhibitorView>, client: Seq<char>) -> Seq<InhibitorView> {
    entries.filter(|e: InhibitorView| e.client == client)
}

/// The inhibitors of `entries` not held by `client`.
pub open spec fn not_held_by(entries: Seq<InhibitorView>, client: Seq<char>) -> Seq<InhibitorView> {
    entries.filter(|e: InhibitorView| e.client != client)
}

/// `entries` holds the inhibitor `cookie` of `client` at index `i`.
pub open spec fn holds_at(entries: Seq<InhibitorView>, cookie: u32, client: Seq<char>, i: int) -> bool {
    0 <= i < entries.len() && entries[i].cookie == cookie && entries[i].client == client
}

impl InhibitorModel {
    /// Cookies are positive, below the next cookie, and strictly increasing in
    /// the order the inhibitors were granted.
    pub open spec fn wf(self) -> bool {
        &&& self.next_cookie >= 1
        &&& forall|i: int|
            0 <= i < self.entries.len() ==> 1 <= #[trigger] self.entries[i].cookie < self.next_cookie
        &&& forall|i: int, j: int|
            0 <= i < j < self.entries.len() ==> #[trigger] self.entries[i].cookie
                < #[trigger] self.entries[j].cookie
    }

    /// Some inhibitor is held.
    pub open spec fn inhibited(self) -> bool {
        self.entries.len() > 0
    }

    /// The result of a request to inhibit for `client`, and the state after it.
    pub open spec fn add(
        self,
        application: Seq<char>,
        reason: Seq<char>,
        client: Seq<char>,
    ) -> (InhibitorModel, Result<u32, InhibitError>) {
        if held_by(self.entries, client).len() >= MAX_INHIBITORS_PER_CLIENT {
            (self, Err(InhibitError::TooManyForClient))
        } else if self.next_cookie > u32::MAX {
            (self, Err(InhibitError::CookiesExhausted))
        } else {
            (
                InhibitorModel {
                    entries: self.entries.push(
                        InhibitorView {
                            cookie: self.next_cookie as u32,
                            application,
                            reason,
                            client,
                        },
                    ),
                    next_cookie: self.next_cookie + 1,
                },
                Ok(self.next_cookie as u32),
            )
        }
    }

    /// The state after `client` releases the inhibitor `cookie`, and whether it held it.
    pub open spec fn remove_for_client(self, cookie: u32, client: Seq<char>) -> (InhibitorModel, bool) {
        if exists|i: int| holds_at(self.entries, cookie, client, i) {
            let i = choose|i: int| holds_at(self.entries, cookie, client, i);
            (InhibitorModel { entries: self.entries.remove(i), next_cookie: self.next_cookie }, true)
        } else {
            (self, false)
        }
    }

    /// The state after every inhibitor of `client` is released.
    pub open spec fn remove_client(self, client: Seq<char>) -> InhibitorModel {
        InhibitorModel { entries: not_held_by(self.entries, client), next_cookie: self.next_cookie }
    }
}

/// The inhibitors currently granted.
pub struct InhibitorState {
    entries: Vec<Inhibitor>,
    next_cookie: u64,
}

impl InhibitorState {
    /// The state as a model.
    pub closed spec fn model(&self) -> InhibitorModel {
        InhibitorModel {
            entries: self.entries@.map_values(|e: Inhibitor| e@),
            next_cookie: self.next_cookie as nat,
        }
    }

    /// The state is well formed: its model is, and the next cookie is at most
    /// one past the largest `u32`.
    pub open spec fn wf(&self) -> bool {
        self.model().wf() && self.model().next_cookie <= u32::MAX + 1
    }

    /// No inhibitor held; the first cookie is 1.
    pub fn new() -> (s: Self)
        ensures
            s.wf(),
            s.model().entries == Seq::<InhibitorView>::empty(),
            s.model().next_cookie == 1,
    {
        let s = InhibitorState { entries: Vec::new(), next_cookie: 1 };
        assert(s.model().entries =~= Seq::<InhibitorView>::empty());
        s
    }

    /// Some inhibitor is held.
    pub fn is_inhibited(&self) -> (r: bool)
        ensures
            r == self.model().inhibited(),
    {
        self.entries.len() > 0
    }

    /// How many inhibitors `client` holds.
    pub fn count_for_client(&self, client: &String) -> (n: usize)
        ensures
            n == held_by(self.model().entries, client@).len(),
    {
        let ghost es = self.model().entries;
        let mut n: usize = 0;
        let mut i: usize = 0;
        while i < self.entries.len()
            invariant
                0 <= i <= self.entries.len(),
                es == self.model().entries,
                es.len() == self.entries.len(),
                n == held_by(es.take(i as int), client@).len(),
                n <= i,
            decreases self.entries.len() - i,
        {
            proof {
                reveal_with_fuel(Seq::filter, 1);
                assert(es.take(i + 1).drop_last() =~= es.take(i as int));
            }
            if self.entries[i].client == *client {
                n = n + 1;
            }
            i = i + 1;
        }
        assert(es.take(i as int) =~= es);
        n
    }

    /// Grants `client` an inhibitor and returns its cookie, unless the client
    /// already holds `MAX_INHIBITORS_PER_CLIENT` of them or no cookie is left
    /// (see `InhibitorModel::add`).
    pub fn add(&mut self, application: String, reason: String, client: String) -> (r: Result<
        u32,
        InhibitError,
    >)
        requires
            old(self).wf(),
        ensures
            final(self).wf(),
            (final(self).model(), r) == old(self).model().add(application@, reason@, client@),
    {
        let ghost m = self.model();
        let held = self.count_for_client(&client);
        if held >= MAX_INHIBITORS_PER_CLIENT {
            return Err(InhibitError::TooManyForClient);
        }
        if self.next_cookie > u32::MAX as u64 {
            return Err(InhibitError::CookiesExhausted);
        }
        let cookie = self.next_cookie as u32;
        let entry = Inhibitor { cookie, application, reason, client };
        self.entries.push(entry);
        self.next_cookie = self.next_cookie + 1;
        proof {
            assert(self.model().entries =~= m.add(entry.application@, entry.reason@, entry.client@).0.entries);
        }
        Ok(cookie)
    }

    /// Releases the inhibitor `cookie` if `client` holds it, and says whether it did.
    pub fn remove_for_client(&mut self, cookie: u32, client: &String) -> (removed: bool)
        requires
            old(self).wf(),
        ensures
            final(self).wf(),
            (final(self).model(), removed) == old(self).model().remove_for_client(cookie, client@),
    {
        let ghost m = self.model();
        let mut i: usize = 0;
        while i < self.entries.len()
            invariant
                0 <= i <= self.entries.len(),
                m == self.model(),
                m == old(self).model(),
                m.wf(),
                self.next_cookie <= u32::MAX as u64 + 1,
                forall|k: int| 0 <= k < i ==> !holds_at(m.entries, cookie, client@, k),
            decreases self.entries.len() - i,
        {
            if self.entries[i].cookie == cookie && self.entries[i].client == *client {
                assert(holds_at(m.entries, cookie, client@, i as int));
                let ghost j = choose|j: int| holds_at(m.entries, cookie, client@, j);
                assert(j == i) by {
                    if j < i {
                        assert(m.entries[j].cookie < m.entries[i as int].cookie);
                    } else if j > i {
                        assert(m.entries[i as int].cookie < m.entries[j].cookie);
                    }
                }
                self.entries.remove(i);
                proof {
                    assert(self.model().entries =~= m.entries.remove(i as int));
                    assert(self.model() == InhibitorModel { entries: m.entries.remove(j), next_cookie: m.next_cookie });
                    assert(m.remove_for_client(cookie, client@) == (self.model(), true));
                    assert forall|a: int, b: int|
                        0 <= a < b < self.model().entries.len() implies #[trigger] self.model().entries[a].cookie
                        < #[trigger] self.model().entries[b].cookie by {
                        let a2 = if a < i { a } else { a + 1 };
                        let b2 = if b < i { b } else { b + 1 };
                        assert(self.model().entries[a] == m.entries[a2]);
                        assert(self.model().entries[b] == m.entries[b2]);
                    }
                    assert forall|a: int| 0 <= a < self.model().entries.len() implies 1 <= #[trigger] self.model().entries[a].cookie
                        < self.model().next_cookie by {
                        let a2 = if a < i { a } else { a + 1 };
                        assert(self.model().entries[a] == m.entries[a2]);
                    }
                }
                return true;
            }
            i = i + 1;
        }
        false
    }

    /// Releases every inhibitor `client` holds.
    pub fn remove_client(&mut self, client: &String)
        requires
            old(self).wf(),
        ensures
            final(self).wf(),
            final(self).model() == old(self).model().remove_client(client@),
    {
        let ghost m = self.model();
        let ghost es = m.entries;
        let ghost pred = |e: InhibitorView| e.client != client@;
        let n = self.entries.len();
        let mut i: usize = 0;
        let mut j: usize = 0;
        while j < n
            invariant
                0 <= i <= j <= n,
                n == es.len(),
                es == m.entries,
                m.wf(),
                self.model().next_cookie == m.next_cookie,
                self.next_cookie <= u32::MAX as u64 + 1,
                pred == (|e: InhibitorView| e.client != client@),
                es.take(j as int).filter(pred).len() == i,
                self.entries@.len() == i + (n - j),
                self.model().entries =~= es.take(j as int).filter(pred) + es.skip(j as int),
                forall|a: int| 0 <= a < i ==> exists|b: int| 0 <= b < j && #[trigger] self.model().entries[a] == es[b],
                forall|a: int, b: int| 0 <= a < i && j <= b < es.len() ==> #[trigger] self.model().entries[a].cookie < #[trigger] es[b].cookie,
                self.model().wf(),
            decreases es.len() - j,
        {
            proof {
                reveal_with_fuel(Seq::filter, 1);
                assert(es.take(j + 1).drop_last() =~= es.take(j as int));
                assert(self.model().entries[i as int] == es[j as int]);
            }
            let ghost before = self.model().entries;
            if self.entries[i].client == *client {
                self.entries.remove(i);
                proof {
                    assert(self.model().entries =~= before.remove(i as int));
                    assert(self.model().entries =~= es.take(j + 1).filter(pred) + es.skip(j + 1));
                    assert forall|a: int, b: int|
                        0 <= a < b < self.model().entries.len() implies #[trigger] self.model().entries[a].cookie
                        < #[trigger] self.model().entries[b].cookie by {
                        let a2 = if a < i { a } else { a + 1 };
                        let b2 = if b < i { b } else { b + 1 };
                        assert(self.model().entries[a] == before[a2]);
                        assert(self.model().entries[b] == before[b2]);
                    }
                    assert forall|a: int| 0 <= a < self.model().entries.len() implies 1 <= #[trigger] self.model().entries[a].cookie
                        < self.model().next_cookie by {
                        let a2 = if a < i { a } else { a + 1 };
                        assert(self.model().entries[a] == before[a2]);
                    }
                }
            } else {
                proof {
                    assert(self.model().entries =~= es.take(j + 1).filter(pred) + es.skip(j + 1));
                }
                i = i + 1;
            }
            j = j + 1;
        }
        proof {
            assert(es.take(es.len() as int) =~= es);
            assert(es.skip(es.len() as int) =~= Seq::<InhibitorView>::empty());
            assert(self.model().entries =~= not_held_by(es, client@));
        }
    }
}


/// Granting an inhibitor leaves the screensaver inhibited.
pub proof fn law_add_inhibits(m: InhibitorModel, application: Seq<char>, reason: Seq<char>, client: Seq<char>)
    requires
        m.wf(),
        m.add(application, reason, client).1 is Ok,
    ensures
        m.add(application, reason, client).0.inhibited(),
        m.add(application, reason, client).0.wf(),
{
    let m1 = m.add(application, reason, client).0;
    assert(m1.entries.last().cookie == m.next_cookie);
}

/// A granted cookie is positive and larger than every cookie granted before it,
/// so cookies are unique and increase with each grant.
pub proof fn law_cookies_increase(m: InhibitorModel, application: Seq<char>, reason: Seq<char>, client: Seq<char>)
    requires
        m.wf(),
        m.add(application, reason, client).1 is Ok,
    ensures
        m.add(application, reason, client).1->Ok_0 >= 1,
        forall|i: int|
            0 <= i < m.entries.len() ==> #[trigger] m.entries[i].cookie < m.add(
                application,
                reason,
                client,
            ).1->Ok_0,
        m.add(application, reason, client).0.next_cookie > m.add(application, reason, client).1->Ok_0,
{
}

/// The client that was granted a cookie can release it: the release succeeds
/// and leaves the inhibitors as they were before the grant.
pub proof fn law_add_then_release(m: InhibitorModel, application: Seq<char>, reason: Seq<char>, client: Seq<char>)
    requires
        m.wf(),
        m.add(application, reason, client).1 is Ok,
    ensures
        ({
            let (m1, r) = m.add(application, reason, client);
            let (m2, released) = m1.remove_for_client(r->Ok_0, client);
            &&& released
            &&& m2.entries == m.entries
            &&& m2.wf()
        }),
{
    let (m1, r) = m.add(application, reason, client);
    let k = r->Ok_0;
    let last = m.entries.len() as int;
    assert(holds_at(m1.entries, k, client, last));
    let j = choose|j: int| holds_at(m1.entries, k, client, j);
    assert(j == last) by {
        if j < last {
            assert(m1.entries[j] == m.entries[j]);
        }
    }
    assert(m1.remove_for_client(k, client).0.entries =~= m.entries);
}

/// A release that is refused (a cookie the client does not hold) changes nothing.
pub proof fn law_refused_release_is_noop(m: InhibitorModel, cookie: u32, client: Seq<char>)
    requires
        !m.remove_for_client(cookie, client).1,
    ensures
        m.remove_for_client(cookie, client).0 == m,
{
}

/// After a client's inhibitors are released it holds none, and every
/// inhibitor of another client is still held.
pub proof fn law_remove_client_clears(m: InhibitorModel, client: Seq<char>)
    requires
        m.wf(),
    ensures
        forall|i: int|
            0 <= i < m.remove_client(client).entries.len() ==> #[trigger] m.remove_client(
                client,
            ).entries[i].client != client,
        forall|i: int|
            0 <= i < m.entries.len() && m.entries[i].client != client ==> m.remove_client(
                client,
            ).entries.contains(#[trigger] m.entries[i]),
        m.remove_client(client).inhibited() <==> exists|i: int|
            0 <= i < m.entries.len() && #[trigger] m.entries[i].client != client,
{
    let pred = |e: InhibitorView| e.client != client;
    let out = m.remove_client(client).entries;
    assert forall|i: int| 0 <= i < out.len() implies #[trigger] out[i].client != client by {
        m.entries.lemma_filter_pred(pred, i);
    }
    assert forall|i: int| 0 <= i < m.entries.len() && m.entries[i].client != client implies out.contains(
        #[trigger] m.entries[i],
    ) by {
        m.entries.lemma_filter_contains(pred, i);
    }
    if out.len() > 0 {
        assert(out.contains(out[0]));
        m.entries.lemma_filter_pred(pred, 0);
        m.entries.lemma_filter_contains_rev(pred, out[0]);
        let k = choose|k: int| 0 <= k < m.entries.len() && m.entries[k] == out[0];
        assert(m.entries[k].client != client);
    }
    if exists|i: int| 0 <= i < m.entries.len() && #[trigger] m.entries[i].client != client {
        let i = choose|i: int| 0 <= i < m.entries.len() && #[trigger] m.entries[i].client != client;
        assert(out.contains(m.entries[i]));
    }
}

/// A client that holds the most inhibitors it may is refused another.
pub proof fn law_client_capacity(m: InhibitorModel, application: Seq<char>, reason: Seq<char>, client: Seq<char>)
    requires
        held_by(m.entries, client).len() >= MAX_INHIBITORS_PER_CLIENT,
    ensures
        m.add(application, reason, client) == (m, Err::<u32, InhibitError>(InhibitError::TooManyForClient)),
{
}


/// Releasing never lowers the next cookie: releasing one inhibitor or all of a
/// client's leaves it as it was.
pub proof fn law_release_keeps_next_cookie(m: InhibitorModel, cookie: u32, client: Seq<char>)
    ensures
        m.remove_for_client(cookie, client).0.next_cookie == m.next_cookie,
        m.remove_client(client).next_cookie == m.next_cookie,
{
}

/// Cookies are never handed out twice: a cookie granted after a release, of
/// any inhibitor by any client, exceeds the cookie granted before it.
pub proof fn law_cookie_after_release_is_larger(
    m: InhibitorModel,
    application: Seq<char>,
    reason: Seq<char>,
    client: Seq<char>,
    released: u32,
    releaser: Seq<char>,
    application2: Seq<char>,
    reason2: Seq<char>,
    client2: Seq<char>,
)
    requires
        m.wf(),
        m.add(application, reason, client).1 is Ok,
        m.add(application, reason, client).0.remove_for_client(released, releaser).0.add(
            application2,
            reason2,
            client2,
        ).1 is Ok,
    ensures
        m.add(application, reason, client).0.remove_for_client(released, releaser).0.add(
            application2,
            reason2,
            client2,
        ).1->Ok_0 > m.add(application, reason, client).1->Ok_0,
{
}
} // verus!
