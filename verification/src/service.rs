//! The proxy as a service: the connections that it serves, and what it tells of itself.

use crate::events::UiEvent;
use crate::response::is_suffix;
use vstd::prelude::*;

verus! {

/// The connections of clients, by number. A number is given once until the numbers run out.
#[derive(Debug)]
#[verifier::reject_recursive_types(T)]
pub struct Clients<T> {
    entries: Vec<(u64, T)>,
    next: u64,
}

spec fn lookup<T>(entries: Seq<(u64, T)>, id: u64) -> Option<T>
    decreases entries.len(),
{
    if entries.len() == 0 {
        None
    } else if entries.last().0 == id {
        Some(entries.last().1)
    } else {
        lookup(entries.drop_last(), id)
    }
}

spec fn distinct<T>(entries: Seq<(u64, T)>) -> bool {
    forall|i: int, j: int|
        0 <= i < j < entries.len() ==> (#[trigger] entries[i]).0 != (#[trigger] entries[j]).0
}

impl<T> View for Clients<T> {
    type V = Map<u64, T>;

    closed spec fn view(&self) -> Map<u64, T> {
        Map::new(|id: u64| lookup(self.entries@, id) is Some, |id: u64| lookup(self.entries@, id)->0)
    }
}

proof fn lemma_lookup_hit<T>(entries: Seq<(u64, T)>, id: u64, i: int)
    requires
        0 <= i < entries.len(),
        entries[i].0 == id,
        distinct(entries),
    ensures
        lookup(entries, id) == Some(entries[i].1),
    decreases entries.len(),
{
    if i < entries.len() - 1 {
        assert(entries[i].0 != entries[entries.len() - 1].0);
        assert(distinct(entries.drop_last()));
        lemma_lookup_hit(entries.drop_last(), id, i);
    }
}

proof fn lemma_lookup_miss<T>(entries: Seq<(u64, T)>, id: u64)
    requires
        forall|i: int| 0 <= i < entries.len() ==> (#[trigger] entries[i]).0 != id,
    ensures
        lookup(entries, id) is None,
    decreases entries.len(),
{
    if entries.len() > 0 {
        assert(entries[entries.len() - 1].0 != id);
        let front = entries.drop_last();
        assert forall|i: int| 0 <= i < front.len() implies (#[trigger] front[i]).0 != id by {
            assert(entries[i].0 != id);
        }
        lemma_lookup_miss(front, id);
    }
}

proof fn lemma_removed<T>(entries: Seq<(u64, T)>, k: int, id: u64)
    requires
        distinct(entries),
        0 <= k < entries.len(),
    ensures
        distinct(entries.remove(k)),
        lookup(entries.remove(k), id) == (if id == entries[k].0 {
            None
        } else {
            lookup(entries, id)
        }),
{
    let rest = entries.remove(k);
    assert forall|i: int, j: int| 0 <= i < j < rest.len() implies (#[trigger] rest[i]).0 != (
    #[trigger] rest[j]).0 by {
        let a = if i < k {
            i
        } else {
            i + 1
        };
        let b = if j < k {
            j
        } else {
            j + 1
        };
        assert(entries[a].0 != entries[b].0);
    }
    if id == entries[k].0 {
        assert forall|i: int| 0 <= i < rest.len() implies (#[trigger] rest[i]).0 != id by {
            if i < k {
                assert(entries[i].0 != entries[k].0);
            } else {
                assert(entries[k].0 != entries[i + 1].0);
            }
        }
        lemma_lookup_miss(rest, id);
    } else if exists|i: int| 0 <= i < entries.len() && (#[trigger] entries[i]).0 == id {
        let i = choose|i: int| 0 <= i < entries.len() && (#[trigger] entries[i]).0 == id;
        lemma_lookup_hit(entries, id, i);
        let a = if i < k {
            i
        } else {
            i - 1
        };
        assert(rest[a] == entries[i]);
        lemma_lookup_hit(rest, id, a);
    } else {
        lemma_lookup_miss(entries, id);
        assert forall|i: int| 0 <= i < rest.len() implies (#[trigger] rest[i]).0 != id by {
            let a = if i < k {
                i
            } else {
                i + 1
            };
            assert(entries[a].0 != id);
        }
        lemma_lookup_miss(rest, id);
    }
}

/// The number that follows a number; numbers begin anew after the greatest.
pub open spec fn next_number(n: u64) -> u64 {
    if n == u64::MAX {
        0
    } else {
        (n + 1) as u64
    }
}

impl<T> Clients<T> {
    #[verifier::type_invariant]
    spec fn well_formed(self) -> bool {
        distinct(self.entries@)
    }

    /// The number that the next connection gets.
    pub closed spec fn upcoming(&self) -> u64 {
        self.next
    }

    /// No connections; the first gets the number 1.
    pub fn new() -> (r: Self)
        ensures
            r@ == Map::<u64, T>::empty(),
            r.upcoming() == 1,
    {
        let r = Clients { entries: Vec::new(), next: 1 };
        assert(r@ =~= Map::<u64, T>::empty());
        r
    }

    fn position(&self, id: u64) -> (r: Option<usize>)
        ensures
            match r {
                Some(i) => i < self.entries@.len() && self.entries@[i as int].0 == id,
                None => forall|i: int|
                    0 <= i < self.entries@.len() ==> (#[trigger] self.entries@[i]).0 != id,
            },
    {
        let mut i: usize = 0;
        while i < self.entries.len()
            invariant
                i <= self.entries@.len(),
                forall|j: int| 0 <= j < i ==> (#[trigger] self.entries@[j]).0 != id,
            decreases self.entries@.len() - i,
        {
            if self.entries[i].0 == id {
                return Some(i);
            }
            i += 1;
        }
        None
    }

    /// Takes a connection out.
    pub fn forget(&mut self, id: u64)
        ensures
            final(self)@ == old(self)@.remove(id),
            final(self).upcoming() == old(self).upcoming(),
    {
        proof {
            use_type_invariant(&*self);
        }
        let ghost before = self.entries@;
        match self.position(id) {
            Some(k) => {
                let mut entries: Vec<(u64, T)> = Vec::new();
                std::mem::swap(&mut entries, &mut self.entries);
                entries.remove(k);
                proof {
                    assert forall|q: u64| #[trigger] lookup(entries@, q) == (if q == id {
                        None
                    } else {
                        lookup(before, q)
                    }) by {
                        lemma_removed(before, k as int, q);
                    }
                    lemma_removed(before, k as int, id);
                }
                self.entries = entries;
            },
            None => {
                proof {
                    lemma_lookup_miss(before, id);
                }
            },
        }
        assert(self@ =~= old(self)@.remove(id));
    }

    /// Adds a connection and tells its number.
    pub fn track(&mut self, client: T) -> (r: u64)
        ensures
            r == old(self).upcoming(),
            final(self)@ == old(self)@.insert(r, client),
            final(self).upcoming() == next_number(r),
    {
        let id: u64 = self.next;
        self.forget(id);
        proof {
            use_type_invariant(&*self);
        }
        let ghost gone = self@;
        let ghost before = self.entries@;
        assert(gone =~= old(self)@.remove(id));
        assert(!gone.contains_key(id));
        let mut entries: Vec<(u64, T)> = Vec::new();
        std::mem::swap(&mut entries, &mut self.entries);
        entries.push((id, client));
        proof {
            let after = entries@;
            assert(after.drop_last() =~= before);
            assert forall|i: int, j: int| 0 <= i < j < after.len() implies (#[trigger] after[i]).0
                != (#[trigger] after[j]).0 by {
                if j == before.len() {
                    if before[i].0 == id {
                        lemma_lookup_hit(before, id, i);
                        assert(gone.contains_key(id));
                    }
                } else {
                    assert(before[i].0 != before[j].0);
                }
            }
            assert forall|q: u64| #[trigger] lookup(after, q) == (if q == id {
                Some(client)
            } else {
                lookup(before, q)
            }) by {
                assert(after.last() == (id, client));
            }
        }
        self.entries = entries;
        self.next =
        if id == u64::MAX {
            0
        } else {
            id + 1
        };
        assert(self@ =~= gone.insert(id, client));
        assert(gone.insert(id, client) =~= old(self)@.insert(id, client));
        id
    }

    /// Takes all connections out and hands them over.
    pub fn drain(&mut self) -> (r: Vec<T>)
        ensures
            final(self)@ == Map::<u64, T>::empty(),
            final(self).upcoming() == old(self).upcoming(),
            forall|i: int| 0 <= i < r@.len() ==> old(self)@.contains_value(#[trigger] r@[i]),
            forall|id: u64| old(self)@.contains_key(id) ==> r@.contains(#[trigger] old(self)@[id]),
            old(self)@.dom().finite(),
            r@.len() == old(self)@.dom().len(),
    {
        proof {
            use_type_invariant(&*self);
        }
        let ghost all = self.entries@;
        let mut entries: Vec<(u64, T)> = Vec::new();
        std::mem::swap(&mut entries, &mut self.entries);
        assert(self@ =~= Map::<u64, T>::empty());
        let mut out: Vec<T> = Vec::new();
        while entries.len() > 0
            invariant
                entries@ == all.take(entries@.len() as int),
                entries@.len() <= all.len(),
                out@.len() == all.len() - entries@.len(),
                forall|i: int|
                    0 <= i < out@.len() ==> #[trigger] out@[i] == all[all.len() - 1 - i].1,
            decreases entries@.len(),
        {
            let ghost n = entries@.len();
            let last = entries.pop();
            if let Some((_, client)) = last {
                out.push(client);
            }
            assert(entries@ =~= all.take(n - 1));
        }
        proof {
            let map = old(self)@;
            assert forall|i: int| 0 <= i < out@.len() implies map.contains_value(
                #[trigger] out@[i],
            ) by {
                let k = all.len() - 1 - i;
                lemma_lookup_hit(all, all[k].0, k);
                assert(map.contains_key(all[k].0) && map[all[k].0] == out@[i]);
            }
            assert forall|id: u64| map.contains_key(id) implies out@.contains(
                #[trigger] map[id],
            ) by {
                if forall|i: int| 0 <= i < all.len() ==> (#[trigger] all[i]).0 != id {
                    lemma_lookup_miss(all, id);
                }
                let k = choose|k: int| 0 <= k < all.len() && (#[trigger] all[k]).0 == id;
                lemma_lookup_hit(all, id, k);
                assert(out@[all.len() - 1 - k] == map[id]);
            }
            lemma_domain(all);
            assert(map.dom() =~= ids(all).to_set());
            lemma_domain_size(all);
        }
        out
    }
}

spec fn ids<T>(entries: Seq<(u64, T)>) -> Seq<u64> {
    entries.map_values(|e: (u64, T)| e.0)
}

proof fn lemma_domain<T>(entries: Seq<(u64, T)>)
    requires
        distinct(entries),
    ensures
        forall|id: u64| lookup(entries, id) is Some <==> #[trigger] ids(entries).contains(id),
{
    assert forall|id: u64| lookup(entries, id) is Some <==> #[trigger] ids(entries).contains(
        id,
    ) by {
        if ids(entries).contains(id) {
            let k = choose|k: int| 0 <= k < ids(entries).len() && ids(entries)[k] == id;
            assert(entries[k].0 == id);
            lemma_lookup_hit(entries, id, k);
        } else {
            assert forall|i: int| 0 <= i < entries.len() implies (#[trigger] entries[i]).0 != id by {
                if entries[i].0 == id {
                    assert(ids(entries)[i] == id);
                }
            }
            lemma_lookup_miss(entries, id);
        }
    }
}

proof fn lemma_domain_size<T>(entries: Seq<(u64, T)>)
    requires
        distinct(entries),
    ensures
        ids(entries).to_set().finite(),
        ids(entries).to_set().len() == entries.len(),
{
    let list = ids(entries);
    assert(list.no_duplicates()) by {
        assert forall|i: int, j: int| 0 <= i < j < list.len() implies list[i] != list[j] by {
            assert(entries[i].0 != entries[j].0);
        }
    }
    list.unique_seq_to_set();
}

// ---------------------------------------------------------------------------
// What the proxy tells
// ---------------------------------------------------------------------------
/// What the proxy tells of itself.
#[derive(Debug)]
pub enum ServiceEvent {
    Listening { listen: String },
    Stopped,
    Failed { error: String },
    NotTracked { peer: String, error: String },
    ConnectionFailed { peer: String, error: String },
    NoConnectionThread { peer: String, error: String },
}

/// The words of an event of the proxy.
pub open spec fn service_text(event: ServiceEvent) -> Seq<char> {
    match event {
        ServiceEvent::Listening { listen } => "正在监听 "@ + listen@,
        ServiceEvent::Stopped => "代理已停止"@,
        ServiceEvent::Failed { error } => "启动失败："@ + error@,
        ServiceEvent::NotTracked { peer, error } => "无法跟踪代理连接 "@ + peer@ + "："@
            + error@,
        ServiceEvent::ConnectionFailed { peer, error } => "代理连接 "@ + peer@ + " 出错："@
            + error@,
        ServiceEvent::NoConnectionThread { peer, error } => "无法启动代理连接线程 "@ + peer@
            + "："@ + error@,
    }
}

fn about_peer(start: &str, peer: &str, between: &str, error: &str) -> (r: String)
    ensures
        r@ == start@ + peer@ + between@ + error@,
{
    let mut out = start.to_owned();
    out.append(peer);
    out.append(between);
    out.append(error);
    out
}

impl ServiceEvent {
    /// The words of the event.
    pub fn message(&self) -> (r: String)
        ensures
            r@ == service_text(*self),
    {
        match self {
            ServiceEvent::Listening { listen } => {
                let mut out = "正在监听 ".to_owned();
                out.append(listen.as_str());
                out
            },
            ServiceEvent::Stopped => "代理已停止".to_owned(),
            ServiceEvent::Failed { error } => {
                let mut out = "启动失败：".to_owned();
                out.append(error.as_str());
                out
            },
            ServiceEvent::NotTracked { peer, error } => about_peer(
                "无法跟踪代理连接 ",
                peer.as_str(),
                "：",
                error.as_str(),
            ),
            ServiceEvent::ConnectionFailed { peer, error } => about_peer(
                "代理连接 ",
                peer.as_str(),
                " 出错：",
                error.as_str(),
            ),
            ServiceEvent::NoConnectionThread { peer, error } => about_peer(
                "无法启动代理连接线程 ",
                peer.as_str(),
                "：",
                error.as_str(),
            ),
        }
    }

    /// The event for the user interface: the state of the proxy, or an error of a connection.
    pub fn event(&self) -> (r: UiEvent)
        ensures
            match *self {
                ServiceEvent::Listening { .. } => r matches UiEvent::ProxyStatus { running, detail }
                    && running && detail@ == service_text(*self),
                ServiceEvent::Stopped => r matches UiEvent::ProxyStatus { running, detail }
                    && !running && detail@ == service_text(*self),
                ServiceEvent::Failed { .. } => r matches UiEvent::ProxyStatus { running, detail }
                    && !running && detail@ == service_text(*self),
                _ => r matches UiEvent::Error(message) && message@ == service_text(*self),
            },
    {
        let detail = self.message();
        match self {
            ServiceEvent::Listening { .. } => UiEvent::ProxyStatus { running: true, detail },
            ServiceEvent::Stopped => UiEvent::ProxyStatus { running: false, detail },
            ServiceEvent::Failed { .. } => UiEvent::ProxyStatus { running: false, detail },
            _ => UiEvent::Error(detail),
        }
    }
}

/// A connection that is tracked is there under its number until it is forgotten, and forgetting it
/// leaves the others; the numbers go up one by one.
pub proof fn law_tracked_connections_are_there<T>(
    clients: &mut Clients<T>,
    client: T,
    r: u64,
    other: u64,
)
    requires
        call_ensures(Clients::<T>::track, (clients, client), r),
        other != r,
    ensures
        final(clients)@.contains_key(r),
        final(clients)@[r] == client,
        final(clients)@.contains_key(other) == old(clients)@.contains_key(other),
        old(clients)@.contains_key(other) ==> final(clients)@[other] == old(clients)@[other],
        r == old(clients).upcoming(),
        r < u64::MAX ==> final(clients).upcoming() == r + 1,
{
}

/// Forgetting a connection takes it out, and only it.
pub proof fn law_forgotten_connection_is_gone<T>(clients: &mut Clients<T>, id: u64, other: u64)
    requires
        call_ensures(Clients::<T>::forget, (clients, id), ()),
        other != id,
    ensures
        !final(clients)@.contains_key(id),
        final(clients)@.contains_key(other) == old(clients)@.contains_key(other),
        old(clients)@.contains_key(other) ==> final(clients)@[other] == old(clients)@[other],
{
}

/// What the service tells of itself, where it tells of an error, ends with the error.
pub proof fn law_service_passes_errors_on(event: ServiceEvent)
    ensures
        event matches ServiceEvent::Failed { error } ==> is_suffix(error@, service_text(event)),
        event matches ServiceEvent::NotTracked { peer: _, error } ==> is_suffix(
            error@,
            service_text(event),
        ),
        event matches ServiceEvent::ConnectionFailed { peer: _, error } ==> is_suffix(
            error@,
            service_text(event),
        ),
        event matches ServiceEvent::NoConnectionThread { peer: _, error } ==> is_suffix(
            error@,
            service_text(event),
        ),
        event matches ServiceEvent::Listening { listen } ==> is_suffix(listen@, service_text(event)),
{
    let s = service_text(event);
    match event {
        ServiceEvent::Failed { error } => {
            assert(s.subrange(s.len() - error@.len(), s.len() as int) =~= error@);
        },
        ServiceEvent::NotTracked { peer: _, error } => {
            assert(s.subrange(s.len() - error@.len(), s.len() as int) =~= error@);
        },
        ServiceEvent::ConnectionFailed { peer: _, error } => {
            assert(s.subrange(s.len() - error@.len(), s.len() as int) =~= error@);
        },
        ServiceEvent::NoConnectionThread { peer: _, error } => {
            assert(s.subrange(s.len() - error@.len(), s.len() as int) =~= error@);
        },
        ServiceEvent::Listening { listen } => {
            assert(s.subrange(s.len() - listen@.len(), s.len() as int) =~= listen@);
        },
        ServiceEvent::Stopped => {},
    }
}

/// Draining hands every connection out and keeps none; the numbers go on.
pub proof fn law_drained_connections_are_handed_out<T>(
    clients: &mut Clients<T>,
    r: Vec<T>,
    id: u64,
)
    requires
        call_ensures(Clients::<T>::drain, (clients,), r),
    ensures
        final(clients)@.dom().len() == 0,
        !final(clients)@.contains_key(id),
        old(clients)@.contains_key(id) ==> r@.contains(old(clients)@[id]),
        r@.len() == old(clients)@.dom().len(),
        final(clients).upcoming() == old(clients).upcoming(),
{
    assert(final(clients)@.dom() =~= Set::<u64>::empty());
}

/// The service tells that it runs exactly while it listens, and of every other trouble as an error.
pub proof fn law_service_tells_how_it_is(event: &ServiceEvent, r: UiEvent)
    requires
        call_ensures(ServiceEvent::event, (event,), r),
    ensures
        *event is Listening ==> (r matches UiEvent::ProxyStatus { running, detail: _ } && running),
        *event is Stopped || *event is Failed ==> (r matches UiEvent::ProxyStatus {
            running,
            detail: _,
        } && !running),
        *event is NotTracked || *event is ConnectionFailed || *event is NoConnectionThread ==> r is Error,
{
}

} // verus!
