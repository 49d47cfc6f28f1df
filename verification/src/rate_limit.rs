//! Per-client rate limiting over fixed windows.
//!
//! Each client address has a window that opens with its first request and
//! is one minute long, and a count of its requests in that window.  A
//! request that arrives after the window's end opens a new one.  Requests
//! count whether they are admitted or not.  Windows do not slide: a client
//! that spends its allowance at the end of one window has a new allowance
//! right after.

use crate::text::str_eq;
use vstd::prelude::*;

verus! {

/// The length of a window, in milliseconds.
pub const WINDOW_MILLIS: u64 = 60_000;

/// What the table knows of one client: how many requests it has made in its
/// current window, and when that window opened (in milliseconds).
pub struct Window {
    pub count: nat,
    pub start: nat,
}

struct RateEntry {
    client_ip: String,
    count: usize,
    window_start: u64,
}

/// The request counts of all clients seen so far.  Entries are made on a
/// client's first request and never removed.
pub struct RateLimitTable {
    entries: Vec<RateEntry>,
}

/// The window that a request at time `now` falls in: the client's recorded
/// window while that is still open, else a new one that starts at `now`.
pub open spec fn current_window(table: Map<Seq<char>, Window>, ip: Seq<char>, now: nat) -> Window {
    if table.dom().contains(ip) && now - table[ip].start < WINDOW_MILLIS {
        table[ip]
    } else {
        Window { count: 0, start: now }
    }
}

/// Whether a request of `ip` at time `now` is within the limit: it is when
/// there is no limit, or when fewer than `limit` requests came before it
/// in its window.
pub open spec fn admits(table: Map<Seq<char>, Window>, ip: Seq<char>, now: nat, limit: nat) -> bool {
    limit == 0 || current_window(table, ip, now).count < limit
}

/// A count with one request more.  The count stops at `usize::MAX`; a
/// count that high is over every limit, so no request is admitted for it.
pub open spec fn counted(count: nat) -> nat {
    if count < usize::MAX {
        count + 1
    } else {
        count
    }
}

/// The table after a request of `ip` at time `now`.  With no limit set
/// nothing is recorded; else the request is counted in its window,
/// admitted or not, and no other client's entry changes.
pub open spec fn record(table: Map<Seq<char>, Window>, ip: Seq<char>, now: nat, limit: nat) -> Map<
    Seq<char>,
    Window,
> {
    if limit == 0 {
        table
    } else {
        let w = current_window(table, ip, now);
        table.insert(ip, Window { count: counted(w.count), start: w.start })
    }
}

/// The table after the requests of `ip` made at `times`, in that order.
pub open spec fn after_requests(
    table: Map<Seq<char>, Window>,
    ip: Seq<char>,
    times: Seq<nat>,
    limit: nat,
) -> Map<Seq<char>, Window>
    decreases times.len(),
{
    if times.len() == 0 {
        table
    } else {
        record(after_requests(table, ip, times.drop_last(), limit), ip, times.last(), limit)
    }
}

impl RateEntry {
    spec fn window(self) -> Window {
        Window { count: self.count as nat, start: self.window_start as nat }
    }
}

spec fn holds(entries: Seq<RateEntry>, ip: Seq<char>, i: int) -> bool {
    0 <= i < entries.len() && entries[i].client_ip@ == ip
}

impl View for RateLimitTable {
    type V = Map<Seq<char>, Window>;

    closed spec fn view(&self) -> Map<Seq<char>, Window> {
        Map::new(
            |ip: Seq<char>| exists|i: int| holds(self.entries@, ip, i),
            |ip: Seq<char>| self.entries@[choose|i: int| holds(self.entries@, ip, i)].window(),
        )
    }
}

impl RateLimitTable {
    /// Each client has one entry.
    pub closed spec fn wf(&self) -> bool {
        forall|i: int, j: int|
            0 <= i < j < self.entries@.len() ==> self.entries@[i].client_ip@
                != self.entries@[j].client_ip@
    }

    /// A table that has seen no client.
    pub fn new() -> (table: RateLimitTable)
        ensures
            table.wf(),
            table@ == Map::<Seq<char>, Window>::empty(),
    {
        let table = RateLimitTable { entries: Vec::new() };
        assert(table@ =~= Map::<Seq<char>, Window>::empty());
        table
    }

    fn position(&self, client_ip: &str) -> (at: Option<usize>)
        ensures
            match at {
                Some(i) => holds(self.entries@, client_ip@, i as int),
                None => forall|i: int| !holds(self.entries@, client_ip@, i),
            },
    {
        let mut i: usize = 0;
        while i < self.entries.len()
            invariant
                i <= self.entries.len(),
                forall|j: int| 0 <= j < i ==> !holds(self.entries@, client_ip@, j),
            decreases self.entries.len() - i,
        {
            if str_eq(self.entries[i].client_ip.as_str(), client_ip) {
                return Some(i);
            }
            i += 1;
        }
        None
    }

    /// The entry of a client is the one that the view shows.
    proof fn lemma_view_at(&self, ip: Seq<char>, i: int)
        requires
            self.wf(),
            holds(self.entries@, ip, i),
        ensures
            self@.dom().contains(ip),
            self@[ip] == self.entries@[i].window(),
    {
        let j = choose|j: int| holds(self.entries@, ip, j);
        assert(j == i);
    }

    /// What the table holds of `client_ip`: the number of requests counted
    /// in its window and the time the window opened; `None` for a client
    /// that was never counted.
    pub fn window_of(&self, client_ip: &str) -> (window: Option<(usize, u64)>)
        requires
            self.wf(),
        ensures
            window.is_some() == self@.dom().contains(client_ip@),
            window matches Some(w) ==> self@[client_ip@] == (Window {
                count: w.0 as nat,
                start: w.1 as nat,
            }),
    {
        match self.position(client_ip) {
            Some(i) => {
                proof {
                    self.lemma_view_at(client_ip@, i as int);
                }
                Some((self.entries[i].count, self.entries[i].window_start))
            },
            None => None,
        }
    }

    /// Counts a request of `client_ip` made at `now` (milliseconds on a
    /// clock that does not run backwards) and says whether it is within
    /// `limit` requests per window.  A `limit` of 0 means no limit.
    pub fn is_allowed(&mut self, client_ip: &str, now: u64, limit: usize) -> (allowed: bool)
        requires
            old(self).wf(),
        ensures
            final(self).wf(),
            allowed == admits(old(self)@, client_ip@, now as nat, limit as nat),
            final(self)@ == record(old(self)@, client_ip@, now as nat, limit as nat),
    {
        if limit == 0 {
            return true;
        }
        let ghost ip = client_ip@;
        let ghost before = *self;
        let found = self.position(client_ip);
        let at = match found {
            Some(i) => i,
            None => {
                self.entries.push(
                    RateEntry { client_ip: client_ip.to_owned(), count: 0, window_start: now },
                );
                self.entries.len() - 1
            },
        };
        let ghost listed = *self;
        proof {
            assert(holds(listed.entries@, ip, at as int));
            assert forall|i: int, j: int| 0 <= i < j < listed.entries@.len() implies listed.entries@[i].client_ip@
                != listed.entries@[j].client_ip@ by {
                if found.is_none() {
                    if j == before.entries@.len() {
                        assert(!holds(before.entries@, ip, i));
                    }
                    assert(listed.entries@[i] == before.entries@[i]);
                }
            }
            listed.lemma_view_at(ip, at as int);
            if found.is_some() {
                before.lemma_view_at(ip, at as int);
            } else {
                assert(!before@.dom().contains(ip));
            }
        }
        let entry = &mut self.entries[at];
        if now >= entry.window_start && now - entry.window_start >= WINDOW_MILLIS {
            entry.count = 0;
            entry.window_start = now;
        }
        let allowed = entry.count < limit;
        if entry.count < usize::MAX {
            entry.count += 1;
        }
        proof {
            let w = current_window(before@, ip, now as nat);
            let done = *self;
            assert(done.entries@.len() == listed.entries@.len());
            assert(forall|k: int|
                0 <= k < done.entries@.len() ==> done.entries@[k].client_ip
                    == listed.entries@[k].client_ip);
            assert(forall|k: int|
                0 <= k < done.entries@.len() && k != at ==> done.entries@[k]
                    == listed.entries@[k]);
            assert(done.wf());
            done.lemma_view_at(ip, at as int);
            assert(done.entries@[at as int].window() == Window {
                count: counted(w.count),
                start: w.start,
            });
            let target = record(before@, ip, now as nat, limit as nat);
            assert forall|other: Seq<char>| done@.dom().contains(other) <==> target.dom().contains(
                other,
            ) by {
                if done@.dom().contains(other) && other != ip {
                    let k = choose|k: int| holds(done.entries@, other, k);
                    assert(holds(before.entries@, other, k));
                }
                if before@.dom().contains(other) {
                    let k = choose|k: int| holds(before.entries@, other, k);
                    assert(holds(done.entries@, other, k));
                }
            }
            assert forall|other: Seq<char>| done@.dom().contains(other) implies done@[other]
                == target[other] by {
                if other != ip {
                    let k = choose|k: int| holds(done.entries@, other, k);
                    assert(holds(before.entries@, other, k));
                    done.lemma_view_at(other, k);
                    before.lemma_view_at(other, k);
                }
            }
            assert(done@ =~= target);
        }
        allowed
    }
}

/// The count of a window is the number of requests made in it.  When a
/// client's requests begin a new window and all fall within it, the table
/// then holds their number against the time of the first, and with a limit
/// set exactly the first `limit` of them are admitted.
pub proof fn lemma_window_admits_limit(
    table: Map<Seq<char>, Window>,
    ip: Seq<char>,
    times: Seq<nat>,
    limit: nat,
)
    requires
        limit > 0,
        0 < times.len() <= usize::MAX,
        !table.dom().contains(ip) || times[0] - table[ip].start >= WINDOW_MILLIS,
        forall|k: int| 0 <= k < times.len() ==> times[0] <= #[trigger] times[k] < times[0] + WINDOW_MILLIS,
    ensures
        after_requests(table, ip, times, limit).dom().contains(ip),
        after_requests(table, ip, times, limit)[ip] == (Window {
            count: times.len(),
            start: times[0],
        }),
        forall|k: int|
            0 <= k < times.len() ==> (#[trigger] admits(
                after_requests(table, ip, times.take(k), limit),
                ip,
                times[k],
                limit,
            ) <==> k < limit),
    decreases times.len(),
{
    let earlier = times.drop_last();
    if times.len() > 1 {
        assert(earlier[0] == times[0]);
        assert forall|k: int| 0 <= k < earlier.len() implies times[0] <= #[trigger] earlier[k]
            < times[0] + WINDOW_MILLIS by {
            assert(earlier[k] == times[k]);
        }
        lemma_window_admits_limit(table, ip, earlier, limit);
    }
    let reached = after_requests(table, ip, earlier, limit);
    let last = times.last();
    assert(times[0] <= times[times.len() - 1] < times[0] + WINDOW_MILLIS);
    if times.len() == 1 {
        assert(reached == table);
        assert(current_window(reached, ip, last) == Window { count: 0, start: last });
    } else {
        assert(current_window(reached, ip, last) == reached[ip]);
    }
    assert(after_requests(table, ip, times, limit) == record(reached, ip, last, limit));
    assert forall|k: int| 0 <= k < times.len() implies (#[trigger] admits(
        after_requests(table, ip, times.take(k), limit),
        ip,
        times[k],
        limit,
    ) <==> k < limit) by {
        if k == times.len() - 1 {
            assert(times.take(k) =~= earlier);
        } else {
            assert(times.take(k) =~= earlier.take(k));
            assert(earlier[k] == times[k]);
        }
    }
}

/// A minute after a client's window opened its allowance is whole again:
/// with a limit set, the next request is admitted and opens a new window.
pub proof fn lemma_allowed_after_window(
    table: Map<Seq<char>, Window>,
    ip: Seq<char>,
    now: nat,
    limit: nat,
)
    requires
        limit > 0,
        table.dom().contains(ip),
        now - table[ip].start >= WINDOW_MILLIS,
    ensures
        admits(table, ip, now, limit),
        record(table, ip, now, limit)[ip] == (Window { count: 1, start: now }),
{
}

/// Counting one client's request changes no other client's entry, and
/// takes no entry away.
pub proof fn lemma_other_clients_untouched(
    table: Map<Seq<char>, Window>,
    ip: Seq<char>,
    now: nat,
    limit: nat,
    other: Seq<char>,
)
    requires
        other != ip,
    ensures
        record(table, ip, now, limit).dom().contains(other) == table.dom().contains(other),
        table.dom().contains(other) ==> record(table, ip, now, limit)[other] == table[other],
        table.dom().subset_of(record(table, ip, now, limit).dom()),
{
}

} // verus!
