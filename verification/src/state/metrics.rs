use vstd::prelude::*;

verus! {

/// Counters kept by the server. Each counter is a 64-bit value that wraps
/// around on overflow.
pub struct AppMetrics {
    rooms_created: u64,
    rooms_deleted: u64,
    publish_total: u64,
    publish_send_errors: u64,
    replay_requests: u64,
    replayed_events: u64,
    lagged_receives: u64,
    connections_opened: u64,
    connections_closed: u64,
}

/// A copy of every counter, taken at one moment.
#[derive(Clone, Copy, Debug)]
pub struct AppMetricsSnapshot {
    pub rooms_created: u64,
    pub rooms_deleted: u64,
    pub publish_total: u64,
    pub publish_send_errors: u64,
    pub replay_requests: u64,
    pub replayed_events: u64,
    pub lagged_receives: u64,
    pub connections_opened: u64,
    pub connections_closed: u64,
}

/// A counter after `n` more increments: the sum modulo 2^64.
pub open spec fn counter_add(x: u64, n: nat) -> u64 {
    ((x + n) % 0x1_0000_0000_0000_0000) as u64
}

/// The snapshot in which every counter is zero.
pub open spec fn zero_snapshot() -> AppMetricsSnapshot {
    AppMetricsSnapshot {
        rooms_created: 0,
        rooms_deleted: 0,
        publish_total: 0,
        publish_send_errors: 0,
        replay_requests: 0,
        replayed_events: 0,
        lagged_receives: 0,
        connections_opened: 0,
        connections_closed: 0,
    }
}

impl View for AppMetrics {
    type V = AppMetricsSnapshot;

    closed spec fn view(&self) -> AppMetricsSnapshot {
        AppMetricsSnapshot {
            rooms_created: self.rooms_created,
            rooms_deleted: self.rooms_deleted,
            publish_total: self.publish_total,
            publish_send_errors: self.publish_send_errors,
            replay_requests: self.replay_requests,
            replayed_events: self.replayed_events,
            lagged_receives: self.lagged_receives,
            connections_opened: self.connections_opened,
            connections_closed: self.connections_closed,
        }
    }
}

/// `x.wrapping_add(n)` is `n` more increments of the counter `x`.
proof fn lemma_wrapping_add_is_counter_add(x: u64, n: u64)
    ensures
        vstd::wrapping::u64_specs::wrapping_add(x, n) == counter_add(x, n as nat),
{
}

/// Increments of a counter add up.
pub proof fn lemma_counter_add_add(x: u64, a: nat, b: nat)
    ensures
        counter_add(counter_add(x, a), b) == counter_add(x, a + b),
{
    let m: int = 0x1_0000_0000_0000_0000;
    assert(((x + a) % m + b) % m == (x + a + b) % m) by {
        vstd::arithmetic::div_mod::lemma_add_mod_noop((x + a) % m, b as int, m);
    }
}

/// No increment leaves a counter as it was.
pub proof fn lemma_counter_add_zero(x: u64)
    ensures
        counter_add(x, 0) == x,
{
    vstd::arithmetic::div_mod::lemma_small_mod(x as nat, 0x1_0000_0000_0000_0000);
}

/// Adds `n` to a counter, wrapping around as an atomic `fetch_add` does.
fn bump(x: u64, n: u64) -> (r: u64)
    ensures
        r == counter_add(x, n as nat),
{
    proof {
        lemma_wrapping_add_is_counter_add(x, n);
    }
    x.wrapping_add(n)
}

impl Default for AppMetrics {
    fn default() -> (m: Self)
        ensures
            m@ == zero_snapshot(),
    {
        AppMetrics {
            rooms_created: 0,
            rooms_deleted: 0,
            publish_total: 0,
            publish_send_errors: 0,
            replay_requests: 0,
            replayed_events: 0,
            lagged_receives: 0,
            connections_opened: 0,
            connections_closed: 0,
        }
    }
}

impl AppMetrics {
    pub fn inc_room_created(&mut self)
        ensures
            final(self)@ == (AppMetricsSnapshot {
                rooms_created: counter_add(old(self)@.rooms_created, 1),
                ..old(self)@
            }),
    {
        self.rooms_created = bump(self.rooms_created, 1);
    }

    pub fn add_rooms_deleted(&mut self, count: u64)
        ensures
            final(self)@ == (AppMetricsSnapshot {
                rooms_deleted: counter_add(old(self)@.rooms_deleted, count as nat),
                ..old(self)@
            }),
    {
        self.rooms_deleted = bump(self.rooms_deleted, count);
    }

    pub fn inc_publish(&mut self)
        ensures
            final(self)@ == (AppMetricsSnapshot {
                publish_total: counter_add(old(self)@.publish_total, 1),
                ..old(self)@
            }),
    {
        self.publish_total = bump(self.publish_total, 1);
    }

    pub fn inc_publish_send_error(&mut self)
        ensures
            final(self)@ == (AppMetricsSnapshot {
                publish_send_errors: counter_add(old(self)@.publish_send_errors, 1),
                ..old(self)@
            }),
    {
        self.publish_send_errors = bump(self.publish_send_errors, 1);
    }

    pub fn inc_replay_request(&mut self)
        ensures
            final(self)@ == (AppMetricsSnapshot {
                replay_requests: counter_add(old(self)@.replay_requests, 1),
                ..old(self)@
            }),
    {
        self.replay_requests = bump(self.replay_requests, 1);
    }

    pub fn add_replayed_events(&mut self, count: u64)
        ensures
            final(self)@ == (AppMetricsSnapshot {
                replayed_events: counter_add(old(self)@.replayed_events, count as nat),
                ..old(self)@
            }),
    {
        self.replayed_events = bump(self.replayed_events, count);
    }

    pub fn inc_lagged_receive(&mut self)
        ensures
            final(self)@ == (AppMetricsSnapshot {
                lagged_receives: counter_add(old(self)@.lagged_receives, 1),
                ..old(self)@
            }),
    {
        self.lagged_receives = bump(self.lagged_receives, 1);
    }

    pub fn inc_connection_opened(&mut self)
        ensures
            final(self)@ == (AppMetricsSnapshot {
                connections_opened: counter_add(old(self)@.connections_opened, 1),
                ..old(self)@
            }),
    {
        self.connections_opened = bump(self.connections_opened, 1);
    }

    pub fn inc_connection_closed(&mut self)
        ensures
            final(self)@ == (AppMetricsSnapshot {
                connections_closed: counter_add(old(self)@.connections_closed, 1),
                ..old(self)@
            }),
    {
        self.connections_closed = bump(self.connections_closed, 1);
    }

    /// Reads every counter.
    pub fn snapshot(&self) -> (s: AppMetricsSnapshot)
        ensures
            s == self@,
    {
        AppMetricsSnapshot {
            rooms_created: self.rooms_created,
            rooms_deleted: self.rooms_deleted,
            publish_total: self.publish_total,
            publish_send_errors: self.publish_send_errors,
            replay_requests: self.replay_requests,
            replayed_events: self.replayed_events,
            lagged_receives: self.lagged_receives,
            connections_opened: self.connections_opened,
            connections_closed: self.connections_closed,
        }
    }
}

} // verus!
