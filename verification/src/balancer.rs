use core::time::Duration;
use load_balancer::LoadBalancer;
use load_balancer::time::TimeLoadBalancer;
use vstd::prelude::*;

verus! {

/// The time-based load balancer of the `load_balancer` crate: each value may
/// be handed out again only once its interval has passed since it last was.
#[verifier::external_type_specification]
#[verifier::external_body]
#[verifier::reject_recursive_types(T)]
pub struct ExTimeLoadBalancer<T: Send + Sync + Clone + 'static>(TimeLoadBalancer<T>);

/// The values that a time-based balancer hands out, in the order that it tries
/// them.
pub uninterp spec fn time_balancer_values(lb: TimeLoadBalancer<usize>) -> Seq<usize>;

/// The intervals that a time-based balancer was made with, one per value, in
/// the same order: the least time between two hand-outs of that value.
pub uninterp spec fn time_balancer_intervals(lb: TimeLoadBalancer<usize>) -> Seq<Duration>;

/// `TimeLoadBalancer::new`: a balancer over the given `(interval, value)`
/// entries, which holds their values and their intervals in order.
#[verifier::external_body]
fn time_balancer_new(entries: Vec<(Duration, usize)>) -> (r: TimeLoadBalancer<usize>)
    ensures
        time_balancer_values(r) == entries@.map_values(|e: (Duration, usize)| e.1),
        time_balancer_intervals(r) == entries@.map_values(|e: (Duration, usize)| e.0),
{
    TimeLoadBalancer::new(entries)
}

/// `LoadBalancer::try_alloc` on a time-based balancer: a value whose interval
/// has passed, if one is free now. Which one comes back depends on the time
/// and on other users of the balancer; whatever comes back is one of its
/// values, and the values themselves do not change.
#[verifier::external_body]
fn time_balancer_try_alloc(lb: &TimeLoadBalancer<usize>) -> (r: Option<usize>)
    ensures
        r matches Some(v) ==> time_balancer_values(*lb).contains(v),
{
    LoadBalancer::try_alloc(lb)
}

/// A rate-limited choice among `size` entries, each of which may be chosen
/// again only once the interval has passed since it last was. Entries are
/// named by their index.
pub struct EntryBalancer {
    lb: TimeLoadBalancer<usize>,
    size: usize,
    interval: Duration,
}

/// `n` copies of `interval`.
pub open spec fn same_intervals(n: nat, interval: Duration) -> Seq<Duration> {
    Seq::new(n, |i: int| interval)
}

/// The indices `0 .. n`, in order.
pub open spec fn indices(n: nat) -> Seq<usize> {
    Seq::new(n, |i: int| i as usize)
}

impl EntryBalancer {
    #[verifier::type_invariant]
    spec fn holds_indices(self) -> bool {
        &&& time_balancer_values(self.lb) == indices(self.size as nat)
        &&& time_balancer_intervals(self.lb) == same_intervals(self.size as nat, self.interval)
    }

    /// The least time between two uses of one entry.
    pub closed spec fn spec_interval(self) -> Duration {
        self.interval
    }

    /// How many entries the balancer chooses among.
    pub closed spec fn spec_size(self) -> nat {
        self.size as nat
    }

    /// A balancer over `size` entries that share one interval.
    pub fn new(size: usize, interval: Duration) -> (r: Self)
        ensures
            r.spec_size() == size,
            r.spec_interval() == interval,
    {
        let mut entries: Vec<(Duration, usize)> = Vec::new();
        let mut i: usize = 0;
        while i < size
            invariant
                i <= size,
                entries@.map_values(|e: (Duration, usize)| e.1) =~= indices(i as nat),
                entries@.map_values(|e: (Duration, usize)| e.0) =~= same_intervals(
                    i as nat,
                    interval,
                ),
            decreases size - i,
        {
            let ghost before = entries@;
            entries.push((interval, i));
            assert(entries@.map_values(|e: (Duration, usize)| e.1) =~= before.map_values(
                |e: (Duration, usize)| e.1,
            ).push(i));
            assert(entries@.map_values(|e: (Duration, usize)| e.0) =~= before.map_values(
                |e: (Duration, usize)| e.0,
            ).push(interval));
            assert(entries@.map_values(|e: (Duration, usize)| e.1) =~= indices((i + 1) as nat));
            i = i + 1;
        }
        let lb = time_balancer_new(entries);
        EntryBalancer { lb, size, interval }
    }

    /// How many entries the balancer chooses among.
    pub fn len(&self) -> (r: usize)
        ensures
            r == self.spec_size(),
    {
        self.size
    }

    /// An entry that may be used now, if one may; it is always the index of
    /// an entry, and a balancer over no entry never gives one.
    pub fn try_pick(&self) -> (r: Option<usize>)
        ensures
            r matches Some(i) ==> i < self.spec_size(),
            self.spec_size() == 0 ==> r is None,
    {
        proof {
            use_type_invariant(self);
        }
        let r = time_balancer_try_alloc(&self.lb);
        proof {
            if let Some(v) = r {
                let k = choose|k: int| 0 <= k < indices(self.size as nat).len() && indices(
                    self.size as nat,
                )[k] == v;
                assert(indices(self.size as nat)[k] == k as usize);
            }
        }
        r
    }

    /// The underlying balancer, whose values are the indices `0 .. size`, each
    /// with the balancer's interval; its `alloc` waits until an entry may be
    /// used. It is handed out for `alloc` alone: its `update` would replace
    /// the entries that `time_balancer_values` and `time_balancer_intervals`
    /// name, and nothing in this crate calls it.
    pub fn time_balancer(&self) -> (r: &TimeLoadBalancer<usize>)
        ensures
            time_balancer_values(*r) == indices(self.spec_size()),
            time_balancer_intervals(*r) == same_intervals(self.spec_size(), self.spec_interval()),
    {
        proof {
            use_type_invariant(self);
        }
        &self.lb
    }
}

} // verus!
