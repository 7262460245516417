use vstd::prelude::*;

verus! {

/// Each port is smaller than every port after it.
pub open spec fn strictly_ascending(s: Seq<u16>) -> bool {
    forall|i: int, j: int| 0 <= i < j < s.len() ==> s[i] < s[j]
}

/// `q` lists exactly the ports of `ports`, in ascending order.
pub open spec fn is_report_of(q: Seq<u16>, ports: Set<u16>) -> bool {
    strictly_ascending(q) && q.to_set() == ports
}

/// The ports that accepted a connection, kept in ascending order without
/// repeats, whatever order they arrive in.
pub struct ResultSet {
    ports: Vec<u16>,
}

impl View for ResultSet {
    type V = Set<u16>;

    closed spec fn view(&self) -> Set<u16> {
        self.ports@.to_set()
    }
}

impl ResultSet {
    pub closed spec fn wf(&self) -> bool {
        strictly_ascending(self.ports@)
    }

    /// An empty set of results.
    pub fn new() -> (r: ResultSet)
        ensures
            r.wf(),
            r@ == Set::<u16>::empty(),
    {
        let r = ResultSet { ports: Vec::new() };
        proof {
            assert(r@ =~= Set::<u16>::empty());
        }
        r
    }

    /// The number of distinct ports recorded.
    pub fn len(&self) -> (r: usize)
        requires
            self.wf(),
        ensures
            r == self@.len(),
    {
        proof {
            lemma_ascending_no_duplicates(self.ports@);
            self.ports@.unique_seq_to_set();
        }
        self.ports.len()
    }

    /// Records that `port` accepted a connection; a port recorded twice is
    /// kept once.
    pub fn record(&mut self, port: u16)
        requires
            old(self).wf(),
        ensures
            final(self).wf(),
            final(self)@ == old(self)@.insert(port),
    {
        let n = self.ports.len();
        let mut i: usize = 0;
        while i < n && self.ports[i] < port
            invariant
                0 <= i <= n,
                n == self.ports@.len(),
                forall|j: int| 0 <= j < i ==> self.ports@[j] < port,
            decreases n - i,
        {
            i = i + 1;
        }
        if i < n && self.ports[i] == port {
            proof {
                assert(self@ =~= old(self)@.insert(port)) by {
                    assert(self.ports@.contains(port));
                }
            }
            return;
        }
        let ghost before = self.ports@;
        self.ports.insert(i, port);
        proof {
            before.insert_ensures(i as int, port);
            let after = self.ports@;
            assert forall|x: u16| after.contains(x) <==> before.contains(x) || x == port by {
                if after.contains(x) {
                    let k = choose|k: int| 0 <= k < after.len() && after[k] == x;
                    if k < i {
                        assert(before[k] == x);
                    } else if k > i {
                        assert(before[k - 1] == x);
                    }
                }
                if before.contains(x) {
                    let k = choose|k: int| 0 <= k < before.len() && before[k] == x;
                    if k < i {
                        assert(after[k] == x);
                    } else {
                        assert(after[k + 1] == x);
                    }
                }
                if x == port {
                    assert(after[i as int] == x);
                }
            }
            assert(self@ =~= old(self)@.insert(port));
            assert forall|a: int, b: int| 0 <= a < b < after.len() implies after[a] < after[b] by {
                if b < i {
                } else if b == i {
                } else if a < i {
                    assert(after[b] == before[b - 1]);
                    assert(before[i as int] > port);
                } else if a == i {
                    assert(after[b] == before[b - 1]);
                    assert(before[i as int] > port);
                } else {
                    assert(after[b] == before[b - 1]);
                    assert(after[a] == before[a - 1]);
                }
            }
        }
    }

    /// The results of a scan whose open ports arrived in the order `arrivals`.
    pub fn from_arrivals(arrivals: &Vec<u16>) -> (r: ResultSet)
        ensures
            r.wf(),
            r@ == arrivals@.to_set(),
    {
        let mut r = ResultSet::new();
        let mut k: usize = 0;
        while k < arrivals.len()
            invariant
                0 <= k <= arrivals@.len(),
                r.wf(),
                r@ == arrivals@.subrange(0, k as int).to_set(),
            decreases arrivals@.len() - k,
        {
            r.record(arrivals[k]);
            proof {
                assert(arrivals@.subrange(0, k + 1) =~= arrivals@.subrange(0, k as int).push(
                    arrivals@[k as int],
                ));
                arrivals@.subrange(0, k as int).lemma_push_to_set_commute(arrivals@[k as int]);
            }
            k = k + 1;
        }
        proof {
            assert(arrivals@.subrange(0, k as int) =~= arrivals@);
        }
        r
    }

    /// The recorded ports in ascending order, each once.
    pub fn into_sorted(self) -> (r: Vec<u16>)
        requires
            self.wf(),
        ensures
            is_report_of(r@, self@),
            r@.no_duplicates(),
            r@.len() == self@.len(),
    {
        proof {
            lemma_ascending_no_duplicates(self.ports@);
            self.ports@.unique_seq_to_set();
        }
        self.ports
    }
}

proof fn lemma_ascending_no_duplicates(s: Seq<u16>)
    requires
        strictly_ascending(s),
    ensures
        s.no_duplicates(),
{
    assert forall|i: int, j: int| 0 <= i < s.len() && 0 <= j < s.len() && i != j implies s[i]
        != s[j] by {
        if i < j {
            assert(s[i] < s[j]);
        } else {
            assert(s[j] < s[i]);
        }
    }
}

/// The final report depends only on which ports answered: two scans whose
/// open ports arrived in different orders, but make up the same set, report
/// the same list.
pub proof fn lemma_report_independent_of_arrival_order(
    a1: Seq<u16>,
    a2: Seq<u16>,
    q1: Seq<u16>,
    q2: Seq<u16>,
)
    requires
        a1.to_set() == a2.to_set(),
        is_report_of(q1, a1.to_set()),
        is_report_of(q2, a2.to_set()),
    ensures
        q1 == q2,
{
    lemma_ascending_no_duplicates(q1);
    lemma_ascending_no_duplicates(q2);
    q1.unique_seq_to_set();
    q2.unique_seq_to_set();
    if q1.len() > 0 {
        lemma_same_prefix(q1, q2, q1.len() - 1);
    }
    assert(q1 =~= q2);
}

/// Two ascending lists of the same ports agree on their first `i + 1` places.
proof fn lemma_same_prefix(q1: Seq<u16>, q2: Seq<u16>, i: int)
    requires
        strictly_ascending(q1),
        strictly_ascending(q2),
        q1.to_set() == q2.to_set(),
        q1.len() == q2.len(),
        0 <= i < q1.len(),
    ensures
        forall|k: int| 0 <= k <= i ==> q1[k] == q2[k],
    decreases i,
{
    if i > 0 {
        lemma_same_prefix(q1, q2, i - 1);
    }
    if q1[i] != q2[i] {
        lemma_first_difference(q1, q2, i);
        lemma_first_difference(q2, q1, i);
    }
}

/// Where two ascending lists of the same ports first differ, the first
/// list's port there is not smaller than the second's.
proof fn lemma_first_difference(q1: Seq<u16>, q2: Seq<u16>, i: int)
    requires
        strictly_ascending(q1),
        strictly_ascending(q2),
        q1.to_set() == q2.to_set(),
        0 <= i < q1.len(),
        i < q2.len(),
        forall|k: int| 0 <= k < i ==> q1[k] == q2[k],
    ensures
        q1[i] >= q2[i],
{
    assert(q1.to_set().contains(q1[i]));
    assert(q2.contains(q1[i]));
    let j = choose|j: int| 0 <= j < q2.len() && q2[j] == q1[i];
    if j < i {
        assert(q1[j] < q1[i]);
    } else if j > i {
        assert(q2[i] < q2[j]);
    }
}

/// A scan in which every port answers at most once reports each open port
/// exactly once: nothing is lost, nothing is repeated, and the report has
/// as many ports as arrived.
pub proof fn lemma_no_lost_or_duplicated(arrivals: Seq<u16>, q: Seq<u16>)
    requires
        arrivals.no_duplicates(),
        is_report_of(q, arrivals.to_set()),
    ensures
        q.len() == arrivals.len(),
        q.no_duplicates(),
        forall|p: u16| q.contains(p) <==> arrivals.contains(p),
{
    lemma_ascending_no_duplicates(q);
    q.unique_seq_to_set();
    arrivals.unique_seq_to_set();
    assert forall|p: u16| q.contains(p) <==> arrivals.contains(p) by {
        assert(q.to_set().contains(p) == q.contains(p));
        assert(arrivals.to_set().contains(p) == arrivals.contains(p));
    }
}

} // verus!
