use vstd::prelude::*;
use crate::table::{Table, TableKey, assoc_insert, assoc_lookup, has_key, keys_unique, lemma_insert_keys, lemma_insert_lookup, lemma_insert_unique};

verus! {

/// The key of a flow: source and destination prefixes (addresses as
/// big-endian `u32`) with their lengths.
#[derive(Clone, Copy, PartialEq, Eq, Structural, Debug, Hash)]
pub struct FlowKey {
    pub src_prefix: u32,
    pub src_prefix_len: u8,
    pub dst_prefix: u32,
    pub dst_prefix_len: u8,
}

impl TableKey for FlowKey {
    fn same_key(&self, other: &Self) -> (b: bool) {
        self.src_prefix == other.src_prefix && self.src_prefix_len == other.src_prefix_len
            && self.dst_prefix == other.dst_prefix && self.dst_prefix_len == other.dst_prefix_len
    }
}

/// A flow: traffic with this key goes to next hop `nh`.
pub struct Flow {
    pub flow_key: FlowKey,
    pub nh: String,
}

impl View for Flow {
    type V = (FlowKey, Seq<char>);

    open spec fn view(&self) -> (FlowKey, Seq<char>) {
        (self.flow_key, self.nh@)
    }
}

impl Flow {
    /// A copy of the flow.
    pub fn duplicate(&self) -> (f: Flow)
        ensures
            f@ == self@,
    {
        Flow { flow_key: self.flow_key, nh: self.nh.clone() }
    }
}

/// What one partition reports: how long it took from its first flow to its
/// latest one (nanoseconds), how many flows it was given, and its number.
#[derive(Clone, Copy, PartialEq, Eq, Structural, Debug)]
pub struct FlowTableStats {
    pub duration: u128,
    pub counter: u32,
    pub partition: i16,
}

/// One partition of an agent's flow table: the flows whose key hashes to
/// it, with a counter of the flows it was given and the time between the
/// first and the latest of them.
pub struct FlowTablePartition {
    partition: i16,
    name: String,
    flow_table: Table<FlowKey>,
    flow_counter: u32,
    timer: u128,
    duration: u128,
}

impl FlowTablePartition {
    /// The flows held, in the order in which their keys first came.
    pub closed spec fn flows_view(&self) -> Seq<(FlowKey, Seq<char>)> {
        self.flow_table@
    }

    /// How many flows were added (replacements included).
    pub closed spec fn counter(&self) -> u32 {
        self.flow_counter
    }

    /// The time (nanoseconds) of the first flow added, or of creation while
    /// none was.
    pub closed spec fn timer(&self) -> u128 {
        self.timer
    }

    /// The time between the first flow and the latest one (nanoseconds).
    pub closed spec fn duration_view(&self) -> u128 {
        self.duration
    }

    /// The partition's number.
    pub closed spec fn partition_view(&self) -> i16 {
        self.partition
    }

    /// The name of the agent that owns the partition.
    pub closed spec fn name_view(&self) -> Seq<char> {
        self.name@
    }

    /// The partition is well formed: no flow key occurs twice.
    pub open spec fn wf(&self) -> bool {
        keys_unique(self.flows_view())
    }

    /// A partition with no flows, created at time `now` (nanoseconds).
    pub fn new(partition: i16, name: String, now: u128) -> (p: Self)
        ensures
            p.wf(),
            p.flows_view() == Seq::<(FlowKey, Seq<char>)>::empty(),
            p.counter() == 0,
            p.timer() == now,
            p.duration_view() == 0,
            p.partition_view() == partition,
            p.name_view() == name@,
    {
        FlowTablePartition {
            partition,
            name,
            flow_table: Table::new(),
            flow_counter: 0,
            timer: now,
            duration: 0,
        }
    }

    /// The partition's number.
    pub fn partition(&self) -> (p: i16)
        ensures
            p == self.partition_view(),
    {
        self.partition
    }

    /// The name of the agent that owns the partition.
    pub fn name(&self) -> (n: &String)
        ensures
            n@ == self.name_view(),
    {
        &self.name
    }

    /// Stores a flow given at time `now`: its key now leads to its next hop,
    /// the counter goes up by one, the first flow starts the timer, and the
    /// duration becomes the time since then (zero if `now` is earlier).
    pub fn add_flow(&mut self, flow: Flow, now: u128)
        requires
            old(self).wf(),
            old(self).counter() < u32::MAX,
        ensures
            final(self).wf(),
            final(self).flows_view() == assoc_insert(old(self).flows_view(), flow.flow_key, flow.nh@),
            final(self).counter() == old(self).counter() + 1,
            final(self).timer() == (if old(self).counter() == 0 { now } else { old(self).timer() }),
            final(self).duration_view() == (if now >= final(self).timer() { (now - final(self).timer()) as u128 } else { 0 }),
            final(self).partition_view() == old(self).partition_view(),
            final(self).name_view() == old(self).name_view(),
    {
        self.flow_table.insert(flow.flow_key, flow.nh);
        if self.flow_counter == 0 {
            self.timer = now;
        }
        self.duration = if now >= self.timer { now - self.timer } else { 0 };
        self.flow_counter = self.flow_counter + 1;
    }

    /// The partition's report.
    pub fn stats(&self) -> (s: FlowTableStats)
        ensures
            s == (FlowTableStats { duration: self.duration_view(), counter: self.counter(), partition: self.partition_view() }),
    {
        FlowTableStats { duration: self.duration, counter: self.flow_counter, partition: self.partition }
    }

    /// The partition's report as a tuple: duration, counter, number.
    pub fn get_stats(&self) -> (r: (u128, u32, i16))
        ensures
            r == (self.duration_view(), self.counter(), self.partition_view()),
    {
        (self.duration, self.flow_counter, self.partition)
    }

    /// All flows held, in table order.
    pub fn flows(&self) -> (v: Vec<Flow>)
        ensures
            v@.map_values(|f: Flow| f@) == self.flows_view(),
    {
        let n = self.flow_table.len();
        let mut v: Vec<Flow> = Vec::new();
        let mut i: usize = 0;
        while i < n
            invariant
                n == self.flow_table@.len(),
                i <= n,
                v@.map_values(|f: Flow| f@) == self.flow_table@.take(i as int),
            decreases n - i,
        {
            let ghost prev = v@;
            let f = Flow { flow_key: self.flow_table.key_at(i), nh: self.flow_table.value_at(i) };
            v.push(f);
            assert(v@ =~= prev.push(f));
            assert(v@.map_values(|f: Flow| f@) =~= prev.map_values(|f: Flow| f@).push(f@));
            assert(self.flow_table@.take(i + 1) =~= self.flow_table@.take(i as int).push(self.flow_table@[i as int]));
            i = i + 1;
        }
        assert(self.flow_table@.take(n as int) =~= self.flow_table@);
        v
    }

    /// The flow stored under `key`, if there is one.
    pub fn match_flow(&self, key: &FlowKey) -> (r: Option<Flow>)
        requires
            self.wf(),
        ensures
            match r {
                Some(f) => f.flow_key == *key && assoc_lookup(self.flows_view(), *key) == Some(f.nh@),
                None => assoc_lookup(self.flows_view(), *key) is None,
            },
    {
        match self.flow_table.get(key) {
            Some(nh) => Some(Flow { flow_key: *key, nh }),
            None => None,
        }
    }
}


/// A flow added to a partition is what a lookup of its key finds
/// afterwards, and flows under other keys are left as they were.
pub proof fn law_partition_read_after_write(
    before: Seq<(FlowKey, Seq<char>)>,
    key: FlowKey,
    nh: Seq<char>,
    other: FlowKey,
)
    requires
        keys_unique(before),
    ensures
        assoc_lookup(assoc_insert(before, key, nh), key) == Some(nh),
        other != key ==> assoc_lookup(assoc_insert(before, key, nh), other) == assoc_lookup(before, other),
{
    crate::table::lemma_insert_lookup(before, key, nh, other);
}

/// The flows a partition holds after the flows `added` are added to it in
/// order, starting empty.
pub open spec fn flows_after(added: Seq<(FlowKey, Seq<char>)>) -> Seq<(FlowKey, Seq<char>)>
    decreases added.len(),
{
    if added.len() == 0 {
        Seq::empty()
    } else {
        assoc_insert(flows_after(added.drop_last()), added.last().0, added.last().1)
    }
}

/// The next hop of the last flow added with key `k`, if any was.
pub open spec fn last_value(added: Seq<(FlowKey, Seq<char>)>, k: FlowKey) -> Option<Seq<char>>
    decreases added.len(),
{
    if added.len() == 0 {
        None
    } else if added.last().0 == k {
        Some(added.last().1)
    } else {
        last_value(added.drop_last(), k)
    }
}

/// The keys of a list of flows, in order.
pub open spec fn key_seq(flows: Seq<(FlowKey, Seq<char>)>) -> Seq<FlowKey> {
    flows.map_values(|e: (FlowKey, Seq<char>)| e.0)
}

proof fn lemma_flows_after(added: Seq<(FlowKey, Seq<char>)>)
    ensures
        keys_unique(flows_after(added)),
        flows_after(added).len() <= added.len(),
        forall|k: FlowKey| #[trigger] assoc_lookup(flows_after(added), k) == last_value(added, k),
        forall|k: FlowKey| #[trigger] has_key(flows_after(added), k) <==> key_seq(added).contains(k),
    decreases added.len(),
{
    if added.len() > 0 {
        let prev = added.drop_last();
        let e = added.last();
        lemma_flows_after(prev);
        lemma_insert_unique(flows_after(prev), e.0, e.1);
        lemma_insert_keys(flows_after(prev), e.0, e.1, e.0);
        assert(key_seq(added) =~= key_seq(prev).push(e.0));
        assert forall|k: FlowKey| #[trigger] assoc_lookup(flows_after(added), k) == last_value(added, k) by {
            lemma_insert_lookup(flows_after(prev), e.0, e.1, k);
        }
        assert forall|k: FlowKey| #[trigger] has_key(flows_after(added), k) <==> key_seq(added).contains(k) by {
            lemma_insert_keys(flows_after(prev), e.0, e.1, k);
            assert(has_key(flows_after(prev), k) <==> key_seq(prev).contains(k));
            if k == e.0 {
                assert(key_seq(added)[added.len() - 1] == k);
            }
            if key_seq(added).contains(k) && k != e.0 {
                let i = choose|i: int| 0 <= i < key_seq(added).len() && key_seq(added)[i] == k;
                assert(key_seq(prev)[i] == k);
            }
            if key_seq(prev).contains(k) {
                let i = choose|i: int| 0 <= i < key_seq(prev).len() && key_seq(prev)[i] == k;
                assert(key_seq(added)[i] == k);
            }
        }
    }
}

/// `states` are a partition just made and then after adding each flow of
/// `added` in turn, as the contracts of `new` and `add_flow` describe.
pub open spec fn partition_run(states: Seq<FlowTablePartition>, added: Seq<(FlowKey, Seq<char>)>) -> bool {
    &&& states.len() == added.len() + 1
    &&& states[0].flows_view() == Seq::<(FlowKey, Seq<char>)>::empty()
    &&& states[0].counter() == 0
    &&& forall|i: int| 0 <= i < added.len() ==> {
        &&& #[trigger] states[i + 1].flows_view() == assoc_insert(states[i].flows_view(), added[i].0, added[i].1)
        &&& states[i + 1].counter() == states[i].counter() + 1
    }
}

proof fn lemma_run_prefix(states: Seq<FlowTablePartition>, added: Seq<(FlowKey, Seq<char>)>, j: int)
    requires
        partition_run(states, added),
        0 <= j <= added.len(),
    ensures
        states[j].flows_view() == flows_after(added.take(j)),
        states[j].counter() == j,
    decreases j,
{
    if j > 0 {
        lemma_run_prefix(states, added, j - 1);
        assert(added.take(j).drop_last() =~= added.take(j - 1));
        assert(added.take(j).last() == added[j - 1]);
        assert(states[(j - 1) + 1].flows_view() == assoc_insert(states[j - 1].flows_view(), added[j - 1].0, added[j - 1].1));
    } else {
        assert(added.take(0) =~= Seq::<(FlowKey, Seq<char>)>::empty());
    }
}

/// Over any run of flows added to a partition from creation: the counter is
/// the number of flows added; the partition holds one flow per distinct key
/// added (so no more than were added, keys never repeated); and the flow it
/// holds under a key is the last one added with that key.
///
pub proof fn law_partition_run(states: Seq<FlowTablePartition>, added: Seq<(FlowKey, Seq<char>)>)
    requires
        partition_run(states, added),
    ensures
        states.last().counter() == added.len(),
        states.last().wf(),
        states.last().flows_view() == flows_after(added),
        states.last().flows_view().len() == key_seq(added).to_set().len(),
        states.last().flows_view().len() <= added.len(),
        forall|k: FlowKey| #[trigger] assoc_lookup(states.last().flows_view(), k) == last_value(added, k),
{
    let n = added.len() as int;
    lemma_run_prefix(states, added, n);
    assert(added.take(n) =~= added);
    lemma_flows_after(added);
    let t = flows_after(added);
    assert(key_seq(t).no_duplicates()) by {
        assert forall|i: int, j: int| 0 <= i < key_seq(t).len() && 0 <= j < key_seq(t).len() && i != j
            implies key_seq(t)[i] != key_seq(t)[j] by {
            assert(t[i].0 != t[j].0);
        }
    }
    key_seq(t).unique_seq_to_set();
    assert(key_seq(t).to_set() =~= key_seq(added).to_set()) by {
        assert forall|k: FlowKey| key_seq(t).to_set().contains(k) <==> key_seq(added).to_set().contains(k) by {
            if key_seq(t).contains(k) {
                let i = choose|i: int| 0 <= i < key_seq(t).len() && key_seq(t)[i] == k;
                assert(t[i].0 == k);
                assert(has_key(t, k));
            }
            if has_key(t, k) {
                let i = choose|i: int| 0 <= i < t.len() && t[i].0 == k;
                assert(key_seq(t)[i] == k);
            }
        }
    }
}

/// The sum of the durations of a list of partition reports.
pub open spec fn total_duration(s: Seq<FlowTableStats>) -> nat
    decreases s.len(),
{
    if s.len() == 0 {
        0
    } else {
        total_duration(s.drop_last()) + s.last().duration as nat
    }
}

/// The sum of the flow counters of a list of partition reports.
pub open spec fn total_flows(s: Seq<FlowTableStats>) -> nat
    decreases s.len(),
{
    if s.len() == 0 {
        0
    } else {
        total_flows(s.drop_last()) + s.last().counter as nat
    }
}

/// The totals are plain sums over all reports: a report added at the end
/// adds its counter and its duration, and the totals are the left folds of
/// `+` over the counters and durations.
pub proof fn law_totals(s: Seq<FlowTableStats>, x: FlowTableStats)
    ensures
        total_flows(s.push(x)) == total_flows(s) + x.counter,
        total_duration(s.push(x)) == total_duration(s) + x.duration,
        total_flows(s) == s.fold_left(0nat, |acc: nat, r: FlowTableStats| acc + r.counter as nat),
        total_duration(s) == s.fold_left(0nat, |acc: nat, r: FlowTableStats| acc + r.duration as nat),
    decreases s.len(),
{
    assert(s.push(x).drop_last() =~= s);
    if s.len() > 0 {
        law_totals(s.drop_last(), s.last());
    }
}

/// The totals over all partitions of an agent's flow table.
#[derive(Clone, Copy, PartialEq, Eq, Structural, Debug)]
pub struct StatsSummary {
    /// Flows given to all partitions together.
    pub total_flows: u32,
    /// Sum of the partitions' durations, in nanoseconds.
    pub total_duration: u64,
    /// Number of partitions that reported.
    pub partitions: usize,
    /// Mean duration per partition, in whole microseconds: the summed
    /// duration in whole microseconds, divided by the number of partitions.
    pub avg_micros: u128,
}

/// The summary of a list of reports, or `None` where there is none: no
/// reports, a flow total beyond `u32`, or a duration total beyond `u64`
/// nanoseconds.
pub open spec fn stats_summary(s: Seq<FlowTableStats>) -> Option<StatsSummary> {
    if s.len() == 0 || total_flows(s) > u32::MAX || total_duration(s) > u64::MAX {
        None
    } else {
        Some(StatsSummary {
            total_flows: total_flows(s) as u32,
            total_duration: total_duration(s) as u64,
            partitions: s.len() as usize,
            avg_micros: ((total_duration(s) / 1000) / s.len()) as u128,
        })
    }
}

proof fn lemma_totals_monotone(s: Seq<FlowTableStats>, i: int)
    requires
        0 <= i <= s.len(),
    ensures
        total_duration(s.take(i)) <= total_duration(s),
        total_flows(s.take(i)) <= total_flows(s),
    decreases s.len() - i,
{
    if i < s.len() {
        lemma_totals_monotone(s, i + 1);
        assert(s.take(i + 1).drop_last() =~= s.take(i));
    } else {
        assert(s.take(i) =~= s);
    }
}

/// The part of an agent's flow table that is not in its partitions: its
/// name, how many partitions it starts, and how many of them have said they
/// are running.
pub struct FlowTable {
    name: String,
    partitions: i16,
    running: i16,
}

impl FlowTable {
    /// The number of partitions the table starts.
    pub closed spec fn partitions_view(&self) -> i16 {
        self.partitions
    }

    /// The name of the agent that owns the table.
    pub closed spec fn name_view(&self) -> Seq<char> {
        self.name@
    }

    /// How many partitions have said they are running.
    pub closed spec fn running_view(&self) -> i16 {
        self.running
    }

    /// A table that will start `partitions` partitions, none running yet.
    pub fn new(name: String, partitions: i16) -> (t: Self)
        ensures
            t.name_view() == name@,
            t.partitions_view() == partitions,
            t.running_view() == 0,
    {
        FlowTable { name, partitions, running: 0 }
    }

    /// The name of the agent that owns the table.
    pub fn name(&self) -> (n: &String)
        ensures
            n@ == self.name_view(),
    {
        &self.name
    }

    /// The number of partitions the table starts.
    pub fn partitions(&self) -> (n: i16)
        ensures
            n == self.partitions_view(),
    {
        self.partitions
    }

    /// How many partitions have said they are running.
    pub fn running(&self) -> (n: i16)
        ensures
            n == self.running_view(),
    {
        self.running
    }

    /// Counts `count` more partitions as running and says whether the
    /// count has now reached the number of partitions, the moment at which
    /// the table reports itself ready.
    pub fn partition_ready(&mut self, count: i16) -> (ready: bool)
        requires
            i16::MIN <= old(self).running_view() + count <= i16::MAX,
        ensures
            final(self).running_view() == old(self).running_view() + count,
            final(self).partitions_view() == old(self).partitions_view(),
            final(self).name_view() == old(self).name_view(),
            ready == (final(self).running_view() == final(self).partitions_view()),
    {
        self.running = self.running + count;
        self.running == self.partitions
    }

    /// Sums the reports of all partitions: total flows, total duration, and
    /// the mean duration per partition in microseconds.
    pub fn summarize(stats: &Vec<FlowTableStats>) -> (r: Option<StatsSummary>)
        ensures
            r == stats_summary(stats@),
    {
        let n = stats.len();
        if n == 0 {
            return None;
        }
        let mut total_d: u64 = 0;
        let mut total_f: u32 = 0;
        let mut i: usize = 0;
        while i < n
            invariant
                n == stats@.len(),
                n > 0,
                i <= n,
                total_d as nat == total_duration(stats@.take(i as int)),
                total_f as nat == total_flows(stats@.take(i as int)),
            decreases n - i,
        {
            let st = stats[i];
            proof {
                assert(stats@.take(i + 1).drop_last() =~= stats@.take(i as int));
                lemma_totals_monotone(stats@, i + 1);
            }
            if st.duration > (u64::MAX - total_d) as u128 {
                return None;
            }
            if st.counter > u32::MAX - total_f {
                return None;
            }
            total_d = total_d + st.duration as u64;
            total_f = total_f + st.counter;
            i = i + 1;
        }
        assert(stats@.take(n as int) =~= stats@);
        let avg: u128 = (total_d as u128 / 1000) / (n as u128);
        Some(StatsSummary { total_flows: total_f, total_duration: total_d, partitions: n, avg_micros: avg })
    }
}

} // verus!
