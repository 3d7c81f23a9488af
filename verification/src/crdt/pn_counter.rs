//! A counter that replicas can raise and lower independently and merge.
//!
//! Each replica owns one count of increments and one of decrements; a
//! merge takes the larger count per replica. The value is the sum of the
//! increments minus the sum of the decrements.

use crate::ClientID;
use vstd::prelude::*;

verus! {

/// The count that one replica contributed.
#[derive(Debug)]
pub struct CounterEntry {
    pub replica: String,
    pub count: i64,
}

/// The entries of a list as plain values: replica name and count.
pub open spec fn entry_views(entries: Seq<CounterEntry>) -> Seq<(Seq<char>, i64)> {
    Seq::new(entries.len(), |i: int| (entries[i].replica@, entries[i].count))
}

/// The index, from `i` on, of the first entry of replica `name`; the
/// number of entries if there is none.
pub open spec fn entry_from(e: Seq<(Seq<char>, i64)>, name: Seq<char>, i: int) -> int
    decreases e.len() - i,
{
    if i < 0 || i >= e.len() {
        e.len() as int
    } else if e[i].0 == name {
        i
    } else {
        entry_from(e, name, i + 1)
    }
}

/// The count of replica `name`; zero for a replica without an entry.
pub open spec fn count_of(e: Seq<(Seq<char>, i64)>, name: Seq<char>) -> i64 {
    let k = entry_from(e, name, 0);
    if 0 <= k < e.len() {
        e[k].1
    } else {
        0
    }
}

/// The entries with the count of replica `name` set to `count`.
pub open spec fn with_count(e: Seq<(Seq<char>, i64)>, name: Seq<char>, count: i64) -> Seq<
    (Seq<char>, i64),
> {
    let k = entry_from(e, name, 0);
    if 0 <= k < e.len() {
        e.update(k, (name, count))
    } else {
        e.push((name, count))
    }
}

/// The entries with the count of replica `name` raised to `count` if that
/// is larger.
pub open spec fn raised(e: Seq<(Seq<char>, i64)>, name: Seq<char>, count: i64) -> Seq<
    (Seq<char>, i64),
> {
    if count > count_of(e, name) || entry_from(e, name, 0) >= e.len() {
        with_count(e, name, if count > count_of(e, name) {
            count
        } else {
            count_of(e, name)
        })
    } else {
        e
    }
}

/// The entries after taking the larger count for each of the first `n`
/// entries of `other`.
pub open spec fn raised_all(e: Seq<(Seq<char>, i64)>, other: Seq<(Seq<char>, i64)>, n: nat) -> Seq<
    (Seq<char>, i64),
>
    decreases n,
{
    if n == 0 {
        e
    } else {
        raised(raised_all(e, other, (n - 1) as nat), other[n - 1].0, other[n - 1].1)
    }
}

/// The sum of the first `n` counts.
pub open spec fn total_upto(e: Seq<(Seq<char>, i64)>, n: nat) -> int
    decreases n,
{
    if n == 0 {
        0
    } else {
        total_upto(e, (n - 1) as nat) + e[n - 1].1
    }
}

/// The sum of all counts.
pub open spec fn total(e: Seq<(Seq<char>, i64)>) -> int {
    total_upto(e, e.len())
}

/// No count is negative.
pub open spec fn non_negative(e: Seq<(Seq<char>, i64)>) -> bool {
    forall|i: int| 0 <= i < e.len() ==> (#[trigger] e[i]).1 >= 0
}

/// What `entry_from` returns lies between `i` and the number of entries.
pub proof fn lemma_entry_from(e: Seq<(Seq<char>, i64)>, name: Seq<char>, i: int)
    requires
        0 <= i <= e.len(),
    ensures
        i <= entry_from(e, name, i) <= e.len(),
        entry_from(e, name, i) < e.len() ==> e[entry_from(e, name, i)].0 == name,
    decreases e.len() - i,
{
    if i < e.len() && e[i].0 != name {
        lemma_entry_from(e, name, i + 1);
    }
}

/// Sums of counts that are not negative only grow.
pub proof fn lemma_total_monotone(e: Seq<(Seq<char>, i64)>, a: nat, b: nat)
    requires
        non_negative(e),
        a <= b <= e.len(),
    ensures
        0 <= total_upto(e, a) <= total_upto(e, b),
    decreases b,
{
    if a < b {
        lemma_total_monotone(e, a, (b - 1) as nat);
    } else if a > 0 {
        lemma_total_monotone(e, (a - 1) as nat, (a - 1) as nat);
    }
}

/// Raising a count keeps the counts non-negative.
pub proof fn lemma_raised_non_negative(e: Seq<(Seq<char>, i64)>, name: Seq<char>, count: i64)
    requires
        non_negative(e),
        count >= 0,
    ensures
        non_negative(raised(e, name, count)),
{
    lemma_entry_from(e, name, 0);
}

/// The index of the first entry of replica `name`.
fn find_entry(entries: &Vec<CounterEntry>, name: &String) -> (k: usize)
    ensures
        k == entry_from(entry_views(entries@), name@, 0),
        k <= entries@.len(),
{
    let ghost e = entry_views(entries@);
    let mut k: usize = 0;
    while k < entries.len()
        invariant
            k <= entries@.len(),
            e == entry_views(entries@),
            entry_from(e, name@, 0) == entry_from(e, name@, k as int),
        decreases entries@.len() - k,
    {
        assert(e[k as int].0 == entries@[k as int].replica@);
        if entries[k].replica == *name {
            return k;
        }
        k = k + 1;
    }
    k
}

/// The count of replica `name`.
fn get_count(entries: &Vec<CounterEntry>, name: &String) -> (count: i64)
    ensures
        count == count_of(entry_views(entries@), name@),
{
    let k = find_entry(entries, name);
    if k < entries.len() {
        entries[k].count
    } else {
        0
    }
}

/// Sets the count of replica `name`.
fn set_count(entries: &mut Vec<CounterEntry>, name: &String, count: i64)
    ensures
        entry_views(final(entries)@) == with_count(entry_views(old(entries)@), name@, count),
{
    let ghost e = entry_views(entries@);
    let k = find_entry(entries, name);
    proof {
        lemma_entry_from(e, name@, 0);
    }
    if k < entries.len() {
        entries[k].count = count;
        assert(entry_views(entries@) =~= e.update(k as int, (name@, count)));
    } else {
        entries.push(CounterEntry { replica: name.clone(), count });
        assert(entry_views(entries@) =~= e.push((name@, count)));
    }
}

/// Takes the larger count for every entry of `other`.
fn raise_all(entries: &mut Vec<CounterEntry>, other: &Vec<CounterEntry>)
    requires
        non_negative(entry_views(old(entries)@)),
        non_negative(entry_views(other@)),
    ensures
        entry_views(final(entries)@) == raised_all(
            entry_views(old(entries)@),
            entry_views(other@),
            other@.len(),
        ),
        non_negative(entry_views(final(entries)@)),
{
    let ghost e = entry_views(entries@);
    let ghost o = entry_views(other@);
    let mut i: usize = 0;
    while i < other.len()
        invariant
            i <= other@.len(),
            o == entry_views(other@),
            non_negative(o),
            non_negative(entry_views(entries@)),
            entry_views(entries@) == raised_all(e, o, i as nat),
        decreases other@.len() - i,
    {
        let count = other[i].count;
        assert(o[i as int] == (other@[i as int].replica@, count));
        proof {
            lemma_raised_non_negative(entry_views(entries@), other@[i as int].replica@, count);
            lemma_entry_from(entry_views(entries@), other@[i as int].replica@, 0);
        }
        let k = find_entry(entries, &other[i].replica);
        let current = if k < entries.len() {
            entries[k].count
        } else {
            0
        };
        if count > current {
            set_count(entries, &other[i].replica, count);
        } else if k >= entries.len() {
            set_count(entries, &other[i].replica, current);
        }
        i = i + 1;
    }
}

/// The sum of the counts.
fn sum_counts(entries: &Vec<CounterEntry>) -> (sum: i64)
    requires
        non_negative(entry_views(entries@)),
        total(entry_views(entries@)) <= i64::MAX,
    ensures
        sum == total(entry_views(entries@)),
{
    let ghost e = entry_views(entries@);
    let mut sum: i64 = 0;
    let mut i: usize = 0;
    while i < entries.len()
        invariant
            i <= entries@.len(),
            e == entry_views(entries@),
            non_negative(e),
            total(e) <= i64::MAX,
            sum == total_upto(e, i as nat),
        decreases entries@.len() - i,
    {
        proof {
            lemma_total_monotone(e, (i + 1) as nat, e.len());
            lemma_total_monotone(e, i as nat, (i + 1) as nat);
        }
        assert(e[i as int].1 == entries@[i as int].count);
        sum = sum + entries[i].count;
        i = i + 1;
    }
    sum
}

/// A positive-negative counter of one replica.
#[derive(Debug)]
pub struct PNCounter {
    replica_id: ClientID,
    positive: Vec<CounterEntry>,
    negative: Vec<CounterEntry>,
}

impl PNCounter {
    /// The name of this replica.
    pub closed spec fn replica(&self) -> Seq<char> {
        self.replica_id@
    }

    /// The increments, replica by replica.
    pub closed spec fn increments(&self) -> Seq<(Seq<char>, i64)> {
        entry_views(self.positive@)
    }

    /// The decrements, replica by replica.
    pub closed spec fn decrements(&self) -> Seq<(Seq<char>, i64)> {
        entry_views(self.negative@)
    }

    /// The counter's invariant: no count is negative.
    pub open spec fn wf(&self) -> bool {
        non_negative(self.increments()) && non_negative(self.decrements())
    }

    /// A counter at zero for replica `replica_id`.
    pub fn new(replica_id: ClientID) -> (counter: Self)
        ensures
            counter.wf(),
            counter.replica() == replica_id@,
            counter.increments() == seq![(replica_id@, 0i64)],
            counter.decrements() == seq![(replica_id@, 0i64)],
    {
        let mut positive: Vec<CounterEntry> = Vec::new();
        let mut negative: Vec<CounterEntry> = Vec::new();
        positive.push(CounterEntry { replica: replica_id.clone(), count: 0 });
        negative.push(CounterEntry { replica: replica_id.clone(), count: 0 });
        assert(entry_views(positive@) =~= seq![(replica_id@, 0i64)]);
        assert(entry_views(negative@) =~= seq![(replica_id@, 0i64)]);
        PNCounter { replica_id, positive, negative }
    }

    /// Adds `amount` to this replica's increments.
    pub fn increment(&mut self, amount: i64)
        requires
            old(self).wf(),
            amount >= 0,
            count_of(old(self).increments(), old(self).replica()) + amount <= i64::MAX,
        ensures
            final(self).wf(),
            final(self).replica() == old(self).replica(),
            final(self).decrements() == old(self).decrements(),
            final(self).increments() == with_count(
                old(self).increments(),
                old(self).replica(),
                (count_of(old(self).increments(), old(self).replica()) + amount) as i64,
            ),
    {
        proof {
            lemma_entry_from(entry_views(self.positive@), self.replica_id@, 0);
        }
        let current = get_count(&self.positive, &self.replica_id);
        set_count(&mut self.positive, &self.replica_id, current + amount);
    }

    /// Adds `amount` to this replica's decrements.
    pub fn decrement(&mut self, amount: i64)
        requires
            old(self).wf(),
            amount >= 0,
            count_of(old(self).decrements(), old(self).replica()) + amount <= i64::MAX,
        ensures
            final(self).wf(),
            final(self).replica() == old(self).replica(),
            final(self).increments() == old(self).increments(),
            final(self).decrements() == with_count(
                old(self).decrements(),
                old(self).replica(),
                (count_of(old(self).decrements(), old(self).replica()) + amount) as i64,
            ),
    {
        proof {
            lemma_entry_from(entry_views(self.negative@), self.replica_id@, 0);
        }
        let current = get_count(&self.negative, &self.replica_id);
        set_count(&mut self.negative, &self.replica_id, current + amount);
    }

    /// The value: all increments minus all decrements.
    pub fn value(&self) -> (v: i64)
        requires
            self.wf(),
            total(self.increments()) <= i64::MAX,
            total(self.decrements()) <= i64::MAX,
        ensures
            v == total(self.increments()) - total(self.decrements()),
    {
        proof {
            lemma_total_monotone(self.increments(), 0, self.increments().len());
            lemma_total_monotone(self.decrements(), 0, self.decrements().len());
        }
        let positive_sum = sum_counts(&self.positive);
        let negative_sum = sum_counts(&self.negative);
        positive_sum - negative_sum
    }

    /// Merges another counter's state into this one: for every replica the
    /// larger of the two counts, increments and decrements apart.
    pub fn merge(&mut self, other: &PNCounter)
        requires
            old(self).wf(),
            other.wf(),
        ensures
            final(self).wf(),
            final(self).replica() == old(self).replica(),
            final(self).increments() == raised_all(
                old(self).increments(),
                other.increments(),
                other.increments().len(),
            ),
            final(self).decrements() == raised_all(
                old(self).decrements(),
                other.decrements(),
                other.decrements().len(),
            ),
    {
        raise_all(&mut self.positive, &other.positive);
        raise_all(&mut self.negative, &other.negative);
    }

    /// The increments, replica by replica.
    pub fn positive_counts(&self) -> (entries: &Vec<CounterEntry>)
        ensures
            entry_views(entries@) == self.increments(),
    {
        &self.positive
    }

    /// The decrements, replica by replica.
    pub fn negative_counts(&self) -> (entries: &Vec<CounterEntry>)
        ensures
            entry_views(entries@) == self.decrements(),
    {
        &self.negative
    }

    /// A counter from stored parts; `None` where a count is negative.
    pub fn from_parts(replica_id: String, positive: Vec<CounterEntry>, negative: Vec<CounterEntry>) -> (r:
        Option<Self>)
        ensures
            r is Some <==> non_negative(entry_views(positive@)) && non_negative(entry_views(negative@)),
            r is Some ==> r->0.wf() && r->0.replica() == replica_id@ && r->0.increments()
                == entry_views(positive@) && r->0.decrements() == entry_views(negative@),
    {
        if all_non_negative(&positive) && all_non_negative(&negative) {
            Some(PNCounter { replica_id, positive, negative })
        } else {
            None
        }
    }

    /// The name of this replica.
    pub fn replica_id(&self) -> (name: &ClientID)
        ensures
            name@ == self.replica(),
    {
        &self.replica_id
    }

    /// Forgets every count: the counter is as `new` made it.
    pub fn reset(&mut self)
        ensures
            final(self).wf(),
            final(self).replica() == old(self).replica(),
            final(self).increments() == seq![(old(self).replica(), 0i64)],
            final(self).decrements() == seq![(old(self).replica(), 0i64)],
    {
        self.positive.clear();
        self.negative.clear();
        self.positive.push(CounterEntry { replica: self.replica_id.clone(), count: 0 });
        self.negative.push(CounterEntry { replica: self.replica_id.clone(), count: 0 });
        assert(entry_views(self.positive@) =~= seq![(self.replica_id@, 0i64)]);
        assert(entry_views(self.negative@) =~= seq![(self.replica_id@, 0i64)]);
    }
}

impl Clone for PNCounter {
    fn clone(&self) -> (copy: Self)
        ensures
            copy.replica() == self.replica(),
            copy.increments() == self.increments(),
            copy.decrements() == self.decrements(),
    {
        PNCounter {
            replica_id: self.replica_id.clone(),
            positive: clone_entries(&self.positive),
            negative: clone_entries(&self.negative),
        }
    }
}

/// Whether no count is negative.
fn all_non_negative(entries: &Vec<CounterEntry>) -> (ok: bool)
    ensures
        ok == non_negative(entry_views(entries@)),
{
    let ghost e = entry_views(entries@);
    let mut i: usize = 0;
    while i < entries.len()
        invariant
            i <= entries@.len(),
            e == entry_views(entries@),
            forall|j: int| 0 <= j < i ==> (#[trigger] e[j]).1 >= 0,
        decreases entries@.len() - i,
    {
        assert(e[i as int].1 == entries@[i as int].count);
        if entries[i].count < 0 {
            return false;
        }
        i = i + 1;
    }
    true
}

/// A copy of the entries.
fn clone_entries(entries: &Vec<CounterEntry>) -> (copy: Vec<CounterEntry>)
    ensures
        entry_views(copy@) == entry_views(entries@),
{
    let mut copy: Vec<CounterEntry> = Vec::new();
    let mut i: usize = 0;
    while i < entries.len()
        invariant
            i <= entries@.len(),
            copy@.len() == i,
            forall|j: int|
                0 <= j < i ==> (#[trigger] copy@[j]).replica@ == entries@[j].replica@ && copy@[j].count
                    == entries@[j].count,
        decreases entries@.len() - i,
    {
        copy.push(CounterEntry { replica: entries[i].replica.clone(), count: entries[i].count });
        i = i + 1;
    }
    assert(entry_views(copy@) =~= entry_views(entries@));
    copy
}

} // verus!
