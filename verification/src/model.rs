//! Data model: raw per-core counter records and the full sample taken at
//! one instant, ordered by ascending core id.

use vstd::prelude::*;

verus! {

/// One CPU core's raw counters at a point in time. Each counter is a
/// monotonically non-decreasing count of clock ticks since boot.
#[derive(Debug, Default, Clone, Copy, PartialEq, Eq, Structural)]
pub struct CoreInfo {
    pub id: u64,
    pub user: u64,
    pub nice: u64,
    pub system: u64,
    pub idle: u64,
    pub iowait: u64,
    pub irq: u64,
    pub softirq: u64,
    pub steal: u64,
    pub guest: u64,
    pub guest_nice: u64,
}

/// The full reading at one instant: per-core records ordered by
/// ascending id.
#[derive(Debug, PartialEq, Eq)]
pub struct Stat {
    pub cores: Vec<CoreInfo>,
}

/// Records ordered by ascending id (repeats allowed).
pub open spec fn sorted_by_id(s: Seq<CoreInfo>) -> bool {
    forall|i: int, j: int| 0 <= i < j < s.len() ==> s[i].id <= s[j].id
}

/// Records in strictly ascending id order: sorted and free of duplicate ids.
pub open spec fn strictly_sorted_by_id(s: Seq<CoreInfo>) -> bool {
    forall|i: int, j: int| 0 <= i < j < s.len() ==> s[i].id < s[j].id
}

/// A well-formed sample: its records stand in strictly ascending id order.
pub open spec fn stat_wf(s: Stat) -> bool {
    strictly_sorted_by_id(s.cores@)
}

/// Where a record lands among ordered records: after every record whose id
/// is at most c's, before the rest.
pub open spec fn insert_ordered(s: Seq<CoreInfo>, c: CoreInfo) -> Seq<CoreInfo>
    decreases s.len(),
{
    if s.len() == 0 {
        seq![c]
    } else if s[0].id <= c.id {
        seq![s[0]] + insert_ordered(s.skip(1), c)
    } else {
        seq![c] + s
    }
}

/// The ordered rearrangement of a record sequence, by repeated ordered
/// insertion.
pub open spec fn sort_by_id(s: Seq<CoreInfo>) -> Seq<CoreInfo>
    decreases s.len(),
{
    if s.len() == 0 {
        Seq::empty()
    } else {
        insert_ordered(sort_by_id(s.drop_last()), s.last())
    }
}

/// Ordered insertion splits the sequence at any index i that lies after
/// every id at most c's and before an id above c's.
proof fn lemma_insert_ordered_at(s: Seq<CoreInfo>, c: CoreInfo, i: int)
    requires
        0 <= i <= s.len(),
        forall|j: int| 0 <= j < i ==> s[j].id <= c.id,
        i < s.len() ==> c.id < s[i].id,
    ensures
        insert_ordered(s, c) == s.take(i) + seq![c] + s.skip(i),
    decreases s.len(),
{
    if s.len() == 0 {
        assert(insert_ordered(s, c) =~= s.take(i) + seq![c] + s.skip(i));
    } else if i == 0 {
        assert(insert_ordered(s, c) =~= s.take(0) + seq![c] + s.skip(0));
    } else {
        assert(s[0].id <= c.id);
        lemma_insert_ordered_at(s.skip(1), c, i - 1);
        assert(seq![s[0]] + (s.skip(1).take(i - 1) + seq![c] + s.skip(1).skip(i - 1)) =~= s.take(i)
            + seq![c] + s.skip(i));
    }
}

/// The index at which `insert_ordered` places an id: the count of leading
/// records whose id is at most `id`.
spec fn insert_pos(s: Seq<CoreInfo>, id: u64) -> int
    decreases s.len(),
{
    if s.len() == 0 {
        0
    } else if s[0].id <= id {
        1 + insert_pos(s.skip(1), id)
    } else {
        0
    }
}

proof fn lemma_insert_pos_props(s: Seq<CoreInfo>, id: u64)
    ensures
        0 <= insert_pos(s, id) <= s.len(),
        forall|j: int| 0 <= j < insert_pos(s, id) ==> s[j].id <= id,
        insert_pos(s, id) < s.len() ==> id < s[insert_pos(s, id)].id,
    decreases s.len(),
{
    if s.len() == 0 {
    } else if s[0].id <= id {
        lemma_insert_pos_props(s.skip(1), id);
        assert forall|j: int| 0 <= j < insert_pos(s, id) implies s[j].id <= id by {
            if j > 0 {
                assert(s.skip(1)[j - 1].id <= id);
            }
        }
    }
}

/// Ordered insertion keeps the sequence ordered.
proof fn lemma_insert_ordered_sorted(s: Seq<CoreInfo>, c: CoreInfo)
    requires
        sorted_by_id(s),
    ensures
        sorted_by_id(insert_ordered(s, c)),
        insert_ordered(s, c).len() == s.len() + 1,
{
    let i = insert_pos(s, c.id);
    lemma_insert_pos_props(s, c.id);
    lemma_insert_ordered_at(s, c, i);
    let r = insert_ordered(s, c);
    assert forall|p: int, q: int| 0 <= p < q < r.len() implies r[p].id <= r[q].id by {
        if p < i && q < i {
            assert(r[p] == s[p] && r[q] == s[q]);
        } else if p < i && q == i {
            assert(r[p] == s[p] && r[q] == c);
        } else if p < i && q > i {
            assert(r[p] == s[p] && r[q] == s[q - 1]);
        } else if p == i && q > i {
            assert(r[p] == c && r[q] == s[q - 1]);
            assert(c.id < s[i].id && s[i].id <= s[q - 1].id);
        } else {
            assert(r[p] == s[p - 1] && r[q] == s[q - 1]);
        }
    }
}

impl Stat {
    /// Builds a sample from records in any order, sorting them ascending
    /// by id. The result is exactly the ordered rearrangement of the input.
    pub fn new(cores: Vec<CoreInfo>) -> (r: Stat)
        ensures
            r.cores@ == sort_by_id(cores@),
            sorted_by_id(r.cores@),
            r.cores@.len() == cores@.len(),
            r.cores@.to_multiset() == cores@.to_multiset(),
    {
        proof {
            lemma_sort_by_id_permutes(cores@);
        }
        let mut sorted: Vec<CoreInfo> = Vec::new();
        let n = cores.len();
        let mut i: usize = 0;
        while i < n
            invariant
                i <= n,
                n == cores@.len(),
                sorted@ == sort_by_id(cores@.take(i as int)),
                sorted_by_id(sorted@),
                sorted@.len() == i,
            decreases n - i,
        {
            insert_ordered_exec(&mut sorted, cores[i]);
            proof {
                assert(cores@.take(i + 1).drop_last() =~= cores@.take(i as int));
                assert(cores@.take(i + 1).last() == cores@[i as int]);
            }
            i = i + 1;
        }
        proof {
            assert(cores@.take(n as int) =~= cores@);
        }
        Stat { cores: sorted }
    }
}

/// Inserts one record into an id-ordered vector, keeping the order.
fn insert_ordered_exec(v: &mut Vec<CoreInfo>, c: CoreInfo)
    requires
        sorted_by_id(old(v)@),
    ensures
        final(v)@ == insert_ordered(old(v)@, c),
        sorted_by_id(final(v)@),
        final(v)@.len() == old(v)@.len() + 1,
{
    let n = v.len();
    let mut i: usize = 0;
    while i < n && v[i].id <= c.id
        invariant
            i <= n,
            n == v@.len(),
            v@ == old(v)@,
            forall|j: int| 0 <= j < i ==> v@[j].id <= c.id,
        decreases n - i,
    {
        i = i + 1;
    }
    proof {
        lemma_insert_ordered_at(v@, c, i as int);
        lemma_insert_ordered_sorted(v@, c);
        assert(old(v)@.take(i as int) + seq![c] + old(v)@.skip(i as int) =~= old(v)@.insert(
            i as int,
            c,
        ));
    }
    v.insert(i, c);
}

/// Ordered insertion adds exactly the inserted record.
proof fn lemma_insert_ordered_multiset(s: Seq<CoreInfo>, c: CoreInfo)
    ensures
        insert_ordered(s, c).to_multiset() == s.to_multiset().insert(c),
    decreases s.len(),
{
    broadcast use vstd::seq_lib::group_to_multiset_ensures;
    broadcast use vstd::multiset::group_multiset_axioms;

    if s.len() == 0 {
        assert(insert_ordered(s, c) =~= Seq::<CoreInfo>::empty().push(c));
        assert(insert_ordered(s, c).to_multiset() =~= s.to_multiset().insert(c));
    } else if s[0].id <= c.id {
        lemma_insert_ordered_multiset(s.skip(1), c);
        vstd::seq_lib::lemma_multiset_commutative(seq![s[0]], insert_ordered(s.skip(1), c));
        vstd::seq_lib::lemma_multiset_commutative(seq![s[0]], s.skip(1));
        assert(s =~= seq![s[0]] + s.skip(1));
        assert(seq![s[0]].to_multiset().add(s.skip(1).to_multiset().insert(c))
            =~= seq![s[0]].to_multiset().add(s.skip(1).to_multiset()).insert(c));
    } else {
        vstd::seq_lib::lemma_multiset_commutative(seq![c], s);
        assert(seq![c] =~= Seq::<CoreInfo>::empty().push(c));
        assert(seq![c].to_multiset().add(s.to_multiset()) =~= s.to_multiset().insert(c));
    }
}

/// Sorting rearranges the records and loses or invents none: the sorted
/// sequence holds exactly the input records.
pub proof fn lemma_sort_by_id_permutes(s: Seq<CoreInfo>)
    ensures
        sort_by_id(s).to_multiset() == s.to_multiset(),
    decreases s.len(),
{
    broadcast use vstd::seq_lib::group_to_multiset_ensures;

    if s.len() > 0 {
        lemma_sort_by_id_permutes(s.drop_last());
        lemma_insert_ordered_multiset(sort_by_id(s.drop_last()), s.last());
        assert(s.drop_last().push(s.last()) =~= s);
    }
}

/// Reports whether the sample is well-formed — its records in strictly
/// ascending id order — as `utilization` demands; `parse` only returns
/// such samples.
pub fn stat_is_wf(s: &Stat) -> (b: bool)
    ensures
        b == stat_wf(*s),
{
    let n = s.cores.len();
    if n < 2 {
        return true;
    }
    let mut i: usize = 0;
    while i + 1 < n
        invariant
            i + 1 <= n,
            n == s.cores@.len(),
            strictly_sorted_by_id(s.cores@.take(i + 1)),
        decreases n - i,
    {
        if s.cores[i].id >= s.cores[i + 1].id {
            return false;
        }
        proof {
            let pre = s.cores@.take(i + 1);
            let cur = s.cores@.take(i + 2);
            assert forall|p: int, q: int| 0 <= p < q < cur.len() implies cur[p].id < cur[q].id by {
                if q == i + 1 {
                    if p < i {
                        assert(pre[p].id < pre[i as int].id);
                    }
                } else {
                    assert(pre[p].id < pre[q].id);
                }
            }
        }
        i = i + 1;
    }
    proof {
        assert(s.cores@.take(n as int) =~= s.cores@);
    }
    true
}

} // verus!
