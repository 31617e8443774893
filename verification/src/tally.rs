use vstd::prelude::*;

verus! {

/// The count that `m` holds for `k`, and 0 for a key that it does not hold.
pub open spec fn count_of(m: Map<Seq<char>, nat>, k: Seq<char>) -> nat {
    if m.contains_key(k) {
        m[k]
    } else {
        0
    }
}

/// `m` with `amount` added to the count of `k` (a new key starts from 0).
pub open spec fn bump(m: Map<Seq<char>, nat>, k: Seq<char>, amount: nat) -> Map<Seq<char>, nat> {
    m.insert(k, count_of(m, k) + amount)
}

/// The key-wise sum of two tallies.
pub open spec fn sum_counts(a: Map<Seq<char>, nat>, b: Map<Seq<char>, nat>) -> Map<
    Seq<char>,
    nat,
> {
    Map::new(
        |k: Seq<char>| a.contains_key(k) || b.contains_key(k),
        |k: Seq<char>| count_of(a, k) + count_of(b, k),
    )
}

/// Every count of `m` fits in a `u64`.
pub open spec fn fits_u64(m: Map<Seq<char>, nat>) -> bool {
    forall|k: Seq<char>| #[trigger] m.contains_key(k) ==> m[k] <= u64::MAX
}

/// The step of a sum over the keys of `m`: adds the count of key `k` to `acc`.
pub open spec fn add_count_of(m: Map<Seq<char>, nat>) -> spec_fn(nat, Seq<char>) -> nat {
    |acc: nat, k: Seq<char>| acc + count_of(m, k)
}

/// The sum of all the counts of a tally.
pub open spec fn total_count(m: Map<Seq<char>, nat>) -> nat {
    m.dom().fold(0nat, add_count_of(m))
}

proof fn lemma_add_count_of_commutative(m: Map<Seq<char>, nat>)
    ensures
        vstd::set::fold::is_fun_commutative(add_count_of(m)),
{
}

/// A sum over a set of keys depends only on the counts of those keys.
proof fn lemma_fold_same_counts(keys: Set<Seq<char>>, m1: Map<Seq<char>, nat>, m2: Map<Seq<char>, nat>)
    requires
        keys.finite(),
        forall|k: Seq<char>| #[trigger] keys.contains(k) ==> count_of(m1, k) == count_of(m2, k),
    ensures
        keys.fold(0nat, add_count_of(m1)) == keys.fold(0nat, add_count_of(m2)),
    decreases keys.len(),
{
    lemma_add_count_of_commutative(m1);
    lemma_add_count_of_commutative(m2);
    if keys.len() == 0 {
        assert(keys =~= Set::<Seq<char>>::empty());
        vstd::set::fold::lemma_fold_empty(0nat, add_count_of(m1));
        vstd::set::fold::lemma_fold_empty(0nat, add_count_of(m2));
    } else {
        let a = keys.choose();
        let rest = keys.remove(a);
        assert(rest.insert(a) =~= keys);
        lemma_fold_same_counts(rest, m1, m2);
        vstd::set::fold::lemma_fold_insert(rest, 0nat, add_count_of(m1), a);
        vstd::set::fold::lemma_fold_insert(rest, 0nat, add_count_of(m2), a);
    }
}

/// The empty tally sums to 0.
pub proof fn lemma_total_empty()
    ensures
        total_count(Map::<Seq<char>, nat>::empty()) == 0,
{
    assert(Map::<Seq<char>, nat>::empty().dom() =~= Set::<Seq<char>>::empty());
    vstd::set::fold::lemma_fold_empty(0nat, add_count_of(Map::<Seq<char>, nat>::empty()));
}

/// Adding `amount` to one count adds `amount` to the sum.
pub proof fn lemma_total_bump(m: Map<Seq<char>, nat>, k: Seq<char>, amount: nat)
    requires
        m.dom().finite(),
    ensures
        bump(m, k, amount).dom().finite(),
        total_count(bump(m, k, amount)) == total_count(m) + amount,
{
    let b = bump(m, k, amount);
    lemma_add_count_of_commutative(m);
    lemma_add_count_of_commutative(b);
    let rest = m.dom().remove(k);
    assert(b.dom() =~= rest.insert(k));
    lemma_fold_same_counts(rest, m, b);
    vstd::set::fold::lemma_fold_insert(rest, 0nat, add_count_of(b), k);
    if m.contains_key(k) {
        assert(m.dom() =~= rest.insert(k));
        vstd::set::fold::lemma_fold_insert(rest, 0nat, add_count_of(m), k);
    } else {
        assert(rest =~= m.dom());
    }
}

/// The sum of a key-wise sum is the sum of the two sums.
pub proof fn lemma_total_sum(a: Map<Seq<char>, nat>, b: Map<Seq<char>, nat>)
    requires
        a.dom().finite(),
        b.dom().finite(),
    ensures
        sum_counts(a, b).dom().finite(),
        total_count(sum_counts(a, b)) == total_count(a) + total_count(b),
    decreases b.dom().len(),
{
    assert(sum_counts(a, b).dom() =~= a.dom().union(b.dom()));
    if b.dom().len() == 0 {
        assert(b.dom() =~= Set::<Seq<char>>::empty());
        assert(b =~= Map::<Seq<char>, nat>::empty());
        lemma_total_empty();
        assert(sum_counts(a, b) =~= a);
    } else {
        let k = b.dom().choose();
        let b1 = b.remove(k);
        assert(b1.dom() =~= b.dom().remove(k));
        lemma_total_sum(a, b1);
        assert(b =~= bump(b1, k, b[k]));
        lemma_total_bump(b1, k, b[k]);
        assert(sum_counts(a, b) =~= bump(sum_counts(a, b1), k, b[k]));
        lemma_total_bump(sum_counts(a, b1), k, b[k]);
    }
}

/// Adding `amount` to one count keeps a tally within `u64` exactly when that count stays within it.
pub proof fn lemma_bump_fits(m: Map<Seq<char>, nat>, k: Seq<char>, amount: nat)
    requires
        fits_u64(m),
    ensures
        fits_u64(bump(m, k, amount)) <==> count_of(m, k) + amount <= u64::MAX,
{
    if count_of(m, k) + amount > u64::MAX {
        assert(bump(m, k, amount).contains_key(k));
    }
}

/// The key-wise sum of two tallies within `u64` stays within it exactly when every count of
/// the second, added to the first's count for its key, does.
pub proof fn lemma_sum_fits(a: Map<Seq<char>, nat>, b: Map<Seq<char>, nat>)
    requires
        fits_u64(a),
        fits_u64(b),
    ensures
        fits_u64(sum_counts(a, b)) <==> (forall|k: Seq<char>| #[trigger]
            b.contains_key(k) ==> count_of(a, k) + b[k] <= u64::MAX),
{
    if fits_u64(sum_counts(a, b)) {
        assert forall|k: Seq<char>| #[trigger] b.contains_key(k) implies count_of(a, k) + b[k]
            <= u64::MAX by {
            assert(sum_counts(a, b).contains_key(k));
        }
    }
}

proof fn lemma_map_of_fits(es: Seq<(String, u64)>)
    ensures
        fits_u64(map_of(es)),
    decreases es.len(),
{
    if es.len() > 0 {
        lemma_map_of_fits(es.drop_last());
    }
}

/// The tally that a list of (key, count) pairs holds.
spec fn map_of(es: Seq<(String, u64)>) -> Map<Seq<char>, nat>
    decreases es.len(),
{
    if es.len() == 0 {
        Map::empty()
    } else {
        map_of(es.drop_last()).insert(es.last().0@, es.last().1 as nat)
    }
}

/// No two pairs of `es` have the same key.
spec fn keys_distinct(es: Seq<(String, u64)>) -> bool {
    forall|i: int, j: int| 0 <= i < es.len() && 0 <= j < es.len() && i != j ==> #[trigger] es[i].0@ != #[trigger] es[j].0@
}

proof fn lemma_map_of_dom(es: Seq<(String, u64)>)
    ensures
        map_of(es).dom().finite(),
        forall|k: Seq<char>|
            #[trigger] map_of(es).contains_key(k) <==> exists|i: int| 0 <= i < es.len() && es[i].0@ == k,
    decreases es.len(),
{
    if es.len() > 0 {
        lemma_map_of_dom(es.drop_last());
        assert forall|k: Seq<char>| #[trigger] map_of(es).contains_key(k) implies exists|i: int|
            0 <= i < es.len() && es[i].0@ == k by {
            if k != es.last().0@ {
                let i = choose|i: int| 0 <= i < es.drop_last().len() && es.drop_last()[i].0@ == k;
                assert(es[i].0@ == k);
            } else {
                assert(es[es.len() - 1].0@ == k);
            }
        }
        assert forall|k: Seq<char>| (exists|i: int| 0 <= i < es.len() && es[i].0@ == k) implies #[trigger] map_of(
            es,
        ).contains_key(k) by {
            let i = choose|i: int| 0 <= i < es.len() && es[i].0@ == k;
            if i < es.len() - 1 {
                assert(es.drop_last()[i].0@ == k);
            }
        }
    }
}

proof fn lemma_map_of_index(es: Seq<(String, u64)>, i: int)
    requires
        keys_distinct(es),
        0 <= i < es.len(),
    ensures
        map_of(es).contains_key(es[i].0@),
        map_of(es)[es[i].0@] == es[i].1 as nat,
    decreases es.len(),
{
    if i < es.len() - 1 {
        assert(keys_distinct(es.drop_last()));
        lemma_map_of_index(es.drop_last(), i);
        assert(es[i].0@ != es[es.len() - 1].0@);
    }
}

proof fn lemma_map_of_set(es: Seq<(String, u64)>, i: int, e: (String, u64))
    requires
        0 <= i < es.len(),
        e.0@ == es[i].0@,
        keys_distinct(es),
    ensures
        keys_distinct(es.update(i, e)),
        map_of(es.update(i, e)) == map_of(es).insert(e.0@, e.1 as nat),
    decreases es.len(),
{
    let es2 = es.update(i, e);
    assert(keys_distinct(es2)) by {
        assert forall|a: int, b: int|
            0 <= a < es2.len() && 0 <= b < es2.len() && a != b implies #[trigger] es2[a].0@
            != #[trigger] es2[b].0@ by {
            assert(es[a].0@ != es[b].0@);
        }
    }
    if i == es.len() - 1 {
        assert(es2.drop_last() =~= es.drop_last());
        assert(map_of(es2) =~= map_of(es).insert(e.0@, e.1 as nat));
    } else {
        assert(keys_distinct(es.drop_last()));
        assert(es2.drop_last() =~= es.drop_last().update(i, e));
        lemma_map_of_set(es.drop_last(), i, e);
        assert(es[i].0@ != es[es.len() - 1].0@);
        assert(map_of(es2) =~= map_of(es).insert(e.0@, e.1 as nat));
    }
}

proof fn lemma_map_of_len(es: Seq<(String, u64)>)
    requires
        keys_distinct(es),
    ensures
        map_of(es).dom().finite(),
        map_of(es).dom().len() == es.len(),
    decreases es.len(),
{
    lemma_map_of_dom(es);
    if es.len() > 0 {
        assert(keys_distinct(es.drop_last()));
        lemma_map_of_len(es.drop_last());
        lemma_map_of_dom(es.drop_last());
        let k = es.last().0@;
        if map_of(es.drop_last()).contains_key(k) {
            let i = choose|i: int| 0 <= i < es.drop_last().len() && es.drop_last()[i].0@ == k;
            assert(es[i].0@ == es[es.len() - 1].0@);
        }
        assert(map_of(es).dom() =~= map_of(es.drop_last()).dom().insert(k));
    }
}

/// A tally of counts by text key: the map type of the statistics. Each key occurs once.
#[derive(Debug)]
pub struct CountMap {
    entries: Vec<(String, u64)>,
}

impl CountMap {
    #[verifier::type_invariant]
    spec fn well_formed(&self) -> bool {
        keys_distinct(self.entries@)
    }

    /// Every count of a tally fits in a `u64`, and a tally has finitely many keys.
    pub proof fn lemma_counts_fit(&self)
        ensures
            fits_u64(self@),
            self@.dom().finite(),
    {
        lemma_map_of_fits(self.entries@);
        lemma_map_of_dom(self.entries@);
    }

    /// An empty tally.
    pub fn new() -> (r: CountMap)
        ensures
            r@ == Map::<Seq<char>, nat>::empty(),
    {
        let r = CountMap { entries: Vec::new() };
        assert(map_of(r.entries@) =~= Map::<Seq<char>, nat>::empty());
        r
    }

    /// The number of keys.
    pub fn len(&self) -> (n: usize)
        ensures
            n == self@.len(),
    {
        proof {
            use_type_invariant(self);
            lemma_map_of_len(self.entries@);
        }
        self.entries.len()
    }

    /// Whether the tally holds no key.
    pub fn is_empty(&self) -> (b: bool)
        ensures
            b == (self@.len() == 0),
    {
        self.len() == 0
    }

    /// The position of `key` among the entries.
    fn position(&self, key: &String) -> (r: Option<usize>)
        ensures
            r matches Some(i) ==> i < self.entries@.len() && self.entries@[i as int].0@ == key@,
            r is None ==> forall|i: int|
                0 <= i < self.entries@.len() ==> #[trigger] self.entries@[i].0@ != key@,
    {
        let n = self.entries.len();
        for i in 0..n
            invariant
                n == self.entries@.len(),
                forall|j: int| 0 <= j < i ==> #[trigger] self.entries@[j].0@ != key@,
        {
            if self.entries[i].0 == *key {
                return Some(i);
            }
        }
        None
    }

    /// The count held for `key`, if the tally holds it.
    pub fn get(&self, key: &str) -> (r: Option<&u64>)
        ensures
            r matches Some(v) ==> self@.contains_key(key@) && *v as nat == self@[key@],
            r is None ==> !self@.contains_key(key@),
    {
        proof {
            use_type_invariant(self);
            lemma_map_of_dom(self.entries@);
        }
        let k = key.to_owned();
        match self.position(&k) {
            Some(i) => {
                proof {
                    lemma_map_of_index(self.entries@, i as int);
                }
                Some(&self.entries[i].1)
            },
            None => None,
        }
    }

    /// A copy of the stored pairs.
    fn copy_entries(&self) -> (r: Vec<(String, u64)>)
        ensures
            r@ == self.entries@,
    {
        let n = self.entries.len();
        let mut entries: Vec<(String, u64)> = Vec::new();
        for i in 0..n
            invariant
                n == self.entries@.len(),
                entries@ == self.entries@.take(i as int),
        {
            let key = self.entries[i].0.clone();
            entries.push((key, self.entries[i].1));
            assert(entries@ =~= self.entries@.take(i + 1));
        }
        assert(self.entries@.take(n as int) =~= self.entries@);
        entries
    }

    /// The (key, count) pairs of the tally, each key once, in an order that the tally chooses.
    pub fn entries(&self) -> (r: Vec<(String, u64)>)
        ensures
            r@.len() == self@.len(),
            forall|i: int|
                0 <= i < r@.len() ==> self@.contains_key(#[trigger] r@[i].0@) && self@[r@[i].0@]
                    == r@[i].1 as nat,
            forall|i: int, j: int|
                0 <= i < r@.len() && 0 <= j < r@.len() && i != j ==> #[trigger] r@[i].0@
                    != #[trigger] r@[j].0@,
            forall|k: Seq<char>| #[trigger]
                self@.contains_key(k) ==> exists|i: int| 0 <= i < r@.len() && r@[i].0@ == k,
    {
        proof {
            use_type_invariant(self);
            lemma_map_of_len(self.entries@);
            lemma_map_of_dom(self.entries@);
        }
        let r = self.copy_entries();
        assert forall|i: int| 0 <= i < r@.len() implies self@.contains_key(#[trigger] r@[i].0@)
            && self@[r@[i].0@] == r@[i].1 as nat by {
            lemma_map_of_index(self.entries@, i);
        }
        r
    }

    /// Whether every count of `other` can be added to this tally's count for the same key
    /// without leaving the range of `u64`.
    pub fn can_absorb(&self, other: &CountMap) -> (b: bool)
        ensures
            b == (forall|k: Seq<char>| #[trigger]
                other@.contains_key(k) ==> count_of(self@, k) + other@[k] <= u64::MAX),
    {
        proof {
            use_type_invariant(other);
            lemma_map_of_dom(other.entries@);
        }
        let n = other.entries.len();
        for i in 0..n
            invariant
                n == other.entries@.len(),
                keys_distinct(other.entries@),
                forall|j: int|
                    0 <= j < i ==> count_of(self@, #[trigger] other.entries@[j].0@)
                        + other.entries@[j].1 <= u64::MAX,
        {
            let amount = other.entries[i].1;
            let held: u64 = match self.get(other.entries[i].0.as_str()) {
                Some(v) => *v,
                None => 0,
            };
            if held > u64::MAX - amount {
                proof {
                    lemma_map_of_index(other.entries@, i as int);
                    let k = other.entries@[i as int].0@;
                    assert(other@.contains_key(k));
                    assert(count_of(self@, k) == held);
                    assert(!(count_of(self@, k) + other@[k] <= u64::MAX));
                }
                return false;
            }
        }
        assert forall|k: Seq<char>| #[trigger]
            other@.contains_key(k) implies count_of(self@, k) + other@[k] <= u64::MAX by {
            let j = choose|j: int| 0 <= j < other.entries@.len() && other.entries@[j].0@ == k;
            lemma_map_of_index(other.entries@, j);
        }
        true
    }

    /// Adds every count of `other` to this tally: the key-wise sum of the two.
    pub fn absorb(&mut self, other: CountMap)
        requires
            forall|k: Seq<char>| #[trigger]
                other@.contains_key(k) ==> count_of(old(self)@, k) + other@[k] <= u64::MAX,
        ensures
            final(self)@ == sum_counts(old(self)@, other@),
    {
        proof {
            use_type_invariant(&other);
            lemma_map_of_dom(other.entries@);
        }
        let ghost start = self@;
        let n = other.entries.len();
        assert(other.entries@.take(0) =~= Seq::<(String, u64)>::empty());
        assert(sum_counts(start, map_of(other.entries@.take(0))) =~= start);
        for i in 0..n
            invariant
                n == other.entries@.len(),
                keys_distinct(other.entries@),
                start == old(self)@,
                self@ == sum_counts(start, map_of(other.entries@.take(i as int))),
                forall|k: Seq<char>| #[trigger]
                    other@.contains_key(k) ==> count_of(start, k) + other@[k] <= u64::MAX,
        {
            let key = other.entries[i].0.clone();
            let amount = other.entries[i].1;
            let ghost k = key@;
            let ghost prefix = other.entries@.take(i as int);
            proof {
                lemma_map_of_dom(prefix);
                lemma_map_of_index(other.entries@, i as int);
                assert forall|j: int| 0 <= j < prefix.len() implies prefix[j].0@ != k by {
                    assert(other.entries@[j].0@ != other.entries@[i as int].0@);
                }
                assert(!map_of(prefix).contains_key(k));
                assert(count_of(self@, k) == count_of(start, k));
                assert(other@.contains_key(k));
                assert(other@[k] == amount);
            }
            self.add(key, amount);
            proof {
                assert(other.entries@.take(i + 1).drop_last() =~= prefix);
                assert(self@ =~= sum_counts(start, map_of(other.entries@.take(i + 1))));
            }
        }
        assert(other.entries@.take(n as int) =~= other.entries@);
    }

    /// Adds `amount` to the count of `key`; a new key starts from 0.
    pub fn add(&mut self, key: String, amount: u64)
        requires
            count_of(old(self)@, key@) + amount <= u64::MAX,
        ensures
            final(self)@ == bump(old(self)@, key@, amount as nat),
    {
        proof {
            use_type_invariant(&*self);
            lemma_map_of_dom(self.entries@);
        }
        let found = self.position(&key);
        let mut entries: Vec<(String, u64)> = Vec::new();
        std::mem::swap(&mut entries, &mut self.entries);
        let ghost before = entries@;
        assert(before == old(self).entries@);
        match found {
            Some(i) => {
                let old_count = entries[i].1;
                proof {
                    lemma_map_of_index(before, i as int);
                    lemma_map_of_set(before, i as int, (key, (old_count + amount) as u64));
                }
                entries.set(i, (key, old_count + amount));
            },
            None => {
                let ghost k = key@;
                entries.push((key, amount));
                assert(entries@.drop_last() =~= before);
                assert(map_of(entries@) =~= bump(map_of(before), k, amount as nat));
                assert(keys_distinct(entries@)) by {
                    assert forall|a: int, b: int|
                        0 <= a < entries@.len() && 0 <= b < entries@.len() && a != b implies #[trigger] entries@[a].0@
                        != #[trigger] entries@[b].0@ by {
                        if a < before.len() && b < before.len() {
                            assert(before[a].0@ != before[b].0@);
                        } else if a < before.len() {
                            assert(before[a].0@ != k);
                        } else {
                            assert(before[b].0@ != k);
                        }
                    }
                }
            },
        }
        self.entries = entries;
    }
}

impl Clone for CountMap {
    fn clone(&self) -> (r: Self)
        ensures
            r@ == self@,
    {
        proof {
            use_type_invariant(self);
        }
        CountMap { entries: self.copy_entries() }
    }
}

impl View for CountMap {
    type V = Map<Seq<char>, nat>;

    closed spec fn view(&self) -> Map<Seq<char>, nat> {
        map_of(self.entries@)
    }
}

} // verus!
