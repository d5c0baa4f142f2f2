use vstd::prelude::*;
use crate::signal::{FieldValue, Queriable};
use crate::step::{has_key, keys_unique};

verus! {

/// The columns that an association list from signals to value vectors
/// stands for.
pub open spec fn column_map<F>(s: Seq<(Queriable, Vec<F>)>) -> Map<Queriable, Seq<F>> {
    Map::new(
        |q: Queriable| has_key(s, q),
        |q: Queriable| s[choose|i: int| 0 <= i < s.len() && s[i].0 == q].1@,
    )
}

/// A column of `n` copies of `zero`.
pub open spec fn zero_column<F>(n: nat, zero: F) -> Seq<F> {
    Seq::new(n, |i: int| zero)
}

/// The columns after writing `v` at row `offset` of the column of `q`: a
/// column seen for the first time starts as all zeros.
pub open spec fn write_column<F>(
    cols: Map<Queriable, Seq<F>>,
    n: nat,
    zero: F,
    offset: int,
    q: Queriable,
    v: F,
) -> Map<Queriable, Seq<F>> {
    let col = if cols.contains_key(q) {
        cols[q]
    } else {
        zero_column(n, zero)
    };
    cols.insert(q, col.update(offset, v))
}

/// Replacing the entry at `i`, which holds key `q`, stands for setting the
/// column of `q`.
proof fn lemma_replace_column<F>(s: Seq<(Queriable, Vec<F>)>, i: int, q: Queriable, c: Vec<F>)
    requires
        keys_unique(s),
        0 <= i < s.len(),
        s[i].0 == q,
    ensures
        keys_unique(s.update(i, (q, c))),
        column_map(s.update(i, (q, c))) == column_map(s).insert(q, c@),
{
    let t = s.update(i, (q, c));
    assert forall|x: Queriable| #[trigger] has_key(t, x) <==> has_key(s, x) by {
        if has_key(s, x) {
            let j = choose|j: int| 0 <= j < s.len() && s[j].0 == x;
            assert(t[j].0 == x);
        }
        if has_key(t, x) {
            let j = choose|j: int| 0 <= j < t.len() && t[j].0 == x;
            assert(s[j].0 == x);
        }
    }
    assert forall|x: Queriable| has_key(t, x) implies #[trigger] column_map(t)[x] == column_map(s).insert(q, c@)[x] by {
        let j = choose|j: int| 0 <= j < t.len() && t[j].0 == x;
        if x == q {
            assert(j == i);
        } else {
            let j2 = choose|j2: int| 0 <= j2 < s.len() && s[j2].0 == x;
            assert(j2 == j);
        }
    }
    assert(column_map(t) =~= column_map(s).insert(q, c@));
}

/// Appending an entry with a fresh key `q` stands for adding its column.
proof fn lemma_push_column<F>(s: Seq<(Queriable, Vec<F>)>, q: Queriable, c: Vec<F>)
    requires
        keys_unique(s),
        !has_key(s, q),
    ensures
        keys_unique(s.push((q, c))),
        column_map(s.push((q, c))) == column_map(s).insert(q, c@),
{
    let t = s.push((q, c));
    assert forall|x: Queriable| #[trigger] has_key(t, x) <==> (has_key(s, x) || x == q) by {
        if has_key(s, x) {
            let j = choose|j: int| 0 <= j < s.len() && s[j].0 == x;
            assert(t[j].0 == x);
        }
        if x == q {
            assert(t[s.len() as int].0 == x);
        }
        if has_key(t, x) && x != q {
            let j = choose|j: int| 0 <= j < t.len() && t[j].0 == x;
            assert(s[j].0 == x);
        }
    }
    assert forall|x: Queriable| has_key(t, x) implies #[trigger] column_map(t)[x] == column_map(s).insert(q, c@)[x] by {
        let j = choose|j: int| 0 <= j < t.len() && t[j].0 == x;
        if x == q {
            assert(j == s.len());
        } else {
            let j2 = choose|j2: int| 0 <= j2 < s.len() && s[j2].0 == x;
            assert(t[j2].0 == x);
        }
    }
    assert(column_map(t) =~= column_map(s).insert(q, c@));
}

/// A fixed-column generation context: the values assigned so far to each
/// fixed column, over a fixed number of rows.
pub struct FixedGenContext<F> {
    assignments: Vec<(Queriable, Vec<F>)>,
    num_steps: usize,
    zero: F,
}

impl<F: FieldValue> FixedGenContext<F> {
    /// The columns assigned so far.
    pub closed spec fn columns(&self) -> Map<Queriable, Seq<F>> {
        column_map(self.assignments@)
    }

    /// The number of rows of every column.
    pub closed spec fn target(&self) -> nat {
        self.num_steps as nat
    }

    /// The value of every row not assigned explicitly.
    pub closed spec fn zero_value(&self) -> F {
        self.zero
    }

    /// Only fixed columns are held, each with one value per row.
    pub open spec fn well_formed(&self) -> bool {
        forall|q: Queriable|
            #[trigger] self.columns().contains_key(q) ==> q.spec_is_fixed()
                && self.columns()[q].len() == self.target()
    }

    /// Internal consistency: distinct keys, and the public invariant.
    pub closed spec fn wf(&self) -> bool {
        keys_unique(self.assignments@) && self.well_formed()
    }

    /// An empty context for columns of `num_steps` rows.
    pub fn new(num_steps: usize) -> (r: Self)
        ensures
            r.wf(),
            r.well_formed(),
            r.target() == num_steps,
            call_ensures(F::zero, (), r.zero_value()),
            r.columns() == Map::<Queriable, Seq<F>>::empty(),
    {
        let r = FixedGenContext { assignments: Vec::new(), num_steps, zero: F::zero() };
        assert(r.columns() =~= Map::<Queriable, Seq<F>>::empty());
        r
    }

    /// Sets row `offset` of the fixed column `lhs` to `rhs`. A column seen
    /// for the first time starts with every row at zero.
    pub fn assign(&mut self, offset: usize, lhs: Queriable, rhs: F)
        requires
            old(self).wf(),
            lhs.spec_is_fixed(),
            offset < old(self).target(),
        ensures
            final(self).wf(),
            final(self).well_formed(),
            final(self).target() == old(self).target(),
            final(self).zero_value() == old(self).zero_value(),
            final(self).columns() == write_column(
                old(self).columns(),
                old(self).target(),
                old(self).zero_value(),
                offset as int,
                lhs,
                rhs,
            ),
    {
        let n = self.assignments.len();
        let mut i: usize = 0;
        while i < n
            invariant
                n == self.assignments.len(),
                0 <= i <= n,
                *self == *old(self),
                self.wf(),
                lhs.spec_is_fixed(),
                offset < self.target(),
                forall|j: int| 0 <= j < i ==> self.assignments@[j].0 != lhs,
            decreases n - i,
        {
            if self.assignments[i].0.same(&lhs) {
                let ghost before = self.assignments@;
                let ghost cols = self.columns();
                assert(before[i as int].0 == lhs);
                assert(cols.contains_key(lhs));
                assert(cols[lhs].len() == self.target());
                let entry = self.assignments.remove(i);
                let q = entry.0;
                let mut col = entry.1;
                assert(col@ == cols[lhs]) by {
                    let k = choose|k: int| 0 <= k < before.len() && before[k].0 == lhs;
                    assert(k == i);
                }
                assert(col@.len() == old(self).target());
                col.set(offset, rhs);
                self.assignments.insert(i, (q, col));
                proof {
                    assert(self.assignments@ =~= before.update(i as int, (lhs, col)));
                    lemma_replace_column(before, i as int, lhs, col);
                    assert(self.columns() =~= write_column(
                        cols, old(self).target(), old(self).zero_value(), offset as int, lhs, rhs));
                    assert forall|x: Queriable| #[trigger] self.columns().contains_key(x) implies x.spec_is_fixed()
                        && self.columns()[x].len() == self.target() by {
                        if x != lhs {
                            assert(cols.contains_key(x));
                        }
                    }
                }
                return;
            }
            i = i + 1;
        }
        let mut col: Vec<F> = Vec::new();
        let mut k: usize = 0;
        while k < self.num_steps
            invariant
                *self == *old(self),
                self.wf(),
                lhs.spec_is_fixed(),
                offset < self.target(),
                k <= self.num_steps,
                col@ == zero_column(k as nat, self.zero),
            decreases self.num_steps - k,
        {
            col.push(self.zero);
            k = k + 1;
            assert(col@ =~= zero_column(k as nat, self.zero));
        }
        col.set(offset, rhs);
        proof {
            lemma_push_column(self.assignments@, lhs, col);
        }
        self.assignments.push((lhs, col));
        assert(self.columns() =~= write_column(
            old(self).columns(), old(self).target(), old(self).zero_value(), offset as int, lhs, rhs));
        assert forall|x: Queriable| #[trigger] self.columns().contains_key(x) implies x.spec_is_fixed()
            && self.columns()[x].len() == self.target() by {
            if x != lhs {
                assert(old(self).columns().contains_key(x));
            }
        }
    }

    /// Ends the pass and hands over every assigned column.
    pub fn get_assignments(self) -> (r: Vec<(Queriable, Vec<F>)>)
        requires
            self.wf(),
        ensures
            keys_unique(r@),
            column_map(r@) == self.columns(),
    {
        self.assignments
    }
}

/// The columns after a sequence of writes `(offset, signal, value)`, made in
/// order on a context with no columns yet.
pub open spec fn replay<F>(n: nat, zero: F, writes: Seq<(usize, Queriable, F)>) -> Map<Queriable, Seq<F>>
    decreases writes.len(),
{
    if writes.len() == 0 {
        Map::empty()
    } else {
        let w = writes.last();
        write_column(replay(n, zero, writes.drop_last()), n, zero, w.0 as int, w.1, w.2)
    }
}

/// The value of the last write to row `o` of `q`, if any.
pub open spec fn last_write<F>(writes: Seq<(usize, Queriable, F)>, q: Queriable, o: int) -> Option<F>
    decreases writes.len(),
{
    if writes.len() == 0 {
        None
    } else if writes.last().1 == q && writes.last().0 == o {
        Some(writes.last().2)
    } else {
        last_write(writes.drop_last(), q, o)
    }
}

/// Whether some write touches the column of `q`.
pub open spec fn touches<F>(writes: Seq<(usize, Queriable, F)>, q: Queriable) -> bool {
    exists|k: int| 0 <= k < writes.len() && writes[k].1 == q
}

/// After any sequence of in-range writes, exactly the touched columns exist;
/// each has `n` rows; a row holds the value of the last write to it, and a
/// row never written holds zero.
pub proof fn lemma_last_write_wins<F>(n: nat, zero: F, writes: Seq<(usize, Queriable, F)>)
    requires
        forall|k: int| 0 <= k < writes.len() ==> (#[trigger] writes[k]).0 < n,
    ensures
        forall|q: Queriable| #[trigger] replay(n, zero, writes).contains_key(q) <==> touches(writes, q),
        forall|q: Queriable|
            replay(n, zero, writes).contains_key(q) ==> (#[trigger] replay(n, zero, writes)[q]).len() == n,
        forall|q: Queriable, o: int|
            replay(n, zero, writes).contains_key(q) && 0 <= o < n ==> #[trigger] replay(n, zero, writes)[q][o]
                == match last_write(writes, q, o) {
                Some(v) => v,
                None => zero,
            },
    decreases writes.len(),
{
    if writes.len() > 0 {
        let rest = writes.drop_last();
        let w = writes.last();
        assert forall|k: int| 0 <= k < rest.len() implies (#[trigger] rest[k]).0 < n by {
            assert(rest[k] == writes[k]);
        }
        assert(w.0 < n) by {
            assert(writes[writes.len() - 1] == w);
        }
        lemma_last_write_wins(n, zero, rest);
        let prev = replay(n, zero, rest);
        let r = replay(n, zero, writes);
        let col = if prev.contains_key(w.1) { prev[w.1] } else { zero_column(n, zero) };
        assert(r == prev.insert(w.1, col.update(w.0 as int, w.2)));
        assert(col.len() == n);
        assert forall|q: Queriable| touches(writes, q) <==> (touches(rest, q) || q == w.1) by {
            if touches(rest, q) {
                let k = choose|k: int| 0 <= k < rest.len() && rest[k].1 == q;
                assert(writes[k] == rest[k]);
            }
            if touches(writes, q) && q != w.1 {
                let k = choose|k: int| 0 <= k < writes.len() && writes[k].1 == q;
                assert(rest[k] == writes[k]);
            }
            if q == w.1 {
                assert(writes[writes.len() - 1].1 == q);
            }
        }
        assert forall|q: Queriable, o: int|
            r.contains_key(q) && 0 <= o < n implies #[trigger] r[q][o] == match last_write(writes, q, o) {
                Some(v) => v,
                None => zero,
            } by {
            if q == w.1 && o != w.0 && !prev.contains_key(q) {
                lemma_untouched_never_written(rest, q, o);
            }
        }
    }
}

/// A column that no write touches has no last write.
proof fn lemma_untouched_never_written<F>(writes: Seq<(usize, Queriable, F)>, q: Queriable, o: int)
    requires
        !touches(writes, q),
    ensures
        last_write(writes, q, o) == None::<F>,
    decreases writes.len(),
{
    if writes.len() > 0 {
        let rest = writes.drop_last();
        assert(writes[writes.len() - 1].1 != q);
        assert forall|k: int| 0 <= k < rest.len() implies rest[k].1 != q by {
            assert(rest[k] == writes[k]);
        }
        lemma_untouched_never_written(rest, q, o);
    }
}

} // verus!
