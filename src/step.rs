use vstd::prelude::*;
use vstd::string::StringExecFns;
use crate::signal::{Queriable, StepTypeUUID};
use crate::text::{decimal, index_width, index_width_of, push_decimal, push_zero_padded, zero_padded};

verus! {

/// Whether the keys of an association list are pairwise distinct.
pub open spec fn keys_unique<K, V>(s: Seq<(K, V)>) -> bool {
    forall|i: int, j: int| 0 <= i < s.len() && 0 <= j < s.len() && i != j ==> s[i].0 != s[j].0
}

/// Whether `k` is a key of the association list.
pub open spec fn has_key<K, V>(s: Seq<(K, V)>, k: K) -> bool {
    exists|i: int| 0 <= i < s.len() && s[i].0 == k
}

/// The map that an association list with distinct keys stands for.
pub open spec fn to_map<K, V>(s: Seq<(K, V)>) -> Map<K, V> {
    Map::new(
        |k: K| has_key(s, k),
        |k: K| s[choose|i: int| 0 <= i < s.len() && s[i].0 == k].1,
    )
}

/// Replacing the entry at `i`, which holds key `k`, stands for inserting `k`.
pub proof fn lemma_update_is_insert<K, V>(s: Seq<(K, V)>, i: int, k: K, v: V)
    requires
        keys_unique(s),
        0 <= i < s.len(),
        s[i].0 == k,
    ensures
        keys_unique(s.update(i, (k, v))),
        to_map(s.update(i, (k, v))) == to_map(s).insert(k, v),
{
    let t = s.update(i, (k, v));
    assert forall|x: K| #[trigger] has_key(t, x) <==> has_key(s, x) by {
        if has_key(s, x) {
            let j = choose|j: int| 0 <= j < s.len() && s[j].0 == x;
            assert(t[j].0 == x);
        }
        if has_key(t, x) {
            let j = choose|j: int| 0 <= j < t.len() && t[j].0 == x;
            assert(s[j].0 == x);
        }
    }
    assert forall|x: K| has_key(t, x) implies #[trigger] to_map(t)[x] == to_map(s).insert(k, v)[x] by {
        let j = choose|j: int| 0 <= j < t.len() && t[j].0 == x;
        if x == k {
            assert(j == i);
        } else {
            let j2 = choose|j2: int| 0 <= j2 < s.len() && s[j2].0 == x;
            assert(j2 == j);
        }
    }
    assert(to_map(t) =~= to_map(s).insert(k, v));
}

/// Appending an entry with a fresh key `k` stands for inserting `k`.
pub proof fn lemma_push_is_insert<K, V>(s: Seq<(K, V)>, k: K, v: V)
    requires
        keys_unique(s),
        !has_key(s, k),
    ensures
        keys_unique(s.push((k, v))),
        to_map(s.push((k, v))) == to_map(s).insert(k, v),
{
    let t = s.push((k, v));
    assert forall|x: K| #[trigger] has_key(t, x) <==> (has_key(s, x) || x == k) by {
        if has_key(s, x) {
            let j = choose|j: int| 0 <= j < s.len() && s[j].0 == x;
            assert(t[j].0 == x);
        }
        if x == k {
            assert(t[s.len() as int].0 == x);
        }
        if has_key(t, x) && x != k {
            let j = choose|j: int| 0 <= j < t.len() && t[j].0 == x;
            assert(s[j].0 == x);
        }
    }
    assert forall|x: K| has_key(t, x) implies #[trigger] to_map(t)[x] == to_map(s).insert(k, v)[x] by {
        let j = choose|j: int| 0 <= j < t.len() && t[j].0 == x;
        if x == k {
            assert(j == s.len());
        } else {
            let j2 = choose|j2: int| 0 <= j2 < s.len() && s[j2].0 == x;
            assert(t[j2].0 == x);
        }
    }
    assert(to_map(t) =~= to_map(s).insert(k, v));
}

/// One row of a witness: the step type it instantiates and the values that
/// step assigns to its signals.
pub struct StepInstance<F> {
    pub step_type_uuid: StepTypeUUID,
    pub assignments: Vec<(Queriable, F)>,
}

impl<F> StepInstance<F> {
    /// Each signal is assigned at most once.
    pub open spec fn wf(&self) -> bool {
        keys_unique(self.assignments@)
    }

    /// The assignments as a map from signal to value.
    pub open spec fn assigned(&self) -> Map<Queriable, F> {
        to_map(self.assignments@)
    }

    /// A row of step type `step_type_uuid` with no assignments.
    pub fn new(step_type_uuid: StepTypeUUID) -> (r: StepInstance<F>)
        ensures
            r.step_type_uuid == step_type_uuid,
            r.assignments@ == Seq::<(Queriable, F)>::empty(),
            r.wf(),
            r.assigned() == Map::<Queriable, F>::empty(),
    {
        let r = StepInstance { step_type_uuid, assignments: Vec::new() };
        assert(r.assigned() =~= Map::<Queriable, F>::empty());
        r
    }

    /// Assigns `rhs` to the signal `lhs`, replacing any earlier value of it.
    pub fn assign(&mut self, lhs: Queriable, rhs: F)
        requires
            old(self).wf(),
        ensures
            final(self).wf(),
            final(self).step_type_uuid == old(self).step_type_uuid,
            final(self).assigned() == old(self).assigned().insert(lhs, rhs),
    {
        let n = self.assignments.len();
        let mut i: usize = 0;
        while i < n
            invariant
                n == self.assignments.len(),
                *self == *old(self),
                keys_unique(self.assignments@),
                0 <= i <= n,
                forall|j: int| 0 <= j < i ==> self.assignments@[j].0 != lhs,
            decreases n - i,
        {
            if self.assignments[i].0.same(&lhs) {
                proof {
                    lemma_update_is_insert(self.assignments@, i as int, lhs, rhs);
                }
                self.assignments.set(i, (lhs, rhs));
                return;
            }
            i = i + 1;
        }
        proof {
            lemma_push_is_insert(self.assignments@, lhs, rhs);
        }
        self.assignments.push((lhs, rhs));
    }
}

/// The rows of a trace, in row order.
pub struct TraceWitness<F> {
    pub step_instances: Vec<StepInstance<F>>,
}

/// The `key = value, ` items of a rendered row, in order.
pub open spec fn pairs_text(texts: Seq<(Seq<char>, Seq<char>)>) -> Seq<char>
    decreases texts.len(),
{
    if texts.len() == 0 {
        Seq::empty()
    } else {
        let p = texts.last();
        pairs_text(texts.drop_last()) + p.0 + seq![' ', '=', ' '] + p.1 + seq![',', ' ']
    }
}

/// The rendered line of row `index`: the index zero-padded to the width
/// that `count` assignments call for, the step type in parentheses, then
/// the assignments.
pub open spec fn row_line(
    index: nat,
    uuid: nat,
    count: nat,
    texts: Seq<(Seq<char>, Seq<char>)>,
) -> Seq<char> {
    zero_padded(decimal(index), index_width(count)) + seq!['('] + decimal(uuid) + seq![')', ':', ' ']
        + pairs_text(texts) + seq!['\n']
}

/// The character sequences of pairs of strings.
pub open spec fn text_pairs(v: Seq<(String, String)>) -> Seq<(Seq<char>, Seq<char>)> {
    v.map_values(|p: (String, String)| (p.0@, p.1@))
}

/// The first `n` rendered lines of `rows`, where `texts[i]` holds the key
/// and value texts of row `i`.
pub open spec fn rendered<F>(
    rows: Seq<StepInstance<F>>,
    texts: Seq<Seq<(Seq<char>, Seq<char>)>>,
    n: nat,
) -> Seq<char>
    decreases n,
{
    if n == 0 {
        Seq::empty()
    } else {
        let i = (n - 1) as int;
        rendered(rows, texts, (n - 1) as nat) + row_line(
            i as nat,
            rows[i].step_type_uuid as nat,
            rows[i].assignments@.len(),
            texts[i],
        )
    }
}

/// Appends the line of row `index` of step type `uuid`, which holds `count`
/// assignments whose key and value texts are `texts`.
pub fn push_row_line(
    s: &mut String,
    index: usize,
    uuid: StepTypeUUID,
    count: usize,
    texts: &Vec<(String, String)>,
)
    ensures
        final(s)@ == old(s)@ + row_line(index as nat, uuid as nat, count as nat, text_pairs(texts@)),
{
    proof {
        reveal_strlit("(");
        reveal_strlit("): ");
        reveal_strlit(" = ");
        reveal_strlit(", ");
        reveal_strlit("\n");
    }
    let ghost start = s@;
    let width = index_width_of(count);
    push_zero_padded(s, index as u128, width);
    s.append("(");
    push_decimal(s, uuid);
    s.append("): ");
    let ghost head = s@;
    let mut i: usize = 0;
    while i < texts.len()
        invariant
            0 <= i <= texts.len(),
            s@ == head + pairs_text(text_pairs(texts@).take(i as int)),
        decreases texts.len() - i,
    {
        proof {
            reveal_strlit(" = ");
            reveal_strlit(", ");
        }
        let ghost before = s@;
        let key = texts[i].0.as_str();
        let value = texts[i].1.as_str();
        s.append(key);
        s.append(" = ");
        s.append(value);
        s.append(", ");
        assert(s@ == before + (key@ + seq![' ', '=', ' '] + value@ + seq![',', ' '])) by {
            assert(s@ =~= before + (key@ + seq![' ', '=', ' '] + value@ + seq![',', ' ']));
        }
        proof {
            let t = text_pairs(texts@);
            assert(t.take(i + 1).drop_last() =~= t.take(i as int));
            assert(t.take(i + 1).last() == (texts@[i as int].0@, texts@[i as int].1@));
            assert(pairs_text(t.take(i + 1)) == pairs_text(t.take(i as int)) + texts@[i as int].0@
                + seq![' ', '=', ' '] + texts@[i as int].1@ + seq![',', ' ']);
            let p = pairs_text(t.take(i as int));
            let item = texts@[i as int].0@ + seq![' ', '=', ' '] + texts@[i as int].1@ + seq![',', ' '];
            assert(pairs_text(t.take(i + 1)) =~= p + item);
            assert(s@ == (head + p) + item);
            assert(s@ =~= head + pairs_text(t.take(i + 1)));
        }
        i = i + 1;
    }
    s.append("\n");
    assert(text_pairs(texts@).take(texts.len() as int) =~= text_pairs(texts@));
    assert(s@ =~= old(s)@ + row_line(index as nat, uuid as nat, count as nat, text_pairs(texts@)));
}

/// Relies on the `Debug` formatting of `format!`: the debug text of a
/// value.
#[verifier::external_body]
fn debug_text<T: std::fmt::Debug>(v: &T) -> String {
    format!("{:?}", v)
}

impl<F: std::fmt::Debug> TraceWitness<F> {
    /// A human-readable rendering, one line per row: the row index
    /// zero-padded to one more digit than the row's assignment count has,
    /// the step type in parentheses, then each assignment as
    /// `key = value, ` in the order the row holds them.
    pub fn render(&self) -> (r: String)
        ensures
            exists|texts: Seq<Seq<(Seq<char>, Seq<char>)>>|
                #![trigger rendered(self.step_instances@, texts, self.step_instances@.len())]
                texts.len() == self.step_instances@.len()
                    && (forall|i: int| 0 <= i < texts.len() ==> (#[trigger] texts[i]).len()
                        == self.step_instances@[i].assignments@.len())
                    && r@ == rendered(self.step_instances@, texts, self.step_instances@.len()),
    {
        let mut out = String::new();
        let ghost texts: Seq<Seq<(Seq<char>, Seq<char>)>> = Seq::empty();
        let rows = &self.step_instances;
        let mut i: usize = 0;
        while i < rows.len()
            invariant
                0 <= i <= rows.len(),
                rows == &self.step_instances,
                texts.len() == i,
                forall|j: int| 0 <= j < i ==> (#[trigger] texts[j]).len() == rows@[j].assignments@.len(),
                out@ == rendered(rows@, texts, i as nat),
            decreases rows.len() - i,
        {
            let row = &rows[i];
            let mut pairs: Vec<(String, String)> = Vec::new();
            let mut k: usize = 0;
            while k < row.assignments.len()
                invariant
                    0 <= k <= row.assignments.len(),
                    pairs@.len() == k,
                decreases row.assignments.len() - k,
            {
                let key = debug_text(&row.assignments[k].0);
                let value = debug_text(&row.assignments[k].1);
                pairs.push((key, value));
                k = k + 1;
            }
            push_row_line(&mut out, i, row.step_type_uuid, row.assignments.len(), &pairs);
            proof {
                let t = text_pairs(pairs@);
                let old_texts = texts;
                texts = texts.push(t);
                assert(texts.drop_last() =~= old_texts);
                lemma_rendered_prefix(rows@, old_texts, texts, i as nat);
            }
            i = i + 1;
        }
        out
    }
}

/// Rendering the first `n` rows reads only the first `n` texts.
proof fn lemma_rendered_prefix<F>(
    rows: Seq<StepInstance<F>>,
    a: Seq<Seq<(Seq<char>, Seq<char>)>>,
    b: Seq<Seq<(Seq<char>, Seq<char>)>>,
    n: nat,
)
    requires
        n <= a.len(),
        n <= b.len(),
        forall|j: int| 0 <= j < n ==> a[j] == b[j],
    ensures
        rendered(rows, a, n) == rendered(rows, b, n),
    decreases n,
{
    if n > 0 {
        lemma_rendered_prefix(rows, a, b, (n - 1) as nat);
    }
}

} // verus!
