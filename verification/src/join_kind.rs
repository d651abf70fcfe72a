use vstd::prelude::*;
use vstd::seq_lib::seq_to_set_is_finite;
use vstd::set_lib::{lemma_int_range, lemma_len_subset, lemma_subset_equality, set_int_range};
use crate::ra::{InlineFixedRA, InnerJoin, Joiner, RelAlgebra, SpecPlan};
use crate::symb::{find_position, has_name, lemma_position_of, position_of, SpecSymbol, Symbol};

verus! {

/// Whether the positions are, in some order, exactly the first positions:
/// each position below their number occurs among them. A join whose right
/// keys sit at such positions can be answered by a scan of a range.
pub open spec fn positions_form_prefix(s: Seq<usize>) -> bool {
    forall|k: usize| k < s.len() ==> #[trigger] s.contains(k)
}

/// Whether the key positions on the right of a join are exactly the first
/// positions of that side, in any order. A partial match does not count.
pub fn join_is_prefix(right_join_indices: &Vec<usize>) -> (b: bool)
    ensures
        b == positions_form_prefix(right_join_indices@),
{
    let n = right_join_indices.len();
    let mut k: usize = 0;
    while k < n
        invariant
            k <= n,
            n == right_join_indices.len(),
            forall|j: usize| j < k ==> #[trigger] right_join_indices@.contains(j),
        decreases n - k,
    {
        let mut found = false;
        let mut i: usize = 0;
        while i < n
            invariant
                i <= n,
                n == right_join_indices.len(),
                found <==> exists|j: int| 0 <= j < i && right_join_indices@[j] == k,
            decreases n - i,
        {
            if right_join_indices[i] == k {
                found = true;
            }
            i += 1;
        }
        if !found {
            assert(!right_join_indices@.contains(k));
            return false;
        }
        assert(right_join_indices@.contains(k));
        k += 1;
    }
    true
}

/// The positions form a prefix exactly when none of them occurs twice and
/// each is below their number: put in order they read 0, 1, 2 and so on,
/// without a gap. This holds of every list that a vector can hold.
pub proof fn law_prefix_positions(s: Seq<usize>)
    requires
        s.len() <= usize::MAX,
    ensures
        positions_form_prefix(s) <==> s.no_duplicates() && forall|i: int|
            0 <= i < s.len() ==> (#[trigger] s[i]) < s.len(),
{
    let n = s.len() as int;
    let si = Seq::new(s.len(), |i: int| s[i] as int);
    let range = set_int_range(0, n);
    lemma_int_range(0, n);
    si.lemma_cardinality_of_set();
    seq_to_set_is_finite(si);
    if positions_form_prefix(s) {
        assert forall|k: int| range.contains(k) implies si.to_set().contains(k) by {
            let ku = k as usize;
            assert(s.contains(ku));
            let j = choose|j: int| 0 <= j < s.len() && s[j] == ku;
            assert(si[j] == k);
            assert(si.contains(k));
        }
        lemma_len_subset(range, si.to_set());
        lemma_subset_equality(range, si.to_set());
        si.lemma_no_dup_set_cardinality();
        assert forall|i: int, j: int| 0 <= i < s.len() && 0 <= j < s.len() && i != j implies s[i] != s[j] by {
            assert(si[i] != si[j]);
        }
        assert forall|i: int| 0 <= i < s.len() implies (#[trigger] s[i]) < s.len() by {
            assert(si.contains(si[i]));
            assert(range.contains(si[i]));
        }
    }
    if s.no_duplicates() && forall|i: int| 0 <= i < s.len() ==> (#[trigger] s[i]) < s.len() {
        assert forall|i: int, j: int| 0 <= i < si.len() && 0 <= j < si.len() && i != j implies si[i] != si[j] by {
            assert(s[i] != s[j]);
        }
        si.unique_seq_to_set();
        assert forall|k: int| si.to_set().contains(k) implies range.contains(k) by {
            let j = choose|j: int| 0 <= j < si.len() && si[j] == k;
            assert(s[j] < s.len());
        }
        lemma_subset_equality(si.to_set(), range);
        assert forall|k: usize| k < s.len() implies #[trigger] s.contains(k) by {
            assert(range.contains(k as int));
            assert(si.contains(k as int));
            let j = choose|j: int| 0 <= j < si.len() && si[j] == k as int;
            assert(s[j] == k);
        }
    }
}

/// The position in `bindings` of each of the keys.
pub open spec fn key_positions(keys: Seq<SpecSymbol>, bindings: Seq<SpecSymbol>) -> Seq<usize> {
    Seq::new(keys.len(), |i: int| position_of(bindings, keys[i].name).unwrap() as usize)
}

/// Whether each of the keys occurs in `bindings`.
pub open spec fn keys_are_bound(keys: Seq<SpecSymbol>, bindings: Seq<SpecSymbol>) -> bool {
    forall|i: int| 0 <= i < keys.len() ==> has_name(bindings, (#[trigger] keys[i]).name)
}

/// The key pairs of a join, as far as both lists reach.
pub open spec fn paired(left_keys: Seq<SpecSymbol>, right_keys: Seq<SpecSymbol>) -> int {
    if left_keys.len() <= right_keys.len() {
        left_keys.len() as int
    } else {
        right_keys.len() as int
    }
}

impl Joiner {
    /// The key pairs by name: the `i`-th entry holds the names of the
    /// `i`-th left key and of the `i`-th right key.
    pub fn as_map(&self) -> (r: Vec<(String, String)>)
        ensures
            r.len() == paired(self.left_keys.deep_view(), self.right_keys.deep_view()),
            forall|i: int|
                0 <= i < r.len() ==> (#[trigger] r[i]).0@ == self.left_keys[i]@.name && r[i].1@
                    == self.right_keys[i]@.name,
    {
        let mut out: Vec<(String, String)> = Vec::new();
        let mut i: usize = 0;
        while i < self.left_keys.len() && i < self.right_keys.len()
            invariant
                i <= self.left_keys.len(),
                i <= self.right_keys.len(),
                out.len() == i,
                forall|j: int|
                    0 <= j < i ==> (#[trigger] out[j]).0@ == self.left_keys[j]@.name && out[j].1@
                        == self.right_keys[j]@.name,
            decreases self.left_keys.len() - i,
        {
            out.push((self.left_keys[i].name.clone(), self.right_keys[i].name.clone()));
            i += 1;
        }
        out
    }

    /// The positions of the keys of each pair in the bindings of its side.
    /// Every key must occur in the bindings of its side.
    pub fn join_indices(&self, left_bindings: &Vec<Symbol>, right_bindings: &Vec<Symbol>) -> (r: (
        Vec<usize>,
        Vec<usize>,
    ))
        requires
            keys_are_bound(
                self.left_keys.deep_view().take(paired(self.left_keys.deep_view(), self.right_keys.deep_view())),
                left_bindings.deep_view(),
            ),
            keys_are_bound(
                self.right_keys.deep_view().take(paired(self.left_keys.deep_view(), self.right_keys.deep_view())),
                right_bindings.deep_view(),
            ),
        ensures
            r.0@ == key_positions(
                self.left_keys.deep_view().take(paired(self.left_keys.deep_view(), self.right_keys.deep_view())),
                left_bindings.deep_view(),
            ),
            r.1@ == key_positions(
                self.right_keys.deep_view().take(paired(self.left_keys.deep_view(), self.right_keys.deep_view())),
                right_bindings.deep_view(),
            ),
    {
        let mut ret_l: Vec<usize> = Vec::new();
        let mut ret_r: Vec<usize> = Vec::new();
        let ghost n = paired(self.left_keys.deep_view(), self.right_keys.deep_view());
        let ghost lk = self.left_keys.deep_view().take(n);
        let ghost rk = self.right_keys.deep_view().take(n);
        let mut i: usize = 0;
        while i < self.left_keys.len() && i < self.right_keys.len()
            invariant
                i <= n,
                n == paired(self.left_keys.deep_view(), self.right_keys.deep_view()),
                lk == self.left_keys.deep_view().take(n),
                rk == self.right_keys.deep_view().take(n),
                keys_are_bound(lk, left_bindings.deep_view()),
                keys_are_bound(rk, right_bindings.deep_view()),
                ret_l.len() == i,
                ret_r.len() == i,
                forall|j: int| 0 <= j < i ==> ret_l[j] == key_positions(lk, left_bindings.deep_view())[j],
                forall|j: int| 0 <= j < i ==> ret_r[j] == key_positions(rk, right_bindings.deep_view())[j],
            decreases n - i,
        {
            proof {
                assert(lk[i as int] == self.left_keys[i as int]@);
                assert(rk[i as int] == self.right_keys[i as int]@);
                assert(has_name(left_bindings.deep_view(), lk[i as int].name));
                assert(has_name(right_bindings.deep_view(), rk[i as int].name));
                lemma_position_of(left_bindings.deep_view(), lk[i as int].name);
                lemma_position_of(right_bindings.deep_view(), rk[i as int].name);
            }
            let l_pos = find_position(left_bindings, &self.left_keys[i]);
            let r_pos = find_position(right_bindings, &self.right_keys[i]);
            ret_l.push(l_pos.unwrap());
            ret_r.push(r_pos.unwrap());
            i += 1;
        }
        proof {
            assert(ret_l@ =~= key_positions(lk, left_bindings.deep_view()));
            assert(ret_r@ =~= key_positions(rk, right_bindings.deep_view()));
        }
        (ret_l, ret_r)
    }
}

impl SpecPlan {
    /// Whether the kind of a join can be told: the right child is no
    /// reordering, and where it is a scan, the keys of each pair are among
    /// what the children expose.
    pub open spec fn join_kind_defined(self) -> bool {
        self matches SpecPlan::Join { left, right, left_keys, right_keys, .. } ==> {
            &&& !(*right is Reorder)
            &&& (*right is TempStore || *right is Stored) ==> {
                &&& keys_are_bound(
                    left_keys.take(paired(left_keys, right_keys)),
                    left.bindings_after_eliminate(),
                )
                &&& keys_are_bound(
                    right_keys.take(paired(left_keys, right_keys)),
                    right.bindings_after_eliminate(),
                )
            }
        }
    }

    /// The kind of a join, told from its right child. Against rows given
    /// in place it is `null_join` without rows, `singleton_join` with one
    /// row and `fixed_join` with more. Against a scan it is a prefix join
    /// where the right keys sit at the first positions of the scan, and a
    /// materialized join otherwise. Against anything else it is a generic
    /// materialized join.
    pub open spec fn join_type(self) -> Seq<char> {
        match self {
            SpecPlan::Join { left, right, left_keys, right_keys, .. } => {
                let positions = key_positions(
                    right_keys.take(paired(left_keys, right_keys)),
                    right.bindings_after_eliminate(),
                );
                match *right {
                    SpecPlan::Fixed { .. } => right.fixed_join_type(),
                    SpecPlan::TempStore { .. } => if positions_form_prefix(positions) {
                        "mem_prefix_join"@
                    } else {
                        "mem_mat_join"@
                    },
                    SpecPlan::Stored { .. } => if positions_form_prefix(positions) {
                        "stored_prefix_join"@
                    } else {
                        "stored_mat_join"@
                    },
                    _ => "generic_mat_join"@,
                }
            },
            _ => "generic_mat_join"@,
        }
    }

    /// The kind of a join against rows given in place, by their number.
    pub open spec fn fixed_join_type(self) -> Seq<char> {
        match self {
            SpecPlan::Fixed { data, .. } => if data.len() == 0 {
                "null_join"@
            } else if data.len() == 1 {
                "singleton_join"@
            } else {
                "fixed_join"@
            },
            _ => "fixed_join"@,
        }
    }
}

impl InlineFixedRA {
    /// The kind of a join against these rows.
    pub fn join_type(&self) -> (s: &'static str)
        ensures
            s@ == self@.fixed_join_type(),
    {
        if self.data.len() == 0 {
            "null_join"
        } else if self.data.len() == 1 {
            "singleton_join"
        } else {
            "fixed_join"
        }
    }
}

impl InnerJoin {
    /// The kind of the join.
    pub fn join_type(&self) -> (s: &'static str)
        requires
            self@.join_kind_defined(),
        ensures
            s@ == self@.join_type(),
    {
        match &self.right {
            RelAlgebra::Fixed(f) => f.join_type(),
            RelAlgebra::TempStore(_) => {
                let join_indices = self.joiner.join_indices(
                    &self.left.bindings_after_eliminate(),
                    &self.right.bindings_after_eliminate(),
                );
                if join_is_prefix(&join_indices.1) {
                    "mem_prefix_join"
                } else {
                    "mem_mat_join"
                }
            },
            RelAlgebra::Stored(_) => {
                let join_indices = self.joiner.join_indices(
                    &self.left.bindings_after_eliminate(),
                    &self.right.bindings_after_eliminate(),
                );
                if join_is_prefix(&join_indices.1) {
                    "stored_prefix_join"
                } else {
                    "stored_mat_join"
                }
            },
            RelAlgebra::Join(_) => "generic_mat_join",
            RelAlgebra::Filter(_) => "generic_mat_join",
            RelAlgebra::Unification(_) => "generic_mat_join",
            RelAlgebra::Reorder(_) => "generic_mat_join",
        }
    }
}

} // verus!
