use vstd::prelude::*;
use crate::expr::{lemma_bindings_of_all, Op, SpecExpr};
use crate::join_kind::keys_are_bound;
use crate::ra::{PushState, SpecPlan};
use crate::symb::{distinct_names, has_name, lemma_without, name_set, without, SourceSpan, SpecSymbol};

verus! {

impl SpecPlan {
    /// Whether, at every operator of the plan, no name occurs twice among
    /// the bindings that the operator has before it drops any. For a join
    /// this says that what its two children expose has no name in common.
    pub open spec fn well_bound(self) -> bool
        decreases self,
    {
        &&& distinct_names(self.bindings_before_eliminate())
        &&& match self {
            SpecPlan::Join { left, right, .. } => left.well_bound() && right.well_bound(),
            SpecPlan::Reorder { relation, .. } => relation.well_bound(),
            SpecPlan::Filter { parent, .. } => parent.well_bound(),
            SpecPlan::Unification { parent, .. } => parent.well_bound(),
            _ => true,
        }
    }

    /// Whether every join of the plan has as many left keys as right keys,
    /// each left key among what the left child exposes and each right key
    /// among what the right child exposes.
    pub open spec fn keys_well_formed(self) -> bool
        decreases self,
    {
        match self {
            SpecPlan::Join { left, right, left_keys, right_keys, .. } => {
                &&& left_keys.len() == right_keys.len()
                &&& keys_are_bound(left_keys, left.bindings_after_eliminate())
                &&& keys_are_bound(right_keys, right.bindings_after_eliminate())
                &&& left.keys_well_formed()
                &&& right.keys_well_formed()
            },
            SpecPlan::Reorder { relation, .. } => relation.keys_well_formed(),
            SpecPlan::Filter { parent, .. } => parent.keys_well_formed(),
            SpecPlan::Unification { parent, .. } => parent.keys_well_formed(),
            _ => true,
        }
    }

    /// The plan with each of the filters added in turn.
    pub open spec fn filtered_by_all(self, filters: Seq<SpecExpr>) -> SpecPlan
        decreases filters.len(),
    {
        if filters.len() == 0 {
            self
        } else {
            self.filtered_by_all(filters.drop_last()).filtered(filters.last())
        }
    }
}

/// Dropping nothing leaves a list as it is.
pub proof fn lemma_without_nothing(s: Seq<SpecSymbol>)
    ensures
        without(s, Set::empty()) == s,
    decreases s.len(),
{
    if s.len() > 0 {
        lemma_without_nothing(s.drop_last());
        assert(s.drop_last().push(s.last()) =~= s);
    }
}

/// What a plan exposes has no name twice where what it has before it drops
/// any has none, and every name it exposes is one that it has.
pub proof fn lemma_exposed_distinct(p: SpecPlan)
    ensures
        distinct_names(p.bindings_before_eliminate()) ==> distinct_names(p.bindings_after_eliminate()),
        forall|n: Seq<char>|
            has_name(p.bindings_after_eliminate(), n) ==> has_name(p.bindings_before_eliminate(), n),
{
    match p.eliminate_set() {
        Some(drop) => {
            lemma_without(p.bindings_before_eliminate(), drop);
        },
        None => {},
    }
}

/// Adding a filter to a plan whose joins are nested no deeper than `d`
/// gives the same plan for every such `d`. The result nests its joins no
/// deeper, exposes the same bindings, and is as well bound and has keys as
/// well formed as the plan was.
pub proof fn lemma_filtered_within(p: SpecPlan, f: SpecExpr, d: nat)
    requires
        p.join_depth() <= d,
    ensures
        p.filtered_within(f, d) == p.filtered(f),
        p.filtered(f).join_depth() <= p.join_depth(),
        p.filtered(f).bindings_after_eliminate() == p.bindings_after_eliminate(),
        p.well_bound() ==> p.filtered(f).well_bound(),
        p.keys_well_formed() ==> p.filtered(f).keys_well_formed(),
    decreases d, 0int, 0nat,
{
    let q = p.filtered_within(f, d);
    match p {
        SpecPlan::Fixed { .. } | SpecPlan::Reorder { .. } | SpecPlan::Unification { .. } => {
            lemma_without_nothing(p.bindings_after_eliminate());
            lemma_exposed_distinct(p);
            assert(q.bindings_before_eliminate() == p.bindings_after_eliminate());
        },
        SpecPlan::Filter { .. } => {
            assert(q.bindings_before_eliminate() == p.bindings_before_eliminate());
        },
        SpecPlan::TempStore { .. } => {
            assert(q.bindings_before_eliminate() == p.bindings_before_eliminate());
        },
        SpecPlan::Stored { .. } => {
            assert(q.bindings_before_eliminate() == p.bindings_before_eliminate());
        },
        SpecPlan::Join { left, right, left_keys, right_keys, to_eliminate, span } => {
            let e0 = (p.join_depth() - 1) as nat;
            let e = (d - 1) as nat;
            let st0 = PushState { left: *left, right: *right, remaining: Seq::empty() };
            let lb = name_set(left.bindings_before_eliminate());
            let rb = name_set(right.bindings_before_eliminate());
            lemma_push_clauses(st0, f.to_conjunction(), lb, rb, e, e0);
            let st = SpecPlan::push_clauses(st0, f.to_conjunction(), lb, rb, e);
            let joined = SpecPlan::Join {
                left: Box::new(st.left),
                right: Box::new(st.right),
                left_keys,
                right_keys,
                to_eliminate,
                span,
            };
            assert(joined.bindings_before_eliminate() == p.bindings_before_eliminate());
            assert(joined.bindings_after_eliminate() == p.bindings_after_eliminate());
            assert(joined.join_depth() <= p.join_depth());
            if p.well_bound() {
                assert(joined.well_bound());
            }
            if p.keys_well_formed() {
                assert(joined.keys_well_formed());
            }
            if st.remaining.len() != 0 {
                lemma_without_nothing(joined.bindings_after_eliminate());
                lemma_exposed_distinct(joined);
                assert(q.bindings_before_eliminate() == joined.bindings_after_eliminate());
            }
        },
    }
}

/// Pushing clauses into the children of a join gives the same children for
/// every bound on the nesting of their joins; the children keep what they
/// expose and stay as sound as they were.
pub proof fn lemma_push_clauses(
    st: PushState,
    clauses: Seq<SpecExpr>,
    left_names: Set<Seq<char>>,
    right_names: Set<Seq<char>>,
    e: nat,
    e0: nat,
)
    requires
        st.left.join_depth() <= e0,
        st.right.join_depth() <= e0,
        e0 <= e,
    ensures
        ({
            let r = SpecPlan::push_clauses(st, clauses, left_names, right_names, e);
            &&& r == SpecPlan::push_clauses(st, clauses, left_names, right_names, e0)
            &&& r.left.join_depth() <= st.left.join_depth()
            &&& r.right.join_depth() <= st.right.join_depth()
            &&& r.left.bindings_after_eliminate() == st.left.bindings_after_eliminate()
            &&& r.right.bindings_after_eliminate() == st.right.bindings_after_eliminate()
            &&& st.left.well_bound() ==> r.left.well_bound()
            &&& st.right.well_bound() ==> r.right.well_bound()
            &&& st.left.keys_well_formed() ==> r.left.keys_well_formed()
            &&& st.right.keys_well_formed() ==> r.right.keys_well_formed()
        }),
    decreases e, 1int, clauses.len(),
{
    if clauses.len() > 0 {
        lemma_push_clauses(st, clauses.drop_last(), left_names, right_names, e, e0);
        let prev = SpecPlan::push_clauses(st, clauses.drop_last(), left_names, right_names, e);
        let c = clauses.last();
        if c.bindings().subset_of(left_names) {
            lemma_filtered_within(prev.left, c, e);
            lemma_filtered_within(prev.left, c, e0);
        } else if c.bindings().subset_of(right_names) {
            lemma_filtered_within(prev.right, c, e);
            lemma_filtered_within(prev.right, c, e0);
        }
    }
}

/// Adding a filter changes neither what a plan exposes nor its soundness.
pub proof fn lemma_filtered(p: SpecPlan, f: SpecExpr)
    ensures
        p.filtered(f).join_depth() <= p.join_depth(),
        p.filtered(f).bindings_after_eliminate() == p.bindings_after_eliminate(),
        p.well_bound() ==> p.filtered(f).well_bound(),
        p.keys_well_formed() ==> p.filtered(f).keys_well_formed(),
{
    lemma_filtered_within(p, f, p.join_depth());
}

/// Where every clause reads only names of `left_names`, all of them go
/// into the left child, in order.
proof fn lemma_all_clauses_go_left(
    st: PushState,
    clauses: Seq<SpecExpr>,
    left_names: Set<Seq<char>>,
    right_names: Set<Seq<char>>,
    e: nat,
)
    requires
        st.left.join_depth() <= e,
        st.right.join_depth() <= e,
        forall|i: int| 0 <= i < clauses.len() ==> (#[trigger] clauses[i]).bindings().subset_of(left_names),
    ensures
        SpecPlan::push_clauses(st, clauses, left_names, right_names, e) == (PushState {
            left: st.left.filtered_by_all(clauses),
            right: st.right,
            remaining: st.remaining,
        }),
    decreases clauses.len(),
{
    if clauses.len() > 0 {
        let rest = clauses.drop_last();
        assert forall|i: int| 0 <= i < rest.len() implies (#[trigger] rest[i]).bindings().subset_of(left_names) by {
            assert(rest[i] == clauses[i]);
        }
        lemma_all_clauses_go_left(st, rest, left_names, right_names, e);
        lemma_push_clauses(st, rest, left_names, right_names, e, e);
        let prev = SpecPlan::push_clauses(st, rest, left_names, right_names, e);
        assert(clauses[clauses.len() - 1].bindings().subset_of(left_names));
        lemma_filtered_within(prev.left, clauses.last(), e);
    }
}

/// A filter whose variables are all among what the left child of a join
/// exposes is not kept above the join: each of its clauses is added, in
/// order, to the left child, and the right child and the join itself stay
/// as they were.
pub proof fn law_filter_is_pushed_left(
    a: SpecPlan,
    b: SpecPlan,
    left_keys: Seq<SpecSymbol>,
    right_keys: Seq<SpecSymbol>,
    span: SourceSpan,
    f: SpecExpr,
)
    requires
        f.bindings().subset_of(name_set(a.bindings_after_eliminate())),
    ensures
        a.join(b, left_keys, right_keys, span).filtered(f) == a.filtered_by_all(f.to_conjunction()).join(
            b,
            left_keys,
            right_keys,
            span,
        ),
        f.to_conjunction() == seq![f] ==> a.join(b, left_keys, right_keys, span).filtered(f) == a.filtered(f).join(
            b,
            left_keys,
            right_keys,
            span,
        ),
{
    let j = a.join(b, left_keys, right_keys, span);
    let lb = name_set(a.bindings_before_eliminate());
    let rb = name_set(b.bindings_before_eliminate());
    let clauses = f.to_conjunction();
    let e = (j.join_depth() - 1) as nat;
    lemma_exposed_distinct(a);
    assert(f.bindings().subset_of(lb)) by {
        assert forall|n: Seq<char>| f.bindings().contains(n) implies lb.contains(n) by {
            assert(name_set(a.bindings_after_eliminate()).contains(n));
        }
    }
    assert forall|i: int| 0 <= i < clauses.len() implies (#[trigger] clauses[i]).bindings().subset_of(lb) by {
        match f {
            SpecExpr::Apply { op: Op::And, args, .. } => {
                lemma_bindings_of_all(args);
                assert forall|n: Seq<char>| clauses[i].bindings().contains(n) implies lb.contains(n) by {
                    assert(args[i].bindings().contains(n));
                    assert(SpecExpr::bindings_of_all(args).contains(n));
                    assert(f.bindings().contains(n));
                }
            },
            _ => {
                assert(clauses[i] == f);
            },
        }
    }
    let st0 = PushState { left: a, right: b, remaining: Seq::empty() };
    lemma_all_clauses_go_left(st0, clauses, lb, rb, e);
    if clauses == seq![f] {
        assert(clauses.drop_last() =~= Seq::<SpecExpr>::empty());
        assert(a.filtered_by_all(clauses.drop_last()) == a);
        assert(clauses.last() == f);
    }
}

/// A filter of one clause whose variables are all among what the right
/// child of a join exposes, and not all among what the left child has, is
/// not kept above the join: it is added to the right child.
pub proof fn law_filter_is_pushed_right(
    a: SpecPlan,
    b: SpecPlan,
    left_keys: Seq<SpecSymbol>,
    right_keys: Seq<SpecSymbol>,
    span: SourceSpan,
    f: SpecExpr,
)
    requires
        f.to_conjunction() == seq![f],
        f.bindings().subset_of(name_set(b.bindings_after_eliminate())),
        !f.bindings().subset_of(name_set(a.bindings_before_eliminate())),
    ensures
        a.join(b, left_keys, right_keys, span).filtered(f) == a.join(b.filtered(f), left_keys, right_keys, span),
{
    let j = a.join(b, left_keys, right_keys, span);
    let lb = name_set(a.bindings_before_eliminate());
    let rb = name_set(b.bindings_before_eliminate());
    let clauses = f.to_conjunction();
    let e = (j.join_depth() - 1) as nat;
    lemma_exposed_distinct(b);
    assert(f.bindings().subset_of(rb)) by {
        assert forall|n: Seq<char>| f.bindings().contains(n) implies rb.contains(n) by {
            assert(name_set(b.bindings_after_eliminate()).contains(n));
        }
    }
    let st0 = PushState { left: a, right: b, remaining: Seq::empty() };
    assert(clauses.drop_last() =~= Seq::<SpecExpr>::empty());
    assert(clauses.last() == f);
    assert(SpecPlan::push_clauses(st0, clauses.drop_last(), lb, rb, e) == st0);
    lemma_filtered_within(b, f, e);
}

} // verus!
