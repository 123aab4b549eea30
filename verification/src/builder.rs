//! Building modules: native and imported modules go through the same construction
//! checks, after every node without an ID receives a fresh one.
use crate::ast::{Kernel, Module, NodeMeta, Region, RoleRegion, ScheduleNode, ScheduleNodeKind};
use crate::diagnostic::{DiagnosticBag, has_error};
use crate::lookup::Keyed;
use crate::target::TargetRequest;
use crate::text::{concat, decimal, lemma_decimal_injective, push_decimal, text};
use crate::types::NodeId;
use crate::verify::{spec_validate, validate_module};
use vstd::prelude::*;
use vstd::set_lib::{lemma_int_range, lemma_len_subset, lemma_map_size, set_int_range};

verus! {

/// The node IDs of a region in preorder: each node, then its nested regions in
/// payload order.
pub open spec fn region_ids(r: Seq<ScheduleNode>) -> Seq<Seq<char>>
    decreases r, 0nat,
{
    if r.len() == 0 {
        seq![]
    } else {
        region_ids(r.drop_last()) + node_ids(r.last())
    }
}

pub open spec fn node_ids(n: ScheduleNode) -> Seq<Seq<char>>
    decreases n, 1nat,
{
    seq![n.meta.node_id@] + match n.kind {
        ScheduleNodeKind::If { then_body, else_body, .. } => region_ids(then_body@) + region_ids(else_body@),
        ScheduleNodeKind::For { body, .. } => region_ids(body@),
        ScheduleNodeKind::PipelineFor { body, .. } => region_ids(body@),
        ScheduleNodeKind::ConcurrentRoles { roles, .. } => roles_ids(roles@),
        _ => seq![],
    }
}

pub open spec fn roles_ids(rs: Seq<RoleRegion>) -> Seq<Seq<char>>
    decreases rs, 0nat,
{
    if rs.len() == 0 {
        seq![]
    } else {
        roles_ids(rs.drop_last()) + region_ids(rs.last().body@)
    }
}

/// The node IDs of the kernels' bodies, kernel by kernel.
pub open spec fn module_ids(ks: Seq<Kernel>) -> Seq<Seq<char>>
    decreases ks.len(),
{
    if ks.len() == 0 {
        seq![]
    } else {
        module_ids(ks.drop_last()) + region_ids(ks.last().body@)
    }
}

/// Two regions agree in everything but their node IDs.
pub open spec fn same_shape(a: Seq<ScheduleNode>, b: Seq<ScheduleNode>) -> bool
    decreases a, 0nat,
{
    a.len() == b.len() && (a.len() == 0 || (same_shape(a.drop_last(), b.drop_last()) && same_node(
        a.last(),
        b.last(),
    )))
}

pub open spec fn same_node(x: ScheduleNode, y: ScheduleNode) -> bool
    decreases x, 1nat,
{
    &&& x.meta.node_revision == y.meta.node_revision
    &&& x.meta.source_span == y.meta.source_span
    &&& x.meta.origin_ids == y.meta.origin_ids
    &&& match x.kind {
        ScheduleNodeKind::If { condition, results, then_body, else_body } => y.kind matches ScheduleNodeKind::If {
            condition: c2,
            results: r2,
            then_body: t2,
            else_body: e2,
        } && condition == c2 && results == r2 && same_shape(then_body@, t2@) && same_shape(else_body@, e2@),
        ScheduleNodeKind::For { lower, upper, step, induction, carried, body } => y.kind matches ScheduleNodeKind::For {
            lower: l2,
            upper: u2,
            step: s2,
            induction: i2,
            carried: c2,
            body: b2,
        } && lower == l2 && upper == u2 && step == s2 && induction == i2 && carried == c2 && same_shape(
            body@,
            b2@,
        ),
        ScheduleNodeKind::PipelineFor { pipeline, iteration, body } => y.kind matches ScheduleNodeKind::PipelineFor {
            pipeline: p2,
            iteration: i2,
            body: b2,
        } && pipeline == p2 && iteration == i2 && same_shape(body@, b2@),
        ScheduleNodeKind::ConcurrentRoles { roles, join_scope } => y.kind matches ScheduleNodeKind::ConcurrentRoles {
            roles: r2,
            join_scope: j2,
        } && join_scope == j2 && same_roles(roles@, r2@),
        _ => x.kind == y.kind,
    }
}

pub open spec fn same_roles(a: Seq<RoleRegion>, b: Seq<RoleRegion>) -> bool
    decreases a, 0nat,
{
    a.len() == b.len() && (a.len() == 0 || (same_roles(a.drop_last(), b.drop_last()) && a.last().role
        == b.last().role && same_shape(a.last().body@, b.last().body@)))
}

/// The candidate ID number `n` of a module named `prefix`.
pub open spec fn candidate(prefix: Seq<char>, n: nat) -> Seq<char> {
    prefix + ".n"@ + decimal(n)
}

/// The first candidate number from `next` on whose ID is not in `used`, trying at
/// most `fuel` taken ones.
pub open spec fn first_free(prefix: Seq<char>, next: nat, used: Seq<Seq<char>>, fuel: nat) -> nat
    decreases fuel,
{
    if fuel == 0 || !used.contains(candidate(prefix, next)) {
        next
    } else {
        first_free(prefix, next + 1, used, (fuel - 1) as nat)
    }
}

/// Assigning IDs in order: a present ID is kept; a missing one becomes the first free
/// candidate, which is then taken. Yields the IDs, the next candidate number and the
/// IDs taken.
pub open spec fn assign_ids(ids: Seq<Seq<char>>, prefix: Seq<char>, next: nat, used: Seq<Seq<char>>) -> (
    Seq<Seq<char>>,
    nat,
    Seq<Seq<char>>,
)
    decreases ids.len(),
{
    if ids.len() == 0 {
        (seq![], next, used)
    } else {
        let (out, n1, u1) = assign_ids(ids.drop_last(), prefix, next, used);
        if ids.last().len() == 0 {
            let n = first_free(prefix, n1, u1, u1.len());
            (out.push(candidate(prefix, n)), n + 1, u1.push(candidate(prefix, n)))
        } else {
            (out.push(ids.last()), n1, u1)
        }
    }
}

/// The IDs that are present, in order.
pub open spec fn present(ids: Seq<Seq<char>>) -> Seq<Seq<char>>
    decreases ids.len(),
{
    if ids.len() == 0 {
        seq![]
    } else if ids.last().len() == 0 {
        present(ids.drop_last())
    } else {
        present(ids.drop_last()).push(ids.last())
    }
}

/// The number of missing IDs.
pub open spec fn missing(ids: Seq<Seq<char>>) -> nat
    decreases ids.len(),
{
    if ids.len() == 0 {
        0
    } else {
        missing(ids.drop_last()) + if ids.last().len() == 0 {
            1nat
        } else {
            0nat
        }
    }
}

/// Every candidate below `next` is taken.
pub open spec fn candidates_taken(prefix: Seq<char>, next: nat, used: Seq<Seq<char>>) -> bool {
    forall|m: nat| m < next ==> used.contains(#[trigger] candidate(prefix, m))
}

proof fn lemma_candidate_injective(prefix: Seq<char>, a: nat, b: nat)
    requires
        candidate(prefix, a) == candidate(prefix, b),
    ensures
        a == b,
{
    let p = prefix + ".n"@;
    assert(candidate(prefix, a).subrange(p.len() as int, candidate(prefix, a).len() as int) =~= decimal(a));
    assert(candidate(prefix, b).subrange(p.len() as int, candidate(prefix, b).len() as int) =~= decimal(b));
    lemma_decimal_injective(a, b);
}

/// Distinct candidates that are all taken cannot outnumber the taken IDs.
proof fn lemma_taken_bound(prefix: Seq<char>, lo: nat, k: nat, used: Seq<Seq<char>>)
    requires
        forall|m: nat| lo <= m < lo + k ==> used.contains(#[trigger] candidate(prefix, m)),
    ensures
        k <= used.len(),
{
    let x = set_int_range(lo as int, (lo + k) as int);
    let f = |m: int| candidate(prefix, m as nat);
    let y = x.map(f);
    lemma_int_range(lo as int, (lo + k) as int);
    assert(vstd::relations::injective_on(f, x)) by {
        assert forall|a: int, b: int| x.contains(a) && x.contains(b) && #[trigger] f(a) == #[trigger] f(b) implies a == b by {
            lemma_candidate_injective(prefix, a as nat, b as nat);
        }
    }
    lemma_map_size(x, y, f);
    broadcast use vstd::seq_lib::seq_to_set_is_finite;
    assert(y.subset_of(used.to_set())) by {
        assert forall|s: Seq<char>| y.contains(s) implies used.to_set().contains(s) by {
            let m = choose|m: int| x.contains(m) && f(m) == s;
            assert(used.contains(candidate(prefix, m as nat)));
        }
    }
    lemma_len_subset(y, used.to_set());
    used.lemma_cardinality_of_set();
}

/// The first free candidate is free, and every candidate before it is taken.
proof fn lemma_first_free(prefix: Seq<char>, lo: nat, next: nat, used: Seq<Seq<char>>, fuel: nat)
    requires
        lo <= next,
        forall|m: nat| lo <= m < next ==> used.contains(#[trigger] candidate(prefix, m)),
        next - lo + fuel == used.len(),
    ensures
        next <= first_free(prefix, next, used, fuel) <= next + fuel,
        !used.contains(candidate(prefix, first_free(prefix, next, used, fuel))),
        forall|m: nat| lo <= m < first_free(prefix, next, used, fuel) ==> used.contains(#[trigger] candidate(prefix, m)),
    decreases fuel,
{
    if !used.contains(candidate(prefix, next)) {
    } else if fuel == 0 {
        assert forall|m: nat| lo <= m < lo + (used.len() + 1) implies used.contains(#[trigger] candidate(prefix, m)) by {
            if m < next {
            } else {
                assert(m == next);
            }
        }
        lemma_taken_bound(prefix, lo, (used.len() + 1) as nat, used);
    } else {
        lemma_first_free(prefix, lo, next + 1, used, (fuel - 1) as nat);
    }
}


pub proof fn lemma_assign_append(
    a: Seq<Seq<char>>,
    b: Seq<Seq<char>>,
    prefix: Seq<char>,
    next: nat,
    used: Seq<Seq<char>>,
)
    ensures
        ({
            let (x, n1, u1) = assign_ids(a, prefix, next, used);
            let (y, n2, u2) = assign_ids(b, prefix, n1, u1);
            assign_ids(a + b, prefix, next, used) == (x + y, n2, u2)
        }),
    decreases b.len(),
{
    if b.len() == 0 {
        assert(a + b =~= a);
        let (x, n1, u1) = assign_ids(a, prefix, next, used);
        assert(x + seq![] =~= x);
    } else {
        lemma_assign_append(a, b.drop_last(), prefix, next, used);
        assert((a + b).drop_last() =~= a + b.drop_last());
        assert((a + b).last() == b.last());
        let (x, n1, u1) = assign_ids(a, prefix, next, used);
        let (y0, m1, v1) = assign_ids(b.drop_last(), prefix, n1, u1);
        let (y, n2, u2) = assign_ids(b, prefix, n1, u1);
        if b.last().len() == 0 {
            let n = first_free(prefix, m1, v1, v1.len());
            assert(x + y0.push(candidate(prefix, n)) =~= (x + y0).push(candidate(prefix, n)));
        } else {
            assert(x + y0.push(b.last()) =~= (x + y0).push(b.last()));
        }
    }
}

pub proof fn lemma_present_append(a: Seq<Seq<char>>, b: Seq<Seq<char>>)
    ensures
        present(a + b) == present(a) + present(b),
    decreases b.len(),
{
    if b.len() == 0 {
        assert(a + b =~= a);
        assert(present(a) + seq![] =~= present(a));
    } else {
        lemma_present_append(a, b.drop_last());
        assert((a + b).drop_last() =~= a + b.drop_last());
        if b.last().len() != 0 {
            assert(present(a) + present(b.drop_last()).push(b.last()) =~= (present(a) + present(
                b.drop_last(),
            )).push(b.last()));
        }
    }
}

pub proof fn lemma_missing_append(a: Seq<Seq<char>>, b: Seq<Seq<char>>)
    ensures
        missing(a + b) == missing(a) + missing(b),
    decreases b.len(),
{
    if b.len() == 0 {
        assert(a + b =~= a);
    } else {
        lemma_missing_append(a, b.drop_last());
        assert((a + b).drop_last() =~= a + b.drop_last());
    }
}

pub proof fn lemma_region_ids_append(a: Seq<ScheduleNode>, b: Seq<ScheduleNode>)
    ensures
        region_ids(a + b) == region_ids(a) + region_ids(b),
    decreases b.len(),
{
    if b.len() == 0 {
        assert(a + b =~= a);
        assert(region_ids(a) + seq![] =~= region_ids(a));
    } else {
        lemma_region_ids_append(a, b.drop_last());
        assert((a + b).drop_last() =~= a + b.drop_last());
        assert(region_ids(a) + (region_ids(b.drop_last()) + node_ids(b.last())) =~= (region_ids(a)
            + region_ids(b.drop_last())) + node_ids(b.last()));
    }
}

pub proof fn lemma_roles_ids_append(a: Seq<RoleRegion>, b: Seq<RoleRegion>)
    ensures
        roles_ids(a + b) == roles_ids(a) + roles_ids(b),
    decreases b.len(),
{
    if b.len() == 0 {
        assert(a + b =~= a);
        assert(roles_ids(a) + seq![] =~= roles_ids(a));
    } else {
        lemma_roles_ids_append(a, b.drop_last());
        assert((a + b).drop_last() =~= a + b.drop_last());
        assert(roles_ids(a) + (roles_ids(b.drop_last()) + region_ids(b.last().body@)) =~= (roles_ids(a)
            + roles_ids(b.drop_last())) + region_ids(b.last().body@));
    }
}

/// The text of each string.
pub open spec fn strings(s: Seq<String>) -> Seq<Seq<char>> {
    s.map_values(|t: String| t@)
}

proof fn lemma_strings_contains(v: Seq<String>, k: Seq<char>)
    ensures
        crate::lookup::has_key(v, k) == strings(v).contains(k),
{
    if crate::lookup::has_key(v, k) {
        let j = choose|j: int| 0 <= j < v.len() && v[j].key() == k;
        assert(strings(v)[j] == k);
    }
    if strings(v).contains(k) {
        let j = choose|j: int| 0 <= j < strings(v).len() && strings(v)[j] == k;
        assert(v[j].key() == k);
    }
}

/// A fresh ID: the first free candidate from `next` on, which is then taken.
fn fresh(prefix: &String, next: &mut u64, used: &mut Vec<String>, Ghost(room): Ghost<nat>) -> (r: String)
    requires
        candidates_taken(prefix@, *old(next) as nat, strings(old(used)@)),
        strings(old(used)@).len() + 1 + room < u64::MAX,
    ensures
        r@ == candidate(prefix@, first_free(prefix@, *old(next) as nat, strings(old(used)@), strings(old(used)@).len())),
        *final(next) == first_free(prefix@, *old(next) as nat, strings(old(used)@), strings(old(used)@).len()) + 1,
        strings(final(used)@) == strings(old(used)@).push(r@),
        candidates_taken(prefix@, *final(next) as nat, strings(final(used)@)),
{
    let ghost lo = *next as nat;
    let ghost u = strings(used@);
    loop
        invariant
            lo <= *next,
            strings(used@) == u,
            u == strings(old(used)@),
            lo == *old(next),
            candidates_taken(prefix@, lo, u),
            forall|m: nat| lo <= m < *next ==> u.contains(#[trigger] candidate(prefix@, m)),
            *next - lo <= u.len(),
            first_free(prefix@, lo, u, u.len()) == first_free(prefix@, *next as nat, u, (u.len() - (*next - lo)) as nat),
            u.len() + 1 + room < u64::MAX,
        decreases u.len() - (*next - lo),
    {
        let c = push_decimal(concat(prefix.clone(), ".n"), *next);
        proof {
            lemma_strings_contains(used@, c@);
        }
        if !crate::lookup::contains(used, &c) {
            proof {
                assert(c@ == candidate(prefix@, *next as nat));
                lemma_taken_bound(prefix@, 0, *next as nat, u);
            }
            *next = *next + 1;
            used.push(c.clone());
            proof {
                assert(strings(used@) =~= u.push(c@));
                assert forall|m: nat| m < *next implies strings(used@).contains(#[trigger] candidate(prefix@, m)) by {
                    if m + 1 == *next {
                        assert(strings(used@)[u.len() as int] == c@);
                    } else {
                        assert(u.contains(candidate(prefix@, m)));
                        let j = choose|j: int| 0 <= j < u.len() && u[j] == candidate(prefix@, m);
                        assert(strings(used@)[j] == u[j]);
                    }
                }
            }
            return c;
        }
        proof {
            assert forall|m: nat| m < *next + 1 implies u.contains(#[trigger] candidate(prefix@, m)) by {
            }
            lemma_taken_bound(prefix@, 0, (*next + 1) as nat, u);
        }
        *next = *next + 1;
    }
}


fn collect_region(region: &Region, used: &mut Vec<String>)
    ensures
        strings(final(used)@) == strings(old(used)@) + present(region_ids(region@)),
    decreases region@, 2nat,
{
    let mut i: usize = 0;
    assert(strings(used@) =~= strings(old(used)@) + present(region_ids(region@.take(0))));
    while i < region.len()
        invariant
            i <= region@.len(),
            strings(used@) == strings(old(used)@) + present(region_ids(region@.take(i as int))),
        decreases region@.len() - i,
    {
        proof {
            assert(decreases_to!(region@ => region@[i as int]));
        }
        let ghost before = strings(used@);
        collect_node(&region[i], used);
        proof {
            assert(region@.take(i + 1).drop_last() =~= region@.take(i as int));
            lemma_present_append(region_ids(region@.take(i as int)), node_ids(region@[i as int]));
            assert(strings(used@) =~= strings(old(used)@) + present(region_ids(region@.take(i + 1))));
        }
        i = i + 1;
    }
    assert(region@.take(region@.len() as int) =~= region@);
}

fn collect_roles(roles: &Vec<RoleRegion>, used: &mut Vec<String>)
    ensures
        strings(final(used)@) == strings(old(used)@) + present(roles_ids(roles@)),
    decreases roles@, 2nat,
{
    let mut i: usize = 0;
    assert(strings(used@) =~= strings(old(used)@) + present(roles_ids(roles@.take(0))));
    while i < roles.len()
        invariant
            i <= roles@.len(),
            strings(used@) == strings(old(used)@) + present(roles_ids(roles@.take(i as int))),
        decreases roles@.len() - i,
    {
        proof {
            assert(decreases_to!(roles@ => roles@[i as int]));
        }
        collect_region(&roles[i].body, used);
        proof {
            assert(roles@.take(i + 1).drop_last() =~= roles@.take(i as int));
            lemma_present_append(roles_ids(roles@.take(i as int)), region_ids(roles@[i as int].body@));
            assert(strings(used@) =~= strings(old(used)@) + present(roles_ids(roles@.take(i + 1))));
        }
        i = i + 1;
    }
    assert(roles@.take(roles@.len() as int) =~= roles@);
}

fn collect_node(node: &ScheduleNode, used: &mut Vec<String>)
    ensures
        strings(final(used)@) == strings(old(used)@) + present(node_ids(*node)),
    decreases *node, 1nat,
{
    let ghost head = seq![node.meta.node_id@];
    if !node.meta.node_id.is_empty() {
        used.push(node.meta.node_id.0.clone());
    }
    proof {
        assert(head.drop_last() =~= Seq::<Seq<char>>::empty());
        assert(head.last() == node.meta.node_id@);
        assert(present(head.drop_last()) =~= seq![]);
        assert(present(head) =~= if node.meta.node_id@.len() == 0 { seq![] } else { seq![node.meta.node_id@] });
        assert(strings(used@) =~= strings(old(used)@) + present(head));
    }
    let ghost mid = strings(used@);
    match &node.kind {
        ScheduleNodeKind::If { then_body, else_body, .. } => {
            collect_region(then_body, used);
            collect_region(else_body, used);
            proof {
                lemma_present_append(region_ids(then_body@), region_ids(else_body@));
                lemma_present_append(head, region_ids(then_body@) + region_ids(else_body@));
                assert(strings(used@) =~= strings(old(used)@) + present(node_ids(*node)));
            }
        },
        ScheduleNodeKind::For { body, .. } => {
            collect_region(body, used);
            proof {
                lemma_present_append(head, region_ids(body@));
                assert(strings(used@) =~= strings(old(used)@) + present(node_ids(*node)));
            }
        },
        ScheduleNodeKind::PipelineFor { body, .. } => {
            collect_region(body, used);
            proof {
                lemma_present_append(head, region_ids(body@));
                assert(strings(used@) =~= strings(old(used)@) + present(node_ids(*node)));
            }
        },
        ScheduleNodeKind::ConcurrentRoles { roles, .. } => {
            collect_roles(roles, used);
            proof {
                lemma_present_append(head, roles_ids(roles@));
                assert(strings(used@) =~= strings(old(used)@) + present(node_ids(*node)));
            }
        },
        _ => {
            proof {
                assert(node_ids(*node) =~= head);
            }
        },
    }
}


proof fn lemma_region_ids_single(x: ScheduleNode)
    ensures
        region_ids(seq![x]) == node_ids(x),
{
    assert(seq![x].drop_last() =~= Seq::<ScheduleNode>::empty());
    assert(seq![x].last() == x);
    assert(region_ids(Seq::<ScheduleNode>::empty()) == Seq::<Seq<char>>::empty());
    assert(Seq::<Seq<char>>::empty() + node_ids(x) =~= node_ids(x));
}

proof fn lemma_roles_ids_single(x: RoleRegion)
    ensures
        roles_ids(seq![x]) == region_ids(x.body@),
{
    assert(seq![x].drop_last() =~= Seq::<RoleRegion>::empty());
    assert(seq![x].last() == x);
    assert(roles_ids(Seq::<RoleRegion>::empty()) == Seq::<Seq<char>>::empty());
    assert(Seq::<Seq<char>>::empty() + region_ids(x.body@) =~= region_ids(x.body@));
}

/// A step of the assignment over one ID.
proof fn lemma_assign_one(id: Seq<char>, prefix: Seq<char>, next: nat, used: Seq<Seq<char>>)
    ensures
        assign_ids(seq![id], prefix, next, used) == (if id.len() == 0 {
            let n = first_free(prefix, next, used, used.len());
            (seq![candidate(prefix, n)], n + 1, used.push(candidate(prefix, n)))
        } else {
            (seq![id], next, used)
        }),
{
    assert(seq![id].drop_last() =~= Seq::<Seq<char>>::empty());
    assert(seq![id].last() == id);
    assert(assign_ids(Seq::<Seq<char>>::empty(), prefix, next, used) == (Seq::<Seq<char>>::empty(), next, used));
    let n = first_free(prefix, next, used, used.len());
    assert(Seq::<Seq<char>>::empty().push(candidate(prefix, n)) =~= seq![candidate(prefix, n)]);
    assert(Seq::<Seq<char>>::empty().push(id) =~= seq![id]);
}

proof fn lemma_missing_one(id: Seq<char>)
    ensures
        missing(seq![id]) == (if id.len() == 0 { 1nat } else { 0nat }),
{
    assert(seq![id].drop_last() =~= Seq::<Seq<char>>::empty());
    assert(seq![id].last() == id);
    assert(missing(Seq::<Seq<char>>::empty()) == 0);
}

/// The requirements and effects of assigning IDs over one sequence of IDs.
pub open spec fn assigned(
    before: Seq<Seq<char>>,
    after: Seq<Seq<char>>,
    prefix: Seq<char>,
    next0: nat,
    used0: Seq<Seq<char>>,
    next1: nat,
    used1: Seq<Seq<char>>,
) -> bool {
    &&& assign_ids(before, prefix, next0, used0) == (after, next1, used1)
    &&& candidates_taken(prefix, next1, used1)
    &&& used1.len() == used0.len() + missing(before)
}

fn assign_region(region: Vec<ScheduleNode>, prefix: &String, next: &mut u64, used: &mut Vec<String>, Ghost(room): Ghost<nat>) -> (r: Vec<ScheduleNode>)
    requires
        candidates_taken(prefix@, *old(next) as nat, strings(old(used)@)),
        strings(old(used)@).len() + missing(region_ids(region@)) + room < u64::MAX,
    ensures
        same_shape(region@, r@),
        assigned(region_ids(region@), region_ids(r@), prefix@, *old(next) as nat, strings(old(used)@), *final(next) as nat, strings(final(used)@)),
    decreases region@, 2nat,
{
    let ghost orig = region@;
    let ghost next0 = *next as nat;
    let ghost used0 = strings(used@);
    let total = region.len();
    let mut rest = region;
    let mut out: Vec<ScheduleNode> = Vec::new();
    let mut i: usize = 0;
    proof {
        assert(orig.take(0) =~= Seq::<ScheduleNode>::empty());
        assert(out@ =~= Seq::<ScheduleNode>::empty());
        assert(orig.subrange(0, orig.len() as int) =~= orig);
    }
    while rest.len() > 0
        invariant
            i <= orig.len(),
            rest@ == orig.subrange(i as int, orig.len() as int),
            out@.len() == i,
            same_shape(orig.take(i as int), out@),
            assign_ids(region_ids(orig.take(i as int)), prefix@, next0, used0) == (region_ids(out@), *next as nat, strings(used@)),
            candidates_taken(prefix@, *next as nat, strings(used@)),
            strings(used@).len() == used0.len() + missing(region_ids(orig.take(i as int))),
            used0.len() + missing(region_ids(orig)) + room < u64::MAX,
            orig == region@,
            orig.len() == total,
        decreases rest@.len(),
    {
        let node = rest.remove(0);
        let ghost tail = orig.subrange(i + 1, orig.len() as int);
        proof {
            assert(node == orig[i as int]);
            assert(decreases_to!(orig => orig[i as int]));
            assert(orig =~= orig.take(i as int) + (seq![node] + tail));
            lemma_region_ids_append(orig.take(i as int), seq![node] + tail);
            lemma_region_ids_append(seq![node], tail);
            lemma_region_ids_single(node);
            lemma_missing_append(region_ids(orig.take(i as int)), node_ids(node) + region_ids(tail));
            lemma_missing_append(node_ids(node), region_ids(tail));
        }
        let ghost before_used = strings(used@);
        let ghost before_next = *next as nat;
        let ghost before_out = out@;
        let r = assign_node(node, prefix, next, used, Ghost(missing(region_ids(tail)) + room));
        out.push(r);
        proof {
            assert(orig.take(i + 1) =~= orig.take(i as int).push(node));
            assert(orig.take(i + 1).drop_last() =~= orig.take(i as int));
            assert(out@.drop_last() =~= before_out);
            lemma_assign_append(region_ids(orig.take(i as int)), node_ids(node), prefix@, next0, used0);
            lemma_missing_append(region_ids(orig.take(i as int)), node_ids(node));
            assert(rest@ =~= orig.subrange(i + 1, orig.len() as int));
        }
        i = i + 1;
    }
    proof {
        assert(orig.take(i as int) =~= orig);
    }
    out
}

fn assign_roles(roles: Vec<RoleRegion>, prefix: &String, next: &mut u64, used: &mut Vec<String>, Ghost(room): Ghost<nat>) -> (r: Vec<RoleRegion>)
    requires
        candidates_taken(prefix@, *old(next) as nat, strings(old(used)@)),
        strings(old(used)@).len() + missing(roles_ids(roles@)) + room < u64::MAX,
    ensures
        same_roles(roles@, r@),
        assigned(roles_ids(roles@), roles_ids(r@), prefix@, *old(next) as nat, strings(old(used)@), *final(next) as nat, strings(final(used)@)),
    decreases roles@, 2nat,
{
    let ghost orig = roles@;
    let ghost next0 = *next as nat;
    let ghost used0 = strings(used@);
    let total = roles.len();
    let mut rest = roles;
    let mut out: Vec<RoleRegion> = Vec::new();
    let mut i: usize = 0;
    proof {
        assert(orig.take(0) =~= Seq::<RoleRegion>::empty());
        assert(out@ =~= Seq::<RoleRegion>::empty());
        assert(orig.subrange(0, orig.len() as int) =~= orig);
    }
    while rest.len() > 0
        invariant
            i <= orig.len(),
            rest@ == orig.subrange(i as int, orig.len() as int),
            out@.len() == i,
            same_roles(orig.take(i as int), out@),
            assign_ids(roles_ids(orig.take(i as int)), prefix@, next0, used0) == (roles_ids(out@), *next as nat, strings(used@)),
            candidates_taken(prefix@, *next as nat, strings(used@)),
            strings(used@).len() == used0.len() + missing(roles_ids(orig.take(i as int))),
            used0.len() + missing(roles_ids(orig)) + room < u64::MAX,
            orig == roles@,
            orig.len() == total,
        decreases rest@.len(),
    {
        let region = rest.remove(0);
        let ghost tail = orig.subrange(i + 1, orig.len() as int);
        proof {
            assert(region == orig[i as int]);
            assert(decreases_to!(orig => orig[i as int]));
            assert(orig =~= orig.take(i as int) + (seq![region] + tail));
            lemma_roles_ids_append(orig.take(i as int), seq![region] + tail);
            lemma_roles_ids_append(seq![region], tail);
            lemma_roles_ids_single(region);
            lemma_missing_append(roles_ids(orig.take(i as int)), region_ids(region.body@) + roles_ids(tail));
            lemma_missing_append(region_ids(region.body@), roles_ids(tail));
        }
        let ghost before_out = out@;
        let RoleRegion { role, body } = region;
        let body = assign_region(body, prefix, next, used, Ghost(missing(roles_ids(tail)) + room));
        let ghost old_region = region;
        out.push(RoleRegion { role, body });
        proof {
            assert(orig.take(i + 1) =~= orig.take(i as int).push(old_region));
            assert(orig.take(i + 1).drop_last() =~= orig.take(i as int));
            assert(out@.drop_last() =~= before_out);
            lemma_assign_append(roles_ids(orig.take(i as int)), region_ids(old_region.body@), prefix@, next0, used0);
            lemma_missing_append(roles_ids(orig.take(i as int)), region_ids(old_region.body@));
            assert(rest@ =~= orig.subrange(i + 1, orig.len() as int));
        }
        i = i + 1;
    }
    proof {
        assert(orig.take(i as int) =~= orig);
    }
    out
}

fn assign_node(node: ScheduleNode, prefix: &String, next: &mut u64, used: &mut Vec<String>, Ghost(room): Ghost<nat>) -> (r: ScheduleNode)
    requires
        candidates_taken(prefix@, *old(next) as nat, strings(old(used)@)),
        strings(old(used)@).len() + missing(node_ids(node)) + room < u64::MAX,
    ensures
        same_node(node, r),
        assigned(node_ids(node), node_ids(r), prefix@, *old(next) as nat, strings(old(used)@), *final(next) as nat, strings(final(used)@)),
    decreases node, 1nat,
{
    let ghost orig = node;
    let ghost head = seq![node.meta.node_id@];
    let ghost children = node_ids(node).subrange(1, node_ids(node).len() as int);
    let ghost next0 = *next as nat;
    let ghost used0 = strings(used@);
    proof {
        assert(node_ids(node) =~= head + children);
        lemma_missing_append(head, children);
        lemma_missing_one(node.meta.node_id@);
        lemma_assign_one(node.meta.node_id@, prefix@, next0, used0);
        lemma_assign_append(head, children, prefix@, next0, used0);
    }
    let ScheduleNode { meta, kind } = node;
    let NodeMeta { node_id, node_revision, source_span, origin_ids } = meta;
    let id = if node_id.is_empty() {
        NodeId(fresh(prefix, next, used, Ghost(missing(children) + room)))
    } else {
        node_id
    };
    let ghost next1 = *next as nat;
    let ghost used1 = strings(used@);
    let kind = match kind {
        ScheduleNodeKind::If { condition, results, then_body, else_body } => {
            proof {
                assert(decreases_to!(orig => then_body@));
                assert(decreases_to!(orig => else_body@));
                assert(children == region_ids(then_body@) + region_ids(else_body@));
                lemma_missing_append(region_ids(then_body@), region_ids(else_body@));
                lemma_assign_append(region_ids(then_body@), region_ids(else_body@), prefix@, next1, used1);
            }
            let then_body = assign_region(then_body, prefix, next, used, Ghost(missing(region_ids(else_body@)) + room));
            let else_body = assign_region(else_body, prefix, next, used, Ghost(room));
            ScheduleNodeKind::If { condition, results, then_body, else_body }
        },
        ScheduleNodeKind::For { lower, upper, step, induction, carried, body } => {
            proof {
                assert(decreases_to!(orig => body@));
                assert(children == region_ids(body@));
            }
            let body = assign_region(body, prefix, next, used, Ghost(room));
            ScheduleNodeKind::For { lower, upper, step, induction, carried, body }
        },
        ScheduleNodeKind::PipelineFor { pipeline, iteration, body } => {
            proof {
                assert(decreases_to!(orig => body@));
                assert(children == region_ids(body@));
            }
            let body = assign_region(body, prefix, next, used, Ghost(room));
            ScheduleNodeKind::PipelineFor { pipeline, iteration, body }
        },
        ScheduleNodeKind::ConcurrentRoles { roles, join_scope } => {
            proof {
                assert(decreases_to!(orig => roles@));
                assert(children == roles_ids(roles@));
            }
            let roles = assign_roles(roles, prefix, next, used, Ghost(room));
            ScheduleNodeKind::ConcurrentRoles { roles, join_scope }
        },
        other => {
            proof {
                assert(children =~= Seq::<Seq<char>>::empty());
                assert(assign_ids(children, prefix@, next1, used1) == (children, next1, used1));
            }
            other
        },
    };
    let r = ScheduleNode { meta: NodeMeta { node_id: id, node_revision, source_span, origin_ids }, kind };
    proof {
        assert(node_ids(r) =~= seq![r.meta.node_id@] + node_ids(r).subrange(1, node_ids(r).len() as int));
    }
    r
}


pub proof fn lemma_module_ids_append(a: Seq<Kernel>, b: Seq<Kernel>)
    ensures
        module_ids(a + b) == module_ids(a) + module_ids(b),
    decreases b.len(),
{
    if b.len() == 0 {
        assert(a + b =~= a);
        assert(module_ids(a) + seq![] =~= module_ids(a));
    } else {
        lemma_module_ids_append(a, b.drop_last());
        assert((a + b).drop_last() =~= a + b.drop_last());
        assert(module_ids(a) + (module_ids(b.drop_last()) + region_ids(b.last().body@)) =~= (module_ids(a)
            + module_ids(b.drop_last())) + region_ids(b.last().body@));
    }
}

pub proof fn lemma_present_missing(ids: Seq<Seq<char>>)
    ensures
        present(ids).len() + missing(ids) == ids.len(),
    decreases ids.len(),
{
    if ids.len() > 0 {
        lemma_present_missing(ids.drop_last());
    }
}

/// Two kernels agree in everything but the node IDs of their bodies.
pub open spec fn same_kernel(a: Kernel, b: Kernel) -> bool {
    &&& a.name == b.name
    &&& a.params == b.params
    &&& a.block == b.block
    &&& a.storages == b.storages
    &&& a.buffers == b.buffers
    &&& a.roles == b.roles
    &&& a.pipelines == b.pipelines
    &&& a.accumulators == b.accumulators
    &&& same_shape(a.body@, b.body@)
}

pub open spec fn same_kernels(a: Seq<Kernel>, b: Seq<Kernel>) -> bool {
    a.len() == b.len() && forall|i: int| 0 <= i < a.len() ==> same_kernel(#[trigger] a[i], b[i])
}

/// `r` is `m` with every missing node ID assigned: the module's fields and the kernels
/// are kept but for their node IDs, which are the assigned ones in preorder, kernel by
/// kernel, numbered from zero and avoiding every ID present in the module.
pub open spec fn finished(m: Module, r: Module) -> bool {
    &&& r.name == m.name
    &&& r.schema_version == m.schema_version
    &&& r.module_revision == m.module_revision
    &&& r.target_request == m.target_request
    &&& same_kernels(m.kernels@, r.kernels@)
    &&& module_ids(r.kernels@) == assign_ids(module_ids(m.kernels@), m.name@, 0, present(module_ids(m.kernels@))).0
}

fn assign_missing_ids(module: Module) -> (r: Module)
    requires
        module_ids(module.kernels@).len() < u64::MAX,
    ensures
        finished(module, r),
{
    let ghost orig = module.kernels@;
    let Module { name, schema_version, module_revision, target_request, kernels } = module;
    let mut used: Vec<String> = Vec::new();
    let mut i: usize = 0;
    proof {
        assert(orig.take(0) =~= Seq::<Kernel>::empty());
        assert(strings(used@) =~= Seq::<Seq<char>>::empty());
    }
    while i < kernels.len()
        invariant
            i <= kernels@.len(),
            kernels@ == orig,
            strings(used@) == present(module_ids(orig.take(i as int))),
        decreases kernels@.len() - i,
    {
        let ghost before = strings(used@);
        collect_region(&kernels[i].body, &mut used);
        proof {
            assert(orig.take(i + 1).drop_last() =~= orig.take(i as int));
            assert(orig.take(i + 1).last() == orig[i as int]);
            lemma_present_append(module_ids(orig.take(i as int)), region_ids(orig[i as int].body@));
        }
        i = i + 1;
    }
    proof {
        assert(orig.take(i as int) =~= orig);
        lemma_present_missing(module_ids(orig));
    }
    let ghost used0 = strings(used@);
    let mut next: u64 = 0;
    let total = kernels.len();
    let mut rest = kernels;
    let mut out: Vec<Kernel> = Vec::new();
    let mut j: usize = 0;
    proof {
        assert(orig.take(0) =~= Seq::<Kernel>::empty());
        assert(out@ =~= Seq::<Kernel>::empty());
        assert(orig.subrange(0, orig.len() as int) =~= orig);
        assert(assign_ids(Seq::<Seq<char>>::empty(), name@, 0, used0) == (Seq::<Seq<char>>::empty(), 0nat, used0));
    }
    while rest.len() > 0
        invariant
            j <= orig.len(),
            orig.len() == total,
            rest@ == orig.subrange(j as int, orig.len() as int),
            out@.len() == j,
            forall|t: int| 0 <= t < j ==> same_kernel(#[trigger] orig[t], out@[t]),
            assign_ids(module_ids(orig.take(j as int)), name@, 0, used0) == (module_ids(out@), next as nat, strings(used@)),
            candidates_taken(name@, next as nat, strings(used@)),
            strings(used@).len() == used0.len() + missing(module_ids(orig.take(j as int))),
            used0.len() + missing(module_ids(orig)) < u64::MAX,
        decreases rest@.len(),
    {
        let k = rest.remove(0);
        let ghost tail = orig.subrange(j + 1, orig.len() as int);
        let ghost before_out = out@;
        proof {
            assert(k == orig[j as int]);
            assert(orig =~= orig.take(j as int) + (seq![k] + tail));
            lemma_module_ids_append(orig.take(j as int), seq![k] + tail);
            lemma_module_ids_append(seq![k], tail);
            assert(seq![k].drop_last() =~= Seq::<Kernel>::empty());
            assert(seq![k].last() == k);
            assert(module_ids(Seq::<Kernel>::empty()) == Seq::<Seq<char>>::empty());
            assert(module_ids(seq![k]) =~= region_ids(k.body@));
            lemma_missing_append(module_ids(orig.take(j as int)), region_ids(k.body@) + module_ids(tail));
            lemma_missing_append(region_ids(k.body@), module_ids(tail));
        }
        let ghost old_k = k;
        let Kernel { name: kernel_name, params, block, storages, buffers, roles, pipelines, accumulators, body } = k;
        let body = assign_region(body, &name, &mut next, &mut used, Ghost(missing(module_ids(tail))));
        out.push(Kernel { name: kernel_name, params, block, storages, buffers, roles, pipelines, accumulators, body });
        proof {
            assert(orig.take(j + 1) =~= orig.take(j as int).push(old_k));
            assert(orig.take(j + 1).drop_last() =~= orig.take(j as int));
            assert(out@.drop_last() =~= before_out);
            lemma_assign_append(module_ids(orig.take(j as int)), region_ids(old_k.body@), name@, 0, used0);
            lemma_missing_append(module_ids(orig.take(j as int)), region_ids(old_k.body@));
            assert(rest@ =~= orig.subrange(j + 1, orig.len() as int));
        }
        j = j + 1;
    }
    proof {
        assert(orig.take(j as int) =~= orig);
    }
    Module { name, schema_version, module_revision, target_request, kernels: out }
}

/// Native and imported modules use the same construction checks.
pub struct ModuleBuilder {
    module: Module,
}

impl View for ModuleBuilder {
    type V = Module;

    closed spec fn view(&self) -> Module {
        self.module
    }
}

impl ModuleBuilder {
    pub fn new(name: &str, target_request: TargetRequest) -> (r: Self)
        ensures
            r@.name@ == name@,
            r@.target_request == target_request,
            r@.schema_version == crate::ast::SCHEMA_VERSION,
            r@.module_revision == 0,
            r@.kernels@.len() == 0,
    {
        ModuleBuilder {
            module: Module {
                name: text(name),
                schema_version: crate::ast::SCHEMA_VERSION,
                module_revision: 0,
                target_request,
                kernels: Vec::new(),
            },
        }
    }

    pub fn from_module(module: Module) -> (r: Self)
        ensures
            r@ == module,
    {
        ModuleBuilder { module }
    }

    pub fn add_kernel(&mut self, kernel: Kernel)
        ensures
            final(self)@.kernels@ == old(self)@.kernels@.push(kernel),
            final(self)@.name == old(self)@.name,
            final(self)@.schema_version == old(self)@.schema_version,
            final(self)@.module_revision == old(self)@.module_revision,
            final(self)@.target_request == old(self)@.target_request,
    {
        self.module.kernels.push(kernel);
    }

    /// Explicitly unchecked construction is useful for diagnostics and negative tests.
    pub fn finish_unchecked(self) -> (r: Module)
        requires
            module_ids(self@.kernels@).len() < u64::MAX,
        ensures
            finished(self@, r),
    {
        assign_missing_ids(self.module)
    }

    /// Construction/protocol checks only; this is not permission to execute a GPU binary.
    /// The module is finished as `finish_unchecked` does, then validated: the result is
    /// that module when its check finds no error, else the findings of its check.
    pub fn finish_checked(self) -> (r: Result<Module, DiagnosticBag>)
        requires
            module_ids(self@.kernels@).len() < u64::MAX,
        ensures
            exists|m: Module|
                #![trigger finished(self@, m)]
                finished(self@, m) && if has_error(spec_validate(m)) {
                    r matches Err(b) && b@ == spec_validate(m)
                } else {
                    r == Ok::<Module, DiagnosticBag>(m)
                },
    {
        let ghost before = self@;
        let module = self.finish_unchecked();
        let diagnostics = validate_module(&module);
        if diagnostics.has_errors() {
            assert(finished(before, module));
            Err(diagnostics)
        } else {
            assert(finished(before, module));
            Ok(module)
        }
    }
}


proof fn lemma_candidate_nonempty(prefix: Seq<char>, n: nat)
    ensures
        candidate(prefix, n).len() > 0,
{
    reveal_strlit(".n");
}

proof fn lemma_present_contains(ids: Seq<Seq<char>>, k: int)
    requires
        0 <= k < ids.len(),
        ids[k].len() > 0,
    ensures
        present(ids).contains(ids[k]),
    decreases ids.len(),
{
    if k == ids.len() - 1 {
        assert(present(ids).last() == ids[k]);
    } else {
        lemma_present_contains(ids.drop_last(), k);
        let p = present(ids.drop_last());
        let j = choose|j: int| 0 <= j < p.len() && p[j] == ids[k];
        if ids.last().len() != 0 {
            assert(present(ids)[j] == ids[k]);
        }
    }
}

/// Assigning IDs keeps their number, keeps every present ID in place, and gives every
/// missing one a nonempty ID.
pub proof fn lemma_assign_keeps(ids: Seq<Seq<char>>, prefix: Seq<char>, next: nat, used: Seq<Seq<char>>)
    ensures
        assign_ids(ids, prefix, next, used).0.len() == ids.len(),
        forall|i: int| 0 <= i < ids.len() && ids[i].len() > 0 ==> #[trigger] assign_ids(ids, prefix, next, used).0[i] == ids[i],
        forall|i: int| 0 <= i < ids.len() ==> #[trigger] assign_ids(ids, prefix, next, used).0[i].len() > 0,
    decreases ids.len(),
{
    if ids.len() > 0 {
        lemma_assign_keeps(ids.drop_last(), prefix, next, used);
        let (out, n1, u1) = assign_ids(ids.drop_last(), prefix, next, used);
        let n = first_free(prefix, n1, u1, u1.len());
        lemma_candidate_nonempty(prefix, n);
        let r = assign_ids(ids, prefix, next, used).0;
        assert forall|i: int| 0 <= i < ids.len() implies #[trigger] r[i].len() > 0 && (ids[i].len() > 0 ==> r[i] == ids[i]) by {
            if i < ids.len() - 1 {
                assert(r[i] == out[i]);
                assert(ids.drop_last()[i] == ids[i]);
            }
        }
    }
}

/// The first `k` IDs, assigned against the present IDs of the whole list: the results
/// are pairwise distinct and taken, every present ID is taken, and every assigned ID is
/// new to the present ones.
proof fn lemma_assign_distinct_prefix(ids: Seq<Seq<char>>, prefix: Seq<char>, k: int)
    requires
        0 <= k <= ids.len(),
        forall|i: int, j: int| 0 <= i < j < ids.len() && ids[i].len() > 0 && ids[j].len() > 0 ==> ids[i] != ids[j],
    ensures
        ({
            let (out, n, u) = assign_ids(ids.take(k), prefix, 0, present(ids));
            &&& out.len() == k
            &&& forall|i: int, j: int| 0 <= i < j < k ==> out[i] != out[j]
            &&& forall|i: int| 0 <= i < k ==> u.contains(#[trigger] out[i])
            &&& forall|x: Seq<char>| present(ids).contains(x) ==> u.contains(x)
            &&& forall|i: int| 0 <= i < k ==> (if ids[i].len() > 0 {
                #[trigger] out[i] == ids[i]
            } else {
                !present(ids).contains(out[i])
            })
        }),
    decreases k,
{
    let p = present(ids);
    if k == 0 {
        assert(ids.take(0) =~= Seq::<Seq<char>>::empty());
    } else {
        lemma_assign_distinct_prefix(ids, prefix, k - 1);
        assert(ids.take(k).drop_last() =~= ids.take(k - 1));
        assert(ids.take(k).last() == ids[k - 1]);
        let (out, n, u) = assign_ids(ids.take(k - 1), prefix, 0, p);
        let x = ids[k - 1];
        let (out2, n2, u2) = assign_ids(ids.take(k), prefix, 0, p);
        if x.len() > 0 {
            lemma_present_contains(ids, k - 1);
            assert(out2 == out.push(x));
            assert forall|i: int, j: int| 0 <= i < j < k implies out2[i] != out2[j] by {
                if j == k - 1 {
                    if ids[i].len() > 0 {
                        assert(out2[i] == ids[i]);
                    } else {
                        assert(!p.contains(out[i]));
                    }
                }
            }
        } else {
            let f = first_free(prefix, n, u, u.len());
            lemma_first_free(prefix, n, n, u, u.len());
            let c = candidate(prefix, f);
            assert(out2 == out.push(c));
            assert(u2 == u.push(c));
            assert forall|i: int, j: int| 0 <= i < j < k implies out2[i] != out2[j] by {
                if j == k - 1 {
                    assert(u.contains(out[i]));
                }
            }
            assert forall|i: int| 0 <= i < k implies u2.contains(#[trigger] out2[i]) by {
                if i < k - 1 {
                    let l = choose|l: int| 0 <= l < u.len() && u[l] == out[i];
                    assert(u2[l] == out[i]);
                } else {
                    assert(u2[u.len() as int] == c);
                }
            }
            assert forall|y: Seq<char>| p.contains(y) implies u2.contains(y) by {
                assert(u.contains(y));
                let l = choose|l: int| 0 <= l < u.len() && u[l] == y;
                assert(u2[l] == y);
            }
        }
    }
}

/// When the present IDs are pairwise distinct, assigning the missing ones against them,
/// as a module is finished, leaves all IDs pairwise distinct.
pub proof fn lemma_assign_distinct(ids: Seq<Seq<char>>, prefix: Seq<char>)
    requires
        forall|i: int, j: int| 0 <= i < j < ids.len() && ids[i].len() > 0 && ids[j].len() > 0 ==> ids[i] != ids[j],
    ensures
        forall|i: int, j: int|
            0 <= i < j < ids.len() ==> #[trigger] assign_ids(ids, prefix, 0, present(ids)).0[i]
                != #[trigger] assign_ids(ids, prefix, 0, present(ids)).0[j],
{
    lemma_assign_distinct_prefix(ids, prefix, ids.len() as int);
    assert(ids.take(ids.len() as int) =~= ids);
}

/// Finishing a module keeps the number of nodes and every present node ID in place,
/// gives every node a nonempty ID, and, when the present IDs are pairwise distinct,
/// leaves every node ID unique across the module.
pub proof fn lemma_finished_ids(m: Module, r: Module)
    requires
        finished(m, r),
    ensures
        module_ids(r.kernels@).len() == module_ids(m.kernels@).len(),
        forall|i: int|
            0 <= i < module_ids(m.kernels@).len() && module_ids(m.kernels@)[i].len() > 0 ==> #[trigger] module_ids(
                r.kernels@,
            )[i] == module_ids(m.kernels@)[i],
        forall|i: int| 0 <= i < module_ids(r.kernels@).len() ==> #[trigger] module_ids(r.kernels@)[i].len() > 0,
        (forall|i: int, j: int|
            0 <= i < j < module_ids(m.kernels@).len() && module_ids(m.kernels@)[i].len() > 0 && module_ids(
                m.kernels@,
            )[j].len() > 0 ==> module_ids(m.kernels@)[i] != module_ids(m.kernels@)[j]) ==> forall|i: int, j: int|
            0 <= i < j < module_ids(r.kernels@).len() ==> #[trigger] module_ids(r.kernels@)[i]
                != #[trigger] module_ids(r.kernels@)[j],
{
    let ids = module_ids(m.kernels@);
    lemma_assign_keeps(ids, m.name@, 0, present(ids));
    if forall|i: int, j: int| 0 <= i < j < ids.len() && ids[i].len() > 0 && ids[j].len() > 0 ==> ids[i] != ids[j] {
        lemma_assign_distinct(ids, m.name@);
    }
}

proof fn lemma_shape_join(p: Seq<ScheduleNode>, x: Seq<ScheduleNode>, y: Seq<ScheduleNode>)
    requires
        same_shape(p, x),
        same_shape(p, y),
    ensures
        same_shape(x, y),
    decreases p, 0nat,
{
    if p.len() > 0 {
        lemma_shape_join(p.drop_last(), x.drop_last(), y.drop_last());
        lemma_node_join(p.last(), x.last(), y.last());
    }
}

proof fn lemma_node_join(p: ScheduleNode, x: ScheduleNode, y: ScheduleNode)
    requires
        same_node(p, x),
        same_node(p, y),
    ensures
        same_node(x, y),
    decreases p, 1nat,
{
    match p.kind {
        ScheduleNodeKind::If { then_body, else_body, .. } => {
            if let ScheduleNodeKind::If { then_body: t1, else_body: e1, .. } = x.kind {
                if let ScheduleNodeKind::If { then_body: t2, else_body: e2, .. } = y.kind {
                    lemma_shape_join(then_body@, t1@, t2@);
                    lemma_shape_join(else_body@, e1@, e2@);
                }
            }
        },
        ScheduleNodeKind::For { body, .. } => {
            if let ScheduleNodeKind::For { body: b1, .. } = x.kind {
                if let ScheduleNodeKind::For { body: b2, .. } = y.kind {
                    lemma_shape_join(body@, b1@, b2@);
                }
            }
        },
        ScheduleNodeKind::PipelineFor { body, .. } => {
            if let ScheduleNodeKind::PipelineFor { body: b1, .. } = x.kind {
                if let ScheduleNodeKind::PipelineFor { body: b2, .. } = y.kind {
                    lemma_shape_join(body@, b1@, b2@);
                }
            }
        },
        ScheduleNodeKind::ConcurrentRoles { roles, .. } => {
            if let ScheduleNodeKind::ConcurrentRoles { roles: r1, .. } = x.kind {
                if let ScheduleNodeKind::ConcurrentRoles { roles: r2, .. } = y.kind {
                    lemma_roles_join(roles@, r1@, r2@);
                }
            }
        },
        _ => {},
    }
}

proof fn lemma_roles_join(p: Seq<RoleRegion>, x: Seq<RoleRegion>, y: Seq<RoleRegion>)
    requires
        same_roles(p, x),
        same_roles(p, y),
    ensures
        same_roles(x, y),
    decreases p, 0nat,
{
    if p.len() > 0 {
        lemma_roles_join(p.drop_last(), x.drop_last(), y.drop_last());
        lemma_shape_join(p.last().body@, x.last().body@, y.last().body@);
    }
}

/// Finishing is determined by the module: any two finishes of one module have the
/// same name, schema version, revision and target request, kernels that agree in
/// every field and every node but for the node IDs, and node IDs that read the same,
/// node by node in preorder.
pub proof fn lemma_finished_unique(m: Module, r1: Module, r2: Module)
    requires
        finished(m, r1),
        finished(m, r2),
    ensures
        r1.name == r2.name,
        r1.schema_version == r2.schema_version,
        r1.module_revision == r2.module_revision,
        r1.target_request == r2.target_request,
        same_kernels(r1.kernels@, r2.kernels@),
        module_ids(r1.kernels@) == module_ids(r2.kernels@),
{
    assert forall|i: int| 0 <= i < r1.kernels@.len() implies same_kernel(#[trigger] r1.kernels@[i], r2.kernels@[i]) by {
        assert(same_kernel(m.kernels@[i], r1.kernels@[i]));
        assert(same_kernel(m.kernels@[i], r2.kernels@[i]));
        lemma_shape_join(m.kernels@[i].body@, r1.kernels@[i].body@, r2.kernels@[i].body@);
    }
}

} // verus!
