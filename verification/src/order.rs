//! Dependency graph and deterministic topological publish order.
//!
//! The graph has one node per member and one edge from a dependency to
//! each member that depends on it. The sorter repeatedly places the
//! lowest-indexed member all of whose dependencies are already placed,
//! so the order is deterministic for a given member list; it fails
//! exactly when the graph contains a cycle.

use vstd::prelude::*;
use vstd::set_lib::lemma_int_range;
use vstd::set_lib::lemma_len_subset;
use vstd::set_lib::lemma_subset_equality;
use vstd::set_lib::set_int_range;
use crate::errors::ErrorKind;
use crate::errors::UniverError;
use crate::model::Member;
use crate::model::MemberModel;
use crate::model::distinct_names;

verus! {

/// Edge of the publish graph: member `j` depends on member `i`
/// (so `i` must be published strictly before `j`).
pub open spec fn edge(ms: Seq<MemberModel>, i: int, j: int) -> bool {
    &&& 0 <= i < ms.len()
    &&& 0 <= j < ms.len()
    &&& exists|k: int|
        0 <= k < ms[j].dependencies.len() && ms[j].dependencies[k] == ms[i].name
}

/// `c` is a cycle of the publish graph: a nonempty index sequence with
/// an edge between each consecutive pair and from the last back to the
/// first.
pub open spec fn is_cycle(ms: Seq<MemberModel>, c: Seq<int>) -> bool {
    &&& c.len() >= 1
    &&& forall|k: int| 0 <= k < c.len() ==> 0 <= #[trigger] c[k] < ms.len()
    &&& forall|k: int| 0 <= k < c.len() - 1 ==> edge(ms, #[trigger] c[k], c[k + 1])
    &&& edge(ms, c[c.len() - 1], c[0])
}

/// The publish graph contains a cycle.
pub open spec fn has_cycle(ms: Seq<MemberModel>) -> bool {
    exists|c: Seq<int>| is_cycle(ms, c)
}

/// `ord` is a valid publish order: a permutation of the member indices
/// in which every dependency is placed strictly before each member
/// that depends on it.
pub open spec fn valid_publish_order(ms: Seq<MemberModel>, ord: Seq<int>) -> bool {
    &&& ord.len() == ms.len()
    &&& forall|q: int| 0 <= q < ord.len() ==> 0 <= #[trigger] ord[q] < ms.len()
    &&& ord.no_duplicates()
    &&& forall|q: int, i: int|
        0 <= q < ord.len() && #[trigger] edge(ms, i, ord[q]) ==> exists|p: int|
            0 <= p < q && ord[p] == i
}

/// The member sequence rearranged by an index order.
pub open spec fn apply_order(ms: Seq<MemberModel>, ord: Seq<int>) -> Seq<MemberModel> {
    Seq::new(ord.len(), |q: int| ms[ord[q]])
}

/// Message of the error reported when the graph is not acyclic.
pub open spec fn cycle_error_message() -> Seq<char> {
    "workspace member dependencies contain a cycle"@
}

/// Member `j` is ready to be placed: all its dependencies are placed.
pub open spec fn ready(ms: Seq<MemberModel>, placed: Seq<bool>, j: int) -> bool {
    forall|i: int| edge(ms, i, j) ==> placed[i]
}

/// Finds the member with the given package name, if any.
fn find_member_index(members: &Vec<Member>, name: &String) -> (r: Option<usize>)
    ensures
        (match r {
            Some(i) => i < members@.len() && members.deep_view()[i as int].name == name@,
            None => forall|i: int|
                0 <= i < members@.len() ==> (#[trigger] members.deep_view()[i]).name != name@,
        }),
{
    let mut i: usize = 0;
    while i < members.len()
        invariant
            i <= members@.len(),
            forall|x: int|
                0 <= x < i ==> (#[trigger] members.deep_view()[x]).name != name@,
        decreases members@.len() - i,
    {
        if members[i].name.eq(name) {
            return Some(i);
        }
        i += 1;
    }
    None
}

/// Tests whether all dependencies of member `j` are placed already.
fn is_ready(members: &Vec<Member>, placed: &Vec<bool>, j: usize) -> (b: bool)
    requires
        j < members@.len(),
        placed@.len() == members@.len(),
        distinct_names(members.deep_view()),
    ensures
        b == ready(members.deep_view(), placed@, j as int),
{
    let ghost ms = members.deep_view();
    let deps_len = members[j].dependencies.len();
    let mut k: usize = 0;
    while k < deps_len
        invariant
            ms == members.deep_view(),
            j < members@.len(),
            placed@.len() == members@.len(),
            distinct_names(ms),
            deps_len == ms[j as int].dependencies.len(),
            k <= deps_len,
            forall|i: int, kk: int|
                #![trigger ms[j as int].dependencies[kk], ms[i]]
                0 <= kk < k && 0 <= i < ms.len() && ms[j as int].dependencies[kk] == ms[i].name
                    ==> placed@[i],
        decreases deps_len - k,
    {
        let dep = &members[j].dependencies[k];
        proof {
            assert(dep@ == ms[j as int].dependencies[k as int]);
        }
        match find_member_index(members, &dep.name) {
            Some(i) => {
                if !placed[i] {
                    proof {
                        assert(edge(ms, i as int, j as int));
                        assert(!ready(ms, placed@, j as int));
                    }
                    return false;
                }
                proof {
                    assert forall|i2: int, kk: int|
                        #![trigger ms[j as int].dependencies[kk], ms[i2]]
                        0 <= kk < k + 1 && 0 <= i2 < ms.len() && ms[j as int].dependencies[kk]
                            == ms[i2].name implies placed@[i2] by {
                        if kk == k {
                            assert(ms[i2].name == ms[i as int].name);
                            assert(crate::model::member_names(ms)[i2] == ms[i2].name);
                            assert(crate::model::member_names(ms)[i as int] == ms[i as int].name);
                            assert(i2 == i);
                        }
                    }
                }
            },
            None => {
                proof {
                    assert forall|i2: int, kk: int|
                        #![trigger ms[j as int].dependencies[kk], ms[i2]]
                        0 <= kk < k + 1 && 0 <= i2 < ms.len() && ms[j as int].dependencies[kk]
                            == ms[i2].name implies placed@[i2] by {}
                }
            },
        }
        k += 1;
    }
    proof {
        assert forall|i: int| edge(ms, i, j as int) implies placed@[i] by {
            let kk = choose|kk: int|
                0 <= kk < ms[j as int].dependencies.len() && ms[j as int].dependencies[kk]
                    == ms[i].name;
        }
    }
    true
}

/// A sequence longer than a finite set it draws its elements from must
/// repeat an element.
proof fn lemma_pigeonhole(p: Seq<int>, s: Set<int>)
    requires
        s.finite(),
        forall|k: int| 0 <= k < p.len() ==> s.contains(#[trigger] p[k]),
        p.len() > s.len(),
    ensures
        exists|x: int, y: int| 0 <= x < y < p.len() && p[x] == p[y],
{
    if !(exists|x: int, y: int| 0 <= x < y < p.len() && p[x] == p[y]) {
        assert(p.no_duplicates()) by {
            assert forall|a: int, b: int| 0 <= a < p.len() && 0 <= b < p.len() && a != b implies p[a]
                != p[b] by {
                if a < b && p[a] == p[b] {
                    assert(exists|x: int, y: int| 0 <= x < y < p.len() && p[x] == p[y]);
                }
                if b < a && p[a] == p[b] {
                    assert(exists|x: int, y: int| 0 <= x < y < p.len() && p[x] == p[y]);
                }
            }
        }
        p.unique_seq_to_set();
        assert(p.to_set().subset_of(s)) by {
            assert forall|e: int| p.to_set().contains(e) implies s.contains(e) by {
                let k = choose|k: int| 0 <= k < p.len() && p[k] == e;
            }
        }
        lemma_len_subset(p.to_set(), s);
        assert(false);
    }
}

/// In a blocked set every element has a predecessor inside the set.
pub open spec fn blocked_set(ms: Seq<MemberModel>, s: Set<int>) -> bool {
    forall|j: int| #[trigger] s.contains(j) ==> 0 <= j < ms.len() && exists|i: int|
        s.contains(i) && edge(ms, i, j)
}

/// Builds a chain of `len + 1` members of a blocked set ending at
/// `start`, each linked to the next by an edge.
proof fn build_chain(ms: Seq<MemberModel>, s: Set<int>, start: int, len: nat) -> (p: Seq<int>)
    requires
        blocked_set(ms, s),
        s.contains(start),
    ensures
        p.len() == len + 1,
        p[p.len() - 1] == start,
        forall|k: int| 0 <= k < p.len() ==> s.contains(#[trigger] p[k]),
        forall|k: int| 0 <= k < p.len() - 1 ==> edge(ms, #[trigger] p[k], p[k + 1]),
    decreases len,
{
    if len == 0 {
        seq![start]
    } else {
        let pred = choose|i: int| s.contains(i) && edge(ms, i, start);
        let q = build_chain(ms, s, pred, (len - 1) as nat);
        let p = q.push(start);
        assert(p[p.len() - 2] == pred);
        assert forall|k: int| 0 <= k < p.len() - 1 implies edge(ms, #[trigger] p[k], p[k + 1]) by {
            if k < p.len() - 2 {
                assert(edge(ms, q[k], q[k + 1]));
            }
        }
        p
    }
}

/// A nonempty blocked set forces a cycle: walking predecessors long
/// enough must revisit a member.
proof fn lemma_blocked_set_has_cycle(ms: Seq<MemberModel>, s: Set<int>)
    requires
        s.finite(),
        exists|j: int| s.contains(j),
        blocked_set(ms, s),
    ensures
        has_cycle(ms),
{
    let j0 = choose|j: int| s.contains(j);
    if s.len() == 0 {
        assert(s =~= Set::<int>::empty());
        assert(false);
    }
    let p = build_chain(ms, s, j0, s.len());
    lemma_pigeonhole(p, s);
    let (x, y) = choose|x: int, y: int| 0 <= x < y < p.len() && p[x] == p[y];
    let c = p.subrange(x, y);
    assert(is_cycle(ms, c)) by {
        assert(c.len() == y - x >= 1);
        assert forall|k: int| 0 <= k < c.len() implies 0 <= #[trigger] c[k] < ms.len() by {
            assert(c[k] == p[x + k]);
            assert(s.contains(p[x + k]));
        }
        assert forall|k: int| 0 <= k < c.len() - 1 implies edge(ms, #[trigger] c[k], c[k + 1]) by {
            assert(c[k] == p[x + k] && c[k + 1] == p[x + k + 1]);
        }
        assert(c[c.len() - 1] == p[y - 1]);
        assert(edge(ms, p[y - 1], p[y]));
        assert(c[0] == p[x] == p[y]);
    }
}

/// Position of `x` in `ord`.
spec fn position_in(ord: Seq<int>, x: int) -> int {
    choose|q: int| 0 <= q < ord.len() && ord[q] == x
}

/// A duplicate-free sequence of `n` indices in range covers every index.
proof fn lemma_full_order_covers(ord: Seq<int>, n: int)
    requires
        ord.len() == n,
        forall|q: int| 0 <= q < ord.len() ==> 0 <= #[trigger] ord[q] < n,
        ord.no_duplicates(),
    ensures
        forall|x: int|
            0 <= x < n ==> 0 <= #[trigger] position_in(ord, x) < n && ord[position_in(ord, x)] == x,
{
    ord.unique_seq_to_set();
    lemma_int_range(0, n);
    assert(ord.to_set().subset_of(set_int_range(0, n))) by {
        assert forall|e: int| ord.to_set().contains(e) implies set_int_range(0, n).contains(e) by {
            let q = choose|q: int| 0 <= q < ord.len() && ord[q] == e;
        }
    }
    lemma_subset_equality(ord.to_set(), set_int_range(0, n));
    assert forall|x: int|
        0 <= x < n implies 0 <= #[trigger] position_in(ord, x) < n
        && ord[position_in(ord, x)] == x by {
        assert(set_int_range(0, n).contains(x));
        assert(ord.to_set().contains(x));
        assert(ord.contains(x));
        let q = choose|q: int| 0 <= q < ord.len() && ord[q] == x;
        assert(ord[position_in(ord, x)] == x);
    }
}

/// Index (within the first `m` entries of `c`) of the cycle member
/// placed earliest by `ord`.
proof fn chain_argmin(ord: Seq<int>, c: Seq<int>, m: int) -> (k: int)
    requires
        1 <= m <= c.len(),
    ensures
        0 <= k < m,
        forall|k2: int|
            0 <= k2 < m ==> position_in(ord, c[k]) <= position_in(ord, #[trigger] c[k2]),
    decreases m,
{
    if m == 1 {
        0
    } else {
        let k0 = chain_argmin(ord, c, m - 1);
        if position_in(ord, c[m - 1]) < position_in(ord, c[k0]) {
            m - 1
        } else {
            k0
        }
    }
}

/// Rearranging a member sequence by a permutation of its indices
/// keeps exactly the same members, as a multiset.
pub proof fn lemma_apply_order_is_permutation(ms: Seq<MemberModel>, ord: Seq<int>)
    requires
        ord.len() == ms.len(),
        forall|q: int| 0 <= q < ord.len() ==> 0 <= #[trigger] ord[q] < ms.len(),
        ord.no_duplicates(),
    ensures
        apply_order(ms, ord).to_multiset() == ms.to_multiset(),
    decreases ms.len(),
{
    broadcast use vstd::multiset::group_multiset_axioms;
    broadcast use vstd::seq_lib::group_to_multiset_ensures;

    let n = ms.len() as int;
    let applied = apply_order(ms, ord);
    if n == 0 {
        assert(applied =~= ms);
    } else {
        lemma_full_order_covers(ord, n);
        let q = position_in(ord, n - 1);
        assert(0 <= q < n && ord[q] == n - 1);
        let ord2 = ord.remove(q);
        let ms2 = ms.drop_last();
        assert(ord2.len() == n - 1);
        assert forall|p: int| 0 <= p < n - 1 implies 0 <= #[trigger] ord2[p] < n - 1 by {
            if p < q {
                assert(ord2[p] == ord[p]);
                assert(ord[p] != ord[q]);
            } else {
                assert(ord2[p] == ord[p + 1]);
                assert(ord[p + 1] != ord[q]);
            }
        }
        assert(ord2.no_duplicates()) by {
            assert forall|a: int, b: int|
                0 <= a < ord2.len() && 0 <= b < ord2.len() && a != b implies ord2[a] != ord2[b] by {
                let a0 = if a < q {
                    a
                } else {
                    a + 1
                };
                let b0 = if b < q {
                    b
                } else {
                    b + 1
                };
                assert(ord2[a] == ord[a0] && ord2[b] == ord[b0]);
            }
        }
        lemma_apply_order_is_permutation(ms2, ord2);
        assert(applied.remove(q) =~= apply_order(ms2, ord2)) by {
            assert forall|p: int| 0 <= p < n - 1 implies applied.remove(q)[p] == apply_order(
                ms2,
                ord2,
            )[p] by {
                if p < q {
                    assert(applied.remove(q)[p] == applied[p]);
                    assert(ord2[p] == ord[p]);
                } else {
                    assert(applied.remove(q)[p] == applied[p + 1]);
                    assert(ord2[p] == ord[p + 1]);
                }
            }
        }
        assert(ms.remove(n - 1) =~= ms2);
        let x = ms[n - 1];
        assert(applied.remove(q).to_multiset() == applied.to_multiset().remove(x)) by {
            assert(applied[q] == x);
        }
        assert(ms.remove(n - 1).to_multiset() == ms.to_multiset().remove(x));
        assert(applied.to_multiset().remove(x) == ms.to_multiset().remove(x));
        assert(applied.to_multiset().count(x) > 0) by {
            assert(applied[q] == x);
            assert(applied.contains(x));
        }
        assert(ms.to_multiset().count(x) > 0) by {
            assert(ms.contains(x));
        }
        assert(applied.to_multiset() =~= applied.to_multiset().remove(x).insert(x));
        assert(ms.to_multiset() =~= ms.to_multiset().remove(x).insert(x));
    }
}

/// A valid publish order rules out any cycle: the cycle member placed
/// earliest would still need a predecessor placed before it.
proof fn lemma_order_excludes_cycle(ms: Seq<MemberModel>, ord: Seq<int>)
    requires
        valid_publish_order(ms, ord),
    ensures
        !has_cycle(ms),
{
    if has_cycle(ms) {
        let c = choose|c: Seq<int>| is_cycle(ms, c);
        let n = ms.len() as int;
        lemma_full_order_covers(ord, n);
        let k = chain_argmin(ord, c, c.len() as int);
        let kp = if k == 0 {
            c.len() - 1
        } else {
            k - 1
        };
        assert(edge(ms, c[kp], c[k]));
        let q = position_in(ord, c[k]);
        assert(ord[q] == c[k]);
        let p = choose|p: int| 0 <= p < q && ord[p] == c[kp];
        assert(ord[position_in(ord, c[kp])] == c[kp]);
        assert(ord.no_duplicates());
        assert(position_in(ord, c[kp]) == p);
        assert(position_in(ord, c[k]) <= position_in(ord, c[kp]));
        assert(false);
    }
}

/// Returns the members sorted into publish order: dependencies
/// strictly before dependents, ties broken deterministically by the
/// lowest input position. Fails exactly when the dependency graph of
/// the members contains a cycle.
pub fn sort(members: Vec<Member>) -> (r: Result<Vec<Member>, UniverError>)
    requires
        distinct_names(members.deep_view()),
    ensures
        (match r {
            Ok(sorted) => {
                &&& !has_cycle(members.deep_view())
                &&& exists|ord: Seq<int>|
                    #[trigger] valid_publish_order(members.deep_view(), ord)
                        && sorted.deep_view() == apply_order(members.deep_view(), ord)
                &&& sorted.deep_view().to_multiset() == members.deep_view().to_multiset()
            },
            Err(e) => {
                &&& has_cycle(members.deep_view())
                &&& e.kind == ErrorKind::Cycle
                &&& e.message@ == cycle_error_message()
            },
        }),
{
    let ghost ms = members.deep_view();
    let n = members.len();
    let mut placed: Vec<bool> = vec![false; n];
    let mut order: Vec<usize> = Vec::new();
    let mut result: Vec<Member> = Vec::new();
    proof {
        assert(forall|x: int| 0 <= x < n ==> !placed@[x]);
    }
    while order.len() < n
        invariant
            ms == members.deep_view(),
            n == members@.len(),
            ms.len() == n,
            distinct_names(ms),
            placed@.len() == n,
            order@.len() == result@.len(),
            order@.len() <= n,
            forall|q: int| 0 <= q < order@.len() ==> (#[trigger] order@[q]) < n,
            forall|x: int|
                0 <= x < n ==> (placed@[x] == exists|q: int|
                    0 <= q < order@.len() && (#[trigger] order@[q]) as int == x),
            order@.no_duplicates(),
            forall|q: int|
                0 <= q < order@.len() ==> result.deep_view()[q] == ms[(#[trigger] order@[q]) as int],
            forall|q: int, i: int|
                0 <= q < order@.len() && #[trigger] edge(ms, i, (order@[q]) as int) ==> exists|
                    p: int,
                |
                    0 <= p < q && order@[p] as int == i,
        decreases n - order.len(),
    {
        let mut found: bool = false;
        let mut pick: usize = 0;
        let mut j: usize = 0;
        while j < n
            invariant
                ms == members.deep_view(),
                n == members@.len(),
                ms.len() == n,
                distinct_names(ms),
                placed@.len() == n,
                j <= n,
                found ==> pick < n && !placed@[pick as int] && ready(ms, placed@, pick as int),
                !found ==> forall|jj: int|
                    0 <= jj < j ==> placed@[jj] || !(#[trigger] ready(ms, placed@, jj)),
            decreases n - j,
        {
            if !found && !placed[j] && is_ready(&members, &placed, j) {
                found = true;
                pick = j;
            }
            j += 1;
        }
        if !found {
            proof {
                let s = Set::new(|x: int| 0 <= x < n && !placed@[x]);
                assert(s.finite()) by {
                    lemma_int_range(0, n as int);
                    assert(s.subset_of(set_int_range(0, n as int)));
                    vstd::set_lib::lemma_len_subset(s, set_int_range(0, n as int));
                }
                // some member is unplaced, else the order would already cover all n
                let vals = order@.map_values(|u: usize| u as int);
                assert(vals.no_duplicates()) by {
                    assert forall|a: int, b: int|
                        0 <= a < vals.len() && 0 <= b < vals.len() && a != b implies vals[a]
                        != vals[b] by {
                        assert(order@[a] != order@[b]);
                    }
                }
                vals.unique_seq_to_set();
                vals.lemma_cardinality_of_set();
                lemma_int_range(0, n as int);
                assert(exists|x: int| s.contains(x)) by {
                    if forall|x: int| 0 <= x < n ==> #[trigger] placed@[x] {
                        assert(set_int_range(0, n as int).subset_of(vals.to_set())) by {
                            assert forall|x: int|
                                set_int_range(0, n as int).contains(x) implies vals.to_set()
                                .contains(x) by {
                                assert(placed@[x]);
                                let q = choose|q: int|
                                    0 <= q < order@.len() && (order@[q]) as int == x;
                                assert(vals[q] == x);
                            }
                        }
                        lemma_len_subset(set_int_range(0, n as int), vals.to_set());
                        assert(false);
                    } else {
                        let x = choose|x: int| 0 <= x < n && !placed@[x];
                        assert(s.contains(x));
                    }
                }
                assert(blocked_set(ms, s)) by {
                    assert forall|j2: int| #[trigger] s.contains(j2) implies 0 <= j2 < ms.len()
                        && exists|i: int| s.contains(i) && edge(ms, i, j2) by {
                        assert(!placed@[j2] && !ready(ms, placed@, j2));
                        let i = choose|i: int| edge(ms, i, j2) && !placed@[i];
                        assert(s.contains(i));
                    }
                }
                lemma_blocked_set_has_cycle(ms, s);
            }
            return Err(
                UniverError::new(
                    ErrorKind::Cycle,
                    String::from_str("workspace member dependencies contain a cycle"),
                ),
            );
        }
        let ghost order0 = order@;
        let ghost placed0 = placed@;
        let ghost dv0 = result.deep_view();
        placed.set(pick, true);
        order.push(pick);
        let picked = members[pick].clone();
        result.push(picked);
        proof {
            assert(result.deep_view() =~= dv0.push(ms[pick as int]));
            // placement bookkeeping
            assert forall|x: int|
                0 <= x < n implies (placed@[x] == exists|q: int|
                0 <= q < order@.len() && (#[trigger] order@[q]) as int == x) by {
                if x == pick {
                    assert(order@[order@.len() - 1] as int == x);
                } else {
                    assert(placed@[x] == placed0[x]);
                    if placed0[x] {
                        let q = choose|q: int| 0 <= q < order0.len() && (order0[q]) as int == x;
                        assert(order@[q] as int == x);
                    } else {
                        if exists|q: int| 0 <= q < order@.len() && (order@[q]) as int == x {
                            let q = choose|q: int|
                                0 <= q < order@.len() && (order@[q]) as int == x;
                            assert(q < order0.len());
                            assert((order0[q]) as int == x);
                        }
                    }
                }
            }
            // the pick was unplaced, so it is not yet in the order
            assert(order@.no_duplicates()) by {
                assert forall|a: int, b: int|
                    0 <= a < order@.len() && 0 <= b < order@.len() && a != b implies order@[a]
                    != order@[b] by {
                    if b == order@.len() - 1 && a < b {
                        if order@[a] == order@[b] {
                            assert((order0[a]) as int == pick as int);
                            assert(placed0[pick as int]);
                        }
                    }
                    if a == order@.len() - 1 && b < a {
                        if order@[a] == order@[b] {
                            assert((order0[b]) as int == pick as int);
                            assert(placed0[pick as int]);
                        }
                    }
                }
            }
            // edges into the picked member come from placed members
            assert forall|q: int, i: int|
                0 <= q < order@.len() && #[trigger] edge(ms, i, (order@[q]) as int) implies exists|
                p: int,
            | 0 <= p < q && order@[p] as int == i by {
                if q < order0.len() {
                    let p = choose|p: int| 0 <= p < q && order0[p] as int == i;
                    assert(order@[p] as int == i);
                } else {
                    assert(ready(ms, placed0, pick as int));
                    assert(placed0[i]);
                    let p = choose|p: int| 0 <= p < order0.len() && (order0[p]) as int == i;
                    assert(order@[p] as int == i);
                }
            }
        }
    }
    proof {
        let ord = order@.map_values(|u: usize| u as int);
        assert(ord.no_duplicates()) by {
            assert forall|a: int, b: int|
                0 <= a < ord.len() && 0 <= b < ord.len() && a != b implies ord[a] != ord[b] by {
                assert(order@[a] != order@[b]);
            }
        }
        assert(valid_publish_order(ms, ord)) by {
            assert forall|q: int, i: int|
                0 <= q < ord.len() && #[trigger] edge(ms, i, ord[q]) implies exists|p: int|
                0 <= p < q && ord[p] == i by {
                assert(edge(ms, i, (order@[q]) as int));
                let p = choose|p: int| 0 <= p < q && (order@[p]) as int == i;
                assert(ord[p] == i);
            }
        }
        assert(result.deep_view() =~= apply_order(ms, ord));
        lemma_order_excludes_cycle(ms, ord);
        lemma_apply_order_is_permutation(ms, ord);
    }
    Ok(result)
}

} // verus!
