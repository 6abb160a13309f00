//! Removing variables that participate in reference cycles.
//!
//! Per the CSS custom-properties rules, a variable on a dependency cycle
//! reverts to its initial value, which this map represents by absence.  A
//! depth-first walk over the reference graph collects the victims; whenever
//! a referenced name already sits on the walk's stack, the whole stack
//! suffix from that position onward lies on a cycle.  Two directions are
//! proved: every removed name lies on a cycle of the original reference
//! graph, and no surviving name lies on a cycle of the surviving graph.
//!
//! The second direction rests on the order in which the walk finishes
//! names, kept as a ghost sequence: every reference out of a finished name
//! leads to a recorded victim or to a name finished earlier, so a surviving
//! cycle would have to descend forever through earlier and earlier finish
//! positions.

use vstd::prelude::*;
use crate::maps::NameSet;
use crate::value::BorrowedSpecifiedValueV;
use crate::cascade::SpecifiedMap;

verus! {

/// The reference graph's edge relation: `a`'s entry references `b`.
pub open spec fn spec_edge(
    m: Map<Seq<u8>, BorrowedSpecifiedValueV>,
    a: Seq<u8>,
    b: Seq<u8>,
) -> bool {
    &&& m.contains_key(a)
    &&& m[a].references is Some
    &&& m[a].references->Some_0.contains(b)
}

/// Consecutive elements are joined by edges.
pub open spec fn spec_is_path(m: Map<Seq<u8>, BorrowedSpecifiedValueV>, p: Seq<Seq<u8>>) -> bool {
    forall|i: int| 0 <= i < p.len() - 1 ==> spec_edge(m, #[trigger] p[i], p[i + 1])
}

/// `x` lies on a cycle of the reference graph.
pub open spec fn spec_on_cycle(m: Map<Seq<u8>, BorrowedSpecifiedValueV>, x: Seq<u8>) -> bool {
    exists|p: Seq<Seq<u8>>|
        spec_is_path(m, p) && p.len() >= 2 && p.first() == x && p.last() == x
}

/// The names of a stack of owned byte strings.
pub open spec fn names_of(s: Seq<Vec<u8>>) -> Seq<Seq<u8>> {
    s.map_values(|v: Vec<u8>| v@)
}

/// Every reference out of a finished name leads to a recorded victim or to
/// a name finished earlier.
pub open spec fn spec_done_edges(
    m: Map<Seq<u8>, BorrowedSpecifiedValueV>,
    done: Seq<Seq<u8>>,
    removed: Set<Seq<u8>>,
) -> bool {
    forall|i: int, w: Seq<u8>|
        #![trigger spec_edge(m, done[i], w)]
        0 <= i < done.len() && spec_edge(m, done[i], w) && m.contains_key(w) ==> removed.contains(
            w,
        ) || exists|j: int| 0 <= j < i && done[j] == w
}

/// The visited names are exactly the finished ones and those on the stack.
pub open spec fn spec_coloring(
    visited: Set<Seq<u8>>,
    done: Seq<Seq<u8>>,
    stack: Seq<Seq<u8>>,
) -> bool {
    forall|x: Seq<u8>| #[trigger] visited.contains(x) <==> done.contains(x) || stack.contains(x)
}

/// Membership in a sequence extended by one element.
proof fn lemma_contains_push(s: Seq<Seq<u8>>, x: Seq<u8>, y: Seq<u8>)
    ensures
        s.push(y).contains(x) <==> (s.contains(x) || x == y),
{
    assert(s.push(y)[s.len() as int] == y);
    if s.contains(x) {
        let i = choose|i: int| 0 <= i < s.len() && s[i] == x;
        assert(s.push(y)[i] == x);
    }
    if s.push(y).contains(x) {
        let i = choose|i: int| 0 <= i < s.push(y).len() && s.push(y)[i] == x;
        if i < s.len() {
            assert(s[i] == x);
        }
    }
}

/// Membership carries from a prefix to the whole sequence.
proof fn lemma_prefix_contains(a: Seq<Seq<u8>>, b: Seq<Seq<u8>>, x: Seq<u8>)
    requires
        a.len() <= b.len(),
        b.subrange(0, a.len() as int) == a,
        a.contains(x),
    ensures
        b.contains(x),
{
    let i = choose|i: int| 0 <= i < a.len() && a[i] == x;
    assert(b.subrange(0, a.len() as int)[i] == a[i]);
    assert(b[i] == x);
}

/// The position of the first occurrence of `x`.
pub open spec fn first_index(done: Seq<Seq<u8>>, x: Seq<u8>) -> int
    decreases done.len(),
{
    if done.len() == 0 {
        0
    } else if done[0] == x {
        0
    } else {
        1 + first_index(done.drop_first(), x)
    }
}

/// The first occurrence is a valid, minimal occurrence.
proof fn lemma_first_index(done: Seq<Seq<u8>>, x: Seq<u8>)
    requires
        done.contains(x),
    ensures
        0 <= first_index(done, x) < done.len(),
        done[first_index(done, x)] == x,
        forall|j: int| 0 <= j < first_index(done, x) ==> done[j] != x,
    decreases done.len(),
{
    if done[0] == x {
    } else {
        let idx = choose|idx: int| 0 <= idx < done.len() && done[idx] == x;
        assert(done.drop_first()[idx - 1] == x);
        assert(done.drop_first().contains(x));
        lemma_first_index(done.drop_first(), x);
        assert(done[first_index(done, x)] == done.drop_first()[first_index(done, x) - 1]);
        assert forall|j: int| 0 <= j < first_index(done, x) implies done[j] != x by {
            if j > 0 {
                assert(done.drop_first()[j - 1] == done[j]);
            }
        }
    }
}

/// Among the first `n` elements of `p` there is one whose first finish
/// position is minimal.
proof fn lemma_argmin(done: Seq<Seq<u8>>, p: Seq<Seq<u8>>, n: int)
    requires
        1 <= n <= p.len(),
    ensures
        exists|mm: int|
            0 <= mm < n && forall|q: int|
                0 <= q < n ==> first_index(done, #[trigger] p[mm]) <= first_index(done, p[q]),
    decreases n,
{
    if n == 1 {
        assert(forall|q: int|
            0 <= q < 1 ==> first_index(done, p[0]) <= first_index(done, #[trigger] p[q]));
    } else {
        lemma_argmin(done, p, n - 1);
        let mm = choose|mm: int|
            0 <= mm < n - 1 && forall|q: int|
                0 <= q < n - 1 ==> first_index(done, #[trigger] p[mm]) <= first_index(done, p[q]);
        if first_index(done, p[n - 1]) < first_index(done, p[mm]) {
            assert(forall|q: int|
                0 <= q < n ==> first_index(done, p[n - 1]) <= first_index(done, #[trigger] p[q]));
        } else {
            assert(forall|q: int|
                0 <= q < n ==> first_index(done, p[mm]) <= first_index(done, #[trigger] p[q]));
        }
    }
}

/// Every cycle of finished names holds a recorded victim: were there none,
/// the finish-order invariant would make the cycle's earliest-finished name
/// need a successor finished still earlier.
proof fn lemma_cycle_has_victim(
    m: Map<Seq<u8>, BorrowedSpecifiedValueV>,
    done: Seq<Seq<u8>>,
    removed: Set<Seq<u8>>,
    p: Seq<Seq<u8>>,
)
    requires
        spec_done_edges(m, done, removed),
        spec_is_path(m, p),
        p.len() >= 2,
        p.first() == p.last(),
        forall|i: int|
            0 <= i < p.len() ==> done.contains(#[trigger] p[i]) && m.contains_key(p[i]),
    ensures
        exists|i: int| 0 <= i < p.len() && removed.contains(#[trigger] p[i]),
{
    let n = p.len() - 1;
    lemma_argmin(done, p, n);
    let mm = choose|mm: int|
        0 <= mm < n && forall|q: int|
            0 <= q < n ==> first_index(done, #[trigger] p[mm]) <= first_index(done, p[q]);
    let v = p[mm];
    lemma_first_index(done, v);
    let iv = first_index(done, v);
    let w = p[mm + 1];
    assert(spec_edge(m, v, w));
    assert(done[iv] == v);
    assert(removed.contains(w) || exists|j: int| 0 <= j < iv && done[j] == w);
    if !removed.contains(w) {
        let j = choose|j: int| 0 <= j < iv && done[j] == w;
        lemma_first_index(done, w);
        assert(first_index(done, w) <= j) by {
            if first_index(done, w) > j {
                assert(done[j] != w);
            }
        }
        let q: int = if mm + 1 < n {
            mm + 1
        } else {
            0
        };
        assert(p[q] == w);
        assert(first_index(done, v) <= first_index(done, p[q]));
        assert(false);
    }
    assert(removed.contains(p[mm + 1]));
}

/// The first stack position holding `name`, if any.
fn find_in_stack(stack: &Vec<Vec<u8>>, name: &Vec<u8>) -> (r: Option<usize>)
    ensures
        match r {
            Some(p) => p < stack@.len() && names_of(stack@)[p as int] == name@,
            None => forall|j: int| 0 <= j < stack@.len() ==> names_of(stack@)[j] != name@,
        },
{
    let mut i: usize = 0;
    while i < stack.len()
        invariant
            0 <= i <= stack.len(),
            forall|j: int| 0 <= j < i ==> stack@[j]@ != name@,
        decreases stack.len() - i,
    {
        if crate::bytes::bytes_eq(&stack[i], name) {
            proof {
                assert(names_of(stack@)[i as int] == name@);
            }
            return Some(i);
        }
        i = i + 1;
    }
    proof {
        assert forall|j: int| 0 <= j < stack@.len() implies names_of(stack@)[j] != name@ by {
            assert(stack@[j]@ != name@);
        }
    }
    None
}

/// Every element of the stack suffix from `pos` lies on a cycle, given the
/// stack is a path whose last element has an edge to the element at `pos`.
proof fn lemma_suffix_on_cycle(
    m: Map<Seq<u8>, BorrowedSpecifiedValueV>,
    stack: Seq<Seq<u8>>,
    pos: int,
    j: int,
)
    requires
        spec_is_path(m, stack),
        0 <= pos <= j < stack.len(),
        spec_edge(m, stack.last(), stack[pos]),
    ensures
        spec_on_cycle(m, stack[j]),
{
    let n = stack.len() as int;
    let q = stack.subrange(j, n) + stack.subrange(pos, j + 1);
    assert(q.len() == n - pos + 1);
    assert(q.first() == stack[j]);
    assert(q.last() == stack[j]);
    assert forall|i: int| 0 <= i < q.len() - 1 implies spec_edge(m, #[trigger] q[i], q[i + 1]) by {
        if i < n - j - 1 {
            assert(q[i] == stack[j + i]);
            assert(q[i + 1] == stack[j + i + 1]);
        } else if i == n - j - 1 {
            assert(q[i] == stack[n - 1]);
            assert(q[i + 1] == stack[pos]);
            assert(stack.last() == stack[n - 1]);
        } else {
            assert(q[i] == stack[pos + (i - (n - j))]);
            assert(q[i + 1] == stack[pos + (i - (n - j)) + 1]);
        }
    }
    assert(spec_is_path(m, q) && q.len() >= 2 && q.first() == stack[j] && q.last() == stack[j]);
}

/// One depth-first visit.
///
/// The stack holds the path walked so far; whenever a reference lands on it,
/// the suffix from that position is recorded for removal.  Everything
/// recorded lies on a cycle of `map`'s reference graph.  The ghost `done`
/// sequence records the order in which names finish; the visit appends
/// `name` once its references are handled, each leading to a victim or to
/// an earlier-finished name.
fn walk(
    map: &SpecifiedMap,
    name: &Vec<u8>,
    stack: &mut Vec<Vec<u8>>,
    visited: &mut NameSet,
    to_remove: &mut NameSet,
    done: Ghost<Seq<Seq<u8>>>,
) -> (done2: Ghost<Seq<Seq<u8>>>)
    requires
        map.wf(),
        map@.contains_key(name@),
        !old(visited)@.contains(name@),
        spec_is_path(map@, names_of(old(stack)@)),
        old(stack)@.len() > 0 ==> spec_edge(map@, names_of(old(stack)@).last(), name@),
        forall|k: Seq<u8>| old(to_remove)@.contains(k) ==> spec_on_cycle(map@, k),
        spec_done_edges(map@, done@, old(to_remove)@),
        spec_coloring(old(visited)@, done@, names_of(old(stack)@)),
    ensures
        final(stack)@ == old(stack)@,
        old(visited)@.insert(name@).subset_of(final(visited)@),
        old(to_remove)@.subset_of(final(to_remove)@),
        forall|k: Seq<u8>| final(to_remove)@.contains(k) ==> spec_on_cycle(map@, k),
        done@.len() <= done2@.len(),
        done2@.subrange(0, done@.len() as int) == done@,
        done2@.contains(name@),
        spec_done_edges(map@, done2@, final(to_remove)@),
        spec_coloring(final(visited)@, done2@, names_of(old(stack)@)),
    decreases map@.dom().difference(old(visited)@).len(),
{
    proof {
        map.lemma_entries();
        vstd::set_lib::lemma_len_subset(map@.dom().difference(old(visited)@), map@.dom());
    }
    let ghost mut d = done@;
    visited.insert(name);
    let value = match map.get(name) {
        Some(v) => v,
        None => {
            proof {
                assert(false);
            }
            return Ghost(d);
        },
    };
    let refs = match &value.references {
        Some(r) => r,
        None => {
            proof {
                assert(value@ == map@[name@]);
                assert(map@[name@].references is None);
                d = d.push(name@);
                assert(d.subrange(0, done@.len() as int) =~= done@);
                assert(d[done@.len() as int] == name@);
                assert forall|i: int, w: Seq<u8>|
                    0 <= i < d.len() && spec_edge(map@, d[i], w) && map@.contains_key(w)
                    implies to_remove@.contains(w) || exists|j: int| 0 <= j < i && d[j] == w by {
                    if i < done@.len() {
                        assert(d[i] == done@[i]);
                        assert(spec_edge(map@, done@[i], w));
                        if !to_remove@.contains(w) {
                            let j = choose|j: int| 0 <= j < i && done@[j] == w;
                            assert(d[j] == w);
                        }
                    } else {
                        assert(d[i] == name@);
                    }
                }
                assert forall|x: Seq<u8>| #[trigger] visited@.contains(x) <==> d.contains(x)
                    || names_of(stack@).contains(x) by {
                    lemma_contains_push(done@, x, name@);
                }
            }
            return Ghost(d);
        },
    };
    stack.push(crate::bytes::copy_bytes(name));
    proof {
        assert(names_of(stack@) =~= names_of(old(stack)@).push(name@));
        assert forall|i: int| 0 <= i < names_of(stack@).len() - 1 implies spec_edge(
            map@,
            #[trigger] names_of(stack@)[i],
            names_of(stack@)[i + 1],
        ) by {
            if i < names_of(old(stack)@).len() - 1 {
                assert(names_of(stack@)[i] == names_of(old(stack)@)[i]);
                assert(names_of(stack@)[i + 1] == names_of(old(stack)@)[i + 1]);
            } else {
                assert(names_of(stack@)[i] == names_of(old(stack)@).last());
                assert(names_of(stack@)[i + 1] == name@);
            }
        }
        assert forall|x: Seq<u8>| #[trigger] visited@.contains(x) <==> d.contains(x) || names_of(
            stack@,
        ).contains(x) by {
            lemma_contains_push(names_of(old(stack)@), x, name@);
        }
        assert(d.subrange(0, done@.len() as int) =~= done@);
    }
    let ghost stack_snap = stack@;
    let n = refs.count();
    let mut i: usize = 0;
    while i < n
        invariant
            0 <= i <= n,
            map.wf(),
            map@.contains_key(name@),
            map@[name@].references is Some,
            refs@ == map@[name@].references->Some_0,
            n == refs.items_seq().len(),
            stack@ == stack_snap,
            stack@.len() > 0,
            names_of(stack@).last() == name@,
            names_of(stack@) == names_of(old(stack)@).push(name@),
            spec_is_path(map@, names_of(stack@)),
            visited@.contains(name@),
            old(visited)@.insert(name@).subset_of(visited@),
            old(to_remove)@.subset_of(to_remove@),
            forall|k: Seq<u8>| to_remove@.contains(k) ==> spec_on_cycle(map@, k),
            !old(visited)@.contains(name@),
            done@.len() <= d.len(),
            d.subrange(0, done@.len() as int) == done@,
            spec_done_edges(map@, d, to_remove@),
            spec_coloring(visited@, d, names_of(stack@)),
            forall|idx: int|
                0 <= idx < i && map@.contains_key(#[trigger] refs.items_seq()[idx])
                    ==> to_remove@.contains(refs.items_seq()[idx]) || d.contains(
                    refs.items_seq()[idx],
                ),
        decreases n - i,
    {
        let next = refs.at(i);
        proof {
            refs.lemma_items();
            assert(spec_edge(map@, name@, next@));
        }
        match find_in_stack(stack, next) {
            Some(pos) => {
                // Everything from `pos` on sits on a cycle through `next`.
                let mut j: usize = pos;
                while j < stack.len()
                    invariant
                        pos <= j <= stack.len(),
                        pos < stack.len(),
                        stack@ == stack_snap,
                        names_of(stack@)[pos as int] == next@,
                        spec_is_path(map@, names_of(stack@)),
                        names_of(stack@).last() == name@,
                        spec_edge(map@, name@, next@),
                        old(to_remove)@.subset_of(to_remove@),
                        forall|k: Seq<u8>| to_remove@.contains(k) ==> spec_on_cycle(map@, k),
                        spec_done_edges(map@, d, to_remove@),
                        j > pos ==> to_remove@.contains(next@),
                        forall|idx: int|
                            0 <= idx < i && map@.contains_key(#[trigger] refs.items_seq()[idx])
                                ==> to_remove@.contains(refs.items_seq()[idx]) || d.contains(
                                refs.items_seq()[idx],
                            ),
                    decreases stack.len() - j,
                {
                    proof {
                        assert(spec_edge(map@, names_of(stack@).last(), names_of(
                            stack@,
                        )[pos as int]));
                        lemma_suffix_on_cycle(map@, names_of(stack@), pos as int, j as int);
                        assert(names_of(stack@)[j as int] == stack@[j as int]@);
                    }
                    let ghost before = to_remove@;
                    to_remove.insert(&stack[j]);
                    proof {
                        assert forall|k: Seq<u8>| to_remove@.contains(k) implies spec_on_cycle(
                            map@,
                            k,
                        ) by {
                            if !before.contains(k) {
                                assert(k == stack@[j as int]@);
                            }
                        }
                        if j == pos {
                            assert(to_remove@.contains(next@));
                        }
                    }
                    j = j + 1;
                }
            },
            None => {
                let in_map = map.contains_key(next);
                let seen = if in_map {
                    visited.contains(next)
                } else {
                    false
                };
                if in_map && !seen {
                    proof {
                        broadcast use vstd::set::axiom_set_remove_len;
                        broadcast use vstd::set::axiom_set_remove_finite;

                        map.lemma_entries();
                        vstd::set_lib::lemma_len_subset(
                            map@.dom().difference(old(visited)@),
                            map@.dom(),
                        );
                        assert(map@.dom().difference(visited@).subset_of(
                            map@.dom().difference(old(visited)@).remove(name@),
                        ));
                        vstd::set_lib::lemma_len_subset(
                            map@.dom().difference(visited@),
                            map@.dom().difference(old(visited)@).remove(name@),
                        );
                        assert(map@.dom().difference(old(visited)@).contains(name@));
                        assert(map@.dom().difference(old(visited)@).remove(name@).len() == map@
                            .dom().difference(old(visited)@).len() - 1);
                    }
                    let ghost d_before = d;
                    let gd = walk(map, next, stack, visited, to_remove, Ghost(d));
                    proof {
                        d = gd@;
                        assert forall|idx: int| 0 <= idx < d_before.len() implies d[idx]
                            == d_before[idx] by {
                            assert(d.subrange(0, d_before.len() as int)[idx] == d[idx]);
                        }
                        assert(d.subrange(0, done@.len() as int) =~= done@);
                    }
                } else {
                    proof {
                        if in_map {
                            assert(visited@.contains(next@));
                            assert(!names_of(stack@).contains(next@)) by {
                                if names_of(stack@).contains(next@) {
                                    let jj = choose|jj: int|
                                        0 <= jj < names_of(stack@).len() && names_of(
                                            stack@,
                                        )[jj] == next@;
                                }
                            }
                            assert(d.contains(next@));
                        }
                    }
                }
            },
        }
        i = i + 1;
    }
    stack.pop();
    let ghost d_body = d;
    proof {
        assert(stack@ =~= old(stack)@);
        refs.lemma_items();
        d = d.push(name@);
        assert(d.subrange(0, done@.len() as int) =~= done@);
        assert(d[d_body.len() as int] == name@);
        assert forall|ii: int, w: Seq<u8>|
            0 <= ii < d.len() && spec_edge(map@, d[ii], w) && map@.contains_key(w)
            implies to_remove@.contains(w) || exists|j: int| 0 <= j < ii && d[j] == w by {
            if ii < d_body.len() {
                assert(d[ii] == d_body[ii]);
                assert(spec_edge(map@, d_body[ii], w));
                if !to_remove@.contains(w) {
                    let j = choose|j: int| 0 <= j < ii && d_body[j] == w;
                    assert(d[j] == w);
                }
            } else {
                assert(d[ii] == name@);
                assert(refs@.contains(w));
                let idx = choose|idx: int|
                    0 <= idx < refs.items_seq().len() && refs.items_seq()[idx] == w;
                if !to_remove@.contains(w) {
                    assert(d_body.contains(w));
                    let j = choose|j: int| 0 <= j < d_body.len() && d_body[j] == w;
                    assert(d[j] == w);
                }
            }
        }
        assert forall|x: Seq<u8>| #[trigger] visited@.contains(x) <==> d.contains(x) || names_of(
            old(stack)@,
        ).contains(x) by {
            lemma_contains_push(names_of(old(stack)@), x, name@);
            lemma_contains_push(d_body, x, name@);
        }
        assert(d.contains(name@)) by {
            lemma_contains_push(d_body, name@, name@);
        }
    }
    Ghost(d)
}

/// Remove every variable that participates in a reference cycle.
///
/// Remaining entries are untouched; every removed name lies on a cycle of
/// the original reference graph (no innocent variable is dropped); and no
/// surviving name lies on a cycle of the surviving reference graph.
pub fn remove_cycles(map: &mut SpecifiedMap)
    requires
        old(map).wf(),
    ensures
        final(map).wf(),
        forall|k: Seq<u8>|
            #[trigger] final(map)@.contains_key(k) ==> old(map)@.contains_key(k) && final(map)@[k]
                == old(map)@[k],
        forall|k: Seq<u8>|
            #[trigger] old(map)@.contains_key(k) && !final(map)@.contains_key(k) ==> spec_on_cycle(
                old(map)@,
                k,
            ),
        forall|k: Seq<u8>|
            #[trigger] final(map)@.contains_key(k) ==> !spec_on_cycle(final(map)@, k),
{
    let mut to_remove = NameSet::new();
    let mut visited = NameSet::new();
    let mut stack: Vec<Vec<u8>> = Vec::new();
    let ghost mut d: Seq<Seq<u8>> = Seq::empty();
    let n = map.count();
    let mut i: usize = 0;
    proof {
        assert(names_of(stack@) =~= Seq::<Seq<u8>>::empty());
    }
    while i < n
        invariant
            0 <= i <= n,
            map.wf(),
            *map == *old(map),
            n == map.entries_seq().len(),
            stack@.len() == 0,
            forall|k: Seq<u8>| to_remove@.contains(k) ==> spec_on_cycle(map@, k),
            spec_done_edges(map@, d, to_remove@),
            spec_coloring(visited@, d, names_of(stack@)),
            forall|idx: int|
                0 <= idx < i ==> d.contains(#[trigger] map.entries_seq()[idx].0),
        decreases n - i,
    {
        let ghost d_before = d;
        let key = crate::bytes::copy_bytes(map.key_at(i));
        if !visited.contains(&key) {
            let gd = walk(map, &key, &mut stack, &mut visited, &mut to_remove, Ghost(d));
            proof {
                d = gd@;
                assert forall|idx: int| 0 <= idx < i implies d.contains(
                    #[trigger] map.entries_seq()[idx].0,
                ) by {
                    lemma_prefix_contains(d_before, d, map.entries_seq()[idx].0);
                }
                assert(names_of(stack@) =~= Seq::<Seq<u8>>::empty());
            }
        } else {
            proof {
                assert(!names_of(stack@).contains(key@)) by {
                    if names_of(stack@).contains(key@) {
                        let jj = choose|jj: int|
                            0 <= jj < names_of(stack@).len() && names_of(stack@)[jj] == key@;
                    }
                }
                assert(d.contains(key@));
            }
        }
        i = i + 1;
    }
    proof {
        map.lemma_entries();
        assert forall|k: Seq<u8>| #[trigger] map@.contains_key(k) implies d.contains(k) by {
            let idx = choose|idx: int|
                0 <= idx < map.entries_seq().len() && map.entries_seq()[idx].0 == k;
        }
    }
    let ghost m0 = map@;
    let m = to_remove.count();
    let mut j: usize = 0;
    while j < m
        invariant
            0 <= j <= m,
            map.wf(),
            m == to_remove.items_seq().len(),
            m0 == old(map)@,
            forall|k: Seq<u8>| to_remove@.contains(k) ==> spec_on_cycle(m0, k),
            forall|k: Seq<u8>|
                #[trigger] map@.contains_key(k) ==> m0.contains_key(k) && map@[k] == m0[k],
            forall|k: Seq<u8>|
                m0.contains_key(k) && !map@.contains_key(k) ==> to_remove@.contains(k),
            forall|idx: int|
                0 <= idx < j ==> !map@.contains_key(#[trigger] to_remove.items_seq()[idx]),
            spec_done_edges(m0, d, to_remove@),
            forall|k: Seq<u8>| #[trigger] m0.contains_key(k) ==> d.contains(k),
        decreases m - j,
    {
        let victim = crate::bytes::copy_bytes(to_remove.at(j));
        proof {
            to_remove.lemma_items();
        }
        let ghost mb = map@;
        map.remove(&victim);
        proof {
            broadcast use vstd::map::group_map_axioms;

            assert(map@ == mb.remove(victim@));
            assert forall|k: Seq<u8>| #[trigger] map@.contains_key(k) implies m0.contains_key(k)
                && map@[k] == m0[k] by {
                assert(k != victim@);
                assert(mb.contains_key(k) && map@[k] == mb[k]);
            }
            assert(to_remove@.contains(victim@));
        }
        j = j + 1;
    }
    proof {
        to_remove.lemma_items();
        assert forall|k: Seq<u8>| #[trigger] to_remove@.contains(k) implies !map@.contains_key(
            k,
        ) by {
            let idx = choose|idx: int|
                0 <= idx < to_remove.items_seq().len() && to_remove.items_seq()[idx] == k;
        }
        assert forall|k: Seq<u8>| #[trigger] map@.contains_key(k) implies !spec_on_cycle(
            map@,
            k,
        ) by {
            if spec_on_cycle(map@, k) {
                let p = choose|p: Seq<Seq<u8>>|
                    spec_is_path(map@, p) && p.len() >= 2 && p.first() == k && p.last() == k;
                assert forall|ii: int| 0 <= ii < p.len() implies map@.contains_key(
                    #[trigger] p[ii],
                ) by {
                    if ii < p.len() - 1 {
                        assert(spec_edge(map@, p[ii], p[ii + 1]));
                    } else {
                        assert(p[ii] == p.last());
                    }
                }
                assert forall|ii: int| 0 <= ii < p.len() - 1 implies spec_edge(
                    m0,
                    #[trigger] p[ii],
                    p[ii + 1],
                ) by {
                    assert(map@[p[ii]] == m0[p[ii]]);
                }
                assert forall|ii: int| 0 <= ii < p.len() implies d.contains(#[trigger] p[ii])
                    && !to_remove@.contains(p[ii]) && m0.contains_key(p[ii]) by {
                    assert(map@.contains_key(p[ii]));
                }
                lemma_cycle_has_victim(m0, d, to_remove@, p);
            }
        }
    }
}

} // verus!
