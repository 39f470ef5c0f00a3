use vstd::prelude::*;

verus! {

/// `j` is the first zombie in reach in a projectile's row of the hit table.
pub open spec fn is_first_hit(row: Seq<bool>, j: int) -> bool {
    &&& 0 <= j < row.len()
    &&& row[j]
    &&& forall|k: int| 0 <= k < j ==> !row[k]
}

/// Some zombie is in reach in a projectile's row of the hit table.
pub open spec fn has_hit(row: Seq<bool>) -> bool {
    exists|j: int| 0 <= j < row.len() && row[j]
}

/// Each index in `s` is smaller than the next: the indices are sorted and none repeats.
pub open spec fn strictly_increasing(s: Seq<usize>) -> bool {
    forall|a: int, b: int| 0 <= a < b < s.len() ==> s[a] < s[b]
}

/// The first zombie in reach in a projectile's row of the hit table, if any.
fn first_hit(row: &Vec<bool>) -> (hit: Option<usize>)
    ensures
        hit matches Some(j) ==> is_first_hit(row@, j as int),
        hit is None ==> !has_hit(row@),
{
    let mut j: usize = 0;
    while j < row.len()
        invariant
            j <= row@.len(),
            forall|k: int| 0 <= k < j ==> !row@[k],
        decreases row@.len() - j,
    {
        if row[j] {
            return Some(j);
        }
        j += 1;
    }
    None
}

/// Resolves projectile hits for one frame. `hits[i][j]` says whether projectile `i` is
/// within reach of zombie `j`. Each projectile that reaches a zombie is spent, and the
/// first zombie in its reach dies. Returns the spent projectiles and the dead zombies,
/// each in increasing order without repeats.
pub fn resolve_projectile_hits(hits: &Vec<Vec<bool>>, zombie_count: usize) -> (outcome: (Vec<usize>, Vec<usize>))
    requires
        forall|i: int| 0 <= i < hits@.len() ==> (#[trigger] hits@[i])@.len() == zombie_count,
    ensures
        strictly_increasing(outcome.0@),
        forall|k: int| 0 <= k < outcome.0@.len() ==> outcome.0@[k] < hits@.len(),
        forall|i: int| 0 <= i < hits@.len() ==> (outcome.0@.contains(i as usize) <==> has_hit(#[trigger] hits@[i]@)),
        strictly_increasing(outcome.1@),
        forall|k: int| 0 <= k < outcome.1@.len() ==> outcome.1@[k] < zombie_count,
        forall|j: int| 0 <= j < zombie_count ==> (#[trigger] outcome.1@.contains(j as usize) <==> exists|i: int|
            0 <= i < hits@.len() && #[trigger] is_first_hit(hits@[i]@, j)),
{
    let mut dead_mark: Vec<bool> = Vec::new();
    let mut z: usize = 0;
    while z < zombie_count
        invariant
            z <= zombie_count,
            dead_mark@.len() == z,
            forall|k: int| 0 <= k < z ==> !dead_mark@[k],
        decreases zombie_count - z,
    {
        dead_mark.push(false);
        z += 1;
    }

    let mut spent: Vec<usize> = Vec::new();
    let mut i: usize = 0;
    while i < hits.len()
        invariant
            i <= hits@.len(),
            forall|p: int| 0 <= p < hits@.len() ==> (#[trigger] hits@[p])@.len() == zombie_count,
            dead_mark@.len() == zombie_count,
            strictly_increasing(spent@),
            forall|k: int| 0 <= k < spent@.len() ==> spent@[k] < i,
            forall|p: int| 0 <= p < i ==> (spent@.contains(p as usize) <==> has_hit(#[trigger] hits@[p]@)),
            forall|j: int| 0 <= j < zombie_count ==> (dead_mark@[j] <==> exists|p: int|
                0 <= p < i && #[trigger] is_first_hit(hits@[p]@, j)),
        decreases hits@.len() - i,
    {
        let ghost old_spent = spent@;
        let ghost old_mark = dead_mark@;
        match first_hit(&hits[i]) {
            Some(j) => {
                spent.push(i);
                dead_mark.set(j, true);
                proof {
                    assert(spent@[spent@.len() - 1] == i);
                    assert forall|p: int| 0 <= p < i + 1 implies (spent@.contains(p as usize) <==> has_hit(#[trigger] hits@[p]@)) by {
                        if p < i {
                            if old_spent.contains(p as usize) {
                                let k = choose|k: int| 0 <= k < old_spent.len() && old_spent[k] == p as usize;
                                assert(spent@[k] == p as usize);
                            }
                            if spent@.contains(p as usize) {
                                let k = choose|k: int| 0 <= k < spent@.len() && spent@[k] == p as usize;
                                assert(k < old_spent.len());
                                assert(old_spent[k] == p as usize);
                            }
                        } else {
                            assert(hits@[p]@[j as int]);
                        }
                    }
                    assert forall|jj: int| 0 <= jj < zombie_count implies (dead_mark@[jj] <==> exists|p: int|
                        0 <= p < i + 1 && #[trigger] is_first_hit(hits@[p]@, jj)) by {
                        if jj == j as int {
                            assert(is_first_hit(hits@[i as int]@, jj));
                        } else {
                            if exists|p: int| 0 <= p < i + 1 && #[trigger] is_first_hit(hits@[p]@, jj) {
                                let p = choose|p: int| 0 <= p < i + 1 && #[trigger] is_first_hit(hits@[p]@, jj);
                                if p == i as int {
                                    assert(is_first_hit(hits@[i as int]@, j as int));
                                    if jj < j as int {
                                        assert(!hits@[i as int]@[jj]);
                                    } else {
                                        assert(!hits@[i as int]@[j as int]);
                                    }
                                }
                                assert(old_mark[jj]);
                            }
                            if old_mark[jj] {
                                let p = choose|p: int| 0 <= p < i && #[trigger] is_first_hit(hits@[p]@, jj);
                                assert(0 <= p < i + 1 && is_first_hit(hits@[p]@, jj));
                            }
                        }
                    }
                }
            },
            None => {
                proof {
                    assert forall|p: int| 0 <= p < i + 1 implies (spent@.contains(p as usize) <==> has_hit(#[trigger] hits@[p]@)) by {
                        if p == i as int {
                            if spent@.contains(p as usize) {
                                let k = choose|k: int| 0 <= k < spent@.len() && spent@[k] == p as usize;
                                assert(spent@[k] < i);
                            }
                        }
                    }
                    assert forall|jj: int| 0 <= jj < zombie_count implies (dead_mark@[jj] <==> exists|p: int|
                        0 <= p < i + 1 && #[trigger] is_first_hit(hits@[p]@, jj)) by {
                        if exists|p: int| 0 <= p < i + 1 && #[trigger] is_first_hit(hits@[p]@, jj) {
                            let p = choose|p: int| 0 <= p < i + 1 && #[trigger] is_first_hit(hits@[p]@, jj);
                            if p == i as int {
                                assert(hits@[i as int]@[jj]);
                            }
                        }
                        if old_mark[jj] {
                            let p = choose|p: int| 0 <= p < i && #[trigger] is_first_hit(hits@[p]@, jj);
                            assert(0 <= p < i + 1 && is_first_hit(hits@[p]@, jj));
                        }
                    }
                }
            },
        }
        i += 1;
    }

    let mut dead: Vec<usize> = Vec::new();
    let mut j: usize = 0;
    while j < zombie_count
        invariant
            j <= zombie_count,
            dead_mark@.len() == zombie_count,
            strictly_increasing(dead@),
            forall|k: int| 0 <= k < dead@.len() ==> dead@[k] < j,
            forall|x: int| 0 <= x < j ==> (dead@.contains(x as usize) <==> dead_mark@[x]),
            forall|x: int| 0 <= x < zombie_count ==> (dead_mark@[x] <==> exists|p: int|
                0 <= p < hits@.len() && #[trigger] is_first_hit(hits@[p]@, x)),
        decreases zombie_count - j,
    {
        let ghost old_dead = dead@;
        if dead_mark[j] {
            dead.push(j);
            proof {
                assert(dead@[dead@.len() - 1] == j);
                assert forall|x: int| 0 <= x < j + 1 implies (dead@.contains(x as usize) <==> dead_mark@[x]) by {
                    if x < j {
                        if old_dead.contains(x as usize) {
                            let k = choose|k: int| 0 <= k < old_dead.len() && old_dead[k] == x as usize;
                            assert(dead@[k] == x as usize);
                        }
                        if dead@.contains(x as usize) {
                            let k = choose|k: int| 0 <= k < dead@.len() && dead@[k] == x as usize;
                            assert(k < old_dead.len());
                            assert(old_dead[k] == x as usize);
                        }
                    }
                }
            }
        } else {
            proof {
                assert forall|x: int| 0 <= x < j + 1 implies (dead@.contains(x as usize) <==> dead_mark@[x]) by {
                    if x == j as int && dead@.contains(x as usize) {
                        let k = choose|k: int| 0 <= k < dead@.len() && dead@[k] == x as usize;
                        assert(dead@[k] < j);
                    }
                }
            }
        }
        j += 1;
    }
    proof {
        assert forall|x: int| 0 <= x < zombie_count implies (#[trigger] dead@.contains(x as usize) <==> exists|p: int|
            0 <= p < hits@.len() && #[trigger] is_first_hit(hits@[p]@, x)) by {
            assert(dead@.contains(x as usize) <==> dead_mark@[x]);
        }
    }
    (spent, dead)
}

} // verus!
