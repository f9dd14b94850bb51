//! Why growth keeps the plates in order: each step of it preserves what
//! holds of the areas, of the map and of the queue.

use crate::mesh::laws::lemma_connected;
use crate::mesh::laws::lemma_neighbors_in_grid;
use crate::mesh::laws::lemma_place_injective;
use crate::mesh::laws::spec_closed;
use crate::mesh::spec_adjacent;
use crate::mesh::Coord;
use crate::mesh::Mesh;
use crate::topography::plates::spec_assigned;
use crate::topography::plates::spec_frontier;
use crate::topography::plates::spec_joined;
use crate::topography::plates::spec_member;
use crate::topography::plates::spec_queued;
use crate::topography::plates::spec_settled;
use crate::topography::plates::spec_visited;
use crate::topography::plates::spec_waiting;
use crate::utils::queues::spec_without;
use vstd::prelude::*;

verus! {

/// Taking the hex at `pick` from the queue leaves every other hex waiting.
pub proof fn lemma_take(
    mesh: Mesh,
    owner: Map<u64, u64>,
    queue: Seq<(Coord, usize)>,
    pick: int,
)
    requires
        spec_waiting(mesh, owner, queue),
        spec_frontier(mesh, owner, queue, None),
        0 <= pick < queue.len(),
    ensures
        spec_waiting(mesh, owner, spec_without(queue, pick)),
        spec_frontier(mesh, owner, spec_without(queue, pick), Some(queue[pick].0)),
{
    let rest = spec_without(queue, pick);
    assert forall|t: int| 0 <= t < rest.len() implies {
        &&& mesh.spec_contains((#[trigger] rest[t]).0)
        &&& spec_visited(mesh, owner, rest[t].0)
        &&& owner[mesh.spec_place(rest[t].0)] == rest[t].1
    } by {
        if t == pick {
            assert(rest[t] == queue[queue.len() - 1]);
        } else {
            assert(rest[t] == queue[t]);
        }
    }
    assert forall|c: Coord|
        mesh.spec_contains(c) && #[trigger] spec_visited(mesh, owner, c) implies spec_queued(
            rest,
            c,
        )
        || spec_settled(mesh, owner, c, 6) || Some(queue[pick].0) == Some(c) by {
        if spec_queued(queue, c) && c != queue[pick].0 {
            let t = choose|t: int| 0 <= t < queue.len() && (#[trigger] queue[t]).0 == c;
            if t == queue.len() - 1 {
                assert(rest[pick] == queue[t]);
            } else {
                assert(rest[t] == queue[t]);
            }
        }
    }
}

/// A hex without a plate that is a neighbour of the hex `current` joins the
/// plate of `current` and waits: what holds of the areas, of the map and of
/// the queue holds afterwards too.
pub proof fn lemma_join(
    mesh: Mesh,
    seeds: Seq<Coord>,
    areas: Seq<Seq<Coord>>,
    owner: Map<u64, u64>,
    queue: Seq<(Coord, usize)>,
    current: Coord,
    plate: usize,
    n: Coord,
)
    requires
        mesh.wf(),
        spec_assigned(mesh, seeds, areas, owner),
        spec_waiting(mesh, owner, queue),
        spec_frontier(mesh, owner, queue, Some(current)),
        mesh.spec_contains(current),
        spec_visited(mesh, owner, current),
        owner[mesh.spec_place(current)] == plate,
        mesh.spec_contains(n),
        !spec_visited(mesh, owner, n),
        spec_adjacent(current, n, mesh.offset_mode, mesh.width as int, mesh.height as int),
    ensures
        0 <= plate < areas.len(),
        spec_assigned(
            mesh,
            seeds,
            areas.update(plate as int, areas[plate as int].push(n)),
            owner.insert(mesh.spec_place(n), plate as u64),
        ),
        spec_waiting(
            mesh,
            owner.insert(mesh.spec_place(n), plate as u64),
            queue.push((n, plate)),
        ),
        spec_frontier(
            mesh,
            owner.insert(mesh.spec_place(n), plate as u64),
            queue.push((n, plate)),
            Some(current),
        ),
        forall|upto: int|
            spec_settled(mesh, owner, current, upto) ==> #[trigger] spec_settled(
                mesh,
                owner.insert(mesh.spec_place(n), plate as u64),
                current,
                upto,
            ),
{
    let key = mesh.spec_place(n);
    let areas2 = areas.update(plate as int, areas[plate as int].push(n));
    let owner2 = owner.insert(key, plate as u64);
    let queue2 = queue.push((n, plate));
    assert(spec_member(areas, owner[mesh.spec_place(current)] as int, current));
    let at = choose|j: int|
        0 <= j < areas[plate as int].len() && #[trigger] areas[plate as int][j] == current;
    lemma_place_injective(mesh, n, n);
    // Hexes that had a plate keep it.
    assert forall|c: Coord|
        mesh.spec_contains(c) && spec_visited(mesh, owner, c) implies #[trigger] spec_visited(
        mesh,
        owner2,
        c,
    ) && owner2[mesh.spec_place(c)] == owner[mesh.spec_place(c)] by {
        lemma_place_injective(mesh, c, n);
    }
    assert forall|i: int, j: int| 0 <= i < areas2.len() && 0 <= j < areas2[i].len() implies {
        &&& mesh.spec_contains(#[trigger] areas2[i][j])
        &&& spec_visited(mesh, owner2, areas2[i][j])
        &&& owner2[mesh.spec_place(areas2[i][j])] == i
    } by {
        if i == plate && j == areas[i].len() {
            assert(areas2[i][j] == n);
        } else {
            assert(areas2[i][j] == areas[i][j]);
            assert(mesh.spec_contains(areas[i][j]));
            assert(spec_visited(mesh, owner, areas[i][j]));
        }
    }
    assert forall|i: int, j: int, k: int|
        0 <= i < areas2.len() && 0 <= j < k < areas2[i].len() implies #[trigger] areas2[i][j]
        != #[trigger] areas2[i][k] by {
        if i == plate && k == areas[i].len() {
            assert(areas2[i][j] == areas[i][j]);
            assert(spec_visited(mesh, owner, areas[i][j]));
        } else {
            assert(areas2[i][j] == areas[i][j]);
            assert(areas2[i][k] == areas[i][k]);
        }
    }
    assert forall|c: Coord|
        mesh.spec_contains(c) && #[trigger] spec_visited(mesh, owner2, c) implies spec_member(
        areas2,
        owner2[mesh.spec_place(c)] as int,
        c,
    ) by {
        lemma_place_injective(mesh, c, n);
        if c == n {
            assert(areas2[plate as int][areas[plate as int].len() as int] == n);
        } else {
            assert(spec_visited(mesh, owner, c));
            let i = owner[mesh.spec_place(c)] as int;
            assert(spec_member(areas, i, c));
            let j = choose|j: int| 0 <= j < areas[i].len() && #[trigger] areas[i][j] == c;
            assert(areas2[i][j] == c);
        }
    }
    assert forall|i: int| 0 <= i < areas2.len() implies (#[trigger] areas2[i]).len() >= 1
        && areas2[i][0] == seeds[i] by {
        assert(areas[i].len() >= 1 && areas[i][0] == seeds[i]);
    }
    assert forall|i: int, j: int|
        0 <= i < areas2.len() && 0 < j < areas2[i].len() implies spec_joined(
        mesh,
        areas2[i],
        #[trigger] areas2[i][j],
        j,
    ) by {
        if i == plate && j == areas[i].len() {
            assert(areas2[i][at] == current);
        } else {
            assert(areas2[i][j] == areas[i][j]);
            assert(spec_joined(mesh, areas[i], areas[i][j], j));
            let k = choose|k: int|
                0 <= k < j && k < areas[i].len() && spec_adjacent(
                    #[trigger] areas[i][k],
                    areas[i][j],
                    mesh.offset_mode,
                    mesh.width as int,
                    mesh.height as int,
                );
            assert(areas2[i][k] == areas[i][k]);
        }
    }
    assert forall|k: u64| #[trigger] owner2.dom().contains(k) implies k < mesh.spec_size() by {}
    assert forall|t: int| 0 <= t < queue2.len() implies {
        &&& mesh.spec_contains((#[trigger] queue2[t]).0)
        &&& spec_visited(mesh, owner2, queue2[t].0)
        &&& owner2[mesh.spec_place(queue2[t].0)] == queue2[t].1
    } by {
        if t < queue.len() {
            assert(queue2[t] == queue[t]);
            assert(spec_visited(mesh, owner, queue[t].0));
        }
    }
    assert forall|c: Coord, upto: int|
        spec_settled(mesh, owner, c, upto) implies #[trigger] spec_settled(
        mesh,
        owner2,
        c,
        upto,
    ) by {
        assert forall|j: int|
            0 <= j < upto && j < mesh.spec_hex(c).neighbors@.len() implies spec_visited(
            mesh,
            owner2,
            (#[trigger] mesh.spec_hex(c).neighbors@[j]).0,
        ) by {
            assert(spec_visited(mesh, owner, mesh.spec_hex(c).neighbors@[j].0));
        }
    }
    assert forall|c: Coord|
        mesh.spec_contains(c) && #[trigger] spec_visited(mesh, owner2, c) implies spec_queued(
        queue2,
        c,
    ) || spec_settled(mesh, owner2, c, 6) || Some(current) == Some(c) by {
        lemma_place_injective(mesh, c, n);
        if c == n {
            assert(queue2[queue.len() as int].0 == n);
        } else {
            assert(spec_visited(mesh, owner, c));
            if spec_queued(queue, c) {
                let t = choose|t: int| 0 <= t < queue.len() && (#[trigger] queue[t]).0 == c;
                assert(queue2[t] == queue[t]);
            }
        }
    }
}

/// When the queue is empty, every hex of the mesh has a plate.
pub proof fn lemma_all_visited(
    mesh: Mesh,
    seeds: Seq<Coord>,
    areas: Seq<Seq<Coord>>,
    owner: Map<u64,
    u64>,
)
    requires
        mesh.wf(),
        seeds.len() >= 1,
        spec_assigned(mesh, seeds, areas, owner),
        spec_frontier(mesh, owner, Seq::empty(), None),
    ensures
        forall|c: Coord| #[trigger] mesh.spec_contains(c) ==> spec_visited(mesh, owner, c),
{
    let visited = owner.dom();
    let start = areas[0][0];
    assert(mesh.spec_contains(start) && spec_visited(mesh, owner, start));
    assert forall|c: Coord, j: int|
        mesh.spec_contains(c) && visited.contains(mesh.spec_place(c)) && 0 <= j < mesh.spec_hex(
            c,
        ).neighbors@.len() implies visited.contains(
        mesh.spec_place((#[trigger] mesh.spec_hex(c).neighbors@[j]).0),
    ) by {
        assert(spec_visited(mesh, owner, c));
        assert(!spec_queued(Seq::<(Coord, usize)>::empty(), c));
        assert(spec_settled(mesh, owner, c, 6));
        lemma_neighbors_in_grid(c, mesh.offset_mode, mesh.width as int, mesh.height as int);
        assert(spec_visited(mesh, owner, mesh.spec_hex(c).neighbors@[j].0));
    }
    assert(spec_closed(mesh, visited));
    assert forall|c: Coord| #[trigger] mesh.spec_contains(c) implies spec_visited(
        mesh,
        owner,
        c,
    ) by {
        lemma_connected(mesh, visited, start, c);
    }
}

} // verus!
