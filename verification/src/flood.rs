//! The reveal: a breadth-first flood fill over the spreading tiles.

use std::collections::VecDeque;
use vstd::prelude::*;
use crate::field::adjacency_view;
use crate::field::Minefield;
use crate::model::MinefieldView;
use crate::reach::lemma_reaches_start;
use crate::reach::lemma_reaches_step;
use crate::reach::lemma_reveal_wf;
use crate::reach::lemma_same_reach;
use crate::reach::lemma_settled_reach;
use crate::reach::same_mines;
use crate::tile::MinefieldTile;

verus! {

/// The number of covered tiles.
spec fn covered(tiles: Seq<MinefieldTile>) -> nat
    decreases tiles.len(),
{
    if tiles.len() == 0 {
        0
    } else if tiles.last().hidden {
        covered(tiles.drop_last()) + 1
    } else {
        covered(tiles.drop_last())
    }
}

/// Uncovering one covered tile lowers the number of covered tiles by one.
proof fn lemma_uncover(tiles: Seq<MinefieldTile>, index: int, tile: MinefieldTile)
    requires
        0 <= index < tiles.len(),
        tiles[index].hidden,
        !tile.hidden,
    ensures
        covered(tiles.update(index, tile)) + 1 == covered(tiles),
    decreases tiles.len(),
{
    let updated = tiles.update(index, tile);
    if index == tiles.len() - 1 {
        assert(updated.drop_last() =~= tiles.drop_last());
    } else {
        assert(updated.drop_last() =~= tiles.drop_last().update(index, tile));
        lemma_uncover(tiles.drop_last(), index, tile);
    }
}

/// Tile `index` waits in the queue.
spec fn queued(queue: Seq<usize>, index: int) -> bool {
    exists|q: int| 0 <= q < queue.len() && #[trigger] queue[q] == index
}

/// The tiles differ from those before the reveal only in that some of the
/// covered ones have been uncovered.
spec fn uncovers_only(before: Seq<MinefieldTile>, tiles: Seq<MinefieldTile>) -> bool {
    &&& tiles.len() == before.len()
    &&& forall|i: int|
        0 <= i < tiles.len() ==> #[trigger] tiles[i] == before[i] || (before[i].hidden && tiles[i]
            == before[i].uncovered())
}

/// The state of the reveal's frontier: each neighbour of a spreading tile
/// that this reveal has uncovered is uncovered itself or waits in the
/// queue. Of tile `current`, whose neighbours are being queued, this holds
/// of the first `done` neighbours only.
spec fn frontier(
    before: MinefieldView,
    tiles: Seq<MinefieldTile>,
    queue: Seq<usize>,
    current: int,
    done: int,
) -> bool {
    forall|a: int, k: int|
        #![trigger before.adjacency[a][k]]
        before.has(a) && before.tiles[a].hidden && !tiles[a].hidden && before.spreads(a) && 0 <= k
            < before.adjacency[a].len() && (a != current || k < done) && before.map.contains(
            before.adjacency[a][k],
        ) ==> !tiles[before.map.index_of(before.adjacency[a][k])].hidden || queued(
            queue,
            before.map.index_of(before.adjacency[a][k]),
        )
}

/// The frontier after the first tile of the queue has been taken off and,
/// where it was covered, uncovered.
proof fn lemma_frontier_pop(
    before: MinefieldView,
    tiles: Seq<MinefieldTile>,
    after: Seq<MinefieldTile>,
    queue: Seq<usize>,
    current: int,
)
    requires
        before.wf(),
        frontier(before, tiles, queue, -1, 0),
        queue.len() > 0,
        after.len() == tiles.len(),
        tiles.len() == before.tiles.len(),
        !after[queue[0] as int].hidden,
        forall|i: int| 0 <= i < tiles.len() && !tiles[i].hidden ==> !after[i].hidden,
        forall|i: int|
            0 <= i < tiles.len() && i != current && !after[i].hidden ==> !tiles[i].hidden,
    ensures
        frontier(before, after, queue.subrange(1, queue.len() as int), current, 0),
{
    let rest = queue.subrange(1, queue.len() as int);
    assert forall|a: int, k: int|
        #![trigger before.adjacency[a][k]]
        before.has(a) && before.tiles[a].hidden && !after[a].hidden && before.spreads(a) && 0 <= k
            < before.adjacency[a].len() && (a != current || k < 0) && before.map.contains(
            before.adjacency[a][k],
        ) implies !after[before.map.index_of(before.adjacency[a][k])].hidden || queued(
        rest,
        before.map.index_of(before.adjacency[a][k]),
    ) by {
        let to = before.map.index_of(before.adjacency[a][k]);
        before.map.lemma_index_of(before.adjacency[a][k]);
        assert(!tiles[a].hidden);
        if tiles[to].hidden {
            assert(queued(queue, to));
            let q = choose|q: int| 0 <= q < queue.len() && #[trigger] queue[q] == to;
            if q > 0 {
                assert(rest[q - 1] == to);
            }
        }
    }
}

/// The frontier after one more neighbour of tile `current` has been
/// looked at and, where the grid has it, queued.
proof fn lemma_frontier_push(
    before: MinefieldView,
    tiles: Seq<MinefieldTile>,
    queue: Seq<usize>,
    longer: Seq<usize>,
    current: int,
    done: int,
)
    requires
        frontier(before, tiles, queue, current, done),
        0 <= done < before.adjacency[current].len(),
        before.map.contains(before.adjacency[current][done]) ==> longer == queue.push(
            before.map.index_of(before.adjacency[current][done]) as usize,
        ) && before.map.index_of(before.adjacency[current][done]) <= usize::MAX,
        !before.map.contains(before.adjacency[current][done]) ==> longer == queue,
    ensures
        frontier(before, tiles, longer, current, done + 1),
{
    assert forall|a: int, k: int|
        #![trigger before.adjacency[a][k]]
        before.has(a) && before.tiles[a].hidden && !tiles[a].hidden && before.spreads(a) && 0 <= k
            < before.adjacency[a].len() && (a != current || k < done + 1) && before.map.contains(
            before.adjacency[a][k],
        ) implies !tiles[before.map.index_of(before.adjacency[a][k])].hidden || queued(
        longer,
        before.map.index_of(before.adjacency[a][k]),
    ) by {
        let to = before.map.index_of(before.adjacency[a][k]);
        if a == current && k == done {
            assert(longer[longer.len() - 1] == to);
        } else if tiles[to].hidden {
            assert(queued(queue, to));
            let q = choose|q: int| 0 <= q < queue.len() && #[trigger] queue[q] == to;
            assert(longer[q] == to);
        }
    }
}

/// Once the queue is empty, the field is the one that the model of the
/// reveal describes.
proof fn lemma_flood_done(before: MinefieldView, after: MinefieldView, start: int)
    requires
        before.wf(),
        before.has(start),
        after.map == before.map,
        after.adjacency == before.adjacency,
        uncovers_only(before.tiles, after.tiles),
        forall|i: int|
            before.has(i) && after.tiles[i] != before.tiles[i] ==> before.reaches(start, i),
        frontier(before, after.tiles, Seq::<usize>::empty(), -1, 0),
        !after.tiles[start].hidden,
    ensures
        after == before.reveal_from(start),
        after.wf(),
{
    assert(same_mines(before, after));
    assert forall|i: int, k: int|
        #![trigger after.adjacency[i][k]]
        after.has(i) && !after.tiles[i].hidden && after.spreads(i) && 0 <= k
            < after.adjacency[i].len() && after.map.contains(
            after.adjacency[i][k],
        ) implies !after.tiles[after.map.index_of(after.adjacency[i][k])].hidden by {
        let to = before.map.index_of(before.adjacency[i][k]);
        before.map.lemma_index_of(before.adjacency[i][k]);
        assert(before.spreads(i));
        if before.tiles[i].hidden {
            assert(!queued(Seq::<usize>::empty(), to));
        } else {
            assert(!before.tiles[to].hidden);
        }
    }
    assert(after.settled());
    assert forall|i: int| 0 <= i < after.tiles.len() implies after.tiles[i]
        == before.reveal_from(start).tiles[i] by {
        assert(after.tiles[i] == before.tiles[i] || (before.tiles[i].hidden && after.tiles[i]
            == before.tiles[i].uncovered()));
        if before.tiles[i].hidden && before.reaches(start, i) {
            lemma_same_reach(before, after, start, i);
            lemma_settled_reach(after, start, i);
        } else if after.tiles[i] != before.tiles[i] {
            assert(before.has(i));
            assert(before.reaches(start, i));
        }
    }
    assert(after.tiles =~= before.reveal_from(start).tiles);
    lemma_reveal_wf(before, start);
}

/// The list of uncovered coordinates after the tile at `index` has been
/// uncovered and its coordinate added.
proof fn lemma_revealed_push(
    before: MinefieldView,
    tiles: Seq<MinefieldTile>,
    revealed: Seq<(u32, u32)>,
    index: int,
)
    requires
        before.wf(),
        before.has(index),
        tiles.len() == before.tiles.len(),
        tiles[index].hidden,
        before.tiles[index].hidden,
        revealed.no_duplicates(),
        forall|c: (u32, u32)|
            revealed.contains(c) <==> before.map.contains(c) && before.tiles[before.map.index_of(
                c,
            )].hidden && !tiles[before.map.index_of(c)].hidden,
    ensures
        revealed.push(before.map.coord_of(index)).no_duplicates(),
        forall|c: (u32, u32)|
            revealed.push(before.map.coord_of(index)).contains(c) <==> before.map.contains(c)
                && before.tiles[before.map.index_of(c)].hidden && !tiles.update(
                index,
                tiles[index].uncovered(),
            )[before.map.index_of(c)].hidden,
{
    let coord = before.map.coord_of(index);
    let longer = revealed.push(coord);
    let after = tiles.update(index, tiles[index].uncovered());
    before.map.lemma_coord_of(index);
    assert(!revealed.contains(coord));
    assert forall|c: (u32, u32)| longer.contains(c) <==> before.map.contains(c)
        && before.tiles[before.map.index_of(c)].hidden && !after[before.map.index_of(
        c,
    )].hidden by {
        if before.map.contains(c) {
            before.map.lemma_index_of(c);
        }
        if longer.contains(c) {
            let q = choose|q: int| 0 <= q < longer.len() && longer[q] == c;
            if q < revealed.len() {
                assert(revealed[q] == c);
                assert(revealed.contains(c));
            }
        }
        if before.map.contains(c) && before.tiles[before.map.index_of(c)].hidden && !after[before.map.index_of(
            c,
        )].hidden {
            if before.map.index_of(c) == index {
                assert(longer[longer.len() - 1] == c);
            } else {
                assert(revealed.contains(c));
                let q = choose|q: int| 0 <= q < revealed.len() && revealed[q] == c;
                assert(longer[q] == c);
            }
        }
    }
}

impl Minefield {
    /// Uncovers the tile at `start` and, where it spreads, every tile that
    /// the reveal reaches from it. A tile that is uncovered already, or a
    /// coordinate outside the grid, starts nothing.
    ///
    /// Returns the coordinates of the tiles that it uncovered, each once,
    /// the tile at `start` first.
    pub fn reveal_tile_floodfill(&mut self, start: (u32, u32)) -> (revealed: Vec<(u32, u32)>)
        requires
            old(self).wf(),
        ensures
            final(self).wf(),
            final(self)@ == (if old(self)@.map.contains(start) {
                old(self)@.reveal_from(old(self)@.map.index_of(start))
            } else {
                old(self)@
            }),
            revealed@.no_duplicates(),
            forall|c: (u32, u32)|
                revealed@.contains(c) <==> old(self)@.differs_at(final(self)@, c),
            revealed@.len() > 0 ==> revealed@[0] == start,
    {
        let ghost before = self@;
        proof {
            self.lemma_view();
        }
        let mut revealed: Vec<(u32, u32)> = Vec::new();
        let start_index = match self.locate(start) {
            Ok(index) => index,
            Err(_) => {
                return revealed;
            },
        };
        let mut queue: VecDeque<usize> = VecDeque::new();
        queue.push_back(start_index);
        proof {
            lemma_reaches_start(before, start_index as int);
            assert(queue@[0] == start_index);
            assert(queue@ =~= seq![start_index]);
        }
        while queue.len() > 0
            invariant
                before.wf(),
                before.has(start_index as int),
                before.map.index_of(start) == start_index,
                before.map.contains(start),
                self.tile_map == before.map,
                adjacency_view(self.adjacency@) == before.adjacency,
                uncovers_only(before.tiles, self.tiles@),
                forall|i: int|
                    before.has(i) && self.tiles@[i] != before.tiles[i] ==> before.reaches(
                        start_index as int,
                        i,
                    ),
                forall|q: int|
                    0 <= q < queue@.len() ==> before.has(#[trigger] queue@[q] as int)
                        && before.reaches(start_index as int, queue@[q] as int),
                frontier(before, self.tiles@, queue@, -1, 0),
                !self.tiles@[start_index as int].hidden || queued(queue@, start_index as int),
                revealed@.no_duplicates(),
                forall|c: (u32, u32)|
                    revealed@.contains(c) <==> before.map.contains(c)
                        && before.tiles[before.map.index_of(c)].hidden
                        && !self.tiles@[before.map.index_of(c)].hidden,
                revealed@.len() > 0 ==> revealed@[0] == start,
                revealed@.len() == 0 ==> queue@.len() == 0 || queue@ == seq![start_index],
            decreases covered(self.tiles@), queue@.len(),
        {
            let ghost tiles_before = self.tiles@;
            let ghost queue_before = queue@;
            let ghost revealed_before = revealed@;
            let index = queue.pop_front().unwrap();
            let mut tile = self.tiles[index];
            if tile.hidden {
                tile.unhide();
                self.tiles[index] = tile;
                let coord = self.tile_map.coord(index);
                revealed.push(coord);
                proof {
                    lemma_uncover(tiles_before, index as int, tile);
                    lemma_revealed_push(before, tiles_before, revealed_before, index as int);
                    lemma_frontier_pop(
                        before,
                        tiles_before,
                        self.tiles@,
                        queue_before,
                        index as int,
                    );
                    if revealed@.len() == 1 {
                        assert(index == start_index);
                        before.map.lemma_index_of(start);
                    }
                }
                let spreads = match tile.number_of_neighbor_mines {
                    Some(n) => !tile.contains_mine && n == 0,
                    None => false,
                };
                if spreads {
                    let mut k: usize = 0;
                    while k < self.adjacency[index].len()
                        invariant
                            before.wf(),
                            before.has(index as int),
                            before.has(start_index as int),
                            before.spreads(index as int),
                            before.reaches(start_index as int, index as int),
                            self.tile_map == before.map,
                            adjacency_view(self.adjacency@) == before.adjacency,
                            index < self.adjacency@.len(),
                            k <= self.adjacency@[index as int]@.len(),
                            forall|q: int|
                                0 <= q < queue@.len() ==> before.has(#[trigger] queue@[q] as int)
                                    && before.reaches(start_index as int, queue@[q] as int),
                            frontier(before, self.tiles@, queue@, index as int, k as int),
                            revealed@.len() > 0,
                        decreases self.adjacency@[index as int]@.len() - k,
                    {
                        let ghost shorter = queue@;
                        let neighbor = self.adjacency[index][k];
                        assert(before.adjacency[index as int] == self.adjacency@[index as int]@);
                        assert(before.adjacency[index as int][k as int] == neighbor);
                        match self.tile_map.get(neighbor) {
                            Some(next) => {
                                queue.push_back(next);
                                proof {
                                    assert(before.adjacent(index as int, next as int));
                                    lemma_reaches_step(
                                        before,
                                        start_index as int,
                                        index as int,
                                        next as int,
                                    );
                                }
                            },
                            None => {},
                        }
                        proof {
                            lemma_frontier_push(
                                before,
                                self.tiles@,
                                shorter,
                                queue@,
                                index as int,
                                k as int,
                            );
                        }
                        k += 1;
                    }
                }
            } else {
                proof {
                    lemma_frontier_pop(before, tiles_before, self.tiles@, queue_before, -1);
                }
            }
        }
        proof {
            self.lemma_view();
            assert(queue@ =~= Seq::<usize>::empty());
            lemma_flood_done(before, self@, start_index as int);
            assert forall|c: (u32, u32)| revealed@.contains(c) <==> before.differs_at(
                self@,
                c,
            ) by {
                if before.map.contains(c) {
                    before.map.lemma_index_of(c);
                    let i = before.map.index_of(c);
                    assert(self.tiles@[i] == before.tiles[i] || (before.tiles[i].hidden
                        && self.tiles@[i] == before.tiles[i].uncovered()));
                }
            }
        }
        revealed
    }
}

} // verus!
