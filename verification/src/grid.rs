//! A grid of cubic cells over space: entities are grouped by the cell they
//! lie in, and each cell's neighbourhood gathers the entities of the 27
//! cells around and including it.

use vstd::prelude::*;

verus! {

/// The integer coordinates of a cell.
pub type Coordinate = (i32, i32, i32);

/// The positions `i < n` at which `keys` holds `key`, in order.
pub open spec fn members(keys: Seq<Coordinate>, key: Coordinate, n: nat) -> Seq<usize>
    decreases n,
{
    if n == 0 {
        seq![]
    } else if keys[n - 1] == key {
        members(keys, key, (n - 1) as nat).push((n - 1) as usize)
    } else {
        members(keys, key, (n - 1) as nat)
    }
}

/// The offset along x of the `i`-th neighbour.
pub open spec fn offset_x(i: int) -> int {
    i % 3 - 1
}

/// The offset along y of the `i`-th neighbour.
pub open spec fn offset_y(i: int) -> int {
    (i / 3) % 3 - 1
}

/// The offset along z of the `i`-th neighbour: the cell's own layer first,
/// then the one below, then the one above.
pub open spec fn offset_z(i: int) -> int {
    if i / 9 == 0 {
        0
    } else if i / 9 == 1 {
        -1
    } else {
        1
    }
}

/// The `i`-th of the 27 cells around and including `c`: x varies fastest,
/// then y, then the layer.
pub open spec fn is_neighbour(c: Coordinate, i: int, n: Coordinate) -> bool {
    &&& n.0 == c.0 + offset_x(i)
    &&& n.1 == c.1 + offset_y(i)
    &&& n.2 == c.2 + offset_z(i)
}

/// The `i`-th of the 27 cells around and including `c`.
pub open spec fn neighbour_at(c: Coordinate, i: int) -> Coordinate {
    ((c.0 + offset_x(i)) as i32, (c.1 + offset_y(i)) as i32, (c.2 + offset_z(i)) as i32)
}

/// The 27 cells around and including `c`, in order.
pub open spec fn neighbours(c: Coordinate) -> Seq<Coordinate> {
    Seq::new(27, |i: int| neighbour_at(c, i))
}

/// The position among the neighbours of the cell offset by `(dx, dy, dz)`,
/// each offset in `-1..=1`: x varies fastest, then y, then the layer, the
/// layers in the order own, below, above.
pub open spec fn neighbour_index(dx: int, dy: int, dz: int) -> int {
    (dx + 1) + 3 * (dy + 1) + 9 * (if dz == 0 {
        0int
    } else if dz == -1 {
        1int
    } else {
        2int
    })
}

/// The offsets of the `i`-th neighbour give back `i`.
proof fn lemma_offsets_index(i: int)
    requires
        0 <= i < 27,
    ensures
        -1 <= offset_x(i) <= 1,
        -1 <= offset_y(i) <= 1,
        -1 <= offset_z(i) <= 1,
        neighbour_index(offset_x(i), offset_y(i), offset_z(i)) == i,
{
}

/// The neighbour at the index of an offset is offset by exactly that much.
proof fn lemma_index_offsets(dx: int, dy: int, dz: int)
    requires
        -1 <= dx <= 1,
        -1 <= dy <= 1,
        -1 <= dz <= 1,
    ensures
        0 <= neighbour_index(dx, dy, dz) < 27,
        offset_x(neighbour_index(dx, dy, dz)) == dx,
        offset_y(neighbour_index(dx, dy, dz)) == dy,
        offset_z(neighbour_index(dx, dy, dz)) == dz,
{
}

/// The 27 neighbours of a cell are exactly the cells of the 3x3x3 block
/// around it: they are pairwise distinct, each differs from the cell by at
/// most 1 along every axis, and every such cell is among them.
pub proof fn lemma_neighbours_block(c: Coordinate)
    requires
        inner(c),
    ensures
        neighbours(c).len() == 27,
        forall|i: int, j: int|
            0 <= i < j < 27 ==> #[trigger] neighbours(c)[i] != #[trigger] neighbours(c)[j],
        forall|i: int|
            0 <= i < 27 ==> {
                let n = #[trigger] neighbours(c)[i];
                &&& -1 <= n.0 - c.0 <= 1
                &&& -1 <= n.1 - c.1 <= 1
                &&& -1 <= n.2 - c.2 <= 1
            },
        forall|k: Coordinate|
            -1 <= k.0 - c.0 <= 1 && -1 <= k.1 - c.1 <= 1 && -1 <= k.2 - c.2 <= 1
                ==> #[trigger] neighbours(c).contains(k),
{
    let nb = neighbours(c);
    assert forall|i: int| 0 <= i < 27 implies {
        let n = #[trigger] nb[i];
        &&& n.0 == c.0 + offset_x(i)
        &&& n.1 == c.1 + offset_y(i)
        &&& n.2 == c.2 + offset_z(i)
    } by {
        lemma_offsets_index(i);
    }
    assert forall|i: int, j: int| 0 <= i < j < 27 implies #[trigger] nb[i] != #[trigger] nb[j] by {
        lemma_offsets_index(i);
        lemma_offsets_index(j);
    }
    assert forall|i: int| 0 <= i < 27 implies {
        let n = #[trigger] nb[i];
        &&& -1 <= n.0 - c.0 <= 1
        &&& -1 <= n.1 - c.1 <= 1
        &&& -1 <= n.2 - c.2 <= 1
    } by {
        lemma_offsets_index(i);
    }
    assert forall|k: Coordinate|
        -1 <= k.0 - c.0 <= 1 && -1 <= k.1 - c.1 <= 1 && -1 <= k.2 - c.2 <= 1 implies #[trigger] nb.contains(
        k,
    ) by {
        let i = neighbour_index(k.0 - c.0, k.1 - c.1, k.2 - c.2);
        lemma_index_offsets(k.0 - c.0, k.1 - c.1, k.2 - c.2);
        assert(nb[i] == k);
    }
}

/// The entities of the cells around and including `c`, cell by cell in the
/// order of `neighbours`.
pub open spec fn neighbourhood(cells: Map<Coordinate, Seq<usize>>, c: Coordinate) -> Seq<usize> {
    gather(cells, neighbours(c), 27)
}

/// The coordinates whose neighbours stay within the range of `i32`.
pub open spec fn inner(c: Coordinate) -> bool {
    &&& i32::MIN < c.0 < i32::MAX
    &&& i32::MIN < c.1 < i32::MAX
    &&& i32::MIN < c.2 < i32::MAX
}

/// The entities of `cells` in the cells `nbs[..n]`, cell by cell.
pub open spec fn gather(cells: Map<Coordinate, Seq<usize>>, nbs: Seq<Coordinate>, n: nat) -> Seq<usize>
    decreases n,
{
    if n == 0 {
        seq![]
    } else {
        gather(cells, nbs, (n - 1) as nat) + if cells.contains_key(nbs[n - 1]) {
            cells[nbs[n - 1]]
        } else {
            seq![]
        }
    }
}

/// The positions `members(keys, key, n)` lists are exactly those `i < n`
/// at which `keys` holds `key`.
pub proof fn lemma_members(keys: Seq<Coordinate>, key: Coordinate, n: nat)
    requires
        n <= keys.len() <= usize::MAX,
    ensures
        forall|j: int|
            0 <= j < members(keys, key, n).len() ==> (#[trigger] members(keys, key, n)[j]) < n
                && keys[members(keys, key, n)[j] as int] == key,
        forall|i: int|
            0 <= i < n && keys[i] == key ==> #[trigger] members(keys, key, n).contains(i as usize),
    decreases n,
{
    if n > 0 {
        let before = members(keys, key, (n - 1) as nat);
        lemma_members(keys, key, (n - 1) as nat);
        if keys[n - 1] == key {
            let now = before.push((n - 1) as usize);
            assert forall|j: int| 0 <= j < now.len() implies (#[trigger] now[j]) < n && keys[now[j] as int] == key by {
                if j < before.len() {
                    assert(now[j] == before[j]);
                }
            }
            assert forall|i: int| 0 <= i < n && keys[i] == key implies #[trigger] now.contains(i as usize) by {
                if i < n - 1 {
                    assert(before.contains(i as usize));
                    let j = choose|j: int| 0 <= j < before.len() && before[j] == i as usize;
                    assert(now[j] == i as usize);
                } else {
                    assert(now[before.len() as int] == i as usize);
                }
            }
        }
    }
}

/// What `gather` collects from the cells `nbs[..n]` is what those cells
/// hold.
pub proof fn lemma_gather(cells: Map<Coordinate, Seq<usize>>, nbs: Seq<Coordinate>, n: nat, e: usize)
    requires
        n <= nbs.len(),
    ensures
        gather(cells, nbs, n).contains(e) <==> exists|i: int|
            0 <= i < n && cells.contains_key(nbs[i]) && #[trigger] cells[nbs[i]].contains(e),
    decreases n,
{
    if n > 0 {
        let before = gather(cells, nbs, (n - 1) as nat);
        let last = if cells.contains_key(nbs[n - 1]) {
            cells[nbs[n - 1]]
        } else {
            seq![]
        };
        lemma_gather(cells, nbs, (n - 1) as nat, e);
        if (before + last).contains(e) {
            let k = choose|k: int| 0 <= k < (before + last).len() && (before + last)[k] == e;
            if k < before.len() {
                assert(before[k] == e);
            } else {
                assert(last[k - before.len()] == e);
                assert(cells[nbs[n - 1]].contains(e));
            }
        }
        if exists|i: int| 0 <= i < n && cells.contains_key(nbs[i]) && #[trigger] cells[nbs[i]].contains(e) {
            let i = choose|i: int| 0 <= i < n && cells.contains_key(nbs[i]) && #[trigger] cells[nbs[i]].contains(e);
            if i < n - 1 {
                let k = choose|k: int| 0 <= k < before.len() && before[k] == e;
                assert((before + last)[k] == e);
            } else {
                let k = choose|k: int| 0 <= k < last.len() && last[k] == e;
                assert((before + last)[before.len() + k] == e);
            }
        }
    }
}

/// With the entities grouped by cell, the neighbourhood of a cell holds
/// exactly the entities that lie in one of the 27 cells around and
/// including it.
pub proof fn lemma_neighbourhood_entities(
    cells: Map<Coordinate, Seq<usize>>,
    keys: Seq<Coordinate>,
    c: Coordinate,
    e: usize,
)
    requires
        keys.len() <= usize::MAX,
        forall|k: Coordinate| #[trigger] cells.contains_key(k) <==> keys.contains(k),
        forall|k: Coordinate| #[trigger] cells.contains_key(k) ==> cells[k] == members(keys, k, keys.len()),
    ensures
        neighbourhood(cells, c).contains(e) <==> (e < keys.len() && neighbours(c).contains(
            keys[e as int],
        )),
{
    let nbs = neighbours(c);
    lemma_gather(cells, nbs, 27, e);
    if neighbourhood(cells, c).contains(e) {
        let i = choose|i: int| 0 <= i < 27 && cells.contains_key(nbs[i]) && #[trigger] cells[nbs[i]].contains(e);
        lemma_members(keys, nbs[i], keys.len());
        let j = choose|j: int| 0 <= j < cells[nbs[i]].len() && cells[nbs[i]][j] == e;
        assert(members(keys, nbs[i], keys.len())[j] == e);
        assert(nbs[i] == keys[e as int]);
    }
    if e < keys.len() && nbs.contains(keys[e as int]) {
        let i = choose|i: int| 0 <= i < nbs.len() && nbs[i] == keys[e as int];
        assert(keys.contains(keys[e as int]));
        assert(cells.contains_key(nbs[i]));
        lemma_members(keys, nbs[i], keys.len());
        assert(members(keys, nbs[i], keys.len()).contains((e as int) as usize));
        assert(cells[nbs[i]].contains(e));
    }
}

/// Some entry of `cells` is for cell `k`.
pub open spec fn holds_cell(cells: Seq<(Coordinate, Vec<usize>)>, k: Coordinate) -> bool {
    exists|a: int| 0 <= a < cells.len() && cells[a].0 == k
}

/// Entities grouped by cell. Each cell that holds an entity appears once,
/// in the order the cells were first met.
pub struct Grid {
    cells: Vec<(Coordinate, Vec<usize>)>,
}

impl Grid {
    /// The cells that hold entities, in the order first met.
    pub closed spec fn keys(&self) -> Seq<Coordinate> {
        self.cells@.map_values(|e: (Coordinate, Vec<usize>)| e.0)
    }

    /// The entities of each cell that holds any.
    pub closed spec fn view(&self) -> Map<Coordinate, Seq<usize>> {
        Map::new(
            |k: Coordinate| exists|i: int| 0 <= i < self.cells@.len() && self.cells@[i].0 == k,
            |k: Coordinate|
                self.cells@[choose|i: int| 0 <= i < self.cells@.len() && self.cells@[i].0 == k].1@,
        )
    }

    /// No cell appears twice.
    #[verifier::type_invariant]
    closed spec fn wf(&self) -> bool {
        forall|i: int, j: int| 0 <= i < j < self.cells@.len() ==> self.cells@[i].0 != self.cells@[j].0
    }

    fn find(&self, key: Coordinate) -> (r: Option<usize>)
        ensures
            match r {
                Some(i) => i < self.cells@.len() && self.cells@[i as int].0 == key,
                None => forall|i: int| 0 <= i < self.cells@.len() ==> self.cells@[i].0 != key,
            },
    {
        let mut i: usize = 0;
        while i < self.cells.len()
            invariant
                i <= self.cells@.len(),
                forall|m: int| 0 <= m < i ==> self.cells@[m].0 != key,
            decreases self.cells@.len() - i,
        {
            let k = self.cells[i].0;
            if k.0 == key.0 && k.1 == key.1 && k.2 == key.2 {
                return Some(i);
            }
            i = i + 1;
        }
        None
    }

    /// Groups the entities by cell: `keys[i]` is the cell of entity `i`.
    pub fn new(keys: &[Coordinate]) -> (r: Self)
        ensures
            forall|k: Coordinate| #[trigger] r.view().contains_key(k) <==> keys@.contains(k),
            forall|k: Coordinate| #[trigger] r.view().contains_key(k) ==> r.view()[k] == members(keys@, k, keys@.len()),
            forall|i: int| 0 <= i < r.keys().len() ==> r.view().contains_key(#[trigger] r.keys()[i]),
            forall|k: Coordinate| #[trigger] r.view().contains_key(k) ==> r.keys().contains(k),
            forall|i: int, j: int| 0 <= i < j < r.keys().len() ==> r.keys()[i] != r.keys()[j],
    {
        let mut cells: Vec<(Coordinate, Vec<usize>)> = Vec::new();
        let n = keys.len();
        let mut i: usize = 0;
        while i < n
            invariant
                i <= n == keys@.len(),
                forall|a: int, b: int| 0 <= a < b < cells@.len() ==> cells@[a].0 != cells@[b].0,
                forall|k: Coordinate| #[trigger] holds_cell(cells@, k) <==> keys@.take(i as int).contains(k),
                forall|a: int| 0 <= a < cells@.len() ==> #[trigger] cells@[a].1@ == members(keys@, cells@[a].0, i as nat),
            decreases n - i,
        {
            let key = keys[i];
            let g = Grid { cells };
            let found = g.find(key);
            cells = g.cells;
            let ghost before = cells@;
            match found {
                Some(a) => {
                    let mut entry = cells.remove(a);
                    entry.1.push(i);
                    cells.insert(a, entry);
                },
                None => {
                    let mut members_vec = Vec::new();
                    members_vec.push(i);
                    cells.push((key, members_vec));
                },
            }
            proof {
                assert(keys@.take(i + 1) =~= keys@.take(i as int).push(key));
                assert forall|a: int| 0 <= a < cells@.len() implies #[trigger] cells@[a].1@ == members(keys@, cells@[a].0, (i + 1) as nat) by {
                    if a < before.len() {
                        assert(cells@[a].0 == before[a].0);
                    } else {
                        assert(!holds_cell(before, key));
                        assert(members(keys@, key, i as nat).len() == 0) by {
                            Self::lemma_members_absent(keys@, key, i as nat);
                        }
                    }
                }
                assert forall|k: Coordinate| #[trigger] holds_cell(cells@, k) <==> keys@.take(i + 1).contains(k) by {
                    if keys@.take(i + 1).contains(k) && k != key {
                        let t = keys@.take(i + 1);
                        let m = choose|m: int| 0 <= m < t.len() && t[m] == k;
                        assert(keys@.take(i as int)[m] == k);
                        assert(holds_cell(before, k));
                        let a = choose|a: int| 0 <= a < before.len() && before[a].0 == k;
                        assert(cells@[a].0 == k);
                    }
                    if k == key {
                        assert(keys@.take(i + 1)[i as int] == k);
                        match found {
                            Some(a) => assert(cells@[a as int].0 == k),
                            None => assert(cells@[before.len() as int].0 == k),
                        }
                    }
                    if holds_cell(cells@, k) {
                        let a = choose|a: int| 0 <= a < cells@.len() && cells@[a].0 == k;
                        if k != key {
                            assert(a < before.len());
                            assert(before[a].0 == k);
                            assert(holds_cell(before, k));
                            let t = keys@.take(i as int);
                            let m = choose|m: int| 0 <= m < t.len() && t[m] == k;
                            assert(keys@.take(i + 1)[m] == k);
                        }
                    }
                }
            }
            i = i + 1;
        }
        let r = Grid { cells };
        proof {
            assert(keys@.take(n as int) =~= keys@);
            assert forall|k: Coordinate| #[trigger] r.view().contains_key(k) <==> keys@.contains(k) by {
                assert(holds_cell(r.cells@, k) == keys@.take(n as int).contains(k));
            }
            assert forall|k: Coordinate| #[trigger] r.view().contains_key(k) implies r.view()[k] == members(keys@, k, keys@.len()) by {
                let a = choose|a: int| 0 <= a < r.cells@.len() && r.cells@[a].0 == k;
                assert(r.cells@[a].1@ == members(keys@, k, n as nat));
            }
            assert forall|i: int| 0 <= i < r.keys().len() implies r.view().contains_key(#[trigger] r.keys()[i]) by {
                assert(r.cells@[i].0 == r.keys()[i]);
            }
            assert forall|k: Coordinate| #[trigger] r.view().contains_key(k) implies r.keys().contains(k) by {
                let a = choose|a: int| 0 <= a < r.cells@.len() && r.cells@[a].0 == k;
                assert(r.keys()[a] == k);
            }
        }
        r
    }

    proof fn lemma_members_absent(keys: Seq<Coordinate>, key: Coordinate, n: nat)
        requires
            n <= keys.len(),
            !keys.take(n as int).contains(key),
        ensures
            members(keys, key, n).len() == 0,
        decreases n,
    {
        if n > 0 {
            assert(keys.take(n as int)[n - 1] == keys[n - 1]);
            assert(keys.take(n - 1) =~= keys.take(n as int).drop_last());
            if keys.take(n - 1).contains(key) {
                let t = keys.take(n - 1);
                let m = choose|m: int| 0 <= m < t.len() && t[m] == key;
                assert(keys.take(n as int)[m] == key);
            }
            Self::lemma_members_absent(keys, key, (n - 1) as nat);
        }
    }
}


impl Grid {
    /// The 27 cells around and including `coordinate`.
    pub fn get_neighbours(coordinate: Coordinate) -> (r: [Coordinate; 27])
        requires
            inner(coordinate),
        ensures
            forall|i: int| 0 <= i < 27 ==> is_neighbour(coordinate, i, #[trigger] r@[i]),
            r@ == neighbours(coordinate),
    {
        let r = [
            (coordinate.0 - 1, coordinate.1 - 1, coordinate.2),
            (coordinate.0, coordinate.1 - 1, coordinate.2),
            (coordinate.0 + 1, coordinate.1 - 1, coordinate.2),
            (coordinate.0 - 1, coordinate.1, coordinate.2),
            (coordinate.0, coordinate.1, coordinate.2),
            (coordinate.0 + 1, coordinate.1, coordinate.2),
            (coordinate.0 - 1, coordinate.1 + 1, coordinate.2),
            (coordinate.0, coordinate.1 + 1, coordinate.2),
            (coordinate.0 + 1, coordinate.1 + 1, coordinate.2),
            (coordinate.0 - 1, coordinate.1 - 1, coordinate.2 - 1),
            (coordinate.0, coordinate.1 - 1, coordinate.2 - 1),
            (coordinate.0 + 1, coordinate.1 - 1, coordinate.2 - 1),
            (coordinate.0 - 1, coordinate.1, coordinate.2 - 1),
            (coordinate.0, coordinate.1, coordinate.2 - 1),
            (coordinate.0 + 1, coordinate.1, coordinate.2 - 1),
            (coordinate.0 - 1, coordinate.1 + 1, coordinate.2 - 1),
            (coordinate.0, coordinate.1 + 1, coordinate.2 - 1),
            (coordinate.0 + 1, coordinate.1 + 1, coordinate.2 - 1),
            (coordinate.0 - 1, coordinate.1 - 1, coordinate.2 + 1),
            (coordinate.0, coordinate.1 - 1, coordinate.2 + 1),
            (coordinate.0 + 1, coordinate.1 - 1, coordinate.2 + 1),
            (coordinate.0 - 1, coordinate.1, coordinate.2 + 1),
            (coordinate.0, coordinate.1, coordinate.2 + 1),
            (coordinate.0 + 1, coordinate.1, coordinate.2 + 1),
            (coordinate.0 - 1, coordinate.1 + 1, coordinate.2 + 1),
            (coordinate.0, coordinate.1 + 1, coordinate.2 + 1),
            (coordinate.0 + 1, coordinate.1 + 1, coordinate.2 + 1),
        ];
        assert forall|i: int| 0 <= i < 27 implies is_neighbour(coordinate, i, #[trigger] r@[i]) by {
            assert(r@[i] == r[i]);
        }
        assert(r@ =~= neighbours(coordinate));
        r
    }
}

impl Grid {
    /// A walk over the cells that hold entities, in the order of `keys`.
    pub fn iter(&self) -> (r: GridIter<'_>)
        ensures
            r.grid() == *self,
            r.remaining() == self.keys(),
    {
        let mut keys: Vec<Coordinate> = Vec::new();
        let mut i: usize = 0;
        while i < self.cells.len()
            invariant
                i <= self.cells@.len(),
                keys@ == self.keys().take(i as int),
            decreases self.cells@.len() - i,
        {
            keys.push(self.cells[i].0);
            assert(self.keys().take(i + 1) =~= self.keys().take(i as int).push(self.cells@[i as int].0));
            i = i + 1;
        }
        assert(self.keys().take(i as int) =~= self.keys());
        GridIter { grid: self, keys, idx: 0 }
    }
}

/// A walk over the cells of a grid that hold entities, giving each cell's
/// neighbourhood in turn.
pub struct GridIter<'a> {
    grid: &'a Grid,
    keys: Vec<Coordinate>,
    idx: usize,
}

impl<'a> GridIter<'a> {
    /// The grid walked over.
    pub closed spec fn grid(&self) -> Grid {
        *self.grid
    }

    /// The cells not yet visited, in order.
    pub closed spec fn remaining(&self) -> Seq<Coordinate> {
        if self.idx <= self.keys@.len() {
            self.keys@.skip(self.idx as int)
        } else {
            Seq::empty()
        }
    }

    /// The neighbourhood of the next cell, or none once every cell has been
    /// visited.
    pub fn next(&mut self) -> (r: Option<Vec<usize>>)
        requires
            old(self).remaining().len() > 0 ==> inner(old(self).remaining()[0]),
        ensures
            final(self).grid() == old(self).grid(),
            old(self).remaining().len() == 0 ==> r is None && final(self).remaining() == old(
                self,
            ).remaining(),
            old(self).remaining().len() > 0 ==> r is Some && r->0@ == neighbourhood(
                old(self).grid().view(),
                old(self).remaining()[0],
            ) && final(self).remaining() == old(self).remaining().drop_first(),
    {
        if self.idx >= self.keys.len() {
            return None;
        }
        let key = self.keys[self.idx];
        assert(self.remaining()[0] == key);
        self.idx = self.idx + 1;
        assert(self.remaining() =~= old(self).remaining().drop_first());
        let nbs = Grid::get_neighbours(key);
        let grid = self.grid;
        proof {
            use_type_invariant(grid);
        }
        let mut result: Vec<usize> = Vec::new();
        let mut j: usize = 0;
        while j < 27
            invariant
                j <= 27,
                nbs@ == neighbours(key),
                grid.wf(),
                result@ == gather(grid.view(), nbs@, j as nat),
            decreases 27 - j,
        {
            let nb = nbs[j];
            match grid.find(nb) {
                Some(pos) => {
                    proof {
                        assert(grid.view().contains_key(nb));
                        let w = choose|m: int| 0 <= m < grid.cells@.len() && grid.cells@[m].0 == nb;
                        assert(w == pos);
                    }
                    let members_of = &grid.cells[pos].1;
                    let mut m: usize = 0;
                    let ghost start = result@;
                    while m < members_of.len()
                        invariant
                            m <= members_of@.len(),
                            result@ == start + members_of@.take(m as int),
                        decreases members_of@.len() - m,
                    {
                        result.push(members_of[m]);
                        assert(members_of@.take(m + 1) =~= members_of@.take(m as int).push(members_of@[m as int]));
                        m = m + 1;
                    }
                    assert(members_of@.take(m as int) =~= members_of@);
                },
                None => {
                    assert(!grid.view().contains_key(nb));
                    assert(result@ =~= result@ + Seq::<usize>::empty());
                },
            }
            assert(nbs@[j as int] == nb);
            j = j + 1;
        }
        Some(result)
    }
}

} // verus!
