use rand::Rng;
use std::collections::{HashMap, HashSet};
use vstd::prelude::*;
use crate::rules::{adjacent, in_bounds, live_neighbours, next_cells, survives, toggled};

verus! {

broadcast use vstd::std_specs::hash::group_hash_axioms;

/// The longest side a board may have: coordinates are `i16`.
pub const MAX_SIDE: u32 = 32767;

/// What a board is: its size and the set of live cells.
pub struct BoardModel {
    pub width: nat,
    pub height: nat,
    pub cells: Set<(int, int)>,
}

impl BoardModel {
    /// Every live cell lies on the grid, and there are finitely many.
    pub open spec fn valid(self) -> bool {
        &&& 1 <= self.width <= MAX_SIDE
        &&& 1 <= self.height <= MAX_SIDE
        &&& self.cells.finite()
        &&& forall|p: (int, int)|
            #[trigger] self.cells.contains(p) ==> in_bounds(p, self.width as int, self.height as int)
    }

    /// The next generation.
    pub open spec fn next(self) -> BoardModel {
        BoardModel {
            width: self.width,
            height: self.height,
            cells: next_cells(self.cells, self.width as int, self.height as int),
        }
    }

    /// Whether `self` is what a random fill of `before` may give: the set of
    /// a quarter of the area's worth of cells drawn on the grid, of the same
    /// size as `before`.
    pub open spec fn is_random_fill_of(self, before: BoardModel) -> bool {
        &&& self.width == before.width
        &&& self.height == before.height
        &&& exists|draws: Seq<(int, int)>|
            #![trigger draws.to_set()]
            draws.len() == before.trial_count() && (forall|i: int|
                0 <= i < draws.len() ==> in_bounds(
                    #[trigger] draws[i],
                    before.width as int,
                    before.height as int,
                )) && self.cells == draws.to_set()
    }

    /// How many draws a random fill makes: a quarter of the area.
    pub open spec fn trial_count(self) -> int {
        (self.width * self.height) as int / 4
    }
}

/// The hash key of a grid cell.
pub open spec fn cell_key(p: (int, int)) -> int {
    p.0 * 65536 + p.1
}

/// The grid cell that a hash key stands for.
pub open spec fn key_cell(k: u32) -> (int, int) {
    ((k / 65536) as int, (k % 65536) as int)
}

/// Whether a hash key stands for a cell of a `width` x `height` grid.
pub open spec fn key_in_bounds(k: u32, width: int, height: int) -> bool {
    in_bounds(key_cell(k), width, height)
}

/// The cells whose keys `keys` holds.
pub open spec fn cells_of(keys: Set<u32>, width: int, height: int) -> Set<(int, int)> {
    Set::new(|p: (int, int)| in_bounds(p, width, height) && keys.contains(cell_key(p) as u32))
}

/// The cells of `cells` that lie on a `width` x `height` grid.
pub open spec fn listed_cells(cells: Seq<(i16, i16)>, width: int, height: int) -> Set<(int, int)> {
    Set::new(
        |p: (int, int)|
            in_bounds(p, width, height) && cell_list(cells).contains(p),
    )
}

/// Coordinate pairs as cells.
pub open spec fn cell_list(cells: Seq<(i16, i16)>) -> Seq<(int, int)> {
    cells.map_values(|d: (i16, i16)| (d.0 as int, d.1 as int))
}

/// How many cells of `s` touch `q`.
pub open spec fn adjacent_count(s: Seq<u32>, q: (int, int)) -> int
    decreases s.len(),
{
    if s.len() == 0 {
        0
    } else {
        adjacent_count(s.drop_last(), q) + if adjacent(key_cell(s.last()), q) {
            1int
        } else {
            0
        }
    }
}

/// Where `q` stands in the row-by-row scan of the 3 x 3 square around `c`.
pub open spec fn offset_index(c: (int, int), q: (int, int)) -> int {
    (q.1 - c.1 + 1) * 3 + (q.0 - c.0 + 1)
}

/// The neighbour count that `counts` holds for `q`, 0 when it holds none.
pub open spec fn count_of(counts: Map<u32, u8>, q: (int, int)) -> int {
    if counts.contains_key(cell_key(q) as u32) {
        counts[cell_key(q) as u32] as int
    } else {
        0
    }
}

/// A key and the cell it stands for determine each other on the grid.
proof fn lemma_key_round_trip(p: (int, int), k: u32)
    requires
        in_bounds(p, MAX_SIDE as int, MAX_SIDE as int),
    ensures
        0 <= cell_key(p) < 0x8000_0000,
        key_cell(cell_key(p) as u32) == p,
        key_in_bounds(k, MAX_SIDE as int, MAX_SIDE as int) ==> (cell_key(p) as u32 == k <==> p
            == key_cell(k)),
{
}

/// On the grid, the cells of `keys` are `keys` decoded one by one.
proof fn lemma_cells_of_len(keys: Set<u32>, width: int, height: int)
    requires
        keys.finite(),
        width <= MAX_SIDE,
        height <= MAX_SIDE,
        forall|k: u32| #[trigger] keys.contains(k) ==> key_in_bounds(k, width, height),
    ensures
        cells_of(keys, width, height).finite(),
        cells_of(keys, width, height).len() == keys.len(),
{
    let f = |k: u32| key_cell(k);
    assert forall|a: u32, b: u32| keys.contains(a) && keys.contains(b) && #[trigger] f(a) == #[trigger] f(
        b,
    ) implies a == b by {
        lemma_key_round_trip(key_cell(a), b);
    }
    assert forall|p: (int, int)| #[trigger] cells_of(keys, width, height).contains(p) <==> keys.map(
        f,
    ).contains(p) by {
        if cells_of(keys, width, height).contains(p) {
            lemma_key_round_trip(p, 0);
            assert(f(cell_key(p) as u32) == p);
        }
        if keys.map(f).contains(p) {
            let k = choose|k: u32| keys.contains(k) && f(k) == p;
            lemma_key_round_trip(p, k);
        }
    }
    assert(cells_of(keys, width, height) =~= keys.map(f));
    vstd::set_lib::lemma_map_size(keys, cells_of(keys, width, height), f);
}

/// Counting, cell by cell, the members of a list of distinct keys that touch
/// `q` gives the live neighbour count of `q`.
proof fn lemma_adjacent_count(s: Seq<u32>, q: (int, int), width: int, height: int)
    requires
        s.no_duplicates(),
        width <= MAX_SIDE,
        height <= MAX_SIDE,
        forall|i: int| 0 <= i < s.len() ==> key_in_bounds(#[trigger] s[i], width, height),
    ensures
        adjacent_count(s, q) == live_neighbours(cells_of(s.to_set(), width, height), q),
    decreases s.len(),
{
    if s.len() == 0 {
        assert(cells_of(s.to_set(), width, height) =~= Set::empty());
    } else {
        let t = s.drop_last();
        let k = s.last();
        assert forall|i: int| 0 <= i < t.len() implies key_in_bounds(#[trigger] t[i], width, height) by {
            assert(t[i] == s[i]);
        }
        assert(t.no_duplicates());
        lemma_adjacent_count(t, q, width, height);
        assert(s =~= t.push(k));
        assert(!t.to_set().contains(k)) by {
            if t.to_set().contains(k) {
                let i = choose|i: int| 0 <= i < t.len() && t[i] == k;
                assert(s[i] == s[s.len() - 1]);
            }
        }
        assert(key_in_bounds(k, width, height)) by {
            assert(s[s.len() - 1] == k);
        }
        let c = key_cell(k);
        let before = cells_of(t.to_set(), width, height);
        let after = cells_of(s.to_set(), width, height);
        t.lemma_push_to_set_commute(k);
        assert(s.to_set() == t.to_set().insert(k));
        assert forall|p: (int, int)| #[trigger] after.contains(p) == (before.contains(p) || p == c) by {
            if in_bounds(p, width, height) {
                lemma_key_round_trip(p, k);
            }
            lemma_key_round_trip(c, k);
        }
        assert(!before.contains(c)) by {
            lemma_key_round_trip(c, k);
        }
    }
}

/// A Game of Life board: its size and the keys of its live cells.
pub struct Board {
    width: u32,
    height: u32,
    occupied_cells: HashSet<u32>,
}

impl View for Board {
    type V = BoardModel;

    closed spec fn view(&self) -> BoardModel {
        BoardModel {
            width: self.width as nat,
            height: self.height as nat,
            cells: cells_of(self.occupied_cells@, self.width as int, self.height as int),
        }
    }
}

/// The hash key of the cell `(x, y)`.
fn key_of(x: i16, y: i16) -> (r: u32)
    requires
        0 <= x,
        0 <= y,
    ensures
        r as int == cell_key((x as int, y as int)),
{
    x as u32 * 65536 + y as u32
}

/// Relies on `rand::thread_rng` and `rand::Rng::gen_range`: a number drawn
/// from `0..bound`, which panics only when that range is empty.
#[verifier::external_body]
fn random_below(bound: i16) -> (r: i16)
    requires
        0 < bound,
    ensures
        0 <= r < bound,
{
    rand::thread_rng().gen_range(0..bound)
}

/// Adds one to the neighbour count of the cell `(x, y)`.
fn add_neighbour(counts: &mut HashMap<u32, u8>, x: i16, y: i16)
    requires
        in_bounds((x as int, y as int), MAX_SIDE as int, MAX_SIDE as int),
        count_of(old(counts)@, (x as int, y as int)) < 255,
    ensures
        forall|q: (int, int)|
            in_bounds(q, MAX_SIDE as int, MAX_SIDE as int) ==> #[trigger] count_of(final(counts)@, q)
                == count_of(old(counts)@, q) + if q == (x as int, y as int) {
                1int
            } else {
                0
            },
        forall|k: u32| #[trigger]
            final(counts)@.contains_key(k) ==> old(counts)@.contains_key(k) || k as int == cell_key(
                (x as int, y as int),
            ),
{
    let key = key_of(x, y);
    let num_neighbours: u8 = match counts.get(&key) {
        Some(n) => *n,
        None => 0,
    };
    counts.insert(key, num_neighbours + 1);
    assert forall|q: (int, int)| in_bounds(q, MAX_SIDE as int, MAX_SIDE as int) implies #[trigger] count_of(counts@, q)
        == count_of(old(counts)@, q) + if q == (x as int, y as int) {
        1int
    } else {
        0
    } by {
        lemma_key_round_trip(q, key);
        lemma_key_round_trip((x as int, y as int), key);
    }
}

impl Board {
    /// The board's invariant: a size the coordinates can address, and only
    /// keys of cells on the grid.
    pub closed spec fn wf(&self) -> bool {
        &&& 1 <= self.width <= MAX_SIDE
        &&& 1 <= self.height <= MAX_SIDE
        &&& self.occupied_cells@.finite()
        &&& forall|k: u32| #[trigger]
            self.occupied_cells@.contains(k) ==> key_in_bounds(
                k,
                self.width as int,
                self.height as int,
            )
    }

    /// What a well-formed board's model satisfies.
    pub proof fn lemma_model_valid(&self)
        requires
            self.wf(),
        ensures
            self@.valid(),
    {
        lemma_cells_of_len(self.occupied_cells@, self.width as int, self.height as int);
    }

    /// An empty board of the given size.
    pub fn new(width: u32, height: u32) -> (r: Board)
        requires
            1 <= width <= MAX_SIDE,
            1 <= height <= MAX_SIDE,
        ensures
            r.wf(),
            r@.width == width,
            r@.height == height,
            r@.cells == Set::<(int, int)>::empty(),
    {
        let r = Board { width: width, height: height, occupied_cells: HashSet::new() };
        assert(r@.cells =~= Set::<(int, int)>::empty());
        r
    }

    /// The number of columns.
    pub fn width(&self) -> (r: u32)
        ensures
            r == self@.width,
    {
        self.width
    }

    /// The number of rows.
    pub fn height(&self) -> (r: u32)
        ensures
            r == self@.height,
    {
        self.height
    }

    /// Makes exactly the listed cells alive, dropping those off the grid;
    /// a cell listed twice is one live cell.
    pub fn set_live_cells(&mut self, cells: &Vec<(i16, i16)>)
        requires
            old(self).wf(),
        ensures
            final(self).wf(),
            final(self)@.width == old(self)@.width,
            final(self)@.height == old(self)@.height,
            final(self)@.cells == listed_cells(
                cells@,
                old(self)@.width as int,
                old(self)@.height as int,
            ),
    {
        self.occupied_cells = HashSet::new();
        let ghost w = self.width as int;
        let ghost h = self.height as int;
        assert(self@.cells =~= listed_cells(cells@.take(0), w, h));
        for i in 0..cells.len()
            invariant
                self.wf(),
                self.width == w,
                self.height == h,
                self@.cells == listed_cells(cells@.take(i as int), w, h),
        {
            let (x, y) = cells[i];
            let ghost before = self@.cells;
            let ghost p = (x as int, y as int);
            if 0 <= x && 0 <= y && (x as u32) < self.width && (y as u32) < self.height {
                let key = key_of(x, y);
                proof {
                    lemma_key_round_trip(p, key);
                }
                self.occupied_cells.insert(key);
                assert forall|q: (int, int)| #[trigger] self@.cells.contains(q) == (before.contains(q)
                    || q == p) by {
                    if in_bounds(q, w, h) {
                        lemma_key_round_trip(q, key);
                    }
                }
            }
            proof {
                assert(cell_list(cells@.take(i + 1)) =~= cell_list(cells@.take(i as int)).push(p));
                assert forall|q: (int, int)|
                    #[trigger] cell_list(cells@.take(i + 1)).contains(q) == (cell_list(
                        cells@.take(i as int),
                    ).contains(q) || q == p) by {
                    vstd::seq_lib::lemma_seq_contains_after_push(
                        cell_list(cells@.take(i as int)),
                        p,
                        q,
                    );
                }
                assert(self@.cells =~= listed_cells(cells@.take(i + 1), w, h));
            }
        }
        assert(cells@.take(cells.len() as int) =~= cells@);
    }

    /// Empties the board, then draws a quarter of its area's worth of random
    /// cells and brings each one to life. A cell drawn twice is one live
    /// cell, so at most that many cells live afterwards.
    pub fn init_randomly(&mut self)
        requires
            old(self).wf(),
        ensures
            final(self).wf(),
            final(self)@.valid(),
            final(self)@.width == old(self)@.width,
            final(self)@.height == old(self)@.height,
            final(self)@.is_random_fill_of(old(self)@),
            final(self)@.cells.len() <= old(self)@.trial_count(),
    {
        assert((self.width as int) * (self.height as int) <= (MAX_SIDE as int) * (MAX_SIDE as int))
            by (nonlinear_arith)
            requires
                self.width <= MAX_SIDE,
                self.height <= MAX_SIDE,
        ;
        let trials: u32 = (self.width * self.height) / 4;
        let mut random_cells: Vec<(i16, i16)> = Vec::new();
        for i in 0..trials
            invariant
                self.wf(),
                random_cells.len() == i,
                forall|j: int|
                    0 <= j < random_cells.len() ==> in_bounds(
                        #[trigger] cell_list(random_cells@)[j],
                        self.width as int,
                        self.height as int,
                    ),
        {
            let ghost old_cells = random_cells@;
            let random_cell_x = random_below(self.width as i16);
            let random_cell_y = random_below(self.height as i16);
            random_cells.push((random_cell_x, random_cell_y));
            assert forall|j: int| 0 <= j < random_cells.len() implies in_bounds(
                #[trigger] cell_list(random_cells@)[j],
                self.width as int,
                self.height as int,
            ) by {
                if j < i {
                    assert(random_cells@[j] == old_cells[j]);
                    assert(cell_list(old_cells)[j] == cell_list(random_cells@)[j]);
                } else {
                    assert(cell_list(random_cells@)[j] == (
                        random_cell_x as int,
                        random_cell_y as int,
                    ));
                }
            }
        }
        self.set_live_cells(&random_cells);
        proof {
            let listed = cell_list(random_cells@);
            listed.lemma_cardinality_of_set();
            vstd::seq_lib::seq_to_set_is_finite(listed);
            assert(self@.cells =~= listed.to_set());
            vstd::set_lib::lemma_len_subset(self@.cells, listed.to_set());
            assert(listed.len() == old(self)@.trial_count());
            self.lemma_model_valid();
        }
    }

    /// Kills every cell.
    pub fn clear(&mut self)
        requires
            old(self).wf(),
        ensures
            final(self).wf(),
            final(self)@.width == old(self)@.width,
            final(self)@.height == old(self)@.height,
            final(self)@.cells == Set::<(int, int)>::empty(),
    {
        self.occupied_cells = HashSet::new();
        assert(self@.cells =~= Set::<(int, int)>::empty());
    }

    /// Whether the cell `(x, y)` is alive.
    pub fn is_alive(&self, x: i16, y: i16) -> (r: bool)
        requires
            self.wf(),
        ensures
            r == self@.cells.contains((x as int, y as int)),
    {
        if x < 0 || y < 0 || x as u32 >= self.width || y as u32 >= self.height {
            return false;
        }
        let key = key_of(x, y);
        self.occupied_cells.contains(&key)
    }

    /// Flips the cell `(x, y)` between alive and dead. A cell off the grid is
    /// left alone.
    pub fn toggle_cell(&mut self, x: i16, y: i16)
        requires
            old(self).wf(),
        ensures
            final(self).wf(),
            final(self)@.width == old(self)@.width,
            final(self)@.height == old(self)@.height,
            final(self)@.cells == if in_bounds(
                (x as int, y as int),
                old(self)@.width as int,
                old(self)@.height as int,
            ) {
                toggled(old(self)@.cells, (x as int, y as int))
            } else {
                old(self)@.cells
            },
    {
        if x < 0 || y < 0 || x as u32 >= self.width || y as u32 >= self.height {
            return;
        }
        let key = key_of(x, y);
        let ghost p = (x as int, y as int);
        let ghost before = self@.cells;
        proof {
            lemma_key_round_trip(p, key);
        }
        if self.occupied_cells.contains(&key) {
            self.occupied_cells.remove(&key);
        } else {
            self.occupied_cells.insert(key);
        }
        assert forall|q: (int, int)| #[trigger] self@.cells.contains(q) == toggled(before, p).contains(q) by {
            if in_bounds(q, self.width as int, self.height as int) {
                lemma_key_round_trip(q, key);
            }
        }
        assert(self@.cells =~= toggled(before, p));
    }

    /// How many cells are alive.
    pub fn population(&self) -> (r: usize)
        requires
            self.wf(),
        ensures
            r == self@.cells.len(),
    {
        proof {
            lemma_cells_of_len(self.occupied_cells@, self.width as int, self.height as int);
        }
        self.occupied_cells.len()
    }

    /// Adds one to the count of each neighbour of `(x, y)` that lies on the
    /// board, scanning the 3 x 3 square around it row by row.
    fn count_around(&self, counts: &mut HashMap<u32, u8>, x: i16, y: i16)
        requires
            self.wf(),
            in_bounds((x as int, y as int), self.width as int, self.height as int),
            forall|q: (int, int)|
                in_bounds(q, self.width as int, self.height as int) ==> #[trigger] count_of(
                    old(counts)@,
                    q,
                ) + (if adjacent((x as int, y as int), q) {
                    1int
                } else {
                    0
                }) <= 8,
            forall|k: u32| #[trigger]
                old(counts)@.contains_key(k) ==> key_in_bounds(
                    k,
                    self.width as int,
                    self.height as int,
                ),
        ensures
            forall|q: (int, int)|
                in_bounds(q, self.width as int, self.height as int) ==> #[trigger] count_of(
                    final(counts)@,
                    q,
                ) == count_of(old(counts)@, q) + if adjacent((x as int, y as int), q) {
                    1int
                } else {
                    0
                },
            forall|k: u32| #[trigger]
                final(counts)@.contains_key(k) ==> key_in_bounds(
                    k,
                    self.width as int,
                    self.height as int,
                ),
    {
        let ghost c = (x as int, y as int);
        let ghost start = counts@;
        for i in 0..9u8
            invariant
                self.wf(),
                in_bounds(c, self.width as int, self.height as int),
                c == (x as int, y as int),
                forall|q: (int, int)|
                    in_bounds(q, self.width as int, self.height as int) ==> #[trigger] count_of(
                        start,
                        q,
                    ) + (if adjacent(c, q) {
                        1int
                    } else {
                        0
                    }) <= 8,
                forall|q: (int, int)|
                    in_bounds(q, self.width as int, self.height as int) ==> #[trigger] count_of(
                        counts@,
                        q,
                    ) == count_of(start, q) + if adjacent(c, q) && offset_index(c, q) < i {
                        1int
                    } else {
                        0
                    },
                forall|k: u32| #[trigger]
                    counts@.contains_key(k) ==> key_in_bounds(
                        k,
                        self.width as int,
                        self.height as int,
                    ),
        {
            let dx: i16 = (i % 3) as i16 - 1;
            let dy: i16 = (i / 3) as i16 - 1;
            let nx: i16 = x + dx;
            let ny: i16 = y + dy;
            if !(dx == 0 && dy == 0) && 0 <= nx && (nx as u32) < self.width && 0 <= ny && (ny as u32)
                < self.height {
                proof {
                    assert(offset_index(c, (nx as int, ny as int)) == i);
                    assert(count_of(counts@, (nx as int, ny as int)) == count_of(start, (nx as int, ny as int)));
                }
                add_neighbour(counts, nx, ny);
                proof {
                    assert forall|k: u32| #[trigger] counts@.contains_key(k) implies key_in_bounds(
                        k,
                        self.width as int,
                        self.height as int,
                    ) by {
                        if k as int == cell_key((nx as int, ny as int)) {
                            lemma_key_round_trip((nx as int, ny as int), k);
                        }
                    }
                }
            }
        }
    }

    /// Replaces the live cells with the next generation: a cell lives on with
    /// two or three live neighbours, a dead cell with exactly three comes
    /// alive, and every other cell is dead. Cells off the grid never count.
    pub fn update_cells(&mut self)
        requires
            old(self).wf(),
        ensures
            final(self).wf(),
            final(self)@ == old(self)@.next(),
            final(self)@.width == old(self)@.width,
            final(self)@.height == old(self)@.height,
            forall|p: (int, int)| #[trigger]
                final(self)@.cells.contains(p) ==> in_bounds(
                    p,
                    old(self)@.width as int,
                    old(self)@.height as int,
                ),
            forall|p: (int, int)|
                in_bounds(p, old(self)@.width as int, old(self)@.height as int) ==> (
                #[trigger] final(self)@.cells.contains(p) <==> survives(
                    old(self)@.cells.contains(p),
                    live_neighbours(old(self)@.cells, p),
                )),
    {
        let ghost w = self.width as int;
        let ghost h = self.height as int;
        let ghost keys = self.occupied_cells@;
        // count the live neighbours of every cell next to a live cell; the
        // cells missing from the map have none
        let mut neighbour_counts: HashMap<u32, u8> = HashMap::new();
        let ghost mut done: Seq<u32> = Seq::empty();
        for key in it: self.occupied_cells.iter()
            invariant
                self.wf(),
                w == self.width,
                h == self.height,
                keys == self.occupied_cells@,
                it.seq().unref().to_set() == keys,
                it.seq().unref().no_duplicates(),
                done == it.seq().unref().take(it.index()),
                it.index() == it.seq().len() ==> done == it.seq().unref(),
                forall|q: (int, int)|
                    in_bounds(q, w, h) ==> #[trigger] count_of(neighbour_counts@, q)
                        == adjacent_count(done, q),
                forall|k: u32| #[trigger]
                    neighbour_counts@.contains_key(k) ==> key_in_bounds(k, w, h),
        {
            let ghost next = it.seq().unref().take(it.index() + 1);
            proof {
                assert(next.drop_last() =~= done);
                assert forall|i: int| 0 <= i < next.len() implies key_in_bounds(#[trigger] next[i], w, h) by {
                    assert(it.seq().unref().to_set().contains(next[i]));
                }
                assert forall|i: int| 0 <= i < done.len() implies key_in_bounds(#[trigger] done[i], w, h) by {
                    assert(it.seq().unref().to_set().contains(done[i]));
                }
                assert forall|q: (int, int)| #[trigger] adjacent_count(done, q) <= 8 by {
                    lemma_adjacent_count(done, q, w, h);
                    crate::rules::lemma_live_neighbours_bounded(cells_of(done.to_set(), w, h), q);
                }
                assert forall|q: (int, int)| #[trigger] adjacent_count(next, q) <= 8 by {
                    lemma_adjacent_count(next, q, w, h);
                    crate::rules::lemma_live_neighbours_bounded(cells_of(next.to_set(), w, h), q);
                }
            }
            let cell_x: i16 = (*key / 65536) as i16;
            let cell_y: i16 = (*key % 65536) as i16;
            proof {
                assert(*key == it.seq()[it.index()]);
                assert(*key == next.last());
                assert(key_cell(*key) == (cell_x as int, cell_y as int));
                assert forall|q: (int, int)|
                    in_bounds(q, w, h) implies #[trigger] count_of(neighbour_counts@, q) + (if adjacent(
                        (cell_x as int, cell_y as int),
                        q,
                    ) {
                        1int
                    } else {
                        0
                    }) <= 8 by {
                    assert(adjacent_count(next, q) <= 8);
                }
            }
            self.count_around(&mut neighbour_counts, cell_x, cell_y);
            proof {
                done = done.push(*key);
                assert(done =~= next);
                assert(it.index() + 1 == it.seq().len() ==> next =~= it.seq().unref());
            }
        }
        let ghost counts = neighbour_counts@;
        proof {
            assert forall|q: (int, int)| in_bounds(q, w, h) implies #[trigger] count_of(counts, q)
                == live_neighbours(self@.cells, q) by {
                assert forall|i: int| 0 <= i < done.len() implies key_in_bounds(#[trigger] done[i], w, h) by {
                    assert(done.to_set().contains(done[i]));
                }
                lemma_adjacent_count(done, q, w, h);
            }
        }
        // keep the survivors and the newborn
        let mut new_occupied_cells: HashSet<u32> = HashSet::new();
        for (cell, neighbours) in it2: neighbour_counts.iter()
            invariant
                self.wf(),
                w == self.width,
                h == self.height,
                keys == self.occupied_cells@,
                counts == neighbour_counts@,
                forall|k: u32| #[trigger] counts.contains_key(k) ==> key_in_bounds(k, w, h),
                new_occupied_cells@.finite(),
                forall|k: u32| #[trigger]
                    new_occupied_cells@.contains(k) ==> counts.contains_key(k) && survives(
                        keys.contains(k),
                        counts[k] as int,
                    ),
                forall|j: int|
                    0 <= j < it2.index() ==> (survives(
                        keys.contains(*it2.seq()[j].0),
                        *it2.seq()[j].1 as int,
                    ) ==> new_occupied_cells@.contains(*#[trigger] it2.seq()[j].0)),
                forall|k: u32| #[trigger]
                    counts.contains_key(k) ==> it2.seq().contains((&k, &counts[k])),
                it2.index() == it2.seq().len() ==> forall|k: u32| #[trigger]
                    counts.contains_key(k) && survives(keys.contains(k), counts[k] as int)
                        ==> new_occupied_cells@.contains(k),
        {
            proof {
                assert(it2.seq()[it2.index()] == (cell, neighbours));
                assert(counts.contains_key(*cell));
                assert(counts[*cell] == *neighbours);
            }
            let is_alive = self.occupied_cells.contains(cell);
            if is_alive && (*neighbours == 2 || *neighbours == 3) {
                new_occupied_cells.insert(*cell);
            } else if !is_alive && *neighbours == 3 {
                new_occupied_cells.insert(*cell);
            }
            proof {
                assert forall|k: u32|
                    it2.index() + 1 == it2.seq().len() && #[trigger] counts.contains_key(k) && survives(
                        keys.contains(k),
                        counts[k] as int,
                    ) implies new_occupied_cells@.contains(k) by {
                    let j = choose|j: int|
                        0 <= j < it2.seq().len() && it2.seq()[j] == (&k, &counts[k]);
                    if j < it2.index() {
                        assert(*it2.seq()[j].0 == k);
                    } else {
                        assert(j == it2.index());
                        assert(*cell == k);
                    }
                }
            }
        }
        assert(forall|k: u32| #[trigger]
            counts.contains_key(k) && survives(keys.contains(k), counts[k] as int)
                ==> new_occupied_cells@.contains(k));
        let ghost old_cells = self@.cells;
        self.occupied_cells = new_occupied_cells;
        proof {
            assert forall|p: (int, int)| in_bounds(p, w, h) implies (#[trigger] self@.cells.contains(p)
                <==> survives(old_cells.contains(p), live_neighbours(old_cells, p))) by {
                lemma_key_round_trip(p, 0);
                let k = cell_key(p) as u32;
                assert(old_cells.contains(p) == keys.contains(k));
                assert(self@.cells.contains(p) == new_occupied_cells@.contains(k));
                assert(count_of(counts, p) == live_neighbours(old_cells, p));
            }
            assert(self@.cells =~= next_cells(old_cells, w, h));
        }
    }
}

} // verus!
