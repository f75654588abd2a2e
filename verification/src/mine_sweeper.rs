//! The game board: a playable grid of panels surrounded by a one-panel ring
//! of border sentinels, with bomb placement, adjacency precomputation,
//! open/flag/cascade operations and the win check.

use rand::Rng;
use vstd::prelude::*;
use crate::counting::{
    count_grid, lemma_count_grid_nonneg, lemma_count_grid_pointwise, lemma_count_grid_update,
    lemma_count_grid_zero,
};
use crate::panel::{
    new_blank_panel, new_boarder_panel, new_bomb_panel, BlankPanel, BoarderPanel, BombPanel,
    FlagState, OpenResult, OpenState, Panel,
};

verus! {

/// The predicate "this panel is a bomb", as a value for the counting lemmas.
pub open spec fn bomb_pred() -> spec_fn(Panel) -> bool {
    |p: Panel| p.spec_is_bomb()
}

/// The predicate "this panel is still covered".
pub open spec fn closed_pred() -> spec_fn(Panel) -> bool {
    |p: Panel| !p.spec_is_open()
}

/// A fresh covered blank panel, the state of every interior cell before
/// bombs are placed.
pub open spec fn fresh_blank() -> Panel {
    Panel::Blank(
        BlankPanel { open_state: OpenState::Close, flag_state: FlagState::NoFlag, bomb_value: 0 },
    )
}

/// A fresh covered bomb panel, the state of a cell right after placement.
pub open spec fn fresh_bomb() -> Panel {
    Panel::Bomb(BombPanel { open_state: OpenState::Close, flag_state: FlagState::NoFlag })
}

/// Whether `bombs` lists the position `(r, c)`.
pub open spec fn lists_pos(bombs: Seq<(usize, usize)>, r: int, c: int) -> bool {
    exists|i: int| 0 <= i < bombs.len() && bombs[i].0 == r && (#[trigger] bombs[i]).1 == c
}

pub struct GameBoard {
    pub panel_mat: Vec<Vec<Panel>>,
    pub size_x: usize,
    pub size_y: usize,
    pub field_size_x: usize,
    pub field_size_y: usize,
}

impl GameBoard {
    /// The grid as a sequence of rows of panels.
    pub open spec fn grid(self) -> Seq<Seq<Panel>> {
        self.panel_mat@.map_values(|row: Vec<Panel>| row@)
    }

    /// The panel at row `r`, column `c` of the full field.
    pub open spec fn at(self, r: int, c: int) -> Panel {
        self.grid()[r][c]
    }

    /// The stored sizes agree with the grid: the field is the playable
    /// `size_y x size_x` block plus the one-panel frame.
    pub open spec fn spec_dims(self) -> bool {
        &&& self.size_y >= 1
        &&& self.size_x >= 1
        &&& self.field_size_y == self.size_y + 2
        &&& self.field_size_x == self.size_x + 2
        &&& self.grid().len() == self.field_size_y
        &&& forall|r: int|
            0 <= r < self.grid().len() ==> (#[trigger] self.grid()[r]).len() == self.field_size_x
    }

    /// A playable position: rows `1..=size_y`, columns `1..=size_x`.
    pub open spec fn in_interior(self, r: int, c: int) -> bool {
        1 <= r <= self.size_y && 1 <= c <= self.size_x
    }

    /// Any position of the full field, frame included.
    pub open spec fn in_field(self, r: int, c: int) -> bool {
        0 <= r < self.field_size_y && 0 <= c < self.field_size_x
    }

    /// A position of the sentinel frame.
    pub open spec fn on_boarder(self, r: int, c: int) -> bool {
        self.in_field(r, c) && !self.in_interior(r, c)
    }

    /// Well-formed: sizes agree with the grid, the frame holds border
    /// sentinels and only the frame does.
    pub open spec fn spec_wf(self) -> bool {
        &&& self.spec_dims()
        &&& forall|r: int, c: int|
            self.on_boarder(r, c) ==> (#[trigger] self.at(r, c)).spec_is_boarder()
        &&& forall|r: int, c: int|
            self.in_interior(r, c) ==> !(#[trigger] self.at(r, c)).spec_is_boarder()
    }

    /// The number of bombs among the 8 neighbors of `(r, c)`; for an
    /// interior position all 8 neighbors exist thanks to the frame.
    pub open spec fn neighbor_bombs(self, r: int, c: int) -> int {
        bomb_ind(self.at(r - 1, c - 1)) + bomb_ind(self.at(r - 1, c)) + bomb_ind(
            self.at(r - 1, c + 1),
        ) + bomb_ind(self.at(r, c - 1)) + bomb_ind(self.at(r, c + 1)) + bomb_ind(
            self.at(r + 1, c - 1),
        ) + bomb_ind(self.at(r + 1, c)) + bomb_ind(self.at(r + 1, c + 1))
    }

    /// Every interior blank panel stores exactly its neighbor bomb count.
    pub open spec fn spec_adjacency_ok(self) -> bool {
        forall|r: int, c: int|
            self.in_interior(r, c) && (#[trigger] self.at(r, c)).spec_is_blank()
                ==> self.at(r, c).spec_value() == self.neighbor_bombs(r, c)
    }

    /// The board invariant: well-formed and adjacency counts correct.
    pub open spec fn inv(self) -> bool {
        self.spec_wf() && self.spec_adjacency_ok()
    }

    /// The number of bomb panels on the board.
    pub open spec fn total_bombs(self) -> int {
        count_grid(self.grid(), bomb_pred())
    }

    /// The number of still-covered panels on the board.
    pub open spec fn closed_count(self) -> int {
        count_grid(self.grid(), closed_pred())
    }

    /// All nine panels of the 3x3 square centred on `(r, c)` are open.
    pub open spec fn square_open(self, r: int, c: int) -> bool {
        forall|i: int, j: int|
            r - 1 <= i <= r + 1 && c - 1 <= j <= c + 1 ==> (#[trigger] self.at(i, j)).spec_is_open()
    }

    /// The cascade fixpoint: every open interior blank panel with adjacency
    /// count zero has its whole 3x3 square open.
    pub open spec fn spec_fixpoint(self) -> bool {
        forall|r: int, c: int|
            self.in_interior(r, c) && (#[trigger] self.at(r, c)).spec_is_blank() && self.at(
                r,
                c,
            ).spec_is_open() && self.at(r, c).spec_value() == 0 ==> self.square_open(r, c)
    }

    /// The game is won: every interior panel is open or a bomb.
    pub open spec fn spec_won(self) -> bool {
        forall|r: int, c: int|
            self.in_interior(r, c) ==> (#[trigger] self.at(r, c)).spec_is_open() || self.at(
                r,
                c,
            ).spec_is_bomb()
    }

    /// Both boards have the same sizes.
    pub open spec fn same_dims(self, other: GameBoard) -> bool {
        &&& self.size_x == other.size_x
        &&& self.size_y == other.size_y
        &&& self.field_size_x == other.field_size_x
        &&& self.field_size_y == other.field_size_y
    }

    /// Replaces the panel at `(y, x)`, leaving every other cell and all the
    /// sizes as they were.
    fn set_panel(&mut self, y: usize, x: usize, q: Panel)
        requires
            y < old(self).grid().len(),
            x < old(self).grid()[y as int].len(),
        ensures
            final(self).grid() == old(self).grid().update(
                y as int,
                old(self).grid()[y as int].update(x as int, q),
            ),
            final(self).at(y as int, x as int) == q,
            forall|r: int, c: int|
                0 <= r < old(self).grid().len() && 0 <= c < old(self).grid()[r].len() && !(r == y
                    && c == x) ==> (#[trigger] final(self).at(r, c)) == old(self).at(r, c),
            final(self).grid().len() == old(self).grid().len(),
            forall|r: int|
                0 <= r < old(self).grid().len() ==> (#[trigger] final(self).grid()[r]).len() == old(
                    self,
                ).grid()[r].len(),
            final(self).same_dims(*old(self)),
    {
        self.panel_mat[y][x] = q;
        proof {
            assert(self.grid() =~~= old(self).grid().update(
                y as int,
                old(self).grid()[y as int].update(x as int, q),
            ));
        }
    }

    /// Whether the panel at `(r, c)` is a bomb.
    fn bomb_at(&self, r: usize, c: usize) -> (b: bool)
        requires
            r < self.grid().len(),
            c < self.grid()[r as int].len(),
        ensures
            b == self.at(r as int, c as int).spec_is_bomb(),
    {
        self.panel_mat[r][c].is_bomb()
    }
}

/// The panel a fresh field of sizes `fy x fx` holds at `(r, c)`: a border
/// sentinel on the frame, a covered blank panel inside.
pub open spec fn fresh_panel(fy: int, fx: int, r: int, c: int) -> Panel {
    if r == 0 || r == fy - 1 || c == 0 || c == fx - 1 {
        Panel::Boarder(BoarderPanel {  })
    } else {
        fresh_blank()
    }
}

impl GameBoard {
    /// Builds the `(y+2) x (x+2)` field: a frame of border sentinels around
    /// covered blank panels, with no bomb placed yet.
    fn init_field(&mut self, y: usize, x: usize)
        requires
            1 <= y,
            y <= usize::MAX - 2,
            1 <= x,
            x <= usize::MAX - 2,
        ensures
            final(self).spec_wf(),
            final(self).size_y == y,
            final(self).size_x == x,
            final(self).field_size_y == y + 2,
            final(self).field_size_x == x + 2,
            forall|r: int, c: int|
                final(self).in_field(r, c) ==> (#[trigger] final(self).at(r, c)) == fresh_panel(
                    y + 2,
                    x + 2,
                    r,
                    c,
                ),
            final(self).total_bombs() == 0,
    {
        self.size_y = y;
        self.size_x = x;
        self.field_size_y = y + 2;
        self.field_size_x = x + 2;
        let mut mat: Vec<Vec<Panel>> = Vec::new();
        let mut r: usize = 0;
        while r < y + 2
            invariant
                y <= usize::MAX - 2,
                x <= usize::MAX - 2,
                r <= y + 2,
                mat@.len() == r,
                forall|i: int| 0 <= i < r ==> (#[trigger] mat@[i]@).len() == x + 2,
                forall|i: int, j: int|
                    0 <= i < r && 0 <= j < x + 2 ==> (#[trigger] mat@[i]@[j]) == fresh_panel(
                        y + 2,
                        x + 2,
                        i,
                        j,
                    ),
            decreases y + 2 - r,
        {
            let mut row_vec: Vec<Panel> = Vec::new();
            let mut c: usize = 0;
            while c < x + 2
                invariant
                    y <= usize::MAX - 2,
                    x <= usize::MAX - 2,
                    r < y + 2,
                    c <= x + 2,
                    row_vec@.len() == c,
                    forall|j: int|
                        0 <= j < c ==> (#[trigger] row_vec@[j]) == fresh_panel(
                            y + 2,
                            x + 2,
                            r as int,
                            j,
                        ),
                decreases x + 2 - c,
            {
                if r == 0 || r == y + 1 || c == 0 || c == x + 1 {
                    row_vec.push(Panel::Boarder(new_boarder_panel()));
                } else {
                    row_vec.push(Panel::Blank(new_blank_panel()));
                }
                c += 1;
            }
            mat.push(row_vec);
            r += 1;
        }
        self.panel_mat = mat;
        proof {
            assert forall|i: int, j: int|
                0 <= i < self.grid().len() && 0 <= j < self.grid()[i].len() implies !(bomb_pred()(
                #[trigger] self.grid()[i][j],
            )) by {
                assert(self.grid()[i][j] == fresh_panel(y + 2, x + 2, i, j));
            }
            lemma_count_grid_zero(self.grid(), bomb_pred());
        }
    }
}

/// Relies on rand::thread_rng and rand::Rng::gen_range on the range `0..n`:
/// the result lies below `n`, and the call panics only on an empty range,
/// which the precondition rules out. Nothing more is assumed of the draw.
#[verifier::external_body]
fn rand_below(n: usize) -> (r: usize)
    requires
        n >= 1,
    ensures
        r < n,
{
    rand::thread_rng().gen_range(0..n)
}

impl GameBoard {
    /// Places `num_bomb` bombs, each drawn uniformly among the interior
    /// positions still free, so all end on distinct interior cells.
    #[verifier::loop_isolation(false)]
    fn set_bomb(&mut self, num_bomb: usize)
        requires
            old(self).spec_wf(),
            forall|r: int, c: int|
                old(self).in_interior(r, c) ==> (#[trigger] old(self).at(r, c)) == fresh_blank(),
            old(self).total_bombs() == 0,
            num_bomb as int <= old(self).size_y as int * old(self).size_x as int,
        ensures
            final(self).spec_wf(),
            final(self).same_dims(*old(self)),
            final(self).grid().len() == old(self).grid().len(),
            forall|r: int|
                0 <= r < old(self).grid().len() ==> (#[trigger] final(self).grid()[r]).len() == old(
                    self,
                ).grid()[r].len(),
            final(self).total_bombs() == num_bomb as int,
            forall|r: int, c: int|
                final(self).in_field(r, c) ==> (#[trigger] final(self).at(r, c)) == old(self).at(
                    r,
                    c,
                ) || (final(self).in_interior(r, c) && final(self).at(r, c) == fresh_bomb()),
    {
        let sy = self.size_y;
        let sx = self.size_x;
        let mut free: Vec<(usize, usize)> = Vec::new();
        let mut r: usize = 1;
        while r <= sy
            invariant
                1 <= r <= sy + 1,
                free@.len() == (r - 1) * (sx as int),
                forall|i: int|
                    0 <= i < free@.len() ==> self.in_interior(
                        (#[trigger] free@[i]).0 as int,
                        free@[i].1 as int,
                    ),
                forall|i: int| 0 <= i < free@.len() ==> (#[trigger] free@[i]).0 < r,
                forall|i: int, j: int|
                    0 <= i < j < free@.len() ==> (#[trigger] free@[i]) != (#[trigger] free@[j]),
            decreases sy + 1 - r,
        {
            let mut c: usize = 1;
            while c <= sx
                invariant
                    1 <= c <= sx + 1,
                    free@.len() == (r - 1) * (sx as int) + (c - 1),
                    forall|i: int|
                        0 <= i < free@.len() ==> self.in_interior(
                            (#[trigger] free@[i]).0 as int,
                            free@[i].1 as int,
                        ),
                    forall|i: int|
                        0 <= i < free@.len() ==> (#[trigger] free@[i]).0 < r || (free@[i].0 == r
                            && free@[i].1 < c),
                    forall|i: int, j: int|
                        0 <= i < j < free@.len() ==> (#[trigger] free@[i]) != (#[trigger] free@[j]),
                decreases sx + 1 - c,
            {
                free.push((r, c));
                c += 1;
            }
            proof {
                assert((r - 1) * (sx as int) + (sx as int) == r * (sx as int)) by (nonlinear_arith);
            }
            r += 1;
        }
        let mut counter: usize = 0;
        while counter < num_bomb
            invariant
                counter <= num_bomb,
                free@.len() as int + counter as int == (sy as int) * (sx as int),
                self.spec_wf(),
                self.same_dims(*old(self)),
                self.grid().len() == old(self).grid().len(),
                forall|i: int|
                    0 <= i < old(self).grid().len() ==> (#[trigger] self.grid()[i]).len() == old(
                        self,
                    ).grid()[i].len(),
                self.total_bombs() == counter as int,
                forall|i: int|
                    0 <= i < free@.len() ==> self.in_interior(
                        (#[trigger] free@[i]).0 as int,
                        free@[i].1 as int,
                    ),
                forall|i: int|
                    0 <= i < free@.len() ==> self.at(
                        (#[trigger] free@[i]).0 as int,
                        free@[i].1 as int,
                    ) == fresh_blank(),
                forall|i: int, j: int|
                    0 <= i < j < free@.len() ==> (#[trigger] free@[i]) != (#[trigger] free@[j]),
                forall|r2: int, c2: int|
                    self.in_field(r2, c2) ==> (#[trigger] self.at(r2, c2)) == old(self).at(r2, c2)
                        || (self.in_interior(r2, c2) && self.at(r2, c2) == fresh_bomb()),
            decreases num_bomb - counter,
        {
            let ghost free0 = free@;
            let idx = rand_below(free.len());
            let pos = free.swap_remove(idx);
            proof {
                assert forall|i: int, j: int| 0 <= i < j < free@.len() implies (
                #[trigger] free@[i]) != (#[trigger] free@[j]) by {
                    assert(free@[i] == if i == idx {
                        free0[free0.len() - 1]
                    } else {
                        free0[i]
                    });
                    assert(free@[j] == if j == idx {
                        free0[free0.len() - 1]
                    } else {
                        free0[j]
                    });
                }
                assert forall|i: int| 0 <= i < free@.len() implies (#[trigger] free@[i])
                    != pos by {
                    assert(free@[i] == if i == idx {
                        free0[free0.len() - 1]
                    } else {
                        free0[i]
                    });
                }
            }
            let ghost pre = *self;
            let bomb = Panel::Bomb(new_bomb_panel());
            self.set_panel(pos.0, pos.1, bomb);
            proof {
                lemma_count_grid_update(pre.grid(), bomb_pred(), pos.0 as int, pos.1 as int, bomb);
            }
            counter += 1;
        }
    }
}

impl GameBoard {
    /// The rendering of row `r` up to column `n`: each panel's symbol
    /// followed by a space.
    pub open spec fn spec_render_row(self, r: int, n: int) -> Seq<char>
        decreases n,
    {
        if n <= 0 {
            Seq::empty()
        } else {
            self.spec_render_row(r, n - 1) + seq![self.at(r, n - 1).spec_symbol(), ' ']
        }
    }

    /// The rendering of the first `m` rows, each ended by a newline.
    pub open spec fn spec_render_upto(self, m: int) -> Seq<char>
        decreases m,
    {
        if m <= 0 {
            Seq::empty()
        } else {
            self.spec_render_upto(m - 1) + self.spec_render_row(m - 1, self.field_size_x as int)
                + seq!['\n']
        }
    }

    /// The whole field rendered row-major, frame included.
    pub open spec fn spec_render(self) -> Seq<char> {
        self.spec_render_upto(self.field_size_y as int)
    }

    /// Renders the field as characters: each panel's symbol and a space,
    /// one line per row including the sentinel frame; the driver prints it.
    #[verifier::loop_isolation(false)]
    pub fn render(&self) -> (out: Vec<char>)
        requires
            self.inv(),
        ensures
            out@ == self.spec_render(),
    {
        let mut out: Vec<char> = Vec::new();
        let mut r: usize = 0;
        while r < self.field_size_y
            invariant
                r <= self.field_size_y,
                out@ == self.spec_render_upto(r as int),
            decreases self.field_size_y - r,
        {
            let mut c: usize = 0;
            while c < self.field_size_x
                invariant
                    c <= self.field_size_x,
                    out@ == self.spec_render_upto(r as int) + self.spec_render_row(
                        r as int,
                        c as int,
                    ),
                decreases self.field_size_x - c,
            {
                let p = self.panel_mat[r][c];
                proof {
                    assert(p == self.at(r as int, c as int));
                    if !p.spec_wf() {
                        assert(p.spec_is_blank());
                        assert(!self.on_boarder(r as int, c as int));
                        assert(self.in_interior(r as int, c as int));
                        assert(p.spec_value() == self.neighbor_bombs(r as int, c as int));
                        assert(false);
                    }
                }
                let ch = p.to_str();
                out.push(ch);
                out.push(' ');
                proof {
                    assert(out@ =~= self.spec_render_upto(r as int) + self.spec_render_row(
                        r as int,
                        c as int + 1,
                    ));
                }
                c += 1;
            }
            out.push('\n');
            proof {
                assert(out@ =~= self.spec_render_upto(r as int + 1));
            }
            r += 1;
        }
        out
    }
}

/// 1 if the panel is a bomb, else 0.
pub open spec fn bomb_ind(p: Panel) -> int {
    if p.spec_is_bomb() {
        1
    } else {
        0
    }
}

impl GameBoard {
    /// Builds a game with bombs exactly at the given distinct interior
    /// positions; deterministic counterpart of `new` for reproducible games.
    #[verifier::loop_isolation(false)]
    pub fn new_with_bombs(&mut self, y: usize, x: usize, bombs: &Vec<(usize, usize)>)
        requires
            1 <= y,
            y <= usize::MAX - 2,
            1 <= x,
            x <= usize::MAX - 2,
            forall|i: int|
                0 <= i < bombs@.len() ==> 1 <= (#[trigger] bombs@[i]).0 <= y && 1 <= bombs@[i].1
                    <= x,
            forall|i: int, j: int|
                0 <= i < j < bombs@.len() ==> (#[trigger] bombs@[i]) != (#[trigger] bombs@[j]),
        ensures
            final(self).inv(),
            final(self).size_y == y,
            final(self).size_x == x,
            final(self).field_size_y == y + 2,
            final(self).field_size_x == x + 2,
            final(self).total_bombs() == bombs@.len(),
            forall|r: int, c: int|
                final(self).in_interior(r, c) ==> ((#[trigger] final(self).at(r, c)).spec_is_bomb()
                    <==> lists_pos(bombs@, r, c)),
            forall|r: int, c: int|
                final(self).in_interior(r, c) ==> !(#[trigger] final(self).at(r, c)).spec_is_open()
                    && !final(self).at(r, c).spec_is_flagged(),
    {
        self.init_field(y, x);
        let mut i: usize = 0;
        while i < bombs.len()
            invariant
                i <= bombs@.len(),
                self.spec_wf(),
                self.size_y == y,
                self.size_x == x,
                self.field_size_y == y + 2,
                self.field_size_x == x + 2,
                self.grid().len() == y + 2,
                forall|r: int|
                    0 <= r < self.grid().len() ==> (#[trigger] self.grid()[r]).len() == x + 2,
                self.total_bombs() == i as int,
                forall|k: int|
                    0 <= k < i ==> self.at(
                        (#[trigger] bombs@[k]).0 as int,
                        bombs@[k].1 as int,
                    ) == fresh_bomb(),
                forall|r: int, c: int|
                    self.in_field(r, c) ==> (#[trigger] self.at(r, c)) == fresh_panel(
                        y + 2,
                        x + 2,
                        r,
                        c,
                    ) || (lists_pos(bombs@.take(i as int), r, c) && self.at(r, c) == fresh_bomb()),
            decreases bombs@.len() - i,
        {
            let pos = bombs[i];
            proof {
                assert(self.in_interior(pos.0 as int, pos.1 as int));
                if self.at(pos.0 as int, pos.1 as int) != fresh_panel(
                    y + 2,
                    x + 2,
                    pos.0 as int,
                    pos.1 as int,
                ) {
                    let k = choose|k: int|
                        0 <= k < i && (#[trigger] bombs@.take(i as int)[k]).0 == pos.0 as int
                            && bombs@.take(i as int)[k].1 == pos.1 as int;
                    assert(bombs@[k] == pos);
                    assert(false);
                }
            }
            let ghost pre = *self;
            let bomb = Panel::Bomb(new_bomb_panel());
            self.set_panel(pos.0, pos.1, bomb);
            proof {
                lemma_count_grid_update(pre.grid(), bomb_pred(), pos.0 as int, pos.1 as int, bomb);
                assert(bombs@.take(i + 1).drop_last() =~= bombs@.take(i as int));
                assert forall|r: int, c: int| self.in_field(r, c) implies (#[trigger] self.at(r, c))
                    == fresh_panel(y + 2, x + 2, r, c) || (lists_pos(bombs@.take(i + 1), r, c)
                    && self.at(r, c) == fresh_bomb()) by {
                    if r == pos.0 as int && c == pos.1 as int {
                        assert(bombs@.take(i + 1)[i as int] == pos);
                        assert(lists_pos(bombs@.take(i + 1), r, c));
                    } else {
                        if lists_pos(bombs@.take(i as int), r, c) {
                            let k = choose|k: int|
                                0 <= k < i && (#[trigger] bombs@.take(i as int)[k]).0 == r
                                    && bombs@.take(i as int)[k].1 == c;
                            assert(bombs@.take(i + 1)[k] == bombs@[k]);
                            assert(lists_pos(bombs@.take(i + 1), r, c));
                        }
                    }
                }
            }
            i += 1;
        }
        let ghost placed = *self;
        self.calc_bomb_value_all();
        proof {
            assert forall|r: int, i2: int|
                0 <= r < placed.grid().len() && 0 <= i2 < placed.grid()[r].len() implies bomb_pred()(
                placed.grid()[r][i2],
            ) == bomb_pred()(#[trigger] self.grid()[r][i2]) by {
                assert(placed.in_field(r, i2));
                assert(shape_eq(placed.at(r, i2), self.at(r, i2)));
            }
            lemma_count_grid_pointwise(placed.grid(), self.grid(), bomb_pred());
            assert(bombs@.take(bombs@.len() as int) =~= bombs@);
        }
    }

    /// Whether `(y, x)` is a playable position; the driver's bounds check.
    pub fn in_bounds(&self, y: usize, x: usize) -> (r: bool)
        ensures
            r == self.in_interior(y as int, x as int),
    {
        1 <= y && y <= self.size_y && 1 <= x && x <= self.size_x
    }

    /// A player's open attempt on the panel at `(y, x)`: a flagged panel is
    /// protected and nothing changes; otherwise the panel is uncovered and
    /// the result says whether it was a bomb.
    pub fn open(&mut self, y: usize, x: usize) -> (r: OpenResult)
        requires
            old(self).spec_wf(),
            old(self).in_interior(y as int, x as int),
        ensures
            final(self).spec_wf(),
            final(self).same_dims(*old(self)),
            final(self).grid().len() == old(self).grid().len(),
            forall|r2: int|
                0 <= r2 < old(self).grid().len() ==> (#[trigger] final(self).grid()[r2]).len()
                    == old(self).grid()[r2].len(),
            forall|r2: int, c2: int|
                old(self).in_field(r2, c2) && !(r2 == y && c2 == x) ==> (#[trigger] final(self).at(
                    r2,
                    c2,
                )) == old(self).at(r2, c2),
            (final(self).at(y as int, x as int), r) == old(self).at(y as int, x as int).spec_open(),
            old(self).at(y as int, x as int).spec_is_flagged() ==> r == OpenResult::Safe
                && final(self).at(y as int, x as int) == old(self).at(y as int, x as int),
            !old(self).at(y as int, x as int).spec_is_flagged() ==> final(self).at(
                y as int,
                x as int,
            ).spec_is_open() && (r == OpenResult::Bomb <==> old(self).at(
                y as int,
                x as int,
            ).spec_is_bomb()),
            old(self).spec_adjacency_ok() ==> final(self).spec_adjacency_ok(),
    {
        let mut p = self.panel_mat[y][x];
        let res = p.open();
        self.set_panel(y, x, p);
        res
    }

    /// Toggles the flag of the panel at `(y, x)`.
    pub fn flag(&mut self, y: usize, x: usize)
        requires
            old(self).spec_wf(),
            old(self).in_interior(y as int, x as int),
        ensures
            final(self).spec_wf(),
            final(self).same_dims(*old(self)),
            final(self).grid().len() == old(self).grid().len(),
            forall|r2: int|
                0 <= r2 < old(self).grid().len() ==> (#[trigger] final(self).grid()[r2]).len()
                    == old(self).grid()[r2].len(),
            forall|r2: int, c2: int|
                old(self).in_field(r2, c2) && !(r2 == y && c2 == x) ==> (#[trigger] final(self).at(
                    r2,
                    c2,
                )) == old(self).at(r2, c2),
            final(self).at(y as int, x as int) == old(self).at(
                y as int,
                x as int,
            ).spec_toggle_flag(),
            old(self).spec_adjacency_ok() ==> final(self).spec_adjacency_ok(),
    {
        let mut p = self.panel_mat[y][x];
        p.flag();
        self.set_panel(y, x, p);
    }

    /// The win check: true exactly when every interior panel is open or a
    /// bomb; bombs need not be flagged, flags play no role.
    #[verifier::loop_isolation(false)]
    pub fn is_finished(&self) -> (r: bool)
        requires
            self.spec_wf(),
        ensures
            r == self.spec_won(),
    {
        let mut row: usize = 1;
        while row <= self.size_y
            invariant
                1 <= row <= self.size_y + 1,
                forall|r2: int, c2: int|
                    self.in_interior(r2, c2) && r2 < row ==> (#[trigger] self.at(
                        r2,
                        c2,
                    )).spec_is_open() || self.at(r2, c2).spec_is_bomb(),
            decreases self.size_y + 1 - row,
        {
            let mut col: usize = 1;
            while col <= self.size_x
                invariant
                    1 <= col <= self.size_x + 1,
                    forall|c2: int|
                        1 <= c2 < col ==> (#[trigger] self.at(row as int, c2)).spec_is_open()
                            || self.at(row as int, c2).spec_is_bomb(),
                decreases self.size_x + 1 - col,
            {
                let p = self.panel_mat[row][col];
                match p.get_open_state() {
                    OpenState::Open => {},
                    OpenState::Close => {
                        if !p.is_bomb() {
                            proof {
                                assert(p == self.at(row as int, col as int));
                                assert(self.in_interior(row as int, col as int));
                            }
                            return false;
                        }
                    },
                }
                col += 1;
            }
            row += 1;
        }
        true
    }
}

impl GameBoard {
    /// Uncovers the panel at `(r, c)` whatever its flag; reports whether it
    /// was covered, and accounts for the covered-panel count.
    fn force_open_at(&mut self, r: usize, c: usize) -> (was_closed: bool)
        requires
            r < old(self).grid().len(),
            c < old(self).grid()[r as int].len(),
        ensures
            final(self).same_dims(*old(self)),
            final(self).grid().len() == old(self).grid().len(),
            forall|r2: int|
                0 <= r2 < old(self).grid().len() ==> (#[trigger] final(self).grid()[r2]).len()
                    == old(self).grid()[r2].len(),
            forall|r2: int, c2: int|
                0 <= r2 < old(self).grid().len() && 0 <= c2 < old(self).grid()[r2].len() && !(r2
                    == r && c2 == c) ==> (#[trigger] final(self).at(r2, c2)) == old(self).at(
                    r2,
                    c2,
                ),
            final(self).at(r as int, c as int) == old(self).at(r as int, c as int).spec_force_open(),
            was_closed == !old(self).at(r as int, c as int).spec_is_open(),
            final(self).closed_count() == old(self).closed_count() - (if was_closed {
                1int
            } else {
                0int
            }),
    {
        let mut p = self.panel_mat[r][c];
        let was_closed = match p.get_open_state() {
            OpenState::Open => false,
            OpenState::Close => true,
        };
        let ghost pre = *self;
        p.force_open();
        self.set_panel(r, c, p);
        proof {
            lemma_count_grid_update(pre.grid(), closed_pred(), r as int, c as int, p);
        }
        was_closed
    }

    /// Uncovers, whatever their flags, all panels of the 3x3 square centred
    /// on the interior position `(y, x)`; returns how many had been covered.
    #[verifier::loop_isolation(false)]
    fn open_around(&mut self, y: usize, x: usize) -> (cnt: u8)
        requires
            old(self).spec_wf(),
            old(self).in_interior(y as int, x as int),
        ensures
            final(self).spec_wf(),
            final(self).same_dims(*old(self)),
            final(self).grid().len() == old(self).grid().len(),
            forall|r2: int|
                0 <= r2 < old(self).grid().len() ==> (#[trigger] final(self).grid()[r2]).len()
                    == old(self).grid()[r2].len(),
            forall|r2: int, c2: int|
                old(self).in_field(r2, c2) && !(y - 1 <= r2 <= y + 1 && x - 1 <= c2 <= x + 1) ==> (
                #[trigger] final(self).at(r2, c2)) == old(self).at(r2, c2),
            forall|r2: int, c2: int|
                old(self).in_field(r2, c2) && y - 1 <= r2 <= y + 1 && x - 1 <= c2 <= x + 1 ==> (
                #[trigger] final(self).at(r2, c2)) == old(self).at(r2, c2).spec_force_open(),
            final(self).closed_count() == old(self).closed_count() - cnt as int,
            cnt == 0 ==> forall|r2: int, c2: int|
                old(self).in_field(r2, c2) ==> (#[trigger] final(self).at(r2, c2)) == old(self).at(
                    r2,
                    c2,
                ),
            old(self).spec_adjacency_ok() ==> final(self).spec_adjacency_ok(),
    {
        let mut cnt: u8 = 0;
        let mut dr: usize = 0;
        while dr < 3
            invariant
                dr <= 3,
                cnt as int <= 3 * dr,
                self.spec_wf(),
                self.same_dims(*old(self)),
                self.grid().len() == old(self).grid().len(),
                forall|r2: int|
                    0 <= r2 < old(self).grid().len() ==> (#[trigger] self.grid()[r2]).len() == old(
                        self,
                    ).grid()[r2].len(),
                forall|r2: int, c2: int|
                    old(self).in_field(r2, c2) && !(y - 1 <= r2 < y - 1 + dr && x - 1 <= c2 <= x
                        + 1) ==> (#[trigger] self.at(r2, c2)) == old(self).at(r2, c2),
                forall|r2: int, c2: int|
                    old(self).in_field(r2, c2) && y - 1 <= r2 < y - 1 + dr && x - 1 <= c2 <= x + 1
                        ==> (#[trigger] self.at(r2, c2)) == old(self).at(r2, c2).spec_force_open(),
                self.closed_count() == old(self).closed_count() - cnt as int,
                cnt == 0 ==> forall|r2: int, c2: int|
                    old(self).in_field(r2, c2) ==> (#[trigger] self.at(r2, c2)) == old(self).at(
                        r2,
                        c2,
                    ),
            decreases 3 - dr,
        {
            let mut dc: usize = 0;
            while dc < 3
                invariant
                    dc <= 3,
                    cnt as int <= 3 * dr + dc,
                    self.spec_wf(),
                    self.same_dims(*old(self)),
                    self.grid().len() == old(self).grid().len(),
                    forall|r2: int|
                        0 <= r2 < old(self).grid().len() ==> (#[trigger] self.grid()[r2]).len()
                            == old(self).grid()[r2].len(),
                    forall|r2: int, c2: int|
                        old(self).in_field(r2, c2) && !(y - 1 <= r2 < y - 1 + dr && x - 1 <= c2 <= x
                            + 1) && !(r2 == y - 1 + dr && x - 1 <= c2 < x - 1 + dc) ==> (
                        #[trigger] self.at(r2, c2)) == old(self).at(r2, c2),
                    forall|r2: int, c2: int|
                        old(self).in_field(r2, c2) && ((y - 1 <= r2 < y - 1 + dr && x - 1 <= c2 <= x
                            + 1) || (r2 == y - 1 + dr && x - 1 <= c2 < x - 1 + dc)) ==> (
                        #[trigger] self.at(r2, c2)) == old(self).at(r2, c2).spec_force_open(),
                    self.closed_count() == old(self).closed_count() - cnt as int,
                    cnt == 0 ==> forall|r2: int, c2: int|
                        old(self).in_field(r2, c2) ==> (#[trigger] self.at(r2, c2)) == old(self).at(
                            r2,
                            c2,
                        ),
                decreases 3 - dc,
            {
                if self.force_open_at(y - 1 + dr, x - 1 + dc) {
                    cnt += 1;
                }
                dc += 1;
            }
            dr += 1;
        }
        proof {
            if old(self).spec_adjacency_ok() {
                assert forall|r2: int, c2: int| old(self).in_field(r2, c2) implies kind_val_eq(
                    old(self).at(r2, c2),
                    #[trigger] self.at(r2, c2),
                ) by {
                    assert(self.at(r2, c2) == old(self).at(r2, c2) || self.at(r2, c2) == old(
                        self,
                    ).at(r2, c2).spec_force_open());
                }
                lemma_adjacency_preserved(*old(self), *self);
            }
        }
        cnt
    }

    /// Flood-fill to a fixpoint: as long as some open blank panel with
    /// adjacency count zero still has a covered panel in its 3x3 square,
    /// uncovers those squares (ignoring flags); afterwards no such panel
    /// remains, and a board already at the fixpoint is left untouched.
    /// With correct adjacency counts the flood never uncovers a bomb.
    #[verifier::loop_isolation(false)]
    #[verifier::rlimit(60)]
    pub fn cascade_open(&mut self)
        requires
            old(self).spec_wf(),
        ensures
            final(self).spec_wf(),
            final(self).same_dims(*old(self)),
            final(self).grid().len() == old(self).grid().len(),
            forall|r2: int|
                0 <= r2 < old(self).grid().len() ==> (#[trigger] final(self).grid()[r2]).len()
                    == old(self).grid()[r2].len(),
            forall|r2: int, c2: int|
                old(self).in_field(r2, c2) ==> (#[trigger] final(self).at(r2, c2)) == old(self).at(
                    r2,
                    c2,
                ) || final(self).at(r2, c2) == old(self).at(r2, c2).spec_force_open(),
            final(self).spec_fixpoint(),
            old(self).spec_fixpoint() ==> forall|r2: int, c2: int|
                old(self).in_field(r2, c2) ==> (#[trigger] final(self).at(r2, c2)) == old(self).at(
                    r2,
                    c2,
                ),
            old(self).spec_adjacency_ok() ==> final(self).spec_adjacency_ok(),
            old(self).spec_adjacency_ok() ==> forall|r2: int, c2: int|
                old(self).in_field(r2, c2) && (#[trigger] final(self).at(r2, c2)) != old(self).at(
                    r2,
                    c2,
                ) ==> !old(self).at(r2, c2).spec_is_bomb(),
    {
        let sy = self.size_y;
        let sx = self.size_x;
        proof {
            lemma_count_grid_nonneg(self.grid(), closed_pred());
        }
        let mut progress = true;
        while progress
            invariant
                self.spec_wf(),
                self.same_dims(*old(self)),
                self.grid().len() == old(self).grid().len(),
                forall|r2: int|
                    0 <= r2 < old(self).grid().len() ==> (#[trigger] self.grid()[r2]).len() == old(
                        self,
                    ).grid()[r2].len(),
                forall|r2: int, c2: int|
                    old(self).in_field(r2, c2) ==> (#[trigger] self.at(r2, c2)) == old(self).at(
                        r2,
                        c2,
                    ) || self.at(r2, c2) == old(self).at(r2, c2).spec_force_open(),
                old(self).spec_fixpoint() ==> forall|r2: int, c2: int|
                    old(self).in_field(r2, c2) ==> (#[trigger] self.at(r2, c2)) == old(self).at(
                        r2,
                        c2,
                    ),
                !progress ==> self.spec_fixpoint(),
                old(self).spec_adjacency_ok() ==> self.spec_adjacency_ok(),
                old(self).spec_adjacency_ok() ==> forall|r2: int, c2: int|
                    old(self).in_field(r2, c2) && (#[trigger] self.at(r2, c2)) != old(self).at(
                        r2,
                        c2,
                    ) ==> !old(self).at(r2, c2).spec_is_bomb(),
                0 <= self.closed_count(),
            decreases self.closed_count() + (if progress {
                1int
            } else {
                0int
            }),
        {
            let ghost g0 = *self;
            let mut changed = false;
            let mut row: usize = 1;
            while row <= sy
                invariant
                    1 <= row <= sy + 1,
                    self.spec_wf(),
                    self.same_dims(*old(self)),
                    self.grid().len() == old(self).grid().len(),
                    forall|r2: int|
                        0 <= r2 < old(self).grid().len() ==> (#[trigger] self.grid()[r2]).len()
                            == old(self).grid()[r2].len(),
                    forall|r2: int, c2: int|
                        g0.in_field(r2, c2) ==> (#[trigger] self.at(r2, c2)) == g0.at(r2, c2)
                            || self.at(r2, c2) == g0.at(r2, c2).spec_force_open(),
                    forall|r2: int, c2: int|
                        old(self).in_field(r2, c2) ==> (#[trigger] self.at(r2, c2)) == old(self).at(
                            r2,
                            c2,
                        ) || self.at(r2, c2) == old(self).at(r2, c2).spec_force_open(),
                    old(self).spec_fixpoint() ==> forall|r2: int, c2: int|
                        old(self).in_field(r2, c2) ==> (#[trigger] self.at(r2, c2)) == old(self).at(
                            r2,
                            c2,
                        ),
                    !changed ==> forall|r2: int, c2: int|
                        g0.in_field(r2, c2) ==> (#[trigger] self.at(r2, c2)) == g0.at(r2, c2),
                    !changed ==> forall|r2: int, c2: int|
                        self.in_interior(r2, c2) && r2 < row && (#[trigger] g0.at(
                            r2,
                            c2,
                        )).spec_is_blank() && g0.at(r2, c2).spec_is_open() && g0.at(
                            r2,
                            c2,
                        ).spec_value() == 0 ==> self.square_open(r2, c2),
                    self.closed_count() <= g0.closed_count(),
                    changed ==> self.closed_count() < g0.closed_count(),
                    old(self).spec_adjacency_ok() ==> self.spec_adjacency_ok(),
                    old(self).spec_adjacency_ok() ==> forall|r2: int, c2: int|
                        old(self).in_field(r2, c2) && (#[trigger] self.at(r2, c2)) != old(self).at(
                            r2,
                            c2,
                        ) ==> !old(self).at(r2, c2).spec_is_bomb(),
                decreases sy + 1 - row,
            {
                let mut col: usize = 1;
                while col <= sx
                    invariant
                        1 <= col <= sx + 1,
                        self.spec_wf(),
                        self.same_dims(*old(self)),
                        self.grid().len() == old(self).grid().len(),
                        forall|r2: int|
                            0 <= r2 < old(self).grid().len() ==> (#[trigger] self.grid()[r2]).len()
                                == old(self).grid()[r2].len(),
                        forall|r2: int, c2: int|
                            g0.in_field(r2, c2) ==> (#[trigger] self.at(r2, c2)) == g0.at(r2, c2)
                                || self.at(r2, c2) == g0.at(r2, c2).spec_force_open(),
                        forall|r2: int, c2: int|
                            old(self).in_field(r2, c2) ==> (#[trigger] self.at(r2, c2)) == old(
                                self,
                            ).at(r2, c2) || self.at(r2, c2) == old(self).at(
                                r2,
                                c2,
                            ).spec_force_open(),
                        old(self).spec_fixpoint() ==> forall|r2: int, c2: int|
                            old(self).in_field(r2, c2) ==> (#[trigger] self.at(r2, c2)) == old(
                                self,
                            ).at(r2, c2),
                        !changed ==> forall|r2: int, c2: int|
                            g0.in_field(r2, c2) ==> (#[trigger] self.at(r2, c2)) == g0.at(r2, c2),
                        !changed ==> forall|r2: int, c2: int|
                            self.in_interior(r2, c2) && r2 < row && (#[trigger] g0.at(
                                r2,
                                c2,
                            )).spec_is_blank() && g0.at(r2, c2).spec_is_open() && g0.at(
                                r2,
                                c2,
                            ).spec_value() == 0 ==> self.square_open(r2, c2),
                        !changed ==> forall|c2: int|
                            1 <= c2 < col && (#[trigger] g0.at(row as int, c2)).spec_is_blank()
                                && g0.at(row as int, c2).spec_is_open() && g0.at(
                                row as int,
                                c2,
                            ).spec_value() == 0 ==> self.square_open(row as int, c2),
                        self.closed_count() <= g0.closed_count(),
                        changed ==> self.closed_count() < g0.closed_count(),
                        old(self).spec_adjacency_ok() ==> self.spec_adjacency_ok(),
                        old(self).spec_adjacency_ok() ==> forall|r2: int, c2: int|
                            old(self).in_field(r2, c2) && (#[trigger] self.at(r2, c2)) != old(
                                self,
                            ).at(r2, c2) ==> !old(self).at(r2, c2).spec_is_bomb(),
                    decreases sx + 1 - col,
                {
                    proof {
                        assert(self.grid().len() == self.field_size_y);
                        assert(self.grid()[row as int].len() == self.field_size_x);
                    }
                    let p = self.panel_mat[row][col];
                    proof {
                        assert(p == self.at(row as int, col as int));
                    }
                    let mut zero_open_blank = false;
                    match p.get_open_state() {
                        OpenState::Close => {},
                        OpenState::Open => {
                            match p.get_bomb_value() {
                                Some(v) => {
                                    if v == 0 {
                                        zero_open_blank = true;
                                    }
                                },
                                None => {},
                            }
                        },
                    }
                    if zero_open_blank {
                        let ghost pre = *self;
                        let cnt = self.open_around(row, col);
                        if cnt > 0 {
                            changed = true;
                        }
                        proof {
                            assert forall|r2: int, c2: int| g0.in_field(r2, c2) implies (
                            #[trigger] self.at(r2, c2)) == g0.at(r2, c2) || self.at(r2, c2)
                                == g0.at(r2, c2).spec_force_open() by {
                                assert(pre.at(r2, c2) == g0.at(r2, c2) || pre.at(r2, c2) == g0.at(
                                    r2,
                                    c2,
                                ).spec_force_open());
                                assert(self.at(r2, c2) == pre.at(r2, c2) || self.at(r2, c2)
                                    == pre.at(r2, c2).spec_force_open());
                            }
                            assert forall|r2: int, c2: int| old(self).in_field(r2, c2) implies (
                            #[trigger] self.at(r2, c2)) == old(self).at(r2, c2) || self.at(r2, c2)
                                == old(self).at(r2, c2).spec_force_open() by {
                                assert(pre.at(r2, c2) == old(self).at(r2, c2) || pre.at(r2, c2)
                                    == old(self).at(r2, c2).spec_force_open());
                                assert(self.at(r2, c2) == pre.at(r2, c2) || self.at(r2, c2)
                                    == pre.at(r2, c2).spec_force_open());
                            }
                            if old(self).spec_adjacency_ok() {
                                assert forall|r2: int, c2: int|
                                    old(self).in_field(r2, c2) && (#[trigger] self.at(r2, c2))
                                        != old(self).at(r2, c2) implies !old(self).at(
                                    r2,
                                    c2,
                                ).spec_is_bomb() by {
                                    assert(old(self).at(r2, c2).spec_is_bomb() == pre.at(
                                        r2,
                                        c2,
                                    ).spec_is_bomb());
                                    if self.at(r2, c2) != pre.at(r2, c2) {
                                        assert(row - 1 <= r2 <= row + 1 && col - 1 <= c2 <= col
                                            + 1);
                                        lemma_zero_square_has_no_bomb(
                                            pre,
                                            row as int,
                                            col as int,
                                            r2,
                                            c2,
                                        );
                                    }
                                }
                            }
                            if old(self).spec_fixpoint() {
                                assert(pre.at(row as int, col as int) == old(self).at(
                                    row as int,
                                    col as int,
                                ));
                                assert(old(self).square_open(row as int, col as int));
                                assert forall|r2: int, c2: int|
                                    old(self).in_field(r2, c2) implies (#[trigger] self.at(r2, c2))
                                    == old(self).at(r2, c2) by {
                                    if row - 1 <= r2 <= row + 1 && col - 1 <= c2 <= col + 1 {
                                        assert(pre.at(r2, c2) == old(self).at(r2, c2));
                                        assert(old(self).at(r2, c2).spec_is_open());
                                        assert(self.at(r2, c2) == pre.at(
                                            r2,
                                            c2,
                                        ).spec_force_open());
                                    } else {
                                        assert(self.at(r2, c2) == pre.at(r2, c2));
                                    }
                                }
                            }
                            if !changed {
                                assert forall|r2: int, c2: int|
                                    g0.in_field(r2, c2) implies (#[trigger] self.at(r2, c2))
                                    == g0.at(r2, c2) by {
                                    assert(self.at(r2, c2) == pre.at(r2, c2));
                                }
                                assert forall|c2: int|
                                    1 <= c2 <= col && (#[trigger] g0.at(
                                        row as int,
                                        c2,
                                    )).spec_is_blank() && g0.at(row as int, c2).spec_is_open()
                                        && g0.at(row as int, c2).spec_value() == 0 implies
                                    self.square_open(row as int, c2) by {
                                    if c2 == col {
                                        assert forall|i: int, j: int|
                                            row - 1 <= i <= row + 1 && col - 1 <= j <= col
                                                + 1 implies (#[trigger] self.at(
                                                i,
                                                j,
                                            )).spec_is_open() by {
                                            assert(old(self).in_field(i, j));
                                            assert(self.at(i, j) == pre.at(
                                                i,
                                                j,
                                            ).spec_force_open());
                                        }
                                    } else {
                                        assert(pre.square_open(row as int, c2));
                                        assert forall|i: int, j: int|
                                            row - 1 <= i <= row + 1 && c2 - 1 <= j <= c2
                                                + 1 implies (#[trigger] self.at(
                                                i,
                                                j,
                                            )).spec_is_open() by {
                                            assert(pre.at(i, j).spec_is_open());
                                            assert(self.at(i, j) == pre.at(i, j));
                                        }
                                    }
                                }
                                assert forall|r2: int, c2: int|
                                    self.in_interior(r2, c2) && r2 < row && (#[trigger] g0.at(
                                        r2,
                                        c2,
                                    )).spec_is_blank() && g0.at(r2, c2).spec_is_open() && g0.at(
                                        r2,
                                        c2,
                                    ).spec_value() == 0 implies self.square_open(r2, c2) by {
                                    assert(pre.square_open(r2, c2));
                                    assert forall|i: int, j: int|
                                        r2 - 1 <= i <= r2 + 1 && c2 - 1 <= j <= c2 + 1 implies (
                                    #[trigger] self.at(i, j)).spec_is_open() by {
                                        assert(pre.at(i, j).spec_is_open());
                                        assert(self.at(i, j) == pre.at(i, j));
                                    }
                                }
                            }
                        }
                    } else {
                        proof {
                            if !changed {
                                assert forall|c2: int|
                                    1 <= c2 <= col && (#[trigger] g0.at(
                                        row as int,
                                        c2,
                                    )).spec_is_blank() && g0.at(row as int, c2).spec_is_open()
                                        && g0.at(row as int, c2).spec_value() == 0 implies
                                    self.square_open(row as int, c2) by {
                                    if c2 == col {
                                        assert(self.at(row as int, col as int) == g0.at(
                                            row as int,
                                            col as int,
                                        ));
                                        assert(false);
                                    }
                                }
                            }
                        }
                    }
                    col += 1;
                }
                row += 1;
            }
            progress = changed;
            proof {
                lemma_count_grid_nonneg(self.grid(), closed_pred());
                if !changed {
                    assert forall|r2: int, c2: int|
                        self.in_interior(r2, c2) && (#[trigger] self.at(r2, c2)).spec_is_blank()
                            && self.at(r2, c2).spec_is_open() && self.at(r2, c2).spec_value() == 0
                             implies self.square_open(r2, c2) by {
                        assert(self.at(r2, c2) == g0.at(r2, c2));
                    }
                }
            }
        }
    }

    /// Uncovers every bomb panel, flags notwithstanding; used on a loss to
    /// show where the bombs were.
    #[verifier::loop_isolation(false)]
    pub fn open_bombs(&mut self)
        requires
            old(self).spec_wf(),
        ensures
            final(self).spec_wf(),
            final(self).same_dims(*old(self)),
            final(self).grid().len() == old(self).grid().len(),
            forall|r2: int|
                0 <= r2 < old(self).grid().len() ==> (#[trigger] final(self).grid()[r2]).len()
                    == old(self).grid()[r2].len(),
            forall|r2: int, c2: int|
                old(self).in_field(r2, c2) ==> (#[trigger] final(self).at(r2, c2)) == (if old(
                    self,
                ).at(r2, c2).spec_is_bomb() {
                    old(self).at(r2, c2).spec_force_open()
                } else {
                    old(self).at(r2, c2)
                }),
            old(self).spec_adjacency_ok() ==> final(self).spec_adjacency_ok(),
    {
        let fy = self.field_size_y;
        let fx = self.field_size_x;
        let mut row: usize = 0;
        while row < fy
            invariant
                row <= fy,
                self.spec_wf(),
                self.same_dims(*old(self)),
                self.grid().len() == old(self).grid().len(),
                forall|r2: int|
                    0 <= r2 < old(self).grid().len() ==> (#[trigger] self.grid()[r2]).len() == old(
                        self,
                    ).grid()[r2].len(),
                forall|r2: int, c2: int|
                    old(self).in_field(r2, c2) && r2 >= row ==> (#[trigger] self.at(r2, c2)) == old(
                        self,
                    ).at(r2, c2),
                forall|r2: int, c2: int|
                    old(self).in_field(r2, c2) && r2 < row ==> (#[trigger] self.at(r2, c2)) == (
                    if old(self).at(r2, c2).spec_is_bomb() {
                        old(self).at(r2, c2).spec_force_open()
                    } else {
                        old(self).at(r2, c2)
                    }),
            decreases fy - row,
        {
            let mut col: usize = 0;
            while col < fx
                invariant
                    col <= fx,
                    self.spec_wf(),
                    self.same_dims(*old(self)),
                    self.grid().len() == old(self).grid().len(),
                    forall|r2: int|
                        0 <= r2 < old(self).grid().len() ==> (#[trigger] self.grid()[r2]).len()
                            == old(self).grid()[r2].len(),
                    forall|r2: int, c2: int|
                        old(self).in_field(r2, c2) && (r2 > row || (r2 == row && c2 >= col)) ==> (
                        #[trigger] self.at(r2, c2)) == old(self).at(r2, c2),
                    forall|r2: int, c2: int|
                        old(self).in_field(r2, c2) && (r2 < row || (r2 == row && c2 < col)) ==> (
                        #[trigger] self.at(r2, c2)) == (if old(self).at(r2, c2).spec_is_bomb() {
                            old(self).at(r2, c2).spec_force_open()
                        } else {
                            old(self).at(r2, c2)
                        }),
                decreases fx - col,
            {
                if self.bomb_at(row, col) {
                    self.force_open_at(row, col);
                }
                col += 1;
            }
            row += 1;
        }
    }
}

/// Around an interior blank panel whose adjacency count is zero and correct,
/// no panel of the 3x3 square is a bomb: the neighbors by the count, the
/// centre because it is blank.
proof fn lemma_zero_square_has_no_bomb(b: GameBoard, r: int, c: int, i: int, j: int)
    requires
        b.in_interior(r, c),
        b.at(r, c).spec_is_blank(),
        b.at(r, c).spec_value() == 0,
        b.at(r, c).spec_value() == b.neighbor_bombs(r, c),
        r - 1 <= i <= r + 1,
        c - 1 <= j <= c + 1,
    ensures
        !b.at(i, j).spec_is_bomb(),
{
    assert(b.neighbor_bombs(r, c) == 0);
}

/// On a well-formed board every bomb panel sits on a playable position:
/// the sentinel frame holds no bombs, so `total_bombs` counts interior
/// bombs exactly.
pub proof fn lemma_bombs_interior(b: GameBoard)
    requires
        b.spec_wf(),
    ensures
        forall|r: int, c: int|
            b.in_field(r, c) && (#[trigger] b.at(r, c)).spec_is_bomb() ==> b.in_interior(r, c),
{
}

/// The two panels are of the same kind and carry the same adjacency count;
/// open and flag state may differ.
pub open spec fn kind_val_eq(p: Panel, q: Panel) -> bool {
    &&& q.spec_is_bomb() == p.spec_is_bomb()
    &&& q.spec_is_blank() == p.spec_is_blank()
    &&& q.spec_value() == p.spec_value()
}

/// Adjacency correctness only depends on where the bombs are and what the
/// blank panels store, so it survives any change of open and flag state.
proof fn lemma_adjacency_preserved(a: GameBoard, b: GameBoard)
    requires
        a.spec_wf(),
        b.same_dims(a),
        b.grid().len() == a.grid().len(),
        forall|r: int|
            0 <= r < a.grid().len() ==> (#[trigger] b.grid()[r]).len() == a.grid()[r].len(),
        forall|r: int, c: int|
            a.in_field(r, c) ==> kind_val_eq(a.at(r, c), #[trigger] b.at(r, c)),
        a.spec_adjacency_ok(),
    ensures
        b.spec_adjacency_ok(),
{
    assert forall|r: int, c: int|
        b.in_interior(r, c) && (#[trigger] b.at(r, c)).spec_is_blank() implies b.at(
        r,
        c,
    ).spec_value() == b.neighbor_bombs(r, c) by {
        assert(kind_val_eq(a.at(r, c), b.at(r, c)));
        assert(kind_val_eq(a.at(r - 1, c - 1), b.at(r - 1, c - 1)));
        assert(kind_val_eq(a.at(r - 1, c), b.at(r - 1, c)));
        assert(kind_val_eq(a.at(r - 1, c + 1), b.at(r - 1, c + 1)));
        assert(kind_val_eq(a.at(r, c - 1), b.at(r, c - 1)));
        assert(kind_val_eq(a.at(r, c + 1), b.at(r, c + 1)));
        assert(kind_val_eq(a.at(r + 1, c - 1), b.at(r + 1, c - 1)));
        assert(kind_val_eq(a.at(r + 1, c), b.at(r + 1, c)));
        assert(kind_val_eq(a.at(r + 1, c + 1), b.at(r + 1, c + 1)));
    }
}

/// The two panels are of the same kind and have the same open and flag
/// state; only a blank panel's stored adjacency count may differ.
pub open spec fn shape_eq(p: Panel, q: Panel) -> bool {
    &&& q.spec_is_blank() == p.spec_is_blank()
    &&& q.spec_is_bomb() == p.spec_is_bomb()
    &&& q.spec_is_boarder() == p.spec_is_boarder()
    &&& q.spec_is_open() == p.spec_is_open()
    &&& q.spec_is_flagged() == p.spec_is_flagged()
}

impl GameBoard {
    /// Stores into the blank panel at `(y, x)` the number of bombs among its
    /// 8 neighbors, all of which exist thanks to the sentinel frame.
    fn calc_bomb_value(&mut self, y: usize, x: usize)
        requires
            old(self).spec_wf(),
            old(self).in_interior(y as int, x as int),
            old(self).at(y as int, x as int).spec_is_blank(),
        ensures
            final(self).spec_wf(),
            final(self).same_dims(*old(self)),
            final(self).grid().len() == old(self).grid().len(),
            forall|r: int|
                0 <= r < old(self).grid().len() ==> (#[trigger] final(self).grid()[r]).len() == old(
                    self,
                ).grid()[r].len(),
            forall|r: int, c: int|
                old(self).in_field(r, c) && !(r == y && c == x) ==> (#[trigger] final(self).at(
                    r,
                    c,
                )) == old(self).at(r, c),
            final(self).at(y as int, x as int) == Panel::Blank(
                BlankPanel {
                    open_state: old(self).at(y as int, x as int)->Blank_0.open_state,
                    flag_state: old(self).at(y as int, x as int)->Blank_0.flag_state,
                    bomb_value: old(self).neighbor_bombs(y as int, x as int) as u8,
                },
            ),
            old(self).neighbor_bombs(y as int, x as int) <= 8,
    {
        let mut counter: u8 = 0;
        if self.bomb_at(y - 1, x - 1) {
            counter += 1;
        }
        if self.bomb_at(y - 1, x) {
            counter += 1;
        }
        if self.bomb_at(y - 1, x + 1) {
            counter += 1;
        }
        if self.bomb_at(y, x - 1) {
            counter += 1;
        }
        if self.bomb_at(y, x + 1) {
            counter += 1;
        }
        if self.bomb_at(y + 1, x - 1) {
            counter += 1;
        }
        if self.bomb_at(y + 1, x) {
            counter += 1;
        }
        if self.bomb_at(y + 1, x + 1) {
            counter += 1;
        }
        let mut p = self.panel_mat[y][x];
        p.set_bomb_value(counter);
        self.set_panel(y, x, p);
    }

    /// Fills in the adjacency count of every interior blank panel by one
    /// pass over the interior.
    #[verifier::loop_isolation(false)]
    fn calc_bomb_value_all(&mut self)
        requires
            old(self).spec_wf(),
        ensures
            final(self).spec_wf(),
            final(self).spec_adjacency_ok(),
            final(self).same_dims(*old(self)),
            final(self).grid().len() == old(self).grid().len(),
            forall|r: int|
                0 <= r < old(self).grid().len() ==> (#[trigger] final(self).grid()[r]).len() == old(
                    self,
                ).grid()[r].len(),
            forall|r: int, c: int|
                old(self).in_field(r, c) ==> shape_eq(
                    old(self).at(r, c),
                    #[trigger] final(self).at(r, c),
                ),
            forall|r: int, c: int|
                old(self).in_field(r, c) && !old(self).at(r, c).spec_is_blank() ==> (
                #[trigger] final(self).at(r, c)) == old(self).at(r, c),
    {
        let sy = self.size_y;
        let sx = self.size_x;
        let mut row: usize = 1;
        while row <= sy
            invariant
                1 <= row <= sy + 1,
                self.spec_wf(),
                self.same_dims(*old(self)),
                self.grid().len() == old(self).grid().len(),
                forall|r: int|
                    0 <= r < old(self).grid().len() ==> (#[trigger] self.grid()[r]).len() == old(
                        self,
                    ).grid()[r].len(),
                forall|r: int, c: int|
                    old(self).in_field(r, c) ==> shape_eq(
                        old(self).at(r, c),
                        #[trigger] self.at(r, c),
                    ),
                forall|r: int, c: int|
                    old(self).in_field(r, c) && !old(self).at(r, c).spec_is_blank() ==> (
                    #[trigger] self.at(r, c)) == old(self).at(r, c),
                forall|r: int, c: int|
                    self.in_interior(r, c) && r < row && (#[trigger] self.at(r, c)).spec_is_blank()
                        ==> self.at(r, c).spec_value() == self.neighbor_bombs(r, c),
            decreases sy + 1 - row,
        {
            let mut col: usize = 1;
            while col <= sx
                invariant
                    1 <= col <= sx + 1,
                    self.spec_wf(),
                    self.same_dims(*old(self)),
                    self.grid().len() == old(self).grid().len(),
                    forall|r: int|
                        0 <= r < old(self).grid().len() ==> (#[trigger] self.grid()[r]).len()
                            == old(self).grid()[r].len(),
                    forall|r: int, c: int|
                        old(self).in_field(r, c) ==> shape_eq(
                            old(self).at(r, c),
                            #[trigger] self.at(r, c),
                        ),
                    forall|r: int, c: int|
                        old(self).in_field(r, c) && !old(self).at(r, c).spec_is_blank() ==> (
                        #[trigger] self.at(r, c)) == old(self).at(r, c),
                    forall|r: int, c: int|
                        self.in_interior(r, c) && r < row && (#[trigger] self.at(
                            r,
                            c,
                        )).spec_is_blank() ==> self.at(r, c).spec_value() == self.neighbor_bombs(
                            r,
                            c,
                        ),
                    forall|c2: int|
                        1 <= c2 < col && (#[trigger] self.at(row as int, c2)).spec_is_blank()
                            ==> self.at(row as int, c2).spec_value() == self.neighbor_bombs(
                            row as int,
                            c2,
                        ),
                decreases sx + 1 - col,
            {
                if !self.bomb_at(row, col) {
                    self.calc_bomb_value(row, col);
                }
                col += 1;
            }
            row += 1;
        }
    }

    /// Builds a fresh game: the sentinel frame, `num_bomb` bombs on distinct
    /// interior cells drawn uniformly at random, and every blank panel's
    /// adjacency count; every interior panel starts covered and unflagged.
    pub fn new(&mut self, y: usize, x: usize, num_bomb: usize)
        requires
            1 <= y,
            y <= usize::MAX - 2,
            1 <= x,
            x <= usize::MAX - 2,
            (num_bomb as int) < (y as int) * (x as int),
        ensures
            final(self).inv(),
            final(self).size_y == y,
            final(self).size_x == x,
            final(self).field_size_y == y + 2,
            final(self).field_size_x == x + 2,
            final(self).total_bombs() == num_bomb as int,
            forall|r: int, c: int|
                final(self).in_interior(r, c) ==> !(#[trigger] final(self).at(r, c)).spec_is_open()
                    && !final(self).at(r, c).spec_is_flagged(),
    {
        self.init_field(y, x);
        self.set_bomb(num_bomb);
        let ghost placed = *self;
        self.calc_bomb_value_all();
        proof {
            assert forall|r: int, i: int|
                0 <= r < placed.grid().len() && 0 <= i < placed.grid()[r].len() implies bomb_pred()(
                placed.grid()[r][i],
            ) == bomb_pred()(#[trigger] self.grid()[r][i]) by {
                assert(placed.in_field(r, i));
                assert(shape_eq(placed.at(r, i), self.at(r, i)));
            }
            lemma_count_grid_pointwise(placed.grid(), self.grid(), bomb_pred());
        }
    }
}

} // verus!
