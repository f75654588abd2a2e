//! The cell ("panel") model: one grid position's kind, reveal state and flag
//! state, with the state transitions and the rendering symbol.

use vstd::prelude::*;

verus! {

/// Whether a panel has been uncovered by the player.
#[derive(Clone, Copy, PartialEq, Eq, Structural, Debug)]
pub enum OpenState {
    Open,
    Close,
}

/// The outcome of an open attempt: safe, or a detonated bomb.
#[derive(Clone, Copy, PartialEq, Eq, Structural, Debug)]
pub enum OpenResult {
    Safe,
    Bomb,
}

/// Whether the player has put a marker on the panel.
#[derive(Clone, Copy, PartialEq, Eq, Structural, Debug)]
pub enum FlagState {
    Flag,
    NoFlag,
}

/// A panel hiding a bomb.
#[derive(Clone, Copy, PartialEq, Eq, Structural, Debug)]
pub struct BombPanel {
    pub open_state: OpenState,
    pub flag_state: FlagState,
}

/// A safe panel; `bomb_value` is the number of bombs among its 8 neighbors,
/// filled in once by the board after bomb placement.
#[derive(Clone, Copy, PartialEq, Eq, Structural, Debug)]
pub struct BlankPanel {
    pub open_state: OpenState,
    pub flag_state: FlagState,
    pub bomb_value: u8,
}

/// An inert sentinel panel forming the one-cell frame around the playable
/// grid; always treated as open, never flagged.
#[derive(Clone, Copy, PartialEq, Eq, Structural, Debug)]
pub struct BoarderPanel {}

/// One grid position: a safe panel, a bomb, or a border sentinel.
#[derive(Clone, Copy, PartialEq, Eq, Structural, Debug)]
pub enum Panel {
    Blank(BlankPanel),
    Bomb(BombPanel),
    Boarder(BoarderPanel),
}

pub open spec fn spec_flip(f: FlagState) -> FlagState {
    if f == FlagState::Flag {
        FlagState::NoFlag
    } else {
        FlagState::Flag
    }
}

/// The digit symbol for an adjacency count: a space for zero.
pub open spec fn spec_digit(v: int) -> char {
    if v == 0 {
        ' '
    } else if v == 1 {
        '1'
    } else if v == 2 {
        '2'
    } else if v == 3 {
        '3'
    } else if v == 4 {
        '4'
    } else if v == 5 {
        '5'
    } else if v == 6 {
        '6'
    } else if v == 7 {
        '7'
    } else {
        '8'
    }
}

impl Panel {
    pub open spec fn spec_is_bomb(self) -> bool {
        match self {
            Panel::Bomb(_) => true,
            _ => false,
        }
    }

    pub open spec fn spec_is_blank(self) -> bool {
        match self {
            Panel::Blank(_) => true,
            _ => false,
        }
    }

    pub open spec fn spec_is_boarder(self) -> bool {
        match self {
            Panel::Boarder(_) => true,
            _ => false,
        }
    }

    /// Border sentinels count as open; other panels go by their open state.
    pub open spec fn spec_is_open(self) -> bool {
        match self {
            Panel::Boarder(_) => true,
            Panel::Bomb(b) => b.open_state == OpenState::Open,
            Panel::Blank(b) => b.open_state == OpenState::Open,
        }
    }

    /// Border sentinels never carry a flag.
    pub open spec fn spec_is_flagged(self) -> bool {
        match self {
            Panel::Boarder(_) => false,
            Panel::Bomb(b) => b.flag_state == FlagState::Flag,
            Panel::Blank(b) => b.flag_state == FlagState::Flag,
        }
    }

    /// The adjacency count of a blank panel; zero for the other kinds.
    pub open spec fn spec_value(self) -> int {
        match self {
            Panel::Blank(b) => b.bomb_value as int,
            _ => 0,
        }
    }

    pub open spec fn spec_value_opt(self) -> Option<u8> {
        match self {
            Panel::Blank(b) => Some(b.bomb_value),
            _ => None,
        }
    }

    /// A stored adjacency count is meaningful only between 0 and 8.
    pub open spec fn spec_wf(self) -> bool {
        self.spec_value() <= 8
    }

    /// Flipping the flag: a no-op on border sentinels.
    pub open spec fn spec_toggle_flag(self) -> Panel {
        match self {
            Panel::Boarder(b) => Panel::Boarder(b),
            Panel::Bomb(b) => Panel::Bomb(
                BombPanel { open_state: b.open_state, flag_state: spec_flip(b.flag_state) },
            ),
            Panel::Blank(b) => Panel::Blank(
                BlankPanel {
                    open_state: b.open_state,
                    flag_state: spec_flip(b.flag_state),
                    bomb_value: b.bomb_value,
                },
            ),
        }
    }

    /// Uncovering regardless of the flag: border sentinels stay as they are.
    pub open spec fn spec_force_open(self) -> Panel {
        match self {
            Panel::Boarder(b) => Panel::Boarder(b),
            Panel::Bomb(b) => Panel::Bomb(
                BombPanel { open_state: OpenState::Open, flag_state: b.flag_state },
            ),
            Panel::Blank(b) => Panel::Blank(
                BlankPanel {
                    open_state: OpenState::Open,
                    flag_state: b.flag_state,
                    bomb_value: b.bomb_value,
                },
            ),
        }
    }

    /// A player's open attempt: a flagged panel is protected and unchanged;
    /// otherwise the panel is uncovered and a bomb detonates.
    pub open spec fn spec_open(self) -> (Panel, OpenResult) {
        if self.spec_is_flagged() {
            (self, OpenResult::Safe)
        } else {
            (
                self.spec_force_open(),
                if self.spec_is_bomb() {
                    OpenResult::Bomb
                } else {
                    OpenResult::Safe
                },
            )
        }
    }

    /// The rendering symbol: the flag wins over everything, a covered panel
    /// shows `#`, a border `=`, an open bomb `B`, an open blank its count.
    pub open spec fn spec_symbol(self) -> char {
        if self.spec_is_flagged() {
            'F'
        } else {
            match self {
                Panel::Boarder(_) => '=',
                Panel::Bomb(b) => if b.open_state == OpenState::Open {
                    'B'
                } else {
                    '#'
                },
                Panel::Blank(b) => if b.open_state == OpenState::Close {
                    '#'
                } else {
                    spec_digit(b.bomb_value as int)
                },
            }
        }
    }

    pub fn is_bomb(&self) -> (r: bool)
        ensures
            r == self.spec_is_bomb(),
    {
        match self {
            Panel::Bomb(_) => true,
            _ => false,
        }
    }

    pub fn is_blank(&self) -> (r: bool)
        ensures
            r == self.spec_is_blank(),
    {
        match self {
            Panel::Blank(_) => true,
            _ => false,
        }
    }

    pub fn get_open_state(&self) -> (r: OpenState)
        ensures
            (r == OpenState::Open) == self.spec_is_open(),
    {
        match self {
            Panel::Boarder(_) => OpenState::Open,
            Panel::Bomb(b) => b.open_state,
            Panel::Blank(b) => b.open_state,
        }
    }

    pub fn get_flag_state(&self) -> (r: FlagState)
        ensures
            (r == FlagState::Flag) == self.spec_is_flagged(),
    {
        match self {
            Panel::Boarder(_) => FlagState::NoFlag,
            Panel::Bomb(b) => b.flag_state,
            Panel::Blank(b) => b.flag_state,
        }
    }

    pub fn get_bomb_value(&self) -> (r: Option<u8>)
        ensures
            r == self.spec_value_opt(),
    {
        match self {
            Panel::Blank(b) => Some(b.bomb_value),
            _ => None,
        }
    }

    /// Stores an adjacency count; only blank panels carry one.
    pub fn set_bomb_value(&mut self, v: u8)
        ensures
            old(self).spec_is_blank() ==> *final(self) == Panel::Blank(
                BlankPanel {
                    open_state: old(self)->Blank_0.open_state,
                    flag_state: old(self)->Blank_0.flag_state,
                    bomb_value: v,
                },
            ),
            !old(self).spec_is_blank() ==> *final(self) == *old(self),
    {
        match self {
            Panel::Blank(b) => {
                b.bomb_value = v;
            },
            _ => {},
        }
    }

    /// Flips the flag unless the panel is a border sentinel.
    pub fn flag(&mut self)
        ensures
            *final(self) == old(self).spec_toggle_flag(),
    {
        match self {
            Panel::Boarder(_) => {},
            Panel::Bomb(b) => {
                b.flag_state = match b.flag_state {
                    FlagState::Flag => FlagState::NoFlag,
                    FlagState::NoFlag => FlagState::Flag,
                };
            },
            Panel::Blank(b) => {
                b.flag_state = match b.flag_state {
                    FlagState::Flag => FlagState::NoFlag,
                    FlagState::NoFlag => FlagState::Flag,
                };
            },
        }
    }

    /// A player's open attempt, respecting the flag.
    pub fn open(&mut self) -> (r: OpenResult)
        ensures
            (*final(self), r) == old(self).spec_open(),
    {
        match self {
            Panel::Boarder(_) => OpenResult::Safe,
            Panel::Bomb(b) => {
                match b.flag_state {
                    FlagState::Flag => OpenResult::Safe,
                    FlagState::NoFlag => {
                        b.open_state = OpenState::Open;
                        OpenResult::Bomb
                    },
                }
            },
            Panel::Blank(b) => {
                match b.flag_state {
                    FlagState::Flag => OpenResult::Safe,
                    FlagState::NoFlag => {
                        b.open_state = OpenState::Open;
                        OpenResult::Safe
                    },
                }
            },
        }
    }

    /// Uncovers the panel whatever its flag; used by the cascade and by the
    /// end-of-game bomb display.
    pub fn force_open(&mut self)
        ensures
            *final(self) == old(self).spec_force_open(),
    {
        match self {
            Panel::Boarder(_) => {},
            Panel::Bomb(b) => {
                b.open_state = OpenState::Open;
            },
            Panel::Blank(b) => {
                b.open_state = OpenState::Open;
            },
        }
    }

    /// The rendering symbol of this panel.
    pub fn to_str(&self) -> (r: char)
        requires
            self.spec_wf(),
        ensures
            r == self.spec_symbol(),
    {
        match self {
            Panel::Boarder(_) => '=',
            Panel::Bomb(b) => {
                match b.flag_state {
                    FlagState::Flag => 'F',
                    FlagState::NoFlag => match b.open_state {
                        OpenState::Open => 'B',
                        OpenState::Close => '#',
                    },
                }
            },
            Panel::Blank(b) => {
                match b.flag_state {
                    FlagState::Flag => 'F',
                    FlagState::NoFlag => match b.open_state {
                        OpenState::Close => '#',
                        OpenState::Open => digit_char(b.bomb_value),
                    },
                }
            },
        }
    }
}

/// The digit symbol for an adjacency count.
fn digit_char(v: u8) -> (r: char)
    requires
        v <= 8,
    ensures
        r == spec_digit(v as int),
{
    if v == 0 {
        ' '
    } else if v == 1 {
        '1'
    } else if v == 2 {
        '2'
    } else if v == 3 {
        '3'
    } else if v == 4 {
        '4'
    } else if v == 5 {
        '5'
    } else if v == 6 {
        '6'
    } else if v == 7 {
        '7'
    } else {
        '8'
    }
}

/// A fresh covered, unflagged bomb panel.
pub fn new_bomb_panel() -> (r: BombPanel)
    ensures
        r.open_state == OpenState::Close,
        r.flag_state == FlagState::NoFlag,
{
    BombPanel { open_state: OpenState::Close, flag_state: FlagState::NoFlag }
}

/// A fresh covered, unflagged blank panel with adjacency count zero.
pub fn new_blank_panel() -> (r: BlankPanel)
    ensures
        r.open_state == OpenState::Close,
        r.flag_state == FlagState::NoFlag,
        r.bomb_value == 0,
{
    BlankPanel { open_state: OpenState::Close, flag_state: FlagState::NoFlag, bomb_value: 0 }
}

/// A fresh border sentinel panel.
pub fn new_boarder_panel() -> (r: BoarderPanel)
    ensures
        r == (BoarderPanel {  }),
{
    BoarderPanel {  }
}

/// Flagging a covered, unflagged, non-border panel and then attempting to
/// open it returns `Safe` and leaves the panel covered: the flag protects it.
pub proof fn lemma_flag_protects_from_open(p: Panel)
    requires
        !p.spec_is_open(),
        !p.spec_is_flagged(),
        !p.spec_is_boarder(),
    ensures
        ({
            let flagged = p.spec_toggle_flag();
            let (after, r) = flagged.spec_open();
            r == OpenResult::Safe && !after.spec_is_open() && after == flagged
        }),
{
}

/// Opening an unflagged bomb panel detonates it: the result is `Bomb` and the
/// panel is uncovered.
pub proof fn lemma_bomb_open_detonates(p: Panel)
    requires
        p.spec_is_bomb(),
        !p.spec_is_flagged(),
    ensures
        ({
            let (after, r) = p.spec_open();
            r == OpenResult::Bomb && after.spec_is_open()
        }),
{
}

} // verus!
