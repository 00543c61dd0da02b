//! The agent ("snake"): a head position, a facing direction, an ordered body
//! of trailing segments, a deferred-growth counter, and a liveness flag.

use vstd::prelude::*;
use vstd::pervasive::VecAdditionalExecFns;
use crate::data::Direction;

verus! {

/// Mathematical model of a [`Snake`]: the same fields over unbounded
/// integers, so that transitions compose in specifications.
#[verifier::ext_equal]
pub struct SnakeModel {
    pub position: (int, int),
    pub direction: Direction,
    pub tails: Seq<(int, int)>,
    pub needs_add: nat,
    pub alive: bool,
}

/// The agent. `tails` is in head-to-tail order; its length is the "length"
/// value the language exposes. `needs_add` counts growth requested while the
/// body was empty, materialized at the start of the next movement.
pub struct Snake {
    pub position: (usize, usize),
    pub direction: Direction,
    pub tails: Vec<(usize, usize)>,
    pub needs_add: usize,
    pub alive: bool,
}

/// The pair of coordinates as unbounded integers.
pub open spec fn pos_model(p: (usize, usize)) -> (int, int) {
    (p.0 as int, p.1 as int)
}

impl View for Snake {
    type V = SnakeModel;

    open spec fn view(&self) -> SnakeModel {
        SnakeModel {
            position: pos_model(self.position),
            direction: self.direction,
            tails: self.tails@.map_values(|t: (usize, usize)| pos_model(t)),
            needs_add: self.needs_add as nat,
            alive: self.alive,
        }
    }
}

/// Deferred growth made real: each pending unit becomes a segment at the
/// current head position, and the counter resets.
pub open spec fn materialize_model(s: SnakeModel) -> SnakeModel {
    SnakeModel {
        tails: s.tails + Seq::new(s.needs_add, |i: int| s.position),
        needs_add: 0,
        ..s
    }
}

/// The head-adjacent segment takes the head's pre-move position; segments
/// past the first stay where they are.
pub open spec fn follow_model(s: SnakeModel) -> SnakeModel {
    if s.tails.len() >= 1 {
        SnakeModel { tails: s.tails.update(0, s.position), ..s }
    } else {
        s
    }
}

/// The head advanced one cell. Stepping above the top row or left of the
/// first column kills the agent instead of moving it.
pub open spec fn advance_model(s: SnakeModel) -> SnakeModel {
    match s.direction {
        Direction::Up => if s.position.1 == 0 {
            SnakeModel { alive: false, ..s }
        } else {
            SnakeModel { position: (s.position.0, s.position.1 - 1), ..s }
        },
        Direction::Right => SnakeModel { position: (s.position.0 + 1, s.position.1), ..s },
        Direction::Down => SnakeModel { position: (s.position.0, s.position.1 + 1), ..s },
        Direction::Left => if s.position.0 == 0 {
            SnakeModel { alive: false, ..s }
        } else {
            SnakeModel { position: (s.position.0 - 1, s.position.1), ..s }
        },
    }
}

/// One whole movement: materialize pending growth, let the first segment
/// follow the head, then advance the head.
pub open spec fn shift_model(s: SnakeModel) -> SnakeModel {
    advance_model(follow_model(materialize_model(s)))
}

/// One unit of growth: duplicate the last segment, or defer when the body is
/// empty.
pub open spec fn add_tail_model(s: SnakeModel) -> SnakeModel {
    if s.tails.len() >= 1 {
        SnakeModel { tails: s.tails.push(s.tails.last()), ..s }
    } else {
        SnakeModel { needs_add: s.needs_add + 1, ..s }
    }
}

/// One unit of shrinkage from the tail end; a no-op on an empty body.
pub open spec fn remove_tail_model(s: SnakeModel) -> SnakeModel {
    if s.tails.len() >= 1 {
        SnakeModel { tails: s.tails.drop_last(), ..s }
    } else {
        s
    }
}

/// `amount` repetitions of [`add_tail_model`].
pub open spec fn increase_model(s: SnakeModel, amount: nat) -> SnakeModel {
    if s.tails.len() >= 1 {
        SnakeModel { tails: s.tails + Seq::new(amount, |i: int| s.tails.last()), ..s }
    } else {
        SnakeModel { needs_add: s.needs_add + amount, ..s }
    }
}

/// `amount` repetitions of [`remove_tail_model`]: the length floors at zero.
pub open spec fn decrease_model(s: SnakeModel, amount: nat) -> SnakeModel {
    if s.tails.len() >= amount {
        SnakeModel { tails: s.tails.take(s.tails.len() - amount), ..s }
    } else {
        SnakeModel { tails: Seq::empty(), ..s }
    }
}

/// Shrink to `amount` segments, or grow to it: immediately when the body is
/// non-empty, deferred when it is empty.
pub open spec fn set_length_model(s: SnakeModel, amount: nat) -> SnakeModel {
    if s.tails.len() >= amount {
        SnakeModel { tails: s.tails.take(amount as int), ..s }
    } else if s.tails.len() >= 1 {
        SnakeModel {
            tails: s.tails + Seq::new((amount - s.tails.len()) as nat, |i: int| s.tails.last()),
            ..s
        }
    } else {
        SnakeModel { needs_add: s.needs_add + amount, ..s }
    }
}

impl Snake {
    /// A snake at the origin: facing up, empty body, no pending growth, alive.
    pub fn default() -> (s: Snake)
        ensures
            s@ == Snake::initial_model(0, 0),
    {
        Snake::new(0, 0)
    }

    /// The model every freshly created snake has at position `(x, y)`.
    pub open spec fn initial_model(x: int, y: int) -> SnakeModel {
        SnakeModel {
            position: (x, y),
            direction: Direction::Up,
            tails: Seq::empty(),
            needs_add: 0,
            alive: true,
        }
    }

    /// A live snake at `(x, y)` facing up with an empty body.
    pub fn new(x: usize, y: usize) -> (s: Snake)
        ensures
            s@ == Snake::initial_model(x as int, y as int),
    {
        let s = Snake {
            position: (x, y),
            direction: Direction::Up,
            tails: Vec::new(),
            needs_add: 0,
            alive: true,
        };
        proof {
            assert(s@.tails =~= Seq::<(int, int)>::empty());
        }
        s
    }

    /// Replace the facing direction; takes effect on the next movement.
    pub fn set_direction(&mut self, direction: Direction)
        ensures
            final(self)@ == (SnakeModel { direction, ..old(self)@ }),
    {
        self.direction = direction;
    }

    /// One movement: pending growth becomes segments at the pre-move head
    /// position, the first segment follows the head, and the head advances.
    /// Stepping above row zero or left of column zero sets `alive` to false
    /// and leaves the position unchanged.
    pub fn shift(&mut self)
        requires
            old(self).direction is Right ==> old(self).position.0 < usize::MAX,
            old(self).direction is Down ==> old(self).position.1 < usize::MAX,
        ensures
            final(self)@ == shift_model(old(self)@),
    {
        let ghost m0 = self@;
        let pending = self.needs_add;
        let pos = self.position;
        let mut i: usize = 0;
        while i < pending
            invariant
                i <= pending,
                pending == old(self).needs_add,
                pos == old(self).position,
                self.position == old(self).position,
                self.direction == old(self).direction,
                self.alive == old(self).alive,
                self.needs_add == pending,
                self.tails@ == old(self).tails@ + Seq::new(i as nat, |j: int| pos),
            decreases pending - i,
        {
            self.tails.push(self.position);
            proof {
                assert(self.tails@ =~= old(self).tails@ + Seq::new((i + 1) as nat, |j: int| pos));
            }
            i += 1;
        }
        self.needs_add = 0;
        proof {
            assert(self@.tails =~= materialize_model(m0).tails);
            assert(self@ =~= materialize_model(m0));
        }
        let ghost m1 = materialize_model(m0);
        if self.tails.len() >= 1 {
            self.tails.set(0, self.position);
        }
        proof {
            assert(self@.tails =~= follow_model(m1).tails);
            assert(self@ =~= follow_model(m1));
        }
        let ghost m2 = follow_model(m1);
        match self.direction {
            Direction::Up => {
                if self.position.1 == 0 {
                    self.alive = false;
                } else {
                    self.position.1 = self.position.1 - 1;
                }
            },
            Direction::Right => {
                self.position.0 = self.position.0 + 1;
            },
            Direction::Down => {
                self.position.1 = self.position.1 + 1;
            },
            Direction::Left => {
                if self.position.0 == 0 {
                    self.alive = false;
                } else {
                    self.position.0 = self.position.0 - 1;
                }
            },
        }
        proof {
            assert(self@ =~= advance_model(m2));
        }
    }

    /// One unit of growth: duplicate the last segment, or, when the body is
    /// empty, defer the growth to the next movement.
    pub fn add_tail(&mut self)
        requires
            old(self).needs_add < usize::MAX,
        ensures
            final(self)@ == add_tail_model(old(self)@),
    {
        if self.tails.len() >= 1 {
            let last = self.tails[self.tails.len() - 1];
            self.tails.push(last);
            proof {
                assert(self@.tails =~= add_tail_model(old(self)@).tails);
                assert(self@ =~= add_tail_model(old(self)@));
            }
        } else {
            self.needs_add = self.needs_add + 1;
        }
    }

    /// One unit of shrinkage from the tail end; a no-op on an empty body.
    pub fn remove_tail(&mut self)
        ensures
            final(self)@ == remove_tail_model(old(self)@),
    {
        if self.tails.len() >= 1 {
            self.tails.pop();
            proof {
                assert(self@.tails =~= remove_tail_model(old(self)@).tails);
                assert(self@ =~= remove_tail_model(old(self)@));
            }
        }
    }

    /// Grow the body by `amount` segments: immediately when the body is
    /// non-empty, deferred when it is empty.
    pub fn increase_length(&mut self, amount: usize)
        requires
            old(self).needs_add + amount <= usize::MAX,
        ensures
            final(self)@ == increase_model(old(self)@, amount as nat),
    {
        let ghost m0 = self@;
        let mut i: usize = 0;
        while i < amount
            invariant
                i <= amount,
                m0 == old(self)@,
                m0.needs_add + amount <= usize::MAX,
                self@ == increase_model(m0, i as nat),
            decreases amount - i,
        {
            proof {
                if self@.tails.len() >= 1 {
                    assert(add_tail_model(self@).tails =~= increase_model(m0, (i + 1) as nat).tails);
                }
                assert(add_tail_model(self@) =~= increase_model(m0, (i + 1) as nat));
            }
            self.add_tail();
            i += 1;
        }
    }

    /// Shrink the body by `amount` segments from the tail end; the length
    /// floors at zero.
    pub fn decrease_length(&mut self, amount: usize)
        ensures
            final(self)@ == decrease_model(old(self)@, amount as nat),
    {
        let ghost m0 = self@;
        let mut i: usize = 0;
        while i < amount
            invariant
                i <= amount,
                m0 == old(self)@,
                self@ == decrease_model(m0, i as nat),
            decreases amount - i,
        {
            proof {
                if self@.tails.len() >= 1 {
                    assert(remove_tail_model(self@).tails =~= decrease_model(m0, (i + 1) as nat).tails);
                }
                assert(remove_tail_model(self@) =~= decrease_model(m0, (i + 1) as nat));
            }
            self.remove_tail();
            i += 1;
        }
    }

    /// Shrink or grow the body to exactly `amount` segments, by repeated
    /// single-unit shrink and grow.
    pub fn set_length(&mut self, amount: usize)
        requires
            old(self).needs_add + amount <= usize::MAX,
        ensures
            final(self)@ == set_length_model(old(self)@, amount as nat),
    {
        let ghost m0 = self@;
        while self.tails.len() > amount
            invariant
                m0 == old(self)@,
                m0.needs_add + amount <= usize::MAX,
                self@ == (SnakeModel { tails: self@.tails, ..m0 }),
                self@.tails.len() <= m0.tails.len(),
                self@.tails == m0.tails.take(self@.tails.len() as int),
                self@.tails.len() >= amount || self@.tails == m0.tails,
            decreases self.tails.len(),
        {
            proof {
                assert(remove_tail_model(self@).tails =~= m0.tails.take(self@.tails.len() - 1));
            }
            self.remove_tail();
        }
        if self.tails.len() < amount {
            let ghost m1 = self@;
            let extra = amount - self.tails.len();
            let mut i: usize = 0;
            while i < extra
                invariant
                    i <= extra,
                    m1.needs_add + extra <= usize::MAX,
                    extra == amount - m1.tails.len(),
                    m1.tails.len() < amount,
                    self@ == increase_model(m1, i as nat),
                decreases extra - i,
            {
                proof {
                    if self@.tails.len() >= 1 {
                        assert(add_tail_model(self@).tails =~= increase_model(
                            m1,
                            (i + 1) as nat,
                        ).tails);
                    }
                    assert(add_tail_model(self@) =~= increase_model(m1, (i + 1) as nat));
                }
                self.add_tail();
                i += 1;
            }
            proof {
                if m1.tails.len() >= 1 {
                    assert(increase_model(m1, extra as nat).tails =~= set_length_model(
                        m0,
                        amount as nat,
                    ).tails);
                }
                assert(increase_model(m1, extra as nat) =~= set_length_model(m0, amount as nat));
            }
        } else {
            proof {
                assert(self@.tails =~= set_length_model(m0, amount as nat).tails);
                assert(self@ =~= set_length_model(m0, amount as nat));
            }
        }
    }
}

} // verus!
