//! The orb-route model: a 4x4 grid of value and operator tiles, a route
//! of up to fifteen steps, and the check that a route stays on the grid,
//! keeps the orb's weight positive, and can still reach the exit in time.

use vstd::prelude::*;

verus! {

/// What a grid tile holds: an operator applied on the way, or a value the
/// pending operator consumes.
#[derive(Debug, Clone, Copy, PartialEq, Eq, Structural)]
pub enum TileContent {
    Plus,
    Minus,
    Asterisk,
    Value(i8),
}

/// One step of a route; `NoStep` ends the route early.
#[derive(Debug, Clone, Copy, PartialEq, Eq, Structural)]
pub enum StepDirection {
    North,
    East,
    South,
    West,
    NoStep,
}

/// The fixed grid, column-major: a cell's coordinates are
/// `(cell / 4, cell % 4)`.
pub open spec fn spec_map() -> Seq<TileContent> {
    seq![
        TileContent::Value(22),
        TileContent::Plus,
        TileContent::Value(4),
        TileContent::Asterisk,
        TileContent::Minus,
        TileContent::Value(4),
        TileContent::Asterisk,
        TileContent::Value(8),
        TileContent::Value(9),
        TileContent::Minus,
        TileContent::Value(11),
        TileContent::Minus,
        TileContent::Asterisk,
        TileContent::Value(18),
        TileContent::Asterisk,
        TileContent::Value(1),
    ]
}

/// The fixed grid as an array.
pub fn generate_map() -> (map: [TileContent; 16])
    ensures
        map@ == spec_map(),
{
    let map = [
        TileContent::Value(22),
        TileContent::Plus,
        TileContent::Value(4),
        TileContent::Asterisk,
        TileContent::Minus,
        TileContent::Value(4),
        TileContent::Asterisk,
        TileContent::Value(8),
        TileContent::Value(9),
        TileContent::Minus,
        TileContent::Value(11),
        TileContent::Minus,
        TileContent::Asterisk,
        TileContent::Value(18),
        TileContent::Asterisk,
        TileContent::Value(1),
    ];
    proof {
        assert(map@ =~= spec_map());
    }
    map
}

/// An upper weight guard far above anything the grid can produce in
/// fifteen steps (operators and values alternate on this grid, so the
/// weight stays below 22^8); it keeps the arithmetic in machine range
/// without carrying that alternation argument.
pub open spec fn spec_weight_guard() -> int {
    0x10000000000
}

/// Walk the route from step `i` in state (`cell`, `weight`, pending
/// `op`): `None` when the route leaves the grid, drops the orb's weight
/// to zero or below, exceeds the weight guard, or lands a value on a
/// value; otherwise the final cell and weight.  A `None` step ends the
/// walk at the current state.
pub open spec fn spec_walk(
    steps: Seq<StepDirection>,
    i: int,
    cell: int,
    weight: int,
    op: TileContent,
) -> Option<(int, int)>
    decreases steps.len() - i,
{
    if i < 0 || i >= steps.len() {
        Some((cell, weight))
    } else {
        let x = cell / 4;
        let y = cell % 4;
        let next_cell: Option<int> = match steps[i] {
            StepDirection::North => if y < 3 {
                Some(cell + 1)
            } else {
                None
            },
            StepDirection::East => if x < 3 {
                Some(cell + 4)
            } else {
                None
            },
            StepDirection::South => if y > 0 {
                Some(cell - 1)
            } else {
                None
            },
            StepDirection::West => if x > 0 {
                Some(cell - 4)
            } else {
                None
            },
            StepDirection::NoStep => None,
        };
        if steps[i] is NoStep {
            Some((cell, weight))
        } else {
            match next_cell {
                None => None::<(int, int)>,
                Some(nc) => {
                    let new_weight: Option<int> = match spec_map()[nc] {
                        TileContent::Value(v) => match op {
                            TileContent::Plus => Some(weight + v),
                            TileContent::Minus => if weight <= v {
                                None
                            } else {
                                Some(weight - v)
                            },
                            TileContent::Asterisk => Some(weight * v),
                            TileContent::Value(_) => None,
                        },
                        _ => Some(weight),
                    };
                    match new_weight {
                        None => None::<(int, int)>,
                        Some(w) => if w > spec_weight_guard() {
                            None::<(int, int)>
                        } else {
                            spec_walk(steps, i + 1, nc, w, spec_map()[nc])
                        },
                    }
                },
            }
        }
    }
}

/// A candidate route: up to fifteen steps and how many are meant.
pub struct Route {
    pub steps: [StepDirection; 15],
    pub step_count: u8,
}

impl Route {
    /// The empty route.
    pub fn new() -> (r: Route)
        ensures
            r.steps@ =~= Seq::new(15, |i: int| StepDirection::NoStep),
            r.step_count == 0,
    {
        Route { steps: [StepDirection::NoStep;15], step_count: 0 }
    }

    /// Whether the route is viable: it stays on the grid with the orb's
    /// weight positive, and together with the shortest way out it fits in
    /// fifteen steps.
    pub fn verify(&self) -> (r: bool)
        ensures
            r == match spec_walk(self.steps@, 0, 0, 22, TileContent::Value(22)) {
                Option::None => false,
                Option::Some(end) => (3 - end.0 / 4) + (3 - end.0 % 4) + self.step_count < 16,
            },
    {
        let map = generate_map();
        let mut current_cell: usize = 0;
        let mut current_weight: u64 = 22;
        let mut operation: TileContent = TileContent::Value(22);
        let mut i: usize = 0;
        let mut ended = false;
        while i < 15 && !ended
            invariant
                i <= 15,
                current_cell < 16,
                0 < current_weight <= spec_weight_guard(),
                map@ == spec_map(),
                operation == if i == 0 {
                    TileContent::Value(22)
                } else {
                    spec_map()[current_cell as int]
                },
                self.steps@.len() == 15,
                spec_walk(self.steps@, 0, 0, 22, TileContent::Value(22)) == (if ended {
                    Option::Some((current_cell as int, current_weight as int))
                } else {
                    spec_walk(
                        self.steps@,
                        i as int,
                        current_cell as int,
                        current_weight as int,
                        operation,
                    )
                }),
            decreases 15 - i, (if ended {
                0int
            } else {
                1int
            }),
        {
            let x = current_cell / 4;
            let y = current_cell % 4;
            let step = self.steps[i];
            match step {
                StepDirection::North => {
                    if y < 3 {
                        current_cell = current_cell + 1;
                    } else {
                        return false;
                    }
                },
                StepDirection::East => {
                    if x < 3 {
                        current_cell = current_cell + 4;
                    } else {
                        return false;
                    }
                },
                StepDirection::South => {
                    if y > 0 {
                        current_cell = current_cell - 1;
                    } else {
                        return false;
                    }
                },
                StepDirection::West => {
                    if x > 0 {
                        current_cell = current_cell - 4;
                    } else {
                        return false;
                    }
                },
                StepDirection::NoStep => {
                    ended = true;
                },
            }
            if !ended {
                if let TileContent::Value(value) = map[current_cell] {
                    proof {
                        assert(1 <= value <= 22);
                    }
                    match operation {
                        TileContent::Plus => {
                            current_weight = current_weight + (value as u64);
                        },
                        TileContent::Minus => {
                            if current_weight <= value as u64 {
                                return false;
                            }
                            current_weight = current_weight - (value as u64);
                        },
                        TileContent::Asterisk => {
                            proof {
                                assert((current_weight as int) * (value as int) <= 22
                                    * 0x10000000000 && (current_weight as int) * (value as int)
                                    > 0) by (nonlinear_arith)
                                    requires
                                        0 < current_weight <= 0x10000000000,
                                        1 <= value <= 22,
                                ;
                            }
                            current_weight = current_weight * (value as u64);
                        },
                        TileContent::Value(_) => {
                            // Two value tiles in a row: no pending
                            // operator to apply, so the route is invalid.
                            return false;
                        },
                    }
                }
                if current_weight > 0x10000000000 {
                    return false;
                }
                operation = map[current_cell];
                i = i + 1;
            }
        }
        // The route survived: add the shortest way to the exit.
        let x = current_cell / 4;
        let y = current_cell % 4;
        let manhattan_distance = (3 - x) + (3 - y);
        manhattan_distance + (self.step_count as usize) < 16
    }
}

} // verus!
