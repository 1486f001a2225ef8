//! Conway's Game of Life on an unbounded integer grid, with three
//! interchangeable storage backends that all satisfy one correctness
//! contract: liveness queries, single-cell updates and whole-generation
//! steps, stated against a mathematical set of live coordinates.

pub mod array_grid;
pub mod board;
pub mod bool_grid;
pub mod console;
pub mod decimal;
pub mod dynamic_array2d_board;
pub mod dynamic_vector_board;
pub mod fixed_bitfield_board;
pub mod fixed_vector_board;
pub mod geometry;
pub mod grid;
pub mod life_board;
pub mod life_cell;
pub mod pattern;
pub mod rules;

pub use dynamic_array2d_board::DynamicArray2dLifeBoard;
pub use dynamic_vector_board::DynamicVectorLifeBoard;
pub use fixed_bitfield_board::FixedBitfieldLifeBoard;
pub use fixed_vector_board::FixedVectorLifeBoard;
pub use life_board::LifeBoard;

use vstd::prelude::*;

verus! {

pub fn new_fixed_vector_board() -> (board: FixedVectorLifeBoard)
    ensures
        board.inv(),
        board.live_set() == vstd::prelude::Set::<(int, int)>::empty(),
{
    FixedVectorLifeBoard::empty()
}

pub fn new_dynamic_vector_board() -> (board: DynamicVectorLifeBoard)
    ensures
        board.inv(),
        board.live_set() == vstd::prelude::Set::<(int, int)>::empty(),
{
    DynamicVectorLifeBoard::empty()
}

pub fn new_dynamic_array2d_board() -> (board: DynamicArray2dLifeBoard)
    ensures
        board.inv(),
        board.live_set() == vstd::prelude::Set::<(int, int)>::empty(),
{
    DynamicArray2dLifeBoard::empty()
}

pub fn new_fixed_bitfield_board() -> (board: FixedBitfieldLifeBoard)
    ensures
        board.inv(),
        board.live_set() == vstd::prelude::Set::<(int, int)>::empty(),
{
    FixedBitfieldLifeBoard::empty()
}

} // verus!
