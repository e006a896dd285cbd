//! Grid navigation for a tower-defence battlefield.
//!
//! The battlefield is a square of 251 by 251 cells, each four world units
//! wide, around the origin of the world.  Structures occupy rectangles of
//! cells.  A flow field steers hostile entities towards the nearest
//! structure, and a search finds routes for workers that have a goal of
//! their own.
//!
//! * [`coords`] maps world coordinates to cells and back.
//! * [`direction`] holds the four directions of the flow field.
//! * [`building`] holds structures and the registry that owns them.
//! * [`grid`] holds the cells: what occupies them, and where they point.
//! * [`flow`] builds the flow field; [`nearest`] says what the field means,
//!   and [`propagation`] proves that it means it.
//! * [`pathing`] finds shortest routes from a cell to an area.
//! * [`enemy`] and [`worker`] move entities along the field and along
//!   routes.
//! * [`navigation`] keeps grid, structures and flow field in step, and
//!   [`game`] runs the entities over them tick by tick.
//!
//! Conventions.  `x` grows to the right and `y` grows upwards; a footprint
//! is named by its lower left cell.  A direction on a cell is the way an
//! entity on that cell moves.  Continuous quantities (world coordinates,
//! health, sizes) are held in fixed point: an integer counts thousandths of
//! a unit.  Time is counted in milliseconds.
pub mod coords;
pub mod direction;
pub mod building;
pub mod grid;
pub mod flow;
pub mod nearest;
pub mod propagation;
pub mod pathing;
pub mod enemy;
pub mod worker;
pub mod navigation;
pub mod game;
