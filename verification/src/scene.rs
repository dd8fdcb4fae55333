//! Where a scene starts: the bodies at random positions of the world, and
//! four fixed obstacles.

use crate::math::vector::Point2D;
use vstd::prelude::*;

verus! {

/// Number of bodies in a fresh scene.
pub const BODY_COUNT: usize = 101;

/// Radius of every body of a fresh scene.
pub const BODY_RADIUS: i32 = 8;

/// Radius of every obstacle of a fresh scene.
pub const OBSTACLE_RADIUS: i32 = 10;

/// An obstacle as the scene places it: a segment between two grid points,
/// thickened by a radius.
#[derive(Clone, Copy, Debug, PartialEq, Eq, Structural)]
pub struct Capsule {
    pub start: Point2D,
    pub end: Point2D,
    pub radius: i32,
}

/// The obstacle of a fresh scene that lies in row `y`: from column 30 to
/// column 300.
pub open spec fn shelf(y: i32) -> Capsule {
    Capsule {
        start: Point2D { x: 30, y },
        end: Point2D { x: 300, y },
        radius: OBSTACLE_RADIUS,
    }
}

/// Whether `p` is a position of a world of `width` by `height`.
pub open spec fn inside(p: Point2D, width: u32, height: u32) -> bool {
    0 <= p.x < width && 0 <= p.y < height
}

/// The handle of a thread's random number generator, `rand::rngs::ThreadRng`.
/// Nothing is known of what it holds.
#[verifier::external_type_specification]
#[verifier::external_body]
pub struct ExThreadRng(rand::rngs::ThreadRng);

/// `rand::thread_rng` hands out the generator of the calling thread, seeded
/// by the operating system. Nothing is claimed of it; the call takes no
/// input, and fails only where the operating system has no seed to give.
pub assume_specification[ rand::thread_rng ]() -> (generator: rand::rngs::ThreadRng);

/// A pseudo-random integer drawn by `rand::Rng::gen_range` from the range
/// `low..high`. All that is claimed of the value is that it lies in that
/// range; the call panics on an empty range, which the precondition rules
/// out.
#[verifier::external_body]
fn random_in(generator: &mut rand::rngs::ThreadRng, low: i32, high: i32) -> (r: i32)
    requires
        low < high,
    ensures
        low <= r < high,
{
    rand::Rng::gen_range(generator, low..high)
}

/// Draws the positions of the bodies of a fresh scene: `BODY_COUNT` random
/// positions of the world.
pub fn seed_bodies(width: u32, height: u32) -> (bodies: Vec<Point2D>)
    requires
        0 < width <= i32::MAX,
        0 < height <= i32::MAX,
    ensures
        bodies@.len() == BODY_COUNT,
        forall|i: int| 0 <= i < bodies@.len() ==> inside(#[trigger] bodies@[i], width, height),
{
    let mut generator = rand::thread_rng();
    let mut bodies: Vec<Point2D> = Vec::new();
    while bodies.len() < BODY_COUNT
        invariant
            0 < width <= i32::MAX,
            0 < height <= i32::MAX,
            bodies@.len() <= BODY_COUNT,
            forall|i: int| 0 <= i < bodies@.len() ==> inside(#[trigger] bodies@[i], width, height),
        decreases BODY_COUNT - bodies@.len(),
    {
        let x = random_in(&mut generator, 0, width as i32);
        let y = random_in(&mut generator, 0, height as i32);
        bodies.push(Point2D::new(x, y));
    }
    bodies
}

/// Makes the shelf of row `y`.
fn place_shelf(y: i32) -> (capsule: Capsule)
    ensures
        capsule == shelf(y),
{
    Capsule { start: Point2D::new(30, y), end: Point2D::new(300, y), radius: OBSTACLE_RADIUS }
}

/// The obstacles of a fresh scene: four shelves in the rows 30, 50, 80 and
/// 120.
pub fn seed_obstacles() -> (obstacles: Vec<Capsule>)
    ensures
        obstacles@ == seq![shelf(30), shelf(50), shelf(80), shelf(120)],
{
    let mut obstacles: Vec<Capsule> = Vec::new();
    obstacles.push(place_shelf(30));
    obstacles.push(place_shelf(50));
    obstacles.push(place_shelf(80));
    obstacles.push(place_shelf(120));
    assert(obstacles@ =~= seq![shelf(30), shelf(50), shelf(80), shelf(120)]);
    obstacles
}

} // verus!
