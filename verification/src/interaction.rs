//! What the pointer selects, drags and flings: the decisions of one frame of
//! interaction, from the state of the two buttons and the hit tests of a
//! press.

use vstd::prelude::*;

verus! {

/// One of the two ends of an obstacle.
#[derive(Clone, Copy, Debug, PartialEq, Eq, Structural)]
pub enum Endpoint {
    Head,
    Tail,
}

/// What the pointer has hold of: nothing, the body with the given index, or
/// one end of the obstacle with the given index. Being one value, it never
/// names a body and an obstacle at once.
#[derive(Clone, Copy, Debug, PartialEq, Eq, Structural)]
pub enum Selection {
    Nothing,
    Body(usize),
    Obstacle(usize, Endpoint),
}

impl Selection {
    /// The selected body, if a body is selected.
    pub open spec fn body(self) -> Option<usize> {
        match self {
            Selection::Body(i) => Some(i),
            _ => None,
        }
    }

    /// The selected obstacle end, if one is selected.
    pub open spec fn endpoint(self) -> Option<(usize, Endpoint)> {
        match self {
            Selection::Obstacle(i, end) => Some((i, end)),
            _ => None,
        }
    }

    /// Whether the selection names something that exists in a scene of
    /// `bodies` bodies and `obstacles` obstacles.
    pub open spec fn fits(self, bodies: nat, obstacles: nat) -> bool {
        match self {
            Selection::Nothing => true,
            Selection::Body(i) => i < bodies,
            Selection::Obstacle(i, _) => i < obstacles,
        }
    }
}

/// The hit tests of one obstacle: whether the pointer lies on its head and on
/// its tail.
#[derive(Clone, Copy, Debug, PartialEq, Eq, Structural)]
pub struct EndHits {
    pub head: bool,
    pub tail: bool,
}

impl EndHits {
    /// Whether the pointer lies on either end.
    pub open spec fn any(self) -> bool {
        self.head || self.tail
    }

    /// The end that a hit on this obstacle selects: the tail wherever the
    /// pointer lies on it.
    pub open spec fn end(self) -> Endpoint {
        if self.tail {
            Endpoint::Tail
        } else {
            Endpoint::Head
        }
    }
}

/// The state of the pointer in one frame: whether it has a position, and for
/// each of the two buttons whether it went down, is down, or came up.
#[derive(Clone, Copy, Debug, PartialEq, Eq, Structural)]
pub struct Pointer {
    pub present: bool,
    pub primary_pressed: bool,
    pub secondary_pressed: bool,
    pub primary_held: bool,
    pub secondary_held: bool,
    pub primary_released: bool,
    pub secondary_released: bool,
}

impl Pointer {
    /// Whether either button went down in this frame.
    pub open spec fn pressed(self) -> bool {
        self.primary_pressed || self.secondary_pressed
    }
}

/// What one frame of interaction asks of the scene.
#[derive(Clone, Copy, Debug, PartialEq, Eq, Structural)]
pub struct Response {
    /// What is selected once the frame is over.
    pub selection: Selection,
    /// What is to be moved to the pointer's position.
    pub drag: Selection,
    /// The body to draw a guide line from, towards the pointer.
    pub guide: Option<usize>,
    /// The body to fling away from the pointer.
    pub fling: Option<usize>,
}

/// Whether a press with the body hit tests `bodies` and the obstacle hit
/// tests `obstacles` selects `picked`: the last obstacle hit if there is
/// one, else the last body hit, else nothing.
pub open spec fn picks(bodies: Seq<bool>, obstacles: Seq<EndHits>, picked: Selection) -> bool {
    match picked {
        Selection::Obstacle(i, end) => {
            &&& i < obstacles.len()
            &&& obstacles[i as int].any()
            &&& end == obstacles[i as int].end()
            &&& forall|j: int| i < j < obstacles.len() ==> !(#[trigger] obstacles[j]).any()
        },
        Selection::Body(i) => {
            &&& forall|j: int| 0 <= j < obstacles.len() ==> !(#[trigger] obstacles[j]).any()
            &&& i < bodies.len()
            &&& bodies[i as int]
            &&& forall|j: int| i < j < bodies.len() ==> !bodies[j]
        },
        Selection::Nothing => {
            &&& forall|j: int| 0 <= j < obstacles.len() ==> !(#[trigger] obstacles[j]).any()
            &&& forall|j: int| 0 <= j < bodies.len() ==> !bodies[j]
        },
    }
}

/// The selection once a press, if there was one, has been dealt with: a
/// press forgets the earlier selection and takes what it picked, or nothing
/// where the pointer has no position.
pub open spec fn after_press(current: Selection, pointer: Pointer, picked: Selection) -> Selection {
    if !pointer.pressed() {
        current
    } else if pointer.present {
        picked
    } else {
        Selection::Nothing
    }
}

/// The response to one frame: the primary button drags what is selected and
/// drops it on release; the secondary button shows a guide while held and
/// flings the selected body on release, unless the primary button has
/// dropped it in the same frame. Without a pointer position nothing is
/// dragged, shown or flung.
pub open spec fn response(current: Selection, pointer: Pointer, picked: Selection) -> Response {
    let held = after_press(current, pointer, picked);
    let kept = if pointer.primary_released {
        Selection::Nothing
    } else {
        held
    };
    Response {
        selection: kept,
        drag: if pointer.primary_held && pointer.present {
            held
        } else {
            Selection::Nothing
        },
        guide: if pointer.secondary_held && pointer.present {
            held.body()
        } else {
            None
        },
        fling: if pointer.secondary_released && pointer.present {
            kept.body()
        } else {
            None
        },
    }
}

/// Scans the hit tests of a press, bodies first and obstacles after them, a
/// later hit replacing an earlier one and an obstacle replacing any body.
pub fn pick(bodies: &Vec<bool>, obstacles: &Vec<EndHits>) -> (picked: Selection)
    ensures
        picks(bodies@, obstacles@, picked),
        picked.fits(bodies@.len(), obstacles@.len()),
{
    let mut picked = Selection::Nothing;
    let mut i: usize = 0;
    while i < bodies.len()
        invariant
            i <= bodies.len(),
            picks(bodies@.take(i as int), Seq::empty(), picked),
        decreases bodies.len() - i,
    {
        if bodies[i] {
            picked = Selection::Body(i);
        }
        i += 1;
    }
    assert(bodies@.take(bodies.len() as int) =~= bodies@);
    let mut k: usize = 0;
    while k < obstacles.len()
        invariant
            k <= obstacles.len(),
            picks(bodies@, obstacles@.take(k as int), picked),
        decreases obstacles.len() - k,
    {
        let hits = obstacles[k];
        if hits.tail {
            picked = Selection::Obstacle(k, Endpoint::Tail);
        } else if hits.head {
            picked = Selection::Obstacle(k, Endpoint::Head);
        }
        k += 1;
    }
    assert(obstacles@.take(obstacles.len() as int) =~= obstacles@);
    picked
}

/// Decides one frame of interaction: `current` is the selection carried
/// over from the frame before, `picked` what a press in this frame picks.
pub fn respond(current: Selection, pointer: Pointer, picked: Selection) -> (out: Response)
    ensures
        out == response(current, pointer, picked),
{
    let mut selection = current;
    if pointer.primary_pressed || pointer.secondary_pressed {
        selection = Selection::Nothing;
        if pointer.present {
            selection = picked;
        }
    }
    let mut drag = Selection::Nothing;
    let mut guide: Option<usize> = None;
    let mut fling: Option<usize> = None;
    if pointer.primary_held && pointer.present {
        drag = selection;
    }
    if pointer.secondary_held && pointer.present {
        if let Selection::Body(i) = selection {
            guide = Some(i);
        }
    }
    if pointer.primary_released {
        selection = Selection::Nothing;
    }
    if pointer.secondary_released && pointer.present {
        if let Selection::Body(i) = selection {
            fling = Some(i);
        }
    }
    Response { selection, drag, guide, fling }
}

/// A selection never names a body and an obstacle end at once.
pub proof fn lemma_selection_exclusive(selection: Selection)
    ensures
        !(selection.body() is Some && selection.endpoint() is Some),
        selection == Selection::Nothing <==> selection.body() is None && selection.endpoint() is None,
{
}

/// A press forgets what was selected before it: whatever the earlier
/// selection, the frame's response is the same.
pub proof fn lemma_press_forgets(
    earlier: Selection,
    other: Selection,
    pointer: Pointer,
    picked: Selection,
)
    requires
        pointer.pressed(),
    ensures
        response(earlier, pointer, picked) == response(other, pointer, picked),
{
}

/// A press that hits nothing leaves nothing selected, dragged, shown or
/// flung.
pub proof fn lemma_press_clears(
    earlier: Selection,
    pointer: Pointer,
    bodies: Seq<bool>,
    obstacles: Seq<EndHits>,
    picked: Selection,
)
    requires
        pointer.pressed(),
        picks(bodies, obstacles, picked),
        forall|j: int| 0 <= j < bodies.len() ==> !bodies[j],
        forall|j: int| 0 <= j < obstacles.len() ==> !(#[trigger] obstacles[j]).any(),
    ensures
        response(earlier, pointer, picked) == (Response {
            selection: Selection::Nothing,
            drag: Selection::Nothing,
            guide: None,
            fling: None,
        }),
{
}

/// The hit tests of a press determine what it picks.
pub proof fn lemma_picks_unique(
    bodies: Seq<bool>,
    obstacles: Seq<EndHits>,
    first: Selection,
    second: Selection,
)
    requires
        picks(bodies, obstacles, first),
        picks(bodies, obstacles, second),
    ensures
        first == second,
{
}

/// Every part of a response names something that exists in the scene, as
/// long as the carried and the picked selection do.
pub proof fn lemma_response_fits(
    current: Selection,
    pointer: Pointer,
    picked: Selection,
    bodies: nat,
    obstacles: nat,
)
    requires
        current.fits(bodies, obstacles),
        picked.fits(bodies, obstacles),
    ensures
        response(current, pointer, picked).selection.fits(bodies, obstacles),
        response(current, pointer, picked).drag.fits(bodies, obstacles),
        response(current, pointer, picked).guide matches Some(i) ==> i < bodies,
        response(current, pointer, picked).fling matches Some(i) ==> i < bodies,
{
}

} // verus!
