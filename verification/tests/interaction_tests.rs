use circle_collision::interaction::pick;
use circle_collision::interaction::respond;
use circle_collision::interaction::EndHits;
use circle_collision::interaction::Endpoint;
use circle_collision::interaction::Pointer;
use circle_collision::interaction::Response;
use circle_collision::interaction::Selection;

fn idle() -> Pointer {
    Pointer {
        present: true,
        primary_pressed: false,
        secondary_pressed: false,
        primary_held: false,
        secondary_held: false,
        primary_released: false,
        secondary_released: false,
    }
}

fn miss() -> EndHits {
    EndHits { head: false, tail: false }
}

fn nothing() -> Response {
    Response { selection: Selection::Nothing, drag: Selection::Nothing, guide: None, fling: None }
}

#[test]
fn pick_without_hits_is_nothing() {
    assert_eq!(pick(&vec![], &vec![]), Selection::Nothing);
    assert_eq!(pick(&vec![false, false], &vec![miss(), miss()]), Selection::Nothing);
}

#[test]
fn pick_takes_the_last_body_hit() {
    assert_eq!(pick(&vec![true, false, true, false], &vec![miss()]), Selection::Body(2));
    assert_eq!(pick(&vec![true], &vec![]), Selection::Body(0));
}

#[test]
fn pick_prefers_an_obstacle_to_any_body() {
    let obstacles = vec![miss(), EndHits { head: true, tail: false }, miss()];
    assert_eq!(
        pick(&vec![true, true, true], &obstacles),
        Selection::Obstacle(1, Endpoint::Head)
    );
}

#[test]
fn pick_takes_the_last_obstacle_hit() {
    let obstacles = vec![
        EndHits { head: false, tail: true },
        miss(),
        EndHits { head: true, tail: false },
        miss(),
    ];
    assert_eq!(pick(&vec![], &obstacles), Selection::Obstacle(2, Endpoint::Head));
}

#[test]
fn pick_takes_the_tail_where_both_ends_are_hit() {
    let obstacles = vec![EndHits { head: true, tail: true }];
    assert_eq!(pick(&vec![false], &obstacles), Selection::Obstacle(0, Endpoint::Tail));
    let obstacles = vec![EndHits { head: false, tail: true }];
    assert_eq!(pick(&vec![false], &obstacles), Selection::Obstacle(0, Endpoint::Tail));
}

#[test]
fn frame_without_events_keeps_the_selection() {
    let out = respond(Selection::Body(4), idle(), Selection::Nothing);
    assert_eq!(
        out,
        Response { selection: Selection::Body(4), drag: Selection::Nothing, guide: None, fling: None }
    );
}

#[test]
fn press_replaces_the_selection() {
    let pointer = Pointer { primary_pressed: true, ..idle() };
    let out = respond(Selection::Body(4), pointer, Selection::Obstacle(1, Endpoint::Tail));
    assert_eq!(out.selection, Selection::Obstacle(1, Endpoint::Tail));
    let pointer = Pointer { secondary_pressed: true, ..idle() };
    let out = respond(Selection::Obstacle(0, Endpoint::Head), pointer, Selection::Body(7));
    assert_eq!(out.selection, Selection::Body(7));
}

#[test]
fn press_forgets_the_earlier_selection() {
    let pointer = Pointer { primary_pressed: true, primary_held: true, ..idle() };
    let picked = Selection::Body(2);
    let from_body = respond(Selection::Body(9), pointer, picked);
    let from_obstacle = respond(Selection::Obstacle(3, Endpoint::Head), pointer, picked);
    let from_nothing = respond(Selection::Nothing, pointer, picked);
    assert_eq!(from_body, from_obstacle);
    assert_eq!(from_body, from_nothing);
}

#[test]
fn press_that_hits_nothing_clears_the_selection() {
    let pointer = Pointer {
        primary_pressed: true,
        primary_held: true,
        secondary_held: true,
        secondary_released: true,
        ..idle()
    };
    let picked = pick(&vec![false, false], &vec![miss()]);
    assert_eq!(respond(Selection::Body(1), pointer, picked), nothing());
    assert_eq!(respond(Selection::Obstacle(0, Endpoint::Tail), pointer, picked), nothing());
}

#[test]
fn press_without_a_position_clears_the_selection() {
    let pointer = Pointer { present: false, primary_pressed: true, primary_held: true, ..idle() };
    assert_eq!(respond(Selection::Body(1), pointer, Selection::Body(5)), nothing());
}

#[test]
fn selection_is_never_a_body_and_an_obstacle() {
    let obstacles = vec![EndHits { head: true, tail: false }];
    let pointer = Pointer { primary_pressed: true, primary_held: true, ..idle() };
    let out = respond(Selection::Body(0), pointer, pick(&vec![true], &obstacles));
    assert_eq!(out.selection, Selection::Obstacle(0, Endpoint::Head));
    assert_eq!(out.drag, Selection::Obstacle(0, Endpoint::Head));
    assert_eq!(out.guide, None);
    assert_eq!(out.fling, None);
}

#[test]
fn primary_hold_drags_what_is_selected() {
    let pointer = Pointer { primary_held: true, ..idle() };
    assert_eq!(respond(Selection::Body(3), pointer, Selection::Nothing).drag, Selection::Body(3));
    assert_eq!(
        respond(Selection::Obstacle(2, Endpoint::Tail), pointer, Selection::Nothing).drag,
        Selection::Obstacle(2, Endpoint::Tail)
    );
    assert_eq!(respond(Selection::Nothing, pointer, Selection::Nothing).drag, Selection::Nothing);
}

#[test]
fn hold_without_a_position_drags_nothing() {
    let pointer = Pointer { present: false, primary_held: true, secondary_held: true, ..idle() };
    let out = respond(Selection::Body(3), pointer, Selection::Nothing);
    assert_eq!(
        out,
        Response { selection: Selection::Body(3), drag: Selection::Nothing, guide: None, fling: None }
    );
}

#[test]
fn secondary_hold_shows_a_guide_for_a_body_only() {
    let pointer = Pointer { secondary_held: true, ..idle() };
    let out = respond(Selection::Body(3), pointer, Selection::Nothing);
    assert_eq!(out.guide, Some(3));
    assert_eq!(out.drag, Selection::Nothing);
    assert_eq!(out.selection, Selection::Body(3));
    let out = respond(Selection::Obstacle(3, Endpoint::Head), pointer, Selection::Nothing);
    assert_eq!(out.guide, None);
}

#[test]
fn primary_release_drops_the_selection() {
    let pointer = Pointer { primary_released: true, ..idle() };
    assert_eq!(respond(Selection::Body(3), pointer, Selection::Nothing), nothing());
    let pointer = Pointer { present: false, primary_released: true, ..idle() };
    assert_eq!(
        respond(Selection::Obstacle(1, Endpoint::Head), pointer, Selection::Nothing),
        nothing()
    );
}

#[test]
fn secondary_release_flings_the_selected_body() {
    let pointer = Pointer { secondary_released: true, ..idle() };
    let out = respond(Selection::Body(6), pointer, Selection::Nothing);
    assert_eq!(out.fling, Some(6));
    assert_eq!(out.selection, Selection::Body(6));
    let out = respond(Selection::Obstacle(6, Endpoint::Tail), pointer, Selection::Nothing);
    assert_eq!(out.fling, None);
    let pointer = Pointer { present: false, secondary_released: true, ..idle() };
    assert_eq!(respond(Selection::Body(6), pointer, Selection::Nothing).fling, None);
}

#[test]
fn release_of_both_buttons_drops_without_flinging() {
    let pointer = Pointer { primary_released: true, secondary_released: true, ..idle() };
    assert_eq!(respond(Selection::Body(6), pointer, Selection::Nothing), nothing());
}

#[test]
fn press_and_hold_in_one_frame_drags_the_new_selection() {
    let pointer = Pointer { primary_pressed: true, primary_held: true, ..idle() };
    let out = respond(Selection::Body(1), pointer, Selection::Body(8));
    assert_eq!(out.drag, Selection::Body(8));
    assert_eq!(out.selection, Selection::Body(8));
}
