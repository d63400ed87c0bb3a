use render_api::attr::{Attribute, AttributeSet};
use render_api::events::{FrameNotice, RenderEvent, RenderResult, UserEvent, UserNotice};
use render_api::state::{ActorState, Drawable, RenderContext, State, Terrain, WorldState};
use render_api::stub;

fn tile(tag: u8) -> Terrain {
    Terrain {
        draw: Drawable {
            kind: vec![tag],
            pos_x: 0,
            pos_y: 0,
            pos_z: 0,
            span_x: 1,
            span_y: 1,
            span_z: 1,
            attrs: AttributeSet::new(),
        },
        attrs: AttributeSet::new(),
    }
}

#[test]
fn world_flat_length_matches_dimensions() {
    let terrain: Vec<Terrain> = (0..6).map(tile).collect();
    let w = WorldState::new(terrain, 2, 3, 1, AttributeSet::new()).expect("2 * 3 * 1 == 6");
    assert_eq!(w.terrain_len(), 6);
    assert_eq!(w.dims(), (2, 3, 1));
}

#[test]
fn world_rejects_mismatched_length() {
    let terrain: Vec<Terrain> = (0..5).map(tile).collect();
    assert!(WorldState::new(terrain, 2, 3, 1, AttributeSet::new()).is_none());
    let terrain: Vec<Terrain> = (0..6).map(tile).collect();
    assert!(WorldState::new(terrain, 0, 3, 1, AttributeSet::new()).is_none());
}

#[test]
fn world_indexing_reads_the_flat_layout() {
    // terrain[x][y][z] laid out flat: index (x * len_y + y) * len_z + z.
    let terrain: Vec<Terrain> = (0..6).map(tile).collect();
    let w = WorldState::new(terrain, 2, 3, 1, AttributeSet::new()).expect("sized to fit");
    assert_eq!(w.terrain_at(0, 0, 0).draw.kind, vec![0]);
    assert_eq!(w.terrain_at(0, 2, 0).draw.kind, vec![2]);
    assert_eq!(w.terrain_at(1, 0, 0).draw.kind, vec![3]);
    assert_eq!(w.terrain_at(1, 2, 0).draw.kind, vec![5]);
}

#[test]
fn world_rejects_dimensions_beyond_addressable_size() {
    // The grid product overflows usize, so no flat vector can match it.
    let w = WorldState::new(Vec::new(), usize::MAX, 2, 2, AttributeSet::new());
    assert!(w.is_none());
}

#[test]
fn empty_world_has_no_terrain() {
    let w = WorldState::empty(AttributeSet::new());
    assert_eq!(w.terrain_len(), 0);
    assert_eq!(w.dims(), (0, 0, 0));
}

#[test]
fn push_empty_state_with_top_level_attributes() {
    // An empty world, actor, and menu state beside a populated top-level
    // attribute set: the required entry point accepts it with no error.
    let mut attrs = AttributeSet::new();
    attrs.insert(Attribute::new(b"weather".to_vec(), vec![b"rain".to_vec()]));
    attrs.insert(Attribute::new(b"hour".to_vec(), vec![b"13".to_vec()]));
    let state = State::empty(RenderContext::WorldTraversal, attrs);
    assert_eq!(state.world_state.terrain_len(), 0);
    assert!(state.actor_state.actors.is_empty());
    assert!(state.menu_state.sections.is_empty());
    assert_eq!(state.attrs.len(), 2);

    let reply = stub::expr_push_state(1, &state);
    assert_eq!(reply, None);
}

#[test]
fn frame_notice_reports_exactly_what_fired() {
    // A critical render error on frame 42: the caller observes the kind,
    // the flag, the frame index, the active state's token, and the
    // message, nothing else and nothing less.
    let result = RenderResult::new(
        RenderEvent::RenderError,
        true,
        Some(b"shader failed".to_vec()),
    );
    let notice = FrameNotice::new(result, 42, 7);
    assert_eq!(notice.event, RenderEvent::RenderError);
    assert!(notice.critical);
    assert_eq!(notice.frame_index, 42);
    assert_eq!(notice.state_token, 7);
    assert_eq!(notice.message, Some(b"shader failed".to_vec()));
}

#[test]
fn user_notice_carries_kind_and_text() {
    let input = UserNotice::new(UserEvent::Input, b"w".to_vec());
    assert_eq!(input.event, UserEvent::Input);
    assert_eq!(input.text, b"w".to_vec());
    let command = UserNotice::new(UserEvent::Command, b"save game".to_vec());
    assert_eq!(command.event, UserEvent::Command);
    assert_eq!(command.text, b"save game".to_vec());
}

#[test]
fn world_attribute_insertion() {
    let mut w = WorldState::empty(AttributeSet::new());
    w.insert_attr(Attribute::new(b"biome".to_vec(), vec![b"tundra".to_vec()]));
    let got = w.attrs().resolve(&b"biome".to_vec()).expect("key is present");
    assert_eq!(got.args, vec![b"tundra".to_vec()]);
}

#[test]
fn actor_state_holds_actors() {
    let actor = render_api::state::Actor {
        name: b"scout".to_vec(),
        description: Some(b"a fast unit".to_vec()),
        draw: tile(9).draw,
        attrs: AttributeSet::new(),
    };
    let actors = ActorState { actors: vec![actor], attrs: AttributeSet::new() };
    assert_eq!(actors.actors.len(), 1);
    assert_eq!(actors.actors[0].name, b"scout".to_vec());
}
