use model_renderer::direction::{Axis, Direction};
use model_renderer::error::RenderError;
use model_renderer::resource_id::ResourceId;

#[test]
fn parses_namespaced_id() {
    let id = ResourceId::of("mymod:block/oak-log").unwrap();
    assert_eq!(id.namespace(), "mymod");
    assert_eq!(id.path(), "block/oak-log");
    assert_eq!(id.to_string(), "mymod:block/oak-log");
}

#[test]
fn bare_path_gets_default_namespace() {
    let id = ResourceId::of("item/stick").unwrap();
    assert_eq!(id.namespace(), "minecraft");
    assert_eq!(id.path(), "item/stick");
    assert_eq!(id, ResourceId::new("minecraft", "item/stick"));
}

#[test]
fn empty_text_is_an_empty_bare_path() {
    let id = ResourceId::of("").unwrap();
    assert_eq!(id.to_string(), "minecraft:");
}

#[test]
fn round_trip_through_text() {
    let id = ResourceId::new("a_b", "c/d-e");
    let again = ResourceId::of(&id.to_string()).unwrap();
    assert_eq!(again, id);
    assert!(again.same(&id));
}

#[test]
fn unicode_word_characters_are_accepted() {
    let id = ResourceId::of("modé:pathé").unwrap();
    assert_eq!(id.namespace(), "modé");
    assert_eq!(id.path(), "pathé");
}

#[test]
fn rejects_invalid_ids() {
    assert_eq!(ResourceId::of("a:b:c"), Err(RenderError::InvalidResourceId));
    assert_eq!(ResourceId::of("a/b:c"), Err(RenderError::InvalidResourceId));
    assert_eq!(ResourceId::of("a b"), Err(RenderError::InvalidResourceId));
    assert_eq!(ResourceId::of("block/stone.json"), Err(RenderError::InvalidResourceId));
}

#[test]
fn new_string_keeps_parts() {
    let id = ResourceId::new_string(String::from("ns"), String::from("p"));
    assert_eq!(id.to_string(), "ns:p");
}

#[test]
fn direction_axis_is_fixed() {
    assert_eq!(Direction::NORTH.axis(), Axis::Z);
    assert_eq!(Direction::SOUTH.axis(), Axis::Z);
    assert_eq!(Direction::EAST.axis(), Axis::X);
    assert_eq!(Direction::WEST.axis(), Axis::X);
    assert_eq!(Direction::UP.axis(), Axis::Y);
    assert_eq!(Direction::DOWN.axis(), Axis::Y);
}

#[test]
fn direction_normals() {
    assert_eq!(Direction::NORTH.normal(), (0, 0, -1));
    assert_eq!(Direction::EAST.normal(), (1, 0, 0));
    assert_eq!(Direction::SOUTH.normal(), (0, 0, 1));
    assert_eq!(Direction::WEST.normal(), (-1, 0, 0));
    assert_eq!(Direction::UP.normal(), (0, 1, 0));
    assert_eq!(Direction::DOWN.normal(), (0, -1, 0));
}

#[test]
fn direction_parsing_is_case_sensitive() {
    assert_eq!(Direction::from_str("WEST"), Ok(Direction::WEST));
    assert_eq!(Direction::from_str("DOWN"), Ok(Direction::DOWN));
    assert_eq!(Direction::from_str("west"), Err(RenderError::InvalidDirection));
    assert_eq!(Direction::from_str("NORTHEAST"), Err(RenderError::InvalidDirection));
}

#[test]
fn axis_parsing_and_units() {
    assert_eq!(Axis::from_str("Y"), Ok(Axis::Y));
    assert_eq!(Axis::from_str("x"), Err(RenderError::InvalidAxis));
    assert_eq!(Axis::X.normalized(), (1, 0, 0));
    assert_eq!(Axis::Y.normalized(), (0, 1, 0));
    assert_eq!(Axis::Z.normalized(), (0, 0, 1));
}

#[test]
fn direction_indices_follow_declaration_order() {
    assert_eq!(Direction::NORTH.index(), 0);
    assert_eq!(Direction::DOWN.index(), 5);
}
