use model_renderer::direction::{Axis, Direction};
use model_renderer::error::RenderError;
use model_renderer::json::JsonValue;
use model_renderer::resource_id::ResourceId;
use model_renderer::resource_manager::{
    find_parent, model_path, texture_path, usable_response, ModelLookup, ParentLink, ResourceManager,
    ResourcePack, TextureLookup,
};
use model_renderer::texture::Image;
use model_renderer::unresolved_model::{UnresolvedElement, UnresolvedModel, UnresolvedTexture};
use model_renderer::geometry::Vec3;

fn s(text: &str) -> JsonValue {
    JsonValue::Str(String::from(text))
}

fn n(pixels: i32) -> JsonValue {
    JsonValue::Number(pixels * 1000)
}

fn obj(entries: Vec<(&str, JsonValue)>) -> JsonValue {
    JsonValue::Object(entries.into_iter().map(|(k, v)| (String::from(k), v)).collect())
}

fn arr(items: Vec<JsonValue>) -> JsonValue {
    JsonValue::Array(items)
}

fn vec3(x: i32, y: i32, z: i32) -> JsonValue {
    arr(vec![n(x), n(y), n(z)])
}

fn cube_element() -> JsonValue {
    obj(vec![
        ("from", vec3(0, 0, 0)),
        ("to", vec3(16, 16, 16)),
        ("faces", obj(vec![
            ("up", obj(vec![("texture", s("#top")), ("rotation", n(90))])),
            ("north", obj(vec![("texture", s("#side")), ("uv", arr(vec![n(0), n(0), n(8), n(16)]))])),
        ])),
    ])
}

fn resolve(manager: &mut ResourceManager, id: &ResourceId, files: &[(&str, JsonValue)]) -> ModelLookup {
    loop {
        match manager.get_model(id) {
            ModelLookup::NeedsFile(needed) => {
                let text = needed.to_string();
                let file = files.iter().find(|(name, _)| ResourceId::of(name).unwrap().to_string() == text);
                match file {
                    Some((_, json)) => manager.add_model_file(needed, clone_json(json)),
                    None => return ModelLookup::Failed(RenderError::ModelNotFound),
                }
            }
            other => return other,
        }
    }
}

fn clone_json(v: &JsonValue) -> JsonValue {
    match v {
        JsonValue::Null => JsonValue::Null,
        JsonValue::Bool(b) => JsonValue::Bool(*b),
        JsonValue::Number(x) => JsonValue::Number(*x),
        JsonValue::Str(t) => JsonValue::Str(t.clone()),
        JsonValue::Array(items) => JsonValue::Array(items.iter().map(clone_json).collect()),
        JsonValue::Object(es) => JsonValue::Object(es.iter().map(|(k, v)| (k.clone(), clone_json(v))).collect()),
    }
}

#[test]
fn element_with_faces() {
    let e = UnresolvedElement::new(&cube_element()).unwrap();
    assert_eq!(e.from, Vec3::new(0, 0, 0));
    assert_eq!(e.to, Vec3::new(16000, 16000, 16000));
    assert!(e.rotation.is_none());
    let up = e.faces[Direction::UP.index()].as_ref().unwrap();
    assert_eq!(up.texture_name, "top");
    assert_eq!(up.rotation, 90);
    assert_eq!((up.from_x, up.from_y, up.to_x, up.to_y), (0, 0, 16000, 16000));
    let north = e.faces[Direction::NORTH.index()].as_ref().unwrap();
    assert_eq!(north.texture_name, "side");
    assert_eq!((north.from_x, north.from_y, north.to_x, north.to_y), (0, 0, 8000, 16000));
    assert!(e.faces[Direction::SOUTH.index()].is_none());
}

#[test]
fn element_rotation_is_read() {
    let json = obj(vec![
        ("from", vec3(0, 0, 0)),
        ("to", vec3(16, 16, 16)),
        ("rotation", obj(vec![("origin", vec3(8, 8, 8)), ("axis", s("y")), ("angle", n(45))])),
    ]);
    let e = UnresolvedElement::new(&json).unwrap();
    let r = e.rotation.unwrap();
    assert_eq!(r.origin, Vec3::new(8000, 8000, 8000));
    assert_eq!(r.axis, Axis::Y);
    assert_eq!(r.angle, 45000);
    assert!(!r.rescale);
}

#[test]
fn element_errors() {
    let bad_dir = obj(vec![("from", vec3(0, 0, 0)), ("to", vec3(1, 1, 1)), ("faces", obj(vec![("sideways", obj(vec![("texture", s("#a"))]))]))]);
    assert_eq!(UnresolvedElement::new(&bad_dir).unwrap_err(), RenderError::InvalidDirection);
    let no_tex = obj(vec![("from", vec3(0, 0, 0)), ("to", vec3(1, 1, 1)), ("faces", obj(vec![("up", obj(vec![]))]))]);
    assert_eq!(UnresolvedElement::new(&no_tex).unwrap_err(), RenderError::InvalidTexture);
    let bad_axis = obj(vec![("from", vec3(0, 0, 0)), ("to", vec3(1, 1, 1)), ("rotation", obj(vec![("origin", vec3(0, 0, 0)), ("axis", s("w")), ("angle", n(0))]))]);
    assert_eq!(UnresolvedElement::new(&bad_axis).unwrap_err(), RenderError::InvalidAxis);
    let no_angle = obj(vec![("from", vec3(0, 0, 0)), ("to", vec3(1, 1, 1)), ("rotation", obj(vec![("origin", vec3(0, 0, 0)), ("axis", s("x"))]))]);
    assert_eq!(UnresolvedElement::new(&no_angle).unwrap_err(), RenderError::InvalidAngle);
    let no_to = obj(vec![("from", vec3(0, 0, 0))]);
    assert_eq!(UnresolvedElement::new(&no_to).unwrap_err(), RenderError::MalformedModel);
}

#[test]
fn texture_with_short_uv_is_malformed() {
    let json = obj(vec![("texture", s("a")), ("uv", arr(vec![n(0), n(0)]))]);
    let r = UnresolvedTexture::new(Vec3::new(0, 0, 0), Vec3::new(16000, 16000, 16000), Direction::UP, &json);
    assert_eq!(r.unwrap_err(), RenderError::MalformedModel);
}

#[test]
fn model_body_is_read() {
    let json = obj(vec![
        ("textures", obj(vec![("particle", s("block/dirt")), ("all", s("block/stone")), ("n", n(3))])),
        ("elements", arr(vec![cube_element()])),
        ("display", obj(vec![("gui", obj(vec![
            ("rotation", vec3(30, 225, 0)),
            ("scale", arr(vec![n(1), n(2)])),
            ("ambientocclusion", JsonValue::Bool(false)),
        ]))])),
    ]);
    let m = UnresolvedModel::new(&json, None, false).unwrap();
    assert_eq!(m.texture_names, vec![(String::from("all"), String::from("block/stone"))]);
    assert_eq!(m.elements.len(), 1);
    assert_eq!(m.rotation, Some(Vec3::new(30000, 225000, 0)));
    assert_eq!(m.translation, None);
    assert_eq!(m.scale, None);
    assert!(!m.ambient_occlusion);
    assert!(m.parent.is_none());
}

#[test]
fn asset_paths() {
    let id = ResourceId::new("minecraft", "block/stone");
    assert_eq!(model_path(&id), "assets/minecraft/models/block/stone.json");
    assert_eq!(texture_path(&id), "assets/minecraft/textures/block/stone.png");
}

#[test]
fn pack_responses() {
    assert!(!usable_response(&None));
    assert!(!usable_response(&Some(Vec::new())));
    assert!(usable_response(&Some(vec![1])));
    assert_eq!(ResourcePack::new(7).pack, 7);
}

#[test]
fn implicit_block_parent() {
    let stone = ResourceId::new("minecraft", "block/stone");
    match find_parent(&stone, &obj(vec![])).unwrap() {
        ParentLink::Model(p) => assert_eq!(p.to_string(), "minecraft:block/block"),
        other => panic!("unexpected {:?}", other),
    }
    let block = ResourceId::new("minecraft", "block/block");
    assert!(matches!(find_parent(&block, &obj(vec![])).unwrap(), ParentLink::Root));
    let stick = ResourceId::new("minecraft", "item/stick");
    assert!(matches!(find_parent(&stick, &obj(vec![])).unwrap(), ParentLink::Root));
    assert!(matches!(find_parent(&stick, &obj(vec![("parent", s("builtin/generated"))])).unwrap(), ParentLink::Generated));
    assert_eq!(find_parent(&stick, &obj(vec![("parent", s("a b"))])).unwrap_err(), RenderError::InvalidResourceId);
}

#[test]
fn block_model_resolves_through_block_block() {
    let mut manager = ResourceManager::new(vec![ResourcePack::new(1)]);
    let files = [
        ("block/stone", obj(vec![("textures", obj(vec![("all", s("block/stone"))]))])),
        ("block/block", obj(vec![])),
    ];
    let id = ResourceId::new("minecraft", "block/stone");
    let m = match resolve(&mut manager, &id, &files) {
        ModelLookup::Resolved(m) => m,
        other => panic!("unexpected {:?}", other),
    };
    assert!(!m.layered);
    let parent = m.parent.unwrap();
    assert!(parent.parent.is_none());
    assert!(parent.texture_names.is_empty());
    // Served from the cache the second time.
    assert!(matches!(manager.get_model(&id), ModelLookup::Resolved(_)));
}

#[test]
fn item_model_has_no_implicit_parent() {
    let mut manager = ResourceManager::new(Vec::new());
    let files = [("item/stick", obj(vec![]))];
    let id = ResourceId::new("minecraft", "item/stick");
    match resolve(&mut manager, &id, &files) {
        ModelLookup::Resolved(m) => {
            assert!(m.parent.is_none());
            assert!(!m.layered);
        }
        other => panic!("unexpected {:?}", other),
    }
}

#[test]
fn generated_parent_marks_layered() {
    let mut manager = ResourceManager::new(Vec::new());
    let files = [("item/apple", obj(vec![("parent", s("minecraft:builtin/generated"))]))];
    let id = ResourceId::new("minecraft", "item/apple");
    match resolve(&mut manager, &id, &files) {
        ModelLookup::Resolved(m) => {
            assert!(m.layered);
            assert!(m.parent.is_none());
        }
        other => panic!("unexpected {:?}", other),
    }
}

#[test]
fn cyclic_parents_fail() {
    let mut manager = ResourceManager::new(Vec::new());
    let files = [
        ("item/a", obj(vec![("parent", s("item/b"))])),
        ("item/b", obj(vec![("parent", s("item/c"))])),
        ("item/c", obj(vec![("parent", s("item/a"))])),
    ];
    let id = ResourceId::new("minecraft", "item/a");
    assert!(matches!(resolve(&mut manager, &id, &files), ModelLookup::Failed(RenderError::CyclicModelParent)));
    let selfish = [("item/self", obj(vec![("parent", s("item/self"))]))];
    let id = ResourceId::new("minecraft", "item/self");
    assert!(matches!(resolve(&mut manager, &id, &selfish), ModelLookup::Failed(RenderError::CyclicModelParent)));
}

#[test]
fn missing_model_is_asked_for() {
    let mut manager = ResourceManager::new(Vec::new());
    let id = ResourceId::new("minecraft", "item/none");
    match manager.get_model(&id) {
        ModelLookup::NeedsFile(x) => assert_eq!(x, id),
        other => panic!("unexpected {:?}", other),
    }
    assert!(matches!(resolve(&mut manager, &id, &[]), ModelLookup::Failed(RenderError::ModelNotFound)));
}

#[test]
fn ancestor_error_comes_first() {
    let mut manager = ResourceManager::new(Vec::new());
    let bad = obj(vec![("elements", arr(vec![obj(vec![])]))]);
    let files = [("item/child", obj(vec![("parent", s("item/base"))])), ("item/base", bad)];
    let id = ResourceId::new("minecraft", "item/child");
    assert!(matches!(resolve(&mut manager, &id, &files), ModelLookup::Failed(RenderError::MalformedModel)));
}

fn png(width: u32, height: u32) -> Vec<u8> {
    let mut img = image::RgbaImage::new(width, height);
    for (x, y, p) in img.enumerate_pixels_mut() {
        *p = image::Rgba([x as u8, y as u8, 9, 255]);
    }
    let mut bytes = std::io::Cursor::new(Vec::new());
    image::DynamicImage::ImageRgba8(img).write_to(&mut bytes, image::ImageOutputFormat::Png).unwrap();
    bytes.into_inner()
}

#[test]
fn texture_is_decoded_and_cached() {
    let mut manager = ResourceManager::new(Vec::new());
    let id = ResourceId::new("minecraft", "block/dirt");
    assert!(matches!(manager.get_texture(&id), TextureLookup::NeedsFile(_)));
    assert_eq!(manager.add_texture_bytes(&id, &vec![1, 2, 3]), Err(RenderError::MalformedTexture));
    manager.add_texture_bytes(&id, &png(2, 2)).unwrap();
    match manager.get_texture(&id) {
        TextureLookup::Ready(img) => {
            assert_eq!((img.width, img.height), (2, 2));
            assert_eq!(img.pixels[3], [1, 1, 9, 255]);
        }
        other => panic!("unexpected {:?}", other),
    }
}

#[test]
fn baked_texture_comes_from_cache_the_second_time() {
    let mut manager = ResourceManager::new(Vec::new());
    let id = ResourceId::new("minecraft", "block/lava");
    assert!(matches!(manager.get_texture_with_options(&id, 0, 0, 0, 16000, 16000), TextureLookup::NeedsFile(_)));
    manager.add_texture_bytes(&id, &png(4, 8)).unwrap();
    let first = match manager.get_texture_with_options(&id, 0, 0, 0, 8000, 8000) {
        TextureLookup::Ready(img) => img,
        other => panic!("unexpected {:?}", other),
    };
    assert_eq!((first.width, first.height), (2, 2));
    assert_eq!(first.pixels, vec![[0, 0, 9, 255], [1, 0, 9, 255], [0, 1, 9, 255], [1, 1, 9, 255]]);
    let second = match manager.get_texture_with_options(&id, 0, 0, 0, 8000, 8000) {
        TextureLookup::Ready(img) => img,
        other => panic!("unexpected {:?}", other),
    };
    assert_eq!(first, second);
}

#[test]
fn rotated_texture_is_stored_once_rotated() {
    let mut manager = ResourceManager::new(Vec::new());
    let id = ResourceId::new("minecraft", "block/log");
    manager.add_texture_bytes(&id, &png(2, 2)).unwrap();
    let cut = match manager.get_texture_with_options(&id, 90, 16000, 0, 0, 16000) {
        TextureLookup::NeedsRotation(img) => img,
        other => panic!("unexpected {:?}", other),
    };
    assert_eq!(cut.pixels, vec![[1, 0, 9, 255], [0, 0, 9, 255], [1, 1, 9, 255], [0, 1, 9, 255]]);
    let rotated = Image { width: 2, height: 2, pixels: vec![[5, 5, 5, 5]; 4] };
    manager.store_texture(&id, 90, 16000, 0, 0, 16000, rotated.clone());
    match manager.get_texture_with_options(&id, 90, 16000, 0, 0, 16000) {
        TextureLookup::Ready(img) => assert_eq!(img, rotated),
        other => panic!("unexpected {:?}", other),
    }
}

#[test]
fn repeated_keys_keep_their_first_value() {
    let json = obj(vec![("textures", obj(vec![("all", s("block/a")), ("all", s("block/b"))]))]);
    let m = UnresolvedModel::new(&json, None, false).unwrap();
    assert_eq!(m.texture_names, vec![(String::from("all"), String::from("block/a"))]);
    let element = obj(vec![
        ("from", vec3(0, 0, 0)),
        ("to", vec3(16, 16, 16)),
        ("faces", obj(vec![
            ("up", obj(vec![("texture", s("#first"))])),
            ("up", obj(vec![("texture", s("#second"))])),
        ])),
    ]);
    let e = UnresolvedElement::new(&element).unwrap();
    assert_eq!(e.faces[Direction::UP.index()].as_ref().unwrap().texture_name, "first");
}

#[test]
fn failed_resolution_is_not_cached() {
    let mut manager = ResourceManager::new(Vec::new());
    let id = ResourceId::new("minecraft", "item/loop");
    manager.add_model_file(id.clone(), obj(vec![("parent", s("item/loop"))]));
    assert!(matches!(manager.get_model(&id), ModelLookup::Failed(RenderError::CyclicModelParent)));
    assert!(matches!(manager.get_model(&id), ModelLookup::Failed(RenderError::CyclicModelParent)));
}
