use vstd::prelude::*;

use crate::direction::{direction_index, parse_axis, parse_direction, Axis, Direction};
use crate::error::RenderError;
use crate::geometry::{dynamic_uv, infer_uv, ElementRotation, Vec3};
use crate::json::{as_vector, first_of_key, is_first_of_key, json_get, json_vector, JsonValue};
use crate::text::{to_upper, trim_leading, trim_start, upper_of};

verus! {

/// What a face texture reference holds: its alias name, rotation in degrees
/// and UV box (from_x, from_y, to_x, to_y).
pub struct TextureView {
    pub name: Seq<char>,
    pub rotation: i32,
    pub uv: (i64, i64, i64, i64),
}

/// One face's texture reference before aliases are resolved. The UV box is in
/// fixed-point units, a whole block spanning the texture's side.
#[derive(Debug)]
pub struct UnresolvedTexture {
    pub texture_name: String,
    pub rotation: i32,
    pub from_x: i64,
    pub from_y: i64,
    pub to_x: i64,
    pub to_y: i64,
}

impl View for UnresolvedTexture {
    type V = TextureView;

    open spec fn view(&self) -> TextureView {
        TextureView {
            name: self.texture_name@,
            rotation: self.rotation,
            uv: (self.from_x, self.from_y, self.to_x, self.to_y),
        }
    }
}

/// The rotation of a face: a whole number of degrees, or 0.
pub open spec fn face_rotation(v: Option<JsonValue>) -> i32 {
    match v {
        Some(JsonValue::Number(n)) => if n % 1000 == 0 { (n / 1000) as i32 } else { 0 },
        _ => 0,
    }
}

/// The UV box of a face: the first four numbers of its `uv` array, or the box
/// inferred from the element when there is no array.
pub open spec fn face_uv(from: Vec3, to: Vec3, d: Direction, v: Option<JsonValue>) -> Result<
    (i64, i64, i64, i64),
    RenderError,
> {
    match v {
        Some(JsonValue::Array(items)) => if items@.len() >= 4 && items@[0] is Number
            && items@[1] is Number && items@[2] is Number && items@[3] is Number {
            Ok(
                (
                    items@[0]->Number_0 as i64,
                    items@[1]->Number_0 as i64,
                    items@[2]->Number_0 as i64,
                    items@[3]->Number_0 as i64,
                ),
            )
        } else {
            Err(RenderError::MalformedModel)
        },
        _ => {
            let b = dynamic_uv(from, to, d);
            Ok((b.0 as i64, b.1 as i64, b.2 as i64, b.3 as i64))
        },
    }
}

/// The texture reference that the face object `json` of direction `d` denotes.
pub open spec fn face_texture(from: Vec3, to: Vec3, d: Direction, json: JsonValue) -> Result<
    TextureView,
    RenderError,
> {
    match json_get(json, "texture"@) {
        Some(JsonValue::Str(s)) => match face_uv(from, to, d, json_get(json, "uv"@)) {
            Ok(uv) => Ok(
                TextureView {
                    name: trim_leading(s@, '#'),
                    rotation: face_rotation(json_get(json, "rotation"@)),
                    uv,
                },
            ),
            Err(e) => Err(e),
        },
        _ => Err(RenderError::InvalidTexture),
    }
}

impl UnresolvedTexture {
    /// Reads the face object `json` of direction `direction` of an element.
    pub fn new(element_from: Vec3, element_to: Vec3, direction: Direction, json: &JsonValue) -> (r:
        Result<UnresolvedTexture, RenderError>)
        ensures
            match face_texture(element_from, element_to, direction, *json) {
                Ok(t) => r is Ok && r->Ok_0@ == t,
                Err(e) => r == Err::<UnresolvedTexture, RenderError>(e),
            },
    {
        let name = match json.get("texture") {
            Some(JsonValue::Str(s)) => trim_start(s.as_str(), '#'),
            _ => return Err(RenderError::InvalidTexture),
        };
        let rotation: i32 = match json.get("rotation") {
            Some(JsonValue::Number(n)) => if *n % 1000 == 0 { *n / 1000 } else { 0 },
            _ => 0,
        };
        let uv: (i64, i64, i64, i64) = match json.get("uv") {
            Some(JsonValue::Array(items)) => {
                if items.len() >= 4 {
                    match (&items[0], &items[1], &items[2], &items[3]) {
                        (
                            JsonValue::Number(a),
                            JsonValue::Number(b),
                            JsonValue::Number(c),
                            JsonValue::Number(d),
                        ) => (*a as i64, *b as i64, *c as i64, *d as i64),
                        _ => return Err(RenderError::MalformedModel),
                    }
                } else {
                    return Err(RenderError::MalformedModel);
                }
            },
            _ => infer_uv(element_from, element_to, direction),
        };
        Ok(
            UnresolvedTexture {
                texture_name: name,
                rotation,
                from_x: uv.0,
                from_y: uv.1,
                to_x: uv.2,
                to_y: uv.3,
            },
        )
    }

    /// A copy of this reference.
    pub fn duplicate(&self) -> (r: UnresolvedTexture)
        ensures
            r@ == self@,
    {
        UnresolvedTexture {
            texture_name: self.texture_name.clone(),
            rotation: self.rotation,
            from_x: self.from_x,
            from_y: self.from_y,
            to_x: self.to_x,
            to_y: self.to_y,
        }
    }
}

/// What an element holds: its extent, its rotation and, for each direction
/// (by `direction_index`), its face, if any.
pub struct ElementView {
    pub from: Vec3,
    pub to: Vec3,
    pub rotation: Option<ElementRotation>,
    pub faces: Seq<Option<TextureView>>,
}

/// One cuboid of a model before its textures are resolved; `faces` has one
/// slot per direction, in `direction_index` order.
#[derive(Debug)]
pub struct UnresolvedElement {
    pub from: Vec3,
    pub to: Vec3,
    pub rotation: Option<ElementRotation>,
    pub faces: Vec<Option<UnresolvedTexture>>,
}

pub open spec fn face_view(f: Option<UnresolvedTexture>) -> Option<TextureView> {
    match f {
        Some(t) => Some(t@),
        None => None,
    }
}

impl View for UnresolvedElement {
    type V = ElementView;

    open spec fn view(&self) -> ElementView {
        ElementView {
            from: self.from,
            to: self.to,
            rotation: self.rotation,
            faces: self.faces@.map_values(|f: Option<UnresolvedTexture>| face_view(f)),
        }
    }
}

/// The rotation object of an element.
pub open spec fn element_rotation(json: JsonValue) -> Result<ElementRotation, RenderError> {
    match json_vector(json_get(json, "origin"@)) {
        None => Err(RenderError::MalformedModel),
        Some(origin) => match json_get(json, "axis"@) {
            Some(JsonValue::Str(a)) => match parse_axis(upper_of(a@)) {
                Some(axis) => match json_get(json, "angle"@) {
                    Some(JsonValue::Number(angle)) => Ok(
                        ElementRotation {
                            origin,
                            axis,
                            angle,
                            rescale: match json_get(json, "rescale"@) {
                                Some(JsonValue::Bool(b)) => b,
                                _ => false,
                            },
                        },
                    ),
                    _ => Err(RenderError::InvalidAngle),
                },
                None => Err(RenderError::InvalidAxis),
            },
            _ => Err(RenderError::InvalidAxis),
        },
    }
}

pub open spec fn no_faces() -> Seq<Option<TextureView>> {
    seq![None, None, None, None, None, None]
}

/// The faces read from the first `n` members of a `faces` object; a later
/// member for the same direction replaces an earlier one, and a repeated key
/// counts only where it first stands.
pub open spec fn element_faces(from: Vec3, to: Vec3, entries: Seq<(String, JsonValue)>, n: int) -> Result<
    Seq<Option<TextureView>>,
    RenderError,
>
    decreases n,
{
    if n <= 0 {
        Ok(no_faces())
    } else {
        match element_faces(from, to, entries, n - 1) {
            Err(e) => Err(e),
            Ok(faces) => if !first_of_key(entries, n - 1) {
                Ok(faces)
            } else {
                match parse_direction(upper_of(entries[n - 1].0@)) {
                None => Err(RenderError::InvalidDirection),
                Some(d) => match face_texture(from, to, d, entries[n - 1].1) {
                    Err(e) => Err(e),
                    Ok(t) => Ok(faces.update(direction_index(d), Some(t))),
                },
            }
            },
        }
    }
}

/// The element that the object `json` denotes.
pub open spec fn element_spec(json: JsonValue) -> Result<ElementView, RenderError> {
    match (json_vector(json_get(json, "from"@)), json_vector(json_get(json, "to"@))) {
        (Some(from), Some(to)) => {
            let rotation = match json_get(json, "rotation"@) {
                Some(JsonValue::Object(entries)) => match element_rotation(
                    JsonValue::Object(entries),
                ) {
                    Ok(r) => Ok(Some(r)),
                    Err(e) => Err(e),
                },
                _ => Ok(None),
            };
            let faces = match json_get(json, "faces"@) {
                Some(JsonValue::Object(entries)) => element_faces(
                    from,
                    to,
                    entries@,
                    entries@.len() as int,
                ),
                _ => Ok(no_faces()),
            };
            match rotation {
                Err(e) => Err(e),
                Ok(rotation) => match faces {
                    Err(e) => Err(e),
                    Ok(faces) => Ok(ElementView { from, to, rotation, faces }),
                },
            }
        },
        _ => Err(RenderError::MalformedModel),
    }
}

proof fn lemma_faces_error_sticks(
    from: Vec3,
    to: Vec3,
    entries: Seq<(String, JsonValue)>,
    i: int,
    n: int,
)
    requires
        0 <= i <= n,
        element_faces(from, to, entries, i) is Err,
    ensures
        element_faces(from, to, entries, n) == element_faces(from, to, entries, i),
    decreases n - i,
{
    if n > i {
        lemma_faces_error_sticks(from, to, entries, i, n - 1);
    }
}

fn parse_rotation(json: &JsonValue) -> (r: Result<ElementRotation, RenderError>)
    ensures
        r == element_rotation(*json),
{
    let origin = match as_vector(json.get("origin")) {
        Some(v) => v,
        None => return Err(RenderError::MalformedModel),
    };
    let axis = match json.get("axis") {
        Some(JsonValue::Str(a)) => {
            let upper = to_upper(a.as_str());
            match Axis::from_str(upper.as_str()) {
                Ok(axis) => axis,
                Err(e) => return Err(e),
            }
        },
        _ => return Err(RenderError::InvalidAxis),
    };
    let angle = match json.get("angle") {
        Some(JsonValue::Number(n)) => *n,
        _ => return Err(RenderError::InvalidAngle),
    };
    let rescale = match json.get("rescale") {
        Some(JsonValue::Bool(b)) => *b,
        _ => false,
    };
    Ok(ElementRotation { origin, axis, angle, rescale })
}

impl UnresolvedElement {
    /// Reads an element object: `from` and `to` (required), an optional
    /// rotation, and its faces.
    pub fn new(json: &JsonValue) -> (r: Result<UnresolvedElement, RenderError>)
        ensures
            match element_spec(*json) {
                Ok(e) => r is Ok && r->Ok_0@ == e && r->Ok_0.faces@.len() == 6,
                Err(e) => r == Err::<UnresolvedElement, RenderError>(e),
            },
    {
        let from = match as_vector(json.get("from")) {
            Some(v) => v,
            None => return Err(RenderError::MalformedModel),
        };
        let to = match as_vector(json.get("to")) {
            Some(v) => v,
            None => return Err(RenderError::MalformedModel),
        };
        let rotation = match json.get("rotation") {
            Some(r) => match r {
                JsonValue::Object(_) => match parse_rotation(r) {
                    Ok(rot) => Some(rot),
                    Err(e) => return Err(e),
                },
                _ => None,
            },
            None => None,
        };
        let mut faces: Vec<Option<UnresolvedTexture>> = vec![None, None, None, None, None, None];
        proof {
            assert(faces@.map_values(|f: Option<UnresolvedTexture>| face_view(f)) =~= no_faces());
        }
        match json.get("faces") {
            Some(JsonValue::Object(entries)) => {
                let mut i: usize = 0;
                while i < entries.len()
                    invariant
                        i <= entries@.len(),
                        faces@.len() == 6,
                        json_get(*json, "faces"@) == Some(JsonValue::Object(*entries)),
                        json_vector(json_get(*json, "from"@)) == Some(from),
                        json_vector(json_get(*json, "to"@)) == Some(to),
                        match json_get(*json, "rotation"@) {
                            Some(JsonValue::Object(es)) => element_rotation(JsonValue::Object(es))
                                == Ok::<ElementRotation, RenderError>(rotation->Some_0)
                                && rotation is Some,
                            _ => rotation is None,
                        },
                        element_faces(from, to, entries@, i as int) == Ok::<
                            Seq<Option<TextureView>>,
                            RenderError,
                        >(faces@.map_values(|f: Option<UnresolvedTexture>| face_view(f))),
                    decreases entries@.len() - i,
                {
                    if !is_first_of_key(entries, i) {
                        i = i + 1;
                        continue;
                    }
                    let upper = to_upper(entries[i].0.as_str());
                    let direction = match Direction::from_str(upper.as_str()) {
                        Ok(d) => d,
                        Err(e) => {
                            proof {
                                lemma_faces_error_sticks(from, to, entries@, i + 1, entries@.len() as int);
                            }
                            return Err(e);
                        },
                    };
                    let texture = match UnresolvedTexture::new(from, to, direction, &entries[i].1) {
                        Ok(t) => t,
                        Err(e) => {
                            proof {
                                lemma_faces_error_sticks(from, to, entries@, i + 1, entries@.len() as int);
                            }
                            return Err(e);
                        },
                    };
                    let ghost before = faces@;
                    faces.set(direction.index(), Some(texture));
                    proof {
                        assert(faces@.map_values(|f: Option<UnresolvedTexture>| face_view(f))
                            =~= before.map_values(|f: Option<UnresolvedTexture>| face_view(f)).update(
                            direction_index(direction),
                            Some(texture@),
                        ));
                    }
                    i = i + 1;
                }
            },
            _ => {},
        }
        Ok(UnresolvedElement { from, to, rotation, faces })
    }
}

impl UnresolvedElement {
    /// A copy of this element.
    pub fn duplicate(&self) -> (r: UnresolvedElement)
        ensures
            r@ == self@,
    {
        let mut faces: Vec<Option<UnresolvedTexture>> = Vec::new();
        let mut i: usize = 0;
        while i < self.faces.len()
            invariant
                i <= self.faces@.len(),
                faces@.len() == i,
                forall|j: int| 0 <= j < i ==> face_view(#[trigger] faces@[j]) == face_view(self.faces@[j]),
            decreases self.faces@.len() - i,
        {
            let face = match &self.faces[i] {
                Some(t) => Some(t.duplicate()),
                None => None,
            };
            faces.push(face);
            i = i + 1;
        }
        let r = UnresolvedElement { from: self.from, to: self.to, rotation: self.rotation, faces };
        assert(r@.faces =~= self@.faces);
        r
    }
}

/// The texture aliases among the first `n` members of a `textures` object:
/// members whose value is a string, except `particle`; a repeated key counts
/// only where it first stands.
pub open spec fn texture_aliases(entries: Seq<(String, JsonValue)>, n: int) -> Seq<
    (Seq<char>, Seq<char>),
>
    decreases n,
{
    if n <= 0 {
        seq![]
    } else {
        let before = texture_aliases(entries, n - 1);
        if !first_of_key(entries, n - 1) {
            before
        } else {
            match entries[n - 1].1 {
            JsonValue::Str(v) => if entries[n - 1].0@ == "particle"@ {
                before
            } else {
                before.push((entries[n - 1].0@, v@))
            },
            _ => before,
            }
        }
    }
}

/// The elements read from the first `n` items of an `elements` array.
pub open spec fn element_list(items: Seq<JsonValue>, n: int) -> Result<Seq<ElementView>, RenderError>
    decreases n,
{
    if n <= 0 {
        Ok(seq![])
    } else {
        match element_list(items, n - 1) {
            Err(e) => Err(e),
            Ok(before) => match element_spec(items[n - 1]) {
                Err(e) => Err(e),
                Ok(el) => Ok(before.push(el)),
            },
        }
    }
}

/// The `display.gui` object of a model, if there is one.
pub open spec fn gui_of(json: JsonValue) -> Option<JsonValue> {
    match json_get(json, "display"@) {
        Some(display) => match json_get(display, "gui"@) {
            Some(JsonValue::Object(entries)) => Some(JsonValue::Object(entries)),
            _ => None,
        },
        None => None,
    }
}

/// What a model file holds besides its parent.
pub struct BodyView {
    pub textures: Seq<(Seq<char>, Seq<char>)>,
    pub elements: Seq<ElementView>,
    pub ambient_occlusion: bool,
    pub rotation: Option<Vec3>,
    pub translation: Option<Vec3>,
    pub scale: Option<Vec3>,
}

/// The body of the model file `json`.
pub open spec fn model_body(json: JsonValue) -> Result<BodyView, RenderError> {
    let textures = match json_get(json, "textures"@) {
        Some(JsonValue::Object(entries)) => texture_aliases(entries@, entries@.len() as int),
        _ => seq![],
    };
    let elements = match json_get(json, "elements"@) {
        Some(JsonValue::Array(items)) => element_list(items@, items@.len() as int),
        _ => Ok(seq![]),
    };
    let gui = gui_of(json);
    match elements {
        Err(e) => Err(e),
        Ok(elements) => Ok(
            BodyView {
                textures,
                elements,
                ambient_occlusion: match gui {
                    Some(g) => match json_get(g, "ambientocclusion"@) {
                        Some(JsonValue::Bool(b)) => b,
                        _ => true,
                    },
                    None => true,
                },
                rotation: match gui {
                    Some(g) => json_vector(json_get(g, "rotation"@)),
                    None => None,
                },
                translation: match gui {
                    Some(g) => json_vector(json_get(g, "translation"@)),
                    None => None,
                },
                scale: match gui {
                    Some(g) => json_vector(json_get(g, "scale"@)),
                    None => None,
                },
            },
        ),
    }
}

/// A model as read from its file, owning the chain of its ancestors.
#[derive(Debug)]
pub struct UnresolvedModel {
    pub layered: bool,
    pub parent: Option<Box<UnresolvedModel>>,
    pub texture_names: Vec<(String, String)>,
    pub elements: Vec<UnresolvedElement>,
    pub ambient_occlusion: bool,
    pub rotation: Option<Vec3>,
    pub translation: Option<Vec3>,
    pub scale: Option<Vec3>,
}

impl UnresolvedModel {
    /// Everything but the parent link.
    pub open spec fn body(&self) -> BodyView {
        BodyView {
            textures: self.texture_names@.map_values(|e: (String, String)| (e.0@, e.1@)),
            elements: self.elements@.map_values(|e: UnresolvedElement| e@),
            ambient_occlusion: self.ambient_occlusion,
            rotation: self.rotation,
            translation: self.translation,
            scale: self.scale,
        }
    }

    /// Reads the model file `json` under the given (already resolved) parent.
    pub fn new(json: &JsonValue, parent: Option<UnresolvedModel>, layered: bool) -> (r: Result<
        UnresolvedModel,
        RenderError,
    >)
        ensures
            match model_body(*json) {
                Ok(b) => r is Ok && r->Ok_0.body() == b && r->Ok_0.layered == layered && (
                match parent {
                    Some(p) => r->Ok_0.parent is Some && *r->Ok_0.parent->Some_0 == p,
                    None => r->Ok_0.parent is None,
                }),
                Err(e) => r == Err::<UnresolvedModel, RenderError>(e),
            },
    {
        let texture_names = Self::parse_textures(json);
        let elements = match Self::parse_elements(json) {
            Ok(es) => es,
            Err(e) => return Err(e),
        };
        let mut rotation = None;
        let mut translation = None;
        let mut scale = None;
        let mut ambient_occlusion = true;
        let gui = match json.get("display") {
            Some(display) => match display.get("gui") {
                Some(g) => match g {
                    JsonValue::Object(_) => Some(g),
                    _ => None,
                },
                None => None,
            },
            None => None,
        };
        if let Some(g) = gui {
            rotation = as_vector(g.get("rotation"));
            translation = as_vector(g.get("translation"));
            scale = as_vector(g.get("scale"));
            if let Some(JsonValue::Bool(b)) = g.get("ambientocclusion") {
                ambient_occlusion = *b;
            }
        }
        let parent = match parent {
            Some(p) => Some(Box::new(p)),
            None => None,
        };
        Ok(
            UnresolvedModel {
                layered,
                parent,
                texture_names,
                elements,
                ambient_occlusion,
                rotation,
                translation,
                scale,
            },
        )
    }

    /// The texture aliases of a model file, without `particle`.
    pub fn parse_textures(json: &JsonValue) -> (r: Vec<(String, String)>)
        ensures
            r@.map_values(|e: (String, String)| (e.0@, e.1@)) == match json_get(
                *json,
                "textures"@,
            ) {
                Some(JsonValue::Object(entries)) => texture_aliases(
                    entries@,
                    entries@.len() as int,
                ),
                _ => seq![],
            },
    {
        let mut textures: Vec<(String, String)> = Vec::new();
        assert(textures@.map_values(|e: (String, String)| (e.0@, e.1@)) =~= seq![]);
        if let Some(JsonValue::Object(entries)) = json.get("textures") {
            let mut i: usize = 0;
            while i < entries.len()
                invariant
                    i <= entries@.len(),
                    textures@.map_values(|e: (String, String)| (e.0@, e.1@)) == texture_aliases(
                        entries@,
                        i as int,
                    ),
                decreases entries@.len() - i,
            {
                if !is_first_of_key(entries, i) {
                    i = i + 1;
                    continue;
                }
                if let JsonValue::Str(v) = &entries[i].1 {
                    proof {
                        reveal_strlit("particle");
                    }
                    if !crate::text::str_equal(entries[i].0.as_str(), "particle") {
                        let ghost before = textures@;
                        textures.push((entries[i].0.clone(), v.clone()));
                        assert(textures@.map_values(|e: (String, String)| (e.0@, e.1@))
                            =~= before.map_values(|e: (String, String)| (e.0@, e.1@)).push(
                            (entries@[i as int].0@, v@),
                        ));
                    }
                }
                i = i + 1;
            }
        }
        textures
    }

    /// The elements of a model file, in order; the first element that cannot
    /// be read decides the error.
    pub fn parse_elements(json: &JsonValue) -> (r: Result<Vec<UnresolvedElement>, RenderError>)
        ensures
            match (
                match json_get(*json, "elements"@) {
                    Some(JsonValue::Array(items)) => element_list(items@, items@.len() as int),
                    _ => Ok(seq![]),
                }
            ) {
                Ok(es) => r is Ok && r->Ok_0@.map_values(|e: UnresolvedElement| e@) == es,
                Err(e) => r == Err::<Vec<UnresolvedElement>, RenderError>(e),
            },
    {
        let mut elements: Vec<UnresolvedElement> = Vec::new();
        if let Some(JsonValue::Array(items)) = json.get("elements") {
            let mut i: usize = 0;
            assert(elements@.map_values(|e: UnresolvedElement| e@) =~= seq![]);
            while i < items.len()
                invariant
                    i <= items@.len(),
                    json_get(*json, "elements"@) == Some(JsonValue::Array(*items)),
                    element_list(items@, i as int) == Ok::<Seq<ElementView>, RenderError>(
                        elements@.map_values(|e: UnresolvedElement| e@),
                    ),
                decreases items@.len() - i,
            {
                match UnresolvedElement::new(&items[i]) {
                    Ok(el) => {
                        let ghost before = elements@;
                        elements.push(el);
                        assert(elements@.map_values(|e: UnresolvedElement| e@) =~= before.map_values(
                            |e: UnresolvedElement| e@,
                        ).push(el@));
                    },
                    Err(e) => {
                        proof {
                            lemma_list_error_sticks(items@, i + 1, items@.len() as int);
                        }
                        return Err(e);
                    },
                }
                i = i + 1;
            }
        }
        Ok(elements)
    }
}

proof fn lemma_list_error_sticks(items: Seq<JsonValue>, i: int, n: int)
    requires
        0 <= i <= n,
        element_list(items, i) is Err,
    ensures
        element_list(items, n) == element_list(items, i),
    decreases n - i,
{
    if n > i {
        lemma_list_error_sticks(items, i, n - 1);
    }
}

proof fn lemma_faces_not_cyclic(from: Vec3, to: Vec3, entries: Seq<(String, JsonValue)>, n: int)
    ensures
        element_faces(from, to, entries, n) != Err::<Seq<Option<TextureView>>, RenderError>(
            RenderError::CyclicModelParent,
        ),
    decreases n,
{
    if n > 0 {
        lemma_faces_not_cyclic(from, to, entries, n - 1);
    }
}

proof fn lemma_list_not_cyclic(items: Seq<JsonValue>, n: int)
    ensures
        element_list(items, n) != Err::<Seq<ElementView>, RenderError>(RenderError::CyclicModelParent),
    decreases n,
{
    if n > 0 {
        lemma_list_not_cyclic(items, n - 1);
        let json = items[n - 1];
        if let Some(JsonValue::Object(entries)) = json_get(json, "faces"@) {
            if let (Some(from), Some(to)) = (
                json_vector(json_get(json, "from"@)),
                json_vector(json_get(json, "to"@)),
            ) {
                lemma_faces_not_cyclic(from, to, entries@, entries@.len() as int);
            }
        }
    }
}

/// Reading a model body never reports a cyclic parent: that error belongs to
/// following parent links.
pub proof fn lemma_body_not_cyclic(json: JsonValue)
    ensures
        model_body(json) != Err::<BodyView, RenderError>(RenderError::CyclicModelParent),
{
    if let Some(JsonValue::Array(items)) = json_get(json, "elements"@) {
        lemma_list_not_cyclic(items@, items@.len() as int);
    }
}

} // verus!
