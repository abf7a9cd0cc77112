use vstd::prelude::*;

use crate::error::RenderError;
use crate::json::{json_get, JsonValue};
use crate::resource_id::{default_namespace, id_text, parse_id, ResourceId};
use crate::text::str_equal;
use crate::geometry::UNITS_PER_BLOCK;
use crate::texture::{
    decode_image,
    decoded_image,
    first_frame,
    get_with_uv,
    region_pixel,
    region_side,
    uv_pixel,
    uv_to_pixel,
    Image,
    ImageContent,
};
use crate::unresolved_model::{lemma_body_not_cyclic, model_body, BodyView, UnresolvedModel};

verus! {

/// The view of a resource id: (namespace, path).
pub type IdView = (Seq<char>, Seq<char>);

/// A resource pack, known by the handle under which its host provides bytes.
#[derive(Debug, Clone, Copy, PartialEq, Eq)]
pub struct ResourcePack {
    pub pack: usize,
}

impl ResourcePack {
    pub fn new(pack: usize) -> (r: ResourcePack)
        ensures
            r.pack == pack,
    {
        ResourcePack { pack }
    }
}

/// Whether a pack's answer counts: bytes that are there and not empty.
pub fn usable_response(response: &Option<Vec<u8>>) -> (r: bool)
    ensures
        r == (response is Some && response->Some_0@.len() > 0),
{
    match response {
        Some(bytes) => bytes.len() > 0,
        None => false,
    }
}

/// `assets/<namespace>/<kind>/<path><suffix>`.
pub open spec fn asset_path(id: IdView, kind: Seq<char>, suffix: Seq<char>) -> Seq<char> {
    "assets/"@ + id.0 + "/"@ + kind + "/"@ + id.1 + suffix
}

fn build_asset_path(id: &ResourceId, kind: &str, suffix: &str) -> (r: String)
    ensures
        r@ == asset_path(id@, kind@, suffix@),
{
    let r = String::from_str("assets/").concat(id.namespace()).concat("/").concat(kind).concat(
        "/",
    ).concat(id.path()).concat(suffix);
    assert(r@ =~= asset_path(id@, kind@, suffix@));
    r
}

/// Where a model file lives in a pack.
pub fn model_path(id: &ResourceId) -> (r: String)
    ensures
        r@ == asset_path(id@, "models"@, ".json"@),
{
    build_asset_path(id, "models", ".json")
}

/// Where a texture file lives in a pack.
pub fn texture_path(id: &ResourceId) -> (r: String)
    ensures
        r@ == asset_path(id@, "textures"@, ".png"@),
{
    build_asset_path(id, "textures", ".png")
}

/// The parent of a model: none, the built-in generated item marker, or a
/// model to inherit from.
#[derive(Debug)]
pub enum ParentLink {
    Root,
    Generated,
    Model(ResourceId),
}

pub enum LinkView {
    Root,
    Generated,
    Model(IdView),
}

impl View for ParentLink {
    type V = LinkView;

    open spec fn view(&self) -> LinkView {
        match self {
            ParentLink::Root => LinkView::Root,
            ParentLink::Generated => LinkView::Generated,
            ParentLink::Model(id) => LinkView::Model(id@),
        }
    }
}

/// The id of the built-in generated item marker.
pub open spec fn generated_id() -> IdView {
    (default_namespace(), "builtin/generated"@)
}

/// The id of the model that block models inherit from by default.
pub open spec fn block_block_id() -> IdView {
    (default_namespace(), "block/block"@)
}

/// The parent of model `id` read from its file `json`: the declared `parent`
/// if there is one; else `block/block` for a block model other than
/// `block/block` itself; else none.
pub open spec fn parent_link(id: IdView, json: JsonValue) -> Result<LinkView, RenderError> {
    match json_get(json, "parent"@) {
        Some(JsonValue::Str(p)) => match parse_id(p@) {
            None => Err(RenderError::InvalidResourceId),
            Some(pid) => if id_text(pid.0, pid.1) == id_text(generated_id().0, generated_id().1) {
                Ok(LinkView::Generated)
            } else {
                Ok(LinkView::Model(pid))
            },
        },
        _ => if id.1.len() >= 6 && id.1.subrange(0, 6) == "block/"@ && id.1 != "block/block"@ {
            Ok(LinkView::Model(block_block_id()))
        } else {
            Ok(LinkView::Root)
        },
    }
}

/// Finds the parent of model `id` in its file `json`.
pub fn find_parent(id: &ResourceId, json: &JsonValue) -> (r: Result<ParentLink, RenderError>)
    ensures
        match parent_link(id@, *json) {
            Ok(l) => r is Ok && r->Ok_0@ == l,
            Err(e) => r == Err::<ParentLink, RenderError>(e),
        },
{
    proof {
        reveal_strlit("minecraft");
        reveal_strlit("minecraft:builtin/generated");
        reveal_strlit("block/");
        reveal_strlit("block/block");
        reveal_strlit("builtin/generated");
    }
    match json.get("parent") {
        Some(JsonValue::Str(p)) => {
            let parent = match ResourceId::of(p.as_str()) {
                Ok(pid) => pid,
                Err(e) => return Err(e),
            };
            let text = parent.to_string();
            assert(id_text(generated_id().0, generated_id().1) =~= "minecraft:builtin/generated"@);
            if str_equal(text.as_str(), "minecraft:builtin/generated") {
                Ok(ParentLink::Generated)
            } else {
                Ok(ParentLink::Model(parent))
            }
        },
        _ => {
            let path = id.path();
            let n = path.unicode_len();
            if n >= 6 && str_equal(path.substring_char(0, 6), "block/") && !str_equal(
                path,
                "block/block",
            ) {
                let r = ResourceId::new("minecraft", "block/block");
                assert(r@ =~= block_block_id());
                Ok(ParentLink::Model(r))
            } else {
                Ok(ParentLink::Root)
            }
        },
    }
}

/// The model files on hand: the file of `id`, if there is one.
pub open spec fn file_of(files: Seq<(ResourceId, JsonValue)>, id: IdView) -> Option<JsonValue> {
    if exists|i: int| 0 <= i < files.len() && files[i].0@ == id {
        Some(files[choose|i: int| 0 <= i < files.len() && files[i].0@ == id].1)
    } else {
        None
    }
}

/// No two files are for the same id.
pub open spec fn keys_unique(files: Seq<(ResourceId, JsonValue)>) -> bool {
    forall|i: int, j: int|
        0 <= i < files.len() && 0 <= j < files.len() && #[trigger] files[i].0@ == #[trigger] files[j].0@
            ==> i == j
}

/// Where following parent links from a model leads.
pub enum WalkView {
    /// The file of this model is not on hand yet.
    Missing(IdView),
    /// A parent link could not be read.
    Failed(RenderError),
    /// A link leads back to a model already on the chain.
    Cycle,
    /// The chain of models, from the one asked for up to one without a parent.
    Complete(Seq<IdView>),
}

/// Follows parent links from the last model of `chain`. (A chain longer than
/// one more than the number of files must repeat a model, so the walk calls
/// that a cycle too, which bounds it; `lemma_cyclic_parent_fails` shows that
/// every cycle it reports is a real one.)
pub open spec fn walk(files: Seq<(ResourceId, JsonValue)>, chain: Seq<IdView>) -> WalkView
    decreases files.len() + 2 - chain.len(),
{
    if chain.len() == 0 || chain.len() > files.len() + 1 {
        WalkView::Cycle
    } else {
        let current = chain.last();
        match file_of(files, current) {
            None => WalkView::Missing(current),
            Some(json) => match parent_link(current, json) {
                Err(e) => WalkView::Failed(e),
                Ok(LinkView::Model(p)) => if chain.contains(p) {
                    WalkView::Cycle
                } else {
                    walk(files, chain.push(p))
                },
                Ok(_) => WalkView::Complete(chain),
            },
        }
    }
}

/// The first error, from the far end of the chain back to position `k`, that
/// reading a model body gives.
pub open spec fn chain_error(files: Seq<(ResourceId, JsonValue)>, chain: Seq<IdView>, k: int) -> Option<
    RenderError,
>
    decreases chain.len() - k,
{
    if k < 0 || k >= chain.len() {
        None
    } else {
        match chain_error(files, chain, k + 1) {
            Some(e) => Some(e),
            None => match file_of(files, chain[k]) {
                Some(json) => match model_body(json) {
                    Err(e) => Some(e),
                    Ok(_) => None,
                },
                None => None,
            },
        }
    }
}

/// What a resolved model holds, its ancestors included.
pub struct ModelView {
    pub layered: bool,
    pub body: BodyView,
    pub parent: Option<Box<ModelView>>,
}

pub open spec fn model_view(m: UnresolvedModel) -> ModelView
    decreases m,
{
    ModelView {
        layered: m.layered,
        body: m.body(),
        parent: match m.parent {
            Some(p) => Some(Box::new(model_view(*p))),
            None => None,
        },
    }
}

/// The model that the chain from position `k` on resolves to.
pub open spec fn chain_model(files: Seq<(ResourceId, JsonValue)>, chain: Seq<IdView>, k: int) -> ModelView
    decreases chain.len() - k,
{
    let json = file_of(files, chain[k])->Some_0;
    ModelView {
        layered: parent_link(chain[k], json) == Ok::<LinkView, RenderError>(LinkView::Generated),
        body: model_body(json)->Ok_0,
        parent: if 0 <= k && k + 1 < chain.len() {
            Some(Box::new(chain_model(files, chain, k + 1)))
        } else {
            None
        },
    }
}

proof fn lemma_file_at(files: Seq<(ResourceId, JsonValue)>, i: int)
    requires
        keys_unique(files),
        0 <= i < files.len(),
    ensures
        file_of(files, files[i].0@) == Some(files[i].1),
{
    let id = files[i].0@;
    assert(exists|j: int| 0 <= j < files.len() && files[j].0@ == id);
    let j = choose|j: int| 0 <= j < files.len() && files[j].0@ == id;
    assert(files[j].0@ == files[i].0@);
}

fn copy_texture_names(names: &Vec<(String, String)>) -> (r: Vec<(String, String)>)
    ensures
        r@.map_values(|e: (String, String)| (e.0@, e.1@)) == names@.map_values(
            |e: (String, String)| (e.0@, e.1@),
        ),
{
    let mut r: Vec<(String, String)> = Vec::new();
    let mut i: usize = 0;
    while i < names.len()
        invariant
            i <= names@.len(),
            r@.len() == i,
            forall|j: int| 0 <= j < i ==> (#[trigger] r@[j]).0@ == names@[j].0@ && r@[j].1@ == names@[j].1@,
        decreases names@.len() - i,
    {
        r.push((names[i].0.clone(), names[i].1.clone()));
        i = i + 1;
    }
    assert(r@.map_values(|e: (String, String)| (e.0@, e.1@)) =~= names@.map_values(
        |e: (String, String)| (e.0@, e.1@),
    ));
    r
}

fn copy_elements(elements: &Vec<crate::unresolved_model::UnresolvedElement>) -> (r: Vec<
    crate::unresolved_model::UnresolvedElement,
>)
    ensures
        r@.map_values(|e: crate::unresolved_model::UnresolvedElement| e@) == elements@.map_values(
            |e: crate::unresolved_model::UnresolvedElement| e@,
        ),
{
    let mut r: Vec<crate::unresolved_model::UnresolvedElement> = Vec::new();
    let mut i: usize = 0;
    while i < elements.len()
        invariant
            i <= elements@.len(),
            r@.len() == i,
            forall|j: int| 0 <= j < i ==> (#[trigger] r@[j])@ == elements@[j]@,
        decreases elements@.len() - i,
    {
        r.push(elements[i].duplicate());
        i = i + 1;
    }
    assert(r@.map_values(|e: crate::unresolved_model::UnresolvedElement| e@) =~= elements@.map_values(
        |e: crate::unresolved_model::UnresolvedElement| e@,
    ));
    r
}

/// A copy of a model and of its ancestors.
pub fn copy_model(m: &UnresolvedModel) -> (r: UnresolvedModel)
    ensures
        model_view(r) == model_view(*m),
    decreases *m,
{
    let parent = match &m.parent {
        Some(p) => Some(Box::new(copy_model(p))),
        None => None,
    };
    UnresolvedModel {
        layered: m.layered,
        parent,
        texture_names: copy_texture_names(&m.texture_names),
        elements: copy_elements(&m.elements),
        ambient_occlusion: m.ambient_occlusion,
        rotation: m.rotation,
        translation: m.translation,
        scale: m.scale,
    }
}

proof fn lemma_chain_error_reaches_front(files: Seq<(ResourceId, JsonValue)>, chain: Seq<IdView>, k: int)
    requires
        0 <= k < chain.len(),
        chain_error(files, chain, k) is Some,
    ensures
        chain_error(files, chain, 0) == chain_error(files, chain, k),
    decreases k,
{
    if k > 0 {
        lemma_chain_error_reaches_front(files, chain, k - 1);
    }
}

proof fn lemma_file_kept(files: Seq<(ResourceId, JsonValue)>, x: (ResourceId, JsonValue), y: IdView)
    requires
        keys_unique(files),
        file_of(files, x.0@) is None,
        file_of(files, y) is Some,
    ensures
        file_of(files.push(x), y) == file_of(files, y),
{
    let i = choose|i: int| 0 <= i < files.len() && files[i].0@ == y;
    let f2 = files.push(x);
    assert(f2[i] == files[i]);
    let j = choose|j: int| 0 <= j < f2.len() && f2[j].0@ == y;
    if j == files.len() {
        assert(files[i].0@ == x.0@);
        assert(false);
    } else {
        assert(f2[j] == files[j]);
        assert(files[j].0@ == files[i].0@);
    }
}

proof fn lemma_walk_kept(files: Seq<(ResourceId, JsonValue)>, x: (ResourceId, JsonValue), chain: Seq<IdView>)
    requires
        keys_unique(files),
        file_of(files, x.0@) is None,
        walk(files, chain) is Complete,
        forall|i: int| 0 <= i < chain.len() - 1 ==> file_of(files, #[trigger] chain[i]) is Some,
    ensures
        walk(files.push(x), chain) == walk(files, chain),
        walk(files, chain)->Complete_0.len() >= chain.len(),
        forall|i: int|
            0 <= i < walk(files, chain)->Complete_0.len() ==> file_of(
                files,
                #[trigger] walk(files, chain)->Complete_0[i],
            ) is Some,
    decreases files.len() + 2 - chain.len(),
{
    let current = chain.last();
    lemma_file_kept(files, x, current);
    match parent_link(current, file_of(files, current)->Some_0) {
        Ok(LinkView::Model(p)) => {
            if !chain.contains(p) {
                let next = chain.push(p);
                assert forall|i: int| 0 <= i < next.len() - 1 implies file_of(files, #[trigger] next[i]) is Some by {
                    if i < chain.len() - 1 {
                        assert(next[i] == chain[i]);
                    }
                }
                lemma_walk_kept(files, x, next);
            }
        },
        _ => {},
    }
}

proof fn lemma_chain_kept(files: Seq<(ResourceId, JsonValue)>, x: (ResourceId, JsonValue), chain: Seq<IdView>, k: int)
    requires
        keys_unique(files),
        file_of(files, x.0@) is None,
        0 <= k,
        forall|i: int| 0 <= i < chain.len() ==> file_of(files, #[trigger] chain[i]) is Some,
    ensures
        chain_error(files.push(x), chain, k) == chain_error(files, chain, k),
        k < chain.len() ==> chain_model(files.push(x), chain, k) == chain_model(files, chain, k),
    decreases chain.len() - k,
{
    if k < chain.len() {
        lemma_file_kept(files, x, chain[k]);
        lemma_chain_kept(files, x, chain, k + 1);
    }
}

proof fn lemma_cycle_walk(files: Seq<(ResourceId, JsonValue)>, chain: Seq<IdView>, back: int, k: int)
    requires
        1 <= k <= chain.len(),
        0 <= back < chain.len(),
        forall|j: int| 0 <= j < chain.len() ==> file_of(files, #[trigger] chain[j]) is Some,
        forall|j: int|
            0 <= j < chain.len() - 1 ==> parent_link(#[trigger] chain[j], file_of(files, chain[j])->Some_0)
                == Ok::<LinkView, RenderError>(LinkView::Model(chain[j + 1])),
        parent_link(chain.last(), file_of(files, chain.last())->Some_0) == Ok::<LinkView, RenderError>(
            LinkView::Model(chain[back]),
        ),
    ensures
        walk(files, chain.take(k)) == WalkView::Cycle,
    decreases chain.len() - k,
{
    let prefix = chain.take(k);
    assert(prefix.last() == chain[k - 1]);
    if k == chain.len() {
        assert(prefix =~= chain);
        assert(prefix[back] == chain[back]);
    } else {
        lemma_cycle_walk(files, chain, back, k + 1);
        assert(prefix.push(chain[k]) =~= chain.take(k + 1));
    }
}

/// `chain` follows parent links through model files on hand, and the last
/// model's parent is the model at position `back` of the chain.
pub open spec fn cyclic_chain(files: Seq<(ResourceId, JsonValue)>, chain: Seq<IdView>, back: int) -> bool {
    &&& chain.len() >= 1
    &&& 0 <= back < chain.len()
    &&& forall|j: int| 0 <= j < chain.len() ==> file_of(files, #[trigger] chain[j]) is Some
    &&& forall|j: int|
        0 <= j < chain.len() - 1 ==> parent_link(#[trigger] chain[j], file_of(files, chain[j])->Some_0)
            == Ok::<LinkView, RenderError>(LinkView::Model(chain[j + 1]))
    &&& parent_link(chain.last(), file_of(files, chain.last())->Some_0) == Ok::<LinkView, RenderError>(
        LinkView::Model(chain[back]),
    )
}

/// Distinct ids that all have a file number no more than the files.
proof fn lemma_chain_bound(files: Seq<(ResourceId, JsonValue)>, chain: Seq<IdView>)
    requires
        chain.no_duplicates(),
        forall|i: int| 0 <= i < chain.len() ==> file_of(files, #[trigger] chain[i]) is Some,
    ensures
        chain.len() <= files.len(),
{
    let keys = files.map_values(|e: (ResourceId, JsonValue)| e.0@);
    assert forall|x: IdView| chain.to_set().contains(x) implies keys.to_set().contains(x) by {
        let i = choose|i: int| 0 <= i < chain.len() && chain[i] == x;
        assert(file_of(files, chain[i]) is Some);
        let j = choose|j: int| 0 <= j < files.len() && files[j].0@ == x;
        assert(keys[j] == x);
    }
    chain.unique_seq_to_set();
    keys.lemma_cardinality_of_set();
    broadcast use vstd::seq_lib::seq_to_set_is_finite;
    vstd::set_lib::lemma_len_subset(chain.to_set(), keys.to_set());
}

/// A walk that stops at a cycle has found one: its chain, extended, leads back
/// into itself.
proof fn lemma_cycle_found(files: Seq<(ResourceId, JsonValue)>, chain: Seq<IdView>)
    requires
        chain.len() >= 1,
        chain.no_duplicates(),
        forall|j: int| 0 <= j < chain.len() - 1 ==> file_of(files, #[trigger] chain[j]) is Some,
        forall|j: int|
            0 <= j < chain.len() - 1 ==> parent_link(#[trigger] chain[j], file_of(files, chain[j])->Some_0)
                == Ok::<LinkView, RenderError>(LinkView::Model(chain[j + 1])),
        walk(files, chain) == WalkView::Cycle,
    ensures
        exists|c: Seq<IdView>, back: int| cyclic_chain(files, c, back) && c[0] == chain[0],
    decreases files.len() + 2 - chain.len(),
{
    if chain.len() > files.len() + 1 {
        let front = chain.drop_last();
        assert forall|i: int| 0 <= i < front.len() implies file_of(files, #[trigger] front[i]) is Some by {
            assert(front[i] == chain[i]);
        }
        assert(front.no_duplicates()) by {
            assert forall|i: int, j: int| 0 <= i < front.len() && 0 <= j < front.len() && i != j implies front[i] != front[j] by {
                assert(front[i] == chain[i] && front[j] == chain[j]);
            }
        }
        lemma_chain_bound(files, front);
        assert(false);
    } else {
        let current = chain.last();
        let p = parent_link(current, file_of(files, current)->Some_0)->Ok_0->Model_0;
        if chain.contains(p) {
            let back = choose|b: int| 0 <= b < chain.len() && chain[b] == p;
            assert(cyclic_chain(files, chain, back));
        } else {
            let next = chain.push(p);
            assert forall|j: int| 0 <= j < next.len() - 1 implies file_of(files, #[trigger] next[j]) is Some by {
                assert(next[j] == chain[j]);
            }
            assert forall|j: int| 0 <= j < next.len() - 1 implies parent_link(#[trigger] next[j], file_of(files, next[j])->Some_0)
                == Ok::<LinkView, RenderError>(LinkView::Model(next[j + 1])) by {
                assert(next[j] == chain[j]);
                if j < chain.len() - 1 {
                    assert(next[j + 1] == chain[j + 1]);
                }
            }
            assert(next.no_duplicates()) by {
                assert forall|i: int, j: int| 0 <= i < next.len() && 0 <= j < next.len() && i != j implies next[i] != next[j] by {
                    if i < chain.len() && j < chain.len() {
                        assert(next[i] == chain[i] && next[j] == chain[j]);
                    } else if i < chain.len() {
                        assert(next[i] == chain[i]);
                    } else if j < chain.len() {
                        assert(next[j] == chain[j]);
                    }
                }
            }
            lemma_cycle_found(files, next);
            assert(next[0] == chain[0]);
        }
    }
}

/// Resolving a model fails as a cyclic parent exactly when its parent links,
/// followed through the files on hand, lead back to a model already on the
/// way (the model itself or one of its ancestors).
pub proof fn lemma_cyclic_parent_fails(files: Seq<(ResourceId, JsonValue)>, id: IdView, r: ModelLookup)
    requires
        model_answer(files, id, r),
    ensures
        r == ModelLookup::Failed(RenderError::CyclicModelParent) <==> exists|c: Seq<IdView>, back: int|
            cyclic_chain(files, c, back) && c[0] == id,
{
    if exists|c: Seq<IdView>, back: int| cyclic_chain(files, c, back) && c[0] == id {
        let (c, back) = choose|c: Seq<IdView>, back: int| cyclic_chain(files, c, back) && c[0] == id;
        lemma_cycle_walk(files, c, back, 1);
        assert(c.take(1) =~= seq![id]);
    }
    if r == ModelLookup::Failed(RenderError::CyclicModelParent) {
        let start = seq![id];
        assert(start.no_duplicates());
        if walk(files, start) == WalkView::Cycle {
            lemma_cycle_found(files, start);
        } else if let WalkView::Complete(chain) = walk(files, start) {
            lemma_chain_error_not_cyclic(files, chain, 0);
        } else {
            lemma_walk_failure_not_cyclic(files, start);
        }
    }
}

proof fn lemma_walk_failure_not_cyclic(files: Seq<(ResourceId, JsonValue)>, chain: Seq<IdView>)
    ensures
        walk(files, chain) != WalkView::Failed(RenderError::CyclicModelParent),
    decreases files.len() + 2 - chain.len(),
{
    if chain.len() > 0 && chain.len() <= files.len() + 1 {
        let current = chain.last();
        if let Some(json) = file_of(files, current) {
            if let Ok(LinkView::Model(p)) = parent_link(current, json) {
                if !chain.contains(p) {
                    lemma_walk_failure_not_cyclic(files, chain.push(p));
                }
            }
        }
    }
}

proof fn lemma_chain_error_not_cyclic(files: Seq<(ResourceId, JsonValue)>, chain: Seq<IdView>, k: int)
    ensures
        chain_error(files, chain, k) != Some(RenderError::CyclicModelParent),
    decreases chain.len() - k,
{
    if 0 <= k < chain.len() {
        lemma_chain_error_not_cyclic(files, chain, k + 1);
        if let Some(json) = file_of(files, chain[k]) {
            lemma_body_not_cyclic(json);
        }
    }
}

/// The answer to a model request.
#[derive(Debug)]
pub enum ModelLookup {
    /// The model, its ancestors resolved.
    Resolved(UnresolvedModel),
    /// The file of this model is needed first (see `add_model_file`).
    NeedsFile(ResourceId),
    Failed(RenderError),
}

/// The answer that resolving `id` against `files` owes.
pub open spec fn model_answer(files: Seq<(ResourceId, JsonValue)>, id: IdView, r: ModelLookup) -> bool {
    match walk(files, seq![id]) {
        WalkView::Missing(x) => r is NeedsFile && r->NeedsFile_0@ == x,
        WalkView::Failed(e) => r == ModelLookup::Failed(e),
        WalkView::Cycle => r == ModelLookup::Failed(RenderError::CyclicModelParent),
        WalkView::Complete(chain) => match chain_error(files, chain, 0) {
            Some(e) => r == ModelLookup::Failed(e),
            None => r is Resolved && model_view(r->Resolved_0) == chain_model(files, chain, 0),
        },
    }
}

/// A cached model is what resolving its id gives.
pub open spec fn cache_entry_ok(files: Seq<(ResourceId, JsonValue)>, entry: (ResourceId, UnresolvedModel)) -> bool {
    match walk(files, seq![entry.0@]) {
        WalkView::Complete(chain) => chain_error(files, chain, 0) is None && model_view(entry.1)
            == chain_model(files, chain, 0),
        _ => false,
    }
}

fn chain_contains(chain: &Vec<ResourceId>, id: &ResourceId) -> (r: bool)
    ensures
        r == chain@.map_values(|c: ResourceId| c@).contains(id@),
{
    let mut i: usize = 0;
    while i < chain.len()
        invariant
            i <= chain@.len(),
            forall|j: int| 0 <= j < i ==> chain@[j]@ != id@,
        decreases chain@.len() - i,
    {
        if chain[i].same(id) {
            assert(chain@.map_values(|c: ResourceId| c@)[i as int] == id@);
            return true;
        }
        i = i + 1;
    }
    false
}

/// The key of a baked texture: the texture, its rotation and its UV box.
#[derive(Debug)]
pub struct TextureOptions {
    pub id: ResourceId,
    pub rotation: i32,
    pub from_x: i64,
    pub from_y: i64,
    pub to_x: i64,
    pub to_y: i64,
}

pub type OptionsView = (IdView, i32, i64, i64, i64, i64);

impl View for TextureOptions {
    type V = OptionsView;

    open spec fn view(&self) -> OptionsView {
        (self.id@, self.rotation, self.from_x, self.from_y, self.to_x, self.to_y)
    }
}

impl TextureOptions {
    fn same(&self, other: &TextureOptions) -> (r: bool)
        ensures
            r == (self@ == other@),
    {
        self.id.same(&other.id) && self.rotation == other.rotation && self.from_x == other.from_x
            && self.from_y == other.from_y && self.to_x == other.to_x && self.to_y == other.to_y
    }
}

/// The image stored for the first key equal to `key`, if any.
pub open spec fn image_under<K: View>(entries: Seq<(K, Image)>, key: K::V) -> Option<ImageContent> {
    if exists|i: int| 0 <= i < entries.len() && entries[i].0@ == key && forall|j: int| 0 <= j < i ==> entries[j].0@ != key {
        Some(entries[choose|i: int| 0 <= i < entries.len() && entries[i].0@ == key && forall|j: int| 0 <= j < i ==> entries[j].0@ != key].1.content())
    } else {
        None
    }
}

/// No two entries have equal keys.
pub open spec fn distinct_keys<K: View, V>(entries: Seq<(K, V)>) -> bool {
    forall|i: int, j: int|
        0 <= i < entries.len() && 0 <= j < entries.len() && #[trigger] entries[i].0@ == #[trigger] entries[j].0@
            ==> i == j
}

proof fn lemma_absent<K: View>(entries: Seq<(K, Image)>, key: K::V)
    requires
        image_under(entries, key) is None,
    ensures
        forall|i: int| 0 <= i < entries.len() ==> #[trigger] entries[i].0@ != key,
{
    assert forall|i: int| 0 <= i < entries.len() implies #[trigger] entries[i].0@ != key by {
        if entries[i].0@ == key {
            lemma_some_first(entries, key, i);
        }
    }
}

proof fn lemma_push_distinct<K: View, V>(entries: Seq<(K, V)>, e: (K, V))
    requires
        distinct_keys(entries),
        forall|i: int| 0 <= i < entries.len() ==> #[trigger] entries[i].0@ != e.0@,
    ensures
        distinct_keys(entries.push(e)),
{
    let after = entries.push(e);
    assert forall|i: int, j: int|
        0 <= i < after.len() && 0 <= j < after.len() && #[trigger] after[i].0@ == #[trigger] after[j].0@
            implies i == j by {
        if i < entries.len() && j < entries.len() {
            assert(after[i] == entries[i] && after[j] == entries[j]);
        } else if i < entries.len() {
            assert(after[i] == entries[i]);
        } else if j < entries.len() {
            assert(after[j] == entries[j]);
        }
    }
}

/// The answer to a texture request.
#[derive(Debug)]
pub enum TextureLookup {
    Ready(Image),
    /// The texture file of this id is needed first (see `add_texture_bytes`).
    NeedsFile(ResourceId),
    /// The image is cut; it is to be rotated by the request's rotation, then
    /// handed back through `store_texture`.
    NeedsRotation(Image),
    Failed(RenderError),
}

/// The first frame of a texture: the top square of a sheet taller than wide.
pub open spec fn frame_of(base: ImageContent) -> ImageContent {
    if base.1 > base.0 {
        (base.0, base.0, base.2.subrange(0, base.0 * base.0))
    } else {
        base
    }
}

/// `r` is the cut of texture `base` for a UV box: the region of its first
/// frame that the box addresses, each coordinate scaled by the frame's side
/// and rounded up.
pub open spec fn cut_region(base: ImageContent, from_x: int, from_y: int, to_x: int, to_y: int, r: Image) -> bool {
    let frame = frame_of(base);
    let fx = uv_pixel(from_x, frame.0 as int);
    let fy = uv_pixel(from_y, frame.1 as int);
    let tx = uv_pixel(to_x, frame.0 as int);
    let ty = uv_pixel(to_y, frame.1 as int);
    &&& r.wf()
    &&& r.width == region_side(fx, tx)
    &&& r.height == region_side(fy, ty)
    &&& forall|x: int, y: int| 0 <= x < r.width && 0 <= y < r.height ==> #[trigger] r.pixel(x, y)
        == region_pixel(frame, fx, fy, tx, ty, x, y)
}

/// Once a texture request has been baked and cached, the cache answers the
/// same request with that image: the entry added last is the first under its
/// key. (On a cache hit `get_texture_with_options` returns the cached image and
/// leaves the manager as it was.)
pub proof fn lemma_baked_texture_is_served_again(
    before: Seq<(TextureOptions, Image)>,
    after: Seq<(TextureOptions, Image)>,
    key: OptionsView,
)
    requires
        image_under(before, key) is None,
        after.len() == before.len() + 1,
        after.drop_last() == before,
        after.last().0@ == key,
    ensures
        image_under(after, key) == Some(after.last().1.content()),
{
    let n = before.len() as int;
    assert forall|j: int| 0 <= j < n implies after[j].0@ != key by {
        assert(after[j] == before[j]);
        if after[j].0@ == key {
            assert(0 <= j < before.len() && before[j].0@ == key);
            lemma_some_first(before, key, j);
        }
    }
    assert(0 <= n < after.len() && after[n].0@ == key && forall|j: int| 0 <= j < n ==> after[j].0@ != key);
    let i = choose|i: int| 0 <= i < after.len() && after[i].0@ == key && forall|j: int| 0 <= j < i ==> after[j].0@ != key;
    assert(i == n) by {
        if i < n {
            assert(after[i].0@ != key);
        }
    }
}

/// A key present somewhere has a first occurrence.
proof fn lemma_some_first<K: View>(entries: Seq<(K, Image)>, key: K::V, j: int)
    requires
        0 <= j < entries.len(),
        entries[j].0@ == key,
    ensures
        image_under(entries, key) is Some,
    decreases j,
{
    if exists|i: int| 0 <= i < j && entries[i].0@ == key {
        let i = choose|i: int| 0 <= i < j && entries[i].0@ == key;
        lemma_some_first(entries, key, i);
    } else {
        assert(0 <= j < entries.len() && entries[j].0@ == key && forall|k: int| 0 <= k < j ==> entries[k].0@ != key);
    }
}

/// Finds, resolves and caches models and textures.
pub struct ResourceManager {
    packs: Vec<ResourcePack>,
    files: Vec<(ResourceId, JsonValue)>,
    model_cache: Vec<(ResourceId, UnresolvedModel)>,
    image_cache: Vec<(ResourceId, Image)>,
    texture_cache: Vec<(TextureOptions, Image)>,
}

impl ResourceManager {
    /// The packs searched, in order.
    pub closed spec fn pack_list(&self) -> Seq<ResourcePack> {
        self.packs@
    }

    /// The packs searched, in order.
    pub fn packs(&self) -> (r: &Vec<ResourcePack>)
        ensures
            r@ == self.pack_list(),
    {
        &self.packs
    }

    /// The model files handed in so far.
    pub closed spec fn model_files(&self) -> Seq<(ResourceId, JsonValue)> {
        self.files@
    }

    /// The decoded textures, by id.
    pub closed spec fn images(&self) -> Seq<(ResourceId, Image)> {
        self.image_cache@
    }

    /// The baked textures, by key.
    pub closed spec fn textures(&self) -> Seq<(TextureOptions, Image)> {
        self.texture_cache@
    }

    /// The resolved models, by id.
    pub closed spec fn models(&self) -> Seq<(ResourceId, UnresolvedModel)> {
        self.model_cache@
    }

    pub closed spec fn wf(&self) -> bool {
        &&& keys_unique(self.files@)
        &&& distinct_keys(self.model_cache@)
        &&& distinct_keys(self.image_cache@)
        &&& distinct_keys(self.texture_cache@)
        &&& forall|i: int| 0 <= i < self.image_cache@.len() ==> (#[trigger] self.image_cache@[i]).1.wf()
        &&& forall|i: int| 0 <= i < self.model_cache@.len() ==> cache_entry_ok(self.files@, #[trigger] self.model_cache@[i])
    }

    pub fn new(packs: Vec<ResourcePack>) -> (r: ResourceManager)
        ensures
            r.wf(),
            r.pack_list() == packs@,
            r.model_files().len() == 0,
            r.images().len() == 0,
            r.textures().len() == 0,
    {
        ResourceManager {
            packs,
            files: Vec::new(),
            model_cache: Vec::new(),
            image_cache: Vec::new(),
            texture_cache: Vec::new(),
        }
    }

    fn find_file(&self, id: &ResourceId) -> (r: Option<usize>)
        requires
            self.wf(),
        ensures
            match r {
                Some(i) => i < self.files@.len() && self.files@[i as int].0@ == id@ && file_of(self.files@, id@) == Some(self.files@[i as int].1),
                None => file_of(self.files@, id@) is None,
            },
    {
        let mut i: usize = 0;
        while i < self.files.len()
            invariant
                self.wf(),
                i <= self.files@.len(),
                forall|j: int| 0 <= j < i ==> self.files@[j].0@ != id@,
            decreases self.files@.len() - i,
        {
            if self.files[i].0.same(id) {
                proof {
                    lemma_file_at(self.files@, i as int);
                }
                return Some(i);
            }
            i = i + 1;
        }
        None
    }

    /// Resolves model `id`: from the cache, or by following its parent links
    /// through the model files on hand, reading each file, from the top
    /// ancestor down. A resolved model is cached; an answer other than a model
    /// leaves the manager as it was. It fails as a cyclic parent exactly when
    /// the parent links of `id` lead back into themselves.
    pub fn get_model(&mut self, id: &ResourceId) -> (r: ModelLookup)
        requires
            old(self).wf(),
        ensures
            final(self).wf(),
            final(self).model_files() == old(self).model_files(),
            final(self).pack_list() == old(self).pack_list(),
            final(self).images() == old(self).images(),
            final(self).textures() == old(self).textures(),
            model_answer(old(self).model_files(), id@, r),
            !(r is Resolved) ==> *final(self) == *old(self),
            r is Resolved ==> exists|i: int|
                0 <= i < final(self).models().len() && final(self).models()[i].0@ == id@
                    && model_view(#[trigger] final(self).models()[i].1) == model_view(r->Resolved_0),
            r == ModelLookup::Failed(RenderError::CyclicModelParent) <==> exists|c: Seq<IdView>, back: int|
                cyclic_chain(old(self).model_files(), c, back) && c[0] == id@,
    {
        let r = self.resolve_model(id);
        proof {
            lemma_cyclic_parent_fails(old(self).model_files(), id@, r);
        }
        r
    }

    fn resolve_model(&mut self, id: &ResourceId) -> (r: ModelLookup)
        requires
            old(self).wf(),
        ensures
            final(self).wf(),
            final(self).model_files() == old(self).model_files(),
            final(self).pack_list() == old(self).pack_list(),
            final(self).images() == old(self).images(),
            final(self).textures() == old(self).textures(),
            model_answer(old(self).model_files(), id@, r),
            !(r is Resolved) ==> *final(self) == *old(self),
            r is Resolved ==> exists|i: int|
                0 <= i < final(self).models().len() && final(self).models()[i].0@ == id@
                    && model_view(#[trigger] final(self).models()[i].1) == model_view(r->Resolved_0),
    {
        let mut c: usize = 0;
        while c < self.model_cache.len()
            invariant
                self.wf(),
                *self == *old(self),
                c <= self.model_cache@.len(),
                forall|j: int| 0 <= j < c ==> self.model_cache@[j].0@ != id@,
            decreases self.model_cache@.len() - c,
        {
            if self.model_cache[c].0.same(id) {
                let m = copy_model(&self.model_cache[c].1);
                assert(cache_entry_ok(self.files@, self.model_cache@[c as int]));
                assert(self.models()[c as int].0@ == id@);
                return ModelLookup::Resolved(m);
            }
            c = c + 1;
        }
        let ghost files = self.files@;
        let mut chain: Vec<ResourceId> = Vec::new();
        chain.push(id.duplicate());
        let mut found: Vec<usize> = Vec::new();
        let mut layered: Vec<bool> = Vec::new();
        assert(chain@.map_values(|x: ResourceId| x@) =~= seq![id@]);
        let mut done = false;
        while !done
            invariant
                self.wf(),
                *self == *old(self),
                files == self.files@,
                chain@.len() >= 1,
                !done ==> found@.len() == chain@.len() - 1,
                !done ==> layered@.len() == chain@.len() - 1,
                done ==> found@.len() == chain@.len(),
                done ==> layered@.len() == chain@.len(),
                !done ==> walk(files, chain@.map_values(|x: ResourceId| x@)) == walk(files, seq![id@]),
                done ==> walk(files, seq![id@]) == WalkView::Complete(chain@.map_values(|x: ResourceId| x@)),
                chain@[0]@ == id@,
                forall|j: int| 0 <= j < found@.len() ==> {
                    &&& #[trigger] found@[j] < files.len()
                    &&& file_of(files, chain@[j]@) == Some(files[found@[j] as int].1)
                    &&& layered@[j] == (parent_link(chain@[j]@, files[found@[j] as int].1) == Ok::<LinkView, RenderError>(LinkView::Generated))
                },
            decreases files.len() + 2 - chain@.len() + (if done { 0int } else { 1int }),
        {
            let ghost cv = chain@.map_values(|x: ResourceId| x@);
            if chain.len() - 1 > self.files.len() {
                return ModelLookup::Failed(RenderError::CyclicModelParent);
            }
            let last = chain.len() - 1;
            assert(cv.last() == chain@[last as int]@);
            let fi = match self.find_file(&chain[last]) {
                Some(fi) => fi,
                None => return ModelLookup::NeedsFile(chain[last].duplicate()),
            };
            match find_parent(&chain[last], &self.files[fi].1) {
                Err(e) => return ModelLookup::Failed(e),
                Ok(ParentLink::Model(p)) => {
                    if chain_contains(&chain, &p) {
                        return ModelLookup::Failed(RenderError::CyclicModelParent);
                    }
                    chain.push(p);
                    found.push(fi);
                    layered.push(false);
                    assert(chain@.map_values(|x: ResourceId| x@) =~= cv.push(p@));
                },
                Ok(link) => {
                    found.push(fi);
                    let g = match link {
                        ParentLink::Generated => true,
                        _ => false,
                    };
                    layered.push(g);
                    done = true;
                },
            }
        }
        let ghost cv = chain@.map_values(|x: ResourceId| x@);
        let mut k: usize = chain.len();
        let mut current: Option<UnresolvedModel> = None;
        while k > 0
            invariant
                self.wf(),
                *self == *old(self),
                files == self.files@,
                cv == chain@.map_values(|x: ResourceId| x@),
                walk(files, seq![id@]) == WalkView::Complete(cv),
                chain@.len() >= 1,
                found@.len() == chain@.len(),
                layered@.len() == chain@.len(),
                k <= chain@.len(),
                forall|j: int| 0 <= j < found@.len() ==> {
                    &&& #[trigger] found@[j] < files.len()
                    &&& file_of(files, cv[j]) == Some(files[found@[j] as int].1)
                    &&& layered@[j] == (parent_link(cv[j], files[found@[j] as int].1) == Ok::<LinkView, RenderError>(LinkView::Generated))
                },
                chain_error(files, cv, k as int) is None,
                k == chain@.len() ==> current is None,
                k < chain@.len() ==> current is Some && model_view(current->Some_0) == chain_model(files, cv, k as int),
            decreases k,
        {
            k = k - 1;
            let json = &self.files[found[k]].1;
            match UnresolvedModel::new(json, current, layered[k]) {
                Ok(m) => {
                    current = Some(m);
                },
                Err(e) => {
                    proof {
                        lemma_chain_error_reaches_front(files, cv, k as int);
                    }
                    return ModelLookup::Failed(e);
                },
            }
        }
        let m = match current {
            Some(m) => m,
            None => return ModelLookup::Failed(RenderError::MalformedModel),
        };
        let cached = copy_model(&m);
        let entry = (id.duplicate(), cached);
        proof {
            lemma_push_distinct(self.model_cache@, entry);
        }
        self.model_cache.push(entry);
        proof {
            let last = self.models().len() - 1;
            assert(self.models()[last] == entry);
            assert(self.models()[last].0@ == id@);
            assert(model_view(self.models()[last].1) == model_view(m));
        }
        ModelLookup::Resolved(m)
    }

    /// Hands in the file of model `id`, parsed; a file already on hand for
    /// `id` is kept.
    pub fn add_model_file(&mut self, id: ResourceId, json: JsonValue)
        requires
            old(self).wf(),
        ensures
            final(self).wf(),
            final(self).pack_list() == old(self).pack_list(),
            file_of(old(self).model_files(), id@) is None ==> final(self).model_files() == old(
                self,
            ).model_files().push((id, json)),
            file_of(old(self).model_files(), id@) is Some ==> final(self).model_files() == old(
                self,
            ).model_files(),
    {
        if self.find_file(&id).is_some() {
            return;
        }
        let ghost before = self.files@;
        let ghost entry = (id, json);
        self.files.push((id, json));
        proof {
            assert forall|i: int, j: int|
                0 <= i < self.files@.len() && 0 <= j < self.files@.len() && #[trigger] self.files@[i].0@
                    == #[trigger] self.files@[j].0@ implies i == j by {
                if i == before.len() && j < before.len() {
                    assert(before[j].0@ == entry.0@);
                } else if j == before.len() && i < before.len() {
                    assert(before[i].0@ == entry.0@);
                }
            }
            assert forall|i: int| 0 <= i < self.model_cache@.len() implies cache_entry_ok(
                self.files@,
                #[trigger] self.model_cache@[i],
            ) by {
                let e = self.model_cache@[i];
                assert(cache_entry_ok(before, e));
                lemma_walk_kept(before, entry, seq![e.0@]);
                let c = walk(before, seq![e.0@])->Complete_0;
                lemma_chain_kept(before, entry, c, 0);
            }
        }
    }

    fn find_image(&self, id: &ResourceId) -> (r: Option<usize>)
        ensures
            match r {
                Some(i) => i < self.image_cache@.len() && image_under(self.image_cache@, id@) == Some(
                    self.image_cache@[i as int].1.content(),
                ),
                None => image_under(self.image_cache@, id@) is None,
            },
    {
        let mut i: usize = 0;
        while i < self.image_cache.len()
            invariant
                i <= self.image_cache@.len(),
                forall|j: int| 0 <= j < i ==> self.image_cache@[j].0@ != id@,
            decreases self.image_cache@.len() - i,
        {
            if self.image_cache[i].0.same(id) {
                proof {
                    let k = choose|k: int| 0 <= k < self.image_cache@.len() && self.image_cache@[k].0@ == id@ && forall|j: int| 0 <= j < k ==> self.image_cache@[j].0@ != id@;
                    assert(k == i) by {
                        if k < i {
                        } else if k > i {
                            assert(self.image_cache@[i as int].0@ != id@);
                        }
                    }
                }
                return Some(i);
            }
            i = i + 1;
        }
        None
    }

    fn find_texture(&self, key: &TextureOptions) -> (r: Option<usize>)
        ensures
            match r {
                Some(i) => i < self.texture_cache@.len() && image_under(self.texture_cache@, key@) == Some(
                    self.texture_cache@[i as int].1.content(),
                ),
                None => image_under(self.texture_cache@, key@) is None,
            },
    {
        let mut i: usize = 0;
        while i < self.texture_cache.len()
            invariant
                i <= self.texture_cache@.len(),
                forall|j: int| 0 <= j < i ==> self.texture_cache@[j].0@ != key@,
            decreases self.texture_cache@.len() - i,
        {
            if self.texture_cache[i].0.same(key) {
                proof {
                    let k = choose|k: int| 0 <= k < self.texture_cache@.len() && self.texture_cache@[k].0@ == key@ && forall|j: int| 0 <= j < k ==> self.texture_cache@[j].0@ != key@;
                    assert(k == i) by {
                        if k < i {
                        } else if k > i {
                            assert(self.texture_cache@[i as int].0@ != key@);
                        }
                    }
                }
                return Some(i);
            }
            i = i + 1;
        }
        None
    }

    /// The decoded texture `id`, from the cache; or a request for its file.
    pub fn get_texture(&self, id: &ResourceId) -> (r: TextureLookup)
        ensures
            match image_under(self.images(), id@) {
                Some(c) => r is Ready && r->Ready_0.content() == c,
                None => r is NeedsFile && r->NeedsFile_0@ == id@,
            },
    {
        match self.find_image(id) {
            Some(i) => TextureLookup::Ready(self.image_cache[i].1.duplicate()),
            None => TextureLookup::NeedsFile(id.duplicate()),
        }
    }

    /// Hands in the bytes of texture file `id`: they are decoded and the image
    /// cached. A texture already decoded is kept.
    pub fn add_texture_bytes(&mut self, id: &ResourceId, bytes: &Vec<u8>) -> (r: Result<(), RenderError>)
        requires
            old(self).wf(),
        ensures
            final(self).wf(),
            final(self).model_files() == old(self).model_files(),
            final(self).pack_list() == old(self).pack_list(),
            final(self).textures() == old(self).textures(),
            image_under(old(self).images(), id@) is Some ==> r is Ok && final(self).images() == old(self).images(),
            image_under(old(self).images(), id@) is None ==> match decoded_image(bytes@) {
                None => r == Err::<(), RenderError>(RenderError::MalformedTexture) && final(self).images()
                    == old(self).images(),
                Some(c) => r is Ok && final(self).images().len() == old(self).images().len() + 1
                    && final(self).images().drop_last() == old(self).images()
                    && final(self).images().last().0@ == id@
                    && final(self).images().last().1.content() == c,
            },
    {
        if self.find_image(id).is_some() {
            return Ok(());
        }
        match decode_image(bytes) {
            Some(img) => {
                let entry = (id.duplicate(), img);
                proof {
                    lemma_absent(self.image_cache@, id@);
                    lemma_push_distinct(self.image_cache@, entry);
                }
                self.image_cache.push(entry);
                assert(self.image_cache@.drop_last() =~= old(self).image_cache@);
                Ok(())
            },
            None => Err(RenderError::MalformedTexture),
        }
    }

    /// Bakes texture `id` for a face: from the cache of baked textures if this
    /// exact request was served before; else the decoded texture is cut to its
    /// first frame and to the UV box. Without rotation the cut is cached and
    /// returned; with one it is handed out to be rotated (see `store_texture`).
    pub fn get_texture_with_options(
        &mut self,
        id: &ResourceId,
        rotation: i32,
        from_x: i64,
        from_y: i64,
        to_x: i64,
        to_y: i64,
    ) -> (r: TextureLookup)
        requires
            old(self).wf(),
            0 <= from_x <= UNITS_PER_BLOCK,
            0 <= from_y <= UNITS_PER_BLOCK,
            0 <= to_x <= UNITS_PER_BLOCK,
            0 <= to_y <= UNITS_PER_BLOCK,
        ensures
            final(self).wf(),
            match image_under(old(self).textures(), (id@, rotation, from_x, from_y, to_x, to_y)) {
                Some(c) => r is Ready && r->Ready_0.content() == c && *final(self) == *old(self),
                None => match image_under(old(self).images(), id@) {
                    None => r is NeedsFile && r->NeedsFile_0@ == id@ && *final(self) == *old(self),
                    Some(base) => if base.0 > i32::MAX || base.1 > i32::MAX {
                        r == TextureLookup::Failed(RenderError::MalformedTexture) && *final(self) == *old(self)
                    } else if rotation == 0 {
                        &&& r is Ready
                        &&& cut_region(base, from_x as int, from_y as int, to_x as int, to_y as int, r->Ready_0)
                        &&& final(self).model_files() == old(self).model_files()
                        &&& final(self).pack_list() == old(self).pack_list()
                        &&& final(self).images() == old(self).images()
                        &&& final(self).textures().len() == old(self).textures().len() + 1
                        &&& final(self).textures().drop_last() == old(self).textures()
                        &&& final(self).textures().last().0@ == (id@, rotation, from_x, from_y, to_x, to_y)
                        &&& final(self).textures().last().1.content() == r->Ready_0.content()
                    } else {
                        &&& r is NeedsRotation
                        &&& cut_region(base, from_x as int, from_y as int, to_x as int, to_y as int, r->NeedsRotation_0)
                        &&& *final(self) == *old(self)
                    },
                },
            },
    {
        let key = TextureOptions { id: id.duplicate(), rotation, from_x, from_y, to_x, to_y };
        if let Some(t) = self.find_texture(&key) {
            return TextureLookup::Ready(self.texture_cache[t].1.duplicate());
        }
        let base = match self.find_image(id) {
            Some(i) => {
                assert(self.image_cache@[i as int].1.wf());
                self.image_cache[i].1.duplicate()
            },
            None => return TextureLookup::NeedsFile(id.duplicate()),
        };
        if base.width > 0x7fff_ffff || base.height > 0x7fff_ffff {
            return TextureLookup::Failed(RenderError::MalformedTexture);
        }
        let frame = first_frame(base);
        let fx = uv_to_pixel(from_x, frame.width);
        let fy = uv_to_pixel(from_y, frame.height);
        let tx = uv_to_pixel(to_x, frame.width);
        let ty = uv_to_pixel(to_y, frame.height);
        let region = get_with_uv(&frame, fx as i32, fy as i32, tx as i32, ty as i32);
        if rotation == 0 {
            let stored = region.duplicate();
            let ghost kv = key@;
            let entry = (key, stored);
            proof {
                lemma_absent(self.texture_cache@, kv);
                lemma_push_distinct(self.texture_cache@, entry);
            }
            self.texture_cache.push(entry);
            assert(self.texture_cache@.drop_last() =~= old(self).texture_cache@);
            TextureLookup::Ready(region)
        } else {
            TextureLookup::NeedsRotation(region)
        }
    }

    /// Caches the rotated cut for a request that `get_texture_with_options`
    /// handed out to be rotated; a request already cached keeps its image.
    pub fn store_texture(
        &mut self,
        id: &ResourceId,
        rotation: i32,
        from_x: i64,
        from_y: i64,
        to_x: i64,
        to_y: i64,
        image: Image,
    )
        requires
            old(self).wf(),
        ensures
            final(self).wf(),
            final(self).model_files() == old(self).model_files(),
            final(self).pack_list() == old(self).pack_list(),
            final(self).images() == old(self).images(),
            image_under(old(self).textures(), (id@, rotation, from_x, from_y, to_x, to_y)) is Some
                ==> final(self).textures() == old(self).textures(),
            image_under(old(self).textures(), (id@, rotation, from_x, from_y, to_x, to_y)) is None
                ==> final(self).textures() == old(self).textures().push(
                (final(self).textures().last().0, image),
            ) && final(self).textures().last().0@ == (id@, rotation, from_x, from_y, to_x, to_y),
    {
        let key = TextureOptions { id: id.duplicate(), rotation, from_x, from_y, to_x, to_y };
        if self.find_texture(&key).is_some() {
            return;
        }
        let ghost kv = key@;
        let entry = (key, image);
        proof {
            lemma_absent(self.texture_cache@, kv);
            lemma_push_distinct(self.texture_cache@, entry);
        }
        self.texture_cache.push(entry);
    }
}

} // verus!