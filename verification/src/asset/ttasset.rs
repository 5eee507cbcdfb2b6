//! The recipe of an asset: how its layers are mixed.
//!
//! A recipe is a JSON document with the names of the asset and, per layer,
//! the formula with its constants and the masks per mood. The constants stand
//! in the order steepness, deviation, minimum, maximum, original level.
use vstd::prelude::*;

use crate::adaptive::AdaptiveMixer;
use crate::adaptive::MixerView;
use crate::adaptive::SlotParams;
use crate::json::empty_object;
use crate::json::lemma_nested_more;
use crate::json::lemma_nested_with;
use crate::json::nested;
use crate::json::pretty_text;
use crate::json::reads_as;
use crate::json::real_tree;
use crate::json::trees;
use crate::json::whole_tree;
use crate::json::Json;
use crate::json::JsonTree;
use crate::navigator::model::AssetMeta;
use crate::navigator::model::AssetMetaView;
use crate::number::Real32;
use crate::text::begins_with;
use crate::text::chars_of;
use crate::text::decimal;
use crate::text::decimal_text;
use crate::text::has_at;
use crate::text::join;
use crate::text::number_text;
use crate::text::read_number;

verus! {

/// A recipe.
#[derive(Debug)]
pub struct Recipe {
    pub production_code: String,
    pub variant_name: String,
    pub asset_name: String,
    pub id: String,
    pub page_uuid: String,
    pub description: String,
    pub layers: Vec<RecipeLayer>,
}

/// One layer of a recipe.
#[derive(Debug)]
pub struct RecipeLayer {
    pub layer: usize,
    pub formula_type: String,
    /// Per mood: Dark, Neutral, Bright.
    pub mood_factors: Vec<Real32>,
    pub constant_values: Vec<Real32>,
    /// Per mood: Dark, Neutral, Bright.
    pub balancer_include_factors: Vec<Real32>,
}

/// The contents of a [`Recipe`].
#[verifier::ext_equal]
pub struct RecipeView {
    pub production_code: Seq<char>,
    pub variant_name: Seq<char>,
    pub asset_name: Seq<char>,
    pub id: Seq<char>,
    pub page_uuid: Seq<char>,
    pub description: Seq<char>,
    pub layers: Seq<LayerView>,
}

/// The contents of a [`RecipeLayer`].
#[verifier::ext_equal]
pub struct LayerView {
    pub layer: usize,
    pub formula_type: Seq<char>,
    pub mood_factors: Seq<Real32>,
    pub constant_values: Seq<Real32>,
    pub balancer_include_factors: Seq<Real32>,
}

impl View for RecipeLayer {
    type V = LayerView;

    open spec fn view(&self) -> LayerView {
        LayerView {
            layer: self.layer,
            formula_type: self.formula_type@,
            mood_factors: self.mood_factors@,
            constant_values: self.constant_values@,
            balancer_include_factors: self.balancer_include_factors@,
        }
    }
}

/// The contents of layers.
pub open spec fn layer_views(s: Seq<RecipeLayer>) -> Seq<LayerView> {
    s.map_values(|l: RecipeLayer| l@)
}

impl View for Recipe {
    type V = RecipeView;

    open spec fn view(&self) -> RecipeView {
        RecipeView {
            production_code: self.production_code@,
            variant_name: self.variant_name@,
            asset_name: self.asset_name@,
            id: self.id@,
            page_uuid: self.page_uuid@,
            description: self.description@,
            layers: layer_views(self.layers@),
        }
    }
}

// Formula names.

/// The name of a formula.
pub open spec fn formula_name(formula: u8) -> Seq<char> {
    "type"@ + decimal_text(formula as nat)
}

/// The name of a formula: "type" and its number.
pub fn formula_type(formula: u8) -> (r: String)
    ensures
        r@ == formula_name(formula),
{
    join("type", decimal(formula as u128).as_str())
}

/// The text without the words "type" that it begins with.
pub open spec fn without_type(s: Seq<char>) -> Seq<char>
    decreases s.len(),
{
    if begins_with(s, "type"@) && "type"@.len() > 0 {
        without_type(s.subrange("type"@.len() as int, s.len() as int))
    } else {
        s
    }
}

/// The formula that a name tells, held in 1 to 9; the first where it tells
/// none.
pub open spec fn named_formula(s: Seq<char>) -> int {
    match number_text(without_type(s), 255) {
        Some(n) => if n < 1 {
            1
        } else if n > 9 {
            9
        } else {
            n
        },
        None => 1,
    }
}

/// The formula that a name tells.
pub fn parse_formula_type(s: &str) -> (r: u8)
    ensures
        r == named_formula(s@),
{
    let v = chars_of(s);
    let word = chars_of("type");
    proof {
        reveal_strlit("type");
        assert("type"@.len() == 4);
        assert(v@.subrange(0, v@.len() as int) =~= s@);
    }
    let mut i: usize = 0;
    while has_at(&v, i, &word)
        invariant
            0 <= i <= v@.len(),
            word@ == "type"@,
            word@.len() == 4,
            without_type(v@.subrange(i as int, v@.len() as int)) == without_type(s@),
        decreases v@.len() - i,
    {
        let ghost rest = v@.subrange(i as int, v@.len() as int);
        assert(begins_with(rest, "type"@));
        assert(rest.len() >= 4);
        assert(i + 4 <= v.len());
        assert(rest.subrange(4, rest.len() as int) =~= v@.subrange(i + 4, v@.len() as int));
        i += 4;
    }
    match read_number(&v, i, 255) {
        Some(n) => if n < 1 {
            1
        } else if n > 9 {
            9
        } else {
            n as u8
        },
        None => 1,
    }
}

// Writing.

/// Layer `s` of the recipe of a mixer.
pub open spec fn layer_of(m: MixerView, s: int) -> LayerView {
    let p = m.slot_params[s];
    LayerView {
        layer: s as usize,
        formula_type: formula_name(p.formula),
        mood_factors: Seq::new(3, |k: int| m.mood_weight[k][s]),
        constant_values: seq![
            p.steepness,
            p.deviation,
            p.minimum,
            p.maximum,
            p.original_level,
        ],
        balancer_include_factors: Seq::new(3, |k: int| m.balancer_mask[k][s]),
    }
}

/// The recipe of a mixer.
pub open spec fn recipe_of(
    m: MixerView,
    meta: AssetMetaView,
    music_uuid: Seq<char>,
    page_uuid: Seq<char>,
) -> RecipeView {
    RecipeView {
        production_code: meta.production_code,
        variant_name: meta.variant_name,
        asset_name: meta.asset_name,
        id: music_uuid,
        page_uuid,
        description: meta.description,
        layers: Seq::new(8, |s: int| layer_of(m, s)),
    }
}

fn describe_layer(mixer: &AdaptiveMixer, s: usize) -> (r: RecipeLayer)
    requires
        s < 8,
    ensures
        r@ == layer_of(mixer@, s as int),
{
    let p = mixer.slot_params[s];
    let mut moods: Vec<Real32> = Vec::new();
    let mut masks: Vec<Real32> = Vec::new();
    let mut k: usize = 0;
    while k < 3
        invariant
            0 <= k <= 3,
            s < 8,
            moods@ =~= Seq::new(k as nat, |j: int| mixer@.mood_weight[j][s as int]),
            masks@ =~= Seq::new(k as nat, |j: int| mixer@.balancer_mask[j][s as int]),
        decreases 3 - k,
    {
        assert(mixer@.mood_weight[k as int] == mixer.mood_weight@[k as int]@);
        assert(mixer@.balancer_mask[k as int] == mixer.balancer_mask@[k as int]@);
        moods.push(mixer.mood_weight[k][s]);
        masks.push(mixer.balancer_mask[k][s]);
        k += 1;
    }
    let r = RecipeLayer {
        layer: s,
        formula_type: formula_type(p.formula),
        mood_factors: moods,
        constant_values: vec![
            p.steepness,
            p.deviation,
            p.minimum,
            p.maximum,
            p.original_level,
        ],
        balancer_include_factors: masks,
    };
    assert(r@ =~= layer_of(mixer@, s as int));
    r
}

/// The recipe of the mixer, for an asset with these names.
pub fn describe(
    mixer: &AdaptiveMixer,
    meta: &AssetMeta,
    music_uuid: &str,
    page_uuid: &str,
) -> (r: Recipe)
    ensures
        r@ == recipe_of(mixer@, meta@, music_uuid@, page_uuid@),
{
    let mut layers: Vec<RecipeLayer> = Vec::new();
    let mut s: usize = 0;
    while s < 8
        invariant
            0 <= s <= 8,
            layer_views(layers@) =~= Seq::new(s as nat, |j: int| layer_of(mixer@, j)),
        decreases 8 - s,
    {
        let ghost before = layers@;
        layers.push(describe_layer(mixer, s));
        assert(layer_views(layers@) =~= layer_views(before).push(layer_of(mixer@, s as int)));
        s += 1;
    }
    let r = Recipe {
        production_code: meta.production_code.clone(),
        variant_name: meta.variant_name.clone(),
        asset_name: meta.asset_name.clone(),
        id: music_uuid.to_owned(),
        page_uuid: page_uuid.to_owned(),
        description: meta.description.clone(),
        layers,
    };
    assert(r@ =~= recipe_of(mixer@, meta@, music_uuid@, page_uuid@));
    r
}

/// An array of values.
pub open spec fn reals_tree(v: Seq<Real32>) -> JsonTree {
    JsonTree::Array(v.map_values(|x: Real32| real_tree(x)))
}

/// The names of the constants.
pub open spec fn names_tree() -> JsonTree {
    JsonTree::Array(
        seq![
            JsonTree::Text("s"@),
            JsonTree::Text("d"@),
            JsonTree::Text("min"@),
            JsonTree::Text("max"@),
            JsonTree::Text("lo"@),
        ],
    )
}

pub open spec fn formula_tree(l: LayerView) -> JsonTree {
    empty_object().with("type"@, JsonTree::Text(l.formula_type)).with(
        "moodFactors"@,
        reals_tree(l.mood_factors),
    ).with("constantNames"@, names_tree()).with("constantValues"@, reals_tree(l.constant_values))
}

pub open spec fn layer_tree(l: LayerView) -> JsonTree {
    empty_object().with("layer"@, whole_tree(l.layer as u64)).with(
        "formula"@,
        formula_tree(l),
    ).with("balancerIncludeFactors"@, reals_tree(l.balancer_include_factors))
}

pub open spec fn meta_tree(r: RecipeView) -> JsonTree {
    empty_object().with("documentType"@, JsonTree::Text("asset"@)).with(
        "assetType"@,
        JsonTree::Text("music"@),
    ).with("documentFormatVersion"@, whole_tree(1)).with(
        "productionCode"@,
        JsonTree::Text(r.production_code),
    ).with("variantName"@, JsonTree::Text(r.variant_name)).with(
        "assetName"@,
        JsonTree::Text(r.asset_name),
    )
}

pub open spec fn music_tree(r: RecipeView) -> JsonTree {
    empty_object().with("id"@, JsonTree::Text(r.id)).with(
        "pageUuid"@,
        JsonTree::Text(r.page_uuid),
    ).with("tags"@, JsonTree::Array(Seq::empty())).with(
        "description"@,
        JsonTree::Text(r.description),
    ).with("layers"@, JsonTree::Array(r.layers.map_values(|l: LayerView| layer_tree(l))))
}

/// The document of a recipe.
pub open spec fn recipe_tree(r: RecipeView) -> JsonTree {
    empty_object().with("meta"@, meta_tree(r)).with("music"@, music_tree(r))
}

fn reals_value(v: &Vec<Real32>) -> (r: Json)
    ensures
        r@ == reals_tree(v@),
{
    let mut out: Vec<Json> = Vec::new();
    let mut i: usize = 0;
    while i < v.len()
        invariant
            0 <= i <= v@.len(),
            trees(out@) =~= v@.take(i as int).map_values(|x: Real32| real_tree(x)),
        decreases v@.len() - i,
    {
        let ghost before = out@;
        out.push(Json::real32(v[i]));
        assert(trees(out@) =~= trees(before).push(real_tree(v@[i as int])));
        i += 1;
    }
    assert(v@.take(i as int) =~= v@);
    Json::array(out)
}

fn names_value() -> (r: Json)
    ensures
        r@ == names_tree(),
{
    let mut out: Vec<Json> = Vec::new();
    out.push(Json::text("s"));
    out.push(Json::text("d"));
    out.push(Json::text("min"));
    out.push(Json::text("max"));
    out.push(Json::text("lo"));
    assert(trees(out@) =~= names_tree()->Array_0);
    Json::array(out)
}

fn layer_value(l: &RecipeLayer) -> (r: Json)
    ensures
        r@ == layer_tree(l@),
{
    let mut formula = Json::object();
    formula.put("type", Json::text(l.formula_type.as_str()));
    formula.put("moodFactors", reals_value(&l.mood_factors));
    formula.put("constantNames", names_value());
    formula.put("constantValues", reals_value(&l.constant_values));
    let mut v = Json::object();
    v.put("layer", Json::whole(l.layer as u64));
    v.put("formula", formula);
    v.put("balancerIncludeFactors", reals_value(&l.balancer_include_factors));
    v
}

fn recipe_value(r: &Recipe) -> (v: Json)
    ensures
        v@ == recipe_tree(r@),
{
    let mut meta = Json::object();
    meta.put("documentType", Json::text("asset"));
    meta.put("assetType", Json::text("music"));
    meta.put("documentFormatVersion", Json::whole(1));
    meta.put("productionCode", Json::text(r.production_code.as_str()));
    meta.put("variantName", Json::text(r.variant_name.as_str()));
    meta.put("assetName", Json::text(r.asset_name.as_str()));
    let mut layers: Vec<Json> = Vec::new();
    let ghost f = |l: LayerView| layer_tree(l);
    let mut i: usize = 0;
    while i < r.layers.len()
        invariant
            0 <= i <= r.layers@.len(),
            f == (|l: LayerView| layer_tree(l)),
            trees(layers@) =~= r@.layers.take(i as int).map_values(f),
        decreases r.layers@.len() - i,
    {
        let ghost before = layers@;
        layers.push(layer_value(&r.layers[i]));
        assert(r@.layers[i as int] == r.layers@[i as int]@);
        assert(trees(layers@) =~= trees(before).push(layer_tree(r@.layers[i as int])));
        i += 1;
    }
    assert(r@.layers.take(i as int) =~= r@.layers);
    let none: Vec<Json> = Vec::new();
    assert(trees(none@) =~= Seq::empty());
    let mut music = Json::object();
    music.put("id", Json::text(r.id.as_str()));
    music.put("pageUuid", Json::text(r.page_uuid.as_str()));
    music.put("tags", Json::array(none));
    music.put("description", Json::text(r.description.as_str()));
    music.put("layers", Json::array(layers));
    let mut v = Json::object();
    v.put("meta", meta);
    v.put("music", music);
    v
}

proof fn lemma_reals_nested(v: Seq<Real32>)
    ensures
        nested(reals_tree(v), 1),
        nested(names_tree(), 1),
{
    let a = reals_tree(v)->Array_0;
    assert forall|i: int| 0 <= i < a.len() implies nested(#[trigger] a[i], 0) by {
        assert(a[i] == real_tree(v[i]));
    }
    let b = names_tree()->Array_0;
    assert forall|i: int| 0 <= i < b.len() implies nested(#[trigger] b[i], 0) by {
        assert(b[i] is Text);
    }
}

proof fn lemma_layer_nested(l: LayerView)
    ensures
        nested(layer_tree(l), 3),
{
    let t0 = empty_object();
    lemma_reals_nested(l.mood_factors);
    lemma_reals_nested(l.constant_values);
    lemma_reals_nested(l.balancer_include_factors);
    let f1 = t0.with("type"@, JsonTree::Text(l.formula_type));
    lemma_nested_with(t0, "type"@, JsonTree::Text(l.formula_type), 2);
    let f2 = f1.with("moodFactors"@, reals_tree(l.mood_factors));
    lemma_nested_with(f1, "moodFactors"@, reals_tree(l.mood_factors), 2);
    let f3 = f2.with("constantNames"@, names_tree());
    lemma_nested_with(f2, "constantNames"@, names_tree(), 2);
    lemma_nested_with(f3, "constantValues"@, reals_tree(l.constant_values), 2);
    lemma_nested_more(reals_tree(l.balancer_include_factors), 1, 2);
    let t1 = t0.with("layer"@, whole_tree(l.layer as u64));
    lemma_nested_with(t0, "layer"@, whole_tree(l.layer as u64), 3);
    let t2 = t1.with("formula"@, formula_tree(l));
    lemma_nested_with(t1, "formula"@, formula_tree(l), 3);
    lemma_nested_with(
        t2,
        "balancerIncludeFactors"@,
        reals_tree(l.balancer_include_factors),
        3,
    );
}

proof fn lemma_recipe_nested(r: RecipeView)
    ensures
        nested(recipe_tree(r), 127),
{
    let t0 = empty_object();
    let m1 = t0.with("documentType"@, JsonTree::Text("asset"@));
    lemma_nested_with(t0, "documentType"@, JsonTree::Text("asset"@), 5);
    let m2 = m1.with("assetType"@, JsonTree::Text("music"@));
    lemma_nested_with(m1, "assetType"@, JsonTree::Text("music"@), 5);
    let m3 = m2.with("documentFormatVersion"@, whole_tree(1));
    lemma_nested_with(m2, "documentFormatVersion"@, whole_tree(1), 5);
    let m4 = m3.with("productionCode"@, JsonTree::Text(r.production_code));
    lemma_nested_with(m3, "productionCode"@, JsonTree::Text(r.production_code), 5);
    let m5 = m4.with("variantName"@, JsonTree::Text(r.variant_name));
    lemma_nested_with(m4, "variantName"@, JsonTree::Text(r.variant_name), 5);
    lemma_nested_with(m5, "assetName"@, JsonTree::Text(r.asset_name), 5);
    let layers = JsonTree::Array(r.layers.map_values(|l: LayerView| layer_tree(l)));
    assert forall|i: int| 0 <= i < r.layers.len() implies nested(
        #[trigger] layers->Array_0[i],
        3,
    ) by {
        lemma_layer_nested(r.layers[i]);
    }
    assert(nested(layers, 4));
    let none = JsonTree::Array(Seq::empty());
    let s1 = t0.with("id"@, JsonTree::Text(r.id));
    lemma_nested_with(t0, "id"@, JsonTree::Text(r.id), 5);
    let s2 = s1.with("pageUuid"@, JsonTree::Text(r.page_uuid));
    lemma_nested_with(s1, "pageUuid"@, JsonTree::Text(r.page_uuid), 5);
    let s3 = s2.with("tags"@, none);
    lemma_nested_with(s2, "tags"@, none, 5);
    let s4 = s3.with("description"@, JsonTree::Text(r.description));
    lemma_nested_with(s3, "description"@, JsonTree::Text(r.description), 5);
    lemma_nested_with(s4, "layers"@, layers, 5);
    lemma_nested_with(t0, "meta"@, meta_tree(r), 6);
    lemma_nested_with(t0.with("meta"@, meta_tree(r)), "music"@, music_tree(r), 6);
    lemma_nested_more(recipe_tree(r), 6, 127);
}

/// The text of the recipe of the mixer, for an asset with these names.
pub fn to_json(
    mixer: &AdaptiveMixer,
    meta: &AssetMeta,
    music_uuid: &str,
    page_uuid: &str,
) -> (r: String)
    ensures
        r@ == pretty_text(recipe_tree(recipe_of(mixer@, meta@, music_uuid@, page_uuid@))),
        reads_as(r@, recipe_tree(recipe_of(mixer@, meta@, music_uuid@, page_uuid@))),
{
    let recipe = describe(mixer, meta, music_uuid, page_uuid);
    proof {
        lemma_recipe_nested(recipe@);
    }
    recipe_value(&recipe).pretty()
}

/// The file of a recipe: the code of its asset.
pub open spec fn recipe_path(meta: AssetMetaView) -> Seq<char> {
    meta.production_code + ".ttasset"@
}

/// The file of a recipe.
pub fn recipe_file(meta: &AssetMeta) -> (r: String)
    ensures
        r@ == recipe_path(meta@),
{
    join(meta.production_code.as_str(), ".ttasset")
}

// Reading.

/// The slot with the formula of a layer, and with its constants where there
/// are at least five.
pub open spec fn slot_from(p: SlotParams, l: LayerView) -> SlotParams {
    let c = l.constant_values;
    let formula = named_formula(l.formula_type) as u8;
    if c.len() >= 5 {
        SlotParams {
            steepness: c[0],
            deviation: c[1],
            minimum: c[2],
            maximum: c[3],
            original_level: c[4],
            formula,
        }
    } else {
        SlotParams { formula, ..p }
    }
}

/// The rows with column `s` set to the factors, as far as there are any.
pub open spec fn column_from(rows: Seq<Seq<Real32>>, s: int, factors: Seq<Real32>) -> Seq<
    Seq<Real32>,
> {
    Seq::new(
        rows.len(),
        |k: int|
            if k < factors.len() {
                rows[k].update(s, factors[k])
            } else {
                rows[k]
            },
    )
}

/// The mixer after one layer. A layer that the mixer does not have is left
/// out.
pub open spec fn layer_applied(m: MixerView, l: LayerView) -> MixerView {
    if l.layer >= 8 {
        m
    } else {
        MixerView {
            slot_params: m.slot_params.update(
                l.layer as int,
                slot_from(m.slot_params[l.layer as int], l),
            ),
            mood_weight: column_from(m.mood_weight, l.layer as int, l.mood_factors),
            balancer_mask: column_from(
                m.balancer_mask,
                l.layer as int,
                l.balancer_include_factors,
            ),
            ..m
        }
    }
}

/// The mixer after the layers, one after the other.
pub open spec fn layers_applied(m: MixerView, layers: Seq<LayerView>) -> MixerView
    decreases layers.len(),
{
    if layers.len() == 0 {
        m
    } else {
        layer_applied(layers_applied(m, layers.drop_last()), layers.last())
    }
}

fn set_column(rows: &mut [[Real32; 8]; 3], s: usize, factors: &Vec<Real32>)
    requires
        s < 8,
    ensures
        crate::adaptive::rows(*final(rows)) == column_from(
            crate::adaptive::rows(*old(rows)),
            s as int,
            factors@,
        ),
{
    let ghost before = crate::adaptive::rows(*rows);
    let mut next: [[Real32; 8]; 3] = *rows;
    if factors.len() > 0 {
        next[0][s] = factors[0];
    }
    if factors.len() > 1 {
        next[1][s] = factors[1];
    }
    if factors.len() > 2 {
        next[2][s] = factors[2];
    }
    *rows = next;
    proof {
        let after = crate::adaptive::rows(*rows);
        let want = column_from(before, s as int, factors@);
        assert forall|k: int| 0 <= k < 3 implies after[k] =~= want[k] by {
            assert(before[k] == old(rows)@[k]@);
            assert(after[k] == rows@[k]@);
        }
        assert(after =~= want);
    }
}

/// The header of an asset with the names of a recipe.
pub open spec fn renamed(meta: AssetMetaView, r: RecipeView) -> AssetMetaView {
    AssetMetaView {
        production_code: r.production_code,
        variant_name: r.variant_name,
        asset_name: r.asset_name,
        ..meta
    }
}

/// Set the mixer and the names of the asset from a recipe. Gives back the
/// identities of the music and of its page.
pub fn apply(recipe: Recipe, mixer: &mut AdaptiveMixer, meta: &mut AssetMeta) -> (r: (
    String,
    String,
))
    ensures
        r.0@ == recipe@.id,
        r.1@ == recipe@.page_uuid,
        final(mixer)@ == layers_applied(old(mixer)@, recipe@.layers),
        final(meta)@ == renamed(old(meta)@, recipe@),
{
    meta.production_code = recipe.production_code;
    meta.variant_name = recipe.variant_name;
    meta.asset_name = recipe.asset_name;
    let ghost all = layer_views(recipe.layers@);
    let ghost m0 = mixer@;
    let mut i: usize = 0;
    while i < recipe.layers.len()
        invariant
            0 <= i <= recipe.layers@.len(),
            all == layer_views(recipe.layers@),
            mixer@ == layers_applied(m0, all.take(i as int)),
        decreases recipe.layers@.len() - i,
    {
        let l = &recipe.layers[i];
        let ghost before = mixer@;
        proof {
            assert(all[i as int] == l@);
            assert(all.take(i + 1).drop_last() =~= all.take(i as int));
        }
        if l.layer < 8 {
            let s: usize = l.layer;
            let old_slot = mixer.slot_params[s];
            let formula = parse_formula_type(l.formula_type.as_str());
            let c = &l.constant_values;
            let slot = if c.len() >= 5 {
                SlotParams {
                    steepness: c[0],
                    deviation: c[1],
                    minimum: c[2],
                    maximum: c[3],
                    original_level: c[4],
                    formula,
                }
            } else {
                SlotParams { formula, ..old_slot }
            };
            mixer.slot_params[s] = slot;
            set_column(&mut mixer.mood_weight, s, &l.mood_factors);
            set_column(&mut mixer.balancer_mask, s, &l.balancer_include_factors);
            assert(mixer@ =~= layer_applied(before, l@));
        }
        i += 1;
    }
    assert(all.take(i as int) =~= all);
    (recipe.id, recipe.page_uuid)
}

// Laws.

proof fn lemma_without_type(s: Seq<char>)
    requires
        s.len() > 0,
        s[0] != 't',
    ensures
        without_type("type"@ + s) == s,
{
    reveal_strlit("type");
    assert("type"@.len() == 4);
    reveal_with_fuel(without_type, 2);
    let t = "type"@ + s;
    assert(t.subrange(0, 4) =~= "type"@);
    assert(t.subrange(4, t.len() as int) =~= s);
    if begins_with(s, "type"@) {
        assert(s.subrange(0, 4)[0] == s[0]);
        assert("type"@[0] == 't');
    }
}

/// The name of a formula tells the formula, held in 1 to 9.
pub proof fn formula_name_reads_back(f: u8)
    ensures
        named_formula(formula_name(f)) == if f < 1 {
            1
        } else if f > 9 {
            9
        } else {
            f as int
        },
{
    crate::text::lemma_decimal_reads(f as nat);
    let d = decimal_text(f as nat);
    assert(crate::text::is_digit(d[0]));
    lemma_without_type(d);
    assert(crate::text::without_plus(d) == d);
}

proof fn lemma_layers_back(m: MixerView, other: MixerView, n: nat)
    requires
        n <= 8,
        shaped(m),
        shaped(other),
    ensures
        ({
            let layers = Seq::new(8, |s: int| layer_of(m, s)).take(n as int);
            let after = layers_applied(other, layers);
            &&& shaped(after)
            &&& after == (MixerView {
                slot_params: after.slot_params,
                mood_weight: after.mood_weight,
                balancer_mask: after.balancer_mask,
                ..other
            })
            &&& forall|s: int|
                0 <= s < n ==> #[trigger] after.slot_params[s] == slot_again(m.slot_params[s])
            &&& forall|k: int, s: int|
                0 <= k < 3 && 0 <= s < n ==> #[trigger] after.mood_weight[k][s]
                    == m.mood_weight[k][s]
            &&& forall|k: int, s: int|
                0 <= k < 3 && 0 <= s < n ==> #[trigger] after.balancer_mask[k][s]
                    == m.balancer_mask[k][s]
        }),
    decreases n,
{
    let all = Seq::new(8, |s: int| layer_of(m, s));
    let layers = all.take(n as int);
    if n == 0 {
        assert(layers =~= Seq::empty());
    } else {
        lemma_layers_back(m, other, (n - 1) as nat);
        assert(layers.drop_last() =~= all.take(n - 1));
        assert(layers.last() == layer_of(m, n - 1));
        formula_name_reads_back(m.slot_params[n - 1].formula);
        let before = layers_applied(other, all.take(n - 1));
        let l = layer_of(m, n - 1);
        let after = layer_applied(before, l);
        assert(layers_applied(other, layers) == after);
        assert(l.mood_factors.len() == 3);
        assert(l.balancer_include_factors.len() == 3);
        assert forall|k: int| 0 <= k < 3 implies (#[trigger] after.mood_weight[k]).len() == 8
            && after.balancer_mask[k].len() == 8 by {
            assert(before.mood_weight[k].len() == 8);
        }
        assert forall|k: int, s: int| 0 <= k < 3 && 0 <= s < n implies
            #[trigger] after.mood_weight[k][s] == m.mood_weight[k][s] by {
            assert(before.mood_weight[k].len() == 8);
            if s < n - 1 {
                assert(before.mood_weight[k][s] == m.mood_weight[k][s]);
            }
        }
        assert forall|k: int, s: int| 0 <= k < 3 && 0 <= s < n implies
            #[trigger] after.balancer_mask[k][s] == m.balancer_mask[k][s] by {
            assert(before.mood_weight[k].len() == 8);
            if s < n - 1 {
                assert(before.balancer_mask[k][s] == m.balancer_mask[k][s]);
            }
        }
    }
}

/// Eight slots, and three rows of eight in each mask.
pub open spec fn shaped(m: MixerView) -> bool {
    &&& m.slot_params.len() == 8
    &&& m.mood_weight.len() == 3
    &&& m.balancer_mask.len() == 3
    &&& forall|k: int|
        0 <= k < 3 ==> (#[trigger] m.mood_weight[k]).len() == 8 && m.balancer_mask[k].len() == 8
}

/// The slot with its formula held in 1 to 9.
pub open spec fn slot_again(p: SlotParams) -> SlotParams {
    SlotParams {
        formula: if p.formula < 1 {
            1
        } else if p.formula > 9 {
            9
        } else {
            p.formula
        },
        ..p
    }
}

/// Setting a mixer from the recipe of another gives it the slots of the other,
/// their formulas held in 1 to 9, and the masks; all else stays.
pub proof fn recipe_reads_back(
    m: MixerView,
    other: MixerView,
    meta: AssetMetaView,
    music_uuid: Seq<char>,
    page_uuid: Seq<char>,
)
    requires
        shaped(m),
        shaped(other),
    ensures
        layers_applied(other, recipe_of(m, meta, music_uuid, page_uuid).layers) == (MixerView {
            slot_params: m.slot_params.map_values(|p: SlotParams| slot_again(p)),
            mood_weight: m.mood_weight,
            balancer_mask: m.balancer_mask,
            ..other
        }),
{
    lemma_layers_back(m, other, 8);
    let layers = recipe_of(m, meta, music_uuid, page_uuid).layers;
    assert(layers.take(8) =~= layers);
    let after = layers_applied(other, layers);
    assert(after.slot_params =~= m.slot_params.map_values(|p: SlotParams| slot_again(p)));
    assert forall|k: int| 0 <= k < 3 implies after.mood_weight[k] =~= #[trigger] m.mood_weight[k] by {
        assert(after.mood_weight[k].len() == 8);
    }
    assert forall|k: int| 0 <= k < 3 implies after.balancer_mask[k] =~= #[trigger] m.balancer_mask[k] by {
        assert(after.mood_weight[k].len() == 8);
        assert(m.mood_weight[k].len() == 8);
    }
    assert(after.mood_weight =~= m.mood_weight);
    assert(after.balancer_mask =~= m.balancer_mask);
}

} // verus!
