//! The schemas by which tools are described to a model.
use vstd::prelude::*;
use crate::json::{items_view, obj, txt, Json, JsonView};

verus! {

/// The schema of a function.
pub open spec fn function_spec(name: Seq<char>, description: Seq<char>, parameters: JsonView) -> JsonView {
    obj().with("type"@, txt("function"@)).with(
        "function"@,
        obj().with("name"@, txt(name)).with("description"@, txt(description)).with(
            "parameters"@,
            parameters,
        ),
    )
}

/// The schema of a function.
pub fn function_schema(name: &str, description: &str, parameters: Json) -> (r: Json)
    ensures
        r@ == function_spec(name@, description@, parameters@),
{
    let function = Json::empty().put("name", Json::text(name)).put(
        "description",
        Json::text(description),
    ).put("parameters", parameters);
    Json::empty().put("type", Json::text("function")).put("function", function)
}

/// Parameters without a required one.
pub open spec fn parameters_spec(properties: JsonView) -> JsonView {
    obj().with("type"@, txt("object"@)).with("properties"@, properties)
}

/// Parameters of which some are required.
pub open spec fn required_spec(properties: JsonView, required: Seq<&str>) -> JsonView {
    parameters_spec(properties).with(
        "required"@,
        JsonView::Array(required.map_values(|n: &str| txt(n@))),
    )
}

/// Parameters without a required one.
pub fn parameters(properties: Json) -> (r: Json)
    ensures
        r@ == parameters_spec(properties@),
{
    Json::empty().put("type", Json::text("object")).put("properties", properties)
}

/// Parameters of which some are required.
pub fn parameters_with(properties: Json, required: &[&str]) -> (r: Json)
    ensures
        r@ == required_spec(properties@, required@),
{
    let ghost f = |n: &str| txt(n@);
    let mut names: Vec<Json> = Vec::new();
    for i in 0..required.len()
        invariant
            f == (|n: &str| txt(n@)),
            items_view(names@) =~= required@.take(i as int).map_values(f),
    {
        let name = Json::text(required[i]);
        assert(items_view(names@.push(name)) =~= items_view(names@).push(name@));
        assert(required@.take(i + 1).map_values(f) =~= required@.take(i as int).map_values(
            f,
        ).push(name@));
        names.push(name);
    }
    assert(required@.take(required@.len() as int) =~= required@);
    parameters(properties).put("required", Json::array(names))
}

/// A property of a type.
pub open spec fn property_spec(kind: Seq<char>) -> JsonView {
    obj().with("type"@, txt(kind))
}

/// A property of a type, with a description.
pub open spec fn described_spec(kind: Seq<char>, description: Seq<char>) -> JsonView {
    property_spec(kind).with("description"@, txt(description))
}

/// A property of a type.
pub fn property(kind: &str) -> (r: Json)
    ensures
        r@ == property_spec(kind@),
{
    Json::empty().put("type", Json::text(kind))
}

/// A property of a type, with a description.
pub fn described(kind: &str, description: &str) -> (r: Json)
    ensures
        r@ == described_spec(kind@, description@),
{
    property(kind).put("description", Json::text(description))
}

} // verus!
