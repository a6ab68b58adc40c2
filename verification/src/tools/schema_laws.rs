//! What the schemas of tools say, and what the tools of the workspace may do.
use vstd::prelude::*;
use crate::intent::schema_name;
use crate::json::{obj, txt, JsonView};
use crate::permission::ToolPermission;
use crate::provider::request_laws::{lemma_no_members, lemma_with};
use crate::tool_router::schema_description;
use crate::tools::registry::{argument_fault, ToolEntry};
use crate::tools::registry_laws::{law_registering_changes_one_tool, law_required_fields_are_needed, required_fields, tool_of};
use crate::tools::schema::{function_spec, required_spec};
use crate::tools::workspace::{bash_schema, edit_schema, glob_schema, grep_schema, read_schema, with_core_tools, write_schema};

verus! {

/// The schema of a tool holds its name, its description and its parameters.
pub proof fn law_schemas_name_their_tool(
    name: Seq<char>,
    description: Seq<char>,
    parameters: JsonView,
)
    ensures
        schema_name(function_spec(name, description, parameters)) == Some(name),
        schema_description(function_spec(name, description, parameters)) == description,
        function_spec(name, description, parameters).at("function"@).at("parameters"@)
            == parameters,
        function_spec(name, description, parameters).at("type"@) == txt("function"@),
{
    reveal_strlit("type");
    reveal_strlit("function");
    reveal_strlit("name");
    reveal_strlit("description");
    reveal_strlit("parameters");
    assert("type"@.len() == 4 && "function"@.len() == 8 && "name"@.len() == 4
        && "description"@.len() == 11 && "parameters"@.len() == 10);
    lemma_no_members();
    let o = obj();
    let a = o.with("name"@, txt(name));
    lemma_with(o, "name"@, txt(name));
    let b = a.with("description"@, txt(description));
    lemma_with(a, "description"@, txt(description));
    let f = b.with("parameters"@, parameters);
    lemma_with(b, "parameters"@, parameters);
    let t = o.with("type"@, txt("function"@));
    lemma_with(o, "type"@, txt("function"@));
    lemma_with(t, "function"@, f);
}

/// The fields that a schema requires are those that it was made with, and
/// arguments suit it exactly where they are an object that has all of them.
pub proof fn law_schemas_require_their_fields(
    name: Seq<char>,
    description: Seq<char>,
    properties: JsonView,
    required: Seq<&str>,
    args: JsonView,
)
    ensures
        ({
            let schema = function_spec(name, description, required_spec(properties, required));
            &&& schema.at("function"@).at("parameters"@).at("properties"@) == properties
            &&& argument_fault(schema, args) is None <==> args is Object && forall|i: int|
                0 <= i < required.len() ==> !(args.at((#[trigger] required[i])@) is Null)
        }),
{
    reveal_strlit("type");
    reveal_strlit("properties");
    reveal_strlit("required");
    assert("type"@.len() == 4 && "properties"@.len() == 10 && "required"@.len() == 8);
    lemma_no_members();
    let o = obj();
    let f = |n: &str| txt(n@);
    let list = JsonView::Array(required.map_values(f));
    let a = o.with("type"@, txt("object"@));
    lemma_with(o, "type"@, txt("object"@));
    let b = a.with("properties"@, properties);
    lemma_with(a, "properties"@, properties);
    lemma_with(b, "required"@, list);
    let parameters = required_spec(properties, required);
    law_schemas_name_their_tool(name, description, parameters);
    let schema = function_spec(name, description, parameters);
    law_required_fields_are_needed(schema, args);
    let fields = required_fields(schema);
    assert(fields == required.map_values(f));
    assert forall|i: int| 0 <= i < required.len() implies #[trigger] fields[i] == JsonView::Text(
        required[i]@,
    ) by {}
    if argument_fault(schema, args) is None {
        assert forall|i: int| 0 <= i < required.len() implies !(args.at(
            (#[trigger] required[i])@,
        ) is Null) by {
            assert(fields[i] == JsonView::Text(required[i]@));
        }
    }
}

/// Whatever tools there were before, reading and searching in the workspace may
/// run, and writing, editing and commands have to ask; tools of other names stay
/// as they are.
pub proof fn law_changes_to_the_workspace_have_to_ask(tools: Seq<ToolEntry>, other: Seq<char>)
    ensures
        tool_of(with_core_tools(tools), "Read"@) == Some(
            ToolEntry { name: "Read"@, schema: read_schema(), permission: ToolPermission::Allow },
        ),
        tool_of(with_core_tools(tools), "Glob"@) == Some(
            ToolEntry { name: "Glob"@, schema: glob_schema(), permission: ToolPermission::Allow },
        ),
        tool_of(with_core_tools(tools), "Grep"@) == Some(
            ToolEntry { name: "Grep"@, schema: grep_schema(), permission: ToolPermission::Allow },
        ),
        tool_of(with_core_tools(tools), "Write"@) == Some(
            ToolEntry { name: "Write"@, schema: write_schema(), permission: ToolPermission::Ask },
        ),
        tool_of(with_core_tools(tools), "Edit"@) == Some(
            ToolEntry { name: "Edit"@, schema: edit_schema(), permission: ToolPermission::Ask },
        ),
        tool_of(with_core_tools(tools), "Bash"@) == Some(
            ToolEntry { name: "Bash"@, schema: bash_schema(), permission: ToolPermission::Ask },
        ),
        other != "Read"@ && other != "Write"@ && other != "Edit"@ && other != "Glob"@ && other
            != "Grep"@ && other != "Bash"@ ==> tool_of(with_core_tools(tools), other) == tool_of(
            tools,
            other,
        ),
{
    reveal_strlit("Read");
    reveal_strlit("Write");
    reveal_strlit("Edit");
    reveal_strlit("Glob");
    reveal_strlit("Grep");
    reveal_strlit("Bash");
    assert("Read"@[0] == 'R' && "Write"@[0] == 'W' && "Edit"@[0] == 'E' && "Glob"@[0] == 'G'
        && "Grep"@[0] == 'G' && "Bash"@[0] == 'B' && "Glob"@[1] == 'l' && "Grep"@[1] == 'r');
    lemma_core_step(tools, other);
    lemma_core_step(tools, "Read"@);
    lemma_core_step(tools, "Write"@);
    lemma_core_step(tools, "Edit"@);
    lemma_core_step(tools, "Glob"@);
    lemma_core_step(tools, "Grep"@);
    lemma_core_step(tools, "Bash"@);
}

proof fn lemma_core_step(tools: Seq<ToolEntry>, name: Seq<char>)
    ensures
        tool_of(with_core_tools(tools), name) == if name == "Bash"@ {
            Some(ToolEntry { name, schema: bash_schema(), permission: ToolPermission::Ask })
        } else if name == "Grep"@ {
            Some(ToolEntry { name, schema: grep_schema(), permission: ToolPermission::Allow })
        } else if name == "Glob"@ {
            Some(ToolEntry { name, schema: glob_schema(), permission: ToolPermission::Allow })
        } else if name == "Edit"@ {
            Some(ToolEntry { name, schema: edit_schema(), permission: ToolPermission::Ask })
        } else if name == "Write"@ {
            Some(ToolEntry { name, schema: write_schema(), permission: ToolPermission::Ask })
        } else if name == "Read"@ {
            Some(ToolEntry { name, schema: read_schema(), permission: ToolPermission::Allow })
        } else {
            tool_of(tools, name)
        },
{
    let allow = ToolPermission::Allow;
    let ask = ToolPermission::Ask;
    let r = ToolEntry { name: "Read"@, schema: read_schema(), permission: allow };
    let w = ToolEntry { name: "Write"@, schema: write_schema(), permission: ask };
    let e = ToolEntry { name: "Edit"@, schema: edit_schema(), permission: ask };
    let g = ToolEntry { name: "Glob"@, schema: glob_schema(), permission: allow };
    let s = ToolEntry { name: "Grep"@, schema: grep_schema(), permission: allow };
    let b = ToolEntry { name: "Bash"@, schema: bash_schema(), permission: ask };
    let t1 = crate::tools::registry::with_tool(tools, r);
    let t2 = crate::tools::registry::with_tool(t1, w);
    let t3 = crate::tools::registry::with_tool(t2, e);
    let t4 = crate::tools::registry::with_tool(t3, g);
    let t5 = crate::tools::registry::with_tool(t4, s);
    law_registering_changes_one_tool(tools, r, name);
    law_registering_changes_one_tool(t1, w, name);
    law_registering_changes_one_tool(t2, e, name);
    law_registering_changes_one_tool(t3, g, name);
    law_registering_changes_one_tool(t4, s, name);
    law_registering_changes_one_tool(t5, b, name);
}

} // verus!
