//! What holds of the tools of a registry.
use vstd::prelude::*;
use crate::json::JsonView;
use crate::paths::{text_order, Order};
use crate::permission::ToolPermission;
use crate::text::chars::byte_len;
use crate::text::laws::{law_text_order_is_total, law_text_order_is_transitive};
use crate::text::number::dec;
use crate::text::pieces::trim_spec;
use crate::text::search::has_suffix;
use crate::tools::builtin::{expression_of, is_expression_blank};
use crate::tools::output::OutputView;
use crate::tools::registry::{argument_fault, insert_name, missing_field, position, raw_fault, sorted_permissions, truncated, with_permission, with_tool, RegistryView, ToolEntry};
use crate::tools::workspace::{bash_spec, command_output, command_text};

verus! {

/// A tool is found by its name, the first of that name where there are several.
pub proof fn law_the_first_tool_of_a_name_is_found(
    tools: Seq<ToolEntry>,
    name: Seq<char>,
    k: int,
)
    requires
        0 <= k < tools.len(),
        tools[k].name == name,
        forall|i: int| 0 <= i < k ==> (#[trigger] tools[i]).name != name,
    ensures
        position(tools, name) == Some(k),
    decreases tools.len(),
{
    let front = tools.drop_last();
    assert forall|i: int| 0 <= i < k implies (#[trigger] front[i]).name != name by {
        assert(front[i] == tools[i]);
    }
    if k < front.len() {
        law_the_first_tool_of_a_name_is_found(front, name, k);
    } else {
        law_missing_tools_are_not_found(front, name);
    }
}

/// A name that no tool has is not found, and what is found has the name.
pub proof fn law_missing_tools_are_not_found(tools: Seq<ToolEntry>, name: Seq<char>)
    ensures
        (forall|i: int| 0 <= i < tools.len() ==> (#[trigger] tools[i]).name != name) ==> position(
            tools,
            name,
        ) is None,
        position(tools, name) matches Some(i) ==> 0 <= i < tools.len() && tools[i].name == name
            && forall|j: int| 0 <= j < i ==> (#[trigger] tools[j]).name != name,
        position(tools, name) is None ==> forall|i: int|
            0 <= i < tools.len() ==> (#[trigger] tools[i]).name != name,
    decreases tools.len(),
{
    if tools.len() > 0 {
        let front = tools.drop_last();
        law_missing_tools_are_not_found(front, name);
        assert forall|i: int| 0 <= i < front.len() implies #[trigger] tools[i] == front[i] by {}
        if forall|i: int| 0 <= i < tools.len() ==> (#[trigger] tools[i]).name != name {
            assert(tools[tools.len() - 1].name != name);
            assert forall|i: int| 0 <= i < front.len() implies (#[trigger] front[i]).name != name by {
                assert(tools[i].name != name);
            }
        }
        if position(front, name) is Some {
            let i = position(front, name)->0;
            assert(tools[i] == front[i]);
            assert forall|j: int| 0 <= j < i implies (#[trigger] tools[j]).name != name by {
                assert(front[j].name != name);
            }
        } else {
            assert forall|i: int| 0 <= i < tools.len() - 1 implies (#[trigger] tools[i]).name
                != name by {
                assert(front[i].name != name);
            }
        }
    }
}

/// The tool of a name.
pub open spec fn tool_of(tools: Seq<ToolEntry>, name: Seq<char>) -> Option<ToolEntry> {
    match position(tools, name) {
        Some(i) => Some(tools[i]),
        None => None,
    }
}

/// Registering a tool changes nothing for the tools of other names, and the order
/// of the tools stays.
pub proof fn law_registering_changes_one_tool(
    tools: Seq<ToolEntry>,
    entry: ToolEntry,
    other: Seq<char>,
)
    ensures
        tool_of(with_tool(tools, entry), entry.name) == Some(entry),
        other != entry.name ==> tool_of(with_tool(tools, entry), other) == tool_of(tools, other),
        forall|i: int|
            0 <= i < tools.len() ==> (#[trigger] with_tool(tools, entry)[i]).name == tools[i].name,
{
    let after = with_tool(tools, entry);
    law_missing_tools_are_not_found(tools, entry.name);
    law_missing_tools_are_not_found(tools, other);
    match position(tools, entry.name) {
        Some(i) => {
            assert forall|j: int| 0 <= j < i implies (#[trigger] after[j]).name != entry.name by {
                assert(tools[j].name != entry.name);
            }
            law_the_first_tool_of_a_name_is_found(after, entry.name, i);
        },
        None => {
            let last = tools.len() as int;
            assert forall|j: int| 0 <= j < last implies (#[trigger] after[j]).name
                != entry.name by {
                assert(tools[j].name != entry.name);
            }
            law_the_first_tool_of_a_name_is_found(after, entry.name, last);
        },
    }
    if other != entry.name {
        match position(tools, other) {
            Some(k) => {
                assert(after[k] == tools[k]);
                assert forall|j: int| 0 <= j < k implies (#[trigger] after[j]).name != other by {
                    assert(tools[j].name != other);
                }
                law_the_first_tool_of_a_name_is_found(after, other, k);
            },
            None => {
                assert forall|j: int| 0 <= j < after.len() implies (#[trigger] after[j]).name
                    != other by {
                    if j < tools.len() {
                        assert(tools[j].name != other);
                    }
                }
                law_missing_tools_are_not_found(after, other);
            },
        }
    }
}

/// Changing the permission of a tool changes nothing else of it, and nothing of
/// any other.
pub proof fn law_permissions_change_alone(
    tools: Seq<ToolEntry>,
    i: int,
    permission: ToolPermission,
    j: int,
)
    requires
        0 <= i < tools.len(),
        0 <= j < tools.len(),
    ensures
        with_permission(tools, i, permission).len() == tools.len(),
        with_permission(tools, i, permission)[j].name == tools[j].name,
        with_permission(tools, i, permission)[j].schema == tools[j].schema,
        with_permission(tools, i, permission)[j].permission == if j == i {
            permission
        } else {
            tools[j].permission
        },
{
}

/// The fields that a schema requires.
pub open spec fn required_fields(schema: JsonView) -> Seq<JsonView> {
    schema.at("function"@).at("parameters"@).at("required"@).items()
}

/// Arguments suit a schema exactly where they are an object with a value other
/// than null for every field that is required.
pub proof fn law_required_fields_are_needed(schema: JsonView, args: JsonView)
    ensures
        argument_fault(schema, args) is None <==> args is Object && forall|i: int|
            0 <= i < required_fields(schema).len() ==> ((
            #[trigger] required_fields(schema)[i]) matches JsonView::Text(name) ==> !(args.at(
                name,
            ) is Null)),
{
    let required = required_fields(schema);
    lemma_missing_field(required, args);
    if args is Object && missing_field(required, args) is Some {
        let name = missing_field(required, args)->0;
        let i = choose|i: int|
            0 <= i < required.len() && (#[trigger] required[i]).as_text() == Some(name);
        assert(required[i] == JsonView::Text(name));
    }
}

proof fn lemma_missing_field(required: Seq<JsonView>, args: JsonView)
    ensures
        match missing_field(required, args) {
            Some(name) => args.at(name) is Null && exists|i: int|
                0 <= i < required.len() && (#[trigger] required[i]).as_text() == Some(name),
            None => forall|i: int|
                0 <= i < required.len() ==> ((#[trigger] required[i]).as_text() matches Some(name)
                    ==> !(args.at(name) is Null)),
        },
    decreases required.len(),
{
    if required.len() > 0 {
        let rest = required.skip(1);
        lemma_missing_field(rest, args);
        if missing_field(required, args) == missing_field(rest, args) {
            match missing_field(rest, args) {
                Some(name) => {
                    let i = choose|i: int|
                        0 <= i < rest.len() && (#[trigger] rest[i]).as_text() == Some(name);
                    assert(required[i + 1] == rest[i]);
                },
                None => {
                    assert forall|i: int| 0 <= i < required.len() implies ((
                    #[trigger] required[i]).as_text() matches Some(name) ==> !(args.at(
                        name,
                    ) is Null)) by {
                        if i > 0 {
                            assert(rest[i - 1] == required[i]);
                        }
                    }
                },
            }
        } else {
            assert(required[0].as_text() == missing_field(required, args));
        }
    }
}

/// A call of a tool that may run, with arguments that suit it, runs; one that has to
/// ask is asked about where there is someone to ask; every other call is refused
/// with an error.
pub proof fn law_calls_run_ask_or_fail(
    r: RegistryView,
    name: Seq<char>,
    raw: Seq<char>,
    tool: ToolEntry,
)
    requires
        tool_of(r.tools, name) == Some(tool),
        raw_fault(tool.schema, raw) is None,
    ensures
        tool.permission == ToolPermission::Allow ==> r.plan(name, raw) is Run,
        tool.permission == ToolPermission::Ask && r.has_approver ==> r.plan(name, raw) is Ask,
        tool.permission == ToolPermission::Ask && !r.has_approver ==> r.plan(name, raw) is Reject,
        tool.permission == ToolPermission::Deny ==> r.plan(name, raw) is Reject,
{
}

/// A refusal is an error, and so is the plan for a tool that is not there or for
/// arguments that do not suit it.
pub proof fn law_refusals_are_errors(r: RegistryView, name: Seq<char>, raw: Seq<char>)
    ensures
        r.plan(name, raw) matches crate::tools::registry::PlanView::Reject(o) ==> o.is_error,
        tool_of(r.tools, name) is None ==> r.plan(name, raw) is Reject,
        tool_of(r.tools, name) matches Some(tool) ==> raw_fault(tool.schema, raw) is Some
            ==> r.plan(name, raw) is Reject,
{
}

/// An output that is too long is cut to the bound, with both lengths told behind;
/// whether it is an error stays, and a shorter one is not touched.
pub proof fn law_long_outputs_are_cut(o: OutputView, max: int)
    requires
        0 <= max,
    ensures
        truncated(o, max).is_error == o.is_error,
        o.content.len() <= max ==> truncated(o, max) == o,
        o.content.len() > max ==> ({
            let text = truncated(o, max).content;
            let note = text.skip(max);
            &&& text.take(max) == o.content.take(max)
            &&& note == "\n[工具结果已截断：原始 "@ + dec(o.content.len()) + " 字符，最多保留 "@ + dec(
                max as nat,
            ) + " 字符]"@
        }),
{
    if o.content.len() > max {
        let text = truncated(o, max).content;
        let note = "\n[工具结果已截断：原始 "@ + dec(o.content.len()) + " 字符，最多保留 "@ + dec(max as nat)
            + " 字符]"@;
        assert(text =~= o.content.take(max) + note);
        assert(text.take(max) =~= o.content.take(max));
        assert(text.skip(max) =~= note);
    }
}

/// Names and permissions in the order of the names.
pub open spec fn permissions_in_order(s: Seq<(Seq<char>, ToolPermission)>) -> bool {
    forall|i: int, j: int|
        #![trigger s[i], s[j]]
        0 <= i < j < s.len() ==> text_order(s[j].0, s[i].0) != Order::Less
}

pub proof fn lemma_insert_name(
    s: Seq<(Seq<char>, ToolPermission)>,
    x: (Seq<char>, ToolPermission),
)
    requires
        permissions_in_order(s),
    ensures
        permissions_in_order(insert_name(s, x)),
        insert_name(s, x).to_multiset() == s.to_multiset().insert(x),
    decreases s.len(),
{
    broadcast use vstd::seq_lib::group_to_multiset_ensures;

    let r = insert_name(s, x);
    if s.len() == 0 {
        assert(s =~= Seq::empty());
        assert(r =~= Seq::<(Seq<char>, ToolPermission)>::empty().push(x));
    } else if text_order(x.0, s[0].0) == Order::Less {
        assert(r =~= s.insert(0, x));
        law_text_order_is_total(x.0, s[0].0);
        law_text_order_is_total(s[0].0, x.0);
        assert forall|i: int, j: int|
            #![trigger r[i], r[j]]
            0 <= i < j < r.len() implies text_order(r[j].0, r[i].0) != Order::Less by {
            assert(r[j] == s[j - 1]);
            if i > 0 {
                assert(r[i] == s[i - 1]);
            } else if j > 1 {
                assert(text_order(s[j - 1].0, s[0].0) != Order::Less);
                law_text_order_is_transitive(x.0, s[0].0, s[j - 1].0);
            }
        }
    } else {
        let rest = s.skip(1);
        assert forall|i: int, j: int|
            #![trigger rest[i], rest[j]]
            0 <= i < j < rest.len() implies text_order(rest[j].0, rest[i].0) != Order::Less by {
            assert(rest[i] == s[i + 1] && rest[j] == s[j + 1]);
        }
        lemma_insert_name(rest, x);
        let w = insert_name(rest, x);
        assert(r =~= w.insert(0, s[0]));
        assert(s =~= rest.insert(0, s[0]));
        assert(w.insert(0, s[0]).to_multiset() == w.to_multiset().insert(s[0]));
        assert(rest.to_multiset().insert(x).insert(s[0]) =~= rest.to_multiset().insert(
            s[0],
        ).insert(x));
        assert forall|i: int, j: int|
            #![trigger r[i], r[j]]
            0 <= i < j < r.len() implies text_order(r[j].0, r[i].0) != Order::Less by {
            assert(r[j] == w[j - 1]);
            if i > 0 {
                assert(r[i] == w[i - 1]);
            } else {
                assert(w.to_multiset().contains(w[j - 1]));
                assert(rest.to_multiset().insert(x).contains(w[j - 1]));
                if w[j - 1] != x {
                    assert(rest.to_multiset().contains(w[j - 1]));
                    assert(rest.contains(w[j - 1]));
                    let k = choose|k: int| 0 <= k < rest.len() && rest[k] == w[j - 1];
                    assert(s[k + 1] == w[j - 1]);
                }
            }
        }
    }
}

/// The permissions of the tools are listed for all of them, in the order of their
/// names.
pub proof fn law_permissions_are_listed_by_name(tools: Seq<ToolEntry>)
    ensures
        permissions_in_order(sorted_permissions(tools)),
        sorted_permissions(tools).to_multiset() == tools.map_values(
            |t: ToolEntry| (t.name, t.permission),
        ).to_multiset(),
    decreases tools.len(),
{
    broadcast use vstd::seq_lib::group_to_multiset_ensures;

    let f = |t: ToolEntry| (t.name, t.permission);
    if tools.len() > 0 {
        let front = tools.drop_last();
        law_permissions_are_listed_by_name(front);
        lemma_insert_name(sorted_permissions(front), f(tools.last()));
        assert(tools.map_values(f) =~= front.map_values(f).push(f(tools.last())));
    } else {
        assert(tools.map_values(f) =~= Seq::empty());
    }
}

/// What a command wrote is shown whole, its errors behind all else under a heading
/// on a line of its own.
pub proof fn law_command_output_is_shown_whole(stdout: Seq<char>, stderr: Seq<char>)
    ensures
        stdout.is_prefix_of(command_text(stdout, stderr)),
        stderr.len() == 0 ==> command_text(stdout, stderr) == stdout,
        stderr.len() > 0 ==> has_suffix(command_text(stdout, stderr), "[stderr]\n"@ + stderr),
        stderr.len() > 0 && stdout.len() > 0 ==> has_suffix(
            command_text(stdout, stderr),
            "\n[stderr]\n"@ + stderr,
        ),
{
    reveal_strlit("\n");
    reveal_strlit("[stderr]\n");
    reveal_strlit("\n[stderr]\n");
    let text = command_text(stdout, stderr);
    let tail = "[stderr]\n"@ + stderr;
    let line = "\n[stderr]\n"@ + stderr;
    assert(line =~= "\n"@ + tail);
    assert(text.take(stdout.len() as int) =~= stdout);
    if stderr.len() > 0 {
        assert(text.skip(text.len() - tail.len()) =~= tail);
        assert(text.subrange(text.len() - tail.len(), text.len() as int) =~= tail);
        if stdout.len() > 0 {
            if has_suffix(stdout, "\n"@) {
                assert(stdout.subrange(stdout.len() - 1, stdout.len() as int)[0] == '\n');
                assert(stdout.last() == '\n');
            }
            assert(text.subrange(text.len() - line.len(), text.len() as int) =~= line);
        }
    }
}

/// A command that has ended is an error exactly where it did not succeed; what it
/// wrote is shown as it is, and how it ended where it wrote nothing.
pub proof fn law_commands_tell_how_they_ended(
    stdout: Seq<char>,
    stderr: Seq<char>,
    status: Seq<char>,
    succeeded: bool,
)
    ensures
        command_output(stdout, stderr, status, succeeded).is_error == !succeeded,
        trim_spec(command_text(stdout, stderr)).len() > 0 ==> command_output(
            stdout,
            stderr,
            status,
            succeeded,
        ).content == command_text(stdout, stderr),
        stdout.len() == 0 && stderr.len() == 0 ==> status.is_suffix_of(
            command_output(stdout, stderr, status, succeeded).content,
        ),
{
    let text = "命令完成，退出码："@ + status;
    assert(text.skip(text.len() - status.len()) =~= status);
    if stdout.len() == 0 && stderr.len() == 0 {
        crate::text::pieces::lemma_trim_len(
            command_text(stdout, stderr),
            crate::text::pieces::CharClass::White,
        );
    }
}

/// A command needs a text that is not empty; it runs in the directory that is
/// named, and in the workspace itself where none is.
pub proof fn law_commands_name_their_directory(args: JsonView, command: Seq<char>, cwd: Seq<char>)
    requires
        args.field("command"@) == Some(JsonView::Text(command)),
    ensures
        command.len() == 0 ==> bash_spec(args) is Err,
        command.len() > 0 && args.field("cwd"@) == Some(JsonView::Text(cwd)) ==> bash_spec(args)
            == Ok::<(Seq<char>, Seq<char>), Seq<char>>((command, cwd)),
        command.len() > 0 && args.field("cwd"@) is None ==> bash_spec(args) == Ok::<
            (Seq<char>, Seq<char>),
            Seq<char>,
        >((command, "."@)),
{
}

/// An expression is taken as it is, unless it is too long or missing; one of blanks
/// only counts as empty.
pub proof fn law_expressions_are_taken_as_they_are(args: JsonView, text: Seq<char>)
    requires
        args.field("expression"@) == Some(JsonView::Text(text)),
    ensures
        byte_len(text) > 200 ==> expression_of(args) is Err,
        byte_len(text) <= 200 && (exists|i: int|
            0 <= i < text.len() && !is_expression_blank(#[trigger] text[i])) ==> expression_of(args)
            == Ok::<Seq<char>, OutputView>(text),
        byte_len(text) <= 200 && (forall|i: int|
            0 <= i < text.len() ==> is_expression_blank(#[trigger] text[i])) ==> expression_of(args)
            == Ok::<Seq<char>, OutputView>(Seq::empty()),
{
}

} // verus!
