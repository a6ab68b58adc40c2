//! The registered tools, what each may do, and what becomes of a call.
use vstd::prelude::*;
use crate::json::{items_view, json_parse, parse, Json, JsonView};
use crate::paths::{order_texts, text_order, Order};
use crate::permission::ToolPermission;
use crate::retry::Duration;
use crate::text::chars::{same, take_chars};
use crate::text::number::{dec, decimal, decimal_size};
use crate::text::search::{has_prefix, starts_with};
use crate::tools::builtin::{calculate_schema, current_time_schema, wait_for_schema, CalculateTool, CurrentTimeTool, WaitForTool};
use crate::tools::output::{failure, OutputView, ToolOutput};

verus! {

/// A registered tool.
struct RegisteredTool {
    name: String,
    schema: Json,
    permission: ToolPermission,
}

#[verifier::ext_equal]
pub struct ToolEntry {
    pub name: Seq<char>,
    pub schema: JsonView,
    pub permission: ToolPermission,
}

impl View for RegisteredTool {
    type V = ToolEntry;

    closed spec fn view(&self) -> ToolEntry {
        ToolEntry { name: self.name@, schema: self.schema@, permission: self.permission }
    }
}

pub closed spec fn entries(v: Seq<RegisteredTool>) -> Seq<ToolEntry> {
    v.map_values(|t: RegisteredTool| t@)
}

/// The registered tools in the order of their first registration, and the
/// bounds on what they return and how long they run.
pub struct ToolRegistry {
    tools: Vec<RegisteredTool>,
    max_output_chars: usize,
    max_execution_time: Duration,
    has_approver: bool,
}

#[verifier::ext_equal]
pub struct RegistryView {
    pub tools: Seq<ToolEntry>,
    pub max_output_chars: usize,
    pub max_execution_time: Duration,
    pub has_approver: bool,
}

impl View for ToolRegistry {
    type V = RegistryView;

    closed spec fn view(&self) -> RegistryView {
        RegistryView {
            tools: entries(self.tools@),
            max_output_chars: self.max_output_chars,
            max_execution_time: self.max_execution_time,
            has_approver: self.has_approver,
        }
    }
}

/// The position of the tool of that name.
pub open spec fn position(tools: Seq<ToolEntry>, name: Seq<char>) -> Option<int>
    decreases tools.len(),
{
    if tools.len() == 0 {
        None
    } else {
        match position(tools.drop_last(), name) {
            Some(i) => Some(i),
            None => if tools.last().name == name {
                Some(tools.len() - 1)
            } else {
                None
            },
        }
    }
}

pub proof fn lemma_position(tools: Seq<ToolEntry>, name: Seq<char>)
    ensures
        match position(tools, name) {
            Some(i) => 0 <= i < tools.len() && tools[i].name == name,
            None => forall|j: int| 0 <= j < tools.len() ==> (#[trigger] tools[j]).name != name,
        },
    decreases tools.len(),
{
    if tools.len() > 0 {
        let front = tools.drop_last();
        lemma_position(front, name);
        if position(tools, name) is None {
            assert forall|j: int| 0 <= j < tools.len() implies (#[trigger] tools[j]).name
                != name by {
                if j < front.len() {
                    assert(front[j].name != name);
                }
            }
        }
    }
}

/// No two tools have the same name.
pub open spec fn names_distinct(tools: Seq<ToolEntry>) -> bool {
    forall|i: int, j: int|
        0 <= i < j < tools.len() ==> (#[trigger] tools[i]).name != (#[trigger] tools[j]).name
}

/// The tools with one more, which replaces the one of its name.
pub open spec fn with_tool(tools: Seq<ToolEntry>, entry: ToolEntry) -> Seq<ToolEntry> {
    match position(tools, entry.name) {
        Some(i) => tools.update(i, entry),
        None => tools.push(entry),
    }
}

/// The tools whose names do not begin with a prefix.
pub open spec fn named_otherwise(prefix: Seq<char>) -> spec_fn(ToolEntry) -> bool {
    |t: ToolEntry| !has_prefix(t.name, prefix)
}

/// Registering keeps the names distinct.
pub proof fn law_registration_keeps_names_distinct(tools: Seq<ToolEntry>, entry: ToolEntry)
    requires
        names_distinct(tools),
    ensures
        names_distinct(with_tool(tools, entry)),
        position(with_tool(tools, entry), entry.name) is Some,
        with_tool(tools, entry)[position(with_tool(tools, entry), entry.name)->0] == entry,
{
    lemma_position(tools, entry.name);
    let after = with_tool(tools, entry);
    lemma_position(after, entry.name);
    let k = match position(tools, entry.name) {
        Some(i) => i,
        None => tools.len() as int,
    };
    assert(after[k] == entry);
    assert forall|i: int, j: int| 0 <= i < j < after.len() implies (#[trigger] after[i]).name != (
    #[trigger] after[j]).name by {
        if i != k {
            assert(after[i] == tools[i]);
        }
        if j != k {
            assert(after[j] == tools[j]);
        }
        if i == k && k < tools.len() {
            assert(tools[k].name != tools[j].name);
        }
        if j == k && k < tools.len() {
            assert(tools[i].name != tools[k].name);
        }
    }
}

/// The tools with the permission of one changed.
pub open spec fn with_permission(tools: Seq<ToolEntry>, i: int, permission: ToolPermission) -> Seq<
    ToolEntry,
> {
    tools.update(i, ToolEntry { permission, ..tools[i] })
}

/// The first required field that the arguments lack or leave null.
pub open spec fn missing_field(required: Seq<JsonView>, args: JsonView) -> Option<Seq<char>>
    decreases required.len(),
{
    if required.len() == 0 {
        None
    } else {
        match required[0].as_text() {
            Some(name) => if args.at(name) == JsonView::Null {
                Some(name)
            } else {
                missing_field(required.skip(1), args)
            },
            None => missing_field(required.skip(1), args),
        }
    }
}

/// Why arguments do not suit a schema, if they do not.
pub open spec fn argument_fault(schema: JsonView, args: JsonView) -> Option<Seq<char>> {
    if !(args is Object) {
        Some("参数必须是 JSON 对象"@)
    } else {
        match missing_field(
            schema.at("function"@).at("parameters"@).at("required"@).items(),
            args,
        ) {
            Some(name) => Some("缺少 "@ + name + " 参数"@),
            None => None,
        }
    }
}

/// Why the text of arguments does not suit a schema, if it does not.
pub open spec fn raw_fault(schema: JsonView, raw: Seq<char>) -> Option<Seq<char>> {
    match json_parse(raw) {
        Ok(args) => argument_fault(schema, args),
        Err(e) => Some(e),
    }
}

/// Checks arguments against a schema.
pub fn check_arguments(schema: &Json, args: &Json) -> (r: Result<(), String>)
    ensures
        match r {
            Ok(_) => argument_fault(schema@, args@) is None,
            Err(e) => argument_fault(schema@, args@) == Some(e@),
        },
{
    match args {
        Json::Object(_) => {},
        _ => {
            return Err("参数必须是 JSON 对象".to_owned());
        },
    }
    let nothing = Json::Null;
    let function = match schema.get("function") {
        Some(v) => v,
        None => &nothing,
    };
    let described = match function.get("parameters") {
        Some(v) => v,
        None => &nothing,
    };
    let list = match described.get("required") {
        Some(v) => v,
        None => &nothing,
    };
    let required = match list.as_array() {
        Some(items) => items,
        None => {
            return Ok(());
        },
    };
    let ghost all = items_view(required@);
    assert(all.skip(0) =~= all);
    for i in 0..required.len()
        invariant
            args@ is Object,
            all == items_view(required@),
            schema@.at("function"@).at("parameters"@).at("required"@).items() == all,
            missing_field(all, args@) == missing_field(all.skip(i as int), args@),
    {
        assert(all.skip(i as int)[0] == required@[i as int]@);
        assert(all.skip(i as int).skip(1) =~= all.skip(i + 1));
        if let Some(name) = required[i].as_str() {
            let absent = match args.get(name) {
                None => true,
                Some(Json::Null) => true,
                Some(_) => false,
            };
            if absent {
                let mut text = "缺少 ".to_owned();
                text.append(name);
                text.append(" 参数");
                return Err(text);
            }
        }
    }
    Ok(())
}

/// Checks the text of arguments against a schema.
pub fn validate_arguments(schema: &Json, raw_args: &str) -> (r: Result<(), String>)
    ensures
        match r {
            Ok(_) => raw_fault(schema@, raw_args@) is None,
            Err(e) => raw_fault(schema@, raw_args@) == Some(e@),
        },
{
    match parse(raw_args) {
        Ok(args) => check_arguments(schema, &args),
        Err(e) => Err(e),
    }
}

/// An output whose content has at most `max` characters, with a note where
/// it was cut.
pub open spec fn truncated(output: OutputView, max: int) -> OutputView {
    if output.content.len() > max {
        OutputView {
            content: output.content.take(max) + "\n[工具结果已截断：原始 "@ + dec(
                output.content.len(),
            ) + " 字符，最多保留 "@ + dec(max as nat) + " 字符]"@,
            ..output
        }
    } else {
        output
    }
}

/// An output whose content has at most `max_chars` characters.
pub fn truncate_output(output: ToolOutput, max_chars: usize) -> (r: ToolOutput)
    ensures
        r@ == truncated(output@, max_chars as int),
{
    let length: usize = output.content.as_str().unicode_len();
    if length > max_chars {
        let mut content = take_chars(&output.content, max_chars);
        content.append("\n[工具结果已截断：原始 ");
        content.append(decimal_size(length).as_str());
        content.append(" 字符，最多保留 ");
        content.append(decimal_size(max_chars).as_str());
        content.append(" 字符]");
        ToolOutput { content, is_error: output.is_error }
    } else {
        output
    }
}

/// What is to be done about a call.
pub enum CallPlan {
    /// Hand this output back.
    Reject(ToolOutput),
    /// Ask the user, and run the tool if they agree.
    Ask,
    /// Run the tool.
    Run,
}

pub enum PlanView {
    Reject(OutputView),
    Ask,
    Run,
}

impl View for CallPlan {
    type V = PlanView;

    open spec fn view(&self) -> PlanView {
        match self {
            CallPlan::Reject(o) => PlanView::Reject(o@),
            CallPlan::Ask => PlanView::Ask,
            CallPlan::Run => PlanView::Run,
        }
    }
}

impl RegistryView {
    /// The output of a failure, cut to the bound.
    pub open spec fn failed(self, reason: Seq<char>) -> OutputView {
        truncated(failure(reason), self.max_output_chars as int)
    }

    /// What is to be done about a call. Wrong arguments are refused before
    /// the permission is looked at, and without anyone to ask a tool that
    /// would have to ask is refused.
    pub open spec fn plan(self, name: Seq<char>, raw: Seq<char>) -> PlanView {
        match position(self.tools, name) {
            None => PlanView::Reject(self.failed("未知工具: "@ + name)),
            Some(i) => match raw_fault(self.tools[i].schema, raw) {
                Some(reason) => PlanView::Reject(self.failed(reason)),
                None => match self.tools[i].permission {
                    ToolPermission::Allow => PlanView::Run,
                    ToolPermission::Deny => PlanView::Reject(
                        self.failed("权限拒绝或未获批准: "@ + name),
                    ),
                    ToolPermission::Ask => if self.has_approver {
                        PlanView::Ask
                    } else {
                        PlanView::Reject(self.failed("权限拒绝或未获批准: "@ + name))
                    },
                },
            },
        }
    }
}

/// A tool runs without being asked for only where its permission says so and
/// its arguments suit its schema.
pub proof fn law_only_allowed_tools_run(r: RegistryView, name: Seq<char>, raw: Seq<char>)
    ensures
        r.plan(name, raw) is Run ==> position(r.tools, name) is Some
            && r.tools[position(r.tools, name)->0].permission == ToolPermission::Allow
            && raw_fault(r.tools[position(r.tools, name)->0].schema, raw) is None,
        r.plan(name, raw) is Ask ==> position(r.tools, name) is Some
            && r.tools[position(r.tools, name)->0].permission == ToolPermission::Ask
            && r.has_approver && raw_fault(r.tools[position(r.tools, name)->0].schema, raw) is None,
{
}

/// The names and permissions in the order of the names.
pub open spec fn insert_name(s: Seq<(Seq<char>, ToolPermission)>, x: (Seq<char>, ToolPermission)) -> Seq<
    (Seq<char>, ToolPermission),
>
    decreases s.len(),
{
    if s.len() == 0 {
        seq![x]
    } else if text_order(x.0, s[0].0) == Order::Less {
        seq![x] + s
    } else {
        seq![s[0]] + insert_name(s.skip(1), x)
    }
}

pub open spec fn sorted_permissions(tools: Seq<ToolEntry>) -> Seq<(Seq<char>, ToolPermission)>
    decreases tools.len(),
{
    if tools.len() == 0 {
        Seq::empty()
    } else {
        insert_name(
            sorted_permissions(tools.drop_last()),
            (tools.last().name, tools.last().permission),
        )
    }
}

pub open spec fn permissions_view(v: Seq<(String, ToolPermission)>) -> Seq<
    (Seq<char>, ToolPermission),
> {
    v.map_values(|p: (String, ToolPermission)| (p.0@, p.1))
}

/// Puts a name in its place.
pub fn add_name(list: &mut Vec<(String, ToolPermission)>, x: (String, ToolPermission))
    ensures
        permissions_view(final(list)@) == insert_name(permissions_view(old(list)@), (x.0@, x.1)),
{
    let ghost all = permissions_view(list@);
    let ghost y = (x.0@, x.1);
    let mut i: usize = 0;
    assert(all.skip(0) =~= all);
    assert(all.take(0) + insert_name(all, y) =~= insert_name(all, y));
    while i < list.len() && order_texts(&x.0, &list[i].0) != Order::Less
        invariant
            i <= list@.len(),
            all == permissions_view(list@),
            list@ == old(list)@,
            y == (x.0@, x.1),
            insert_name(all, y) == all.take(i as int) + insert_name(all.skip(i as int), y),
        decreases list@.len() - i,
    {
        let ghost rest = all.skip(i as int);
        proof {
            assert(rest[0] == (list@[i as int].0@, list@[i as int].1));
            assert(rest.skip(1) =~= all.skip(i + 1));
            assert(all.take(i as int) + (seq![rest[0]] + insert_name(rest.skip(1), y))
                =~= all.take(i + 1) + insert_name(all.skip(i + 1), y));
        }
        i += 1;
    }
    proof {
        let rest = all.skip(i as int);
        if rest.len() > 0 {
            assert(rest[0] == (list@[i as int].0@, list@[i as int].1));
        }
        assert(insert_name(rest, y) =~= seq![y] + rest);
        assert(permissions_view(list@.insert(i as int, x)) =~= all.take(i as int) + (seq![y]
            + rest));
    }
    list.insert(i, x);
}

impl ToolRegistry {
    /// A registry without tools, with the default bounds.
    pub fn new() -> (r: ToolRegistry)
        ensures
            r@ == (RegistryView {
                tools: Seq::empty(),
                max_output_chars: 8000,
                max_execution_time: Duration { nanos: 30_000_000_000 },
                has_approver: false,
            }),
    {
        let r = ToolRegistry {
            tools: Vec::new(),
            max_output_chars: 8000,
            max_execution_time: Duration::from_secs(30),
            has_approver: false,
        };
        assert(r@.tools =~= Seq::empty());
        r
    }

    fn find(&self, name: &str) -> (r: Option<usize>)
        ensures
            match r {
                Some(i) => position(self@.tools, name@) == Some(i as int) && i
                    < self@.tools.len(),
                None => position(self@.tools, name@) is None,
            },
    {
        let ghost all = self@.tools;
        assert(all.take(0) =~= Seq::empty());
        let mut found: Option<usize> = None;
        for i in 0..self.tools.len()
            invariant
                all == self@.tools,
                match found {
                    Some(k) => position(all.take(i as int), name@) == Some(k as int) && k < i,
                    None => position(all.take(i as int), name@) is None,
                },
        {
            assert(all.take(i + 1).drop_last() =~= all.take(i as int));
            assert(all.take(i + 1).last() == self.tools@[i as int]@);
            if found.is_none() && same(&self.tools[i].name, name) {
                found = Some(i);
            }
        }
        assert(all.take(self.tools@.len() as int) =~= all);
        found
    }

    /// Registers a tool that has to ask before each call.
    pub fn register(&mut self, name: &str, schema: Json)
        ensures
            final(self)@ == (RegistryView {
                tools: with_tool(
                    old(self)@.tools,
                    ToolEntry {
                        name: name@,
                        schema: schema@,
                        permission: ToolPermission::Ask,
                    },
                ),
                ..old(self)@
            }),
    {
        self.register_with_permission(name, schema, ToolPermission::Ask)
    }

    /// Registers a tool with a permission. It replaces a tool of its name,
    /// whose permission does not carry over.
    pub fn register_with_permission(
        &mut self,
        name: &str,
        schema: Json,
        permission: ToolPermission,
    )
        ensures
            final(self)@ == (RegistryView {
                tools: with_tool(
                    old(self)@.tools,
                    ToolEntry { name: name@, schema: schema@, permission },
                ),
                ..old(self)@
            }),
    {
        let ghost before = self@.tools;
        let tool = RegisteredTool { name: name.to_owned(), schema, permission };
        let ghost entry = tool@;
        match self.find(name) {
            Some(i) => {
                self.tools.set(i, tool);
                assert(self@.tools =~= before.update(i as int, entry));
            },
            None => {
                self.tools.push(tool);
                assert(self@.tools =~= before.push(entry));
            },
        }
    }

    /// Removes a tool, and says whether there was one.
    pub fn unregister(&mut self, name: &str) -> (r: bool)
        ensures
            r == (position(old(self)@.tools, name@) is Some),
            final(self)@ == (RegistryView {
                tools: match position(old(self)@.tools, name@) {
                    Some(i) => old(self)@.tools.remove(i),
                    None => old(self)@.tools,
                },
                ..old(self)@
            }),
    {
        let ghost before = self@.tools;
        match self.find(name) {
            Some(i) => {
                let _gone = self.tools.remove(i);
                assert(self@.tools =~= before.remove(i as int));
                true
            },
            None => false,
        }
    }

    /// Removes the tools whose names begin with a prefix.
    pub fn unregister_with_prefix(&mut self, prefix: &str)
        ensures
            final(self)@ == (RegistryView {
                tools: old(self)@.tools.filter(named_otherwise(prefix@)),
                ..old(self)@
            }),
    {
        let ghost all = self@.tools;
        let ghost p = named_otherwise(prefix@);
        let mut kept: Vec<RegisteredTool> = Vec::new();
        proof {
            crate::seqs::lemma_filter_empty(all, p);
            assert(entries(kept@) =~= Seq::empty());
        }
        for i in 0..self.tools.len()
            invariant
                all == self@.tools,
                self@ == old(self)@,
                p == named_otherwise(prefix@),
                entries(kept@) == all.take(i as int).filter(p),
        {
            proof {
                crate::seqs::lemma_filter_step(all, i as int, p);
                assert(all[i as int] == self.tools@[i as int]@);
            }
            if !starts_with(&self.tools[i].name, prefix) {
                let tool = RegisteredTool {
                    name: self.tools[i].name.clone(),
                    schema: self.tools[i].schema.copy(),
                    permission: self.tools[i].permission,
                };
                assert(entries(kept@.push(tool)) =~= entries(kept@).push(tool@));
                kept.push(tool);
            }
        }
        assert(all.take(self.tools@.len() as int) =~= all);
        self.tools = kept;
    }

    /// Changes the permission of a tool. There has to be a tool of that name.
    pub fn set_permission(&mut self, name: &str, permission: ToolPermission) -> (r: Result<
        (),
        String,
    >)
        ensures
            match r {
                Ok(_) => position(old(self)@.tools, name@) is Some && final(self)@ == (
                RegistryView {
                    tools: with_permission(
                        old(self)@.tools,
                        position(old(self)@.tools, name@)->0,
                        permission,
                    ),
                    ..old(self)@
                }),
                Err(e) => position(old(self)@.tools, name@) is None && e@ == "未知工具: "@ + name@
                    && final(self)@ == old(self)@,
            },
    {
        let ghost before = self@.tools;
        match self.find(name) {
            Some(i) => {
                let tool = RegisteredTool {
                    name: self.tools[i].name.clone(),
                    schema: self.tools[i].schema.copy(),
                    permission,
                };
                let ghost entry = tool@;
                self.tools.set(i, tool);
                assert(self@.tools =~= before.update(i as int, entry));
                assert(before[i as int] == old(self).tools@[i as int]@);
                Ok(())
            },
            None => {
                let mut text = "未知工具: ".to_owned();
                text.append(name);
                Err(text)
            },
        }
    }

    /// The permissions of all tools, in the order of the names.
    pub fn permissions(&self) -> (r: Vec<(String, ToolPermission)>)
        ensures
            permissions_view(r@) == sorted_permissions(self@.tools),
    {
        let ghost all = self@.tools;
        let mut r: Vec<(String, ToolPermission)> = Vec::new();
        assert(permissions_view(r@) =~= sorted_permissions(all.take(0)));
        for i in 0..self.tools.len()
            invariant
                all == self@.tools,
                permissions_view(r@) == sorted_permissions(all.take(i as int)),
        {
            assert(all.take(i + 1).drop_last() =~= all.take(i as int));
            assert(all.take(i + 1).last() == self.tools@[i as int]@);
            add_name(&mut r, (self.tools[i].name.clone(), self.tools[i].permission));
        }
        assert(all.take(self.tools@.len() as int) =~= all);
        r
    }

    /// The permission of a tool.
    pub fn permission(&self, name: &str) -> (r: Option<ToolPermission>)
        ensures
            r == match position(self@.tools, name@) {
                Some(i) => Some(self@.tools[i].permission),
                None => None,
            },
    {
        match self.find(name) {
            Some(i) => {
                assert(self@.tools[i as int] == self.tools@[i as int]@);
                Some(self.tools[i].permission)
            },
            None => None,
        }
    }

    /// Says that there is someone to ask.
    pub fn set_approver(&mut self)
        ensures
            final(self)@ == (RegistryView { has_approver: true, ..old(self)@ }),
    {
        self.has_approver = true;
    }

    /// The schemas of all tools.
    pub fn schema(&self) -> (r: Json)
        ensures
            r@ == JsonView::Array(self@.tools.map_values(|t: ToolEntry| t.schema)),
    {
        let ghost all = self@.tools;
        let ghost f = |t: ToolEntry| t.schema;
        let mut list: Vec<Json> = Vec::new();
        for i in 0..self.tools.len()
            invariant
                all == self@.tools,
                f == (|t: ToolEntry| t.schema),
                items_view(list@) =~= all.take(i as int).map_values(f),
        {
            let copy = self.tools[i].schema.copy();
            assert(all[i as int] == self.tools@[i as int]@);
            assert(items_view(list@.push(copy)) =~= items_view(list@).push(copy@));
            assert(all.take(i + 1).map_values(f) =~= all.take(i as int).map_values(f).push(copy@));
            list.push(copy);
        }
        assert(all.take(self.tools@.len() as int) =~= all);
        Json::array(list)
    }

    fn fail(&self, prefix: &str, name: &str) -> (r: ToolOutput)
        ensures
            r@ == self@.failed(prefix@ + name@),
    {
        let mut reason = prefix.to_owned();
        reason.append(name);
        truncate_output(ToolOutput::failure(&reason), self.max_output_chars)
    }

    /// What is to be done about a call.
    pub fn plan_call(&self, name: &str, raw_args: &str) -> (r: CallPlan)
        ensures
            r@ == self@.plan(name@, raw_args@),
    {
        let i: usize = match self.find(name) {
            Some(i) => i,
            None => {
                return CallPlan::Reject(self.fail("未知工具: ", name));
            },
        };
        assert(self@.tools[i as int] == self.tools@[i as int]@);
        if let Err(e) = validate_arguments(&self.tools[i].schema, raw_args) {
            return CallPlan::Reject(
                truncate_output(ToolOutput::failure(&e), self.max_output_chars),
            );
        }
        match self.tools[i].permission {
            ToolPermission::Allow => CallPlan::Run,
            ToolPermission::Deny => CallPlan::Reject(self.refused(name)),
            ToolPermission::Ask => if self.has_approver {
                CallPlan::Ask
            } else {
                CallPlan::Reject(self.refused(name))
            },
        }
    }

    /// The output for a call that was not permitted.
    pub fn refused(&self, name: &str) -> (r: ToolOutput)
        ensures
            r@ == self@.failed("权限拒绝或未获批准: "@ + name@),
    {
        self.fail("权限拒绝或未获批准: ", name)
    }

    /// The output for a call that ran too long.
    pub fn timed_out(&self, limit: Duration) -> (r: ToolOutput)
        ensures
            r@ == self@.failed(
                "执行超时（超过 "@ + dec((limit.nanos / 1_000_000_000) as nat) + " 秒）"@,
            ),
    {
        let mut reason = "执行超时（超过 ".to_owned();
        reason.append(decimal(limit.nanos / 1_000_000_000).as_str());
        reason.append(" 秒）");
        truncate_output(ToolOutput::failure(&reason), self.max_output_chars)
    }

    /// The output of a call that ran, cut to the bound.
    pub fn finished(&self, output: ToolOutput) -> (r: ToolOutput)
        ensures
            r@ == truncated(output@, self@.max_output_chars as int),
    {
        truncate_output(output, self.max_output_chars)
    }

    /// How long a tool may run.
    pub fn execution_limit(&self) -> (r: Duration)
        ensures
            r == self@.max_execution_time,
    {
        self.max_execution_time
    }

    /// How long the tool of that name may run: a command of the shell longer
    /// than the others.
    pub fn limit_for(&self, name: &str) -> (r: Duration)
        ensures
            r == if name@ == "Bash"@ {
                Duration { nanos: 120_000_000_000 }
            } else {
                self@.max_execution_time
            },
    {
        if same(name, "Bash") {
            Duration::from_secs(120)
        } else {
            self.execution_limit()
        }
    }

    /// The default registry with a bound on what tools return, at least one
    /// character.
    pub fn with_max_output_chars(max_output_chars: usize) -> (r: ToolRegistry)
        ensures
            r@ == (RegistryView {
                max_output_chars: if max_output_chars < 1 {
                    1
                } else {
                    max_output_chars
                },
                ..default_registry()
            }),
    {
        let mut r = ToolRegistry::default();
        r.max_output_chars = if max_output_chars < 1 {
            1
        } else {
            max_output_chars
        };
        r
    }

    /// The default registry with a bound on how long tools run, at least one
    /// millisecond.
    pub fn with_execution_timeout(max_execution_time: Duration) -> (r: ToolRegistry)
        ensures
            r@ == (RegistryView {
                max_execution_time: if max_execution_time.nanos < 1_000_000 {
                    Duration { nanos: 1_000_000 }
                } else {
                    max_execution_time
                },
                ..default_registry()
            }),
    {
        let mut r = ToolRegistry::default();
        r.max_execution_time = if max_execution_time.nanos < 1_000_000 {
            Duration { nanos: 1_000_000 }
        } else {
            max_execution_time
        };
        r
    }
}

/// The registry with the built-in tools, all of which may run.
pub open spec fn default_registry() -> RegistryView {
    let allow = ToolPermission::Allow;
    RegistryView {
        tools: with_tool(
            with_tool(
                with_tool(
                    Seq::empty(),
                    ToolEntry {
                        name: "calculate"@,
                        schema: calculate_schema(),
                        permission: allow,
                    },
                ),
                ToolEntry {
                    name: "current_time"@,
                    schema: current_time_schema(),
                    permission: allow,
                },
            ),
            ToolEntry { name: "wait_for"@, schema: wait_for_schema(), permission: allow },
        ),
        max_output_chars: 8000,
        max_execution_time: Duration { nanos: 30_000_000_000 },
        has_approver: false,
    }
}

impl Default for ToolRegistry {
    fn default() -> (r: ToolRegistry)
        ensures
            r@ == default_registry(),
    {
        let mut r = ToolRegistry::new();
        r.register_with_permission("calculate", CalculateTool.schema(), ToolPermission::Allow);
        r.register_with_permission("current_time", CurrentTimeTool.schema(), ToolPermission::Allow);
        r.register_with_permission("wait_for", WaitForTool.schema(), ToolPermission::Allow);
        r
    }
}

/// The schemas of the default registry.
pub fn schema() -> (r: Json)
    ensures
        r@ == JsonView::Array(default_registry().tools.map_values(|t: ToolEntry| t.schema)),
{
    ToolRegistry::default().schema()
}

/// The result of one of several calls that ran side by side.
#[derive(Clone, Debug, PartialEq)]
pub struct ToolExecutionResult {
    pub index: usize,
    pub call_id: String,
    pub output: ToolOutput,
}

#[verifier::ext_equal]
pub struct ExecutionView {
    pub index: usize,
    pub call_id: Seq<char>,
    pub output: OutputView,
}

impl View for ToolExecutionResult {
    type V = ExecutionView;

    open spec fn view(&self) -> ExecutionView {
        ExecutionView { index: self.index, call_id: self.call_id@, output: self.output@ }
    }
}

pub open spec fn executions_view(v: Seq<ToolExecutionResult>) -> Seq<ExecutionView> {
    v.map_values(|r: ToolExecutionResult| r@)
}

/// A result in its place by the number of its call.
pub open spec fn insert_execution(s: Seq<ExecutionView>, x: ExecutionView) -> Seq<ExecutionView>
    decreases s.len(),
{
    if s.len() == 0 {
        seq![x]
    } else if x.index < s[0].index {
        seq![x] + s
    } else {
        seq![s[0]] + insert_execution(s.skip(1), x)
    }
}

pub open spec fn ordered_executions(s: Seq<ExecutionView>) -> Seq<ExecutionView>
    decreases s.len(),
{
    if s.len() == 0 {
        Seq::empty()
    } else {
        insert_execution(ordered_executions(s.drop_last()), s.last())
    }
}

fn add_execution(list: &mut Vec<ToolExecutionResult>, x: ToolExecutionResult)
    ensures
        executions_view(final(list)@) == insert_execution(executions_view(old(list)@), x@),
{
    let ghost all = executions_view(list@);
    let mut i: usize = 0;
    assert(all.skip(0) =~= all);
    assert(all.take(0) + insert_execution(all, x@) =~= insert_execution(all, x@));
    while i < list.len() && list[i].index <= x.index
        invariant
            i <= list@.len(),
            all == executions_view(list@),
            list@ == old(list)@,
            insert_execution(all, x@) == all.take(i as int) + insert_execution(
                all.skip(i as int),
                x@,
            ),
        decreases list@.len() - i,
    {
        let ghost rest = all.skip(i as int);
        proof {
            assert(rest[0] == list@[i as int]@);
            assert(rest.skip(1) =~= all.skip(i + 1));
            assert(all.take(i as int) + (seq![rest[0]] + insert_execution(rest.skip(1), x@))
                =~= all.take(i + 1) + insert_execution(all.skip(i + 1), x@));
        }
        i += 1;
    }
    proof {
        let rest = all.skip(i as int);
        if rest.len() > 0 {
            assert(rest[0] == list@[i as int]@);
        }
        assert(insert_execution(rest, x@) =~= seq![x@] + rest);
        assert(executions_view(list@.insert(i as int, x)) =~= all.take(i as int) + (seq![x@]
            + rest));
    }
    list.insert(i, x);
}

/// The results of calls that ran side by side, in the order of the calls.
pub fn order_results(results: Vec<ToolExecutionResult>) -> (r: Vec<ToolExecutionResult>)
    ensures
        executions_view(r@) == ordered_executions(executions_view(results@)),
{
    let ghost all = executions_view(results@);
    let mut r: Vec<ToolExecutionResult> = Vec::new();
    assert(executions_view(r@) =~= ordered_executions(all.take(0)));
    for i in 0..results.len()
        invariant
            all == executions_view(results@),
            executions_view(r@) == ordered_executions(all.take(i as int)),
    {
        assert(all.take(i + 1).drop_last() =~= all.take(i as int));
        assert(all.take(i + 1).last() == results@[i as int]@);
        let x = ToolExecutionResult {
            index: results[i].index,
            call_id: results[i].call_id.clone(),
            output: results[i].output.copy(),
        };
        add_execution(&mut r, x);
    }
    assert(all.take(results@.len() as int) =~= all);
    r
}

/// The numbers of the calls do not descend.
pub open spec fn in_call_order(s: Seq<ExecutionView>) -> bool {
    forall|i: int, j: int|
        0 <= i < j < s.len() ==> (#[trigger] s[i]).index <= (#[trigger] s[j]).index
}

proof fn lemma_insert_execution(s: Seq<ExecutionView>, x: ExecutionView)
    requires
        in_call_order(s),
    ensures
        in_call_order(insert_execution(s, x)),
        insert_execution(s, x).to_multiset() == s.to_multiset().insert(x),
        forall|i: int|
            0 <= i < insert_execution(s, x).len() ==> (#[trigger] insert_execution(s, x)[i]) == x
                || s.contains(insert_execution(s, x)[i]),
    decreases s.len(),
{
    broadcast use vstd::seq_lib::group_to_multiset_ensures;

    let r = insert_execution(s, x);
    if s.len() == 0 {
        assert(s =~= Seq::empty());
        assert(seq![x] =~= Seq::<ExecutionView>::empty().push(x));
    } else if x.index < s[0].index {
        assert(r =~= s.insert(0, x));
        assert forall|i: int, j: int| 0 <= i < j < r.len() implies (#[trigger] r[i]).index <= (
        #[trigger] r[j]).index by {
            assert(r[j] == s[j - 1]);
            if i > 0 {
                assert(r[i] == s[i - 1]);
            } else if j > 1 {
                assert(s[0].index <= s[j - 1].index);
            }
        }
        assert forall|i: int| 0 <= i < r.len() implies (#[trigger] r[i]) == x || s.contains(
            r[i],
        ) by {
            if i > 0 {
                assert(s[i - 1] == r[i]);
            }
        }
    } else {
        let rest = s.skip(1);
        let w = insert_execution(rest, x);
        assert forall|i: int, j: int| 0 <= i < j < rest.len() implies (#[trigger] rest[i]).index
            <= (#[trigger] rest[j]).index by {
            assert(rest[i] == s[i + 1] && rest[j] == s[j + 1]);
        }
        lemma_insert_execution(rest, x);
        assert(r =~= w.insert(0, s[0]));
        assert(s =~= rest.insert(0, s[0]));
        assert(rest.to_multiset().insert(x).insert(s[0]) =~= rest.to_multiset().insert(
            s[0],
        ).insert(x));
        assert forall|i: int| 0 <= i < w.len() implies s[0].index <= (#[trigger] w[i]).index by {
            if w[i] != x {
                let k = choose|k: int| 0 <= k < rest.len() && rest[k] == w[i];
                assert(s[0].index <= s[k + 1].index);
            }
        }
        assert forall|i: int, j: int| 0 <= i < j < r.len() implies (#[trigger] r[i]).index <= (
        #[trigger] r[j]).index by {
            assert(r[j] == w[j - 1]);
            if i > 0 {
                assert(r[i] == w[i - 1]);
            }
        }
        assert forall|i: int| 0 <= i < r.len() implies (#[trigger] r[i]) == x || s.contains(
            r[i],
        ) by {
            if i > 0 {
                assert(r[i] == w[i - 1]);
                if w[i - 1] != x {
                    let k = choose|k: int| 0 <= k < rest.len() && rest[k] == w[i - 1];
                    assert(s[k + 1] == r[i]);
                }
            } else {
                assert(s[0] == r[0]);
            }
        }
    }
}

/// Whatever the order in which calls end, their results come back in the
/// order of the calls, each once.
pub proof fn law_results_come_in_call_order(s: Seq<ExecutionView>)
    ensures
        in_call_order(ordered_executions(s)),
        ordered_executions(s).to_multiset() == s.to_multiset(),
    decreases s.len(),
{
    broadcast use vstd::seq_lib::group_to_multiset_ensures;

    if s.len() > 0 {
        law_results_come_in_call_order(s.drop_last());
        lemma_insert_execution(ordered_executions(s.drop_last()), s.last());
        assert(s =~= s.drop_last().push(s.last()));
    } else {
        assert(s =~= Seq::empty());
    }
}

} // verus!
