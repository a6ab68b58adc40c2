//! The assistant as its user sees it: the loop, the history, the session and
//! the remote tools, kept together.
use vstd::prelude::*;
use vstd::slice::slice_subrange;
use crate::agent_loop::{loop_ok, permitted, unused_loop, without_tool, AgentLoop, LoopAction, LoopConfig, LoopEvent, LoopView, PhaseView, TurnReport, World};
use crate::context::{compacted, compaction_fault, results_of, ContextError, ContextMemory, ContextView, ToolSelector};
use crate::context_builder::default_policy;
use crate::events::{ToolTrace, TraceView};
use crate::mcp::manager::{failures, status_position, ManagerView, McpManager, McpServerState};
use crate::mcp::names::exposed_name;
use crate::mcp::tool::{AdapterView, McpToolAdapter};
use crate::message::messages_view;
use crate::permission::ToolPermission;
use crate::provider::deepseek::DeepSeekProvider;
use crate::provider::turn::{no_usage, ModelProvider, TokenUsage};
use crate::rag::sources::{refs_of_outputs, refs_view, source_refs_from_outputs, RagSourceRef, SourceRefView};
use crate::rag::tool::{search_schema, SearchDocsTool};
use crate::session::{audit_records, records_view, tool_traces_view, trace_view, turn_records, RestoredSession, SessionPaths, SessionStore, StoreView, TraceRecord, TraceRecordView, TurnBatch};
use crate::text::chars::{copy_texts, lemma_views_push, same, views};
use crate::text::search::join_spec;
use crate::tools::registry::{default_registry, named_otherwise, permissions_view, position, sorted_permissions, with_tool, RegistryView, ToolEntry, ToolRegistry};
use crate::tools::schema::function_spec;
use crate::tools::workspace::{register, with_core_tools};

verus! {

/// What the model is told about its part.
pub fn system_prompt() -> (r: &'static str)
    ensures
        r@ == system_text(),
{
    "你是 Asteria，一个可靠、简洁的中文 AI 助手。核心工具包括 Read、Write、Edit、Glob、Grep、Bash、calculate 和 current_time；读取或修改工作区时应调用对应工具，不要声称完成未实际执行的操作。mcp__* 是配置后才会出现的可选扩展工具。用户提到登录或使用 GitHub 时，若已有 mcp__github__* 工具，直接调用它们（身份来自环境变量 GITHUB_TOKEN，例如先用 get_me 确认账号）；不要索要密码、验证码或浏览器登录，也不要说自己无法访问 GitHub。只有这些工具未注册或调用失败时，才说明需要在 .env 中配置 GITHUB_TOKEN。用户提到 Binance、币安、行情或交易时，若已有 mcp__binance-mcp-server__* 工具，直接调用它们；不要索要 Binance API Key。下单、撤单和子账户内转账会先征求批准；Agent 无法出金。"
}

/// What the model is told about its part.
pub open spec fn system_text() -> Seq<char> {
    "你是 Asteria，一个可靠、简洁的中文 AI 助手。核心工具包括 Read、Write、Edit、Glob、Grep、Bash、calculate 和 current_time；读取或修改工作区时应调用对应工具，不要声称完成未实际执行的操作。mcp__* 是配置后才会出现的可选扩展工具。用户提到登录或使用 GitHub 时，若已有 mcp__github__* 工具，直接调用它们（身份来自环境变量 GITHUB_TOKEN，例如先用 get_me 确认账号）；不要索要密码、验证码或浏览器登录，也不要说自己无法访问 GitHub。只有这些工具未注册或调用失败时，才说明需要在 .env 中配置 GITHUB_TOKEN。用户提到 Binance、币安、行情或交易时，若已有 mcp__binance-mcp-server__* 工具，直接调用它们；不要索要 Binance API Key。下单、撤单和子账户内转账会先征求批准；Agent 无法出金。"@
}

/// What the model is told about the knowledge base.
pub open spec fn rag_hint() -> Seq<char> {
    "本地知识库已启用：查询 docs/rag-docs 中的手册、troubleshooting、章节或 LT 故障时必须调用 search_docs，不要用 Bash/Read 去解压或通读 docx。查看普通工作区源码时使用 Read、Glob 或 Grep。询问知识库第N章/目录/章节内容时，把用户原问题作为 query。以最新 search_docs 结果为准，资料不足时明确说不知道，不要编造。"@
}

/// The permission that a list gives to a tool: that of its first entry.
pub open spec fn permission_in(list: Seq<(Seq<char>, ToolPermission)>, name: Seq<char>) -> Option<
    ToolPermission,
>
    decreases list.len(),
{
    if list.len() == 0 {
        None
    } else {
        match permission_in(list.drop_last(), name) {
            Some(p) => Some(p),
            None => if list.last().0 == name {
                Some(list.last().1)
            } else {
                None
            },
        }
    }
}

fn find_permission(list: &Vec<(String, ToolPermission)>, name: &str) -> (r: Option<ToolPermission>)
    ensures
        r == permission_in(permissions_view(list@), name@),
{
    let ghost all = permissions_view(list@);
    let mut found: Option<ToolPermission> = None;
    assert(all.take(0) =~= Seq::empty());
    for i in 0..list.len()
        invariant
            all == permissions_view(list@),
            found == permission_in(all.take(i as int), name@),
    {
        assert(all.take(i + 1).drop_last() =~= all.take(i as int));
        assert(all.take(i + 1).last() == (list@[i as int].0@, list@[i as int].1));
        if found.is_none() && same(&list[i].0, name) {
            found = Some(list[i].1);
        }
    }
    assert(all.take(list@.len() as int) =~= all);
    found
}

/// The tools after the permissions of a list were given to them. Entries of
/// tools that are not there have no effect.
pub open spec fn with_permissions(tools: Seq<ToolEntry>, list: Seq<(Seq<char>, ToolPermission)>) -> Seq<
    ToolEntry,
>
    decreases list.len(),
{
    if list.len() == 0 {
        tools
    } else {
        permitted(with_permissions(tools, list.drop_last()), list.last().0, list.last().1)
    }
}

/// The name under which a remote tool is registered.
pub open spec fn name_of(t: AdapterView) -> Seq<char> {
    exposed_name(t.server_name, t.remote_name)
}

/// A remote tool as it is registered.
pub open spec fn entry_of(t: AdapterView, permission: ToolPermission) -> ToolEntry {
    ToolEntry {
        name: name_of(t),
        schema: function_spec(
            name_of(t),
            "MCP tool from server `"@ + t.server_name + "`.\n\n"@ + t.description,
            t.input_schema,
        ),
        permission,
    }
}

pub open spec fn adapters_view(v: Seq<McpToolAdapter>) -> Seq<AdapterView> {
    v.map_values(|t: McpToolAdapter| t@)
}

/// Where the permission of a remote tool comes from: the present one, that of
/// the session that was restored, or neither.
pub open spec fn chosen(
    current: Seq<ToolEntry>,
    restored: Seq<(Seq<char>, ToolPermission)>,
    name: Seq<char>,
) -> ToolPermission {
    match position(current, name) {
        Some(i) => current[i].permission,
        None => match permission_in(restored, name) {
            Some(p) => p,
            None => ToolPermission::Ask,
        },
    }
}

/// The tools with remote tools registered, each with the permission chosen for
/// it.
pub open spec fn with_remote(
    tools: Seq<ToolEntry>,
    list: Seq<AdapterView>,
    current: Seq<ToolEntry>,
    restored: Seq<(Seq<char>, ToolPermission)>,
) -> Seq<ToolEntry>
    decreases list.len(),
{
    if list.len() == 0 {
        tools
    } else {
        with_tool(
            with_remote(tools, list.drop_last(), current, restored),
            entry_of(list.last(), chosen(current, restored, name_of(list.last()))),
        )
    }
}

/// The tools without those of some names.
pub open spec fn without_tools(tools: Seq<ToolEntry>, names: Seq<Seq<char>>) -> Seq<ToolEntry>
    decreases names.len(),
{
    if names.len() == 0 {
        tools
    } else {
        without_tool(without_tools(tools, names.drop_last()), names.last())
    }
}

/// Servers that were connected, and the tools that they offer.
pub struct McpLoadResult {
    pub manager: McpManager,
    pub tools: Vec<McpToolAdapter>,
}

impl McpLoadResult {
    pub open spec fn wf(&self) -> bool {
        forall|i: int| 0 <= i < self.tools@.len() ==> (#[trigger] self.tools@[i]).wf()
    }
}

/// Some server failed for another reason than that it asks for signing in.
pub open spec fn blocked(m: ManagerView) -> bool {
    exists|i: int|
        0 <= i < m.statuses.len() && (#[trigger] m.statuses[i]).state == McpServerState::Failed
}

/// What is to be kept of a turn that has ended, and what went wrong with it.
pub struct Settlement {
    /// The records of a turn that was completed.
    pub batch: Option<TurnBatch>,
    /// The records of the tool calls of a turn that was not.
    pub traces: Vec<TraceRecord>,
    pub warnings: Vec<String>,
}

/// The assistant.
pub struct Asteria {
    pub agent_loop: AgentLoop<DeepSeekProvider>,
    pub context: ContextMemory,
    pub session: SessionStore,
    pub restored_permissions: Vec<(String, ToolPermission)>,
    pub mcp_manager: Option<McpManager>,
}

#[verifier::ext_equal]
pub struct AsteriaView {
    pub provider: DeepSeekProvider,
    pub state: LoopView,
    pub memory: ContextView,
    pub session: StoreView,
    pub restored: Seq<(Seq<char>, ToolPermission)>,
    pub manager: Option<ManagerView>,
}

pub open spec fn manager_opt(m: Option<McpManager>) -> Option<ManagerView> {
    match m {
        Some(m) => Some(m@),
        None => None,
    }
}

impl View for Asteria {
    type V = AsteriaView;

    open spec fn view(&self) -> AsteriaView {
        AsteriaView {
            provider: self.agent_loop.held(),
            state: self.agent_loop@,
            memory: self.context@,
            session: self.session@,
            restored: permissions_view(self.restored_permissions@),
            manager: manager_opt(self.mcp_manager),
        }
    }
}

/// The exchanges that are taken out of the history once their turn is over.
pub open spec fn search_tool() -> ToolSelector<'static> {
    ToolSelector::Named("search_docs")
}

pub open spec fn remote_tools() -> ToolSelector<'static> {
    ToolSelector::Prefixed("mcp__")
}

impl AsteriaView {
    /// The messages after the exchanges with a tool were taken out, where that
    /// can be done.
    pub open spec fn cleared(self, sel: ToolSelector) -> AsteriaView {
        let at = self.state.checkpoint as int;
        match compaction_fault(self.memory.messages, at, sel) {
            None => AsteriaView {
                memory: ContextView {
                    messages: compacted(self.memory.messages, at, sel),
                    ..self.memory
                },
                ..self
            },
            Some(_) => self,
        }
    }

    /// The sources that the latest turn quoted.
    pub open spec fn sources(self) -> Seq<SourceRefView> {
        let at = self.state.checkpoint as int;
        match compaction_fault(self.memory.messages, at, search_tool()) {
            None => refs_of_outputs(
                results_of(self.memory.messages.skip(at), search_tool()),
            ),
            Some(_) => Seq::empty(),
        }
    }

    pub open spec fn warning(self, prefix: Seq<char>, sel: ToolSelector) -> Seq<Seq<char>> {
        match compaction_fault(self.memory.messages, self.state.checkpoint as int, sel) {
            None => Seq::empty(),
            Some(fault) => seq![prefix + fault.text()],
        }
    }

    /// The history after a turn was completed: without the exchanges of that
    /// turn with the knowledge base and with remote tools.
    pub open spec fn settled(self) -> AsteriaView {
        self.cleared(search_tool()).cleared(remote_tools())
    }

    /// With other tools, whose permissions the session keeps.
    pub open spec fn with_kept_tools(self, tools: Seq<ToolEntry>) -> AsteriaView {
        AsteriaView {
            state: self.state.with_tools(tools),
            session: StoreView {
                state: self.session.state.with_permissions(sorted_permissions(tools)),
                ..self.session
            },
            ..self
        }
    }

    pub open spec fn tools(self) -> Seq<ToolEntry> {
        self.state.registry.tools
    }

    /// Why new servers cannot take the place of all present ones.
    pub open spec fn reload_fault(loaded: ManagerView) -> Option<Seq<char>> {
        if blocked(loaded) {
            Some(
                "MCP reload 未应用，当前连接保持不变："@ + join_spec(
                    failures(loaded.statuses),
                    "; "@,
                ),
            )
        } else {
            None
        }
    }

    /// All present servers are replaced. A tool that is offered again keeps
    /// its permission.
    pub open spec fn reload(self, loaded: ManagerView, list: Seq<AdapterView>) -> AsteriaView {
        AsteriaView {
            manager: Some(loaded),
            ..self.with_kept_tools(
                with_remote(
                    self.tools().filter(named_otherwise("mcp__"@)),
                    list,
                    self.tools(),
                    self.restored,
                ),
            )
        }
    }

    /// The tools that a server has offered so far.
    pub open spec fn offered(self, server: Seq<char>) -> Seq<Seq<char>> {
        match self.manager {
            Some(m) => match status_position(m.statuses, server) {
                Some(i) => m.statuses[i].tools,
                None => Seq::empty(),
            },
            None => Seq::empty(),
        }
    }

    /// Why a server cannot take the place of the present one of its name.
    pub open spec fn replace_fault(self, server: Seq<char>, loaded: ManagerView) -> Option<
        Seq<char>,
    > {
        if blocked(loaded) {
            Some(
                "MCP Server `"@ + server + "` 连接失败："@ + join_spec(
                    failures(loaded.statuses),
                    "; "@,
                ),
            )
        } else if self.manager is None {
            Some("MCP Manager 尚未初始化"@)
        } else {
            loaded.replacement_fault(server)
        }
    }

    /// One server is replaced. A tool that is offered again keeps its
    /// permission.
    pub open spec fn replace(self, server: Seq<char>, loaded: ManagerView, list: Seq<AdapterView>) -> AsteriaView {
        AsteriaView {
            manager: Some(self.manager->0.replace(server, loaded)),
            ..self.with_kept_tools(
                with_remote(
                    without_tools(self.tools(), self.offered(server)),
                    list,
                    self.tools(),
                    Seq::empty(),
                ),
            )
        }
    }

    /// Why a server cannot be disconnected.
    pub open spec fn disconnect_fault(self, server: Seq<char>) -> Option<Seq<char>> {
        match self.manager {
            None => Some("MCP Manager 尚未初始化"@),
            Some(m) => match status_position(m.statuses, server) {
                None => Some("未知 MCP Server: "@ + server),
                Some(_) => None,
            },
        }
    }

    /// A server is disconnected, and its tools are gone.
    pub open spec fn disconnect(self, server: Seq<char>) -> AsteriaView {
        let m = self.manager->0;
        AsteriaView {
            manager: Some(m.disconnect(status_position(m.statuses, server)->0)),
            ..self.with_kept_tools(without_tools(self.tools(), self.offered(server)))
        }
    }
}

fn put_permissions(agent_loop: &mut AgentLoop<DeepSeekProvider>, list: &Vec<(String, ToolPermission)>)
    ensures
        final(agent_loop).held() == old(agent_loop).held(),
        final(agent_loop)@ == old(agent_loop)@.with_tools(
            with_permissions(old(agent_loop)@.registry.tools, permissions_view(list@)),
        ),
{
    let ghost all = permissions_view(list@);
    let ghost before = agent_loop@;
    assert(all.take(0) =~= Seq::empty());
    assert(before.with_tools(before.registry.tools) =~= before);
    for i in 0..list.len()
        invariant
            agent_loop.held() == old(agent_loop).held(),
            before == old(agent_loop)@,
            all == permissions_view(list@),
            agent_loop@ == before.with_tools(
                with_permissions(before.registry.tools, all.take(i as int)),
            ),
    {
        assert(all.take(i + 1).drop_last() =~= all.take(i as int));
        assert(all.take(i + 1).last() == (list@[i as int].0@, list@[i as int].1));
        let _known = agent_loop.set_tool_permission(&list[i].0, list[i].1);
    }
    assert(all.take(list@.len() as int) =~= all);
}

impl Asteria {
    pub open spec fn inv(&self) -> bool {
        loop_ok(self.agent_loop@)
    }

    /// Continues a session with the built-in tools and those of the workspace.
    /// The exchanges with the knowledge base and with remote tools are taken
    /// out of the history.
    pub fn new(provider: DeepSeekProvider, session: SessionStore, restored: RestoredSession) -> (r:
        Result<Asteria, ContextError>)
        ensures
            ({
                let first = compacted(restored@.context.messages, 0, search_tool());
                match r {
                    Ok(a) => {
                        &&& a.inv()
                        &&& compaction_fault(restored@.context.messages, 0, search_tool()) is None
                        &&& compaction_fault(first, 0, remote_tools()) is None
                        &&& a@.memory == (ContextView {
                            messages: compacted(first, 0, remote_tools()),
                            ..restored@.context
                        })
                        &&& a@.provider == provider
                        &&& a@.state == (LoopView {
                            next_turn_id: restored@.next_turn_id,
                            session_usage: restored@.usage,
                            registry: RegistryView {
                                tools: with_permissions(
                                    with_core_tools(default_registry().tools),
                                    restored@.permissions,
                                ),
                                ..default_registry()
                            },
                            ..unused_loop(8, default_policy())
                        })
                        &&& a@.session == session@
                        &&& a@.restored == restored@.permissions
                        &&& a@.manager is None
                    },
                    Err(e) => match compaction_fault(
                        restored@.context.messages,
                        0,
                        search_tool(),
                    ) {
                        Some(fault) => e@ == fault,
                        None => compaction_fault(first, 0, remote_tools()) == Some(e@),
                    },
                }
            }),
    {
        let mut context = restored.context;
        match context.compact_tool_exchanges_since(0, "search_docs") {
            Ok(_) => {},
            Err(e) => {
                return Err(e);
            },
        }
        match context.compact_tool_exchanges_with_prefix_since(0, "mcp__") {
            Ok(_) => {},
            Err(e) => {
                return Err(e);
            },
        }
        let mut agent_loop = AgentLoop::new(provider, LoopConfig::default());
        let mut registry = ToolRegistry::default();
        register(&mut registry);
        agent_loop.set_registry(registry);
        agent_loop.restore_session_state(restored.next_turn_id, restored.usage);
        put_permissions(&mut agent_loop, &restored.permissions);
        Ok(
            Asteria {
                agent_loop,
                context,
                session,
                restored_permissions: restored.permissions,
                mcp_manager: None,
            },
        )
    }

    /// The name of the model.
    pub fn model(&self) -> (r: &str)
        ensures
            r@ == self@.provider.model_name(),
    {
        self.agent_loop.model()
    }

    /// The tokens that the latest turn has used.
    pub fn last_usage(&self) -> (r: Option<TokenUsage>)
        ensures
            r == match self@.state.report {
                Some(t) => Some(t.usage),
                None => None,
            },
    {
        match self.agent_loop.last_turn() {
            Some(t) => Some(t.usage),
            None => None,
        }
    }

    /// The tokens that all turns have used.
    pub fn session_usage(&self) -> (r: &TokenUsage)
        ensures
            *r == self@.state.session_usage,
    {
        self.agent_loop.session_usage()
    }

    /// Changes the permission of a tool, which the session keeps.
    pub fn set_tool_permission(&mut self, name: &str, permission: ToolPermission) -> (r: Result<
        (),
        String,
    >)
        requires
            old(self).inv(),
        ensures
            final(self).inv(),
            match r {
                Ok(_) => position(old(self)@.tools(), name@) is Some && final(self)@ == (
                AsteriaView {
                    state: old(self)@.state.with_tools(
                        permitted(old(self)@.tools(), name@, permission),
                    ),
                    session: StoreView {
                        state: old(self)@.session.state.with_permission(name@, permission),
                        ..old(self)@.session
                    },
                    ..old(self)@
                }),
                Err(e) => position(old(self)@.tools(), name@) is None && e@ == "未知工具: "@ + name@
                    && final(self)@ == old(self)@,
            },
    {
        match self.agent_loop.set_tool_permission(name, permission) {
            Ok(_) => {
                self.session.append_permission(name, permission);
                Ok(())
            },
            Err(e) => {
                assert(self.agent_loop@ =~= old(self).agent_loop@);
                Err(e)
            },
        }
    }

    /// The permissions of all tools, in the order of the names.
    pub fn tool_permissions(&self) -> (r: Vec<(String, ToolPermission)>)
        ensures
            permissions_view(r@) == sorted_permissions(self@.tools()),
    {
        self.agent_loop.registry().permissions()
    }

    /// Says that there is someone to ask for permission.
    pub fn set_tool_approver(&mut self)
        requires
            old(self).inv(),
        ensures
            final(self).inv(),
            final(self)@ == (AsteriaView {
                state: LoopView {
                    registry: RegistryView { has_approver: true, ..old(self)@.state.registry },
                    ..old(self)@.state
                },
                ..old(self)@
            }),
    {
        self.agent_loop.set_tool_approver()
    }

    /// Offers the search in a knowledge base to the model and tells it so. The
    /// tool is permitted unless the session that was restored says otherwise.
    pub fn enable_search_docs(&mut self, tool: &SearchDocsTool)
        requires
            old(self).inv(),
        ensures
            final(self).inv(),
            final(self)@ == (AsteriaView {
                state: old(self)@.state.with_tools(
                    with_tool(
                        old(self)@.tools(),
                        ToolEntry {
                            name: "search_docs"@,
                            schema: search_schema(),
                            permission: match permission_in(old(self)@.restored, "search_docs"@) {
                                Some(p) => p,
                                None => ToolPermission::Allow,
                            },
                        },
                    ),
                ),
                memory: ContextView {
                    system_prompt: system_text() + "\n"@ + rag_hint(),
                    ..old(self)@.memory
                },
                ..old(self)@
            }),
    {
        let permission = match find_permission(&self.restored_permissions, "search_docs") {
            Some(p) => p,
            None => ToolPermission::Allow,
        };
        self.agent_loop.register_tool_with_permission(tool.name(), tool.schema(), permission);
        let mut prompt = system_prompt().to_owned();
        prompt.append("\n");
        prompt.append("本地知识库已启用：查询 docs/rag-docs 中的手册、troubleshooting、章节或 LT 故障时必须调用 search_docs，不要用 Bash/Read 去解压或通读 docx。查看普通工作区源码时使用 Read、Glob 或 Grep。询问知识库第N章/目录/章节内容时，把用户原问题作为 query。以最新 search_docs 结果为准，资料不足时明确说不知道，不要编造。");
        self.context.set_system_prompt(&prompt);
    }

    fn register_remote(&mut self, list: &Vec<McpToolAdapter>, chosen_ones: &Vec<ToolPermission>, Ghost(
        current,
    ): Ghost<Seq<ToolEntry>>, Ghost(restored): Ghost<Seq<(Seq<char>, ToolPermission)>>)
        requires
            old(self).inv(),
            chosen_ones@.len() == list@.len(),
            forall|i: int| 0 <= i < list@.len() ==> (#[trigger] list@[i]).wf(),
            forall|i: int|
                0 <= i < list@.len() ==> #[trigger] chosen_ones@[i] == chosen(
                    current,
                    restored,
                    name_of(list@[i]@),
                ),
        ensures
            final(self).inv(),
            final(self)@ == (AsteriaView {
                state: old(self)@.state.with_tools(
                    with_remote(old(self)@.tools(), adapters_view(list@), current, restored),
                ),
                ..old(self)@
            }),
    {
        let ghost all = adapters_view(list@);
        let ghost before = self@;
        assert(all.take(0) =~= Seq::empty());
        assert(before.state.with_tools(before.tools()) =~= before.state);
        for i in 0..list.len()
            invariant
                self.inv(),
                before == old(self)@,
                all == adapters_view(list@),
                chosen_ones@.len() == list@.len(),
                forall|i: int| 0 <= i < list@.len() ==> (#[trigger] list@[i]).wf(),
                forall|i: int|
                    0 <= i < list@.len() ==> #[trigger] chosen_ones@[i] == chosen(
                        current,
                        restored,
                        name_of(list@[i]@),
                    ),
                self@ == (AsteriaView {
                    state: before.state.with_tools(
                        with_remote(before.tools(), all.take(i as int), current, restored),
                    ),
                    ..before
                }),
        {
            assert(all.take(i + 1).drop_last() =~= all.take(i as int));
            assert(all.take(i + 1).last() == list@[i as int]@);
            assert(chosen_ones@[i as int] == chosen(current, restored, name_of(list@[i as int]@)));
            self.agent_loop.register_tool_with_permission(
                list[i].name(),
                list[i].schema(),
                chosen_ones[i],
            );
        }
        assert(all.take(list@.len() as int) =~= all);
    }

    fn choose_permissions(&self, list: &Vec<McpToolAdapter>, keep: bool, restore: bool) -> (r: Vec<
        ToolPermission,
    >)
        requires
            forall|i: int| 0 <= i < list@.len() ==> (#[trigger] list@[i]).wf(),
        ensures
            r@.len() == list@.len(),
            forall|i: int|
                0 <= i < list@.len() ==> #[trigger] r@[i] == chosen(
                    if keep {
                        self@.tools()
                    } else {
                        Seq::empty()
                    },
                    if restore {
                        self@.restored
                    } else {
                        Seq::empty()
                    },
                    name_of(list@[i]@),
                ),
    {
        let mut r: Vec<ToolPermission> = Vec::new();
        for i in 0..list.len()
            invariant
                forall|i: int| 0 <= i < list@.len() ==> (#[trigger] list@[i]).wf(),
                r@.len() == i,
                forall|j: int|
                    0 <= j < i ==> #[trigger] r@[j] == chosen(
                        if keep {
                            self@.tools()
                        } else {
                            Seq::empty()
                        },
                        if restore {
                            self@.restored
                        } else {
                            Seq::empty()
                        },
                        name_of(list@[j]@),
                    ),
        {
            let name = list[i].name();
            let mut permission = ToolPermission::Ask;
            if restore {
                if let Some(p) = find_permission(&self.restored_permissions, name) {
                    permission = p;
                }
            }
            if keep {
                if let Some(p) = self.agent_loop.registry().permission(name) {
                    permission = p;
                }
            }
            r.push(permission);
        }
        r
    }

    /// Takes over the servers that were connected at the start. A remote tool
    /// has to ask unless the session that was restored says otherwise.
    pub fn enable_mcp(&mut self, loaded: McpLoadResult)
        requires
            old(self).inv(),
            loaded.wf(),
        ensures
            final(self).inv(),
            final(self)@ == (AsteriaView {
                state: old(self)@.state.with_tools(
                    with_remote(
                        old(self)@.tools(),
                        adapters_view(loaded.tools@),
                        Seq::empty(),
                        old(self)@.restored,
                    ),
                ),
                manager: Some(loaded.manager@),
                ..old(self)@
            }),
    {
        let permissions = self.choose_permissions(&loaded.tools, false, true);
        let ghost restored = self@.restored;
        self.register_remote(&loaded.tools, &permissions, Ghost(Seq::empty()), Ghost(restored));
        self.mcp_manager = Some(loaded.manager);
    }

    fn keep_permissions(&mut self)
        requires
            old(self).inv(),
        ensures
            final(self).inv(),
            final(self)@ == old(self)@.with_kept_tools(old(self)@.tools()),
    {
        let permissions = self.agent_loop.registry().permissions();
        self.session.replace_permissions(&permissions);
        assert(self@.state.with_tools(self@.tools()) =~= self@.state);
    }

    /// Replaces all servers by others that were connected, unless one of those
    /// failed.
    pub fn reload_mcp(&mut self, loaded: McpLoadResult) -> (r: Result<(), String>)
        requires
            old(self).inv(),
            loaded.wf(),
        ensures
            final(self).inv(),
            match r {
                Ok(_) => AsteriaView::reload_fault(loaded.manager@) is None && final(self)@ == old(
                    self)@.reload(loaded.manager@, adapters_view(loaded.tools@)),
                Err(e) => AsteriaView::reload_fault(loaded.manager@) == Some(e@) && final(self)@
                    == old(self)@,
            },
    {
        if loaded.manager.has_blocking_failures() {
            let mut e = "MCP reload 未应用，当前连接保持不变：".to_owned();
            e.append(loaded.manager.failure_summary().as_str());
            return Err(e);
        }
        let ghost current = self@.tools();
        let ghost restored = self@.restored;
        let permissions = self.choose_permissions(&loaded.tools, true, true);
        self.agent_loop.unregister_tools_with_prefix("mcp__");
        self.register_remote(&loaded.tools, &permissions, Ghost(current), Ghost(restored));
        self.keep_permissions();
        self.mcp_manager = Some(loaded.manager);
        assert(self@ =~= old(self)@.reload(loaded.manager@, adapters_view(loaded.tools@)));
        Ok(())
    }

    fn unregister_all(&mut self, names: &Vec<String>)
        requires
            old(self).inv(),
        ensures
            final(self).inv(),
            final(self)@ == (AsteriaView {
                state: old(self)@.state.with_tools(
                    without_tools(old(self)@.tools(), views(names@)),
                ),
                ..old(self)@
            }),
    {
        let ghost all = views(names@);
        let ghost before = self@;
        assert(all.take(0) =~= Seq::empty());
        assert(before.state.with_tools(before.tools()) =~= before.state);
        for i in 0..names.len()
            invariant
                self.inv(),
                before == old(self)@,
                all == views(names@),
                self@ == (AsteriaView {
                    state: before.state.with_tools(
                        without_tools(before.tools(), all.take(i as int)),
                    ),
                    ..before
                }),
        {
            assert(all.take(i + 1).drop_last() =~= all.take(i as int));
            assert(all.take(i + 1).last() == names@[i as int]@);
            self.agent_loop.unregister_tool(&names[i]);
        }
        assert(all.take(names@.len() as int) =~= all);
    }

    /// Puts a server that was connected in the place of the present one of its
    /// name, unless it failed.
    pub fn connect_mcp_server(&mut self, server_name: &str, loaded: McpLoadResult) -> (r: Result<
        (),
        String,
    >)
        requires
            old(self).inv(),
            loaded.wf(),
        ensures
            final(self).inv(),
            match r {
                Ok(_) => old(self)@.replace_fault(server_name@, loaded.manager@) is None && final(
                    self)@ == old(self)@.replace(
                    server_name@,
                    loaded.manager@,
                    adapters_view(loaded.tools@),
                ),
                Err(e) => old(self)@.replace_fault(server_name@, loaded.manager@) == Some(e@)
                    && final(self)@ == old(self)@,
            },
    {
        if loaded.manager.has_blocking_failures() {
            let mut e = "MCP Server `".to_owned();
            e.append(server_name);
            e.append("` 连接失败：");
            e.append(loaded.manager.failure_summary().as_str());
            return Err(e);
        }
        let ghost current = self@.tools();
        let permissions = self.choose_permissions(&loaded.tools, true, false);
        let ghost offered = self@.offered(server_name@);
        let mut old_tools: Vec<String> = Vec::new();
        assert(views(old_tools@) =~= Seq::empty());
        if let Some(manager) = &self.mcp_manager {
            if let Some(names) = manager.server_tools(server_name) {
                old_tools = copy_texts(names);
            }
        }
        assert(views(old_tools@) == offered);
        match &mut self.mcp_manager {
            None => {
                return Err("MCP Manager 尚未初始化".to_owned());
            },
            Some(manager) => match manager.replace_server(server_name, loaded.manager) {
                Ok(_) => {},
                Err(e) => {
                    return Err(e);
                },
            },
        }
        self.unregister_all(&old_tools);
        self.register_remote(&loaded.tools, &permissions, Ghost(current), Ghost(Seq::empty()));
        self.keep_permissions();
        assert(self@ =~= old(self)@.replace(
            server_name@,
            loaded.manager@,
            adapters_view(loaded.tools@),
        ));
        Ok(())
    }

    /// Disconnects a server, whose tools are gone at once.
    pub fn disconnect_mcp_server(&mut self, server_name: &str) -> (r: Result<(), String>)
        requires
            old(self).inv(),
        ensures
            final(self).inv(),
            match r {
                Ok(_) => old(self)@.disconnect_fault(server_name@) is None && final(self)@ == old(
                    self)@.disconnect(server_name@),
                Err(e) => old(self)@.disconnect_fault(server_name@) == Some(e@) && final(self)@
                    == old(self)@,
            },
    {
        let tools = match &mut self.mcp_manager {
            None => {
                return Err("MCP Manager 尚未初始化".to_owned());
            },
            Some(manager) => match manager.disconnect(server_name) {
                Ok(tools) => tools,
                Err(e) => {
                    return Err(e);
                },
            },
        };
        self.unregister_all(&tools);
        self.keep_permissions();
        assert(self@ =~= old(self)@.disconnect(server_name@));
        Ok(())
    }

    /// Disconnects a server whose credentials are gone; one that is not known
    /// is passed over.
    pub fn logout_mcp_server(&mut self, server_name: &str) -> (r: Result<(), String>)
        requires
            old(self).inv(),
        ensures
            final(self).inv(),
            match r {
                Ok(_) => old(self)@.manager is Some && final(self)@ == if old(
                    self)@.disconnect_fault(server_name@) is None {
                    old(self)@.disconnect(server_name@)
                } else {
                    old(self)@
                },
                Err(e) => old(self)@.manager is None && e@ == "MCP Manager 尚未初始化"@ && final(
                    self)@ == old(self)@,
            },
    {
        let missing = self.mcp_manager.is_none();
        match self.disconnect_mcp_server(server_name) {
            Ok(_) => Ok(()),
            Err(e) => if missing {
                Err(e)
            } else {
                Ok(())
            },
        }
    }

    /// The servers, once they were taken over.
    pub fn mcp_manager(&self) -> (r: Option<&McpManager>)
        ensures
            match r {
                Some(m) => self@.manager == Some(m@),
                None => self@.manager is None,
            },
    {
        match &self.mcp_manager {
            Some(m) => Some(m),
            None => None,
        }
    }

    /// The report of the latest turn.
    pub fn last_turn(&self) -> (r: Option<&TurnReport>)
        ensures
            match r {
                Some(t) => self@.state.report == Some(t@),
                None => self@.state.report is None,
            },
    {
        self.agent_loop.last_turn()
    }

    /// The history.
    pub fn context(&self) -> (r: &ContextMemory)
        ensures
            r@ == self@.memory,
    {
        &self.context
    }

    /// The directory of the session.
    pub fn session_path(&self) -> (r: &str)
        ensures
            r@ == self@.session.paths.directory,
    {
        self.session.path()
    }

    /// The files of the session.
    pub fn session_paths(&self) -> (r: &SessionPaths)
        ensures
            r@ == self@.session.paths,
    {
        self.session.paths()
    }

    /// Begins a new session: the history, the state and the usage are gone.
    pub fn new_session(&mut self)
        requires
            old(self).inv(),
        ensures
            final(self).inv(),
            final(self)@ == (AsteriaView {
                state: LoopView {
                    next_turn_id: 1,
                    session_usage: no_usage(),
                    report: None,
                    phase: PhaseView::Idle,
                    prepared: None,
                    ..old(self)@.state
                },
                memory: ContextView { messages: Seq::empty(), ..old(self)@.memory },
                session: StoreView {
                    state: old(self)@.session.state.cleared(),
                    ..old(self)@.session
                },
                ..old(self)@
            }),
    {
        self.context.reset();
        self.session.clear();
        self.agent_loop.reset_session_state();
    }

    /// Forgets the history and the state of the session.
    pub fn reset(&mut self)
        requires
            old(self).inv(),
        ensures
            final(self).inv(),
            final(self)@ == (AsteriaView {
                memory: ContextView { messages: Seq::empty(), ..old(self)@.memory },
                session: StoreView {
                    state: old(self)@.session.state.cleared(),
                    ..old(self)@.session
                },
                ..old(self)@
            }),
    {
        self.context.reset();
        self.session.clear();
    }

    /// Begins a turn with a question, and says what to do next.
    pub fn ask(&mut self, input: &str, cancelled: bool) -> (r: LoopAction)
        requires
            old(self).inv(),
            old(self)@.state.next_turn_id < u64::MAX,
        ensures
            final(self).inv(),
            ({
                let (w, action) = (World {
                    state: old(self)@.state,
                    memory: old(self)@.memory,
                }).start(input@, cancelled);
                r@ == action && final(self)@ == (AsteriaView {
                    state: w.state,
                    memory: w.memory,
                    ..old(self)@
                })
            }),
    {
        self.agent_loop.start_turn(&mut self.context, input, cancelled)
    }

    /// Takes the outcome of what was to be done, and says what to do next.
    pub fn advance(&mut self, event: LoopEvent, cancelled: bool) -> (r: LoopAction)
        requires
            old(self).inv(),
        ensures
            final(self).inv(),
            ({
                let (w, action) = (World {
                    state: old(self)@.state,
                    memory: old(self)@.memory,
                }).advance(event@, cancelled);
                r@ == action && final(self)@ == (AsteriaView {
                    state: w.state,
                    memory: w.memory,
                    ..old(self)@
                })
            }),
    {
        self.agent_loop.advance(&mut self.context, event, cancelled)
    }

    /// Settles a turn that has ended. After one that was completed the
    /// exchanges with the knowledge base and with remote tools leave the
    /// history, and the rest is kept with the quoted sources; of any other only
    /// its tool calls are kept.
    pub fn settle_turn(&mut self, completed: bool, traces: &Vec<ToolTrace>) -> (r: Settlement)
        requires
            old(self).inv(),
            completed ==> old(self)@.state.checkpoint <= old(self)@.memory.messages.len(),
        ensures
            final(self).inv(),
            if completed {
                &&& final(self)@.memory == old(self)@.settled().memory
                &&& views(r.warnings@) == old(self)@.warning(
                    "RAG 上下文压缩失败（本轮仍已完成）: "@,
                    search_tool(),
                ) + old(self)@.cleared(search_tool()).warning(
                    "MCP 上下文压缩失败（本轮仍已完成）: "@,
                    remote_tools(),
                )
                &&& r.traces@.len() == 0
            } else {
                &&& final(self)@ == old(self)@
                &&& r.warnings@.len() == 0
                &&& r.batch is None
                &&& trace_view(r.traces@) == if old(self)@.state.report is Some {
                    tool_traces_view(traces@).map_values(|t: TraceView| TraceRecordView::Tool(t))
                } else {
                    Seq::empty()
                }
            },
            final(self)@.state == old(self)@.state,
            final(self)@.restored == old(self)@.restored,
            final(self)@.manager == old(self)@.manager,
            final(self)@.provider == old(self)@.provider,
            completed ==> match (old(self)@.state.report, r.batch) {
                (Some(turn), Some(batch)) => {
                    &&& records_view(batch.context@) == turn_records(
                        final(self)@.memory.messages.skip(old(self)@.state.checkpoint as int),
                        turn.id,
                        turn.usage,
                    )
                    &&& trace_view(batch.trace@) == audit_records(
                        turn.id,
                        old(self)@.sources(),
                        tool_traces_view(traces@),
                    )
                    &&& final(self)@.session == (StoreView {
                        state: old(self)@.session.state.after_turn(turn.id, turn.usage),
                        ..old(self)@.session
                    })
                },
                (None, None) => final(self)@.session == old(self)@.session,
                _ => false,
            },
    {
        let mut warnings: Vec<String> = Vec::new();
        assert(views(warnings@) =~= Seq::empty());
        if !completed {
            let mut records: Vec<TraceRecord> = Vec::new();
            assert(trace_view(records@) =~= Seq::empty());
            if let Some(_turn) = self.agent_loop.last_turn() {
                records = self.session.append_tool_traces(traces);
            }
            return Settlement { batch: None, traces: records, warnings };
        }
        let at: usize = self.agent_loop.checkpoint();
        let mut sources: Vec<RagSourceRef> = Vec::new();
        assert(refs_view(sources@) =~= Seq::empty());
        match self.context.compact_tool_exchanges_since(at, "search_docs") {
            Ok(outputs) => {
                sources = source_refs_from_outputs(outputs.as_slice());
            },
            Err(e) => {
                let mut t = "RAG 上下文压缩失败（本轮仍已完成）: ".to_owned();
                t.append(e.message().as_str());
                proof {
                    lemma_views_push(warnings@, t);
                }
                warnings.push(t);
            },
        }
        let ghost first = old(self)@.warning(
            "RAG 上下文压缩失败（本轮仍已完成）: "@,
            search_tool(),
        );
        assert(views(warnings@) =~= first);
        assert(self@ == old(self)@.cleared(search_tool()));
        assert(at <= self@.memory.messages.len());
        match self.context.compact_tool_exchanges_with_prefix_since(at, "mcp__") {
            Ok(_) => {},
            Err(e) => {
                let mut t = "MCP 上下文压缩失败（本轮仍已完成）: ".to_owned();
                t.append(e.message().as_str());
                proof {
                    lemma_views_push(warnings@, t);
                }
                warnings.push(t);
            },
        }
        assert(views(warnings@) =~= first + old(self)@.cleared(search_tool()).warning(
            "MCP 上下文压缩失败（本轮仍已完成）: "@,
            remote_tools(),
        ));
        assert(at <= self@.memory.messages.len());
        let mut batch: Option<TurnBatch> = None;
        if let Some(turn) = self.agent_loop.last_turn() {
            let messages = self.context.messages();
            let n: usize = messages.len();
            assert(messages_view(messages@).len() == n);
            let latest = slice_subrange(messages, at, n);
            assert(messages_view(latest@) =~= self@.memory.messages.skip(at as int));
            batch = Some(
                self.session.append_turn_with_audit(latest, turn.id, &turn.usage, &sources, traces),
            );
        }
        Settlement { batch, traces: Vec::new(), warnings }
    }
}

} // verus!
