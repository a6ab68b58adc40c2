//! A remote tool: how it is offered, called and answered.
use vstd::prelude::*;
use crate::json::{compact, json_parse, json_text, parse, Json, JsonView};
use crate::mcp::names::{exposed_name, namespaced_tool_name};
use crate::retry::Duration;
use crate::text::chars::{lemma_views_push, views};
use crate::text::pieces::{keep_nonempty, nonempty};
use crate::text::search::{join, join_spec};
use crate::tools::output::{OutputView, ToolOutput};
use crate::tools::schema::{function_schema, function_spec};

verus! {

/// A part of what a remote tool hands back. Binary parts carry their type
/// only.
#[derive(Clone, Debug, PartialEq)]
pub enum ContentBlock {
    Text(String),
    /// The text of an embedded resource, empty where it is binary.
    Resource(String),
    /// The name and the address of a resource.
    ResourceLink(String, String),
    /// The type of an image.
    Image(String),
    /// The type of a sound.
    Audio(String),
    Other,
}

/// The text of a part.
pub open spec fn block_text(b: ContentBlock) -> Seq<char> {
    match b {
        ContentBlock::Text(t) => t@,
        ContentBlock::Resource(t) => if t@.len() == 0 {
            "[MCP binary resource omitted]"@
        } else {
            t@
        },
        ContentBlock::ResourceLink(name, uri) => "[MCP resource: "@ + name@ + " ("@ + uri@ + ")]"@,
        ContentBlock::Image(kind) => "[MCP image omitted: "@ + kind@ + "]"@,
        ContentBlock::Audio(kind) => "[MCP audio omitted: "@ + kind@ + "]"@,
        ContentBlock::Other => "[Unsupported MCP content omitted]"@,
    }
}

/// The text of a part.
pub fn content_to_text(block: &ContentBlock) -> (r: String)
    ensures
        r@ == block_text(*block),
{
    match block {
        ContentBlock::Text(t) => t.clone(),
        ContentBlock::Resource(t) => if t.as_str().unicode_len() == 0 {
            "[MCP binary resource omitted]".to_owned()
        } else {
            t.clone()
        },
        ContentBlock::ResourceLink(name, uri) => {
            let mut r = "[MCP resource: ".to_owned();
            r.append(name.as_str());
            r.append(" (");
            r.append(uri.as_str());
            r.append(")]");
            r
        },
        ContentBlock::Image(kind) => {
            let mut r = "[MCP image omitted: ".to_owned();
            r.append(kind.as_str());
            r.append("]");
            r
        },
        ContentBlock::Audio(kind) => {
            let mut r = "[MCP audio omitted: ".to_owned();
            r.append(kind.as_str());
            r.append("]");
            r
        },
        ContentBlock::Other => "[Unsupported MCP content omitted]".to_owned(),
    }
}

/// The texts of an answer: those of its parts that have one, else its
/// structured content, else a note.
pub open spec fn answer_texts(blocks: Seq<ContentBlock>, structured: Option<JsonView>) -> Seq<
    Seq<char>,
> {
    let texts = nonempty(blocks.map_values(|b: ContentBlock| block_text(b)));
    if texts.len() > 0 {
        texts
    } else {
        match structured {
            Some(v) => seq![json_text(v)],
            None => seq!["(MCP tool returned no textual content)"@],
        }
    }
}

/// The output of a remote tool that has answered.
pub fn normalize_result(
    content: &Vec<ContentBlock>,
    structured: Option<&Json>,
    is_error: Option<bool>,
) -> (r: ToolOutput)
    ensures
        r@ == (OutputView {
            content: join_spec(
                answer_texts(
                    content@,
                    match structured {
                        Some(v) => Some(v@),
                        None => None,
                    },
                ),
                "\n\n"@,
            ),
            is_error: is_error == Some(true),
        }),
{
    let ghost f = |b: ContentBlock| block_text(b);
    let mut texts: Vec<String> = Vec::new();
    for i in 0..content.len()
        invariant
            f == (|b: ContentBlock| block_text(b)),
            views(texts@) =~= content@.take(i as int).map_values(f),
    {
        let text = content_to_text(&content[i]);
        proof {
            lemma_views_push(texts@, text);
            assert(content@.take(i + 1).map_values(f) =~= content@.take(i as int).map_values(
                f,
            ).push(text@));
        }
        texts.push(text);
    }
    assert(content@.take(content@.len() as int) =~= content@);
    let mut sections = keep_nonempty(texts);
    assert(views(sections@).len() == sections@.len());
    if sections.len() == 0 {
        let text = match structured {
            Some(v) => compact(v),
            None => "(MCP tool returned no textual content)".to_owned(),
        };
        let ghost only = text@;
        sections.push(text);
        assert(views(sections@) =~= seq![only]);
    }
    ToolOutput {
        content: join(&sections, "\n\n"),
        is_error: match is_error {
            Some(b) => b,
            None => false,
        },
    }
}

/// A remote tool.
pub struct McpToolAdapter {
    exposed_name: String,
    server_name: String,
    remote_name: String,
    description: String,
    input_schema: Json,
    timeout: Duration,
}

#[verifier::ext_equal]
pub struct AdapterView {
    pub server_name: Seq<char>,
    pub remote_name: Seq<char>,
    pub description: Seq<char>,
    pub input_schema: JsonView,
    pub timeout: Duration,
}

impl View for McpToolAdapter {
    type V = AdapterView;

    closed spec fn view(&self) -> AdapterView {
        AdapterView {
            server_name: self.server_name@,
            remote_name: self.remote_name@,
            description: self.description@,
            input_schema: self.input_schema@,
            timeout: self.timeout,
        }
    }
}

/// An output that reports the failure of a remote tool.
pub open spec fn remote_failure(text: Seq<char>) -> OutputView {
    OutputView { content: text, is_error: true }
}

/// The arguments of a call, or the output that rejects them.
pub open spec fn call_arguments(raw: Seq<char>) -> Result<JsonView, OutputView> {
    match json_parse(raw) {
        Ok(v) => value_arguments(v),
        Err(e) => Err(remote_failure("MCP 工具执行失败: 无法解析参数: "@ + e)),
    }
}

/// A value as the arguments of a call, or the output that rejects it.
pub open spec fn value_arguments(v: JsonView) -> Result<JsonView, OutputView> {
    if v is Object {
        Ok(v)
    } else {
        Err(remote_failure("MCP 工具执行失败: 参数必须是 JSON Object"@))
    }
}

impl McpToolAdapter {
    pub closed spec fn wf(&self) -> bool {
        self.exposed_name@ == exposed_name(self.server_name@, self.remote_name@)
    }

    /// A tool that a server offers.
    pub fn new(
        server_name: &str,
        remote_name: String,
        description: Option<String>,
        input_schema: Json,
        timeout: Duration,
    ) -> (r: McpToolAdapter)
        ensures
            r.wf(),
            r@ == (AdapterView {
                server_name: server_name@,
                remote_name: remote_name@,
                description: match description {
                    Some(d) => d@,
                    None => "No description provided."@,
                },
                input_schema: input_schema@,
                timeout,
            }),
    {
        McpToolAdapter {
            exposed_name: namespaced_tool_name(server_name, &remote_name),
            server_name: server_name.to_owned(),
            remote_name,
            description: match description {
                Some(d) => d,
                None => "No description provided.".to_owned(),
            },
            input_schema,
            timeout,
        }
    }

    /// The name under which the tool is offered.
    pub fn name(&self) -> (r: &str)
        requires
            self.wf(),
        ensures
            r@ == exposed_name(self@.server_name, self@.remote_name),
    {
        self.exposed_name.as_str()
    }

    /// The name of the tool at its server.
    pub fn remote_name(&self) -> (r: &str)
        ensures
            r@ == self@.remote_name,
    {
        self.remote_name.as_str()
    }

    /// How long a call may take.
    pub fn execution_timeout(&self) -> (r: Duration)
        ensures
            r == self@.timeout,
    {
        self.timeout
    }

    /// The schema of the tool.
    pub fn schema(&self) -> (r: Json)
        requires
            self.wf(),
        ensures
            r@ == function_spec(
                exposed_name(self@.server_name, self@.remote_name),
                "MCP tool from server `"@ + self@.server_name + "`.\n\n"@ + self@.description,
                self@.input_schema,
            ),
    {
        let mut text = "MCP tool from server `".to_owned();
        text.append(self.server_name.as_str());
        text.append("`.\n\n");
        text.append(self.description.as_str());
        function_schema(&self.exposed_name, &text, self.input_schema.copy())
    }

    /// A value as the arguments of a call, or the output that rejects it.
    pub fn check_arguments(&self, value: Json) -> (r: Result<Json, ToolOutput>)
        ensures
            match r {
                Ok(v) => value_arguments(value@) == Ok::<JsonView, OutputView>(v@),
                Err(o) => value_arguments(value@) == Err::<JsonView, OutputView>(o@),
            },
    {
        let is_object = match &value {
            Json::Object(_) => true,
            _ => false,
        };
        if is_object {
            Ok(value)
        } else {
            Err(
                ToolOutput {
                    content: "MCP 工具执行失败: 参数必须是 JSON Object".to_owned(),
                    is_error: true,
                },
            )
        }
    }

    /// The arguments of a call, or the output that rejects them.
    pub fn arguments(&self, raw_args: &str) -> (r: Result<Json, ToolOutput>)
        ensures
            match r {
                Ok(v) => call_arguments(raw_args@) == Ok::<JsonView, OutputView>(v@),
                Err(o) => call_arguments(raw_args@) == Err::<JsonView, OutputView>(o@),
            },
    {
        match parse(raw_args) {
            Ok(v) => self.check_arguments(v),
            Err(e) => {
                let mut content = "MCP 工具执行失败: 无法解析参数: ".to_owned();
                content.append(e.as_str());
                Err(ToolOutput { content, is_error: true })
            },
        }
    }

    /// The output of a call that was cancelled.
    pub fn cancelled(&self) -> (r: ToolOutput)
        requires
            self.wf(),
        ensures
            r@ == remote_failure(
                "MCP 工具调用已取消: "@ + exposed_name(self@.server_name, self@.remote_name),
            ),
    {
        let mut content = "MCP 工具调用已取消: ".to_owned();
        content.append(self.exposed_name.as_str());
        ToolOutput { content, is_error: true }
    }

    /// The output of a call that failed.
    pub fn failed(&self, error: &str) -> (r: ToolOutput)
        ensures
            r@ == remote_failure(
                "MCP 工具调用失败（Server="@ + self@.server_name + "，Tool="@ + self@.remote_name
                    + "）: "@ + error@,
            ),
    {
        let mut content = "MCP 工具调用失败（Server=".to_owned();
        content.append(self.server_name.as_str());
        content.append("，Tool=");
        content.append(self.remote_name.as_str());
        content.append("）: ");
        content.append(error);
        ToolOutput { content, is_error: true }
    }
}

} // verus!
