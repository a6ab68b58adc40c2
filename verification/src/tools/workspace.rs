//! The tools that work in the user's workspace, and running commands.
use vstd::prelude::*;
use crate::json::{obj, txt, Json, JsonView};
use crate::permission::ToolPermission;
use crate::text::chars::{decode_lossy, lossy_text};
use crate::text::pieces::{is_blank, trim_spec};
use crate::text::search::{ends_with, has_suffix};
use crate::tools::files::{filled_argument, optional_string, required_string, text_or};
use crate::tools::output::{OutputView, ToolOutput};
use crate::tools::registry::{with_tool, RegistryView, ToolEntry, ToolRegistry};
use crate::tools::schema::{described, described_spec, function_schema, function_spec, parameters_with, property, property_spec, required_spec};

verus! {

/// A command to run.
#[derive(Clone, Debug, PartialEq)]
pub struct BashRequest {
    pub command: String,
    pub cwd: String,
}

/// The command that the arguments of a call ask for, and where to run it.
pub open spec fn bash_spec(args: JsonView) -> Result<(Seq<char>, Seq<char>), Seq<char>> {
    match filled_argument(args, "command"@) {
        Ok(command) => Ok((command, text_or(args, "cwd"@, "."@))),
        Err(e) => Err(e),
    }
}

impl BashRequest {
    /// The command that the arguments of a call ask for.
    pub fn from_args(args: &Json) -> (r: Result<BashRequest, String>)
        ensures
            match r {
                Ok(b) => bash_spec(args@) == Ok::<(Seq<char>, Seq<char>), Seq<char>>(
                    (b.command@, b.cwd@),
                ),
                Err(e) => bash_spec(args@) == Err::<(Seq<char>, Seq<char>), Seq<char>>(e@),
            },
    {
        match required_string(args, "command") {
            Ok(command) => Ok(BashRequest { command, cwd: optional_string(args, "cwd", ".") }),
            Err(e) => Err(e),
        }
    }
}

/// What a command wrote, with its errors behind a heading.
pub open spec fn command_text(stdout: Seq<char>, stderr: Seq<char>) -> Seq<char> {
    if stderr.len() == 0 {
        stdout
    } else if stdout.len() > 0 && !has_suffix(stdout, "\n"@) {
        stdout.push('\n') + "[stderr]\n"@ + stderr
    } else {
        stdout + "[stderr]\n"@ + stderr
    }
}

/// The output of a command that has ended.
pub open spec fn command_output(
    stdout: Seq<char>,
    stderr: Seq<char>,
    status: Seq<char>,
    succeeded: bool,
) -> OutputView {
    let text = command_text(stdout, stderr);
    OutputView {
        content: if trim_spec(text).len() == 0 {
            "命令完成，退出码："@ + status
        } else {
            text
        },
        is_error: !succeeded,
    }
}

/// The output of a command that wrote these texts.
pub fn bash_text_output(stdout: String, stderr: &str, status: &str, succeeded: bool) -> (r:
    ToolOutput)
    ensures
        r@ == command_output(stdout@, stderr@, status@, succeeded),
{
    let mut content = stdout;
    if stderr.unicode_len() > 0 {
        if content.as_str().unicode_len() > 0 && !ends_with(&content, "\n") {
            content.push('\n');
        }
        content.append("[stderr]\n");
        content.append(stderr);
    }
    if is_blank(&content) {
        content = "命令完成，退出码：".to_owned();
        content.append(status);
    }
    ToolOutput { content, is_error: !succeeded }
}

/// The output of a command that wrote these bytes.
pub fn bash_output(stdout: &[u8], stderr: &[u8], status: &str, succeeded: bool) -> (r: ToolOutput)
    ensures
        r@ == command_output(
            lossy_text(stdout@),
            lossy_text(stderr@),
            status@,
            succeeded,
        ),
{
    bash_text_output(decode_lossy(stdout), &decode_lossy(stderr), status, succeeded)
}

/// The output of a command that was cancelled.
pub fn bash_cancelled() -> (r: ToolOutput)
    ensures
        r@ == (OutputView { content: "Bash 已取消"@, is_error: true }),
{
    ToolOutput { content: "Bash 已取消".to_owned(), is_error: true }
}

pub open spec fn bounded_spec(minimum: u64, maximum: Option<u64>, description: Seq<char>) -> JsonView {
    let low = property_spec("integer"@).with("minimum"@, JsonView::Unsigned(minimum));
    (match maximum {
        Some(n) => low.with("maximum"@, JsonView::Unsigned(n)),
        None => low,
    }).with("description"@, txt(description))
}

fn bounded(minimum: u64, maximum: Option<u64>, description: &str) -> (r: Json)
    ensures
        r@ == bounded_spec(minimum, maximum, description@),
{
    let low = property("integer").put("minimum", Json::Unsigned(minimum));
    let range = match maximum {
        Some(n) => low.put("maximum", Json::Unsigned(n)),
        None => low,
    };
    range.put("description", Json::text(description))
}

pub open spec fn read_schema() -> JsonView {
    function_spec(
        "Read"@,
        "Read a UTF-8 text file inside the workspace with stable line numbers."@,
        required_spec(
            obj().with(
                "path"@,
                described_spec(
                    "string"@,
                    "Workspace-relative or absolute path inside the workspace"@,
                ),
            ).with("offset"@, bounded_spec(1, None, "First 1-based line, default 1"@)).with(
                "limit"@,
                bounded_spec(1, Some(5000), "Maximum lines, default 2000"@),
            ),
            seq!["path"],
        ),
    )
}

pub open spec fn write_schema() -> JsonView {
    function_spec(
        "Write"@,
        "Create or completely overwrite a UTF-8 file inside the workspace."@,
        required_spec(
            obj().with("path"@, property_spec("string"@)).with(
                "content"@,
                property_spec("string"@),
            ),
            seq!["path", "content"],
        ),
    )
}

pub open spec fn edit_schema() -> JsonView {
    function_spec(
        "Edit"@,
        "Replace an exact string in one UTF-8 workspace file. Fails on ambiguous matches unless replace_all is true."@,
        required_spec(
            obj().with("path"@, property_spec("string"@)).with(
                "old_string"@,
                property_spec("string"@),
            ).with("new_string"@, property_spec("string"@)).with(
                "replace_all"@,
                property_spec("boolean"@).with("default"@, JsonView::Bool(false)),
            ),
            seq!["path", "old_string", "new_string"],
        ),
    )
}

pub open spec fn glob_schema() -> JsonView {
    function_spec(
        "Glob"@,
        "Find workspace files by glob pattern such as **/*.rs."@,
        required_spec(
            obj().with("pattern"@, property_spec("string"@)).with(
                "path"@,
                described_spec("string"@, "Directory to search, default workspace root"@),
            ),
            seq!["pattern"],
        ),
    )
}

pub open spec fn grep_schema() -> JsonView {
    function_spec(
        "Grep"@,
        "Search UTF-8 workspace file contents with a regular expression."@,
        required_spec(
            obj().with("pattern"@, described_spec("string"@, "Rust regular expression"@)).with(
                "path"@,
                described_spec("string"@, "File or directory, default workspace root"@),
            ).with(
                "glob"@,
                described_spec("string"@, "Optional file glob filter such as **/*.rs"@),
            ).with(
                "case_insensitive"@,
                property_spec("boolean"@).with("default"@, JsonView::Bool(false)),
            ).with(
                "max_results"@,
                property_spec("integer"@).with("minimum"@, JsonView::Unsigned(1)).with(
                    "maximum"@,
                    JsonView::Unsigned(2000),
                ).with("default"@, JsonView::Unsigned(200)),
            ),
            seq!["pattern"],
        ),
    )
}

pub open spec fn bash_schema() -> JsonView {
    function_spec(
        "Bash"@,
        "Run a shell command. High risk: can modify the system; always requires approval by default."@,
        required_spec(
            obj().with("command"@, property_spec("string"@)).with(
                "cwd"@,
                described_spec("string"@, "Workspace directory, default root"@),
            ),
            seq!["command"],
        ),
    )
}

fn make_read_schema() -> (r: Json)
    ensures
        r@ == read_schema(),
{
    let properties = Json::empty().put(
        "path",
        described("string", "Workspace-relative or absolute path inside the workspace"),
    ).put("offset", bounded(1, None, "First 1-based line, default 1")).put(
        "limit",
        bounded(1, Some(5000), "Maximum lines, default 2000"),
    );
    let required: [&str; 1] = ["path"];
    assert(required@ =~= seq!["path"]);
    function_schema(
        "Read",
        "Read a UTF-8 text file inside the workspace with stable line numbers.",
        parameters_with(properties, &required),
    )
}

fn make_write_schema() -> (r: Json)
    ensures
        r@ == write_schema(),
{
    let properties = Json::empty().put("path", property("string")).put(
        "content",
        property("string"),
    );
    let required: [&str; 2] = ["path", "content"];
    assert(required@ =~= seq!["path", "content"]);
    function_schema(
        "Write",
        "Create or completely overwrite a UTF-8 file inside the workspace.",
        parameters_with(properties, &required),
    )
}

fn make_edit_schema() -> (r: Json)
    ensures
        r@ == edit_schema(),
{
    let properties = Json::empty().put("path", property("string")).put(
        "old_string",
        property("string"),
    ).put("new_string", property("string")).put(
        "replace_all",
        property("boolean").put("default", Json::Bool(false)),
    );
    let required: [&str; 3] = ["path", "old_string", "new_string"];
    assert(required@ =~= seq!["path", "old_string", "new_string"]);
    function_schema(
        "Edit",
        "Replace an exact string in one UTF-8 workspace file. Fails on ambiguous matches unless replace_all is true.",
        parameters_with(properties, &required),
    )
}

fn make_glob_schema() -> (r: Json)
    ensures
        r@ == glob_schema(),
{
    let properties = Json::empty().put("pattern", property("string")).put(
        "path",
        described("string", "Directory to search, default workspace root"),
    );
    let required: [&str; 1] = ["pattern"];
    assert(required@ =~= seq!["pattern"]);
    function_schema(
        "Glob",
        "Find workspace files by glob pattern such as **/*.rs.",
        parameters_with(properties, &required),
    )
}

fn make_grep_schema() -> (r: Json)
    ensures
        r@ == grep_schema(),
{
    let results = property("integer").put("minimum", Json::Unsigned(1)).put(
        "maximum",
        Json::Unsigned(2000),
    ).put("default", Json::Unsigned(200));
    let properties = Json::empty().put(
        "pattern",
        described("string", "Rust regular expression"),
    ).put("path", described("string", "File or directory, default workspace root")).put(
        "glob",
        described("string", "Optional file glob filter such as **/*.rs"),
    ).put("case_insensitive", property("boolean").put("default", Json::Bool(false))).put(
        "max_results",
        results,
    );
    let required: [&str; 1] = ["pattern"];
    assert(required@ =~= seq!["pattern"]);
    function_schema(
        "Grep",
        "Search UTF-8 workspace file contents with a regular expression.",
        parameters_with(properties, &required),
    )
}

fn make_bash_schema() -> (r: Json)
    ensures
        r@ == bash_schema(),
{
    let properties = Json::empty().put("command", property("string")).put(
        "cwd",
        described("string", "Workspace directory, default root"),
    );
    let required: [&str; 1] = ["command"];
    assert(required@ =~= seq!["command"]);
    function_schema(
        "Bash",
        "Run a shell command. High risk: can modify the system; always requires approval by default.",
        parameters_with(properties, &required),
    )
}

/// The tools with those of the workspace. Reading and searching may run;
/// writing, editing and commands have to ask.
pub open spec fn with_core_tools(tools: Seq<ToolEntry>) -> Seq<ToolEntry> {
    let allow = ToolPermission::Allow;
    let ask = ToolPermission::Ask;
    let a = with_tool(tools, ToolEntry { name: "Read"@, schema: read_schema(), permission: allow });
    let b = with_tool(a, ToolEntry { name: "Write"@, schema: write_schema(), permission: ask });
    let c = with_tool(b, ToolEntry { name: "Edit"@, schema: edit_schema(), permission: ask });
    let d = with_tool(c, ToolEntry { name: "Glob"@, schema: glob_schema(), permission: allow });
    let e = with_tool(d, ToolEntry { name: "Grep"@, schema: grep_schema(), permission: allow });
    with_tool(e, ToolEntry { name: "Bash"@, schema: bash_schema(), permission: ask })
}

/// Registers the tools that work in the workspace.
pub fn register(registry: &mut ToolRegistry)
    ensures
        final(registry)@ == (RegistryView {
            tools: with_core_tools(old(registry)@.tools),
            ..old(registry)@
        }),
{
    registry.register_with_permission("Read", make_read_schema(), ToolPermission::Allow);
    registry.register_with_permission("Write", make_write_schema(), ToolPermission::Ask);
    registry.register_with_permission("Edit", make_edit_schema(), ToolPermission::Ask);
    registry.register_with_permission("Glob", make_glob_schema(), ToolPermission::Allow);
    registry.register_with_permission("Grep", make_grep_schema(), ToolPermission::Allow);
    registry.register_with_permission("Bash", make_bash_schema(), ToolPermission::Ask);
}

} // verus!
