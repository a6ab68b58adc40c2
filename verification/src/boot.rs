//! What is looked for and said at the start.
use vstd::prelude::*;
use crate::commands::{count_tools, tool_count};
use crate::mcp::manager::McpManager;
use crate::paths::{join_path, join_path_spec, law_parent_drops_the_last_component, parent, parent_spec, parts_spec};
use crate::text::chars::{lemma_views_push, member, same, views};
use crate::text::number::{dec, decimal_size};
use crate::text::search::{join, join_spec};

verus! {

/// What is said of the knowledge base at the start.
pub fn rag_label(rag_chunks: Option<usize>) -> (r: String)
    ensures
        r@ == match rag_chunks {
            Some(n) => "RAG "@ + dec(n as nat) + " chunks"@,
            None => "RAG 未加载"@,
        },
{
    match rag_chunks {
        Some(n) => {
            let mut t = "RAG ".to_owned();
            t.append(decimal_size(n).as_str());
            t.append(" chunks");
            t
        },
        None => "RAG 未加载".to_owned(),
    }
}

/// What is said of the servers at the start.
pub fn mcp_label(manager: Option<&McpManager>) -> (r: String)
    ensures
        r@ == match manager {
            Some(m) => "MCP "@ + dec(m@.connections.len()) + "/"@ + dec(m@.statuses.len())
                + " servers · "@ + dec(tool_count(m@.statuses) as nat) + " tools"@,
            None => "MCP 未加载"@,
        },
{
    match manager {
        Some(m) => {
            let list = m.statuses();
            assert(m@.statuses.len() == list@.len());
            let mut t = "MCP ".to_owned();
            t.append(decimal_size(m.active_connections()).as_str());
            t.append("/");
            t.append(decimal_size(list.len()).as_str());
            t.append(" servers · ");
            t.append(decimal_size(count_tools(list)).as_str());
            t.append(" tools");
            t
        },
        None => "MCP 未加载".to_owned(),
    }
}

/// The directories in which the documents of the knowledge base may lie: one
/// under the given directory and one under each of the directories above it.
pub open spec fn candidates(dir: Seq<char>) -> Seq<Seq<char>>
    decreases parts_spec(dir).len(),
{
    proof {
        law_parent_drops_the_last_component(dir);
    }
    let here = seq![join_path_spec(dir, "docs/rag-docs"@)];
    match parent_spec(dir) {
        Some(above) => here + candidates(above),
        None => here,
    }
}

/// The directories in which the documents of the knowledge base may lie, the
/// nearest first.
pub fn rag_candidates(dir: &str) -> (r: Vec<String>)
    ensures
        views(r@) == candidates(dir@),
{
    let mut current = dir.to_owned();
    let mut r: Vec<String> = Vec::new();
    assert(views(r@) + candidates(dir@) =~= candidates(dir@));
    loop
        invariant
            views(r@) + candidates(current@) == candidates(dir@),
        decreases parts_spec(current@).len(),
    {
        let candidate = join_path(&current, "docs/rag-docs");
        let ghost before = views(r@);
        let ghost first = candidate@;
        proof {
            lemma_views_push(r@, candidate);
            law_parent_drops_the_last_component(current@);
        }
        r.push(candidate);
        match parent(&current) {
            Some(above) => {
                assert(before.push(first) + candidates(above@) =~= before + (seq![first]
                    + candidates(above@)));
                current = above;
            },
            None => {
                assert(before.push(first) =~= before + seq![first]);
                return r;
            },
        }
    }
}

/// What the program that answers from a knowledge base is called with.
#[derive(Clone, Debug, PartialEq)]
pub struct RagArguments {
    /// Ask a model, in place of showing the prompt.
    pub generate: bool,
    /// The source is an address, in place of a directory.
    pub remote: bool,
    pub source: String,
    pub query: String,
}

#[verifier::ext_equal]
pub struct RagArgumentsView {
    pub generate: bool,
    pub remote: bool,
    pub source: Seq<char>,
    pub query: Seq<char>,
}

impl View for RagArguments {
    type V = RagArgumentsView;

    open spec fn view(&self) -> RagArgumentsView {
        RagArgumentsView {
            generate: self.generate,
            remote: self.remote,
            source: self.source@,
            query: self.query@,
        }
    }
}

/// The arguments behind the first ones joined to a question.
pub open spec fn rest_of(args: Seq<Seq<char>>, from: int) -> Seq<char> {
    join_spec(
        if from < args.len() {
            args.skip(from)
        } else {
            Seq::empty()
        },
        " "@,
    )
}

/// What the arguments stand for; none where an address is missing.
pub open spec fn rag_arguments(args: Seq<Seq<char>>) -> Option<RagArgumentsView> {
    let generate = args.len() > 0 && args[0] == "--generate"@;
    let at: int = if generate {
        1
    } else {
        0
    };
    if at < args.len() && args[at] == "--url"@ {
        if at + 1 < args.len() {
            Some(
                RagArgumentsView {
                    generate,
                    remote: true,
                    source: args[at + 1],
                    query: rest_of(args, at + 2),
                },
            )
        } else {
            None
        }
    } else {
        Some(
            RagArgumentsView {
                generate,
                remote: false,
                source: if at < args.len() {
                    args[at]
                } else {
                    "docs/rag-demo"@
                },
                query: rest_of(args, at + 1),
            },
        )
    }
}

fn join_rest(args: &Vec<String>, from: usize) -> (r: String)
    ensures
        r@ == rest_of(views(args@), from as int),
{
    let mut rest: Vec<String> = Vec::new();
    let mut i: usize = from;
    let ghost all = views(args@);
    assert(views(rest@) =~= Seq::empty());
    while i < args.len()
        invariant
            all == views(args@),
            from <= i,
            i <= args@.len() || i == from,
            from < args@.len() ==> views(rest@) =~= all.subrange(from as int, i as int),
            from >= args@.len() ==> views(rest@) =~= Seq::empty(),
        decreases args@.len() - i,
    {
        let word = args[i].clone();
        proof {
            lemma_views_push(rest@, word);
        }
        rest.push(word);
        i = i + 1;
    }
    assert(from < args@.len() ==> views(rest@) =~= all.skip(from as int));
    join(&rest, " ")
}

impl RagArguments {
    /// What the arguments stand for.
    pub fn parse(args: &Vec<String>) -> (r: Result<RagArguments, String>)
        ensures
            match r {
                Ok(a) => rag_arguments(views(args@)) == Some(a@),
                Err(e) => rag_arguments(views(args@)) is None && e@ == "--url 后缺少 URL"@,
            },
    {
        let n: usize = args.len();
        let ghost all = views(args@);
        assert(forall|i: int| 0 <= i < n ==> all[i] == (#[trigger] args@[i])@);
        let generate = n > 0 && same(&args[0], "--generate");
        let at: usize = if generate {
            1
        } else {
            0
        };
        if at < n && same(&args[at], "--url") {
            if at + 1 >= n {
                return Err("--url 后缺少 URL".to_owned());
            }
            return Ok(
                RagArguments {
                    generate,
                    remote: true,
                    source: args[at + 1].clone(),
                    query: join_rest(args, at + 2),
                },
            );
        }
        let source = if at < n {
            args[at].clone()
        } else {
            "docs/rag-demo".to_owned()
        };
        Ok(RagArguments { generate, remote: false, source, query: join_rest(args, at + 1) })
    }

    /// Whether the documents are those that are taken where none are named.
    pub fn is_default_source(&self) -> (r: bool)
        ensures
            r == (!self.remote && self.source@ == "docs/rag-demo"@),
    {
        !self.remote && same(&self.source, "docs/rag-demo")
    }
}

/// Whether the configuration of the project is loaded: it is, unless the user
/// refuses it on the command line or in the environment.
pub fn project_config_trusted(arguments: &Vec<String>, refused_by_environment: bool) -> (r: bool)
    ensures
        r == (!refused_by_environment && !views(arguments@).contains("--no-project-mcp"@)),
{
    !refused_by_environment && !member(arguments, "--no-project-mcp")
}

/// A question behind a source is joined by spaces. An address stands behind its
/// own mark, and the mark in front of all else changes nothing but whether an
/// answer is asked for.
pub proof fn law_arguments_name_source_and_question(source: Seq<char>, rest: Seq<Seq<char>>)
    requires
        source != "--generate"@,
        source != "--url"@,
    ensures
        rag_arguments(seq![source] + rest) == Some(
            RagArgumentsView {
                generate: false,
                remote: false,
                source,
                query: join_spec(rest, " "@),
            },
        ),
        rag_arguments(seq!["--url"@, source] + rest) == Some(
            RagArgumentsView {
                generate: false,
                remote: true,
                source,
                query: join_spec(rest, " "@),
            },
        ),
        rag_arguments(seq!["--generate"@, source] + rest) == Some(
            RagArgumentsView {
                generate: true,
                remote: false,
                source,
                query: join_spec(rest, " "@),
            },
        ),
        rag_arguments(seq!["--generate"@, "--url"@, source] + rest) == Some(
            RagArgumentsView {
                generate: true,
                remote: true,
                source,
                query: join_spec(rest, " "@),
            },
        ),
        rag_arguments(seq!["--url"@]) is None,
{
    reveal_strlit("--url");
    reveal_strlit("--generate");
    assert("--url"@.len() == 5 && "--generate"@.len() == 10);
    assert((seq![source] + rest).skip(1) =~= rest);
    assert((seq!["--url"@, source] + rest).skip(2) =~= rest);
    assert((seq!["--generate"@, source] + rest).skip(2) =~= rest);
    assert((seq!["--generate"@, "--url"@, source] + rest).skip(3) =~= rest);
    if rest.len() == 0 {
        assert(rest =~= Seq::empty());
    }
}

} // verus!
