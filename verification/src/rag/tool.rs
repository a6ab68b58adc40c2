//! The tool by which the model searches the knowledge base.
use vstd::prelude::*;
use std::sync::Arc;
use crate::json::{json_parse, obj, parse, Json, JsonView};
use crate::rag::chunk::ChunkView;
use crate::rag::format::{formatted, results_view, ResultView, SearchResult};
use crate::rag::query::{chapter_spec, mentioned_document_file, mentioned_spec, requested_chapter_number};
use crate::rag::store::{in_document_results, named_sources, search_results, RagStore, SEARCH_DOCS_MAX_RESULT_TOKENS};
use crate::text::chars::{view_opt, views};
use crate::text::pieces::{trim, trim_spec};
use crate::tools::output::{failure, success, OutputView, ToolOutput};
use crate::tools::schema::{described, described_spec, function_schema, function_spec, parameters_with, required_spec};

verus! {

/// A tool that searches a knowledge base.
pub struct SearchDocsTool {
    store: Arc<RagStore>,
}

/// What a call of the tool asks for.
#[derive(Clone, Debug, PartialEq)]
pub struct SearchRequest {
    pub query: String,
    pub document: Option<String>,
}

#[verifier::ext_equal]
pub struct RequestView {
    pub query: Seq<char>,
    pub document: Option<Seq<char>>,
}

impl View for SearchRequest {
    type V = RequestView;

    open spec fn view(&self) -> RequestView {
        RequestView { query: self.query@, document: view_opt(self.document) }
    }
}

/// The request that the arguments of a call make, or the output that rejects
/// them. A file that the question mentions stands in for a missing argument.
pub open spec fn request_spec(args: JsonView) -> Result<RequestView, OutputView> {
    match args.at("query"@).as_text() {
        None => Err(failure("缺少 query 参数"@)),
        Some(raw) => {
            let query = trim_spec(raw);
            if query.len() == 0 {
                Err(failure("query 不能为空"@))
            } else if query.len() > 500 {
                Err(failure("query 过长"@))
            } else {
                let named = match args.at("document"@).as_text() {
                    Some(name) => trim_spec(name),
                    None => Seq::empty(),
                };
                Ok(
                    RequestView {
                        query,
                        document: if named.len() > 0 {
                            Some(named)
                        } else {
                            mentioned_spec(query)
                        },
                    },
                )
            }
        },
    }
}

/// The request that the text of a call's arguments makes.
pub open spec fn plan_spec(raw: Seq<char>) -> Result<RequestView, OutputView> {
    match json_parse(raw) {
        Ok(args) => request_spec(args),
        Err(e) => Err(failure(e)),
    }
}

pub open spec fn plan_view(r: Result<SearchRequest, ToolOutput>) -> Result<
    RequestView,
    OutputView,
> {
    match r {
        Ok(q) => Ok(q@),
        Err(o) => Err(o@),
    }
}

/// The results for a request, and the notice in front of them where a search
/// in the named file found nothing.
pub open spec fn request_results(
    chunks: Seq<ChunkView>,
    q: RequestView,
    scores: Seq<usize>,
) -> (Seq<ResultView>, Option<Seq<char>>) {
    if chapter_spec(q.query) is Some {
        (search_results(chunks, q.query, 8, scores), None)
    } else {
        match q.document {
            None => (search_results(chunks, q.query, 5, scores), None),
            Some(name) => {
                let found = in_document_results(chunks, name, q.query, 5, scores);
                if found.len() > 0 {
                    (found, None)
                } else {
                    let notice = if named_sources(chunks, name).len() == 0 {
                        "未找到文件名 `"@ + name + "`，已改为在整个知识库检索。"@
                    } else {
                        "在 `"@ + name + "` 内未命中，已改为在整个知识库检索。"@
                    };
                    (search_results(chunks, q.query, 5, scores), Some(notice))
                }
            },
        }
    }
}

/// The output for a request.
pub open spec fn answer_spec(chunks: Seq<ChunkView>, q: RequestView, scores: Seq<usize>) -> OutputView {
    let (results, notice) = request_results(chunks, q, scores);
    if chapter_spec(q.query) is Some && results.len() == 0 {
        success("没有检索到该章节的正文。"@)
    } else {
        let content = formatted(results, SEARCH_DOCS_MAX_RESULT_TOKENS as nat);
        match notice {
            Some(text) => success(text + "\n\n"@ + content),
            None => success(content),
        }
    }
}

/// How the tool is described to the model.
pub open spec fn search_schema() -> JsonView {
    function_spec(
        "search_docs"@,
        "从本地知识库检索相关文档片段。回答文档、手册、配置、第N章或目录问题时必须先调用。query 尽量使用用户原话；只有用户提供了明确文件名时才填写 document，禁止猜测文件名。不要凭记忆编造。"@,
        required_spec(
            obj().with("query"@, described_spec("string"@, "检索问题或关键词"@)).with(
                "document"@,
                described_spec(
                    "string"@,
                    "可选；用户明确给出的完整文件名或唯一简称。不确定真实文件名时不要填写"@,
                ),
            ),
            seq!["query"],
        ),
    )
}

impl SearchDocsTool {
    pub closed spec fn chunks(&self) -> Seq<ChunkView> {
        (*self.store)@
    }

    /// A tool over a knowledge base.
    pub fn new(store: Arc<RagStore>) -> (r: SearchDocsTool)
        ensures
            r.chunks() == (*store)@,
    {
        SearchDocsTool { store }
    }

    /// The name under which the model calls the tool.
    pub fn name(&self) -> (r: &'static str)
        ensures
            r@ == "search_docs"@,
    {
        "search_docs"
    }

    /// How the tool is described to the model.
    pub fn schema(&self) -> (r: Json)
        ensures
            r@ == search_schema(),
    {
        let properties = Json::empty().put("query", described("string", "检索问题或关键词")).put(
            "document",
            described(
                "string",
                "可选；用户明确给出的完整文件名或唯一简称。不确定真实文件名时不要填写",
            ),
        );
        let required = ["query"];
        assert(required@ =~= seq!["query"]);
        function_schema(
            "search_docs",
            "从本地知识库检索相关文档片段。回答文档、手册、配置、第N章或目录问题时必须先调用。query 尽量使用用户原话；只有用户提供了明确文件名时才填写 document，禁止猜测文件名。不要凭记忆编造。",
            parameters_with(properties, &required),
        )
    }

    /// The knowledge base of the tool.
    pub fn store(&self) -> (r: &RagStore)
        ensures
            r@ == self.chunks(),
    {
        &self.store
    }

    /// The request that the arguments of a call make.
    pub fn request(args: &Json) -> (r: Result<SearchRequest, ToolOutput>)
        ensures
            plan_view(r) == request_spec(args@),
    {
        let query = match args.text_at("query") {
            Some(t) => trim(t),
            None => {
                return Err(ToolOutput::failure("缺少 query 参数"));
            },
        };
        let length: usize = query.as_str().unicode_len();
        if length == 0 {
            return Err(ToolOutput::failure("query 不能为空"));
        }
        if length > 500 {
            return Err(ToolOutput::failure("query 过长"));
        }
        let named = match args.text_at("document") {
            Some(t) => trim(t),
            None => String::new(),
        };
        let document = if named.as_str().unicode_len() > 0 {
            Some(named)
        } else {
            mentioned_document_file(&query)
        };
        Ok(SearchRequest { query, document })
    }

    /// The request that the text of a call's arguments makes.
    pub fn plan(&self, raw_args: &str) -> (r: Result<SearchRequest, ToolOutput>)
        ensures
            plan_view(r) == plan_spec(raw_args@),
    {
        match parse(raw_args) {
            Ok(args) => SearchDocsTool::request(&args),
            Err(e) => Err(ToolOutput::failure(&e)),
        }
    }

    /// The output for a request. `scores` holds a score for each chunk.
    pub fn answer(&self, request: &SearchRequest, scores: &Vec<usize>) -> (r: ToolOutput)
        requires
            scores@.len() == self.chunks().len(),
        ensures
            r@ == answer_spec(self.chunks(), request@, scores@),
    {
        let query = request.query.as_str();
        let by_chapter = requested_chapter_number(query).is_some();
        let mut notice: Option<String> = None;
        let results: Vec<SearchResult> = if by_chapter {
            self.store.search(query, 8, scores)
        } else {
            match &request.document {
                None => self.store.search(query, 5, scores),
                Some(name) => {
                    let found = self.store.search_in_document(name, query, 5, scores);
                    assert(results_view(found@).len() == found@.len());
                    if found.len() > 0 {
                        found
                    } else {
                        let sources = self.store.document_sources(name);
                        assert(views(sources@).len() == sources@.len());
                        let mut text = if sources.len() == 0 {
                            "未找到文件名 `".to_owned()
                        } else {
                            "在 `".to_owned()
                        };
                        text.append(name.as_str());
                        if sources.len() == 0 {
                            text.append("`，已改为在整个知识库检索。");
                        } else {
                            text.append("` 内未命中，已改为在整个知识库检索。");
                        }
                        notice = Some(text);
                        self.store.search(query, 5, scores)
                    }
                },
            }
        };
        assert(results_view(results@).len() == results@.len());
        if by_chapter && results.len() == 0 {
            return ToolOutput::success("没有检索到该章节的正文。".to_owned());
        }
        let content = self.store.format_results_with_token_budget(
            &results,
            SEARCH_DOCS_MAX_RESULT_TOKENS,
        );
        match notice {
            Some(text) => {
                let mut full = text;
                full.append("\n\n");
                full.append(content.as_str());
                ToolOutput::success(full)
            },
            None => ToolOutput::success(content),
        }
    }
}

/// A file name that fits no document does not hide the knowledge base: the
/// results are those of a search in all of it.
pub proof fn law_unknown_files_are_passed_over(
    chunks: Seq<ChunkView>,
    query: Seq<char>,
    name: Seq<char>,
    scores: Seq<usize>,
)
    requires
        in_document_results(chunks, name, query, 5, scores).len() == 0,
    ensures
        request_results(chunks, RequestView { query, document: Some(name) }, scores).0
            == request_results(chunks, RequestView { query, document: None }, scores).0,
{
}

} // verus!
