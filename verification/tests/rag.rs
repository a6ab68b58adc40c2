//! Retrieval over documents.
use asteria_agent::rag::chunk::{split_document, Chunk, SourceDocument};
use asteria_agent::rag::docx::{
    docx_attr, extract_document_xml, extract_docx, format_outline_entry, is_docx_tag,
    read_document_events, DocxError, Tag, XmlEvent,
};
use asteria_agent::rag::format::{content_hash, fit_text_to_token_budget, SearchResult};
use asteria_agent::rag::query::{is_outline_query, mentioned_document_file, requested_chapter_number};
use asteria_agent::rag::sources::{source_refs_from_outputs, RagSourceRef};
use asteria_agent::rag::store::{
    is_contents_chunk, normalized_file_stem, numbered_chapter_titles, RagError, RagStore, ScoreInput,
};
use asteria_agent::rag::terms::{
    is_query_stopword, minimum_relevance_score, query_terms, remove_query_phrases, terms,
};
use asteria_agent::rag::tool::SearchDocsTool;
use asteria_agent::tokens::estimate;
use asteria_agent::tools::output::ToolOutput;
use std::io::Write;
use std::sync::Arc;

fn document(path: &str, text: &str) -> SourceDocument {
    SourceDocument { path: path.into(), text: text.into(), outline: None }
}

fn fixture() -> Vec<SourceDocument> {
    vec![document(
        "guide.md",
        "Rust ownership makes memory safe.\nAsteria uses a Context Kernel for memory.",
    )]
}

fn bm25(input: &ScoreInput) -> usize {
    let n = input.documents as f64;
    let average = input.total_terms as f64 / input.documents.max(1) as f64;
    let mut total = 0.0;
    for count in &input.document_counts {
        let df = *count as f64;
        let idf = ((n - df + 0.5) / (df + 0.5) + 1.0).ln();
        let length_norm = 1.0 / (0.5 + 0.5 * input.terms as f64 / average.max(1.0));
        total += idf * length_norm;
    }
    (total * 100.0).round() as usize
}

fn scores(store: &RagStore, query: &str) -> Vec<usize> {
    store.score_inputs(query).iter().map(bm25).collect()
}

fn search(store: &RagStore, query: &str, top_k: usize) -> Vec<SearchResult> {
    store.search(query, top_k, &scores(store, query))
}

fn execute(tool: &SearchDocsTool, raw_args: &str) -> ToolOutput {
    match tool.plan(raw_args) {
        Ok(request) => {
            let scores = scores(tool.store(), &request.query);
            tool.answer(&request, &scores)
        }
        Err(output) => output,
    }
}

#[test]
fn loads_and_chunks_documents() {
    let store = RagStore::from_dir(&fixture(), 30, 5).unwrap();
    assert!(store.len() >= 2);
    assert!(!store.is_empty());
}

#[test]
fn ranks_matching_chunks() {
    let store = RagStore::from_dir(&fixture(), 200, 0).unwrap();
    let results = search(&store, "Asteria Context Kernel", 1);
    assert!(results[0].score > 0);
    assert!(results[0].chunk.text.contains("Context Kernel"));
}

#[test]
fn builds_grounded_prompt() {
    let store = RagStore::from_dir(&fixture(), 200, 0).unwrap();
    let query = "Asteria Context Kernel 是什么？";
    let prompt = store.build_prompt(query, 2, &scores(&store, query));
    assert!(prompt.contains("guide.md"));
    assert!(prompt.contains("Context Kernel 是什么？"));
}

#[test]
fn reports_missing_context() {
    let store = RagStore::from_dir(&fixture(), 200, 0).unwrap();
    assert!(store
        .build_prompt("quantum banana", 2, &scores(&store, "quantum banana"))
        .contains("没有检索到相关本地资料"));
}

#[test]
fn avoids_false_positive_from_single_chinese_characters() {
    let store = RagStore::from_dir(&fixture(), 200, 0).unwrap();
    assert!(search(&store, "量子计算机和火星移民", 3).is_empty());
}

#[test]
fn raises_threshold_for_long_queries() {
    assert_eq!(minimum_relevance_score(1), 1);
    assert_eq!(minimum_relevance_score(2), 1);
    assert_eq!(minimum_relevance_score(3), 1);
    assert_eq!(minimum_relevance_score(18), 3);
    assert_eq!(minimum_relevance_score(24), 4);
    assert_eq!(minimum_relevance_score(0), usize::MAX);
}

#[test]
fn ignores_question_stopwords() {
    let store = RagStore::from_dir(&fixture(), 200, 0).unwrap();
    let results = search(&store, "Asteria 有没有介绍 Context Kernel？", 1);
    assert!(results[0].score > 0);
}

#[test]
fn handles_informal_short_queries() {
    let store = RagStore::from_dir(&fixture(), 200, 0).unwrap();
    assert!(!search(&store, "Asteria有啥功能", 1).is_empty());
}

#[test]
fn handles_natural_feature_question() {
    let store = RagStore::from_dir(&fixture(), 200, 0).unwrap();
    assert!(!search(&store, "介绍Asteria基本功能", 1).is_empty());
}

#[test]
fn searches_document_by_file_name() {
    let store = RagStore::from_dir(&fixture(), 200, 0).unwrap();
    let results = store.search_document("guide.md", 2);
    assert_eq!(results.len(), 1);
    assert_eq!(results[0].score, 0);
}

#[test]
fn packs_short_paragraphs_into_one_chunk() {
    let chunks = split_document("guide.md", "第一段\n\n第二段", 100, 0);
    assert_eq!(chunks.len(), 1);
    assert!(chunks[0].text.contains("第一段"));
    assert!(chunks[0].text.contains("第二段"));
}

#[test]
fn heading_starts_a_new_chunk() {
    let chunks = split_document(
        "guide.md",
        "# Chapter 1\n\nbody one\n\n# Chapter 2\n\nbody two",
        500,
        0,
    );
    assert_eq!(chunks.len(), 2);
    assert!(chunks[0].text.contains("Chapter 1"));
    assert!(chunks[1].text.contains("Chapter 2"));
}

fn sample_docx(document_xml: &str) -> Vec<u8> {
    let mut zip = zip::ZipWriter::new(std::io::Cursor::new(Vec::new()));
    zip.start_file("word/document.xml", zip::write::SimpleFileOptions::default()).unwrap();
    zip.write_all(document_xml.as_bytes()).unwrap();
    zip.finish().unwrap().into_inner()
}

#[test]
fn docx_skips_field_codes_and_keeps_tab_separated_titles() {
    let docx = sample_docx(
        r#"<w:document xmlns:w="http://schemas.openxmlformats.org/wordprocessingml/2006/main"><w:body>
<w:p><w:pPr><w:pStyle w:val="TOCHeading"/></w:pPr><w:r><w:t>Contents</w:t></w:r></w:p>
<w:p><w:pPr><w:pStyle w:val="TOC1"/></w:pPr>
<w:r><w:fldChar w:fldCharType="begin"/></w:r>
<w:r><w:instrText> TOC \o "1-3" </w:instrText></w:r>
<w:r><w:fldChar w:fldCharType="separate"/></w:r>
<w:r><w:t>Acronyms</w:t></w:r><w:r><w:tab/></w:r>
<w:r><w:fldChar w:fldCharType="begin"/></w:r>
<w:r><w:instrText> PAGEREF x </w:instrText></w:r>
<w:r><w:fldChar w:fldCharType="separate"/></w:r>
<w:r><w:t>6</w:t></w:r>
<w:r><w:fldChar w:fldCharType="end"/></w:r></w:p>
<w:p><w:pPr><w:pStyle w:val="TOC1"/></w:pPr>
<w:r><w:t>1</w:t></w:r><w:r><w:tab/></w:r>
<w:r><w:t>Pre-condition</w:t></w:r><w:r><w:tab/></w:r>
<w:r><w:t>7</w:t></w:r></w:p>
<w:p><w:pPr><w:pStyle w:val="Heading1"/></w:pPr><w:r><w:t>Pre-condition</w:t></w:r></w:p>
<w:p><w:r><w:t>Visible body</w:t></w:r></w:p>
</w:body></w:document>"#,
    );
    let (text, outline) = extract_docx(&docx).unwrap();
    assert!(!text.contains("PAGEREF"));
    assert!(!text.contains("TOC \\o"));
    assert!(text.contains("# Pre-condition"));
    assert!(text.contains("Visible body"));
    let outline = outline.expect("docx outline");
    assert!(outline.starts_with("# Contents"));
    assert!(outline.contains("Acronyms"));
    assert!(outline.contains("1 Pre-condition"));
    assert!(!outline.contains("PAGEREF"));
}

const MANUAL: &str =
    "docs/rag-docs/3HH-90086-2001-DFZZA-01P46-Lightspan Fiber Troubleshooting Guide - SI Part.docx";

const TITLES: [&str; 14] = [
    "Pre-condition", "Board states", "Link states", "Power supply", "Fan unit", "Alarms", "Upgrade",
    "Logs", "Counters", "Optics", "Timing", "Access", "Reboot", "Persistent storage",
];

fn manual() -> SourceDocument {
    let mut text = String::new();
    let mut outline = String::from("# Contents");
    for (i, title) in TITLES.iter().enumerate() {
        let number = i + 1;
        outline.push_str(&format!("\n{number} {title}"));
        text.push_str(&format!("# {title}\n\nHow to inspect {title} on a Lightspan board.\n\n"));
    }
    SourceDocument { path: MANUAL.into(), text, outline: Some(outline) }
}

fn is_top_level_chapter(line: &str) -> bool {
    let line = line.trim();
    let rest = line.trim_start_matches(|c: char| c.is_ascii_digit());
    rest.len() < line.len() && rest.starts_with(' ')
}

#[test]
fn troubleshooting_outline_lists_fourteen_chapters() {
    let store = RagStore::from_dir(&vec![manual()], 500, 50).unwrap();
    let outline =
        store.chunks().iter().find(|chunk| is_contents_chunk(chunk)).expect("contents chunk");
    let numbered = outline.text.lines().filter(|line| is_top_level_chapter(line)).count();
    assert_eq!(numbered, 14, "outline was:\n{}", outline.text);
    let results = search(&store, "troubleshooting 一共包含几个章节", 3);
    assert!(
        results.iter().any(|result| is_contents_chunk(&result.chunk)),
        "structure query should retrieve the contents chunk"
    );
}

#[test]
fn troubleshooting_retrieves_chapter_fourteen_body() {
    let store = RagStore::from_dir(&vec![manual()], 500, 50).unwrap();
    assert_eq!(requested_chapter_number("第14章节写的什么内容"), Some(14));
    let results = search(&store, "第14章节写的什么内容", 8);
    assert!(!results.is_empty(), "chapter 14 body should be retrievable");
    assert!(
        results.iter().any(|result| result.chunk.text.contains("Persistent storage")),
        "chapter 14 should include its heading/body, got: {:?}",
        results
            .iter()
            .map(|result| result.chunk.text.chars().take(80).collect::<String>())
            .collect::<Vec<_>>()
    );
    assert!(
        results.iter().all(|result| !is_contents_chunk(&result.chunk)),
        "chapter-content queries must not return only the table of contents"
    );
}

#[test]
fn parses_chapter_number_from_natural_questions() {
    assert_eq!(requested_chapter_number("第14章节写的什么内容"), Some(14));
    assert_eq!(requested_chapter_number("第14个章节写的是什么内容？"), Some(14));
    assert_eq!(requested_chapter_number("第三章讲的啥"), None);
    assert_eq!(requested_chapter_number("一共包含几个章节"), None);
    assert_eq!(requested_chapter_number("chapter 2 body"), Some(2));
}

#[test]
fn formats_results_without_wrapping_the_question() {
    let store = RagStore::from_dir(&fixture(), 200, 0).unwrap();
    let results = search(&store, "Asteria Context Kernel", 1);
    let formatted = store.format_results(&results);
    assert!(formatted.contains("guide.md"));
    assert!(formatted.contains("Context Kernel"));
    assert!(!formatted.contains("问题："));
}

fn found(source: &str, index: usize, text: &str, score: usize) -> SearchResult {
    SearchResult { chunk: Chunk { source: source.into(), index, text: text.into() }, score }
}

#[test]
fn result_formatting_respects_token_budget() {
    let store = RagStore::from_chunks(Vec::new());
    let results = vec![found("a.docx", 1, &"中".repeat(200), 100)];
    let formatted = store.format_results_with_token_budget(&results, 80);
    assert!(estimate(&formatted) <= 80);
    assert!(formatted.contains("a.docx"));
    assert!(formatted.contains("Token 预算截断"));
    assert!(formatted.chars().count() < 200);
}

#[test]
fn deduplicates_results_by_normalized_content_hash() {
    let store = RagStore::from_chunks(Vec::new());
    let results = vec![
        found("first.docx", 1, "same   content", 100),
        found("second.docx", 2, "same content", 90),
    ];
    let formatted = store.format_results_with_token_budget(&results, 1_000);
    assert_eq!(formatted.matches("[资料 ").count(), 1);
    assert!(formatted.contains("first.docx"));
    assert!(!formatted.contains("second.docx"));
}

#[test]
fn extracts_short_source_refs_from_tool_outputs() {
    let outputs: Vec<String> = vec!["[资料 1 | guide.docx | 片段 14 | score=100]\n正文\n\n\
         [资料 2 | guide.docx | 片段 15 | score=90]\n更多正文"
        .into()];
    let refs = source_refs_from_outputs(&outputs);
    assert_eq!(
        refs,
        vec![RagSourceRef { source: "guide.docx".into(), chunk_indices: vec![14, 15] }]
    );
}

#[test]
fn search_docs_tool_returns_matching_chunks() {
    let store = RagStore::from_dir(&fixture(), 200, 0).unwrap();
    let tool = SearchDocsTool::new(Arc::new(store));
    let output = execute(&tool, r#"{"query":"Asteria Context Kernel"}"#);
    assert!(!output.is_error);
    assert!(output.content.contains("guide.md"));
    assert!(output.content.contains("Context Kernel"));
}

#[test]
fn search_docs_tool_locates_named_document() {
    let store = RagStore::from_dir(&fixture(), 200, 0).unwrap();
    let tool = SearchDocsTool::new(Arc::new(store));
    let output = execute(&tool, r#"{"query":"Asteria Context Kernel","document":"guide.md"}"#);
    assert!(!output.is_error);
    assert!(output.content.contains("guide.md"));
    assert!(output.content.contains("Context Kernel"));
    let missing = execute(&tool, r#"{"query":"Asteria Context Kernel","document":"missing.docx"}"#);
    assert!(!missing.is_error);
    assert!(missing.content.contains("已改为在整个知识库检索"));
    assert!(missing.content.contains("Context Kernel"));
}

#[test]
fn fuzzy_document_alias_and_chinese_reboot_query_find_english_manual() {
    let mut documents = vec![document(
        "3HH-Lightspan Fiber Troubleshooting Guide - SI Part.md",
        "Overview and unrelated introduction.\n\n### LT Continuous Rebooting\n\
         Inspect the reboot reason and startup alive message flow before debugging Wallander.",
    )];
    documents.append(&mut fixture());
    let store = RagStore::from_dir(&documents, 300, 0).unwrap();
    let tool = SearchDocsTool::new(Arc::new(store));
    let output = execute(
        &tool,
        r#"{"query":"LT 反复重启时该如何 debug 排查","document":"troubleshooting.docx"}"#,
    );
    assert!(!output.is_error);
    assert!(!output.content.contains("未找到文件名"));
    assert!(output.content.contains("LT Continuous Rebooting"));
    assert!(output.content.contains("startup alive message"));
}

#[test]
fn search_docs_tool_rejects_empty_query() {
    let store = RagStore::from_dir(&fixture(), 200, 0).unwrap();
    let tool = SearchDocsTool::new(Arc::new(store));
    let output = execute(&tool, r#"{"query":"   "}"#);
    assert!(output.is_error);
    assert!(output.content.contains("query 不能为空"));
    let output = execute(&tool, r#"{"document":"guide.md"}"#);
    assert_eq!(output.content, "工具执行失败: 缺少 query 参数");
    let output = execute(&tool, "not json");
    assert!(output.is_error);
    assert!(output.content.starts_with("工具执行失败: expected"));
    assert_eq!(tool.name(), "search_docs");
}

#[test]
fn slices_of_a_long_section_overlap_and_cover_it() {
    let chunks = split_document("a.txt", "abcdefghij", 4, 1);
    let texts: Vec<&str> = chunks.iter().map(|chunk| chunk.text.as_str()).collect();
    assert_eq!(texts, vec!["abcd", "defg", "ghij"]);
    let numbers: Vec<usize> = chunks.iter().map(|chunk| chunk.index).collect();
    assert_eq!(numbers, vec![0, 1, 2]);
}

#[test]
fn chunking_without_progress_is_refused() {
    assert_eq!(RagStore::from_dir(&fixture(), 5, 5).err(), Some(RagError::InvalidChunking));
    assert_eq!(RagStore::from_dir(&fixture(), 0, 0).err(), Some(RagError::InvalidChunking));
}

#[test]
fn remote_documents_are_bounded_texts() {
    let mut store = RagStore::from_chunks(Vec::new());
    let url = "https://example.com/guide.md";
    store.add_remote(url, Some(12), b"Remote guide".to_vec(), 100, 0).unwrap();
    assert_eq!(store.chunks()[0].source, url);
    assert_eq!(store.chunks()[0].text, "Remote guide");
    let declared = store.add_remote(url, Some(3 * 1024 * 1024), Vec::new(), 100, 0);
    assert_eq!(declared, Err(RagError::TooLarge));
    let large = store.add_remote(url, None, vec![b'x'; 2 * 1024 * 1024 + 1], 100, 0);
    assert_eq!(large, Err(RagError::TooLarge));
    let bytes = store.add_remote(url, None, vec![0xff, 0xfe], 100, 0);
    assert_eq!(bytes, Err(RagError::NotUtf8));
    assert_eq!(store.len(), 1);
    assert!(RagError::TooLarge.message(url).contains("2 MiB"));
}

#[test]
fn results_are_ranked_by_score_then_by_place() {
    let store = RagStore::from_chunks(vec![
        Chunk { source: "b.md".into(), index: 0, text: "kernel panic".into() },
        Chunk { source: "a.md".into(), index: 1, text: "kernel panic".into() },
        Chunk { source: "a.md".into(), index: 0, text: "kernel panic".into() },
        Chunk { source: "c.md".into(), index: 0, text: "unrelated words".into() },
    ]);
    let results = store.search("kernel", 10, &vec![5, 5, 5, 9]);
    let places: Vec<(String, usize)> =
        results.into_iter().map(|result| (result.chunk.source, result.chunk.index)).collect();
    assert_eq!(
        places,
        vec![("a.md".to_string(), 0), ("a.md".to_string(), 1), ("b.md".to_string(), 0)]
    );
    let best = store.search("kernel", 1, &vec![7, 5, 5, 9]);
    assert_eq!(best.len(), 1);
    assert_eq!(best[0].chunk.source, "b.md");
}

#[test]
fn named_documents_bound_the_search() {
    let store = RagStore::from_chunks(vec![
        Chunk { source: "docs/a.md".into(), index: 0, text: "kernel panic".into() },
        Chunk { source: "docs/b.md".into(), index: 0, text: "kernel panic".into() },
    ]);
    let results = store.search_in_document("A.md", "kernel", 5, &vec![1, 1]);
    assert!(results.iter().all(|result| result.chunk.source == "docs/a.md"));
    assert_eq!(results.len(), 1);
    assert_eq!(store.document_sources("missing.md"), Vec::<String>::new());
}

#[test]
fn questions_about_documents_are_recognised() {
    assert!(is_outline_query("一共有几个章节"));
    assert!(!is_outline_query("如何重启"));
    assert_eq!(mentioned_document_file("docs/guide.DOCX 的内容"), Some("guide.DOCX".to_string()));
    assert_eq!(mentioned_document_file("没有文件"), None);
    assert_eq!(
        numbered_chapter_titles("# Contents\n1 Start\n1.1 Detail\n2 End"),
        vec![(1, "Start".to_string()), (2, "End".to_string())]
    );
    assert_eq!(normalized_file_stem("docs/Trouble Shooting-Guide.DOCX"), "troubleshootingguide");
}

#[test]
fn terms_are_words_and_pairs_of_characters() {
    let mut list = terms("Context 重启 Kernel");
    list.sort();
    assert!(list.contains(&"context".to_string()));
    assert!(list.contains(&"kernel".to_string()));
    assert!(list.contains(&"重启".to_string()));
    let repeated = terms("kernel kernel kernel");
    assert_eq!(repeated.iter().filter(|term| *term == "kernel").count(), 1);
    let (wanted, expanded) = query_terms("LT 反复重启");
    assert!(expanded);
    assert!(wanted.contains(&"reboot".to_string()));
    assert_eq!(terms("ÀÉ"), vec!["ÀÉ".to_string()]);
    assert_eq!(query_terms("ÀÉ").0, vec!["àé".to_string()]);
    assert!(is_query_stopword("什么"));
    assert!(!is_query_stopword("重启"));
    assert!(!remove_query_phrases("请介绍一下重启").contains("介绍"));
}

#[test]
fn text_is_cut_to_its_budget() {
    assert_eq!(content_hash("same   content"), content_hash("same content"));
    assert_ne!(content_hash("same content"), content_hash("other content"));
    let cut = fit_text_to_token_budget(&"中".repeat(100), 40);
    assert!(estimate(&cut) <= 40);
    assert!(cut.ends_with("Token 预算截断]"));
    assert_eq!(fit_text_to_token_budget("short", 40), "short");
}

#[test]
fn events_make_up_the_text() {
    let tag = |name: &str| Tag { name: name.into(), attributes: Vec::new() };
    let events = vec![
        XmlEvent::Start(tag("w:p")),
        XmlEvent::Start(tag("w:t")),
        XmlEvent::Text(Ok("hello".into())),
        XmlEvent::End("w:t".into()),
        XmlEvent::End("w:p".into()),
        XmlEvent::Eof,
    ];
    let (text, outline) = read_document_events(&events).unwrap();
    assert_eq!(text.trim(), "hello");
    assert_eq!(outline, None);
    let failed = vec![XmlEvent::Failed("broken".into())];
    assert!(read_document_events(&failed).is_err());
}

#[test]
fn broken_word_documents_are_refused() {
    assert!(matches!(extract_docx(b"no archive"), Err(DocxError::NotArchive(_))));
    assert_eq!(
        DocxError::NotArchive("why".into()).message("a.docx"),
        "不是有效的 DOCX 文件 a.docx: why"
    );
    assert_eq!(
        DocxError::MissingBody("why".into()).message("a.docx"),
        "DOCX 缺少正文 a.docx: why"
    );
    let mut zip = zip::ZipWriter::new(std::io::Cursor::new(Vec::new()));
    zip.start_file("other.xml", zip::write::SimpleFileOptions::default()).unwrap();
    zip.write_all(b"<a/>").unwrap();
    let archive = zip.finish().unwrap().into_inner();
    assert!(matches!(extract_docx(&archive), Err(DocxError::MissingBody(_))));
    let mut zip = zip::ZipWriter::new(std::io::Cursor::new(Vec::new()));
    zip.start_file("word/document.xml", zip::write::SimpleFileOptions::default()).unwrap();
    zip.write_all(&[0xff, 0xfe]).unwrap();
    let archive = zip.finish().unwrap().into_inner();
    assert!(matches!(extract_docx(&archive), Err(DocxError::Unreadable(_))));
    assert!(extract_document_xml("<w:p><w:t>open</w:p>").is_err());
}

#[test]
fn visible_text_is_read_paragraph_by_paragraph() {
    let (text, outline) = extract_document_xml(
        "<w:document><w:body><w:p><w:r><w:t>one &amp; two</w:t></w:r></w:p>\
         <w:tbl><w:tr><w:tc><w:p><w:r><w:t>left</w:t></w:r></w:p></w:tc>\
         <w:tc><w:p><w:r><w:t>right</w:t></w:r></w:p></w:tc></w:tr></w:tbl></w:body></w:document>",
    )
    .unwrap();
    assert!(text.contains("one & two"));
    assert!(text.contains("left"));
    assert!(text.contains("right"));
    assert_eq!(outline, None);
    assert!(is_docx_tag("w:p", "p"));
    assert!(is_docx_tag("p", "p"));
    assert!(!is_docx_tag("x:p", "p"));
    assert_eq!(format_outline_entry("1\tPre-condition\t7"), Some("1 Pre-condition".to_string()));
    let tag = Tag {
        name: "w:pStyle".into(),
        attributes: vec![None, Some(("w:val".into(), "TOC1".into()))],
    };
    assert_eq!(docx_attr(&tag, "val"), Some("TOC1".to_string()));
    assert_eq!(docx_attr(&tag, "id"), None);
}

#[test]
fn searches_stay_within_their_limit() {
    let chunk = |index: usize, text: &str| Chunk {
        source: "guide.docx".into(),
        index,
        text: text.into(),
    };
    let store = RagStore::from_chunks(vec![
        chunk(0, "# Contents\n\n1 Start\n2 Use\n"),
        chunk(1, "# Start\n\none"),
        chunk(2, "two"),
        chunk(3, "three"),
        chunk(4, "# Use\n\nfour"),
    ]);
    for query in ["目录里有几个章节", "第1章写的什么内容", "one two three"] {
        for limit in 0..7 {
            let found = search(&store, query, limit);
            assert!(found.len() <= limit, "{query} {limit}");
        }
    }
    assert_eq!(search(&store, "目录里有几个章节", 1).len(), 1);
    assert!(RagStore::accepts_remote(None));
    assert!(RagStore::accepts_remote(Some(2 * 1024 * 1024)));
    assert!(!RagStore::accepts_remote(Some(2 * 1024 * 1024 + 1)));
}
