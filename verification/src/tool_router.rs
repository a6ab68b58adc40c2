//! Which tools a model gets to see for a question.
use vstd::prelude::*;
use crate::intent::{name_of_schema, schema_name};
use crate::json::{items_view, lemma_array_view, Json, JsonView};
use crate::message::{calls_view, messages_view, Message, MessageView};
use crate::paths::{order_texts, text_order, Order};
use crate::text::chars::{ascii_alnum, ascii_lower, byte_len, is_ascii_alnum, lemma_views_push, member, same, to_ascii_lower, utf8_len, views};
use crate::text::pieces::{keep_nonempty, nonempty, pieces, split_at_class, CharClass};
use crate::text::search::{after_prefix, contains, halves, has_prefix, has_text, split_once, starts_with, strip_prefix};

verus! {

/// The most remote tools that are shown for their relevance alone.
pub const DEFAULT_MAX_MCP_TOOLS: usize = 8;

pub open spec fn plain_char(c: char) -> char {
    if c == '`' || c == '\n' || c == '\t' {
        ' '
    } else {
        c
    }
}

/// A text in lower case with spaces around it and in place of backticks, line
/// feeds and tabs.
pub open spec fn normalized(s: Seq<char>) -> Seq<char> {
    " "@ + ascii_lower(s).map_values(|c: char| plain_char(c)) + " "@
}

fn normalize(value: &str) -> (r: String)
    ensures
        r@ == normalized(value@),
{
    let lower = to_ascii_lower(value);
    let mut body = String::new();
    let ghost f = |c: char| plain_char(c);
    for c in it: lower.as_str().chars()
        invariant
            it.seq() == lower@,
            f == (|c: char| plain_char(c)),
            body@ =~= lower@.take(it.index()).map_values(f),
    {
        assert(lower@.take(it.index() + 1).map_values(f) =~= lower@.take(
            it.index(),
        ).map_values(f).push(plain_char(c)));
        body.push(
            if c == '`' || c == '\n' || c == '\t' {
                ' '
            } else {
                c
            },
        );
    }
    assert(lower@.take(lower@.len() as int) =~= lower@);
    let mut r = " ".to_owned();
    r.append(body.as_str());
    r.append(" ");
    r
}

pub open spec fn is_plain_word(s: Seq<char>) -> bool {
    forall|i: int| 0 <= i < s.len() ==> is_ascii_alnum(#[trigger] s[i])
}

fn plain_word(s: &str) -> (r: bool)
    ensures
        r == is_plain_word(s@),
{
    for c in it: s.chars()
        invariant
            it.seq() == s@,
            forall|j: int| 0 <= j < it.index() ==> is_ascii_alnum(#[trigger] s@[j]),
    {
        if !ascii_alnum(c) {
            assert(!is_ascii_alnum(s@[it.index()]));
            return false;
        }
    }
    true
}

/// An ASCII word has to stand in a text as a word, anything else anywhere.
pub open spec fn has_search_term(hay: Seq<char>, needle: Seq<char>) -> bool {
    if is_plain_word(needle) {
        pieces(hay, CharClass::NotAsciiAlnum).contains(needle)
    } else {
        has_text(hay, needle)
    }
}

fn contains_search_term(hay: &str, needle: &str) -> (r: bool)
    ensures
        r == has_search_term(hay@, needle@),
{
    if plain_word(needle) {
        member(&split_at_class(hay, CharClass::NotAsciiAlnum), needle)
    } else {
        contains(hay, needle)
    }
}

pub open spec fn has_any_term(hay: Seq<char>, needles: Seq<&str>) -> bool {
    exists|i: int| 0 <= i < needles.len() && has_search_term(hay, (#[trigger] needles[i])@)
}

fn contains_any_term(hay: &str, needles: &[&str]) -> (r: bool)
    ensures
        r == has_any_term(hay@, needles@),
{
    for i in 0..needles.len()
        invariant
            forall|j: int| 0 <= j < i ==> !has_search_term(hay@, (#[trigger] needles@[j])@),
    {
        if contains_search_term(hay, needles[i]) {
            return true;
        }
    }
    false
}

/// Words of a question that is about changing or running something.
pub open spec fn change_words() -> Seq<&'static str> {
    seq![
        "修改", "编辑", "编写", "开发", "修复", "优化", "实现", "新增", "添加", "删除", "重构",
        "运行", "执行", "测试", "构建", "编译", "命令", "write", "edit", "fix", "implement",
        "refactor", "run", "test", "build", "cargo", "git ", "shell", "bash",
    ]
}

pub open spec fn wait_words() -> Seq<&'static str> {
    seq!["等待", "wait_for", "wait for"]
}

pub open spec fn docs_words() -> Seq<&'static str> {
    seq![
        "文档",
        "手册",
        "章节",
        "目录",
        "troubleshooting",
        "trouble shooting",
        "search_docs",
    ]
}

/// Whether a local tool is shown for a question. Reading and calculating
/// always are, and so are tools that an embedding program added.
pub open spec fn core_tool_fits(name: Seq<char>, query: Seq<char>) -> bool {
    if name == "Write"@ || name == "Edit"@ || name == "Bash"@ {
        has_any_term(query, change_words())
    } else if name == "wait_for"@ {
        has_any_term(query, wait_words())
    } else if name == "search_docs"@ {
        has_any_term(query, docs_words())
    } else {
        true
    }
}

fn route_core_tool(name: &str, query: &str) -> (r: bool)
    ensures
        r == core_tool_fits(name@, query@),
{
    if same(name, "Write") || same(name, "Edit") || same(name, "Bash") {
        let words: [&str; 29] = [
            "修改", "编辑", "编写", "开发", "修复", "优化", "实现", "新增", "添加", "删除", "重构",
            "运行", "执行", "测试", "构建", "编译", "命令", "write", "edit", "fix", "implement",
            "refactor", "run", "test", "build", "cargo", "git ", "shell", "bash",
        ];
        assert(words@ =~= change_words());
        contains_any_term(query, &words)
    } else if same(name, "wait_for") {
        let words: [&str; 3] = ["等待", "wait_for", "wait for"];
        assert(words@ =~= wait_words());
        contains_any_term(query, &words)
    } else if same(name, "search_docs") {
        let words: [&str; 7] = [
            "文档",
            "手册",
            "章节",
            "目录",
            "troubleshooting",
            "trouble shooting",
            "search_docs",
        ];
        assert(words@ =~= docs_words());
        contains_any_term(query, &words)
    } else {
        true
    }
}

pub open spec fn github_words() -> Seq<&'static str> {
    seq![
        "github", "git hub", "仓库", "repository", "repo", "issue", "pull request", " pr ",
        "合并请求",
    ]
}

pub open spec fn cloudflare_words() -> Seq<&'static str> {
    seq!["cloudflare", "workers", "pages", "wrangler", "d1", "r2"]
}

pub open spec fn context7_words() -> Seq<&'static str> {
    seq![
        "context7", "第三方库", "库文档", "api 文档", "sdk 文档", "latest docs", "library docs",
    ]
}

pub open spec fn deepwiki_words() -> Seq<&'static str> {
    seq!["deepwiki", "wiki", "仓库架构", "代码库架构", "repo 架构"]
}

pub open spec fn microsoft_words() -> Seq<&'static str> {
    seq!["microsoft", "微软", "learn", "azure", "dotnet", ".net"]
}

/// Whether a question is about what a well-known server is for.
pub open spec fn server_fits(server: Seq<char>, query: Seq<char>) -> bool {
    let name = normalized(server);
    if has_text(name, "github"@) {
        has_any_term(query, github_words())
    } else if has_text(name, "cloudflare"@) {
        has_any_term(query, cloudflare_words())
    } else if has_text(name, "context7"@) {
        has_any_term(query, context7_words())
    } else if has_text(name, "deepwiki"@) {
        has_any_term(query, deepwiki_words())
    } else if has_text(name, "microsoft"@) {
        has_any_term(query, microsoft_words())
    } else {
        false
    }
}

fn server_intent_matches(server: &str, query: &str) -> (r: bool)
    ensures
        r == server_fits(server@, query@),
{
    let name = normalize(server);
    if contains(&name, "github") {
        let words: [&str; 9] = [
            "github", "git hub", "仓库", "repository", "repo", "issue", "pull request", " pr ",
            "合并请求",
        ];
        assert(words@ =~= github_words());
        contains_any_term(query, &words)
    } else if contains(&name, "cloudflare") {
        let words: [&str; 6] = ["cloudflare", "workers", "pages", "wrangler", "d1", "r2"];
        assert(words@ =~= cloudflare_words());
        contains_any_term(query, &words)
    } else if contains(&name, "context7") {
        let words: [&str; 7] = [
            "context7", "第三方库", "库文档", "api 文档", "sdk 文档", "latest docs",
            "library docs",
        ];
        assert(words@ =~= context7_words());
        contains_any_term(query, &words)
    } else if contains(&name, "deepwiki") {
        let words: [&str; 5] = ["deepwiki", "wiki", "仓库架构", "代码库架构", "repo 架构"];
        assert(words@ =~= deepwiki_words());
        contains_any_term(query, &words)
    } else if contains(&name, "microsoft") {
        let words: [&str; 6] = ["microsoft", "微软", "learn", "azure", "dotnet", ".net"];
        assert(words@ =~= microsoft_words());
        contains_any_term(query, &words)
    } else {
        false
    }
}

/// A mark in a tool's name and the words of a question that go with it.
pub open spec fn intents() -> Seq<(&'static str, Seq<&'static str>)> {
    seq![
        ("get_me", seq!["我的账号", "我的用户", "个人资料", "profile", "whoami"]),
        ("file", seq!["文件", "内容", "读取", "查看", "read", "contents"]),
        ("search", seq!["搜索", "查找", "检索", "search", "find"]),
        ("issue", seq!["issue", "工单", "议题"]),
        ("pull_request", seq!["pull request", " pr ", "合并请求", "拉取请求"]),
        ("docs", seq!["文档", "资料", "docs", "documentation"]),
        ("wiki", seq!["wiki", "架构", "结构"]),
    ]
}

/// Thirty for each of the intents that a tool's name and a question share.
pub open spec fn intent_score(
    name: Seq<char>,
    query: Seq<char>,
    list: Seq<(&str, Seq<&str>)>,
) -> nat
    decreases list.len(),
{
    if list.len() == 0 {
        0
    } else {
        intent_score(name, query, list.drop_last()) + if has_text(name, list.last().0@)
            && has_any_term(query, list.last().1) {
            30nat
        } else {
            0
        }
    }
}

fn intent_points(name: &str, query: &str, mark: &str, words: &[&str]) -> (r: u128)
    ensures
        r == if has_text(name@, mark@) && has_any_term(query@, words@) {
            30nat
        } else {
            0
        },
{
    if contains(name, mark) && contains_any_term(query, words) {
        30
    } else {
        0
    }
}

fn tool_intent_score(remote_name: &str, query: &str) -> (r: u128)
    ensures
        r == intent_score(normalized(remote_name@), query@, intents()),
        r <= 210,
{
    let name = normalize(remote_name);
    let me: [&str; 5] = ["我的账号", "我的用户", "个人资料", "profile", "whoami"];
    let file: [&str; 6] = ["文件", "内容", "读取", "查看", "read", "contents"];
    let search: [&str; 5] = ["搜索", "查找", "检索", "search", "find"];
    let issue: [&str; 3] = ["issue", "工单", "议题"];
    let pull: [&str; 4] = ["pull request", " pr ", "合并请求", "拉取请求"];
    let docs: [&str; 4] = ["文档", "资料", "docs", "documentation"];
    let wiki: [&str; 3] = ["wiki", "架构", "结构"];
    let r: u128 = intent_points(&name, query, "get_me", &me) + intent_points(
        &name,
        query,
        "file",
        &file,
    ) + intent_points(&name, query, "search", &search) + intent_points(
        &name,
        query,
        "issue",
        &issue,
    ) + intent_points(&name, query, "pull_request", &pull) + intent_points(
        &name,
        query,
        "docs",
        &docs,
    ) + intent_points(&name, query, "wiki", &wiki);
    proof {
        let all = intents();
        assert(all[0].1 =~= me@ && all[1].1 =~= file@ && all[2].1 =~= search@ && all[3].1
            =~= issue@ && all[4].1 =~= pull@ && all[5].1 =~= docs@ && all[6].1 =~= wiki@);
        lemma_intent_step(name@, query@, all, 0);
        lemma_intent_step(name@, query@, all, 1);
        lemma_intent_step(name@, query@, all, 2);
        lemma_intent_step(name@, query@, all, 3);
        lemma_intent_step(name@, query@, all, 4);
        lemma_intent_step(name@, query@, all, 5);
        lemma_intent_step(name@, query@, all, 6);
        assert(all.take(0) =~= Seq::empty());
        assert(all.take(7) =~= all);
    }
    r
}

proof fn lemma_intent_step(
    name: Seq<char>,
    query: Seq<char>,
    list: Seq<(&str, Seq<&str>)>,
    i: int,
)
    requires
        0 <= i < list.len(),
    ensures
        intent_score(name, query, list.take(i + 1)) == intent_score(name, query, list.take(i)) + if
        has_text(name, list[i].0@) && has_any_term(query, list[i].1) {
            30nat
        } else {
            0
        },
{
    assert(list.take(i + 1).drop_last() =~= list.take(i));
}

/// Words of descriptions that say nothing about what a tool is for.
pub open spec fn generic_words() -> Seq<&'static str> {
    seq![
        "about", "allows", "array", "available", "call", "calls", "data", "details", "from",
        "function", "information", "list", "name", "parameters", "request", "response", "result",
        "return", "returns", "server", "this", "tool", "tools", "using", "with",
    ]
}

pub open spec fn is_generic(term: Seq<char>) -> bool {
    exists|i: int| 0 <= i < generic_words().len() && (#[trigger] generic_words()[i])@ == term
}

fn is_generic_description_term(term: &str) -> (r: bool)
    ensures
        r == is_generic(term@),
{
    let words: [&str; 25] = [
        "about", "allows", "array", "available", "call", "calls", "data", "details", "from",
        "function", "information", "list", "name", "parameters", "request", "response", "result",
        "return", "returns", "server", "this", "tool", "tools", "using", "with",
    ];
    assert(words@ =~= generic_words());
    for i in 0..words.len()
        invariant
            words@ == generic_words(),
            forall|j: int| 0 <= j < i ==> (#[trigger] generic_words()[j])@ != term@,
    {
        assert(generic_words()[i as int] == words@[i as int]);
        if same(words[i], term) {
            return true;
        }
    }
    false
}

/// The ASCII words of a text in lower case.
pub open spec fn ascii_terms(s: Seq<char>) -> Seq<Seq<char>> {
    nonempty(pieces(s, CharClass::NotAsciiAlnum)).map_values(|w: Seq<char>| ascii_lower(w))
}

fn split_terms(value: &str) -> (r: Vec<String>)
    ensures
        views(r@) == ascii_terms(value@),
{
    let words = keep_nonempty(split_at_class(value, CharClass::NotAsciiAlnum));
    let ghost f = |w: Seq<char>| ascii_lower(w);
    let mut r: Vec<String> = Vec::new();
    for i in 0..words.len()
        invariant
            f == (|w: Seq<char>| ascii_lower(w)),
            views(r@) =~= views(words@).take(i as int).map_values(f),
    {
        let word = to_ascii_lower(&words[i]);
        proof {
            lemma_views_push(r@, word);
            assert(views(words@).take(i + 1).map_values(f) =~= views(words@).take(
                i as int,
            ).map_values(f).push(word@));
        }
        r.push(word);
    }
    assert(views(words@).take(words@.len() as int) =~= views(words@));
    r
}

/// A word of a remote tool's name that a question has.
pub open spec fn name_term_hits(query: Seq<char>) -> spec_fn(Seq<char>) -> bool {
    |t: Seq<char>| byte_len(t) >= 3 && has_search_term(query, t)
}

/// A telling word of a tool's description that a question has.
pub open spec fn description_term_hits(query: Seq<char>) -> spec_fn(Seq<char>) -> bool {
    |t: Seq<char>| byte_len(t) >= 4 && !is_generic(t) && has_search_term(query, t)
}

/// The server and the remote name in the name of a remote tool.
pub open spec fn remote_parts(name: Seq<char>) -> Option<(Seq<char>, Seq<char>)> {
    match after_prefix(name, "mcp__"@) {
        Some(rest) => halves(rest, "__"@),
        None => None,
    }
}

/// How much a remote tool has to do with a question.
pub open spec fn relevance(name: Seq<char>, description: Seq<char>, query: Seq<char>) -> nat {
    match remote_parts(name) {
        None => 0,
        Some((server, remote)) => {
            (if has_text(query, normalized(server)) {
                80nat
            } else {
                0
            }) + (if server_fits(server, query) {
                60nat
            } else {
                0
            }) + 18 * ascii_terms(remote).filter(name_term_hits(query)).len() + 3 * ascii_terms(
                description,
            ).filter(description_term_hits(query)).len() + intent_score(
                normalized(remote),
                query,
                intents(),
            )
        },
    }
}

fn count_name_hits(terms: &Vec<String>, query: &str, of_name: bool) -> (r: usize)
    ensures
        r == views(terms@).filter(
            if of_name {
                name_term_hits(query@)
            } else {
                description_term_hits(query@)
            },
        ).len(),
{
    let ghost all = views(terms@);
    let ghost p = if of_name {
        name_term_hits(query@)
    } else {
        description_term_hits(query@)
    };
    let mut n: usize = 0;
    proof {
        crate::seqs::lemma_filter_empty(all, p);
    }
    for i in 0..terms.len()
        invariant
            all == views(terms@),
            p == if of_name {
                name_term_hits(query@)
            } else {
                description_term_hits(query@)
            },
            n <= i,
            n == all.take(i as int).filter(p).len(),
    {
        proof {
            crate::seqs::lemma_filter_step(all, i as int, p);
            assert(all[i as int] == terms@[i as int]@);
        }
        let length: usize = utf8_len(&terms[i]);
        let hit = if of_name {
            length >= 3 && contains_search_term(query, &terms[i])
        } else {
            length >= 4 && !is_generic_description_term(&terms[i]) && contains_search_term(
                query,
                &terms[i],
            )
        };
        assert(hit == p(all[i as int]));
        if hit {
            n += 1;
        }
    }
    assert(all.take(terms@.len() as int) =~= all);
    n
}

fn score_mcp_tool(name: &str, description: &str, query: &str) -> (r: u128)
    ensures
        r == relevance(name@, description@, query@),
{
    let parts = match strip_prefix(name, "mcp__") {
        Some(rest) => split_once(&rest, "__"),
        None => None,
    };
    let (server, remote) = match parts {
        Some(p) => p,
        None => {
            return 0;
        },
    };
    let mut score: u128 = 0;
    if contains(query, &normalize(&server)) {
        score = score + 80;
    }
    if server_intent_matches(&server, query) {
        score = score + 60;
    }
    let names: usize = count_name_hits(&split_terms(&remote), query, true);
    let words: usize = count_name_hits(&split_terms(description), query, false);
    score + 18 * (names as u128) + 3 * (words as u128) + tool_intent_score(&remote, query)
}

/// A remote tool to be shown, with its score and name.
#[verifier::ext_equal]
pub struct RankedView {
    pub score: nat,
    pub name: Seq<char>,
    pub tool: JsonView,
}

struct RankedTool {
    score: u128,
    name: String,
    tool: Json,
}

impl View for RankedTool {
    type V = RankedView;

    closed spec fn view(&self) -> RankedView {
        RankedView { score: self.score as nat, name: self.name@, tool: self.tool@ }
    }
}

pub closed spec fn ranked_tools(v: Seq<RankedTool>) -> Seq<RankedView> {
    v.map_values(|t: RankedTool| t@)
}

/// A higher score comes first, then the name.
pub open spec fn shows_before(a: RankedView, b: RankedView) -> bool {
    a.score > b.score || (a.score == b.score && text_order(a.name, b.name) == Order::Less)
}

/// A ranking with one more tool, behind those it does not come before.
pub open spec fn insert_tool(s: Seq<RankedView>, x: RankedView) -> Seq<RankedView>
    decreases s.len(),
{
    if s.len() == 0 {
        seq![x]
    } else if shows_before(x, s[0]) {
        seq![x] + s
    } else {
        seq![s[0]] + insert_tool(s.skip(1), x)
    }
}

fn add_tool(list: &mut Vec<RankedTool>, x: RankedTool)
    ensures
        ranked_tools(final(list)@) == insert_tool(ranked_tools(old(list)@), x@),
{
    let ghost all = ranked_tools(list@);
    let mut i: usize = 0;
    assert(all.skip(0) =~= all);
    assert(all.take(0) + insert_tool(all, x@) =~= insert_tool(all, x@));
    while i < list.len()
        invariant
            i <= list@.len(),
            all == ranked_tools(list@),
            list@ == old(list)@,
            insert_tool(all, x@) == all.take(i as int) + insert_tool(all.skip(i as int), x@),
        ensures
            i <= list@.len(),
            all == ranked_tools(list@),
            list@ == old(list)@,
            insert_tool(all, x@) == all.take(i as int) + (seq![x@] + all.skip(i as int)),
        decreases list@.len() - i,
    {
        let ghost rest = all.skip(i as int);
        assert(rest[0] == list@[i as int]@);
        let first = x.score > list[i].score || (x.score == list[i].score && order_texts(
            &x.name,
            &list[i].name,
        ) == Order::Less);
        if first {
            break;
        }
        proof {
            assert(rest.skip(1) =~= all.skip(i + 1));
            assert(all.take(i as int) + (seq![rest[0]] + insert_tool(rest.skip(1), x@))
                =~= all.take(i + 1) + insert_tool(all.skip(i + 1), x@));
            if i + 1 == list@.len() {
                assert(insert_tool(all.skip(i + 1), x@) =~= seq![x@] + all.skip(i + 1));
            }
        }
        i += 1;
    }
    proof {
        if list@.len() == 0 {
            assert(insert_tool(all, x@) =~= all.take(0) + (seq![x@] + all.skip(0)));
        }
        assert(ranked_tools(list@.insert(i as int, x)) =~= all.take(i as int) + (seq![x@]
            + all.skip(i as int)));
    }
    list.insert(i, x);
}

/// The position of the latest question.
pub open spec fn latest_user(ms: Seq<MessageView>) -> Option<int>
    decreases ms.len(),
{
    if ms.len() == 0 {
        None
    } else if ms.last() is User {
        Some(ms.len() - 1)
    } else {
        latest_user(ms.drop_last())
    }
}

pub proof fn lemma_latest_user(ms: Seq<MessageView>)
    ensures
        latest_user(ms) matches Some(i) ==> 0 <= i < ms.len() && ms[i] is User,
    decreases ms.len(),
{
    if ms.len() > 0 && !(ms.last() is User) {
        lemma_latest_user(ms.drop_last());
    }
}

/// The latest question, normalized; nothing where there is none.
pub open spec fn routing_query(ms: Seq<MessageView>) -> Seq<char> {
    match latest_user(ms) {
        Some(i) => normalized(ms[i]->User_content),
        None => Seq::empty(),
    }
}

/// Some call of the messages has that name.
pub open spec fn calls_name(ms: Seq<MessageView>, name: Seq<char>) -> bool {
    exists|i: int, j: int|
        0 <= i < ms.len() && ms[i] is Assistant && 0 <= j < ms[i]->Assistant_tool_calls.len()
            && (#[trigger] ms[i]->Assistant_tool_calls[j]).name == name
}

/// The tool was called since the latest question.
pub open spec fn called_in_turn(ms: Seq<MessageView>, name: Seq<char>) -> bool {
    match latest_user(ms) {
        Some(i) => calls_name(ms.skip(i), name),
        None => false,
    }
}

/// The description of a tool's schema, empty where there is none.
pub open spec fn schema_description(tool: JsonView) -> Seq<char> {
    match tool.at("function"@).at("description"@).as_text() {
        Some(t) => t,
        None => Seq::empty(),
    }
}

/// Remote tools that must be shown: the question names them, or they were
/// called since.
pub open spec fn is_required(ms: Seq<MessageView>, name: Seq<char>) -> bool {
    has_text(routing_query(ms), ascii_lower(name)) || called_in_turn(ms, name)
}

/// Local tools that are shown for a question.
pub open spec fn is_shown_core(ms: Seq<MessageView>, name: Seq<char>) -> bool {
    has_text(routing_query(ms), ascii_lower(name)) || core_tool_fits(name, routing_query(ms))
}

/// The tools sorted by why they are shown.
#[verifier::ext_equal]
pub struct Routing {
    pub core: Seq<JsonView>,
    pub required: Seq<RankedView>,
    pub relevant: Seq<RankedView>,
}

impl Routing {
    /// Files one more tool. A tool without a name is dropped.
    pub open spec fn file(self, ms: Seq<MessageView>, tool: JsonView) -> Routing {
        match schema_name(tool) {
            None => self,
            Some(name) => if !has_prefix(name, "mcp__"@) {
                if is_shown_core(ms, name) {
                    Routing { core: self.core.push(tool), ..self }
                } else {
                    self
                }
            } else if is_required(ms, name) {
                Routing {
                    required: insert_tool(self.required, RankedView { score: 0, name, tool }),
                    ..self
                }
            } else {
                let score = relevance(name, schema_description(tool), routing_query(ms));
                if score > 0 {
                    Routing {
                        relevant: insert_tool(self.relevant, RankedView { score, name, tool }),
                        ..self
                    }
                } else {
                    self
                }
            },
        }
    }

    /// The tools in the order they are shown: the local ones, those required,
    /// and the most relevant of the others as far as the limit allows.
    pub open spec fn shown(self, limit: int) -> Seq<JsonView> {
        let room = if self.required.len() < limit {
            limit - self.required.len()
        } else {
            0
        };
        let extra = if self.relevant.len() <= room {
            self.relevant
        } else {
            self.relevant.take(room)
        };
        self.core + self.required.map_values(|t: RankedView| t.tool) + extra.map_values(
            |t: RankedView| t.tool,
        )
    }
}

pub open spec fn routing(ms: Seq<MessageView>, tools: Seq<JsonView>) -> Routing
    decreases tools.len(),
{
    if tools.len() == 0 {
        Routing { core: Seq::empty(), required: Seq::empty(), relevant: Seq::empty() }
    } else {
        routing(ms, tools.drop_last()).file(ms, tools.last())
    }
}

/// The tools that a model gets to see. What is no array stays as it is.
pub open spec fn routed(ms: Seq<MessageView>, tools: JsonView, limit: int) -> JsonView {
    match tools {
        JsonView::Array(items) => JsonView::Array(routing(ms, items).shown(limit)),
        other => other,
    }
}

fn called_since(messages: &[Message], from: usize, name: &str) -> (r: bool)
    requires
        from <= messages@.len(),
    ensures
        r == calls_name(messages_view(messages@).skip(from as int), name@),
{
    let ghost tail = messages_view(messages@).skip(from as int);
    let wanted = name.to_owned();
    for i in from..messages.len()
        invariant
            from <= messages@.len(),
            wanted@ == name@,
            tail == messages_view(messages@).skip(from as int),
            forall|a: int, b: int|
                0 <= a < i - from && tail[a] is Assistant && 0 <= b
                    < tail[a]->Assistant_tool_calls.len() ==> (
                #[trigger] tail[a]->Assistant_tool_calls[b]).name != name@,
    {
        assert(tail[i - from] == messages@[i as int]@);
        if let Message::Assistant { content: _, tool_calls } = &messages[i] {
            let ghost calls = calls_view(tool_calls@);
            assert(tail[i - from]->Assistant_tool_calls == calls);
            for j in 0..tool_calls.len()
                invariant
                    from <= i < messages@.len(),
                    wanted@ == name@,
                    tail == messages_view(messages@).skip(from as int),
                    calls == calls_view(tool_calls@),
                    tail[i - from] is Assistant,
                    tail[i - from]->Assistant_tool_calls == calls,
                    forall|b: int| 0 <= b < j ==> (#[trigger] calls[b]).name != name@,
            {
                assert(calls[j as int] == tool_calls@[j as int]@);
                if tool_calls[j].name == wanted {
                    assert(tail[i - from]->Assistant_tool_calls[j as int].name == name@);
                    return true;
                }
            }
        }
    }
    false
}

fn latest_user_index(messages: &[Message]) -> (r: Option<usize>)
    ensures
        match r {
            Some(i) => latest_user(messages_view(messages@)) == Some(i as int) && i
                < messages@.len(),
            None => latest_user(messages_view(messages@)) is None,
        },
{
    let ghost all = messages_view(messages@);
    let mut i: usize = messages.len();
    assert(all.take(i as int) =~= all);
    while i > 0
        invariant
            i <= messages@.len(),
            all == messages_view(messages@),
            latest_user(all) == latest_user(all.take(i as int)),
        decreases i,
    {
        i -= 1;
        assert(all.take(i + 1).drop_last() =~= all.take(i as int));
        assert(all.take(i + 1).last() == messages@[i as int]@);
        if let Message::User { content: _ } = &messages[i] {
            return Some(i);
        }
    }
    None
}

fn description_of_schema(tool: &Json) -> (r: String)
    ensures
        r@ == schema_description(tool@),
{
    match tool.get("function") {
        Some(f) => match f.text_at("description") {
            Some(t) => t.to_owned(),
            None => String::new(),
        },
        None => String::new(),
    }
}

/// The tools that a model gets to see for the latest question.
pub fn route(messages: &[Message], tools: &Json) -> (r: Json)
    ensures
        r@ == routed(messages_view(messages@), tools@, DEFAULT_MAX_MCP_TOOLS as int),
{
    route_with_limit(messages, tools, DEFAULT_MAX_MCP_TOOLS)
}

/// The tools that a model gets to see, with at most `max_mcp_tools` remote
/// ones for their relevance.
pub fn route_with_limit(messages: &[Message], tools: &Json, max_mcp_tools: usize) -> (r: Json)
    ensures
        r@ == routed(messages_view(messages@), tools@, max_mcp_tools as int),
{
    let items = match tools {
        Json::Array(items) => items,
        _ => {
            return tools.copy();
        },
    };
    proof {
        lemma_array_view(*items);
        lemma_latest_user(messages_view(messages@));
    }
    let ghost ms = messages_view(messages@);
    let latest = latest_user_index(messages);
    let query = match latest {
        Some(i) => match &messages[i] {
            Message::User { content } => normalize(content),
            _ => String::new(),
        },
        None => String::new(),
    };
    assert(query@ =~= routing_query(ms));
    let ghost all = items_view(items@);
    let mut core: Vec<Json> = Vec::new();
    let mut required: Vec<RankedTool> = Vec::new();
    let mut relevant: Vec<RankedTool> = Vec::new();
    proof {
        assert(all.take(0) =~= Seq::empty());
        assert(items_view(core@) =~= Seq::empty());
        assert(ranked_tools(required@) =~= Seq::empty());
        assert(ranked_tools(relevant@) =~= Seq::empty());
    }
    for k in 0..items.len()
        invariant
            ms == messages_view(messages@),
            all == items_view(items@),
            query@ == routing_query(ms),
            match latest {
                Some(i) => latest_user(ms) == Some(i as int) && i < messages@.len(),
                None => latest_user(ms) is None,
            },
            (Routing {
                core: items_view(core@),
                required: ranked_tools(required@),
                relevant: ranked_tools(relevant@),
            }) == routing(ms, all.take(k as int)),
    {
        let tool = &items[k];
        proof {
            assert(all.take(k + 1).drop_last() =~= all.take(k as int));
            assert(all.take(k + 1).last() == tool@);
        }
        if let Some(name) = name_of_schema(tool) {
            let named = contains(&query, &to_ascii_lower(name));
            if !starts_with(name, "mcp__") {
                if named || route_core_tool(name, &query) {
                    let copy = tool.copy();
                    assert(items_view(core@.push(copy)) =~= items_view(core@).push(copy@));
                    core.push(copy);
                }
            } else {
                let called = match latest {
                    Some(i) => called_since(messages, i, name),
                    None => false,
                };
                if named || called {
                    add_tool(
                        &mut required,
                        RankedTool { score: 0, name: name.to_owned(), tool: tool.copy() },
                    );
                } else {
                    let score: u128 = score_mcp_tool(name, &description_of_schema(tool), &query);
                    if score > 0 {
                        add_tool(
                            &mut relevant,
                            RankedTool { score, name: name.to_owned(), tool: tool.copy() },
                        );
                    }
                }
            }
        }
    }
    assert(all.take(items@.len() as int) =~= all);
    let ghost plan = routing(ms, all);
    let room: usize = max_mcp_tools.saturating_sub(required.len());
    let ghost f = |t: RankedView| t.tool;
    let mut shown = core;
    let ghost start = items_view(shown@);
    for k in 0..required.len()
        invariant
            f == (|t: RankedView| t.tool),
            items_view(shown@) =~= start + ranked_tools(required@).take(k as int).map_values(f),
    {
        let copy = required[k].tool.copy();
        assert(ranked_tools(required@)[k as int] == required@[k as int]@);
        assert(items_view(shown@.push(copy)) =~= items_view(shown@).push(copy@));
        assert(ranked_tools(required@).take(k + 1).map_values(f) =~= ranked_tools(required@).take(
            k as int,
        ).map_values(f).push(copy@));
        shown.push(copy);
    }
    assert(ranked_tools(required@).take(required@.len() as int) =~= ranked_tools(required@));
    let ghost middle = items_view(shown@);
    let end: usize = if relevant.len() < room {
        relevant.len()
    } else {
        room
    };
    for k in 0..end
        invariant
            f == (|t: RankedView| t.tool),
            end <= relevant@.len(),
            items_view(shown@) =~= middle + ranked_tools(relevant@).take(k as int).map_values(f),
    {
        let copy = relevant[k].tool.copy();
        assert(ranked_tools(relevant@)[k as int] == relevant@[k as int]@);
        assert(items_view(shown@.push(copy)) =~= items_view(shown@).push(copy@));
        assert(ranked_tools(relevant@).take(k + 1).map_values(f) =~= ranked_tools(relevant@).take(
            k as int,
        ).map_values(f).push(copy@));
        shown.push(copy);
    }
    proof {
        let extra = if plan.relevant.len() <= room {
            plan.relevant
        } else {
            plan.relevant.take(room as int)
        };
        assert(ranked_tools(relevant@).take(end as int) =~= extra);
        assert(items_view(shown@) =~= plan.shown(max_mcp_tools as int));
    }
    Json::array(shown)
}

} // verus!
