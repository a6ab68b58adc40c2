//! Finding files by name and lines by pattern.
use vstd::prelude::*;
use crate::json::{Json, JsonView};
use crate::paths::{order_texts, text_order, Order};
use crate::text::chars::{lemma_views_push, views};
use crate::text::number::{dec, decimal_size};
use crate::text::pieces::{lines, lines_spec};
use crate::text::search::{join, join_spec};
use crate::tools::files::{filled_argument, number_argument, optional_usize, required_string, MAX_FILE_BYTES, MAX_SEARCH_RESULTS};
use crate::tools::output::{success, ToolOutput};

verus! {

/// A compiled set of globs.
#[verifier::external_type_specification]
#[verifier::external_body]
pub struct ExGlobSet(globset::GlobSet);

/// A compiled regular expression.
#[verifier::external_type_specification]
#[verifier::external_body]
pub struct ExRegex(regex::Regex);

/// The paths that a compiled glob accepts.
pub uninterp spec fn glob_paths(set: globset::GlobSet) -> Set<Seq<char>>;

/// The paths that a glob accepts, or the message of its error.
pub uninterp spec fn glob_meaning(pattern: Seq<char>) -> Result<Set<Seq<char>>, Seq<char>>;

/// The lines in which a compiled expression finds a match.
pub uninterp spec fn regex_lines(regex: regex::Regex) -> Set<Seq<char>>;

/// The lines in which an expression finds a match, or the message of its
/// error.
pub uninterp spec fn regex_meaning(pattern: Seq<char>, ignore_case: bool) -> Result<
    Set<Seq<char>>,
    Seq<char>,
>;

/// `globset::Glob::new`, compiled as a set of one so that a glob that is too
/// large is an error and no panic. What it accepts depends on the pattern
/// alone.
#[verifier::external_body]
fn compile_glob(pattern: &str) -> (r: Result<globset::GlobSet, String>)
    ensures
        match r {
            Ok(set) => glob_meaning(pattern@) == Ok::<Set<Seq<char>>, Seq<char>>(glob_paths(set)),
            Err(e) => glob_meaning(pattern@) == Err::<Set<Seq<char>>, Seq<char>>(e@),
        },
{
    let glob = globset::Glob::new(pattern).map_err(|e| e.to_string())?;
    globset::GlobSet::builder().add(glob).build().map_err(|e| e.to_string())
}

/// `globset::GlobSet::is_match`: whether a path is accepted.
#[verifier::external_body]
fn glob_accepts(set: &globset::GlobSet, path: &str) -> (r: bool)
    ensures
        r == glob_paths(*set).contains(path@),
{
    set.is_match(path)
}

/// `regex::RegexBuilder::build`: what the expression matches depends on the
/// pattern and on whether case is ignored alone.
#[verifier::external_body]
fn compile_regex(pattern: &str, ignore_case: bool) -> (r: Result<regex::Regex, String>)
    ensures
        match r {
            Ok(re) => regex_meaning(pattern@, ignore_case) == Ok::<Set<Seq<char>>, Seq<char>>(
                regex_lines(re),
            ),
            Err(e) => regex_meaning(pattern@, ignore_case) == Err::<Set<Seq<char>>, Seq<char>>(
                e@,
            ),
        },
{
    regex::RegexBuilder::new(pattern).case_insensitive(ignore_case).build().map_err(
        |e| e.to_string(),
    )
}

/// `regex::Regex::is_match`: whether there is a match in a line.
#[verifier::external_body]
fn regex_accepts(re: &regex::Regex, line: &str) -> (r: bool)
    ensures
        r == regex_lines(*re).contains(line@),
{
    re.is_match(line)
}

/// The results one to a line, or a note that there are none.
pub open spec fn result_list(results: Seq<Seq<char>>) -> Seq<char> {
    if results.len() == 0 {
        "(无匹配结果)"@
    } else {
        join_spec(results, "\n"@)
    }
}

/// The results one to a line, or a note that there are none.
pub fn no_results_or_join(results: &Vec<String>) -> (r: String)
    ensures
        r@ == result_list(views(results@)),
{
    if results.len() == 0 {
        "(无匹配结果)".to_owned()
    } else {
        join(results, "\n")
    }
}

/// A text in its place among sorted ones.
pub open spec fn insert_text(s: Seq<Seq<char>>, x: Seq<char>) -> Seq<Seq<char>>
    decreases s.len(),
{
    if s.len() == 0 {
        seq![x]
    } else if text_order(x, s[0]) == Order::Less {
        seq![x] + s
    } else {
        seq![s[0]] + insert_text(s.skip(1), x)
    }
}

/// The texts in order.
pub open spec fn sorted_texts(s: Seq<Seq<char>>) -> Seq<Seq<char>>
    decreases s.len(),
{
    if s.len() == 0 {
        Seq::empty()
    } else {
        insert_text(sorted_texts(s.drop_last()), s.last())
    }
}

fn add_text(list: &mut Vec<String>, x: String)
    ensures
        views(final(list)@) == insert_text(views(old(list)@), x@),
{
    let ghost all = views(list@);
    let mut i: usize = 0;
    assert(all.skip(0) =~= all);
    assert(all.take(0) + insert_text(all, x@) =~= insert_text(all, x@));
    while i < list.len() && order_texts(&x, &list[i]) != Order::Less
        invariant
            i <= list@.len(),
            all == views(list@),
            list@ == old(list)@,
            insert_text(all, x@) == all.take(i as int) + insert_text(all.skip(i as int), x@),
        decreases list@.len() - i,
    {
        let ghost rest = all.skip(i as int);
        proof {
            assert(rest[0] == list@[i as int]@);
            assert(rest.skip(1) =~= all.skip(i + 1));
            assert(all.take(i as int) + (seq![rest[0]] + insert_text(rest.skip(1), x@))
                =~= all.take(i + 1) + insert_text(all.skip(i + 1), x@));
        }
        i += 1;
    }
    proof {
        let rest = all.skip(i as int);
        if rest.len() > 0 {
            assert(rest[0] == list@[i as int]@);
        }
        assert(insert_text(rest, x@) =~= seq![x@] + rest);
        assert(views(list@.insert(i as int, x)) =~= all.take(i as int) + (seq![x@] + rest));
    }
    list.insert(i, x);
}

/// The texts in order.
pub fn sort_texts(list: &Vec<String>) -> (r: Vec<String>)
    ensures
        views(r@) == sorted_texts(views(list@)),
{
    let ghost all = views(list@);
    let mut r: Vec<String> = Vec::new();
    assert(views(r@) =~= sorted_texts(all.take(0)));
    for i in 0..list.len()
        invariant
            all == views(list@),
            views(r@) == sorted_texts(all.take(i as int)),
    {
        assert(all.take(i + 1).drop_last() =~= all.take(i as int));
        assert(all.take(i + 1).last() == list@[i as int]@);
        add_text(&mut r, list[i].clone());
    }
    assert(all.take(list@.len() as int) =~= all);
    r
}

/// A file that was come across: its path from the start of the search, and
/// how it is shown.
#[derive(Clone, Debug, PartialEq)]
pub struct FoundFile {
    pub relative: String,
    pub shown: String,
}

/// The shown paths of the first files that a glob accepts, at most `limit`.
pub open spec fn accepted(files: Seq<FoundFile>, paths: Set<Seq<char>>, limit: int) -> Seq<Seq<char>>
    decreases files.len(),
{
    if files.len() == 0 {
        Seq::empty()
    } else {
        let before = accepted(files.drop_last(), paths, limit);
        if before.len() < limit && paths.contains(files.last().relative@) {
            before.push(files.last().shown@)
        } else {
            before
        }
    }
}

/// The shown paths of the first files that are marked, at most `limit`.
pub open spec fn picked(files: Seq<FoundFile>, marks: Seq<bool>, limit: int) -> Seq<Seq<char>>
    decreases files.len(),
{
    if files.len() == 0 {
        Seq::empty()
    } else {
        let before = picked(files.drop_last(), marks, limit);
        if before.len() < limit && marks[files.len() - 1] {
            before.push(files.last().shown@)
        } else {
            before
        }
    }
}

proof fn lemma_picked(files: Seq<FoundFile>, marks: Seq<bool>, paths: Set<Seq<char>>, limit: int)
    requires
        files.len() <= marks.len(),
        forall|i: int|
            0 <= i < files.len() ==> marks[i] == paths.contains((#[trigger] files[i]).relative@),
    ensures
        picked(files, marks, limit) == accepted(files, paths, limit),
    decreases files.len(),
{
    if files.len() > 0 {
        let front = files.drop_last();
        assert forall|i: int| 0 <= i < front.len() implies marks[i] == paths.contains(
            (#[trigger] front[i]).relative@,
        ) by {
            assert(front[i] == files[i]);
        }
        lemma_picked(front, marks, paths, limit);
        assert(files[files.len() - 1] == files.last());
    }
}

/// The output for the files that are marked: the first ones, in order.
pub fn list_picked(files: &Vec<FoundFile>, marks: &Vec<bool>) -> (r: ToolOutput)
    requires
        marks@.len() == files@.len(),
    ensures
        r@ == success(
            result_list(sorted_texts(picked(files@, marks@, MAX_SEARCH_RESULTS as int))),
        ),
{
    let mut found: Vec<String> = Vec::new();
    let ghost limit = MAX_SEARCH_RESULTS as int;
    assert(views(found@) =~= picked(files@.take(0), marks@, limit));
    for i in 0..files.len()
        invariant
            limit == MAX_SEARCH_RESULTS,
            marks@.len() == files@.len(),
            views(found@) == picked(files@.take(i as int), marks@, limit),
    {
        assert(files@.take(i + 1).drop_last() =~= files@.take(i as int));
        assert(views(found@).len() == found@.len());
        if found.len() < MAX_SEARCH_RESULTS && marks[i] {
            let shown = files[i].shown.clone();
            proof {
                lemma_views_push(found@, shown);
            }
            found.push(shown);
        }
    }
    assert(files@.take(files@.len() as int) =~= files@);
    ToolOutput::success(no_results_or_join(&sort_texts(&found)))
}

/// A search for files by name.
pub struct GlobQuery {
    set: globset::GlobSet,
}

/// The paths that the arguments of a call ask for, or why there are none.
pub open spec fn glob_spec(args: JsonView) -> Result<Set<Seq<char>>, Seq<char>> {
    match filled_argument(args, "pattern"@) {
        Err(e) => Err(e),
        Ok(pattern) => match glob_meaning(pattern) {
            Ok(paths) => Ok(paths),
            Err(e) => Err("无效 Glob pattern: "@ + pattern + ": "@ + e),
        },
    }
}

impl GlobQuery {
    pub closed spec fn paths(&self) -> Set<Seq<char>> {
        glob_paths(self.set)
    }

    /// The search that the arguments of a call ask for.
    pub fn from_args(args: &Json) -> (r: Result<GlobQuery, String>)
        ensures
            match r {
                Ok(q) => glob_spec(args@) == Ok::<Set<Seq<char>>, Seq<char>>(q.paths()),
                Err(e) => glob_spec(args@) == Err::<Set<Seq<char>>, Seq<char>>(e@),
            },
    {
        let pattern = match required_string(args, "pattern") {
            Ok(t) => t,
            Err(e) => {
                return Err(e);
            },
        };
        match compile_glob(&pattern) {
            Ok(set) => Ok(GlobQuery { set }),
            Err(e) => {
                let mut text = "无效 Glob pattern: ".to_owned();
                text.append(pattern.as_str());
                text.append(": ");
                text.append(e.as_str());
                Err(text)
            },
        }
    }

    /// The output of the search over the files that were come across: the
    /// first ones that it accepts, in order.
    pub fn run(&self, files: &Vec<FoundFile>) -> (r: ToolOutput)
        ensures
            r@ == success(
                result_list(
                    sorted_texts(accepted(files@, self.paths(), MAX_SEARCH_RESULTS as int)),
                ),
            ),
    {
        let mut marks: Vec<bool> = Vec::new();
        for i in 0..files.len()
            invariant
                marks@.len() == i,
                forall|j: int|
                    0 <= j < i ==> marks@[j] == self.paths().contains(
                        (#[trigger] files@[j]).relative@,
                    ),
        {
            marks.push(glob_accepts(&self.set, &files[i].relative));
        }
        proof {
            lemma_picked(files@, marks@, self.paths(), MAX_SEARCH_RESULTS as int);
        }
        list_picked(files, &marks)
    }
}

/// A search for lines by pattern, in the files that a glob accepts.
pub struct GrepQuery {
    regex: regex::Regex,
    glob: Option<globset::GlobSet>,
    limit: usize,
}

/// What a search for lines looks for.
pub struct GrepView {
    pub lines: Set<Seq<char>>,
    pub paths: Option<Set<Seq<char>>>,
    pub limit: usize,
}

/// The search that the arguments of a call ask for, or why there is none.
pub open spec fn grep_spec(args: JsonView) -> Result<GrepView, Seq<char>> {
    match filled_argument(args, "pattern"@) {
        Err(e) => Err(e),
        Ok(pattern) => {
            let ignore_case = args.at("case_insensitive"@).as_bool() == Some(true);
            match regex_meaning(pattern, ignore_case) {
                Err(e) => Err("无效正则表达式: "@ + pattern + ": "@ + e),
                Ok(lines) => {
                    let glob = match args.at("glob"@).as_text() {
                        Some(g) => match glob_meaning(g) {
                            Ok(paths) => Ok::<Option<Set<Seq<char>>>, Seq<char>>(Some(paths)),
                            Err(e) => Err("无效 glob 过滤器: "@ + e),
                        },
                        None => Ok(None),
                    };
                    match glob {
                        Err(e) => Err(e),
                        Ok(paths) => match number_argument(args, "max_results"@) {
                            Err(e) => Err(e),
                            Ok(n) => {
                                let asked = match n {
                                    Some(k) => k,
                                    None => 200,
                                };
                                let limit = if asked < 1 {
                                    1
                                } else if asked > MAX_SEARCH_RESULTS {
                                    MAX_SEARCH_RESULTS
                                } else {
                                    asked
                                };
                                Ok(GrepView { lines, paths, limit })
                            },
                        },
                    }
                },
            }
        },
    }
}

/// The hits among the lines of a file, behind those found before, at most
/// `limit` in all.
pub open spec fn file_hits(
    before: Seq<Seq<char>>,
    shown: Seq<char>,
    all: Seq<Seq<char>>,
    wanted: Set<Seq<char>>,
    limit: int,
) -> Seq<Seq<char>>
    decreases all.len(),
{
    if all.len() == 0 {
        before
    } else {
        let hits = file_hits(before, shown, all.drop_last(), wanted, limit);
        if hits.len() < limit && wanted.contains(all.last()) {
            hits.push(shown + ":"@ + dec(all.len()) + ":"@ + all.last())
        } else {
            hits
        }
    }
}

/// The hits with those of a file whose lines are marked, as far as the limit
/// allows.
pub open spec fn marked_hits(
    before: Seq<Seq<char>>,
    shown: Seq<char>,
    all: Seq<Seq<char>>,
    marks: Seq<bool>,
    limit: int,
) -> Seq<Seq<char>>
    decreases all.len(),
{
    if all.len() == 0 {
        before
    } else {
        let so_far = marked_hits(before, shown, all.drop_last(), marks, limit);
        if so_far.len() < limit && marks[all.len() - 1] {
            so_far.push(shown + ":"@ + dec(all.len()) + ":"@ + all.last())
        } else {
            so_far
        }
    }
}

proof fn lemma_marked_hits(
    before: Seq<Seq<char>>,
    shown: Seq<char>,
    all: Seq<Seq<char>>,
    marks: Seq<bool>,
    wanted: Set<Seq<char>>,
    limit: int,
)
    requires
        all.len() <= marks.len(),
        forall|i: int| 0 <= i < all.len() ==> marks[i] == wanted.contains(#[trigger] all[i]),
    ensures
        marked_hits(before, shown, all, marks, limit) == file_hits(
            before,
            shown,
            all,
            wanted,
            limit,
        ),
    decreases all.len(),
{
    if all.len() > 0 {
        let front = all.drop_last();
        assert forall|i: int| 0 <= i < front.len() implies marks[i] == wanted.contains(
            #[trigger] front[i],
        ) by {
            assert(front[i] == all[i]);
        }
        lemma_marked_hits(before, shown, front, marks, wanted, limit);
        assert(all[all.len() - 1] == all.last());
    }
}

/// Adds the marked lines of a file to the hits, as far as the limit allows.
pub fn add_hits(
    shown: &str,
    list: &Vec<String>,
    marks: &Vec<bool>,
    limit: usize,
    hits: &mut Vec<String>,
)
    requires
        marks@.len() == list@.len(),
    ensures
        views(final(hits)@) == marked_hits(
            views(old(hits)@),
            shown@,
            views(list@),
            marks@,
            limit as int,
        ),
{
    let ghost all = views(list@);
    let ghost start = views(hits@);
    let count: usize = list.len();
    assert(all.take(0) =~= Seq::empty());
    for i in 0..count
        invariant
            count == list@.len(),
            marks@.len() == list@.len(),
            all == views(list@),
            views(hits@) == marked_hits(start, shown@, all.take(i as int), marks@, limit as int),
    {
        assert(all.take(i + 1).drop_last() =~= all.take(i as int));
        assert(all.take(i + 1).last() == list@[i as int]@);
        assert(views(hits@).len() == hits@.len());
        if hits.len() < limit && marks[i] {
            let mut hit = shown.to_owned();
            hit.append(":");
            hit.append(decimal_size(i + 1).as_str());
            hit.append(":");
            hit.append(list[i].as_str());
            proof {
                lemma_views_push(hits@, hit);
            }
            hits.push(hit);
        }
    }
    assert(all.take(count as int) =~= all);
}

impl GrepQuery {
    pub closed spec fn query(&self) -> GrepView {
        GrepView {
            lines: regex_lines(self.regex),
            paths: match self.glob {
                Some(g) => Some(glob_paths(g)),
                None => None,
            },
            limit: self.limit,
        }
    }

    /// The search that the arguments of a call ask for.
    pub fn from_args(args: &Json) -> (r: Result<GrepQuery, String>)
        ensures
            match r {
                Ok(q) => grep_spec(args@) == Ok::<GrepView, Seq<char>>(q.query()),
                Err(e) => grep_spec(args@) == Err::<GrepView, Seq<char>>(e@),
            },
    {
        let pattern = match required_string(args, "pattern") {
            Ok(t) => t,
            Err(e) => {
                return Err(e);
            },
        };
        let ignore_case = match args.bool_at("case_insensitive") {
            Some(b) => b,
            None => false,
        };
        let regex = match compile_regex(&pattern, ignore_case) {
            Ok(re) => re,
            Err(e) => {
                let mut text = "无效正则表达式: ".to_owned();
                text.append(pattern.as_str());
                text.append(": ");
                text.append(e.as_str());
                return Err(text);
            },
        };
        let glob = match args.text_at("glob") {
            Some(g) => match compile_glob(g) {
                Ok(set) => Some(set),
                Err(e) => {
                    let mut text = "无效 glob 过滤器: ".to_owned();
                    text.append(e.as_str());
                    return Err(text);
                },
            },
            None => None,
        };
        let asked: usize = match optional_usize(args, "max_results") {
            Ok(Some(n)) => n,
            Ok(None) => 200,
            Err(e) => {
                return Err(e);
            },
        };
        let limit: usize = if asked < 1 {
            1
        } else if asked > MAX_SEARCH_RESULTS {
            MAX_SEARCH_RESULTS
        } else {
            asked
        };
        Ok(GrepQuery { regex, glob, limit })
    }

    /// Whether a file is looked into.
    pub fn accepts_path(&self, relative: &str) -> (r: bool)
        ensures
            r == match self.query().paths {
                Some(paths) => paths.contains(relative@),
                None => true,
            },
    {
        match &self.glob {
            Some(set) => glob_accepts(set, relative),
            None => true,
        }
    }

    /// Whether a file is small enough to be looked into.
    pub fn accepts_size(&self, bytes: u64) -> (r: bool)
        ensures
            r == (bytes <= MAX_FILE_BYTES),
    {
        bytes <= MAX_FILE_BYTES
    }

    /// Adds the hits of a file, and says whether the limit is reached.
    pub fn scan(&self, shown: &str, content: &str, hits: &mut Vec<String>) -> (r: bool)
        ensures
            views(final(hits)@) == file_hits(
                views(old(hits)@),
                shown@,
                lines_spec(content@),
                self.query().lines,
                self.query().limit as int,
            ),
            r == (final(hits)@.len() >= self.query().limit),
    {
        let list = lines(content);
        let ghost q = self.query();
        let ghost start = views(hits@);
        let count: usize = list.len();
        let mut marks: Vec<bool> = Vec::new();
        for i in 0..count
            invariant
                count == list@.len(),
                q == self.query(),
                marks@.len() == i,
                forall|j: int|
                    0 <= j < i ==> marks@[j] == q.lines.contains((#[trigger] list@[j])@),
        {
            marks.push(regex_accepts(&self.regex, &list[i]));
        }
        proof {
            let all = views(list@);
            assert forall|j: int| 0 <= j < all.len() implies marks@[j] == q.lines.contains(
                #[trigger] all[j],
            ) by {
                assert(all[j] == list@[j]@);
            }
            lemma_marked_hits(start, shown@, all, marks@, q.lines, q.limit as int);
        }
        add_hits(shown, &list, &marks, self.limit, hits);
        hits.len() >= self.limit
    }
}

/// A search for lines hands back no more than it was asked for.
pub proof fn law_hits_within_the_limit(
    before: Seq<Seq<char>>,
    shown: Seq<char>,
    all: Seq<Seq<char>>,
    wanted: Set<Seq<char>>,
    limit: int,
)
    requires
        before.len() <= limit,
    ensures
        before.len() <= file_hits(before, shown, all, wanted, limit).len() <= limit,
    decreases all.len(),
{
    if all.len() > 0 {
        law_hits_within_the_limit(before, shown, all.drop_last(), wanted, limit);
    }
}

} // verus!
