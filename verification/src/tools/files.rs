//! Reading, writing and editing the text files of a workspace.
use vstd::prelude::*;
use crate::json::{json_parse, parse, Json, JsonView};
use crate::paths::{join_path, join_path_spec, relative_spec, relative_to, within, within_spec};
use crate::text::chars::{byte_len, lemma_views_push, utf8_len, views};
use crate::text::number::{dec, decimal, decimal_size};
use crate::text::pieces::{is_blank, lines, lines_spec, trim_spec};
use crate::text::search::{find_from, join, join_spec, replace_first, replace_first_spec, replace_spec, split, split_spec};
use crate::tools::output::{failure, success, OutputView, ToolOutput};

verus! {

/// The most bytes of a file that is read.
pub const MAX_FILE_BYTES: u64 = 10485760;

/// The most bytes that are written.
pub const MAX_WRITE_BYTES: usize = 5242880;

/// How many lines are read where nothing else is asked for.
pub const DEFAULT_READ_LINES: usize = 2000;

/// The most lines that are read at once.
pub const MAX_READ_LINES: usize = 5000;

/// The most results of a search.
pub const MAX_SEARCH_RESULTS: usize = 2000;

/// The outcome of an operation as views.
pub open spec fn told(r: Result<String, String>) -> Result<Seq<char>, Seq<char>> {
    match r {
        Ok(t) => Ok(t@),
        Err(e) => Err(e@),
    }
}

/// A value as the arguments of a call, which have to be an object.
pub open spec fn object_spec(v: JsonView) -> Result<JsonView, Seq<char>> {
    if v is Object {
        Ok(v)
    } else {
        Err("工具参数必须是 JSON Object"@)
    }
}

/// A value as the arguments of a call, which have to be an object.
pub fn object_arguments(value: Json) -> (r: Result<Json, String>)
    ensures
        match r {
            Ok(v) => object_spec(value@) == Ok::<JsonView, Seq<char>>(v@),
            Err(e) => object_spec(value@) == Err::<JsonView, Seq<char>>(e@),
        },
{
    let is_object = match &value {
        Json::Object(_) => true,
        _ => false,
    };
    if is_object {
        Ok(value)
    } else {
        Err("工具参数必须是 JSON Object".to_owned())
    }
}

/// The arguments of a call, or why they are none.
pub open spec fn arguments_spec(raw: Seq<char>) -> Result<JsonView, Seq<char>> {
    match json_parse(raw) {
        Ok(v) => object_spec(v),
        Err(e) => Err(e),
    }
}

/// The arguments of a call.
pub fn parse_arguments(raw_args: &str) -> (r: Result<Json, String>)
    ensures
        match r {
            Ok(v) => arguments_spec(raw_args@) == Ok::<JsonView, Seq<char>>(v@),
            Err(e) => arguments_spec(raw_args@) == Err::<JsonView, Seq<char>>(e@),
        },
{
    match parse(raw_args) {
        Ok(v) => object_arguments(v),
        Err(e) => Err(e),
    }
}

/// The message for a missing text.
pub open spec fn missing_text(name: Seq<char>) -> Seq<char> {
    "缺少字符串参数 "@ + name
}

/// The text of an argument, which may be empty.
pub open spec fn text_argument(args: JsonView, name: Seq<char>) -> Result<Seq<char>, Seq<char>> {
    match args.at(name).as_text() {
        Some(t) => Ok(t),
        None => Err(missing_text(name)),
    }
}

/// The text of an argument, which may not be empty.
pub open spec fn filled_argument(args: JsonView, name: Seq<char>) -> Result<Seq<char>, Seq<char>> {
    match args.at(name).as_text() {
        Some(t) => if t.len() > 0 {
            Ok(t)
        } else {
            Err(missing_text(name))
        },
        None => Err(missing_text(name)),
    }
}

/// The text of an argument, which may not be empty.
pub fn required_string(args: &Json, name: &str) -> (r: Result<String, String>)
    ensures
        told(r) == filled_argument(args@, name@),
{
    if let Some(t) = args.text_at(name) {
        if t.unicode_len() > 0 {
            return Ok(t.to_owned());
        }
    }
    let mut e = "缺少字符串参数 ".to_owned();
    e.append(name);
    Err(e)
}

/// The text of an argument, which may be empty.
pub fn required_value_string(args: &Json, name: &str) -> (r: Result<String, String>)
    ensures
        told(r) == text_argument(args@, name@),
{
    if let Some(t) = args.text_at(name) {
        return Ok(t.to_owned());
    }
    let mut e = "缺少字符串参数 ".to_owned();
    e.append(name);
    Err(e)
}

/// The text of an argument, or a default.
pub open spec fn text_or(args: JsonView, name: Seq<char>, default: Seq<char>) -> Seq<char> {
    match args.at(name).as_text() {
        Some(t) => t,
        None => default,
    }
}

/// The text of an argument, or a default.
pub fn optional_string(args: &Json, name: &str, default: &str) -> (r: String)
    ensures
        r@ == text_or(args@, name@, default@),
{
    match args.text_at(name) {
        Some(t) => t.to_owned(),
        None => default.to_owned(),
    }
}

/// The number of an argument that is given, or why it is none.
pub open spec fn number_argument(args: JsonView, name: Seq<char>) -> Result<
    Option<usize>,
    Seq<char>,
> {
    match args.field(name) {
        None => Ok(None),
        Some(v) => match v.as_u64() {
            Some(n) => if n <= usize::MAX {
                Ok(Some(n as usize))
            } else {
                Err(name + " 必须是非负整数"@)
            },
            None => Err(name + " 必须是非负整数"@),
        },
    }
}

/// The number of an argument that is given.
pub fn optional_usize(args: &Json, name: &str) -> (r: Result<Option<usize>, String>)
    ensures
        match r {
            Ok(n) => number_argument(args@, name@) == Ok::<Option<usize>, Seq<char>>(n),
            Err(e) => number_argument(args@, name@) == Err::<Option<usize>, Seq<char>>(e@),
        },
{
    match args.get(name) {
        None => Ok(None),
        Some(v) => {
            if let Json::Unsigned(n) = v {
                if *n <= usize::MAX as u64 {
                    return Ok(Some(*n as usize));
                }
            }
            let mut e = name.to_owned();
            e.append(" 必须是非负整数");
            Err(e)
        },
    }
}

/// The directory that the tools may touch, as an absolute path without links
/// or dots.
pub struct Workspace {
    root: String,
}

impl Workspace {
    pub closed spec fn root(&self) -> Seq<char> {
        self.root@
    }

    /// The workspace at a directory.
    pub fn at(root: String) -> (r: Workspace)
        ensures
            r.root() == root@,
    {
        Workspace { root }
    }

    /// The path that an argument means, which is not yet checked.
    pub fn candidate(&self, raw_path: &str) -> (r: Result<String, String>)
        ensures
            told(r) == if trim_spec(raw_path@).len() == 0 {
                Err("path 不能为空"@)
            } else {
                Ok(join_path_spec(self.root(), raw_path@))
            },
    {
        if is_blank(raw_path) {
            return Err("path 不能为空".to_owned());
        }
        Ok(join_path(&self.root, raw_path))
    }

    /// Checks that a path without links or dots lies in the workspace.
    pub fn ensure_inside(&self, path: &str) -> (r: Result<(), String>)
        ensures
            match r {
                Ok(_) => within_spec(path@, self.root()),
                Err(e) => !within_spec(path@, self.root()) && e@
                    == "拒绝访问工作区之外的路径: "@ + path@,
            },
    {
        if within(path, &self.root) {
            return Ok(());
        }
        let mut e = "拒绝访问工作区之外的路径: ".to_owned();
        e.append(path);
        Err(e)
    }

    /// How a path is shown: relative to the workspace.
    pub open spec fn shown(&self, path: Seq<char>) -> Seq<char> {
        if within_spec(path, self.root()) && relative_spec(path, self.root()).len() > 0 {
            relative_spec(path, self.root())
        } else {
            "."@
        }
    }

    /// How a path is shown: relative to the workspace.
    pub fn display(&self, path: &str) -> (r: String)
        ensures
            r@ == self.shown(path@),
    {
        if within(path, &self.root) {
            let relative = relative_to(path, &self.root);
            if relative.as_str().unicode_len() > 0 {
                return relative;
            }
        }
        ".".to_owned()
    }
}

/// Checks the size of a file that is to be read.
pub fn ensure_file_size(size: u64) -> (r: Result<(), String>)
    ensures
        match r {
            Ok(_) => size <= MAX_FILE_BYTES,
            Err(e) => size > MAX_FILE_BYTES && e@ == "文件为 "@ + dec(size as nat)
                + " 字节，超过 "@ + dec(MAX_FILE_BYTES as nat) + " 字节读取上限"@,
        },
{
    if size <= MAX_FILE_BYTES {
        return Ok(());
    }
    let mut e = "文件为 ".to_owned();
    e.append(decimal(size as u128).as_str());
    e.append(" 字节，超过 ");
    e.append(decimal(MAX_FILE_BYTES as u128).as_str());
    e.append(" 字节读取上限");
    Err(e)
}

/// The first line and the number of lines that are asked for.
pub open spec fn read_range(args: JsonView) -> Result<(usize, usize), Seq<char>> {
    match number_argument(args, "offset"@) {
        Err(e) => Err(e),
        Ok(o) => {
            let offset = match o {
                Some(n) => n,
                None => 1,
            };
            if offset == 0 {
                Err("offset 必须大于 0"@)
            } else {
                match number_argument(args, "limit"@) {
                    Err(e) => Err(e),
                    Ok(l) => {
                        let asked = match l {
                            Some(n) => n,
                            None => DEFAULT_READ_LINES,
                        };
                        let limit = if asked < MAX_READ_LINES {
                            asked
                        } else {
                            MAX_READ_LINES
                        };
                        if limit == 0 {
                            Err("limit 必须大于 0"@)
                        } else {
                            Ok((offset, limit))
                        }
                    },
                }
            }
        },
    }
}

fn range_of(args: &Json) -> (r: Result<(usize, usize), String>)
    ensures
        match r {
            Ok(p) => read_range(args@) == Ok::<(usize, usize), Seq<char>>(p),
            Err(e) => read_range(args@) == Err::<(usize, usize), Seq<char>>(e@),
        },
        r matches Ok(p) ==> p.0 >= 1,
{
    let offset: usize = match optional_usize(args, "offset") {
        Ok(Some(n)) => n,
        Ok(None) => 1,
        Err(e) => {
            return Err(e);
        },
    };
    if offset == 0 {
        return Err("offset 必须大于 0".to_owned());
    }
    let asked: usize = match optional_usize(args, "limit") {
        Ok(Some(n)) => n,
        Ok(None) => DEFAULT_READ_LINES,
        Err(e) => {
            return Err(e);
        },
    };
    let limit: usize = if asked < MAX_READ_LINES {
        asked
    } else {
        MAX_READ_LINES
    };
    if limit == 0 {
        return Err("limit 必须大于 0".to_owned());
    }
    Ok((offset, limit))
}

/// The lines from `from` up to `to`, each behind its number.
pub open spec fn numbered_lines(all: Seq<Seq<char>>, from: int, to: int) -> Seq<Seq<char>> {
    Seq::new(
        (to - from) as nat,
        |i: int| dec((from + i + 1) as nat) + "|"@ + all[from + i],
    )
}

/// The end of a range of lines.
pub open spec fn range_end(count: int, offset: int, limit: int) -> int {
    if offset - 1 + limit < count {
        offset - 1 + limit
    } else {
        count
    }
}

/// What is shown of a file.
pub open spec fn read_lines(content: Seq<char>, offset: int, limit: int) -> Seq<char> {
    let all = lines_spec(content);
    if offset - 1 >= all.len() {
        "(文件为空或 offset 超出范围)"@
    } else {
        join_spec(
            numbered_lines(all, offset - 1, range_end(all.len() as int, offset, limit)),
            "\n"@,
        )
    }
}

/// The output of reading a file, for the arguments of a call and the file's
/// content.
pub open spec fn read_output(args: JsonView, content: Seq<char>) -> OutputView {
    match read_range(args) {
        Ok((offset, limit)) => success(read_lines(content, offset as int, limit as int)),
        Err(e) => failure(e),
    }
}

/// The output of reading a file.
pub fn read_file(args: &Json, content: &str) -> (r: ToolOutput)
    ensures
        r@ == read_output(args@, content@),
{
    let (offset, limit) = match range_of(args) {
        Ok(p) => p,
        Err(e) => {
            return ToolOutput::failure(&e);
        },
    };
    let list = lines(content);
    let ghost all = views(list@);
    let count: usize = list.len();
    if offset - 1 >= count {
        return ToolOutput::success("(文件为空或 offset 超出范围)".to_owned());
    }
    let from: usize = offset - 1;
    let to: usize = if limit < count - from {
        from + limit
    } else {
        count
    };
    let ghost want = numbered_lines(all, from as int, to as int);
    let mut parts: Vec<String> = Vec::new();
    assert(views(parts@) =~= want.take(0));
    for i in from..to
        invariant
            from <= to <= count,
            count == list@.len(),
            all == views(list@),
            want == numbered_lines(all, from as int, to as int),
            views(parts@) == want.take(i - from),
    {
        let mut part = decimal_size(i + 1);
        part.append("|");
        part.append(list[i].as_str());
        proof {
            assert(all[i as int] == list@[i as int]@);
            lemma_views_push(parts@, part);
            assert(want.take(i - from + 1) =~= want.take(i - from).push(part@));
        }
        parts.push(part);
    }
    assert(want.take(to - from) =~= want);
    ToolOutput::success(join(&parts, "\n"))
}

/// The content of a call that writes a file.
pub open spec fn content_to_write(args: JsonView) -> Result<Seq<char>, Seq<char>> {
    match text_argument(args, "content"@) {
        Ok(t) => if byte_len(t) <= MAX_WRITE_BYTES {
            Ok(t)
        } else {
            Err("写入内容超过 "@ + dec(MAX_WRITE_BYTES as nat) + " 字节上限"@)
        },
        Err(e) => Err(e),
    }
}

/// The content of a call that writes a file.
pub fn write_content(args: &Json) -> (r: Result<String, String>)
    ensures
        told(r) == content_to_write(args@),
{
    match required_value_string(args, "content") {
        Ok(t) => {
            if utf8_len(&t) <= MAX_WRITE_BYTES {
                return Ok(t);
            }
            let mut e = "写入内容超过 ".to_owned();
            e.append(decimal_size(MAX_WRITE_BYTES).as_str());
            e.append(" 字节上限");
            Err(e)
        },
        Err(e) => Err(e),
    }
}

/// The output of a file that was written.
pub fn write_done(shown: &str, bytes: usize) -> (r: ToolOutput)
    ensures
        r@ == success("已写入 "@ + shown@ + "（"@ + dec(bytes as nat) + " 字节）"@),
{
    let mut t = "已写入 ".to_owned();
    t.append(shown);
    t.append("（");
    t.append(decimal_size(bytes).as_str());
    t.append(" 字节）");
    ToolOutput::success(t)
}

/// A change to a file: one text in place of another, once or everywhere.
#[derive(Clone, Debug, PartialEq)]
pub struct EditRequest {
    old: String,
    new: String,
    replace_all: bool,
}

#[verifier::ext_equal]
pub struct EditView {
    pub old: Seq<char>,
    pub new: Seq<char>,
    pub replace_all: bool,
}

impl View for EditRequest {
    type V = EditView;

    closed spec fn view(&self) -> EditView {
        EditView { old: self.old@, new: self.new@, replace_all: self.replace_all }
    }
}

/// The change that the arguments of a call ask for.
pub open spec fn edit_spec(args: JsonView) -> Result<EditView, Seq<char>> {
    match text_argument(args, "old_string"@) {
        Err(e) => Err(e),
        Ok(old) => match text_argument(args, "new_string"@) {
            Err(e) => Err(e),
            Ok(new) => if old.len() == 0 {
                Err("old_string 不能为空"@)
            } else if byte_len(new) > MAX_WRITE_BYTES {
                Err("new_string 超过安全长度上限"@)
            } else {
                Ok(
                    EditView {
                        old,
                        new,
                        replace_all: args.at("replace_all"@).as_bool() == Some(true),
                    },
                )
            },
        },
    }
}

/// How often a text occurs in another, occurrences not overlapping.
pub open spec fn occurrences(s: Seq<char>, needle: Seq<char>) -> int {
    split_spec(s, needle).len() - 1
}

impl EditView {
    /// The changed content and the number of changes, or why it is refused.
    pub open spec fn apply(self, content: Seq<char>) -> Result<(Seq<char>, nat), Seq<char>> {
        let n = occurrences(content, self.old);
        let updated = if self.replace_all {
            replace_spec(content, self.old, self.new)
        } else {
            replace_first_spec(content, self.old, self.new)
        };
        if n <= 0 {
            Err("old_string 未在文件中找到"@)
        } else if !self.replace_all && n != 1 {
            Err(
                "old_string 出现 "@ + dec(n as nat)
                    + " 次；请提供更多上下文或设置 replace_all=true"@,
            )
        } else if byte_len(updated) > MAX_WRITE_BYTES {
            Err("修改后文件超过 "@ + dec(MAX_WRITE_BYTES as nat) + " 字节上限"@)
        } else {
            Ok((updated, n as nat))
        }
    }
}

impl EditRequest {
    pub closed spec fn wf(&self) -> bool {
        self.old@.len() > 0
    }

    /// The change that the arguments of a call ask for.
    pub fn from_args(args: &Json) -> (r: Result<EditRequest, String>)
        ensures
            match r {
                Ok(e) => edit_spec(args@) == Ok::<EditView, Seq<char>>(e@) && e.wf(),
                Err(e) => edit_spec(args@) == Err::<EditView, Seq<char>>(e@),
            },
    {
        let old = match required_value_string(args, "old_string") {
            Ok(t) => t,
            Err(e) => {
                return Err(e);
            },
        };
        let new = match required_value_string(args, "new_string") {
            Ok(t) => t,
            Err(e) => {
                return Err(e);
            },
        };
        if old.as_str().unicode_len() == 0 {
            return Err("old_string 不能为空".to_owned());
        }
        if utf8_len(&new) > MAX_WRITE_BYTES {
            return Err("new_string 超过安全长度上限".to_owned());
        }
        let replace_all = match args.bool_at("replace_all") {
            Some(b) => b,
            None => false,
        };
        Ok(EditRequest { old, new, replace_all })
    }

    /// The changed content and the number of changes.
    pub fn apply(&self, content: &str) -> (r: Result<(String, usize), String>)
        requires
            self.wf(),
        ensures
            match r {
                Ok(p) => self@.apply(content@) == Ok::<(Seq<char>, nat), Seq<char>>(
                    (p.0@, p.1 as nat),
                ),
                Err(e) => self@.apply(content@) == Err::<(Seq<char>, nat), Seq<char>>(e@),
            },
    {
        let parts = split(content, &self.old);
        assert(views(parts@).len() == parts@.len());
        let n: usize = parts.len() - 1;
        if n == 0 {
            return Err("old_string 未在文件中找到".to_owned());
        }
        if !self.replace_all && n != 1 {
            let mut e = "old_string 出现 ".to_owned();
            e.append(decimal_size(n).as_str());
            e.append(" 次；请提供更多上下文或设置 replace_all=true");
            return Err(e);
        }
        let updated = if self.replace_all {
            join(&parts, &self.new)
        } else {
            replace_first(content, &self.old, &self.new)
        };
        if utf8_len(&updated) > MAX_WRITE_BYTES {
            let mut e = "修改后文件超过 ".to_owned();
            e.append(decimal_size(MAX_WRITE_BYTES).as_str());
            e.append(" 字节上限");
            return Err(e);
        }
        Ok((updated, n))
    }
}

/// The output of a file that was changed.
pub fn edit_done(shown: &str, count: usize) -> (r: ToolOutput)
    ensures
        r@ == success("已修改 "@ + shown@ + "（替换 "@ + dec(count as nat) + " 处）"@),
{
    let mut t = "已修改 ".to_owned();
    t.append(shown);
    t.append("（替换 ");
    t.append(decimal_size(count).as_str());
    t.append(" 处）");
    ToolOutput::success(t)
}

/// An edit that is not to replace everything changes the one place where the
/// old text stands, and leaves what is before and behind it.
pub proof fn law_single_edit_changes_one_place(e: EditView, content: Seq<char>)
    requires
        !e.replace_all,
        e.old.len() > 0,
    ensures
        e.apply(content) matches Ok(p) ==> p.1 == 1 && exists|i: int|
            #![trigger content.take(i)]
            0 <= i && i + e.old.len() <= content.len() && content.subrange(i, i + e.old.len())
                == e.old && p.0 == content.take(i) + e.new + content.skip(i + e.old.len()),
{
    if let Ok(p) = e.apply(content) {
        crate::text::search::lemma_find_from(content, e.old, 0);
        let i = find_from(content, e.old, 0)->0;
        assert(content.take(i) + e.new + content.skip(i + e.old.len()) == p.0);
    }
}

} // verus!
