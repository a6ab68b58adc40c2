//! The servers that are set up, and how to reach them.
use vstd::prelude::*;
use crate::paths::{is_absolute, is_absolute_spec, join_path, join_path_spec, order_texts, parent, parent_spec, same_path, same_path_spec, text_order, Order};
use crate::text::chars::{ascii_lower, chars_of, is_ascii_alnum, lemma_views_push, member, same, same_ignoring_case, text_between, view_opt, views};
use crate::text::pieces::{is_blank, trim, trim_spec};
use crate::text::search::{after_prefix, before_suffix, contains, find_chars, find_from, halves, has_text, replace, replace_spec, split_once, strip_prefix, strip_suffix};

verus! {

/// How a server is reached and which of its tools are offered. The settings
/// of the environment and the headers stand in the order of their names.
#[derive(Clone, Debug)]
pub struct McpServerConfig {
    pub command: Option<String>,
    pub args: Vec<String>,
    pub env: Vec<(String, String)>,
    pub cwd: Option<String>,
    pub url: Option<String>,
    pub headers: Vec<(String, String)>,
    pub oauth_client_id: Option<String>,
    pub enabled: bool,
    pub startup_timeout_ms: u64,
    pub tool_timeout_ms: u64,
    pub enabled_tools: Option<Vec<String>>,
    pub disabled_tools: Vec<String>,
}

/// The time that a server may take to start where nothing else is set.
pub const DEFAULT_STARTUP_TIMEOUT_MS: u64 = 30000;

/// The time that a tool may take where nothing else is set.
pub const DEFAULT_TOOL_TIMEOUT_MS: u64 = 60000;

/// The scheme and the host of an address as the `http` crate reads them, or
/// the message of its error.
pub uninterp spec fn uri_meaning(url: Seq<char>) -> Result<
    (Option<Seq<char>>, Option<Seq<char>>),
    Seq<char>,
>;

/// `http::Uri` from a text: its scheme and host. Both depend on the text
/// alone.
#[verifier::external_body]
fn read_uri(url: &str) -> (r: Result<(Option<String>, Option<String>), String>)
    ensures
        match r {
            Ok(p) => uri_meaning(url@) == Ok::<
                (Option<Seq<char>>, Option<Seq<char>>),
                Seq<char>,
            >((view_opt(p.0), view_opt(p.1))),
            Err(e) => uri_meaning(url@) == Err::<
                (Option<Seq<char>>, Option<Seq<char>>),
                Seq<char>,
            >(e@),
        },
{
    match url.parse::<http::Uri>() {
        Ok(uri) => Ok((uri.scheme_str().map(str::to_owned), uri.host().map(str::to_owned))),
        Err(e) => Err(e.to_string()),
    }
}

/// The characters of a header's name.
pub open spec fn is_name_char(c: char) -> bool {
    is_ascii_alnum(c) || c == '!' || c == '#' || c == '$' || c == '%' || c == '&' || c == '\''
        || c == '*' || c == '+' || c == '-' || c == '.' || c == '^' || c == '_' || c == '`'
        || c == '|' || c == '~'
}

/// The name of a header in lower case, or nothing where the text is none.
pub open spec fn header_name_meaning(name: Seq<char>) -> Option<Seq<char>> {
    if 1 <= name.len() <= 65535 && (forall|i: int|
        0 <= i < name.len() ==> is_name_char(#[trigger] name[i])) {
        Some(ascii_lower(name))
    } else {
        None
    }
}

/// `http::HeaderName::from_bytes`: the name in lower case, where it has at
/// most 65535 characters, each of them a letter, a digit or one of the marks
/// that a name may hold; otherwise the message of the error.
#[verifier::external_body]
fn read_header_name(name: &str) -> (r: Result<String, String>)
    ensures
        match r {
            Ok(n) => header_name_meaning(name@) == Some(n@),
            Err(e) => header_name_meaning(name@) is None && e@ == "invalid HTTP header name"@,
        },
{
    match http::HeaderName::from_bytes(name.as_bytes()) {
        Ok(n) => Ok(n.as_str().to_owned()),
        Err(e) => Err(e.to_string()),
    }
}

/// The bytes that a header's value may hold.
pub open spec fn is_header_byte(b: u8) -> bool {
    (b >= 32 && b != 127) || b == 9
}

pub open spec fn is_header_value(value: Seq<char>) -> bool {
    let bytes = vstd::utf8::encode_utf8(value);
    forall|i: int| 0 <= i < bytes.len() ==> is_header_byte(#[trigger] bytes[i])
}

/// `http::HeaderValue::from_str`: whether a text can be a header's value, and
/// the message of the error where it cannot. It can where none of its bytes is
/// a control character other than a tab.
#[verifier::external_body]
fn check_header_value(value: &str) -> (r: Result<(), String>)
    ensures
        match r {
            Ok(_) => is_header_value(value@),
            Err(e) => !is_header_value(value@) && e@ == "failed to parse header value"@,
        },
{
    match http::HeaderValue::from_str(value) {
        Ok(_) => Ok(()),
        Err(e) => Err(e.to_string()),
    }
}

/// Why an address of that scheme and host is refused, if it is. Only the
/// machine itself may be reached without encryption.
pub open spec fn address_fault(scheme: Option<Seq<char>>, host: Option<Seq<char>>) -> Option<
    Seq<char>,
> {
    match scheme {
        None => Some("MCP URL 缺少协议"@),
        Some(s) => match host {
            None => Some("MCP URL 缺少主机"@),
            Some(h) => {
                let local = h == "localhost"@ || h == "127.0.0.1"@ || h == "::1"@;
                if s != "https"@ && !(s == "http"@ && local) {
                    Some("远程 MCP 必须使用 HTTPS；HTTP 只允许 localhost"@)
                } else {
                    None
                }
            },
        },
    }
}

/// Checks an address of that scheme and host.
pub fn check_address(scheme: Option<String>, host: Option<String>) -> (r: Result<(), String>)
    ensures
        match r {
            Ok(_) => address_fault(view_opt(scheme), view_opt(host)) is None,
            Err(e) => address_fault(view_opt(scheme), view_opt(host)) == Some(e@),
        },
{
    let s = match scheme {
        Some(s) => s,
        None => {
            return Err("MCP URL 缺少协议".to_owned());
        },
    };
    let h = match host {
        Some(h) => h,
        None => {
            return Err("MCP URL 缺少主机".to_owned());
        },
    };
    let local = same(&h, "localhost") || same(&h, "127.0.0.1") || same(&h, "::1");
    if !same(&s, "https") && !(same(&s, "http") && local) {
        return Err("远程 MCP 必须使用 HTTPS；HTTP 只允许 localhost".to_owned());
    }
    Ok(())
}

/// Why a server cannot be reached as it is set up, if it cannot.
pub open spec fn transport_fault(command: Option<Seq<char>>, url: Option<Seq<char>>) -> Option<
    Seq<char>,
> {
    match (command, url) {
        (Some(_), Some(_)) => Some("MCP Server 不能同时配置 command 和 url"@),
        (None, None) => Some("MCP Server 必须配置 command 或 url"@),
        (Some(_), None) => None,
        (None, Some(u)) => match uri_meaning(u) {
            Ok((scheme, host)) => address_fault(scheme, host),
            Err(e) => Some("无效的 MCP URL: "@ + u + ": "@ + e),
        },
    }
}

/// The value of a name in an environment.
pub open spec fn lookup(env: Seq<(String, String)>, name: Seq<char>) -> Option<Seq<char>>
    decreases env.len(),
{
    if env.len() == 0 {
        None
    } else if env[0].0@ == name {
        Some(env[0].1@)
    } else {
        lookup(env.skip(1), name)
    }
}

fn look_up(env: &Vec<(String, String)>, name: &str) -> (r: Option<String>)
    ensures
        view_opt(r) == lookup(env@, name@),
{
    assert(env@.skip(0) =~= env@);
    for i in 0..env.len()
        invariant
            lookup(env@, name@) == lookup(env@.skip(i as int), name@),
    {
        assert(env@.skip(i as int).skip(1) =~= env@.skip(i + 1));
        if same(&env[i].0, name) {
            return Some(env[i].1.clone());
        }
    }
    None
}

/// The message for a name that the environment lacks.
pub open spec fn unknown_variable(name: Seq<char>) -> Seq<char> {
    "MCP 环境变量 "@ + name + " 引用不存在: environment variable not found"@
}

/// The name in a value that is a reference and nothing else.
pub open spec fn whole_reference(value: Seq<char>) -> Option<Seq<char>> {
    match after_prefix(value, "${"@) {
        None => None,
        Some(rest) => match before_suffix(rest, "}"@) {
            None => None,
            Some(name) => if name.len() > 0 {
                Some(name)
            } else {
                None
            },
        },
    }
}

fn environment_reference(value: &str) -> (r: Option<String>)
    ensures
        view_opt(r) == whole_reference(value@),
{
    match strip_prefix(value, "${") {
        Some(rest) => match strip_suffix(&rest, "}") {
            Some(name) => if name.as_str().unicode_len() > 0 {
                Some(name)
            } else {
                None
            },
            None => None,
        },
        None => None,
    }
}

/// A value with every reference to the environment replaced, or why one
/// cannot be.
pub open spec fn expanded(value: Seq<char>, env: Seq<(String, String)>) -> Result<
    Seq<char>,
    Seq<char>,
>
    decreases value.len(),
{
    match find_from(value, "${"@, 0) {
        Some(i) => if 0 <= i && i + "${"@.len() <= value.len() && "${"@.len() > 0 {
            let rest = value.skip(i + "${"@.len());
            match find_from(rest, "}"@, 0) {
                None => Err("环境变量引用缺少右花括号"@),
                Some(e) => if e <= 0 {
                    Err("环境变量名称不能为空"@)
                } else if e + 1 <= rest.len() {
                    match lookup(env, rest.take(e)) {
                        None => Err(unknown_variable(rest.take(e))),
                        Some(text) => match expanded(rest.skip(e + 1), env) {
                            Ok(tail) => Ok(value.take(i) + text + tail),
                            Err(e) => Err(e),
                        },
                    }
                } else {
                    Err("环境变量引用缺少右花括号"@)
                },
            }
        } else {
            Ok(value)
        },
        None => Ok(value),
    }
}

/// A value with every reference to the environment replaced.
pub fn expand_environment_references(value: &str, env: &Vec<(String, String)>) -> (r: Result<
    String,
    String,
>)
    ensures
        match r {
            Ok(t) => expanded(value@, env@) == Ok::<Seq<char>, Seq<char>>(t@),
            Err(e) => expanded(value@, env@) == Err::<Seq<char>, Seq<char>>(e@),
        },
    decreases value@.len(),
{
    proof {
        reveal_strlit("${");
        reveal_strlit("}");
    }
    let c = chars_of(value);
    let open = chars_of("${");
    let close = chars_of("}");
    let end: usize = c.len();
    let i: usize = match find_chars(&c, &open, 0) {
        Some(i) => i,
        None => {
            return Ok(value.to_owned());
        },
    };
    let rest = vstd::slice::slice_subrange(c.as_slice(), i + 2, end);
    assert(rest@ =~= value@.skip(i + 2));
    let e: usize = match find_chars(rest, &close, 0) {
        Some(e) => e,
        None => {
            return Err("环境变量引用缺少右花括号".to_owned());
        },
    };
    if e == 0 {
        return Err("环境变量名称不能为空".to_owned());
    }
    let name = text_between(rest, 0, e);
    assert(name@ =~= rest@.take(e as int));
    let text = match look_up(env, &name) {
        Some(t) => t,
        None => {
            let mut m = "MCP 环境变量 ".to_owned();
            m.append(name.as_str());
            m.append(" 引用不存在: environment variable not found");
            return Err(m);
        },
    };
    let tail = text_between(rest, e + 1, rest.len());
    assert(tail@ =~= rest@.skip(e + 1));
    match expand_environment_references(&tail, env) {
        Ok(t) => {
            let mut r = text_between(&c, 0, i);
            assert(r@ =~= value@.take(i as int));
            r.append(text.as_str());
            r.append(t.as_str());
            Ok(r)
        },
        Err(e) => Err(e),
    }
}

/// A value with the workspace in place of its mark.
pub open spec fn in_workspace(value: Seq<char>, root: Seq<char>) -> Seq<char> {
    replace_spec(value, "${workspaceFolder}"@, root)
}

fn expand_workspace_folder(value: &str, root: &str) -> (r: String)
    ensures
        r@ == in_workspace(value@, root@),
{
    proof {
        reveal_strlit("${workspaceFolder}");
    }
    replace(value, "${workspaceFolder}", root)
}

/// The directory of a file: its parent, or the current directory where it has
/// none.
pub open spec fn directory_of(path: Seq<char>) -> Seq<char> {
    match parent_spec(path) {
        Some(p) => p,
        None => "."@,
    }
}

fn directory(path: &str) -> (r: String)
    ensures
        r@ == directory_of(path@),
{
    match parent(path) {
        Some(p) => p,
        None => ".".to_owned(),
    }
}

/// The directory in which a server is started: one that is not absolute lies
/// next to the file that sets it up.
pub open spec fn start_directory(cwd: Seq<char>, config_path: Seq<char>, root: Seq<char>) -> Seq<char> {
    let path = in_workspace(cwd, root);
    if is_absolute_spec(path) {
        path
    } else {
        join_path_spec(directory_of(config_path), path)
    }
}

/// A header of the list replaced, or added.
pub open spec fn with_header(
    list: Seq<(Seq<char>, Seq<char>)>,
    name: Seq<char>,
    value: Seq<char>,
) -> Seq<(Seq<char>, Seq<char>)>
    decreases list.len(),
{
    if list.len() == 0 {
        seq![(name, value)]
    } else if list[0].0 == name {
        seq![(name, value)] + list.skip(1)
    } else {
        seq![list[0]] + with_header(list.skip(1), name, value)
    }
}

pub open spec fn headers_view(v: Seq<(String, String)>) -> Seq<(Seq<char>, Seq<char>)> {
    v.map_values(|h: (String, String)| (h.0@, h.1@))
}

fn set_header(list: &mut Vec<(String, String)>, name: String, value: String)
    ensures
        headers_view(final(list)@) == with_header(headers_view(old(list)@), name@, value@),
{
    let ghost all = headers_view(list@);
    let mut i: usize = 0;
    assert(all.skip(0) =~= all);
    assert(all.take(0) + with_header(all, name@, value@) =~= with_header(all, name@, value@));
    while i < list.len()
        invariant
            i <= list@.len(),
            all == headers_view(list@),
            list@ == old(list)@,
            with_header(all, name@, value@) == all.take(i as int) + with_header(
                all.skip(i as int),
                name@,
                value@,
            ),
        decreases list@.len() - i,
    {
        let ghost rest = all.skip(i as int);
        assert(rest[0] == (list@[i as int].0@, list@[i as int].1@));
        if same(&list[i].0, &name) {
            let entry = (name, value);
            list.set(i, entry);
            assert(headers_view(list@) =~= all.take(i as int) + (seq![(entry.0@, entry.1@)]
                + rest.skip(1)));
            return;
        }
        proof {
            assert(rest.skip(1) =~= all.skip(i + 1));
            assert(all.take(i as int) + (seq![rest[0]] + with_header(rest.skip(1), name@, value@))
                =~= all.take(i + 1) + with_header(all.skip(i + 1), name@, value@));
        }
        i += 1;
    }
    let entry = (name, value);
    list.push(entry);
    assert(headers_view(list@) =~= all.take(i as int) + seq![(entry.0@, entry.1@)]);
}

/// The headers of a request: the token of the authorization on its own, and
/// the others by their names in lower case.
#[verifier::ext_equal]
pub struct HeadersView {
    pub bearer_token: Option<Seq<char>>,
    pub headers: Seq<(Seq<char>, Seq<char>)>,
}

#[derive(Clone, Debug, PartialEq)]
pub struct HttpHeaders {
    pub bearer_token: Option<String>,
    pub headers: Vec<(String, String)>,
}

impl View for HttpHeaders {
    type V = HeadersView;

    open spec fn view(&self) -> HeadersView {
        HeadersView {
            bearer_token: view_opt(self.bearer_token),
            headers: headers_view(self.headers@),
        }
    }
}

/// The token of an authorization, which has to be a bearer's.
pub open spec fn bearer(value: Seq<char>) -> Option<Seq<char>> {
    match halves(value, " "@) {
        Some((scheme, token)) => if ascii_lower(scheme) == ascii_lower("bearer"@) && trim_spec(
            token,
        ).len() > 0 {
            Some(trim_spec(token))
        } else {
            None
        },
        None => None,
    }
}

/// A text that is one reference to the environment and nothing else.
pub open spec fn is_reference(text: Seq<char>) -> bool {
    match whole_reference(text) {
        Some(name) => !has_text(name, "}"@),
        None => false,
    }
}

/// Why an authorization may not be written so, if it may not: behind its scheme
/// there has to stand a reference to the environment.
pub open spec fn authorization_fault(raw: Seq<char>) -> Option<Seq<char>> {
    if !has_text(raw, "${"@) {
        Some("Authorization 必须通过环境变量引用，不能明文写入 mcp.json"@)
    } else {
        match halves(raw, " "@) {
            None => Some("Authorization 必须使用 Bearer Token"@),
            Some((_, token)) => if is_reference(trim_spec(token)) {
                None
            } else {
                Some("Authorization 必须通过环境变量引用，不能明文写入 mcp.json"@)
            },
        }
    }
}

fn check_authorization(raw: &str) -> (r: Result<(), String>)
    ensures
        match r {
            Ok(_) => authorization_fault(raw@) is None,
            Err(e) => authorization_fault(raw@) == Some(e@),
        },
{
    if contains(raw, "${") {
        match split_once(raw, " ") {
            None => {
                return Err("Authorization 必须使用 Bearer Token".to_owned());
            },
            Some(parts) => {
                if let Some(name) = environment_reference(&trim(&parts.1)) {
                    if !contains(&name, "}") {
                        return Ok(());
                    }
                }
            },
        }
    }
    Err("Authorization 必须通过环境变量引用，不能明文写入 mcp.json".to_owned())
}

impl HeadersView {
    /// The headers with one more. The token of the authorization has to come
    /// from the environment.
    pub open spec fn take(
        self,
        raw_name: Seq<char>,
        raw_value: Seq<char>,
        env: Seq<(String, String)>,
    ) -> Result<HeadersView, Seq<char>> {
        match header_name_meaning(raw_name) {
            None => Err(
                "无效的 MCP HTTP Header 名称: "@ + raw_name + ": "@ + "invalid HTTP header name"@,
            ),
            Some(name) => match expanded(raw_value, env) {
                Err(e) => Err("无法解析 MCP HTTP Header `"@ + raw_name + "`: "@ + e),
                Ok(value) => if name == "authorization"@ {
                    match authorization_fault(raw_value) {
                        Some(e) => Err(e),
                        None => match bearer(value) {
                            None => Err("Authorization 必须使用 Bearer Token"@),
                            Some(token) => Ok(HeadersView { bearer_token: Some(token), ..self }),
                        },
                    }
                } else if is_header_value(value) {
                    Ok(HeadersView { headers: with_header(self.headers, name, value), ..self })
                } else {
                    Err(
                        "无效的 MCP HTTP Header 值: "@ + raw_name + ": "@
                            + "failed to parse header value"@,
                    )
                },
            },
        }
    }
}

/// The headers of a request, or why there are none.
pub open spec fn all_headers(list: Seq<(String, String)>, env: Seq<(String, String)>) -> Result<
    HeadersView,
    Seq<char>,
>
    decreases list.len(),
{
    if list.len() == 0 {
        Ok(HeadersView { bearer_token: None, headers: Seq::empty() })
    } else {
        match all_headers(list.drop_last(), env) {
            Ok(h) => h.take(list.last().0@, list.last().1@, env),
            Err(e) => Err(e),
        }
    }
}

proof fn lemma_header_fault_stays(
    list: Seq<(String, String)>,
    env: Seq<(String, String)>,
    i: int,
)
    requires
        0 <= i <= list.len(),
        all_headers(list.take(i), env) is Err,
    ensures
        all_headers(list, env) == all_headers(list.take(i), env),
    decreases list.len(),
{
    if i < list.len() {
        assert(list.drop_last().take(i) =~= list.take(i));
        lemma_header_fault_stays(list.drop_last(), env, i);
    } else {
        assert(list.take(i) =~= list);
    }
}

/// Takes one header; the outcome is what the headers are then.
fn take_header(
    h: HttpHeaders,
    raw_name: &str,
    raw_value: &str,
    env: &Vec<(String, String)>,
) -> (r: Result<HttpHeaders, String>)
    ensures
        match r {
            Ok(n) => h@.take(raw_name@, raw_value@, env@) == Ok::<HeadersView, Seq<char>>(n@),
            Err(e) => h@.take(raw_name@, raw_value@, env@) == Err::<HeadersView, Seq<char>>(e@),
        },
{
    let name = match read_header_name(raw_name) {
        Ok(n) => n,
        Err(reason) => {
            let mut e = "无效的 MCP HTTP Header 名称: ".to_owned();
            e.append(raw_name);
            e.append(": ");
            e.append(reason.as_str());
            return Err(e);
        },
    };
    let value = match expand_environment_references(raw_value, env) {
        Ok(v) => v,
        Err(reason) => {
            let mut e = "无法解析 MCP HTTP Header `".to_owned();
            e.append(raw_name);
            e.append("`: ");
            e.append(reason.as_str());
            return Err(e);
        },
    };
    if same(&name, "authorization") {
        match check_authorization(raw_value) {
            Ok(_) => {},
            Err(e) => {
                return Err(e);
            },
        }
        if let Some(parts) = split_once(&value, " ") {
            let token = trim(&parts.1);
            if same_ignoring_case(&parts.0, "bearer") && token.as_str().unicode_len() > 0 {
                return Ok(HttpHeaders { bearer_token: Some(token), headers: h.headers });
            }
        }
        return Err("Authorization 必须使用 Bearer Token".to_owned());
    }
    match check_header_value(&value) {
        Ok(_) => {},
        Err(reason) => {
            let mut e = "无效的 MCP HTTP Header 值: ".to_owned();
            e.append(raw_name);
            e.append(": ");
            e.append(reason.as_str());
            return Err(e);
        },
    }
    let mut headers = h.headers;
    set_header(&mut headers, name, value);
    Ok(HttpHeaders { bearer_token: h.bearer_token, headers })
}

/// A setting of the environment with its reference replaced.
pub open spec fn resolved_value(name: Seq<char>, value: Seq<char>, env: Seq<(String, String)>) -> Result<
    Seq<char>,
    Seq<char>,
> {
    match whole_reference(value) {
        None => Ok(value),
        Some(reference) => match lookup(env, reference) {
            Some(text) => Ok(text),
            None => Err(unknown_variable(name)),
        },
    }
}

/// The settings of the environment with their references replaced.
pub open spec fn resolved_settings(list: Seq<(String, String)>, env: Seq<(String, String)>) -> Result<
    Seq<(Seq<char>, Seq<char>)>,
    Seq<char>,
>
    decreases list.len(),
{
    if list.len() == 0 {
        Ok(Seq::empty())
    } else {
        match resolved_settings(list.drop_last(), env) {
            Err(e) => Err(e),
            Ok(before) => match resolved_value(list.last().0@, list.last().1@, env) {
                Ok(v) => Ok(before.push((list.last().0@, v))),
                Err(e) => Err(e),
            },
        }
    }
}

proof fn lemma_setting_fault_stays(
    list: Seq<(String, String)>,
    env: Seq<(String, String)>,
    i: int,
)
    requires
        0 <= i <= list.len(),
        resolved_settings(list.take(i), env) is Err,
    ensures
        resolved_settings(list, env) == resolved_settings(list.take(i), env),
    decreases list.len(),
{
    if i < list.len() {
        assert(list.drop_last().take(i) =~= list.take(i));
        lemma_setting_fault_stays(list.drop_last(), env, i);
    } else {
        assert(list.take(i) =~= list);
    }
}

/// A tool is offered where it is allowed, or nothing is, and not forbidden.
pub open spec fn offers(enabled: Option<Seq<Seq<char>>>, disabled: Seq<Seq<char>>, name: Seq<char>) -> bool {
    (match enabled {
        Some(list) => list.contains(name),
        None => true,
    }) && !disabled.contains(name)
}

impl McpServerConfig {
    pub open spec fn allowed(&self) -> Option<Seq<Seq<char>>> {
        match self.enabled_tools {
            Some(v) => Some(views(v@)),
            None => None,
        }
    }

    /// Checks that the server is reached in one way, and that safely.
    pub fn validate_transport(&self) -> (r: Result<(), String>)
        ensures
            match r {
                Ok(_) => transport_fault(view_opt(self.command), view_opt(self.url)) is None,
                Err(e) => transport_fault(view_opt(self.command), view_opt(self.url)) == Some(e@),
            },
    {
        match (&self.command, &self.url) {
            (Some(_), Some(_)) => Err("MCP Server 不能同时配置 command 和 url".to_owned()),
            (None, None) => Err("MCP Server 必须配置 command 或 url".to_owned()),
            (Some(_), None) => Ok(()),
            (None, Some(url)) => match read_uri(url) {
                Ok(parts) => check_address(parts.0, parts.1),
                Err(reason) => {
                    let mut e = "无效的 MCP URL: ".to_owned();
                    e.append(url.as_str());
                    e.append(": ");
                    e.append(reason.as_str());
                    Err(e)
                },
            },
        }
    }

    /// Whether a tool of the server is offered.
    pub fn tool_enabled(&self, name: &str) -> (r: bool)
        ensures
            r == offers(self.allowed(), views(self.disabled_tools@), name@),
    {
        let allowed = match &self.enabled_tools {
            Some(list) => member(list, name),
            None => true,
        };
        allowed && !member(&self.disabled_tools, name)
    }

    /// The arguments of the command, with the workspace in place of its mark.
    pub fn resolved_args(&self, workspace_root: &str) -> (r: Vec<String>)
        ensures
            views(r@) == views(self.args@).map_values(
                |a: Seq<char>| in_workspace(a, workspace_root@),
            ),
    {
        let ghost f = |a: Seq<char>| in_workspace(a, workspace_root@);
        let mut r: Vec<String> = Vec::new();
        for i in 0..self.args.len()
            invariant
                f == (|a: Seq<char>| in_workspace(a, workspace_root@)),
                views(r@) =~= views(self.args@).take(i as int).map_values(f),
        {
            let a = expand_workspace_folder(&self.args[i], workspace_root);
            proof {
                lemma_views_push(r@, a);
                assert(views(self.args@).take(i + 1).map_values(f) =~= views(self.args@).take(
                    i as int,
                ).map_values(f).push(a@));
            }
            r.push(a);
        }
        assert(views(self.args@).take(self.args@.len() as int) =~= views(self.args@));
        r
    }

    /// The directory in which the command is started, where one is set.
    pub fn resolved_cwd(&self, config_path: &str, workspace_root: &str) -> (r: Option<String>)
        ensures
            view_opt(r) == match self.cwd {
                Some(cwd) => Some(start_directory(cwd@, config_path@, workspace_root@)),
                None => None,
            },
    {
        match &self.cwd {
            Some(cwd) => {
                let path = expand_workspace_folder(cwd, workspace_root);
                if is_absolute(&path) {
                    Some(path)
                } else {
                    Some(join_path(&directory(config_path), &path))
                }
            },
            None => None,
        }
    }

    /// The settings of the command's environment, given the present one.
    pub fn resolved_env(&self, env: &Vec<(String, String)>) -> (r: Result<
        Vec<(String, String)>,
        String,
    >)
        ensures
            match r {
                Ok(v) => resolved_settings(self.env@, env@) == Ok::<
                    Seq<(Seq<char>, Seq<char>)>,
                    Seq<char>,
                >(headers_view(v@)),
                Err(e) => resolved_settings(self.env@, env@) == Err::<
                    Seq<(Seq<char>, Seq<char>)>,
                    Seq<char>,
                >(e@),
            },
    {
        let mut r: Vec<(String, String)> = Vec::new();
        assert(headers_view(r@) =~= Seq::empty());
        assert(self.env@.take(0) =~= Seq::empty());
        for i in 0..self.env.len()
            invariant
                resolved_settings(self.env@.take(i as int), env@) == Ok::<
                    Seq<(Seq<char>, Seq<char>)>,
                    Seq<char>,
                >(headers_view(r@)),
        {
            assert(self.env@.take(i + 1).drop_last() =~= self.env@.take(i as int));
            let name = &self.env[i].0;
            let value = &self.env[i].1;
            let resolved = match environment_reference(value) {
                None => value.clone(),
                Some(reference) => match look_up(env, &reference) {
                    Some(text) => text,
                    None => {
                        let mut e = "MCP 环境变量 ".to_owned();
                        e.append(name.as_str());
                        e.append(" 引用不存在: environment variable not found");
                        proof {
                            lemma_setting_fault_stays(self.env@, env@, i + 1);
                        }
                        return Err(e);
                    },
                },
            };
            let entry = (name.clone(), resolved);
            assert(headers_view(r@.push(entry)) =~= headers_view(r@).push((entry.0@, entry.1@)));
            r.push(entry);
        }
        assert(self.env@.take(self.env@.len() as int) =~= self.env@);
        Ok(r)
    }

    /// The headers of a request, given the present environment.
    pub fn resolved_http_headers(&self, env: &Vec<(String, String)>) -> (r: Result<
        HttpHeaders,
        String,
    >)
        ensures
            match r {
                Ok(h) => all_headers(self.headers@, env@) == Ok::<HeadersView, Seq<char>>(h@),
                Err(e) => all_headers(self.headers@, env@) == Err::<HeadersView, Seq<char>>(e@),
            },
    {
        let mut h = HttpHeaders { bearer_token: None, headers: Vec::new() };
        assert(h@.headers =~= Seq::empty());
        assert(self.headers@.take(0) =~= Seq::empty());
        for i in 0..self.headers.len()
            invariant
                all_headers(self.headers@.take(i as int), env@) == Ok::<HeadersView, Seq<char>>(
                    h@,
                ),
        {
            assert(self.headers@.take(i + 1).drop_last() =~= self.headers@.take(i as int));
            match take_header(h, &self.headers[i].0, &self.headers[i].1, env) {
                Ok(n) => {
                    h = n;
                },
                Err(e) => {
                    proof {
                        lemma_header_fault_stays(self.headers@, env@, i + 1);
                    }
                    return Err(e);
                },
            }
        }
        assert(self.headers@.take(self.headers@.len() as int) =~= self.headers@);
        Ok(h)
    }
}

/// No server is accepted that would be reached over the network without
/// encryption.
pub proof fn law_remote_servers_are_encrypted(url: Seq<char>)
    requires
        transport_fault(None, Some(url)) is None,
    ensures
        ({
            let parts = uri_meaning(url)->Ok_0;
            parts.0 == Some("https"@) || (parts.0 == Some("http"@) && (parts.1 == Some(
                "localhost"@,
            ) || parts.1 == Some("127.0.0.1"@) || parts.1 == Some("::1"@)))
        }),
{
}

/// A server of a configuration, and the file that sets it up.
#[derive(Clone, Debug)]
pub struct McpServerDefinition {
    pub name: String,
    pub config_path: String,
    pub config: McpServerConfig,
}

/// The servers of the configurations that were read, in the order of their
/// names.
#[derive(Debug)]
pub struct LoadedMcpConfig {
    pub servers: Vec<McpServerDefinition>,
    pub loaded_files: Vec<String>,
    pub skipped_project_file: Option<String>,
}

/// What to do about the configuration of the project.
#[derive(Clone, Copy, Debug, PartialEq, Eq, Structural)]
pub enum ProjectFile {
    /// There is none, or it is the user's own.
    Absent,
    /// It is read, and overrides the user's own.
    Load,
    /// It is not trusted.
    Skip,
}

/// What to do about the configuration of the project, given whether the file
/// is there.
pub fn project_file(
    project: Option<&str>,
    present: bool,
    global: Option<&str>,
    trust_project: bool,
) -> (r: ProjectFile)
    ensures
        r == match project {
            None => ProjectFile::Absent,
            Some(p) => if !present || (global is Some && same_path_spec(p@, global->0@)) {
                ProjectFile::Absent
            } else if trust_project {
                ProjectFile::Load
            } else {
                ProjectFile::Skip
            },
        },
{
    match project {
        None => ProjectFile::Absent,
        Some(p) => {
            let own = match global {
                Some(g) => same_path(p, g),
                None => false,
            };
            if !present || own {
                ProjectFile::Absent
            } else if trust_project {
                ProjectFile::Load
            } else {
                ProjectFile::Skip
            }
        },
    }
}

/// The servers with one more, which replaces the one of its name.
pub open spec fn with_server(list: Seq<McpServerDefinition>, s: McpServerDefinition) -> Seq<
    McpServerDefinition,
>
    decreases list.len(),
{
    if list.len() == 0 {
        seq![s]
    } else {
        match text_order(s.name@, list[0].name@) {
            Order::Equal => seq![s] + list.skip(1),
            Order::Less => seq![s] + list,
            Order::Greater => seq![list[0]] + with_server(list.skip(1), s),
        }
    }
}

fn add_server(list: &mut Vec<McpServerDefinition>, s: McpServerDefinition)
    ensures
        final(list)@ == with_server(old(list)@, s),
{
    let ghost all = list@;
    let mut i: usize = 0;
    assert(all.skip(0) =~= all);
    assert(all.take(0) + with_server(all, s) =~= with_server(all, s));
    while i < list.len()
        invariant
            i <= list@.len(),
            all == list@,
            list@ == old(list)@,
            with_server(all, s) == all.take(i as int) + with_server(all.skip(i as int), s),
        decreases list@.len() - i,
    {
        let ghost rest = all.skip(i as int);
        assert(rest[0] == list@[i as int]);
        match order_texts(&s.name, &list[i].name) {
            Order::Equal => {
                list.set(i, s);
                assert(list@ =~= all.take(i as int) + (seq![s] + rest.skip(1)));
                return;
            },
            Order::Less => {
                list.insert(i, s);
                assert(list@ =~= all.take(i as int) + (seq![s] + rest));
                return;
            },
            Order::Greater => {
                assert(rest.skip(1) =~= all.skip(i + 1));
                assert(all.take(i as int) + (seq![rest[0]] + with_server(rest.skip(1), s))
                    =~= all.take(i + 1) + with_server(all.skip(i + 1), s));
            },
        }
        i += 1;
    }
    list.push(s);
    assert(list@ =~= all.take(i as int) + seq![s]);
}

/// Why a server of a file is refused, if it is.
pub open spec fn server_fault(path: Seq<char>, s: McpServerDefinition) -> Option<Seq<char>> {
    if trim_spec(s.name@).len() == 0 {
        Some(path + " 包含空 MCP Server 名称"@)
    } else {
        match transport_fault(view_opt(s.config.command), view_opt(s.config.url)) {
            Some(e) => Some(path + " 中的 MCP Server `"@ + s.name@ + "` 配置无效: "@ + e),
            None => None,
        }
    }
}

/// The servers with those of a file, or why the file is refused.
pub open spec fn merged(
    list: Seq<McpServerDefinition>,
    path: Seq<char>,
    servers: Seq<McpServerDefinition>,
) -> Result<Seq<McpServerDefinition>, Seq<char>>
    decreases servers.len(),
{
    if servers.len() == 0 {
        Ok(list)
    } else {
        match server_fault(path, servers[0]) {
            Some(e) => Err(e),
            None => merged(with_server(list, servers[0]), path, servers.skip(1)),
        }
    }
}

/// Merges the servers of a file, which stand in the order of their names,
/// into those of other files. A file that is refused may leave the servers
/// before the fault merged.
pub fn merge_file(
    list: &mut Vec<McpServerDefinition>,
    path: &str,
    servers: Vec<McpServerDefinition>,
) -> (r: Result<(), String>)
    ensures
        match r {
            Ok(_) => merged(old(list)@, path@, servers@) == Ok::<
                Seq<McpServerDefinition>,
                Seq<char>,
            >(final(list)@),
            Err(e) => merged(old(list)@, path@, servers@) == Err::<
                Seq<McpServerDefinition>,
                Seq<char>,
            >(e@),
        },
{
    let ghost all = servers@;
    let mut rest = servers;
    assert(all.skip(0) =~= all);
    while rest.len() > 0
        invariant
            merged(old(list)@, path@, all) == merged(list@, path@, rest@),
            all == servers@,
        decreases rest@.len(),
    {
        let ghost before = rest@;
        let s = rest.remove(0);
        assert(before.remove(0) =~= before.skip(1));
        if is_blank(&s.name) {
            let mut e = path.to_owned();
            e.append(" 包含空 MCP Server 名称");
            return Err(e);
        }
        if let Err(reason) = s.config.validate_transport() {
            let mut e = path.to_owned();
            e.append(" 中的 MCP Server `");
            e.append(s.name.as_str());
            e.append("` 配置无效: ");
            e.append(reason.as_str());
            return Err(e);
        }
        add_server(list, s);
    }
    Ok(())
}

/// A configuration file: where it lies, whether it is there, and what it sets
/// up, in the order of the names.
pub struct ConfigFile {
    pub path: String,
    pub present: bool,
    pub servers: Vec<McpServerDefinition>,
}

/// What becomes of the configuration of the project.
pub open spec fn project_part(
    global: Option<ConfigFile>,
    project: Option<ConfigFile>,
    trust_project: bool,
) -> ProjectFile {
    match project {
        None => ProjectFile::Absent,
        Some(p) => if !p.present || (global is Some && same_path_spec(
            p.path@,
            global->0.path@,
        )) {
            ProjectFile::Absent
        } else if trust_project {
            ProjectFile::Load
        } else {
            ProjectFile::Skip
        },
    }
}

/// The servers of the user's file and, where it is loaded, those of the
/// project's, which override them.
pub open spec fn loaded_servers(
    global: Option<ConfigFile>,
    project: Option<ConfigFile>,
    trust_project: bool,
) -> Result<Seq<McpServerDefinition>, Seq<char>> {
    let first = match global {
        Some(g) if g.present => merged(Seq::empty(), g.path@, g.servers@),
        _ => Ok(Seq::empty()),
    };
    match first {
        Err(e) => Err(e),
        Ok(list) => if project_part(global, project, trust_project) == ProjectFile::Load {
            merged(list, project->0.path@, project->0.servers@)
        } else {
            Ok(list)
        },
    }
}

pub open spec fn loaded_paths(
    global: Option<ConfigFile>,
    project: Option<ConfigFile>,
    trust_project: bool,
) -> Seq<Seq<char>> {
    let first = match global {
        Some(g) if g.present => seq![g.path@],
        _ => Seq::empty(),
    };
    if project_part(global, project, trust_project) == ProjectFile::Load {
        first.push(project->0.path@)
    } else {
        first
    }
}

/// The configuration that the user's file and the project's make up. The
/// project's is passed over where it is not trusted.
pub fn load_from_paths(
    global: Option<ConfigFile>,
    project: Option<ConfigFile>,
    trust_project: bool,
) -> (r: Result<LoadedMcpConfig, String>)
    ensures
        match r {
            Ok(c) => {
                &&& loaded_servers(global, project, trust_project) == Ok::<
                    Seq<McpServerDefinition>,
                    Seq<char>,
                >(c.servers@)
                &&& views(c.loaded_files@) == loaded_paths(global, project, trust_project)
                &&& view_opt(c.skipped_project_file) == if project_part(
                    global,
                    project,
                    trust_project,
                ) == ProjectFile::Skip {
                    Some(project->0.path@)
                } else {
                    None
                }
            },
            Err(e) => loaded_servers(global, project, trust_project) == Err::<
                Seq<McpServerDefinition>,
                Seq<char>,
            >(e@),
        },
{
    let mut servers: Vec<McpServerDefinition> = Vec::new();
    let mut loaded_files: Vec<String> = Vec::new();
    let mut skipped_project_file: Option<String> = None;
    let part = {
        let own = match &global {
            Some(g) => Some(g.path.as_str()),
            None => None,
        };
        match &project {
            Some(p) => project_file(Some(p.path.as_str()), p.present, own, trust_project),
            None => ProjectFile::Absent,
        }
    };
    assert(views(loaded_files@) =~= Seq::empty());
    if let Some(g) = global {
        if g.present {
            if let Err(e) = merge_file(&mut servers, &g.path, g.servers) {
                return Err(e);
            }
            proof {
                lemma_views_push(loaded_files@, g.path);
            }
            loaded_files.push(g.path);
            assert(views(loaded_files@) =~= seq![g.path@]);
        }
    }
    if let Some(p) = project {
        match part {
            ProjectFile::Absent => {},
            ProjectFile::Load => {
                if let Err(e) = merge_file(&mut servers, &p.path, p.servers) {
                    return Err(e);
                }
                proof {
                    lemma_views_push(loaded_files@, p.path);
                }
                loaded_files.push(p.path);
            },
            ProjectFile::Skip => {
                skipped_project_file = Some(p.path);
            },
        }
    }
    Ok(LoadedMcpConfig { servers, loaded_files, skipped_project_file })
}

/// A configuration of the project that is not trusted sets up nothing.
pub proof fn law_untrusted_projects_set_up_nothing(
    global: Option<ConfigFile>,
    project: Option<ConfigFile>,
)
    ensures
        loaded_servers(global, project, false) == loaded_servers(global, None, false),
        loaded_paths(global, project, false) == loaded_paths(global, None, false),
{
}

/// The definitions of the server of a name.
pub open spec fn defines(server: Seq<char>) -> spec_fn(McpServerDefinition) -> bool {
    |d: McpServerDefinition| d.name@ == server
}

impl LoadedMcpConfig {
    /// The configuration of a single server, which has to be there.
    pub fn only(self, server: &str) -> (r: Result<LoadedMcpConfig, String>)
        ensures
            match r {
                Ok(c) => c.servers@ == self.servers@.filter(defines(server@)) && c.servers@.len()
                    > 0 && c.loaded_files == self.loaded_files && c.skipped_project_file
                    == self.skipped_project_file,
                Err(e) => self.servers@.filter(defines(server@)).len() == 0 && e@
                    == "MCP 配置中没有 Server `"@ + server@ + "`"@,
            },
    {
        let ghost all = self.servers@;
        let ghost p = defines(server@);
        let mut rest = self.servers;
        let mut kept: Vec<McpServerDefinition> = Vec::new();
        let ghost mut done: int = 0;
        proof {
            crate::seqs::lemma_filter_empty(all, p);
            assert(all.skip(0) =~= all);
        }
        while rest.len() > 0
            invariant
                p == defines(server@),
                0 <= done <= all.len(),
                rest@ == all.skip(done),
                kept@ == all.take(done).filter(p),
            decreases rest@.len(),
        {
            proof {
                crate::seqs::lemma_filter_step(all, done, p);
                assert(all.skip(done).skip(1) =~= all.skip(done + 1));
            }
            let d = rest.remove(0);
            assert(rest@ =~= all.skip(done + 1));
            if same(&d.name, server) {
                kept.push(d);
            }
            proof {
                done = done + 1;
            }
        }
        assert(all.take(done) =~= all);
        if kept.len() == 0 {
            let mut e = "MCP 配置中没有 Server `".to_owned();
            e.append(server);
            e.append("`");
            return Err(e);
        }
        Ok(
            LoadedMcpConfig {
                servers: kept,
                loaded_files: self.loaded_files,
                skipped_project_file: self.skipped_project_file,
            },
        )
    }
}

/// A tool that is disabled is not offered, whatever else is enabled.
pub proof fn law_disabled_tools_are_not_offered(
    enabled: Option<Seq<Seq<char>>>,
    disabled: Seq<Seq<char>>,
    name: Seq<char>,
)
    requires
        disabled.contains(name),
    ensures
        !offers(enabled, disabled, name),
{
}

/// A token may not stand in a configuration: headers are refused where one of
/// them authorizes by anything but a scheme and a reference to the environment.
pub proof fn law_plain_tokens_are_refused(
    list: Seq<(String, String)>,
    env: Seq<(String, String)>,
    i: int,
)
    requires
        0 <= i < list.len(),
        header_name_meaning(list[i].0@) == Some("authorization"@),
        authorization_fault(list[i].1@) is Some,
    ensures
        all_headers(list, env) is Err,
    decreases list.len(),
{
    if i < list.len() - 1 {
        law_plain_tokens_are_refused(list.drop_last(), env, i);
    }
}

proof fn lemma_with_server(list: Seq<McpServerDefinition>, s: McpServerDefinition)
    ensures
        with_server(list, s).contains(s),
        forall|t: McpServerDefinition|
            t.name@ != s.name@ && list.contains(t) ==> #[trigger] with_server(list, s).contains(t),
    decreases list.len(),
{
    let after = with_server(list, s);
    if list.len() == 0 {
        assert(after[0] == s);
    } else {
        let rest = list.skip(1);
        lemma_with_server(rest, s);
        let order = text_order(s.name@, list[0].name@);
        if order == Order::Greater {
            let tail = with_server(rest, s);
            let k = choose|k: int| 0 <= k < tail.len() && tail[k] == s;
            assert(after[k + 1] == s);
        } else {
            assert(after[0] == s);
        }
        assert forall|t: McpServerDefinition|
            t.name@ != s.name@ && list.contains(t) implies #[trigger] after.contains(t) by {
            let j = choose|j: int| 0 <= j < list.len() && list[j] == t;
            match order {
                Order::Equal => {
                    crate::paths::lemma_text_order_equal(s.name@, list[0].name@);
                    assert(after[j] == t);
                },
                Order::Less => {
                    assert(after[j + 1] == t);
                },
                Order::Greater => {
                    if j == 0 {
                        assert(after[0] == t);
                    } else {
                        assert(rest[j - 1] == t);
                        assert(rest.contains(t));
                        let tail = with_server(rest, s);
                        assert(tail.contains(t));
                        let k = choose|k: int| 0 <= k < tail.len() && tail[k] == t;
                        assert(after[k + 1] == t);
                    }
                },
            }
        }
    }
}

/// Among the servers of a file no two have the same name.
pub open spec fn distinct_servers(servers: Seq<McpServerDefinition>) -> bool {
    forall|i: int, j: int|
        0 <= i < j < servers.len() ==> (#[trigger] servers[i]).name@ != (#[trigger] servers[j]).name@
}

proof fn lemma_merge_keeps(
    list: Seq<McpServerDefinition>,
    path: Seq<char>,
    servers: Seq<McpServerDefinition>,
    s: McpServerDefinition,
)
    requires
        list.contains(s),
        forall|j: int| 0 <= j < servers.len() ==> (#[trigger] servers[j]).name@ != s.name@,
    ensures
        merged(list, path, servers) matches Ok(all) ==> all.contains(s),
    decreases servers.len(),
{
    if servers.len() > 0 && server_fault(path, servers[0]) is None {
        lemma_with_server(list, servers[0]);
        assert(servers[0].name@ != s.name@);
        assert(with_server(list, servers[0]).contains(s));
        assert forall|j: int| 0 <= j < servers.skip(1).len() implies (#[trigger] servers.skip(
            1,
        )[j]).name@ != s.name@ by {
            assert(servers[j + 1].name@ != s.name@);
        }
        lemma_merge_keeps(with_server(list, servers[0]), path, servers.skip(1), s);
    }
}

/// A file overrides the ones before it: after it was merged, each of its
/// servers stands as the file sets it up.
pub proof fn law_later_files_override(
    list: Seq<McpServerDefinition>,
    path: Seq<char>,
    servers: Seq<McpServerDefinition>,
    i: int,
)
    requires
        distinct_servers(servers),
        0 <= i < servers.len(),
    ensures
        merged(list, path, servers) matches Ok(all) ==> all.contains(servers[i]),
    decreases servers.len(),
{
    if server_fault(path, servers[0]) is None {
        let rest = servers.skip(1);
        let next = with_server(list, servers[0]);
        lemma_with_server(list, servers[0]);
        assert forall|a: int, b: int| 0 <= a < b < rest.len() implies (#[trigger] rest[a]).name@ != (
        #[trigger] rest[b]).name@ by {
            assert(servers[a + 1].name@ != servers[b + 1].name@);
        }
        if i == 0 {
            assert forall|j: int| 0 <= j < rest.len() implies (#[trigger] rest[j]).name@
                != servers[0].name@ by {
                assert(servers[0].name@ != servers[j + 1].name@);
            }
            lemma_merge_keeps(next, path, rest, servers[0]);
        } else {
            assert(rest[i - 1] == servers[i]);
            law_later_files_override(next, path, rest, i - 1);
        }
    }
}

} // verus!
