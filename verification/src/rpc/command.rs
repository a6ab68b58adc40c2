//! The commands of a client.
use vstd::prelude::*;
use crate::json::{json_parse, parse, Json, JsonView};
use crate::seqs::{lemma_filter_empty, lemma_filter_step};
use crate::text::chars::{chars_of, lemma_views_push, same, views};

verus! {

/// A command of a client.
#[derive(Clone, Debug, PartialEq, Eq)]
pub enum RpcCommand {
    Ask { text: String },
    Approve { approval_id: u64 },
    Deny { approval_id: u64 },
    Cancel,
    Status,
    NewSession,
    Unknown { method: String },
}

#[verifier::ext_equal]
pub enum CommandView {
    Ask(Seq<char>),
    Approve(u64),
    Deny(u64),
    Cancel,
    Status,
    NewSession,
    Unknown(Seq<char>),
}

impl View for RpcCommand {
    type V = CommandView;

    open spec fn view(&self) -> CommandView {
        match self {
            RpcCommand::Ask { text } => CommandView::Ask(text@),
            RpcCommand::Approve { approval_id } => CommandView::Approve(*approval_id),
            RpcCommand::Deny { approval_id } => CommandView::Deny(*approval_id),
            RpcCommand::Cancel => CommandView::Cancel,
            RpcCommand::Status => CommandView::Status,
            RpcCommand::NewSession => CommandView::NewSession,
            RpcCommand::Unknown { method } => CommandView::Unknown(method@),
        }
    }
}

pub open spec fn command_result(r: Result<RpcCommand, String>) -> Result<CommandView, Seq<char>> {
    match r {
        Ok(c) => Ok(c@),
        Err(e) => Err(e@),
    }
}

/// What a method asks for with its parameters.
pub open spec fn method_spec(method: Seq<char>, params: JsonView) -> Result<
    CommandView,
    Seq<char>,
> {
    if method == "ask"@ {
        Ok(
            CommandView::Ask(
                match params.at("text"@).as_text() {
                    Some(t) => t,
                    None => ""@,
                },
            ),
        )
    } else if method == "approve"@ {
        match params.at("approval_id"@).as_u64() {
            Some(id) => Ok(CommandView::Approve(id)),
            None => Err("approve 需要 approval_id"@),
        }
    } else if method == "deny"@ {
        match params.at("approval_id"@).as_u64() {
            Some(id) => Ok(CommandView::Deny(id)),
            None => Err("deny 需要 approval_id"@),
        }
    } else if method == "cancel"@ {
        Ok(CommandView::Cancel)
    } else if method == "status"@ {
        Ok(CommandView::Status)
    } else if method == "new_session"@ {
        Ok(CommandView::NewSession)
    } else {
        Ok(CommandView::Unknown(method))
    }
}

/// What a method asks for with its parameters.
pub fn method_command(method: &str, params: &Json) -> (r: Result<RpcCommand, String>)
    ensures
        command_result(r) == method_spec(method@, params@),
{
    if same(method, "ask") {
        let text = match params.text_at("text") {
            Some(t) => t.to_owned(),
            None => "".to_owned(),
        };
        return Ok(RpcCommand::Ask { text });
    }
    if same(method, "approve") {
        return match params.u64_at("approval_id") {
            Some(approval_id) => Ok(RpcCommand::Approve { approval_id }),
            None => Err("approve 需要 approval_id".to_owned()),
        };
    }
    if same(method, "deny") {
        return match params.u64_at("approval_id") {
            Some(approval_id) => Ok(RpcCommand::Deny { approval_id }),
            None => Err("deny 需要 approval_id".to_owned()),
        };
    }
    if same(method, "cancel") {
        return Ok(RpcCommand::Cancel);
    }
    if same(method, "status") {
        return Ok(RpcCommand::Status);
    }
    if same(method, "new_session") {
        return Ok(RpcCommand::NewSession);
    }
    Ok(RpcCommand::Unknown { method: method.to_owned() })
}

/// The method of a message and its parameters: members of an object, or the
/// first one or two items of an array that holds no more.
pub open spec fn wire_parts(v: JsonView) -> Option<(Seq<char>, JsonView)> {
    match v {
        JsonView::Object(_) => match v.at("method"@).as_text() {
            Some(m) => Some((m, v.at("params"@))),
            None => None,
        },
        JsonView::Array(items) => if items.len() == 1 || items.len() == 2 {
            match items[0].as_text() {
                Some(m) => Some(
                    (
                        m,
                        if items.len() == 2 {
                            items[1]
                        } else {
                            JsonView::Null
                        },
                    ),
                ),
                None => None,
            }
        } else {
            None
        },
        _ => None,
    }
}

/// The command that a message stands for.
pub open spec fn command_spec(v: JsonView) -> Result<CommandView, Seq<char>> {
    match wire_parts(v) {
        Some((method, params)) => method_spec(method, params),
        None => Err("RPC 命令必须是 JSON 对象"@),
    }
}

/// The command that a message stands for.
pub fn command_of(value: &Json) -> (r: Result<RpcCommand, String>)
    ensures
        command_result(r) == command_spec(value@),
{
    match value {
        Json::Object(_) => {
            if let Some(method) = value.text_at("method") {
                return match value.get("params") {
                    Some(params) => method_command(method, params),
                    None => method_command(method, &Json::Null),
                };
            }
        },
        Json::Array(items) => {
            let n: usize = items.len();
            if n == 1 || n == 2 {
                assert(value@.items()[0] == items@[0]@);
                if let Some(method) = items[0].as_str() {
                    if n == 2 {
                        assert(value@.items()[1] == items@[1]@);
                        return method_command(method, &items[1]);
                    }
                    return method_command(method, &Json::Null);
                }
            }
        },
        _ => {},
    }
    Err("RPC 命令必须是 JSON 对象".to_owned())
}

/// The names of an object's members as they are written, found character by
/// character.
#[verifier::ext_equal]
pub struct NamesView {
    /// How many objects and arrays are open.
    pub depth: nat,
    /// Whether a string of the outermost object would be a member's name.
    pub name_next: bool,
    /// Whether a string is open, and whether its next character is escaped.
    pub string: bool,
    pub escaped: bool,
    /// The string that is open, from its first quote on.
    pub token: Seq<char>,
    pub names: Seq<Seq<char>>,
}

pub open spec fn no_names() -> NamesView {
    NamesView {
        depth: 0,
        name_next: false,
        string: false,
        escaped: false,
        token: Seq::empty(),
        names: Seq::empty(),
    }
}

impl NamesView {
    pub open spec fn take(self, c: char) -> NamesView {
        if self.string {
            let token = self.token.push(c);
            if self.escaped || c != '"' {
                NamesView { token, escaped: !self.escaped && c == '\\', ..self }
            } else {
                let named = self.depth == 1 && self.name_next;
                NamesView {
                    token: Seq::empty(),
                    string: false,
                    name_next: self.name_next && !named,
                    names: if named {
                        self.names.push(token)
                    } else {
                        self.names
                    },
                    ..self
                }
            }
        } else if c == '"' {
            NamesView { string: true, token: seq![c], ..self }
        } else if c == '{' || c == '[' {
            NamesView { depth: self.depth + 1, name_next: c == '{' && self.depth == 0, ..self }
        } else if c == '}' || c == ']' {
            NamesView {
                depth: if self.depth > 0 {
                    (self.depth - 1) as nat
                } else {
                    0
                },
                ..self
            }
        } else if c == ',' && self.depth == 1 {
            NamesView { name_next: true, ..self }
        } else {
            self
        }
    }

    pub open spec fn take_all(self, text: Seq<char>) -> NamesView
        decreases text.len(),
    {
        if text.len() == 0 {
            self
        } else {
            self.take_all(text.drop_last()).take(text.last())
        }
    }
}

/// Whether a name as it is written stands for `key`.
pub open spec fn spells(key: Seq<char>) -> spec_fn(Seq<char>) -> bool {
    |token: Seq<char>| json_parse(token) == Ok::<JsonView, Seq<char>>(JsonView::Text(key))
}

/// Whether the text of an object has a member more than once.
pub open spec fn repeats(line: Seq<char>, key: Seq<char>) -> bool {
    no_names().take_all(line).names.filter(spells(key)).len() > 1
}

/// The names of an object's members as they are written.
fn written_names(line: &str) -> (r: Vec<String>)
    ensures
        views(r@) == no_names().take_all(line@).names,
{
    let c = chars_of(line);
    let mut depth: usize = 0;
    let mut name_next = false;
    let mut string = false;
    let mut escaped = false;
    let mut token = String::new();
    let mut names: Vec<String> = Vec::new();
    assert(views(names@) =~= Seq::empty());
    assert(token@ =~= Seq::empty());
    assert(c@.take(0) =~= Seq::empty());
    for i in 0..c.len()
        invariant
            c@ == line@,
            depth <= i,
            (NamesView {
                depth: depth as nat,
                name_next,
                string,
                escaped,
                token: token@,
                names: views(names@),
            }) == no_names().take_all(line@.take(i as int)),
    {
        assert(line@.take(i + 1).drop_last() =~= line@.take(i as int));
        let d: char = c[i];
        if string {
            token.push(d);
            if escaped || d != '"' {
                escaped = !escaped && d == '\\';
            } else {
                string = false;
                if depth == 1 && name_next {
                    name_next = false;
                    proof {
                        lemma_views_push(names@, token);
                    }
                    names.push(token);
                }
                token = String::new();
                assert(token@ =~= Seq::empty());
            }
        } else if d == '"' {
            string = true;
            token = String::new();
            token.push(d);
            assert(token@ =~= seq![d]);
        } else if d == '{' || d == '[' {
            name_next = d == '{' && depth == 0;
            depth += 1;
        } else if d == '}' || d == ']' {
            if depth > 0 {
                depth -= 1;
            }
        } else if d == ',' && depth == 1 {
            name_next = true;
        }
    }
    assert(c@.take(c@.len() as int) =~= line@);
    names
}

/// Whether a name occurs more than once among those that are written.
fn spelled_again(names: &Vec<String>, key: &str) -> (r: bool)
    ensures
        r == (views(names@).filter(spells(key@)).len() > 1),
{
    let ghost all = views(names@);
    let mut n: usize = 0;
    proof {
        lemma_filter_empty(all, spells(key@));
    }
    for i in 0..names.len()
        invariant
            all == views(names@),
            n <= i,
            n == all.take(i as int).filter(spells(key@)).len(),
    {
        proof {
            lemma_filter_step(all, i as int, spells(key@));
        }
        if let Ok(Json::Text(name)) = parse(&names[i]) {
            if same(&name, key) {
                n += 1;
            }
        }
    }
    assert(all.take(names@.len() as int) =~= all);
    n > 1
}

/// What a line stands for that holds the given value. An object may give its
/// method and its parameters once.
pub open spec fn line_spec(line: Seq<char>, v: JsonView) -> Result<CommandView, Seq<char>> {
    if v is Object && (repeats(line, "method"@) || repeats(line, "params"@)) {
        Err("RPC 命令必须是 JSON 对象"@)
    } else {
        command_spec(v)
    }
}

/// The command that a line stands for.
pub fn parse_command(line: &str) -> (r: Result<RpcCommand, String>)
    ensures
        command_result(r) == match json_parse(line@) {
            Ok(v) => line_spec(line@, v),
            Err(_) => Err("RPC 命令必须是 JSON 对象"@),
        },
{
    match parse(line) {
        Ok(value) => {
            if let Json::Object(_) = value {
                let names = written_names(line);
                if spelled_again(&names, "method") || spelled_again(&names, "params") {
                    return Err("RPC 命令必须是 JSON 对象".to_owned());
                }
            }
            command_of(&value)
        },
        Err(_) => Err("RPC 命令必须是 JSON 对象".to_owned()),
    }
}

} // verus!
