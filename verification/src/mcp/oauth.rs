//! Signing in to a remote server in the browser.
use vstd::prelude::*;
use crate::mcp::names::{sanitize, sanitized};
use crate::paths::{join_path, join_path_spec};
use crate::text::chars::{byte_len, decode_lossy, lossy_text, utf8_len, view_opt, views};
use crate::text::number::{dec, decimal_size};
use crate::text::pieces::{lines, lines_spec, words, words_spec};
use crate::text::search::{contains, has_text};

verus! {

/// A server's name as it can stand in a file name.
pub fn sanitize_server_name(name: &str) -> (r: String)
    ensures
        r@ == sanitized(name@, "server"@),
{
    sanitize(name, "server")
}

/// The directory of the credentials: the one that is set, else one under the
/// home directory.
pub open spec fn oauth_dir_spec(configured: Option<Seq<char>>, home: Option<Seq<char>>) -> Option<
    Seq<char>,
> {
    match configured {
        Some(dir) => Some(dir),
        None => match home {
            Some(h) => Some(join_path_spec(join_path_spec(h, ".asteria"@), "oauth"@)),
            None => None,
        },
    }
}

/// The file of a server's credentials.
pub open spec fn store_path_spec(
    server: Seq<char>,
    configured: Option<Seq<char>>,
    home: Option<Seq<char>>,
) -> Option<Seq<char>> {
    match oauth_dir_spec(configured, home) {
        Some(dir) => Some(join_path_spec(dir, sanitized(server, "server"@) + ".json"@)),
        None => None,
    }
}

/// The file of a server's credentials.
pub fn oauth_store_path(server_name: &str, configured: Option<String>, home: Option<String>) -> (r:
    Option<String>)
    ensures
        view_opt(r) == store_path_spec(server_name@, view_opt(configured), view_opt(home)),
{
    let dir = match configured {
        Some(d) => d,
        None => match home {
            Some(h) => join_path(&join_path(&h, ".asteria"), "oauth"),
            None => {
                return None;
            },
        },
    };
    let mut file = sanitize_server_name(server_name);
    file.append(".json");
    Some(join_path(&dir, &file))
}

/// Where the credentials of a server are kept.
#[derive(Clone, Debug)]
pub struct FileCredentialStore {
    path: String,
}

impl FileCredentialStore {
    pub closed spec fn file(&self) -> Seq<char> {
        self.path@
    }

    /// The place for the credentials of a server, where there is a directory
    /// for them.
    pub fn for_server(server_name: &str, configured: Option<String>, home: Option<String>) -> (r:
        Option<FileCredentialStore>)
        ensures
            match r {
                Some(s) => store_path_spec(
                    server_name@,
                    view_opt(configured),
                    view_opt(home),
                ) == Some(s.file()),
                None => store_path_spec(
                    server_name@,
                    view_opt(configured),
                    view_opt(home),
                ) is None,
            },
    {
        match oauth_store_path(server_name, configured, home) {
            Some(path) => Some(FileCredentialStore { path }),
            None => None,
        }
    }

    /// The file of the credentials.
    pub fn path(&self) -> (r: &str)
        ensures
            r@ == self.file(),
    {
        self.path.as_str()
    }
}

/// The address to which the browser comes back.
pub fn redirect_uri(port: u16) -> (r: String)
    ensures
        r@ == "http://127.0.0.1:"@ + dec(port as nat) + "/callback"@,
{
    let mut r = "http://127.0.0.1:".to_owned();
    r.append(decimal_size(port as usize).as_str());
    r.append("/callback");
    r
}

/// The path that a request asks for, empty where it asks for none.
pub open spec fn requested_path(request: Seq<char>) -> Seq<char> {
    let list = lines_spec(request);
    if list.len() == 0 {
        Seq::empty()
    } else {
        let parts = words_spec(list[0]);
        if parts.len() < 2 {
            Seq::empty()
        } else {
            parts[1]
        }
    }
}

/// What to do about a request to the callback address: answer with the page
/// and, unless it has nothing to do with signing in, stop waiting.
#[derive(Clone, Debug, PartialEq)]
pub enum CallbackReply {
    /// Something else was asked for.
    NotFound(String),
    /// Signing in was refused, with this reason.
    Denied(String, String),
    /// Signing in succeeded, with this address.
    Accepted(String, String),
}

#[verifier::ext_equal]
pub enum CallbackView {
    NotFound(Seq<char>),
    Denied(Seq<char>, Seq<char>),
    Accepted(Seq<char>, Seq<char>),
}

impl View for CallbackReply {
    type V = CallbackView;

    open spec fn view(&self) -> CallbackView {
        match self {
            CallbackReply::NotFound(page) => CallbackView::NotFound(page@),
            CallbackReply::Denied(page, reason) => CallbackView::Denied(page@, reason@),
            CallbackReply::Accepted(page, url) => CallbackView::Accepted(page@, url@),
        }
    }
}

/// The answer of a server to a request.
pub open spec fn http_response(status: u16, body: Seq<char>) -> Seq<char> {
    "HTTP/1.1 "@ + dec(status as nat) + " "@ + (if status == 200 {
        "OK"@
    } else {
        "Not Found"@
    }) + "\r\nContent-Type: text/html; charset=utf-8\r\nContent-Length: "@ + dec(byte_len(body))
        + "\r\nConnection: close\r\n\r\n"@ + body
}

fn write_response(status: u16, body: &str) -> (r: String)
    ensures
        r@ == http_response(status, body@),
{
    let mut r = "HTTP/1.1 ".to_owned();
    r.append(decimal_size(status as usize).as_str());
    r.append(" ");
    r.append(
        if status == 200 {
            "OK"
        } else {
            "Not Found"
        },
    );
    r.append("\r\nContent-Type: text/html; charset=utf-8\r\nContent-Length: ");
    r.append(decimal_size(utf8_len(body)).as_str());
    r.append("\r\nConnection: close\r\n\r\n");
    r.append(body);
    r
}

/// What to do about a request to the callback address.
pub open spec fn callback_spec(request: Seq<char>) -> CallbackView {
    let path = requested_path(request);
    if has_text(path, "error="@) {
        CallbackView::Denied(
            http_response(
                200,
                "<html><body>授权失败，可以关闭此窗口返回 Asteria。</body></html>"@,
            ),
            "OAuth 授权被拒绝或失败: "@ + path,
        )
    } else if has_text(path, "code="@) && has_text(path, "state="@) {
        CallbackView::Accepted(
            http_response(
                200,
                "<html><body>Asteria 已完成授权，可以关闭此窗口。</body></html>"@,
            ),
            "http://127.0.0.1"@ + path,
        )
    } else {
        CallbackView::NotFound(http_response(404, "<html><body>Not Found</body></html>"@))
    }
}

/// What to do about a request that was read as this text.
pub fn callback_text(request: &str) -> (r: CallbackReply)
    ensures
        r@ == callback_spec(request@),
{
    let list = lines(request);
    let mut path = String::new();
    assert(path@ =~= Seq::empty());
    if list.len() > 0 {
        assert(views(list@)[0] == list@[0]@);
        let parts = words(&list[0]);
        assert(views(parts@).len() == parts@.len());
        if parts.len() >= 2 {
            assert(views(parts@)[1] == parts@[1]@);
            path = parts[1].clone();
        }
    } else {
        assert(views(list@).len() == 0);
    }
    if contains(&path, "error=") {
        let mut reason = "OAuth 授权被拒绝或失败: ".to_owned();
        reason.append(path.as_str());
        CallbackReply::Denied(
            write_response(
                200,
                "<html><body>授权失败，可以关闭此窗口返回 Asteria。</body></html>",
            ),
            reason,
        )
    } else if contains(&path, "code=") && contains(&path, "state=") {
        let mut url = "http://127.0.0.1".to_owned();
        url.append(path.as_str());
        CallbackReply::Accepted(
            write_response(
                200,
                "<html><body>Asteria 已完成授权，可以关闭此窗口。</body></html>",
            ),
            url,
        )
    } else {
        CallbackReply::NotFound(write_response(404, "<html><body>Not Found</body></html>"))
    }
}

/// What to do about a request of these bytes.
pub fn callback(request: &[u8]) -> (r: CallbackReply)
    ensures
        r@ == callback_spec(lossy_text(request@)),
{
    callback_text(&decode_lossy(request))
}

} // verus!
