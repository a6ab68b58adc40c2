//! The names under which remote tools are offered.
use vstd::prelude::*;
use crate::hashing::{fnv1a, hash_text};
use crate::text::chars::{ascii_alnum, chars_of, is_ascii_alnum, take_chars};
use crate::text::number::{hex, hexadecimal, lemma_hex_width};
use crate::text::search::has_prefix;

verus! {

/// Letters, digits, underscores and dashes.
pub open spec fn is_name_char(c: char) -> bool {
    is_ascii_alnum(c) || c == '_' || c == '-'
}

pub open spec fn name_char(c: char) -> char {
    if is_name_char(c) {
        c
    } else {
        '_'
    }
}

/// A name with underscores in place of other characters, or a default in
/// place of nothing.
pub open spec fn sanitized(name: Seq<char>, default: Seq<char>) -> Seq<char> {
    if name.len() == 0 {
        default
    } else {
        name.map_values(|c: char| name_char(c))
    }
}

/// A name with underscores in place of other characters.
pub fn sanitize(name: &str, default: &str) -> (r: String)
    ensures
        r@ == sanitized(name@, default@),
{
    let c = chars_of(name);
    if c.len() == 0 {
        return default.to_owned();
    }
    let ghost f = |c: char| name_char(c);
    let mut r = String::new();
    for i in 0..c.len()
        invariant
            c@ == name@,
            f == (|c: char| name_char(c)),
            r@ =~= name@.take(i as int).map_values(f),
    {
        let x = c[i];
        let y = if ascii_alnum(x) || x == '_' || x == '-' {
            x
        } else {
            '_'
        };
        assert(name@.take(i + 1).map_values(f) =~= name@.take(i as int).map_values(f).push(y));
        r.push(y);
    }
    assert(name@.take(name@.len() as int) =~= name@);
    r
}

/// The name of a remote tool with that of its server in front.
pub open spec fn long_name(server: Seq<char>, tool: Seq<char>) -> Seq<char> {
    "mcp__"@ + sanitized(server, "unnamed"@) + "__"@ + sanitized(tool, "unnamed"@)
}

/// Eight hexadecimal digits of a hash.
pub open spec fn short_hash(text: Seq<char>) -> Seq<char> {
    hex(fnv1a(vstd::utf8::encode_utf8(text)) as nat, 8).take(8)
}

/// The name under which a remote tool is offered: of one that is too long,
/// the start and a hash of the whole.
pub open spec fn exposed_name(server: Seq<char>, tool: Seq<char>) -> Seq<char> {
    let name = long_name(server, tool);
    if name.len() <= 64 {
        name
    } else {
        name.take(55) + "_"@ + short_hash(server + "\0"@ + tool)
    }
}

/// The name under which a remote tool is offered.
pub fn namespaced_tool_name(server_name: &str, tool_name: &str) -> (r: String)
    ensures
        r@ == exposed_name(server_name@, tool_name@),
{
    let mut name = "mcp__".to_owned();
    name.append(sanitize(server_name, "unnamed").as_str());
    name.append("__");
    name.append(sanitize(tool_name, "unnamed").as_str());
    if name.as_str().unicode_len() <= 64 {
        return name;
    }
    let mut key = server_name.to_owned();
    key.append("\0");
    key.append(tool_name);
    let hash: u64 = hash_text(&key);
    let digits = hexadecimal(hash, 8);
    proof {
        lemma_hex_width(hash as nat, 8);
    }
    let short = take_chars(&digits, 8);
    assert(short@ =~= short_hash(key@));
    let mut r = take_chars(&name, 55);
    r.append("_");
    r.append(short.as_str());
    r
}

pub open spec fn all_name_chars(s: Seq<char>) -> bool {
    forall|i: int| 0 <= i < s.len() ==> is_name_char(#[trigger] s[i])
}

proof fn lemma_sanitized(name: Seq<char>, default: Seq<char>)
    requires
        all_name_chars(default),
    ensures
        all_name_chars(sanitized(name, default)),
{
    assert(is_name_char('_'));
}

proof fn lemma_hex_chars(n: nat, width: nat)
    ensures
        all_name_chars(hex(n, width)),
    decreases n, width,
{
    if !(n < 16 && width <= 1) {
        lemma_hex_chars(n / 16, if width == 0 { 0 } else { (width - 1) as nat });
    }
}

/// The name of a remote tool never exceeds 64 characters, begins with
/// `mcp__`, and holds letters, digits, underscores and dashes only.
pub proof fn law_exposed_names_are_valid(server: Seq<char>, tool: Seq<char>)
    ensures
        exposed_name(server, tool).len() <= 64,
        has_prefix(exposed_name(server, tool), "mcp__"@),
        all_name_chars(exposed_name(server, tool)),
{
    reveal_strlit("mcp__");
    reveal_strlit("__");
    reveal_strlit("_");
    reveal_strlit("unnamed");
    assert(all_name_chars("unnamed"@));
    lemma_sanitized(server, "unnamed"@);
    lemma_sanitized(tool, "unnamed"@);
    let name = long_name(server, tool);
    assert(all_name_chars("mcp__"@) && all_name_chars("__"@) && all_name_chars("_"@));
    assert(all_name_chars(name));
    let key = server + "\0"@ + tool;
    let n = fnv1a(vstd::utf8::encode_utf8(key)) as nat;
    lemma_hex_width(n, 8);
    lemma_hex_chars(n, 8);
    let r = exposed_name(server, tool);
    assert(r.subrange(0, 5) =~= "mcp__"@);
    if name.len() > 64 {
        assert forall|i: int| 0 <= i < r.len() implies is_name_char(#[trigger] r[i]) by {
            if i < 55 {
                assert(r[i] == name[i]);
            } else if i > 55 {
                assert(r[i] == hex(n, 8)[i - 56]);
            } else {
                assert(r[i] == '_');
            }
        }
    }
}

/// Sanitizing a name twice changes nothing more.
pub proof fn law_sanitizing_is_idempotent(name: Seq<char>, default: Seq<char>)
    requires
        default.len() > 0,
        all_name_chars(default),
    ensures
        sanitized(sanitized(name, default), default) == sanitized(name, default),
{
    lemma_sanitized(name, default);
    let once = sanitized(name, default);
    assert(once.len() > 0);
    assert(sanitized(once, default) =~= once);
}

} // verus!
