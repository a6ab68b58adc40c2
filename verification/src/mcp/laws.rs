//! What holds of the servers, their settings and their tools.
use vstd::prelude::*;
use crate::json::JsonView;
use crate::mcp::config::{all_headers, bearer, expanded, header_name_meaning, in_workspace, loaded_servers, lookup, merged, offers, resolved_value, server_fault, start_directory, transport_fault, unknown_variable, uri_meaning, with_header, with_server, ConfigFile, HeadersView, McpServerConfig, McpServerDefinition};
use crate::mcp::manager::{adopted, challenge_of, failure_of, failures, insert_status, sorted_statuses, status_position, FailureCause, ManagerView, StatusView};
use crate::mcp::names::{exposed_name, is_name_char, long_name, sanitized};
use crate::mcp::oauth::{callback_spec, http_response, requested_path, store_path_spec, CallbackView};
use crate::mcp::tool::{answer_texts, block_text, ContentBlock};
use crate::path_laws::{is_plain_relative, law_file_names_come_last, law_joined_paths_have_all_components};
use crate::paths::{file_name_spec, is_absolute_spec, law_parent_drops_the_last_component, parent_spec, parts_spec, same_path_spec, text_order, within_spec, Order};
use crate::text::chars::{ascii_lower, byte_len, is_white, views};
use crate::text::laws::{law_one_piece_stays_whole, law_pieces_in_two, law_replacing_changes_every_place, law_text_order_is_total, law_text_order_is_transitive, lemma_trim_nothing};
use crate::text::number::dec;
use crate::text::pieces::{lines_spec, pieces, without_return, words_spec, CharClass};
use crate::text::search::{find_from, halves, has_text, lemma_find_from, occurs_at};

verus! {

/// The first setting of a name counts.
pub proof fn law_first_setting_counts(env: Seq<(String, String)>, name: Seq<char>, k: int)
    requires
        0 <= k < env.len(),
        env[k].0@ == name,
        forall|i: int| 0 <= i < k ==> (#[trigger] env[i]).0@ != name,
    ensures
        lookup(env, name) == Some(env[k].1@),
    decreases env.len(),
{
    if k > 0 {
        let rest = env.skip(1);
        assert(env[0].0@ != name);
        assert forall|i: int| 0 <= i < k - 1 implies (#[trigger] rest[i]).0@ != name by {
            assert(rest[i] == env[i + 1]);
        }
        law_first_setting_counts(rest, name, k - 1);
    }
}

/// A name that is not set is not found.
pub proof fn law_missing_settings_are_not_found(env: Seq<(String, String)>, name: Seq<char>)
    requires
        forall|i: int| 0 <= i < env.len() ==> (#[trigger] env[i]).0@ != name,
    ensures
        lookup(env, name) is None,
    decreases env.len(),
{
    if env.len() > 0 {
        let rest = env.skip(1);
        assert(env[0].0@ != name);
        assert forall|i: int| 0 <= i < rest.len() implies (#[trigger] rest[i]).0@ != name by {
            assert(rest[i] == env[i + 1]);
        }
        law_missing_settings_are_not_found(rest, name);
    }
}

/// References to the environment are replaced by the values that they name, one
/// after the other, and the text between them stays. A name that is not set is
/// refused, and a text without references stays as it is.
pub proof fn law_references_are_replaced(
    a: Seq<char>,
    name: Seq<char>,
    b: Seq<char>,
    env: Seq<(String, String)>,
)
    requires
        !has_text(a, "${"@),
        name.len() > 0,
        !name.contains('}'),
    ensures
        expanded(a, env) == Ok::<Seq<char>, Seq<char>>(a),
        lookup(env, name) is None ==> expanded(a + "${"@ + name + "}"@ + b, env) == Err::<
            Seq<char>,
            Seq<char>,
        >(unknown_variable(name)),
        lookup(env, name) matches Some(value) ==> match expanded(b, env) {
            Ok(rest) => expanded(a + "${"@ + name + "}"@ + b, env) == Ok::<Seq<char>, Seq<char>>(
                a + value + rest,
            ),
            Err(e) => expanded(a + "${"@ + name + "}"@ + b, env) == Err::<Seq<char>, Seq<char>>(e),
        },
{
    reveal_strlit("${");
    reveal_strlit("}");
    let open = "${"@;
    lemma_find_from(a, open, 0);
    if find_from(a, open, 0) is Some {
        assert(occurs_at(a, open, find_from(a, open, 0)->0));
    }
    let s = a + open + name + "}"@ + b;
    let n = a.len() as int;
    lemma_find_from(s, open, 0);
    assert(s.subrange(n, n + 2) =~= open);
    assert(occurs_at(s, open, n));
    let i = find_from(s, open, 0)->0;
    if i < n {
        assert(s.subrange(i, i + 2)[1] == '{');
        if i + 1 < n {
            assert(a.subrange(i, i + 2) =~= s.subrange(i, i + 2));
            assert(occurs_at(a, open, i));
        } else {
            assert(s[i + 1] == '$');
        }
    }
    let rest = name + "}"@ + b;
    assert(s.skip(n + 2) =~= rest);
    lemma_find_from(rest, "}"@, 0);
    let m = name.len() as int;
    assert(rest.subrange(m, m + 1) =~= "}"@);
    assert(occurs_at(rest, "}"@, m));
    let e = find_from(rest, "}"@, 0)->0;
    if e < m {
        assert(rest.subrange(e, e + 1)[0] == '}');
        assert(name[e] == '}');
    }
    assert(rest.take(m) =~= name);
    assert(rest.skip(m + 1) =~= b);
    assert(s.take(n) =~= a);
}

/// The value of a header.
pub open spec fn header(list: Seq<(Seq<char>, Seq<char>)>, name: Seq<char>) -> Option<Seq<char>>
    decreases list.len(),
{
    if list.len() == 0 {
        None
    } else if list[0].0 == name {
        Some(list[0].1)
    } else {
        header(list.skip(1), name)
    }
}

/// A header that is set has its new value, and no other header changes.
pub proof fn law_setting_a_header_changes_that_one(
    list: Seq<(Seq<char>, Seq<char>)>,
    name: Seq<char>,
    value: Seq<char>,
    other: Seq<char>,
)
    ensures
        header(with_header(list, name, value), other) == if other == name {
            Some(value)
        } else {
            header(list, other)
        },
    decreases list.len(),
{
    let r = with_header(list, name, value);
    if list.len() == 0 {
        assert(r.skip(1) =~= list);
    } else if list[0].0 == name {
        assert(r.skip(1) =~= list.skip(1));
    } else {
        law_setting_a_header_changes_that_one(list.skip(1), name, value, other);
        assert(r.skip(1) =~= with_header(list.skip(1), name, value));
    }
}

/// Of settings for the same header, whatever the case of its name, the last one
/// counts, with its references replaced.
pub proof fn law_the_last_header_counts(
    list: Seq<(String, String)>,
    env: Seq<(String, String)>,
    k: int,
    name: Seq<char>,
)
    requires
        0 <= k < list.len(),
        header_name_meaning(list[k].0@) == Some(name),
        name != "authorization"@,
        forall|i: int|
            k < i < list.len() ==> header_name_meaning((#[trigger] list[i]).0@) != Some(name),
    ensures
        all_headers(list, env) matches Ok(h) ==> expanded(list[k].1@, env) is Ok && header(
            h.headers,
            name,
        ) == Some(expanded(list[k].1@, env)->Ok_0),
    decreases list.len(),
{
    let front = list.drop_last();
    let last = list.len() - 1;
    if all_headers(list, env) is Ok {
        let before = all_headers(front, env)->Ok_0;
        let (n, v) = (header_name_meaning(list.last().0@)->0, expanded(list.last().1@, env)->Ok_0);
        if n != "authorization"@ {
            law_setting_a_header_changes_that_one(before.headers, n, v, name);
        }
        if k < last {
            assert(header_name_meaning(list[last].0@) != Some(name));
            assert forall|i: int| k < i < front.len() implies header_name_meaning(
                (#[trigger] front[i]).0@,
            ) != Some(name) by {
                assert(front[i] == list[i]);
            }
            law_the_last_header_counts(front, env, k, name);
        }
    }
}

/// The server of a name.
pub open spec fn server_of(list: Seq<McpServerDefinition>, name: Seq<char>) -> Option<
    McpServerDefinition,
>
    decreases list.len(),
{
    if list.len() == 0 {
        None
    } else if list[0].name@ == name {
        Some(list[0])
    } else {
        server_of(list.skip(1), name)
    }
}

/// The servers stand in the order of their names, each once.
pub open spec fn by_name(list: Seq<McpServerDefinition>) -> bool {
    forall|i: int, j: int|
        #![trigger list[i], list[j]]
        0 <= i < j < list.len() ==> text_order(list[i].name@, list[j].name@) == Order::Less
}

proof fn lemma_less_twice(a: Seq<char>, b: Seq<char>, c: Seq<char>)
    requires
        text_order(a, b) == Order::Less,
        text_order(b, c) == Order::Less,
    ensures
        text_order(a, c) == Order::Less,
{
    law_text_order_is_total(a, b);
    law_text_order_is_total(b, c);
    law_text_order_is_total(a, c);
    law_text_order_is_total(b, a);
    law_text_order_is_total(c, b);
    law_text_order_is_total(c, a);
    law_text_order_is_transitive(a, b, c);
    if a == c {
        assert(text_order(b, a) == Order::Less);
    }
}

/// A server that is set up takes the place of the one of its name, no other
/// server changes, and they stay in the order of their names.
pub proof fn law_setting_up_a_server_changes_that_one(
    list: Seq<McpServerDefinition>,
    s: McpServerDefinition,
    name: Seq<char>,
)
    requires
        by_name(list),
    ensures
        by_name(with_server(list, s)),
        server_of(with_server(list, s), name) == if name == s.name@ {
            Some(s)
        } else {
            server_of(list, name)
        },
        with_server(list, s).len() > 0,
        with_server(list, s)[0] == s || (list.len() > 0 && with_server(list, s)[0] == list[0]),
    decreases list.len(),
{
    let r = with_server(list, s);
    if list.len() == 0 {
        assert(r.skip(1) =~= list);
    } else {
        let rest = list.skip(1);
        law_text_order_is_total(s.name@, list[0].name@);
        law_text_order_is_total(list[0].name@, s.name@);
        assert forall|i: int, j: int|
            #![trigger rest[i], rest[j]]
            0 <= i < j < rest.len() implies text_order(rest[i].name@, rest[j].name@)
            == Order::Less by {
            assert(rest[i] == list[i + 1] && rest[j] == list[j + 1]);
        }
        match text_order(s.name@, list[0].name@) {
            Order::Equal => {
                assert(r.skip(1) =~= rest);
                assert forall|i: int, j: int|
                    #![trigger r[i], r[j]]
                    0 <= i < j < r.len() implies text_order(r[i].name@, r[j].name@)
                    == Order::Less by {
                    assert(r[j] == list[j]);
                    assert(text_order(list[i].name@, list[j].name@) == Order::Less);
                }
            },
            Order::Less => {
                assert(r.skip(1) =~= list);
                assert forall|i: int, j: int|
                    #![trigger r[i], r[j]]
                    0 <= i < j < r.len() implies text_order(r[i].name@, r[j].name@)
                    == Order::Less by {
                    assert(r[j] == list[j - 1]);
                    if i > 0 {
                        assert(r[i] == list[i - 1]);
                    } else if j > 1 {
                        assert(text_order(list[0].name@, list[j - 1].name@) == Order::Less);
                        lemma_less_twice(s.name@, list[0].name@, list[j - 1].name@);
                    }
                }
                if name == s.name@ {
                } else {
                    assert(r[0] == s);
                }
            },
            Order::Greater => {
                law_setting_up_a_server_changes_that_one(rest, s, name);
                let w = with_server(rest, s);
                assert(r.skip(1) =~= w);
                assert forall|i: int, j: int|
                    #![trigger r[i], r[j]]
                    0 <= i < j < r.len() implies text_order(r[i].name@, r[j].name@)
                    == Order::Less by {
                    assert(r[j] == w[j - 1]);
                    if i > 0 {
                        assert(r[i] == w[i - 1]);
                    } else {
                        assert(text_order(list[0].name@, w[0].name@) == Order::Less) by {
                            if w[0] != s {
                                assert(w[0] == list[1]);
                            }
                        }
                        if j > 1 {
                            assert(text_order(w[0].name@, w[j - 1].name@) == Order::Less);
                            lemma_less_twice(list[0].name@, w[0].name@, w[j - 1].name@);
                        }
                    }
                }
            },
        }
    }
}

/// Reading a file sets up its servers and leaves the others as they are; it is
/// refused exactly where one of its servers is.
pub proof fn law_files_set_up_their_servers(
    list: Seq<McpServerDefinition>,
    path: Seq<char>,
    servers: Seq<McpServerDefinition>,
    name: Seq<char>,
)
    requires
        by_name(list),
    ensures
        merged(list, path, servers) is Err <==> exists|i: int|
            0 <= i < servers.len() && server_fault(path, #[trigger] servers[i]) is Some,
        merged(list, path, servers) matches Ok(all) ==> by_name(all) && ((forall|i: int|
            0 <= i < servers.len() ==> (#[trigger] servers[i]).name@ != name) ==> server_of(all, name)
            == server_of(list, name)),
    decreases servers.len(),
{
    if servers.len() > 0 {
        let next = with_server(list, servers[0]);
        let rest = servers.skip(1);
        law_setting_up_a_server_changes_that_one(list, servers[0], name);
        law_files_set_up_their_servers(next, path, rest, name);
        if server_fault(path, servers[0]) is None {
            if exists|i: int|
                0 <= i < servers.len() && server_fault(path, #[trigger] servers[i]) is Some {
                let i = choose|i: int|
                    0 <= i < servers.len() && server_fault(path, #[trigger] servers[i]) is Some;
                assert(rest[i - 1] == servers[i]);
            }
            if exists|i: int| 0 <= i < rest.len() && server_fault(path, #[trigger] rest[i]) is Some {
                let i = choose|i: int|
                    0 <= i < rest.len() && server_fault(path, #[trigger] rest[i]) is Some;
                assert(servers[i + 1] == rest[i]);
            }
            if forall|i: int| 0 <= i < servers.len() ==> (#[trigger] servers[i]).name@ != name {
                assert(servers[0].name@ != name);
                assert forall|i: int| 0 <= i < rest.len() implies (#[trigger] rest[i]).name@
                    != name by {
                    assert(rest[i] == servers[i + 1]);
                }
            }
        }
    }
}

/// The tools of a server that are offered: each under the name that is made of
/// the server's and its own, in the order in which the server told them, and only
/// where the settings allow it.
pub proof fn law_adopted_tools_are_those_offered(
    taken: Seq<Seq<char>>,
    config: McpServerConfig,
    server: Seq<char>,
    discovered: Seq<Seq<char>>,
)
    requires
        discovered.len() <= usize::MAX,
    ensures
        ({
            let a = adopted(taken, config, server, discovered);
            let allowed = config.allowed();
            let disabled = views(config.disabled_tools@);
            &&& a.names.len() == a.positions.len()
            &&& a.taken == taken + a.names
            &&& forall|i: int|
                0 <= i < a.positions.len() ==> (#[trigger] a.positions[i]) < discovered.len()
                    && a.names[i] == exposed_name(server, discovered[a.positions[i] as int])
                    && offers(allowed, disabled, discovered[a.positions[i] as int])
                    && !taken.contains(a.names[i])
            &&& forall|i: int, j: int|
                0 <= i < j < a.positions.len() ==> (#[trigger] a.positions[i]) < (
                #[trigger] a.positions[j])
            &&& forall|k: int|
                0 <= k < discovered.len() && offers(allowed, disabled, #[trigger] discovered[k])
                    ==> taken.contains(exposed_name(server, discovered[k])) || a.names.contains(
                    exposed_name(server, discovered[k]),
                )
        }),
    decreases discovered.len(),
{
    let a = adopted(taken, config, server, discovered);
    let allowed = config.allowed();
    let disabled = views(config.disabled_tools@);
    if discovered.len() == 0 {
        assert(taken + a.names =~= taken);
    } else {
        let front = discovered.drop_last();
        let b = adopted(taken, config, server, front);
        let last = discovered.len() - 1;
        let tool = discovered.last();
        let name = exposed_name(server, tool);
        law_adopted_tools_are_those_offered(taken, config, server, front);
        if offers(allowed, disabled, tool) && !b.taken.contains(name) {
            assert(a.taken =~= taken + a.names);
            assert(!taken.contains(name)) by {
                if taken.contains(name) {
                    let j = choose|j: int| 0 <= j < taken.len() && taken[j] == name;
                    assert(b.taken[j] == name);
                }
            }
            assert(a.names[b.names.len() as int] == name);
        }
        assert forall|i: int| 0 <= i < a.positions.len() implies (#[trigger] a.positions[i])
            < discovered.len() && a.names[i] == exposed_name(
            server,
            discovered[a.positions[i] as int],
        ) && offers(allowed, disabled, discovered[a.positions[i] as int]) && !taken.contains(
            a.names[i],
        ) by {
            if i < b.positions.len() {
                assert(a.positions[i] == b.positions[i]);
                assert(a.names[i] == b.names[i]);
                assert(discovered[b.positions[i] as int] == front[b.positions[i] as int]);
            }
        }
        assert forall|k: int|
            0 <= k < discovered.len() && offers(
                allowed,
                disabled,
                #[trigger] discovered[k],
            ) implies taken.contains(exposed_name(server, discovered[k])) || a.names.contains(
            exposed_name(server, discovered[k]),
        ) by {
            let x = exposed_name(server, discovered[k]);
            if k < last {
                assert(front[k] == discovered[k]);
                if b.names.contains(x) {
                    let j = choose|j: int| 0 <= j < b.names.len() && b.names[j] == x;
                    assert(a.names[j] == x);
                }
            } else if b.taken.contains(name) {
                let j = choose|j: int| 0 <= j < b.taken.len() && b.taken[j] == name;
                if j < taken.len() {
                    assert(taken[j] == name);
                } else {
                    assert(b.names[j - taken.len()] == name);
                    assert(a.names[j - taken.len()] == name);
                }
            }
        }
        assert forall|i: int, j: int| 0 <= i < j < a.positions.len() implies (
        #[trigger] a.positions[i]) < (#[trigger] a.positions[j]) by {
            assert(a.positions[i] == b.positions[i]);
            if j < b.positions.len() {
                assert(a.positions[j] == b.positions[j]);
            }
        }
    }
}

/// A name keeps its letters, digits, underscores and dashes where they stand, and
/// has an underscore in place of everything else.
pub proof fn law_names_keep_what_is_allowed(name: Seq<char>, default: Seq<char>, i: int)
    requires
        0 <= i < name.len(),
    ensures
        sanitized(name, default).len() == name.len(),
        is_name_char(name[i]) ==> sanitized(name, default)[i] == name[i],
        !is_name_char(name[i]) ==> sanitized(name, default)[i] == '_',
{
}

/// The name of a remote tool holds that of its server and its own, as long as it
/// is not too long.
pub proof fn law_remote_names_hold_server_and_tool(server: Seq<char>, tool: Seq<char>)
    requires
        server.len() > 0,
        tool.len() > 0,
        server.len() + tool.len() <= 57,
    ensures
        exposed_name(server, tool).len() == 7 + server.len() + tool.len(),
        exposed_name(server, tool).subrange(5, 5 + server.len() as int) == sanitized(
            server,
            "unnamed"@,
        ),
        exposed_name(server, tool).skip(7 + server.len() as int) == sanitized(tool, "unnamed"@),
{
    reveal_strlit("mcp__");
    reveal_strlit("__");
    let name = long_name(server, tool);
    assert(name.subrange(5, 5 + server.len() as int) =~= sanitized(server, "unnamed"@));
    assert(name.skip(7 + server.len() as int) =~= sanitized(tool, "unnamed"@));
}

/// The status of a server is the first of its name.
pub proof fn law_the_first_status_counts(list: Seq<StatusView>, name: Seq<char>, k: int)
    requires
        0 <= k < list.len(),
        list[k].name == name,
        forall|i: int| 0 <= i < k ==> (#[trigger] list[i]).name != name,
    ensures
        status_position(list, name) == Some(k),
    decreases list.len(),
{
    let front = list.drop_last();
    if k < front.len() {
        assert forall|i: int| 0 <= i < k implies (#[trigger] front[i]).name != name by {
            assert(front[i] == list[i]);
        }
        law_the_first_status_counts(front, name, k);
    } else {
        assert forall|i: int| 0 <= i < front.len() implies (#[trigger] front[i]).name != name by {
            assert(front[i] == list[i]);
        }
        lemma_no_status(front, name);
    }
}

proof fn lemma_no_status(list: Seq<StatusView>, name: Seq<char>)
    requires
        forall|i: int| 0 <= i < list.len() ==> (#[trigger] list[i]).name != name,
    ensures
        status_position(list, name) is None,
    decreases list.len(),
{
    if list.len() > 0 {
        let front = list.drop_last();
        assert(list[list.len() - 1].name != name);
        assert forall|i: int| 0 <= i < front.len() implies (#[trigger] front[i]).name != name by {
            assert(front[i] == list[i]);
        }
        lemma_no_status(front, name);
    }
}

/// No status stands behind one with a greater name.
pub open spec fn statuses_in_order(list: Seq<StatusView>) -> bool {
    forall|i: int, j: int|
        #![trigger list[i], list[j]]
        0 <= i < j < list.len() ==> text_order(list[j].name, list[i].name) != Order::Less
}

proof fn lemma_insert_status(list: Seq<StatusView>, s: StatusView)
    requires
        statuses_in_order(list),
    ensures
        statuses_in_order(insert_status(list, s)),
        insert_status(list, s).to_multiset() == list.to_multiset().insert(s),
    decreases list.len(),
{
    broadcast use vstd::seq_lib::group_to_multiset_ensures;

    let r = insert_status(list, s);
    if list.len() == 0 {
        assert(list =~= Seq::empty());
        assert(r =~= Seq::<StatusView>::empty().push(s));
    } else if text_order(s.name, list[0].name) == Order::Less {
        assert(r =~= list.insert(0, s));
        law_text_order_is_total(s.name, list[0].name);
        law_text_order_is_total(list[0].name, s.name);
        assert forall|i: int, j: int|
            #![trigger r[i], r[j]]
            0 <= i < j < r.len() implies text_order(r[j].name, r[i].name) != Order::Less by {
            assert(r[j] == list[j - 1]);
            if i > 0 {
                assert(r[i] == list[i - 1]);
            } else if j > 1 {
                assert(text_order(list[j - 1].name, list[0].name) != Order::Less);
                law_text_order_is_transitive(s.name, list[0].name, list[j - 1].name);
            }
        }
    } else {
        let rest = list.skip(1);
        assert forall|i: int, j: int|
            #![trigger rest[i], rest[j]]
            0 <= i < j < rest.len() implies text_order(rest[j].name, rest[i].name)
            != Order::Less by {
            assert(rest[i] == list[i + 1] && rest[j] == list[j + 1]);
        }
        lemma_insert_status(rest, s);
        let w = insert_status(rest, s);
        assert(r =~= w.insert(0, list[0]));
        assert(list =~= rest.insert(0, list[0]));
        assert(w.insert(0, list[0]).to_multiset() == w.to_multiset().insert(list[0]));
        assert(rest.to_multiset().insert(s).insert(list[0]) =~= rest.to_multiset().insert(
            list[0],
        ).insert(s));
        assert forall|i: int, j: int|
            #![trigger r[i], r[j]]
            0 <= i < j < r.len() implies text_order(r[j].name, r[i].name) != Order::Less by {
            assert(r[j] == w[j - 1]);
            if i > 0 {
                assert(r[i] == w[i - 1]);
            } else {
                assert(w.to_multiset().contains(w[j - 1]));
                assert(rest.to_multiset().insert(s).contains(w[j - 1]));
                if w[j - 1] != s {
                    assert(rest.to_multiset().contains(w[j - 1]));
                    assert(rest.contains(w[j - 1]));
                    let k = choose|k: int| 0 <= k < rest.len() && rest[k] == w[j - 1];
                    assert(list[k + 1] == w[j - 1]);
                }
            }
        }
    }
}

/// Sorting the statuses of servers keeps all of them and puts them in the order
/// of their names.
pub proof fn law_statuses_are_sorted_by_name(list: Seq<StatusView>)
    ensures
        statuses_in_order(sorted_statuses(list)),
        sorted_statuses(list).to_multiset() == list.to_multiset(),
    decreases list.len(),
{
    broadcast use vstd::seq_lib::group_to_multiset_ensures;

    if list.len() > 0 {
        let front = list.drop_last();
        law_statuses_are_sorted_by_name(front);
        lemma_insert_status(sorted_statuses(front), list.last());
        assert(list =~= front.push(list.last()));
    } else {
        assert(list =~= Seq::empty());
    }
}

/// Replacing a server gives it the status of the candidate and keeps those of all
/// other servers.
pub proof fn law_replacing_changes_one_server(
    m: ManagerView,
    server: Seq<char>,
    candidate: ManagerView,
    s: StatusView,
)
    requires
        candidate.replacement_fault(server) is None,
    ensures
        s.name != server ==> (m.replace(server, candidate).statuses.contains(s)
            <==> m.statuses.contains(s)),
        s.name == server ==> (m.replace(server, candidate).statuses.contains(s) <==> s
            == candidate.statuses[status_position(candidate.statuses, server)->0]),
{
    broadcast use vstd::seq_lib::group_to_multiset_ensures;

    let at = status_position(candidate.statuses, server)->0;
    lemma_status_found(candidate.statuses, server);
    let p = crate::mcp::manager::of_others(server);
    let others = m.statuses.filter(p);
    let all = others.push(candidate.statuses[at]);
    law_statuses_are_sorted_by_name(all);
    crate::seqs::lemma_filter_contains(m.statuses, p, s);
    let after = m.replace(server, candidate).statuses;
    assert(after.contains(s) <==> after.to_multiset().contains(s));
    assert(all.contains(s) <==> all.to_multiset().contains(s));
    assert(all.contains(s) <==> others.contains(s) || s == candidate.statuses[at]) by {
        if others.contains(s) {
            let j = choose|j: int| 0 <= j < others.len() && others[j] == s;
            assert(all[j] == s);
        }
        if s == candidate.statuses[at] {
            assert(all[others.len() as int] == s);
        }
        if all.contains(s) {
            let j = choose|j: int| 0 <= j < all.len() && all[j] == s;
            if j < others.len() {
                assert(others[j] == s);
            }
        }
    }
}

proof fn lemma_status_found(list: Seq<StatusView>, name: Seq<char>)
    ensures
        status_position(list, name) matches Some(i) ==> 0 <= i < list.len() && list[i].name == name,
    decreases list.len(),
{
    if list.len() > 0 {
        lemma_status_found(list.drop_last(), name);
    }
}

/// Every server that failed or awaits signing in is reported, in order, and no
/// other.
pub proof fn law_every_failure_is_reported(list: Seq<StatusView>, text: Seq<char>)
    ensures
        failures(list).contains(text) <==> exists|i: int|
            0 <= i < list.len() && failure_of(#[trigger] list[i]) == Some(text),
        failures(list).len() == list.filter(
            |s: StatusView|
                s.state == crate::mcp::manager::McpServerState::Failed || s.state
                    == crate::mcp::manager::McpServerState::AuthRequired,
        ).len(),
    decreases list.len(),
{
    reveal(Seq::filter);
    if list.len() > 0 {
        let front = list.drop_last();
        let before = failures(front);
        let all = failures(list);
        let last = list.len() - 1;
        law_every_failure_is_reported(front, text);
        if before.contains(text) {
            let j = choose|j: int| 0 <= j < before.len() && before[j] == text;
            assert(all[j] == text);
            let i = choose|i: int|
                0 <= i < front.len() && failure_of(#[trigger] front[i]) == Some(text);
            assert(list[i] == front[i]);
        }
        if failure_of(list.last()) == Some(text) {
            assert(all[before.len() as int] == text);
            assert(list[last] == list.last());
        }
        if all.contains(text) && !before.contains(text) {
            let j = choose|j: int| 0 <= j < all.len() && all[j] == text;
            if j < before.len() {
                assert(before[j] == text);
            }
        }
        if exists|i: int| 0 <= i < list.len() && failure_of(#[trigger] list[i]) == Some(text) {
            let i = choose|i: int|
                0 <= i < list.len() && failure_of(#[trigger] list[i]) == Some(text);
            if i < last {
                assert(front[i] == list[i]);
            }
        }
    }
}

pub open spec fn is_word(s: Seq<char>) -> bool {
    s.len() > 0 && forall|i: int| 0 <= i < s.len() ==> !is_white(#[trigger] s[i])
}

proof fn lemma_three_words(a: Seq<char>, b: Seq<char>, c: Seq<char>)
    requires
        is_word(a),
        is_word(b),
        is_word(c),
    ensures
        words_spec(a + seq![' '] + (b + seq![' '] + c)) == seq![a, b, c],
{
    let white = CharClass::White;
    law_one_piece_stays_whole(a, white);
    law_one_piece_stays_whole(b, white);
    law_one_piece_stays_whole(c, white);
    law_pieces_in_two(b, ' ', c, white);
    law_pieces_in_two(a, ' ', b + seq![' '] + c, white);
    let words = seq![a, b, c];
    assert(seq![a] + (seq![b] + seq![c]) =~= words);
    assert forall|i: int| 0 <= i < words.len() implies (#[trigger] words[i]).len() > 0 by {}
    crate::seqs::lemma_filter_all(words, |p: Seq<char>| p.len() > 0);
}

proof fn lemma_first_line(line: Seq<char>, rest: Seq<char>)
    requires
        !line.contains('\n'),
        line.len() > 0,
        line.last() != '\r',
    ensures
        lines_spec(line + seq!['\n'] + rest).len() > 0,
        lines_spec(line + seq!['\n'] + rest)[0] == line,
{
    let feed = CharClass::Only('\n');
    let s = line + seq!['\n'] + rest;
    assert forall|i: int| 0 <= i < line.len() implies !feed.holds(#[trigger] line[i]) by {
        assert(line.contains(line[i]));
    }
    law_one_piece_stays_whole(line, feed);
    law_pieces_in_two(line, '\n', rest, feed);
    crate::text::laws::law_pieces_hold_the_rest(rest, feed);
    let parts = pieces(s, feed);
    assert(parts[0] == line);
    assert(parts.len() >= 2);
    assert(without_return(line) == line);
}

/// The path of a request is the second word of its first line.
pub proof fn law_requests_ask_for_their_path(
    method: Seq<char>,
    path: Seq<char>,
    version: Seq<char>,
    rest: Seq<char>,
)
    requires
        is_word(method),
        is_word(path),
        is_word(version),
    ensures
        requested_path(method + seq![' '] + (path + seq![' '] + version) + seq!['\n'] + rest)
            == path,
{
    let line = method + seq![' '] + (path + seq![' '] + version);
    lemma_three_words(method, path, version);
    assert(line.last() == version[version.len() - 1]);
    assert(!line.contains('\n')) by {
        if line.contains('\n') {
            let i = choose|i: int| 0 <= i < line.len() && line[i] == '\n';
            let (a, b) = (method.len() as int, method.len() + 1 + path.len());
            if i < a {
                assert(line[i] == method[i]);
            } else if a < i < b {
                assert(line[i] == path[i - a - 1]);
            } else if i > b {
                assert(line[i] == version[i - b - 1]);
            }
        }
    }
    lemma_first_line(line, rest);
}

/// A bearer's token is what follows the word, whatever the case of the word.
pub proof fn law_tokens_follow_the_word(token: Seq<char>)
    requires
        is_word(token),
    ensures
        bearer("Bearer "@ + token) == Some(token),
        bearer("bearer "@ + token) == Some(token),
        bearer(token) is None,
{
    reveal_strlit("Bearer ");
    reveal_strlit("bearer ");
    reveal_strlit("bearer");
    reveal_strlit("Bearer");
    reveal_strlit(" ");
    assert("Bearer "@ =~= "Bearer"@ + " "@);
    assert("bearer "@ =~= "bearer"@ + " "@);
    lemma_two_halves("Bearer"@, token);
    lemma_two_halves("bearer"@, token);
    assert("Bearer"@ + " "@ + token =~= "Bearer "@ + token);
    assert("bearer"@ + " "@ + token =~= "bearer "@ + token);
    assert(ascii_lower("Bearer"@) =~= ascii_lower("bearer"@));
    assert(!is_white(token[0]) && !is_white(token[token.len() - 1]));
    lemma_trim_nothing(token, CharClass::White);
    lemma_find_from(token, " "@, 0);
    if find_from(token, " "@, 0) is Some {
        let i = find_from(token, " "@, 0)->0;
        assert(token.subrange(i, i + 1)[0] == ' ');
        assert(token[i] == ' ');
    }
}

proof fn lemma_two_halves(a: Seq<char>, b: Seq<char>)
    requires
        !a.contains(' '),
    ensures
        halves(a + " "@ + b, " "@) == Some((a, b)),
{
    reveal_strlit(" ");
    let s = a + " "@ + b;
    let n = a.len() as int;
    lemma_find_from(s, " "@, 0);
    assert(s.subrange(n, n + 1) =~= " "@);
    assert(occurs_at(s, " "@, n));
    let i = find_from(s, " "@, 0)->0;
    if i < n {
        assert(s.subrange(i, i + 1)[0] == ' ');
        assert(a[i] == ' ');
    }
    assert(s.take(n) =~= a);
    assert(s.skip(n + 1) =~= b);
}

/// An authorization that refers to the environment is accepted, and the token is
/// the value that it refers to.
pub proof fn law_tokens_come_from_the_environment(
    name: Seq<char>,
    value: Seq<char>,
    env: Seq<(String, String)>,
    h: HeadersView,
)
    requires
        is_word(name),
        !name.contains('}'),
        is_word(value),
        lookup(env, name) == Some(value),
    ensures
        h.take("Authorization"@, "Bearer ${"@ + name + "}"@, env) == Ok::<HeadersView, Seq<char>>(
            HeadersView { bearer_token: Some(value), ..h },
        ),
{
    reveal_strlit("Authorization");
    reveal_strlit("authorization");
    reveal_strlit("Bearer ${");
    reveal_strlit("Bearer ");
    reveal_strlit("Bearer");
    reveal_strlit("${");
    reveal_strlit("}");
    reveal_strlit(" ");
    let raw = "Bearer ${"@ + name + "}"@;
    assert(ascii_lower("Authorization"@) =~= "authorization"@);
    let head = "Authorization"@;
    assert forall|i: int| 0 <= i < head.len() implies crate::mcp::config::is_name_char(
        #[trigger] head[i],
    ) by {}
    let none = Seq::<char>::empty();
    let open = "Bearer "@;
    assert(!has_text(open, "${"@)) by {
        if has_text(open, "${"@) {
            let i = choose|i: int| occurs_at(open, "${"@, i);
            assert(open.subrange(i, i + 2)[0] == '$');
            assert(open[i] == '$');
        }
    }
    assert(!has_text(none, "${"@));
    law_references_are_replaced(open, name, none, env);
    law_references_are_replaced(none, name, none, env);
    assert(open + "${"@ + name + "}"@ + none =~= raw);
    assert(open + value + none =~= open + value);
    law_tokens_follow_the_word(value);
    let token = "${"@ + name + "}"@;
    lemma_two_halves("Bearer"@, token);
    assert("Bearer"@ + " "@ + token =~= raw);
    assert(raw.subrange(7, 9) =~= "${"@);
    assert(occurs_at(raw, "${"@, 7));
    lemma_trim_nothing(token, CharClass::White);
    assert(token.subrange(0, 2) =~= "${"@);
    let rest = token.skip(2);
    assert(rest =~= name + "}"@);
    assert(rest.subrange(rest.len() - 1, rest.len() as int) =~= "}"@);
    assert(rest.take(rest.len() - 1) =~= name);
    assert(!has_text(name, "}"@)) by {
        if has_text(name, "}"@) {
            let i = choose|i: int| occurs_at(name, "}"@, i);
            assert(name.subrange(i, i + 1)[0] == '}');
            assert(name[i] == '}');
        }
    }
}

/// A setting that is one reference has the value that it names, and any other
/// stays as it is written.
pub proof fn law_settings_are_resolved(
    name: Seq<char>,
    reference: Seq<char>,
    value: Seq<char>,
    env: Seq<(String, String)>,
)
    requires
        reference.len() > 0,
    ensures
        resolved_value(name, "${"@ + reference + "}"@, env) == match lookup(env, reference) {
            Some(text) => Ok::<Seq<char>, Seq<char>>(text),
            None => Err(unknown_variable(name)),
        },
        value.len() == 0 || value[0] != '$' ==> resolved_value(name, value, env) == Ok::<
            Seq<char>,
            Seq<char>,
        >(value),
{
    reveal_strlit("${");
    reveal_strlit("}");
    let token = "${"@ + reference + "}"@;
    assert(token.subrange(0, 2) =~= "${"@);
    let rest = token.skip(2);
    assert(rest =~= reference + "}"@);
    assert(rest.subrange(rest.len() - 1, rest.len() as int) =~= "}"@);
    assert(rest.take(rest.len() - 1) =~= reference);
    if occurs_at(value, "${"@, 0) {
        assert(value.subrange(0, 2)[0] == '$');
    }
}

/// A tool is offered where the settings name it, or name none, and do not forbid
/// it.
pub proof fn law_tools_are_offered_by_the_settings(
    list: Seq<Seq<char>>,
    disabled: Seq<Seq<char>>,
    name: Seq<char>,
)
    ensures
        offers(None, disabled, name) <==> !disabled.contains(name),
        offers(Some(list), disabled, name) <==> list.contains(name) && !disabled.contains(name),
{
}

/// A server is set up with a command or an address, not with both; an encrypted
/// address of some host is accepted, and one of this machine without encryption.
pub proof fn law_servers_have_one_way_to_be_reached(
    command: Seq<char>,
    url: Seq<char>,
    host: Seq<char>,
)
    ensures
        transport_fault(Some(command), None) is None,
        transport_fault(Some(command), Some(url)) is Some,
        transport_fault(None, None) is Some,
        uri_meaning(url) == Ok::<(Option<Seq<char>>, Option<Seq<char>>), Seq<char>>(
            (Some("https"@), Some(host)),
        ) ==> transport_fault(None, Some(url)) is None,
        uri_meaning(url) == Ok::<(Option<Seq<char>>, Option<Seq<char>>), Seq<char>>(
            (Some("http"@), Some("localhost"@)),
        ) ==> transport_fault(None, Some(url)) is None,
        uri_meaning(url) is Err ==> transport_fault(None, Some(url)) is Some,
{
}

/// The answer of a remote tool holds the texts of its parts in their order; only
/// where none has one, what stands in for them.
pub proof fn law_answers_hold_their_texts(
    blocks: Seq<ContentBlock>,
    structured: Option<JsonView>,
    text: Seq<char>,
)
    ensures
        answer_texts(blocks, structured).len() > 0,
        (exists|i: int| 0 <= i < blocks.len() && block_text(#[trigger] blocks[i]).len() > 0)
            ==> answer_texts(blocks, structured) == blocks.map_values(
            |b: ContentBlock| block_text(b),
        ).filter(|t: Seq<char>| t.len() > 0),
        (exists|i: int| 0 <= i < blocks.len() && block_text(#[trigger] blocks[i]) == text)
            && text.len() > 0 ==> answer_texts(blocks, structured).contains(text),
        (forall|i: int| 0 <= i < blocks.len() ==> block_text(#[trigger] blocks[i]).len() == 0)
            ==> answer_texts(blocks, structured) == seq![
            match structured {
                Some(v) => crate::json::json_text(v),
                None => "(MCP tool returned no textual content)"@,
            },
        ],
{
    let f = |b: ContentBlock| block_text(b);
    let p = |t: Seq<char>| t.len() > 0;
    let texts = blocks.map_values(f);
    if exists|i: int| 0 <= i < blocks.len() && block_text(#[trigger] blocks[i]).len() > 0 {
        let i = choose|i: int| 0 <= i < blocks.len() && block_text(#[trigger] blocks[i]).len() > 0;
        assert(texts[i] == block_text(blocks[i]));
        assert(texts.contains(texts[i]));
        crate::seqs::lemma_filter_contains(texts, p, texts[i]);
        assert(texts.filter(p).contains(texts[i]));
    } else {
        assert forall|i: int| 0 <= i < texts.len() implies !p(#[trigger] texts[i]) by {
            assert(texts[i] == block_text(blocks[i]));
        }
        crate::seqs::lemma_filter_none(texts, p);
    }
    if (exists|i: int| 0 <= i < blocks.len() && block_text(#[trigger] blocks[i]) == text)
        && text.len() > 0 {
        let i = choose|i: int| 0 <= i < blocks.len() && block_text(#[trigger] blocks[i]) == text;
        assert(texts[i] == text);
        crate::seqs::lemma_filter_contains(texts, p, text);
        assert(texts.contains(text));
    }
}

/// The first challenge among the causes of a failure counts; one that asks for
/// signing in is one.
pub proof fn law_the_first_challenge_counts(causes: Seq<FailureCause>, k: int, text: Seq<char>)
    requires
        0 <= k < causes.len(),
        match causes[k] {
            FailureCause::AuthRequired(t) => t@ == text,
            FailureCause::InsufficientScope(t) => t@ == text,
            FailureCause::Initialize(Some(t)) => t@ == text,
            _ => false,
        },
        forall|i: int|
            0 <= i < k ==> ((#[trigger] causes[i]) is Other || causes[i] == FailureCause::Initialize(
                None,
            )),
    ensures
        challenge_of(causes) == Some(text),
    decreases causes.len(),
{
    if k > 0 {
        let rest = causes.skip(1);
        assert(causes[0] is Other || causes[0] == FailureCause::Initialize(None));
        assert forall|i: int| 0 <= i < k - 1 implies ((#[trigger] rest[i]) is Other || rest[i]
            == FailureCause::Initialize(None)) by {
            assert(rest[i] == causes[i + 1]);
        }
        law_the_first_challenge_counts(rest, k - 1, text);
    }
}

/// A server is started in the directory that is set, with the workspace in place
/// of its mark: in that directory where it is absolute, and otherwise in the one
/// next to the file that sets it up.
pub proof fn law_relative_directories_lie_next_to_the_file(
    cwd: Seq<char>,
    config_path: Seq<char>,
    root: Seq<char>,
)
    requires
        !has_text(cwd, "${workspaceFolder}"@),
    ensures
        is_absolute_spec(cwd) ==> start_directory(cwd, config_path, root) == cwd,
        is_plain_relative(cwd) && parent_spec(config_path) is Some ==> parts_spec(
            start_directory(cwd, config_path, root),
        ) == parts_spec(config_path).drop_last() + parts_spec(cwd),
        in_workspace("${workspaceFolder}"@ + cwd, root) == root + cwd,
{
    reveal_strlit("${workspaceFolder}");
    let mark = "${workspaceFolder}"@;
    law_replacing_changes_every_place(Seq::empty(), cwd, mark, root);
    assert(in_workspace(cwd, root) == cwd);
    assert(Seq::<char>::empty() + mark + cwd =~= mark + cwd);
    assert(Seq::<char>::empty() + root + cwd =~= root + cwd);
    law_parent_drops_the_last_component(config_path);
    if let Some(dir) = parent_spec(config_path) {
        law_joined_paths_have_all_components(dir, cwd);
    }
}

/// A request that reports an error is denied; one with a code and a state is
/// accepted with its own path; any other is not found.
pub proof fn law_callbacks_are_told_apart(request: Seq<char>)
    ensures
        ({
            let path = requested_path(request);
            &&& callback_spec(request) is Denied <==> has_text(path, "error="@)
            &&& callback_spec(request) is Accepted <==> !has_text(path, "error="@) && has_text(
                path,
                "code="@,
            ) && has_text(path, "state="@)
            &&& callback_spec(request) matches CallbackView::Accepted(_, url) ==> path.is_suffix_of(
                url,
            )
            &&& callback_spec(request) matches CallbackView::Denied(_, reason)
                ==> path.is_suffix_of(reason)
        }),
{
    let path = requested_path(request);
    let url = "http://127.0.0.1"@ + path;
    assert(url.skip(url.len() - path.len()) =~= path);
    let reason = "OAuth 授权被拒绝或失败: "@ + path;
    assert(reason.skip(reason.len() - path.len()) =~= path);
}

proof fn lemma_type_and_length()
    ensures
        "\r\nContent-Type: text/html; charset=utf-8\r\nContent-Length: "@
            == "\r\nContent-Type: text/html; charset=utf-8"@ + "\r\nContent-Length: "@,
{
    reveal_strlit("\r\nContent-Type: text/html; charset=utf-8\r\nContent-Length: ");
    reveal_strlit("\r\nContent-Type: text/html; charset=utf-8");
    reveal_strlit("\r\nContent-Length: ");
    assert("\r\nContent-Type: text/html; charset=utf-8\r\nContent-Length: "@
        =~= "\r\nContent-Type: text/html; charset=utf-8"@ + "\r\nContent-Length: "@);
}

/// An answer to a request ends with its body and tells the length of the body in
/// bytes.
pub proof fn law_responses_tell_their_length(status: u16, body: Seq<char>)
    ensures
        ("\r\nContent-Length: "@ + dec(byte_len(body)) + "\r\nConnection: close\r\n\r\n"@
            + body).is_suffix_of(http_response(status, body)),
        ("HTTP/1.1 "@ + dec(status as nat) + " "@).is_prefix_of(http_response(status, body)),
{
    let all = http_response(status, body);
    let open = "HTTP/1.1 "@ + dec(status as nat) + " "@;
    assert(all.take(open.len() as int) =~= open);
    let tail = "\r\nContent-Length: "@ + dec(byte_len(body)) + "\r\nConnection: close\r\n\r\n"@
        + body;
    let word = if status == 200 {
        "OK"@
    } else {
        "Not Found"@
    };
    let front = open + word + "\r\nContent-Type: text/html; charset=utf-8"@;
    lemma_type_and_length();
    assert(all =~= front + tail);
    assert(all.subrange(all.len() - tail.len(), all.len() as int) =~= tail);
}

/// The credentials of a server lie in the directory that is set, or under the home
/// directory where none is.
pub proof fn law_credentials_lie_in_their_directory(
    server: Seq<char>,
    dir: Seq<char>,
    home: Option<Seq<char>>,
)
    ensures
        store_path_spec(server, Some(dir), home) matches Some(path) && within_spec(path, dir)
            && file_name_spec(path) == Some(sanitized(server, "server"@) + ".json"@),
        store_path_spec(server, None, None) is None,
{
    reveal_strlit("server");
    reveal_strlit(".json");
    reveal_strlit(".");
    reveal_strlit("..");
    let stem = sanitized(server, "server"@);
    let file = stem + ".json"@;
    assert(file.len() > 2);
    assert(!file.contains('/')) by {
        if file.contains('/') {
            let i = choose|i: int| 0 <= i < file.len() && file[i] == '/';
            if i < stem.len() {
                assert(stem[i] == '/');
                if server.len() > 0 {
                    law_names_keep_what_is_allowed(server, "server"@, i);
                    assert(is_name_char('/') || stem[i] == '_');
                }
            }
        }
    }
    law_file_names_come_last(dir, file);
}

/// A project that is trusted adds its servers behind the user's own, and one that
/// is not, or is not there, adds none.
pub proof fn law_trusted_projects_override(
    global: ConfigFile,
    project: ConfigFile,
    list: Seq<McpServerDefinition>,
)
    requires
        global.present,
        !same_path_spec(project.path@, global.path@),
        merged(Seq::empty(), global.path@, global.servers@) == Ok::<
            Seq<McpServerDefinition>,
            Seq<char>,
        >(list),
    ensures
        loaded_servers(Some(global), Some(project), true) == if project.present {
            merged(list, project.path@, project.servers@)
        } else {
            Ok(list)
        },
        loaded_servers(Some(global), Some(project), false) == Ok::<
            Seq<McpServerDefinition>,
            Seq<char>,
        >(list),
        loaded_servers(Some(global), None, true) == Ok::<Seq<McpServerDefinition>, Seq<char>>(list),
{
}

/// A name that is too long keeps its beginning and has the longest length allowed.
pub proof fn law_long_names_keep_their_beginning(server: Seq<char>, tool: Seq<char>)
    requires
        long_name(server, tool).len() > 64,
    ensures
        exposed_name(server, tool).len() == 64,
        exposed_name(server, tool).take(55) == long_name(server, tool).take(55),
        exposed_name(server, tool)[55] == '_',
{
    reveal_strlit("_");
    crate::text::number::lemma_hex_width(
        crate::hashing::fnv1a(vstd::utf8::encode_utf8(server + "\0"@ + tool)) as nat,
        8,
    );
    let name = exposed_name(server, tool);
    assert(name.take(55) =~= long_name(server, tool).take(55));
}

} // verus!
