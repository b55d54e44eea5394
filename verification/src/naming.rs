//! Names: what a server offers has the name of the server before its own, with a
//! separator between them.

use vstd::prelude::*;
use vstd::string::*;

use crate::error::{ProxyError, ProxyErrorView};
use crate::text::{
    first_occurs_at, first_position, joined, lemma_first_position, lemma_has_first_position,
    occurs_at, occurs_in, position_of,
};

verus! {

/// What stands between the name of a server and the name of what it offers.
pub open spec fn separator() -> Seq<char> {
    "___"@
}

/// A name with the name of its server before it.
pub open spec fn prefixed(server: Seq<char>, name: Seq<char>) -> Seq<char> {
    server + separator() + name
}

/// The name of the server and the name behind it, parted at the first separator.
pub open spec fn parted(text: Seq<char>) -> Option<(Seq<char>, Seq<char>)> {
    match first_position(text, separator()) {
        Some(at) => Some((text.take(at), text.skip(at + 3))),
        None => None,
    }
}

/// The server that a name belongs to.
pub open spec fn server_of(name: Seq<char>) -> Seq<char> {
    match parted(name) {
        Some((server, _)) => server,
        None => "unknown"@,
    }
}

/// A name with the name of its server before it.
pub fn prefix_with_server(server_name: &str, name: &str) -> (text: String)
    ensures
        text@ == prefixed(server_name@, name@),
{
    joined(server_name, "___").concat(name)
}

/// The name of the server and the name behind it.
pub fn extract_server_and_name(text: &str) -> (res: Result<(&str, &str), ProxyError>)
    ensures
        match (res, parted(text@)) {
            (Ok((server, name)), Some(expected)) => (server@, name@) == expected,
            (Err(error), None) => error@ == ProxyErrorView::InvalidFormat(
                "Invalid prefixed name format: "@ + text@,
            ),
            _ => false,
        },
{
    match position_of(text, "___") {
        Some(at) => {
            proof {
                reveal_strlit("___");
            }
            let len: usize = text.unicode_len();
            let server: &str = text.substring_char(0, at);
            let name: &str = text.substring_char(at + 3, len);
            assert(server@ =~= text@.take(at as int));
            assert(name@ =~= text@.skip(at + 3));
            Ok((server, name))
        },
        None => Err(
            ProxyError::invalid_format(joined("Invalid prefixed name format: ", text).as_str()),
        ),
    }
}

/// The server that a name belongs to.
pub fn extract_server_name(tool_name: &str) -> (server: &str)
    ensures
        server@ == server_of(tool_name@),
{
    match position_of(tool_name, "___") {
        Some(at) => {
            let server: &str = tool_name.substring_char(0, at);
            assert(server@ =~= tool_name@.take(at as int));
            server
        },
        None => "unknown",
    }
}

/// The name of a server can be told from what stands behind it: there is no
/// separator in it, and no part of one at its end.
pub open spec fn is_plain(server: Seq<char>) -> bool {
    !occurs_in(server, separator()) && (server.len() > 0 ==> server.last() != '_')
}

/// A name is parted into the server and the name that it was put together from,
/// whatever the name, where the name of the server is plain, and only there.
pub proof fn law_prefix_is_undone(server: Seq<char>, name: Seq<char>)
    ensures
        parted(prefixed(server, name)) == Some((server, name)) <==> is_plain(server),
{
    reveal_strlit("___");
    let text = prefixed(server, name);
    let at = server.len() as int;
    assert(text.subrange(at, at + 3) =~= separator());
    assert(occurs_at(text, separator(), at));
    lemma_has_first_position(text, separator(), at);
    let first = first_position(text, separator())->0;
    if is_plain(server) {
        assert forall|before: int| 0 <= before < at implies !occurs_at(
            text,
            separator(),
            before,
        ) by {
            if occurs_at(text, separator(), before) {
                let found = text.subrange(before, before + 3);
                if before + 3 <= at {
                    assert(server.subrange(before, before + 3) =~= found);
                    assert(occurs_at(server, separator(), before));
                } else {
                    assert(found[at - 1 - before] == server.last());
                    assert(separator()[at - 1 - before] == '_');
                }
            }
        }
        lemma_first_position(text, separator(), at);
        assert(text.take(at) =~= server);
        assert(text.skip(at + 3) =~= name);
    } else {
        assert(first < at) by {
            if occurs_in(server, separator()) {
                let before = choose|before: int| occurs_at(server, separator(), before);
                assert(text.subrange(before, before + 3) =~= server.subrange(before, before + 3));
                lemma_has_first_position(text, separator(), before);
            } else {
                assert(text.subrange(at - 1, at + 2) =~= separator());
                lemma_has_first_position(text, separator(), at - 1);
            }
        }
        assert(text.take(first).len() != server.len());
    }
}

/// Two names of plain servers are the same only where both the servers and the
/// names are.
pub proof fn law_prefix_is_injective(
    server_a: Seq<char>,
    name_a: Seq<char>,
    server_b: Seq<char>,
    name_b: Seq<char>,
)
    requires
        is_plain(server_a),
        is_plain(server_b),
        prefixed(server_a, name_a) == prefixed(server_b, name_b),
    ensures
        server_a == server_b,
        name_a == name_b,
{
    law_prefix_is_undone(server_a, name_a);
    law_prefix_is_undone(server_b, name_b);
}

/// What a name is parted into gives that name again.
pub proof fn law_parting_is_undone(text: Seq<char>)
    ensures
        parted(text) matches Some((server, name)) ==> prefixed(server, name) == text,
{
    reveal_strlit("___");
    if occurs_in(text, separator()) {
        let some = choose|at: int| occurs_at(text, separator(), at);
        lemma_has_first_position(text, separator(), some);
        let at = first_position(text, separator())->0;
        assert(first_occurs_at(text, separator(), at));
        assert(text.take(at) + text.subrange(at, at + 3) + text.skip(at + 3) =~= text);
    }
}

/// A name with the name of its server before it starts with the server, ends with the
/// name, and has three underscores between them and nothing else.
pub proof fn law_prefixed_name(server: Seq<char>, name: Seq<char>)
    ensures
        prefixed(server, name).len() == server.len() + 3 + name.len(),
        server.is_prefix_of(prefixed(server, name)),
        name.is_suffix_of(prefixed(server, name)),
        forall|i: int|
            server.len() <= i < server.len() + 3 ==> #[trigger] prefixed(server, name)[i] == '_',
{
    reveal_strlit("___");
    let text = prefixed(server, name);
    assert(text.take(server.len() as int) =~= server);
    assert(text.skip(text.len() - name.len()) =~= name);
}

/// A name is parted exactly where there are three underscores in it, and the server is
/// what stands before the first of them.
pub proof fn law_names_are_parted(text: Seq<char>)
    ensures
        parted(text) is Some <==> exists|at: int|
            0 <= at && at + 3 <= text.len() && #[trigger] text[at] == '_' && text[at + 1] == '_'
                && text[at + 2] == '_',
        parted(text) matches Some((server, name)) ==> {
            &&& server == server_of(text)
            &&& server.len() + 3 + name.len() == text.len()
            &&& server == text.take(server.len() as int)
            &&& name == text.skip(server.len() as int + 3)
            &&& forall|at: int|
                0 <= at < server.len() ==> !(#[trigger] text[at] == '_' && text[at + 1] == '_'
                    && text[at + 2] == '_')
        },
        parted(text) is None ==> server_of(text) == "unknown"@,
{
    reveal_strlit("___");
    assert forall|at: int| occurs_at(text, separator(), at) <==> 0 <= at && at + 3 <= text.len()
        && text[at] == '_' && text[at + 1] == '_' && text[at + 2] == '_' by {
        if 0 <= at && at + 3 <= text.len() {
            let part = text.subrange(at, at + 3);
            if part == separator() {
                assert(part[0] == '_' && part[1] == '_' && part[2] == '_');
            }
            if text[at] == '_' && text[at + 1] == '_' && text[at + 2] == '_' {
                assert(part =~= separator());
            }
        }
    }
    if occurs_in(text, separator()) {
        let some = choose|at: int| occurs_at(text, separator(), at);
        assert(text[some] == '_');
        lemma_has_first_position(text, separator(), some);
        let first = first_position(text, separator())->0;
        assert(text.take(first).len() == first);
        assert forall|at: int| 0 <= at < first implies !(#[trigger] text[at] == '_' && text[at + 1]
            == '_' && text[at + 2] == '_') by {
            assert(!occurs_at(text, separator(), at));
        }
    } else {
        assert forall|at: int| 0 <= at && at + 3 <= text.len() implies !(#[trigger] text[at] == '_'
            && text[at + 1] == '_' && text[at + 2] == '_') by {
            assert(!occurs_at(text, separator(), at));
        }
    }
}

/// The server of a name that was put together with a plain server is that server.
pub proof fn law_server_is_told(server: Seq<char>, name: Seq<char>)
    requires
        is_plain(server),
    ensures
        server_of(prefixed(server, name)) == server,
{
    law_prefix_is_undone(server, name);
}

} // verus!
