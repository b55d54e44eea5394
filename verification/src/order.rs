//! The orders that tools can be put in.

use vstd::prelude::*;

use crate::model::{tools_view, Tool, ToolView};
use crate::naming::{extract_server_name, server_of};
use crate::text::{comes_before, same_text, text_less};

verus! {

/// An order of tools.
#[derive(Clone, Copy, Debug, PartialEq, Eq, Structural)]
pub enum ToolOrder {
    /// By name.
    Alphabetical,
    /// By the name of the server, and by name within a server.
    ServerPriority,
}

impl ToolOrder {
    /// A tool of one name comes before a tool of the other.
    pub open spec fn less(self, a: Seq<char>, b: Seq<char>) -> bool {
        match self {
            ToolOrder::Alphabetical => text_less(a, b),
            ToolOrder::ServerPriority => {
                ||| text_less(server_of(a), server_of(b))
                ||| server_of(a) == server_of(b) && text_less(a, b)
            },
        }
    }

    /// Whether a tool of one name comes before a tool of the other.
    pub fn is_before(&self, a: &str, b: &str) -> (before: bool)
        ensures
            before == self.less(a@, b@),
    {
        match self {
            ToolOrder::Alphabetical => comes_before(a, b),
            ToolOrder::ServerPriority => {
                let server_a: &str = extract_server_name(a);
                let server_b: &str = extract_server_name(b);
                comes_before(server_a, server_b) || (same_text(server_a, server_b) && comes_before(
                    a,
                    b,
                ))
            },
        }
    }
}

/// A tool put into its place among tools in order, behind those of its name.
pub open spec fn inserted(order: ToolOrder, tools: Seq<ToolView>, tool: ToolView) -> Seq<ToolView>
    decreases tools.len(),
{
    if tools.len() > 0 && order.less(tool.name, tools.last().name) {
        inserted(order, tools.drop_last(), tool).push(tools.last())
    } else {
        tools.push(tool)
    }
}

/// Tools put in order, those of one name in the order in which they came.
pub open spec fn sorted(order: ToolOrder, tools: Seq<ToolView>) -> Seq<ToolView>
    decreases tools.len(),
{
    if tools.len() == 0 {
        tools
    } else {
        inserted(order, sorted(order, tools.drop_last()), tools.last())
    }
}

/// Puts a tool into its place among tools in order.
fn insert_tool(order: ToolOrder, tools: &mut Vec<Tool>, tool: Tool)
    ensures
        tools_view(final(tools)@) == inserted(order, tools_view(old(tools)@), tool@),
{
    let ghost before = tools@;
    let ghost seen = tools_view(before);
    let mut at: usize = tools.len();
    assert(seen.take(at as int) =~= seen);
    assert(seen.skip(at as int) =~= Seq::<ToolView>::empty());
    assert(inserted(order, seen, tool@) =~= inserted(order, seen, tool@) + seen.skip(at as int));
    while at > 0 && order.is_before(tool.name.as_str(), tools[at - 1].name.as_str())
        invariant
            tools@ == before,
            seen == tools_view(before),
            at <= tools.len(),
            inserted(order, seen, tool@) == inserted(order, seen.take(at as int), tool@)
                + seen.skip(at as int),
        decreases at,
    {
        proof {
            let start = seen.take(at as int);
            assert(start.drop_last() =~= seen.take(at - 1));
            assert(start.last() == seen[at - 1]);
            assert(inserted(order, seen.take(at - 1), tool@).push(seen[at - 1]) + seen.skip(
                at as int,
            ) =~= inserted(order, seen.take(at - 1), tool@) + seen.skip(at - 1));
        }
        at = at - 1;
    }
    tools.insert(at, tool);
    assert(tools_view(tools@) =~= seen.take(at as int).push(tool@) + seen.skip(at as int));
}

/// Puts tools in order, those of one name in the order in which they came.
pub fn sort_tools(order: ToolOrder, tools: Vec<Tool>) -> (res: Vec<Tool>)
    ensures
        tools_view(res@) == sorted(order, tools_view(tools@)),
{
    let ghost seen = tools_view(tools@);
    let mut res: Vec<Tool> = Vec::new();
    let mut i: usize = 0;
    assert(seen.take(0) =~= Seq::<ToolView>::empty());
    assert(tools_view(res@) =~= seen.take(0));
    while i < tools.len()
        invariant
            i <= tools.len(),
            seen == tools_view(tools@),
            tools_view(res@) == sorted(order, seen.take(i as int)),
        decreases tools.len() - i,
    {
        insert_tool(order, &mut res, tools[i].clone());
        proof {
            assert(seen.take(i + 1).drop_last() =~= seen.take(i as int));
            assert(seen.take(i + 1).last() == tools@[i as int]@);
        }
        i = i + 1;
    }
    assert(seen.take(i as int) =~= seen);
    res
}

/// No two characters have one code point.
proof fn lemma_one_code(a: char, b: char)
    ensures
        a as u32 == b as u32 ==> a == b,
{
}

/// Of two texts one comes before the other, or they are the same.
proof fn lemma_text_total(a: Seq<char>, b: Seq<char>)
    ensures
        a == b || text_less(a, b) || text_less(b, a),
        !(text_less(a, b) && text_less(b, a)),
        text_less(a, b) ==> a != b,
    decreases a.len(),
{
    if a.len() > 0 && b.len() > 0 {
        lemma_text_total(a.drop_first(), b.drop_first());
        if a.first() == b.first() && a.drop_first() == b.drop_first() {
            assert(a =~= seq![a.first()] + a.drop_first());
            assert(b =~= seq![b.first()] + b.drop_first());
        }
        lemma_one_code(a.first(), b.first());
    } else {
        assert(a.len() == 0 && b.len() == 0 ==> a =~= b);
    }
}

/// What comes before a text comes before all that come behind that text.
proof fn lemma_text_transitive(a: Seq<char>, b: Seq<char>, c: Seq<char>)
    requires
        text_less(a, b),
        text_less(b, c),
    ensures
        text_less(a, c),
    decreases a.len(),
{
    if a.len() > 0 && a.first() == b.first() && b.first() == c.first() {
        lemma_text_transitive(a.drop_first(), b.drop_first(), c.drop_first());
    }
}

/// Of two names one comes before the other, or they are the same, in any order.
pub proof fn law_order_is_total(order: ToolOrder, a: Seq<char>, b: Seq<char>)
    ensures
        a == b || order.less(a, b) || order.less(b, a),
        !(order.less(a, b) && order.less(b, a)),
        !order.less(a, a),
{
    lemma_text_total(a, b);
    lemma_text_total(a, a);
    lemma_text_total(server_of(a), server_of(b));
    lemma_text_total(server_of(a), server_of(a));
}

/// An order of tools is transitive.
pub proof fn law_order_is_transitive(order: ToolOrder, a: Seq<char>, b: Seq<char>, c: Seq<char>)
    requires
        order.less(a, b),
        order.less(b, c),
    ensures
        order.less(a, c),
{
    if order == ToolOrder::Alphabetical {
        lemma_text_transitive(a, b, c);
    } else {
        if text_less(server_of(a), server_of(b)) && text_less(server_of(b), server_of(c)) {
            lemma_text_transitive(server_of(a), server_of(b), server_of(c));
        }
        if text_less(a, b) && text_less(b, c) {
            lemma_text_transitive(a, b, c);
        }
    }
}

/// No tool of a list comes before one that stands in front of it.
pub open spec fn in_order(order: ToolOrder, tools: Seq<ToolView>) -> bool {
    forall|i: int, j: int|
        0 <= i < j < tools.len() ==> !order.less(
            (#[trigger] tools[j]).name,
            (#[trigger] tools[i]).name,
        )
}

/// What is put in its place leaves a list in order.
proof fn lemma_inserted_in_order(order: ToolOrder, tools: Seq<ToolView>, tool: ToolView)
    requires
        in_order(order, tools),
    ensures
        in_order(order, inserted(order, tools, tool)),
        inserted(order, tools, tool).to_multiset() == tools.to_multiset().insert(tool),
        inserted(order, tools, tool).len() == tools.len() + 1,
        forall|i: int|
            0 <= i <= tools.len() ==> (#[trigger] inserted(order, tools, tool)[i] == tool)
                || tools.contains(inserted(order, tools, tool)[i]),
    decreases tools.len(),
{
    broadcast use vstd::seq_lib::group_to_multiset_ensures;

    let res = inserted(order, tools, tool);
    if tools.len() > 0 && order.less(tool.name, tools.last().name) {
        let start = tools.drop_last();
        lemma_inserted_in_order(order, start, tool);
        let rest = inserted(order, start, tool);
        assert(tools =~= start.push(tools.last()));
        assert(res.to_multiset() =~= tools.to_multiset().insert(tool));
        assert forall|i: int, j: int| 0 <= i < j < res.len() implies !order.less(
            (#[trigger] res[j]).name,
            (#[trigger] res[i]).name,
        ) by {
            if j == res.len() - 1 {
                assert(res[i] == rest[i]);
                law_order_is_total(order, tool.name, tools.last().name);
                if rest[i] != tool {
                    assert(start.contains(rest[i]));
                    let k = choose|k: int| 0 <= k < start.len() && start[k] == rest[i];
                    assert(tools[k] == rest[i]);
                }
            }
        }
        assert forall|i: int| 0 <= i <= tools.len() implies (#[trigger] res[i] == tool)
            || tools.contains(res[i]) by {
            if i < tools.len() {
                assert(res[i] == rest[i]);
                if rest[i] != tool {
                    let k = choose|k: int| 0 <= k < start.len() && start[k] == rest[i];
                    assert(tools[k] == rest[i]);
                }
            } else {
                assert(tools[tools.len() - 1] == res[i]);
            }
        }
    } else {
        assert forall|i: int, j: int| 0 <= i < j < res.len() implies !order.less(
            (#[trigger] res[j]).name,
            (#[trigger] res[i]).name,
        ) by {
            if j == tools.len() {
                let last = tools.last();
                if order.less(tool.name, tools[i].name) {
                    law_order_is_total(order, last.name, tools[i].name);
                    if i < tools.len() - 1 {
                        assert(!order.less(tools[tools.len() - 1].name, tools[i].name));
                        if tools[i].name != last.name {
                            law_order_is_transitive(order, tool.name, tools[i].name, last.name);
                        }
                    }
                }
            }
        }
        assert forall|i: int| 0 <= i <= tools.len() implies (#[trigger] res[i] == tool)
            || tools.contains(res[i]) by {
            if i < tools.len() {
                assert(tools[i] == res[i]);
            }
        }
    }
}

/// Tools that are put in order are in order, and they are the same tools.
pub proof fn law_sorted(order: ToolOrder, tools: Seq<ToolView>)
    ensures
        in_order(order, sorted(order, tools)),
        sorted(order, tools).to_multiset() == tools.to_multiset(),
        sorted(order, tools).len() == tools.len(),
    decreases tools.len(),
{
    broadcast use vstd::seq_lib::group_to_multiset_ensures;

    if tools.len() > 0 {
        law_sorted(order, tools.drop_last());
        lemma_inserted_in_order(order, sorted(order, tools.drop_last()), tools.last());
        assert(tools =~= tools.drop_last().push(tools.last()));
    }
}

/// The tools of a list that have a name.
pub open spec fn named(tools: Seq<ToolView>, name: Seq<char>) -> Seq<ToolView> {
    tools.filter(|tool: ToolView| tool.name == name)
}

/// A tool behind a list is behind those of its name.
proof fn lemma_named_push(tools: Seq<ToolView>, tool: ToolView, name: Seq<char>)
    ensures
        named(tools.push(tool), name) == if tool.name == name {
            named(tools, name).push(tool)
        } else {
            named(tools, name)
        },
{
    reveal(Seq::filter);
    assert(tools.push(tool).drop_last() =~= tools);
}

/// What is put in its place comes behind the others of its name.
proof fn lemma_inserted_named(
    order: ToolOrder,
    tools: Seq<ToolView>,
    tool: ToolView,
    name: Seq<char>,
)
    ensures
        named(inserted(order, tools, tool), name) == named(tools.push(tool), name),
    decreases tools.len(),
{
    lemma_named_push(tools, tool, name);
    if tools.len() > 0 && order.less(tool.name, tools.last().name) {
        let start = tools.drop_last();
        let last = tools.last();
        lemma_inserted_named(order, start, tool, name);
        lemma_named_push(start, tool, name);
        lemma_named_push(start, last, name);
        lemma_named_push(inserted(order, start, tool), last, name);
        assert(start.push(last) =~= tools);
        law_order_is_total(order, tool.name, last.name);
    }
}

/// Tools of one name stay in the order in which they came.
pub proof fn law_sort_is_stable(order: ToolOrder, tools: Seq<ToolView>, name: Seq<char>)
    ensures
        named(sorted(order, tools), name) == named(tools, name),
    decreases tools.len(),
{
    if tools.len() > 0 {
        let start = tools.drop_last();
        law_sort_is_stable(order, start, name);
        lemma_inserted_named(order, sorted(order, start), tools.last(), name);
        lemma_named_push(sorted(order, start), tools.last(), name);
        lemma_named_push(start, tools.last(), name);
        assert(start.push(tools.last()) =~= tools);
    }
}

/// By name, tools come in the order of their whole names. By server, those of
/// different servers come in the order of the servers, whatever their names are, and
/// those of one server in the order of their names.
pub proof fn law_orders(a: Seq<char>, b: Seq<char>)
    ensures
        ToolOrder::Alphabetical.less(a, b) <==> text_less(a, b),
        text_less(server_of(a), server_of(b)) ==> ToolOrder::ServerPriority.less(a, b)
            && !ToolOrder::ServerPriority.less(b, a),
        server_of(a) == server_of(b) ==> (ToolOrder::ServerPriority.less(a, b) <==> text_less(a, b)),
{
    lemma_text_total(server_of(a), server_of(b));
    lemma_text_total(server_of(a), server_of(a));
}

/// In a list that is in order by server, the tools of one server stand together.
pub proof fn law_servers_stand_together(tools: Seq<ToolView>, i: int, j: int, k: int)
    requires
        in_order(ToolOrder::ServerPriority, tools),
        0 <= i < j < k < tools.len(),
        server_of(tools[i].name) == server_of(tools[k].name),
    ensures
        server_of(tools[j].name) == server_of(tools[i].name),
{
    let first = server_of(tools[i].name);
    let middle = server_of(tools[j].name);
    lemma_text_total(first, middle);
    assert(!ToolOrder::ServerPriority.less(tools[j].name, tools[i].name));
    assert(!ToolOrder::ServerPriority.less(tools[k].name, tools[j].name));
}

} // verus!
