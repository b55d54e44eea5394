//! Middleware that works on what all servers offer together.

use vstd::prelude::*;

use crate::config::{MiddlewareSpec, MiddlewareSpecView};
use crate::description_enricher::{
    is_described, law_prompts_are_described, law_resources_are_described, law_tools_are_described,
    DescriptionEnricherMiddleware,
};
use crate::error::{ProxyError, ProxyErrorView};
use crate::model::{
    prompts_view, resources_view, tools_view, Prompt, PromptView, Resource, ResourceView, Tool,
    ToolView,
};
use crate::text::{joined, same_text};
use crate::tool_search::{tools_listed, ToolSearchMiddleware};

verus! {

/// A kind of middleware.
#[derive(Clone, Copy, Debug, PartialEq, Eq, Structural)]
pub enum MiddlewareKind {
    DescriptionEnricher,
    ToolSearch,
}

/// The kind of middleware that a word of the configuration stands for.
pub open spec fn kind_named(word: Seq<char>) -> Option<MiddlewareKind> {
    if word == "description_enricher"@ {
        Some(MiddlewareKind::DescriptionEnricher)
    } else if word == "tool_search"@ {
        Some(MiddlewareKind::ToolSearch)
    } else {
        None
    }
}

/// The kind of middleware that the proxy is to use: none where it is switched off.
pub open spec fn requested_kind(spec: MiddlewareSpecView) -> Result<
    Option<MiddlewareKind>,
    ProxyErrorView,
> {
    if !spec.enabled {
        Ok(None)
    } else {
        match kind_named(spec.middleware_type) {
            Some(kind) => Ok(Some(kind)),
            None => Err(
                ProxyErrorView::Config(
                    "Unknown proxy middleware type: "@ + spec.middleware_type,
                ),
            ),
        }
    }
}

/// The kind of middleware that the proxy is to use: none where it is switched off.
/// A word that stands for no kind is an error where it is not.
pub fn middleware_kind(spec: &MiddlewareSpec) -> (res: Result<Option<MiddlewareKind>, ProxyError>)
    ensures
        match res {
            Ok(kind) => if spec@.enabled {
                kind is Some && kind == kind_named(spec@.middleware_type)
            } else {
                kind is None
            },
            Err(error) => {
                &&& spec@.enabled
                &&& kind_named(spec@.middleware_type) is None
                &&& error@ == ProxyErrorView::Config(
                    "Unknown proxy middleware type: "@ + spec@.middleware_type,
                )
            },
        },
        match (res, requested_kind(spec@)) {
            (Ok(kind), Ok(expected)) => kind == expected,
            (Err(error), Err(expected)) => error@ == expected,
            _ => false,
        },
{
    if !spec.enabled {
        return Ok(None);
    }
    let word: &str = spec.middleware_type.as_str();
    if same_text(word, "description_enricher") {
        Ok(Some(MiddlewareKind::DescriptionEnricher))
    } else if same_text(word, "tool_search") {
        Ok(Some(MiddlewareKind::ToolSearch))
    } else {
        Err(ProxyError::config(joined("Unknown proxy middleware type: ", word).as_str()))
    }
}

/// A piece of middleware.
pub enum ProxyMiddleware {
    DescriptionEnricher(DescriptionEnricherMiddleware),
    ToolSearch(ToolSearchMiddleware),
}

impl ProxyMiddleware {
    /// What it makes of tools.
    pub open spec fn shown_tools(self, tools: Seq<ToolView>) -> Seq<ToolView> {
        match self {
            ProxyMiddleware::DescriptionEnricher(enricher) => tools.map_values(
                |tool: ToolView| enricher.enriched_tool(tool),
            ),
            ProxyMiddleware::ToolSearch(search) => search.shown(tools),
        }
    }

    /// What it makes of prompts.
    pub open spec fn shown_prompts(self, prompts: Seq<PromptView>) -> Seq<PromptView> {
        match self {
            ProxyMiddleware::DescriptionEnricher(enricher) => prompts.map_values(
                |prompt: PromptView| enricher.enriched_prompt(prompt),
            ),
            ProxyMiddleware::ToolSearch(_) => prompts,
        }
    }

    /// What it makes of resources.
    pub open spec fn shown_resources(self, resources: Seq<ResourceView>) -> Seq<ResourceView> {
        match self {
            ProxyMiddleware::DescriptionEnricher(enricher) => resources.map_values(
                |resource: ResourceView| enricher.enriched_resource(resource),
            ),
            ProxyMiddleware::ToolSearch(_) => resources,
        }
    }

    /// How a listing of tools changes it.
    pub open spec fn listed_to(self, tools: Seq<ToolView>, after: ProxyMiddleware) -> bool {
        match (self, after) {
            (ProxyMiddleware::ToolSearch(search), ProxyMiddleware::ToolSearch(searched)) => {
                tools_listed(&search, tools, &searched)
            },
            (ProxyMiddleware::ToolSearch(_), _) => false,
            (ProxyMiddleware::DescriptionEnricher(_), _) => after == self,
        }
    }

    /// Works on the tools of a listing.
    pub fn on_list_tools(&mut self, tools: &mut Vec<Tool>)
        ensures
            tools_view(final(tools)@) == old(self).shown_tools(tools_view(old(tools)@)),
            old(self).listed_to(tools_view(old(tools)@), *final(self)),
    {
        match self {
            ProxyMiddleware::DescriptionEnricher(enricher) => {
                enricher.on_list_tools(tools);
            },
            ProxyMiddleware::ToolSearch(search) => {
                search.on_list_tools(tools);
            },
        }
    }

    /// Works on the prompts of a listing.
    pub fn on_list_prompts(&self, prompts: &mut Vec<Prompt>)
        ensures
            prompts_view(final(prompts)@) == self.shown_prompts(prompts_view(old(prompts)@)),
    {
        match self {
            ProxyMiddleware::DescriptionEnricher(enricher) => enricher.on_list_prompts(prompts),
            ProxyMiddleware::ToolSearch(search) => search.on_list_prompts(prompts),
        }
    }

    /// Works on the resources of a listing.
    pub fn on_list_resources(&self, resources: &mut Vec<Resource>)
        ensures
            resources_view(final(resources)@) == self.shown_resources(
                resources_view(old(resources)@),
            ),
    {
        match self {
            ProxyMiddleware::DescriptionEnricher(enricher) => {
                enricher.on_list_resources(resources)
            },
            ProxyMiddleware::ToolSearch(search) => search.on_list_resources(resources),
        }
    }
}

/// What several pieces of middleware make of tools, one after the other.
pub open spec fn tools_through(middleware: Seq<ProxyMiddleware>, tools: Seq<ToolView>) -> Seq<
    ToolView,
>
    decreases middleware.len(),
{
    if middleware.len() == 0 {
        tools
    } else {
        middleware.last().shown_tools(tools_through(middleware.drop_last(), tools))
    }
}

/// What several pieces of middleware make of prompts, one after the other.
pub open spec fn prompts_through(middleware: Seq<ProxyMiddleware>, prompts: Seq<PromptView>) -> Seq<
    PromptView,
>
    decreases middleware.len(),
{
    if middleware.len() == 0 {
        prompts
    } else {
        middleware.last().shown_prompts(prompts_through(middleware.drop_last(), prompts))
    }
}

/// What several pieces of middleware make of resources, one after the other.
pub open spec fn resources_through(
    middleware: Seq<ProxyMiddleware>,
    resources: Seq<ResourceView>,
) -> Seq<ResourceView>
    decreases middleware.len(),
{
    if middleware.len() == 0 {
        resources
    } else {
        middleware.last().shown_resources(resources_through(middleware.drop_last(), resources))
    }
}

/// How a listing of tools changes several pieces of middleware: each by the tools
/// that those before it leave.
pub open spec fn all_listed_to(
    before: Seq<ProxyMiddleware>,
    tools: Seq<ToolView>,
    after: Seq<ProxyMiddleware>,
) -> bool {
    &&& after.len() == before.len()
    &&& forall|i: int|
        0 <= i < before.len() ==> (#[trigger] before[i]).listed_to(
            tools_through(before.take(i), tools),
            after[i],
        )
}

/// Lets all middleware work on the tools of a listing, one after the other.
pub fn list_tools_through(middleware: &mut Vec<ProxyMiddleware>, tools: &mut Vec<Tool>)
    ensures
        tools_view(final(tools)@) == tools_through(old(middleware)@, tools_view(old(tools)@)),
        all_listed_to(old(middleware)@, tools_view(old(tools)@), final(middleware)@),
{
    let ghost before = middleware@;
    let ghost given = tools_view(tools@);
    let mut i: usize = 0;
    assert(before.take(0) =~= Seq::<ProxyMiddleware>::empty());
    while i < middleware.len()
        invariant
            i <= middleware.len(),
            middleware@.len() == before.len(),
            tools_view(tools@) == tools_through(before.take(i as int), given),
            forall|j: int|
                0 <= j < i ==> (#[trigger] before[j]).listed_to(
                    tools_through(before.take(j), given),
                    middleware@[j],
                ),
            forall|j: int| i <= j < before.len() ==> #[trigger] middleware@[j] == before[j],
        decreases middleware.len() - i,
    {
        let ghost state = middleware@;
        assert(state[i as int] == before[i as int]);
        middleware[i].on_list_tools(tools);
        proof {
            assert(before.take(i + 1).drop_last() =~= before.take(i as int));
            assert(before.take(i + 1).last() == before[i as int]);
            assert forall|j: int| 0 <= j < i + 1 implies (#[trigger] before[j]).listed_to(
                tools_through(before.take(j), given),
                middleware@[j],
            ) by {
                if j < i {
                    assert(middleware@[j] == state[j]);
                }
            }
        }
        i = i + 1;
    }
    assert(before.take(i as int) =~= before);
}

/// Lets all middleware work on the prompts of a listing, one after the other.
pub fn list_prompts_through(middleware: &Vec<ProxyMiddleware>, prompts: &mut Vec<Prompt>)
    ensures
        prompts_view(final(prompts)@) == prompts_through(
            middleware@,
            prompts_view(old(prompts)@),
        ),
{
    let ghost given = prompts_view(prompts@);
    let mut i: usize = 0;
    assert(middleware@.take(0) =~= Seq::<ProxyMiddleware>::empty());
    while i < middleware.len()
        invariant
            i <= middleware.len(),
            prompts_view(prompts@) == prompts_through(middleware@.take(i as int), given),
        decreases middleware.len() - i,
    {
        middleware[i].on_list_prompts(prompts);
        proof {
            assert(middleware@.take(i + 1).drop_last() =~= middleware@.take(i as int));
            assert(middleware@.take(i + 1).last() == middleware@[i as int]);
        }
        i = i + 1;
    }
    assert(middleware@.take(i as int) =~= middleware@);
}

/// Lets all middleware work on the resources of a listing, one after the other.
pub fn list_resources_through(middleware: &Vec<ProxyMiddleware>, resources: &mut Vec<Resource>)
    ensures
        resources_view(final(resources)@) == resources_through(
            middleware@,
            resources_view(old(resources)@),
        ),
{
    let ghost given = resources_view(resources@);
    let mut i: usize = 0;
    assert(middleware@.take(0) =~= Seq::<ProxyMiddleware>::empty());
    while i < middleware.len()
        invariant
            i <= middleware.len(),
            resources_view(resources@) == resources_through(middleware@.take(i as int), given),
        decreases middleware.len() - i,
    {
        middleware[i].on_list_resources(resources);
        proof {
            assert(middleware@.take(i + 1).drop_last() =~= middleware@.take(i as int));
            assert(middleware@.take(i + 1).last() == middleware@[i as int]);
        }
        i = i + 1;
    }
    assert(middleware@.take(i as int) =~= middleware@);
}

/// Middleware changes neither the number of prompts nor their names.
pub proof fn law_prompts_keep_their_names(
    middleware: Seq<ProxyMiddleware>,
    prompts: Seq<PromptView>,
)
    ensures
        prompts_through(middleware, prompts).len() == prompts.len(),
        forall|i: int|
            0 <= i < prompts.len() ==> (#[trigger] prompts_through(middleware, prompts)[i]).name
                == prompts[i].name,
    decreases middleware.len(),
{
    if middleware.len() > 0 {
        law_prompts_keep_their_names(middleware.drop_last(), prompts);
    }
}

/// Middleware changes neither the number of resources nor their names and URIs.
pub proof fn law_resources_keep_their_names(
    middleware: Seq<ProxyMiddleware>,
    resources: Seq<ResourceView>,
)
    ensures
        resources_through(middleware, resources).len() == resources.len(),
        forall|i: int|
            0 <= i < resources.len() ==> {
                let through = #[trigger] resources_through(middleware, resources)[i];
                through.name == resources[i].name && through.uri == resources[i].uri
            },
    decreases middleware.len(),
{
    if middleware.len() > 0 {
        law_resources_keep_their_names(middleware.drop_last(), resources);
    }
}

/// Without a tool search, middleware changes neither the number of tools nor
/// their names.
pub proof fn law_tools_keep_their_names(middleware: Seq<ProxyMiddleware>, tools: Seq<ToolView>)
    requires
        forall|i: int|
            0 <= i < middleware.len() ==> (#[trigger] middleware[i]) is DescriptionEnricher,
    ensures
        tools_through(middleware, tools).len() == tools.len(),
        forall|i: int|
            0 <= i < tools.len() ==> (#[trigger] tools_through(middleware, tools)[i]).name
                == tools[i].name,
    decreases middleware.len(),
{
    if middleware.len() > 0 {
        let start = middleware.drop_last();
        assert forall|i: int| 0 <= i < start.len() implies (#[trigger]
        start[i]) is DescriptionEnricher by {
            assert(start[i] == middleware[i]);
        }
        assert(middleware[middleware.len() - 1] is DescriptionEnricher);
        law_tools_keep_their_names(start, tools);
    }
}

/// The words for kinds of middleware: each stands for one kind, and no other word
/// stands for it.
pub proof fn law_kinds_have_words(word: Seq<char>)
    ensures
        kind_named(word) == Some(MiddlewareKind::DescriptionEnricher) <==> word
            == "description_enricher"@,
        kind_named(word) == Some(MiddlewareKind::ToolSearch) <==> word == "tool_search"@,
{
    reveal_strlit("description_enricher");
    reveal_strlit("tool_search");
    assert("description_enricher"@.len() != "tool_search"@.len());
}

/// Middleware works on the tools that the middleware before it leaves, each piece once.
/// Without middleware they stay as they are.
pub proof fn law_tools_go_through_all_middleware(
    first: Seq<ProxyMiddleware>,
    second: Seq<ProxyMiddleware>,
    one: ProxyMiddleware,
    tools: Seq<ToolView>,
)
    ensures
        tools_through(Seq::empty(), tools) == tools,
        tools_through(seq![one], tools) == one.shown_tools(tools),
        tools_through(first + second, tools) == tools_through(
            second,
            tools_through(first, tools),
        ),
    decreases second.len(),
{
    assert(seq![one].drop_last() =~= Seq::<ProxyMiddleware>::empty());
    assert(tools_through(seq![one].drop_last(), tools) == tools);
    if second.len() == 0 {
        assert(first + second =~= first);
    } else {
        law_tools_go_through_all_middleware(first, second.drop_last(), one, tools);
        assert((first + second).drop_last() =~= first + second.drop_last());
    }
}

/// What one piece of middleware makes of tools: an enricher gives each its description
/// and changes nothing else.
pub proof fn law_enriched_tools(
    middleware: ProxyMiddleware,
    tools: Seq<ToolView>,
    i: int,
)
    ensures
        middleware matches ProxyMiddleware::DescriptionEnricher(enricher) ==> {
            let shown = middleware.shown_tools(tools);
            &&& shown.len() == tools.len()
            &&& 0 <= i < tools.len() ==> {
                &&& is_described(
                    enricher.suffix(),
                    enricher.overrides(),
                    tools[i].name,
                    tools[i].description,
                    shown[i].description,
                )
                &&& shown[i] == (ToolView { description: shown[i].description, ..tools[i] })
            }
        },
{
    if let ProxyMiddleware::DescriptionEnricher(enricher) = middleware {
        if 0 <= i < tools.len() {
            law_tools_are_described(enricher, tools[i]);
        }
    }
}

/// Middleware works on the prompts that the middleware before it leaves, each piece once.
/// Without middleware they stay as they are.
pub proof fn law_prompts_go_through_all_middleware(
    first: Seq<ProxyMiddleware>,
    second: Seq<ProxyMiddleware>,
    one: ProxyMiddleware,
    prompts: Seq<PromptView>,
)
    ensures
        prompts_through(Seq::empty(), prompts) == prompts,
        prompts_through(seq![one], prompts) == one.shown_prompts(prompts),
        prompts_through(first + second, prompts) == prompts_through(
            second,
            prompts_through(first, prompts),
        ),
    decreases second.len(),
{
    assert(seq![one].drop_last() =~= Seq::<ProxyMiddleware>::empty());
    assert(prompts_through(seq![one].drop_last(), prompts) == prompts);
    if second.len() == 0 {
        assert(first + second =~= first);
    } else {
        law_prompts_go_through_all_middleware(first, second.drop_last(), one, prompts);
        assert((first + second).drop_last() =~= first + second.drop_last());
    }
}

/// What one piece of middleware makes of prompts: an enricher gives each its description
/// and changes nothing else, and a tool search
/// leaves them all.
pub proof fn law_enriched_prompts(
    middleware: ProxyMiddleware,
    prompts: Seq<PromptView>,
    i: int,
)
    ensures
        middleware matches ProxyMiddleware::DescriptionEnricher(enricher) ==> {
            let shown = middleware.shown_prompts(prompts);
            &&& shown.len() == prompts.len()
            &&& 0 <= i < prompts.len() ==> {
                &&& is_described(
                    enricher.suffix(),
                    enricher.overrides(),
                    prompts[i].name,
                    prompts[i].description,
                    shown[i].description,
                )
                &&& shown[i] == (PromptView { description: shown[i].description, ..prompts[i] })
            }
        },
        middleware is ToolSearch ==> middleware.shown_prompts(prompts) == prompts,
{
    if let ProxyMiddleware::DescriptionEnricher(enricher) = middleware {
        if 0 <= i < prompts.len() {
            law_prompts_are_described(enricher, prompts[i]);
        }
    }
}

/// Middleware works on the resources that the middleware before it leaves, each piece once.
/// Without middleware they stay as they are.
pub proof fn law_resources_go_through_all_middleware(
    first: Seq<ProxyMiddleware>,
    second: Seq<ProxyMiddleware>,
    one: ProxyMiddleware,
    resources: Seq<ResourceView>,
)
    ensures
        resources_through(Seq::empty(), resources) == resources,
        resources_through(seq![one], resources) == one.shown_resources(resources),
        resources_through(first + second, resources) == resources_through(
            second,
            resources_through(first, resources),
        ),
    decreases second.len(),
{
    assert(seq![one].drop_last() =~= Seq::<ProxyMiddleware>::empty());
    assert(resources_through(seq![one].drop_last(), resources) == resources);
    if second.len() == 0 {
        assert(first + second =~= first);
    } else {
        law_resources_go_through_all_middleware(first, second.drop_last(), one, resources);
        assert((first + second).drop_last() =~= first + second.drop_last());
    }
}

/// What one piece of middleware makes of resources: an enricher gives each its description
/// and changes nothing else, and a tool search
/// leaves them all.
pub proof fn law_enriched_resources(
    middleware: ProxyMiddleware,
    resources: Seq<ResourceView>,
    i: int,
)
    ensures
        middleware matches ProxyMiddleware::DescriptionEnricher(enricher) ==> {
            let shown = middleware.shown_resources(resources);
            &&& shown.len() == resources.len()
            &&& 0 <= i < resources.len() ==> {
                &&& is_described(
                    enricher.suffix(),
                    enricher.overrides(),
                    resources[i].uri,
                    resources[i].description,
                    shown[i].description,
                )
                &&& shown[i] == (ResourceView { description: shown[i].description, ..resources[i] })
            }
        },
        middleware is ToolSearch ==> middleware.shown_resources(resources) == resources,
{
    if let ProxyMiddleware::DescriptionEnricher(enricher) = middleware {
        if 0 <= i < resources.len() {
            law_resources_are_described(enricher, resources[i]);
        }
    }
}

/// A listing leaves enrichers as they are, and tells each tool search of the tools that
/// the middleware before it leaves.
pub proof fn law_listing_reaches_each_middleware(
    before: Seq<ProxyMiddleware>,
    tools: Seq<ToolView>,
    after: Seq<ProxyMiddleware>,
    i: int,
)
    requires
        all_listed_to(before, tools, after),
        0 <= i < before.len(),
    ensures
        after.len() == before.len(),
        before[i] is DescriptionEnricher ==> after[i] == before[i],
        before[i] matches ProxyMiddleware::ToolSearch(search) ==> after[i] matches
            ProxyMiddleware::ToolSearch(searched) && tools_listed(
            &search,
            tools_through(before.take(i), tools),
            &searched,
        ),
{
    assert(before[i].listed_to(tools_through(before.take(i), tools), after[i]));
}

/// Middleware that is switched off is not used, whatever it is. Of what is switched on,
/// the words of the kinds stand for them, and any other is an error that tells it.
pub proof fn law_requested_middleware(spec: MiddlewareSpecView)
    ensures
        !spec.enabled ==> requested_kind(spec) == Ok::<Option<MiddlewareKind>, ProxyErrorView>(None),
        spec.enabled ==> match kind_named(spec.middleware_type) {
            Some(kind) => requested_kind(spec) == Ok::<Option<MiddlewareKind>, ProxyErrorView>(
                Some(kind),
            ),
            None => requested_kind(spec) matches Err(ProxyErrorView::Config(text))
                && spec.middleware_type.is_suffix_of(text),
        },
{
    let text = "Unknown proxy middleware type: "@ + spec.middleware_type;
    assert(text.skip(text.len() - spec.middleware_type.len()) =~= spec.middleware_type);
}

} // verus!
