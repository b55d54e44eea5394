//! Middleware that replaces descriptions or adds to them.

use vstd::prelude::*;

use crate::config::text_or_none;
use crate::error::ProxyError;
use crate::json::{members_view, JsonValue, JsonView};
use crate::model::{
    prompts_view, resources_view, tools_view, Prompt, PromptView, Resource, ResourceView, Tool,
    ToolView,
};
use crate::text::{joined, same_text};

verus! {

/// Pairs of texts, as characters.
pub open spec fn pairs_view(pairs: Seq<(String, String)>) -> Seq<(Seq<char>, Seq<char>)> {
    pairs.map_values(|pair: (String, String)| (pair.0@, pair.1@))
}

/// The description that is given for a name: the last one, where there are
/// several.
pub open spec fn override_for(overrides: Seq<(Seq<char>, Seq<char>)>, name: Seq<char>) -> Option<
    Seq<char>,
>
    decreases overrides.len(),
{
    if overrides.len() == 0 {
        None
    } else if overrides.last().0 == name {
        Some(overrides.last().1)
    } else {
        override_for(overrides.drop_last(), name)
    }
}

/// What becomes of the description of an item: the one that is given for its
/// name, else its own with the suffix behind it.
pub open spec fn enriched(
    suffix: Seq<char>,
    overrides: Seq<(Seq<char>, Seq<char>)>,
    name: Seq<char>,
    description: Option<Seq<char>>,
) -> Option<Seq<char>> {
    match override_for(overrides, name) {
        Some(replacement) => Some(replacement),
        None => match description {
            Some(text) => Some(text + suffix),
            None => None,
        },
    }
}

/// The description that is given at a position is the last one for a name.
pub open spec fn is_last_given(
    overrides: Seq<(Seq<char>, Seq<char>)>,
    name: Seq<char>,
    at: int,
) -> bool {
    &&& 0 <= at < overrides.len()
    &&& overrides[at].0 == name
    &&& forall|later: int| at < later < overrides.len() ==> (#[trigger] overrides[later]).0 != name
}

/// An item of the given name has the description that it is to have: the last one that
/// is given for its name, whatever its own was, and where none is given, its own with
/// the suffix behind it, or none where it had none.
pub open spec fn is_described(
    suffix: Seq<char>,
    overrides: Seq<(Seq<char>, Seq<char>)>,
    name: Seq<char>,
    before: Option<Seq<char>>,
    after: Option<Seq<char>>,
) -> bool {
    &&& forall|at: int| #[trigger]
        is_last_given(overrides, name, at) ==> after == Some(overrides[at].1)
    &&& (forall|at: int| 0 <= at < overrides.len() ==> (#[trigger] overrides[at]).0 != name) ==> {
        &&& before is None ==> after is None
        &&& before matches Some(text) ==> after matches Some(longer) && longer.len() == text.len()
            + suffix.len() && text.is_prefix_of(longer) && suffix.is_suffix_of(longer)
    }
}

/// What is given last for a name is found, and nothing where nothing is given.
proof fn lemma_override_for(overrides: Seq<(Seq<char>, Seq<char>)>, name: Seq<char>)
    ensures
        forall|at: int| #[trigger]
            is_last_given(overrides, name, at) ==> override_for(overrides, name) == Some(
                overrides[at].1,
            ),
        (forall|at: int| 0 <= at < overrides.len() ==> (#[trigger] overrides[at]).0 != name)
            <==> override_for(overrides, name) is None,
    decreases overrides.len(),
{
    if overrides.len() > 0 {
        let start = overrides.drop_last();
        lemma_override_for(start, name);
        let last = overrides.len() - 1;
        assert(overrides[last] == overrides.last());
        assert forall|at: int| #[trigger]
            is_last_given(overrides, name, at) implies override_for(overrides, name) == Some(
            overrides[at].1,
        ) by {
            if overrides.last().0 == name {
                assert(at == last);
            } else {
                assert(start[at] == overrides[at]);
                assert forall|later: int| at < later < start.len() implies (#[trigger]
                start[later]).0 != name by {
                    assert(start[later] == overrides[later]);
                }
                assert(is_last_given(start, name, at));
            }
        }
        if forall|at: int| 0 <= at < overrides.len() ==> (#[trigger] overrides[at]).0 != name {
            assert forall|at: int| 0 <= at < start.len() implies (#[trigger] start[at]).0
                != name by {
                assert(start[at] == overrides[at]);
            }
        }
        if override_for(overrides, name) is None {
            assert forall|at: int| 0 <= at < overrides.len() implies (#[trigger] overrides[at]).0
                != name by {
                if at < last {
                    assert(start[at] == overrides[at]);
                }
            }
        }
    }
}

/// An item gets the description that it is to have.
pub proof fn law_items_are_described(
    suffix: Seq<char>,
    overrides: Seq<(Seq<char>, Seq<char>)>,
    name: Seq<char>,
    description: Option<Seq<char>>,
)
    ensures
        is_described(
            suffix,
            overrides,
            name,
            description,
            enriched(suffix, overrides, name, description),
        ),
{
    lemma_override_for(overrides, name);
    if let Some(text) = description {
        let longer = text + suffix;
        assert(longer.take(text.len() as int) =~= text);
        assert(longer.skip(longer.len() - suffix.len()) =~= suffix);
    }
}

/// Middleware that replaces descriptions or adds to them.
#[derive(Debug)]
pub struct DescriptionEnricherMiddleware {
    suffix: String,
    overrides: Vec<(String, String)>,
}

impl DescriptionEnricherMiddleware {
    /// What is added to a description.
    pub closed spec fn suffix(&self) -> Seq<char> {
        self.suffix@
    }

    /// The descriptions that are given for names.
    pub closed spec fn overrides(&self) -> Seq<(Seq<char>, Seq<char>)> {
        pairs_view(self.overrides@)
    }

    /// A tool with the description that it gets.
    pub open spec fn enriched_tool(&self, tool: ToolView) -> ToolView {
        ToolView {
            description: enriched(self.suffix(), self.overrides(), tool.name, tool.description),
            ..tool
        }
    }

    /// A prompt with the description that it gets.
    pub open spec fn enriched_prompt(&self, prompt: PromptView) -> PromptView {
        PromptView {
            description: enriched(
                self.suffix(),
                self.overrides(),
                prompt.name,
                prompt.description,
            ),
            ..prompt
        }
    }

    /// A resource with the description that it gets. It goes by its URI.
    pub open spec fn enriched_resource(&self, resource: ResourceView) -> ResourceView {
        ResourceView {
            description: enriched(
                self.suffix(),
                self.overrides(),
                resource.uri,
                resource.description,
            ),
            ..resource
        }
    }

    /// The middleware with the given suffix and the given descriptions for names.
    pub fn new(suffix: String, overrides: Vec<(String, String)>) -> (middleware: Self)
        ensures
            middleware.suffix() == suffix@,
            middleware.overrides() == pairs_view(overrides@),
    {
        DescriptionEnricherMiddleware { suffix, overrides }
    }

    /// The description that an item gets.
    fn enrich(&self, name: &str, description: &Option<String>) -> (res: Option<String>)
        ensures
            text_or_none(res) == enriched(
                self.suffix(),
                self.overrides(),
                name@,
                text_or_none(*description),
            ),
    {
        let ghost seen = pairs_view(self.overrides@);
        let mut i: usize = self.overrides.len();
        assert(seen.take(i as int) =~= seen);
        while i > 0
            invariant
                i <= self.overrides.len(),
                seen == pairs_view(self.overrides@),
                override_for(seen, name@) == override_for(seen.take(i as int), name@),
            decreases i,
        {
            assert(seen.take(i as int).last() == (
                self.overrides@[i - 1].0@,
                self.overrides@[i - 1].1@,
            ));
            assert(seen.take(i as int).drop_last() =~= seen.take(i - 1));
            if same_text(self.overrides[i - 1].0.as_str(), name) {
                return Some(self.overrides[i - 1].1.clone());
            }
            i = i - 1;
        }
        match description {
            Some(text) => Some(joined(text.as_str(), self.suffix.as_str())),
            None => None,
        }
    }

    /// Gives each tool the description that it gets.
    pub fn on_list_tools(&self, tools: &mut Vec<Tool>)
        ensures
            tools_view(final(tools)@) == tools_view(old(tools)@).map_values(
                |tool: ToolView| self.enriched_tool(tool),
            ),
            final(tools)@.len() == old(tools)@.len(),
            forall|i: int|
                0 <= i < final(tools)@.len() ==> {
                    let before = old(tools)@[i]@;
                    let after = (#[trigger] final(tools)@[i])@;
                    &&& is_described(
                        self.suffix(),
                        self.overrides(),
                        before.name,
                        before.description,
                        after.description,
                    )
                    &&& after == (ToolView { description: after.description, ..before })
                },
    {
        let ghost before = tools@;
        let mut i: usize = 0;
        while i < tools.len()
            invariant
                i <= tools.len(),
                tools@.len() == before.len(),
                forall|j: int|
                    0 <= j < i ==> (#[trigger] tools@[j])@ == self.enriched_tool(before[j]@),
                forall|j: int| i <= j < before.len() ==> #[trigger] tools@[j] == before[j],
            decreases tools.len() - i,
        {
            let mut tool: Tool = tools[i].clone();
            let description: Option<String> = self.enrich(tool.name.as_str(), &tool.description);
            tool.description = description;
            tools.set(i, tool);
            i = i + 1;
        }
        assert(tools_view(tools@) =~= tools_view(before).map_values(
            |tool: ToolView| self.enriched_tool(tool),
        ));
        proof {
            assert forall|j: int| 0 <= j < tools@.len() implies is_described(
                self.suffix(),
                self.overrides(),
                before[j]@.name,
                before[j]@.description,
                (#[trigger] tools@[j])@.description,
            ) by {
                law_items_are_described(
                    self.suffix(),
                    self.overrides(),
                    before[j]@.name,
                    before[j]@.description,
                );
            }
        }
    }

    /// Gives each prompt the description that it gets.
    pub fn on_list_prompts(&self, prompts: &mut Vec<Prompt>)
        ensures
            prompts_view(final(prompts)@) == prompts_view(old(prompts)@).map_values(
                |prompt: PromptView| self.enriched_prompt(prompt),
            ),
            final(prompts)@.len() == old(prompts)@.len(),
            forall|i: int|
                0 <= i < final(prompts)@.len() ==> {
                    let before = old(prompts)@[i]@;
                    let after = (#[trigger] final(prompts)@[i])@;
                    &&& is_described(
                        self.suffix(),
                        self.overrides(),
                        before.name,
                        before.description,
                        after.description,
                    )
                    &&& after == (PromptView { description: after.description, ..before })
                },
    {
        let ghost before = prompts@;
        let mut i: usize = 0;
        while i < prompts.len()
            invariant
                i <= prompts.len(),
                prompts@.len() == before.len(),
                forall|j: int|
                    0 <= j < i ==> (#[trigger] prompts@[j])@ == self.enriched_prompt(before[j]@),
                forall|j: int| i <= j < before.len() ==> #[trigger] prompts@[j] == before[j],
            decreases prompts.len() - i,
        {
            let mut prompt: Prompt = prompts[i].clone();
            let description: Option<String> = self.enrich(
                prompt.name.as_str(),
                &prompt.description,
            );
            prompt.description = description;
            prompts.set(i, prompt);
            i = i + 1;
        }
        assert(prompts_view(prompts@) =~= prompts_view(before).map_values(
            |prompt: PromptView| self.enriched_prompt(prompt),
        ));
        proof {
            assert forall|j: int| 0 <= j < prompts@.len() implies is_described(
                self.suffix(),
                self.overrides(),
                before[j]@.name,
                before[j]@.description,
                (#[trigger] prompts@[j])@.description,
            ) by {
                law_items_are_described(
                    self.suffix(),
                    self.overrides(),
                    before[j]@.name,
                    before[j]@.description,
                );
            }
        }
    }

    /// Gives each resource the description that it gets.
    pub fn on_list_resources(&self, resources: &mut Vec<Resource>)
        ensures
            resources_view(final(resources)@) == resources_view(old(resources)@).map_values(
                |resource: ResourceView| self.enriched_resource(resource),
            ),
            final(resources)@.len() == old(resources)@.len(),
            forall|i: int|
                0 <= i < final(resources)@.len() ==> {
                    let before = old(resources)@[i]@;
                    let after = (#[trigger] final(resources)@[i])@;
                    &&& is_described(
                        self.suffix(),
                        self.overrides(),
                        before.uri,
                        before.description,
                        after.description,
                    )
                    &&& after == (ResourceView { description: after.description, ..before })
                },
    {
        let ghost before = resources@;
        let mut i: usize = 0;
        while i < resources.len()
            invariant
                i <= resources.len(),
                resources@.len() == before.len(),
                forall|j: int|
                    0 <= j < i ==> (#[trigger] resources@[j])@ == self.enriched_resource(
                        before[j]@,
                    ),
                forall|j: int| i <= j < before.len() ==> #[trigger] resources@[j] == before[j],
            decreases resources.len() - i,
        {
            let mut resource: Resource = resources[i].clone();
            let description: Option<String> = self.enrich(
                resource.uri.as_str(),
                &resource.description,
            );
            resource.description = description;
            resources.set(i, resource);
            i = i + 1;
        }
        assert(resources_view(resources@) =~= resources_view(before).map_values(
            |resource: ResourceView| self.enriched_resource(resource),
        ));
        proof {
            assert forall|j: int| 0 <= j < resources@.len() implies is_described(
                self.suffix(),
                self.overrides(),
                before[j]@.uri,
                before[j]@.description,
                (#[trigger] resources@[j])@.description,
            ) by {
                law_items_are_described(
                    self.suffix(),
                    self.overrides(),
                    before[j]@.uri,
                    before[j]@.description,
                );
            }
        }
    }
}

/// Makes the middleware from its configuration.
#[derive(Debug)]
pub struct DescriptionEnricherFactory;

/// The suffix that a configuration gives.
pub open spec fn configured_suffix(config: JsonView) -> Seq<char> {
    match config.member("suffix"@) {
        Some(JsonView::Text(suffix)) => suffix,
        _ => " (via mcproxy)"@,
    }
}

/// The descriptions for names that the members of an object give: texts, and the
/// empty text for what is none.
pub open spec fn given_texts(members: Seq<(Seq<char>, JsonView)>) -> Seq<(Seq<char>, Seq<char>)> {
    members.map_values(
        |member: (Seq<char>, JsonView)|
            (
                member.0,
                match member.1 {
                    JsonView::Text(text) => text,
                    _ => Seq::empty(),
                },
            ),
    )
}

/// The descriptions for names that a configuration gives.
pub open spec fn configured_overrides(config: JsonView) -> Seq<(Seq<char>, Seq<char>)> {
    match config.member("overrides"@) {
        Some(JsonView::Object(members)) => given_texts(members),
        _ => Seq::empty(),
    }
}

/// The descriptions for names that the members of an object give.
fn read_overrides(members: &Vec<(String, JsonValue)>) -> (overrides: Vec<(String, String)>)
    ensures
        pairs_view(overrides@) == given_texts(members_view(members@)),
{
    let mut overrides: Vec<(String, String)> = Vec::new();
    let mut i: usize = 0;
    while i < members.len()
        invariant
            i <= members.len(),
            overrides@.len() == i,
            forall|j: int|
                0 <= j < i ==> (#[trigger] overrides@[j]).0@ == members@[j].0@ && overrides@[j].1@
                    == (match members@[j].1.view() {
                    JsonView::Text(text) => text,
                    _ => Seq::empty(),
                }),
        decreases members.len() - i,
    {
        proof {
            reveal_strlit("");
        }
        let text: String = match members[i].1.as_str() {
            Some(text) => text.to_string(),
            None => "".to_string(),
        };
        assert(members@[i as int].1.view().text() is None ==> text@ =~= Seq::<char>::empty());
        overrides.push((members[i].0.clone(), text));
        i = i + 1;
    }
    assert(pairs_view(overrides@) =~= given_texts(members_view(members@)));
    overrides
}

impl DescriptionEnricherFactory {
    /// The middleware that a configuration asks for.
    pub fn create(&self, config: &JsonValue) -> (res: Result<
        DescriptionEnricherMiddleware,
        ProxyError,
    >)
        ensures
            res matches Ok(middleware) && middleware.suffix() == configured_suffix(config.view())
                && middleware.overrides() == configured_overrides(config.view()),
    {
        let suffix: String = match config.get("suffix") {
            Some(value) => match value.as_str() {
                Some(suffix) => suffix.to_string(),
                None => " (via mcproxy)".to_string(),
            },
            None => " (via mcproxy)".to_string(),
        };
        let overrides: Vec<(String, String)> = match config.get("overrides") {
            Some(value) => match value {
                JsonValue::Object(members) => {
                    assert(value.view()->Object_0 =~= members_view(members@));
                    read_overrides(members)
                },
                _ => Vec::new(),
            },
            None => Vec::new(),
        };
        assert(overrides@.len() == 0 ==> pairs_view(overrides@) =~= Seq::<
            (Seq<char>, Seq<char>),
        >::empty());
        Ok(DescriptionEnricherMiddleware::new(suffix, overrides))
    }

    /// The word for the middleware in a configuration.
    pub fn middleware_type(&self) -> (word: &'static str)
        ensures
            word@ == "description_enricher"@,
    {
        "description_enricher"
    }
}

/// The description that is given for a name is the one that an item of that name
/// gets, whatever its own is.
pub proof fn law_override_replaces(
    suffix: Seq<char>,
    overrides: Seq<(Seq<char>, Seq<char>)>,
    name: Seq<char>,
    replacement: Seq<char>,
    description: Option<Seq<char>>,
)
    ensures
        enriched(suffix, overrides.push((name, replacement)), name, description) == Some(
            replacement,
        ),
{
}

/// What is given for one name changes nothing for the others.
pub proof fn law_override_is_for_its_name(
    suffix: Seq<char>,
    overrides: Seq<(Seq<char>, Seq<char>)>,
    name: Seq<char>,
    replacement: Seq<char>,
    other: Seq<char>,
    description: Option<Seq<char>>,
)
    requires
        other != name,
    ensures
        enriched(suffix, overrides.push((name, replacement)), other, description) == enriched(
            suffix,
            overrides,
            other,
            description,
        ),
{
    assert(overrides.push((name, replacement)).drop_last() =~= overrides);
}

/// With an empty suffix, and no description for its name, an item keeps its own.
pub proof fn law_empty_suffix_changes_nothing(
    overrides: Seq<(Seq<char>, Seq<char>)>,
    name: Seq<char>,
    description: Option<Seq<char>>,
)
    requires
        override_for(overrides, name) is None,
    ensures
        enriched(Seq::empty(), overrides, name, description) == description,
{
    if let Some(text) = description {
        assert(text + Seq::<char>::empty() =~= text);
    }
}

/// The middleware gives each tool the description that it is to have, by its name, and
/// changes nothing else of it.
pub proof fn law_tools_are_described(middleware: DescriptionEnricherMiddleware, tool: ToolView)
    ensures
        ({
            let after = middleware.enriched_tool(tool);
            &&& is_described(
                middleware.suffix(),
                middleware.overrides(),
                tool.name,
                tool.description,
                after.description,
            )
            &&& after.name == tool.name
            &&& after.input_schema == tool.input_schema
            &&& after.annotations == tool.annotations
        }),
{
    law_items_are_described(
        middleware.suffix(),
        middleware.overrides(),
        tool.name,
        tool.description,
    );
}

/// The middleware gives each prompt the description that it is to have, by its name,
/// and changes nothing else of it.
pub proof fn law_prompts_are_described(
    middleware: DescriptionEnricherMiddleware,
    prompt: PromptView,
)
    ensures
        ({
            let after = middleware.enriched_prompt(prompt);
            &&& is_described(
                middleware.suffix(),
                middleware.overrides(),
                prompt.name,
                prompt.description,
                after.description,
            )
            &&& after.name == prompt.name
            &&& after.arguments == prompt.arguments
        }),
{
    law_items_are_described(
        middleware.suffix(),
        middleware.overrides(),
        prompt.name,
        prompt.description,
    );
}

/// The middleware gives each resource the description that it is to have, by its URI,
/// and changes nothing else of it.
pub proof fn law_resources_are_described(
    middleware: DescriptionEnricherMiddleware,
    resource: ResourceView,
)
    ensures
        ({
            let after = middleware.enriched_resource(resource);
            &&& is_described(
                middleware.suffix(),
                middleware.overrides(),
                resource.uri,
                resource.description,
                after.description,
            )
            &&& after.uri == resource.uri
            &&& after.name == resource.name
            &&& after.mime_type == resource.mime_type
            &&& after.size == resource.size
            &&& after.annotations == resource.annotations
        }),
{
    law_items_are_described(
        middleware.suffix(),
        middleware.overrides(),
        resource.uri,
        resource.description,
    );
}

/// Each text that a configuration gives for a name, and the empty text for what is no
/// text, is the description that an item of that name gets, where it is the last one
/// for the name. For a name that is not there nothing is given.
pub proof fn law_configured_overrides_are_used(
    config: JsonView,
    members: Seq<(Seq<char>, JsonView)>,
    name: Seq<char>,
    at: int,
    suffix: Seq<char>,
    description: Option<Seq<char>>,
)
    requires
        config.member("overrides"@) == Some(JsonView::Object(members)),
        0 <= at < members.len(),
        members[at].0 == name,
        forall|later: int| at < later < members.len() ==> (#[trigger] members[later]).0 != name,
    ensures
        members[at].1 matches JsonView::Text(text) ==> enriched(
            suffix,
            configured_overrides(config),
            name,
            description,
        ) == Some(text),
        !(members[at].1 is Text) ==> enriched(
            suffix,
            configured_overrides(config),
            name,
            description,
        ) == Some(Seq::<char>::empty()),
{
    let overrides = configured_overrides(config);
    assert(overrides.len() == members.len());
    assert forall|later: int| at < later < overrides.len() implies (#[trigger] overrides[later]).0
        != name by {
        assert(members[later].0 != name);
    }
    assert(is_last_given(overrides, name, at));
    lemma_override_for(overrides, name);
}

/// What a configuration does not name is not replaced, and gets the suffix of the
/// configuration, where that is a text, else the usual one.
pub proof fn law_configured_suffix_is_used(
    config: JsonView,
    name: Seq<char>,
    text: Seq<char>,
)
    requires
        config.member("overrides"@) matches Some(JsonView::Object(members)) ==> forall|i: int|
            0 <= i < members.len() ==> (#[trigger] members[i]).0 != name,
    ensures
        config.member("suffix"@) matches Some(JsonView::Text(suffix)) ==> enriched(
            configured_suffix(config),
            configured_overrides(config),
            name,
            Some(text),
        ) == Some(text + suffix),
        !(config.member("suffix"@) matches Some(JsonView::Text(_))) ==> enriched(
            configured_suffix(config),
            configured_overrides(config),
            name,
            Some(text),
        ) == Some(text + " (via mcproxy)"@),
        enriched(
            configured_suffix(config),
            configured_overrides(config),
            name,
            None,
        ) is None,
{
    let overrides = configured_overrides(config);
    assert forall|i: int| 0 <= i < overrides.len() implies (#[trigger] overrides[i]).0 != name by {
        if let Some(JsonView::Object(members)) = config.member("overrides"@) {
            assert(members[i].0 != name);
        }
    }
    lemma_override_for(overrides, name);
}

} // verus!
