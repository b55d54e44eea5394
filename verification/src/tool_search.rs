//! Middleware that shows a client a selection of the tools, and a tool to search
//! for the others.

use std::sync::Arc;
use tantivy::query::QueryParser;
use tantivy::schema::{Schema, SchemaBuilder};
use tantivy::{Index, Searcher, TantivyDocument, TantivyError};
use vstd::multiset::Multiset;
use vstd::pervasive::unreached;
use vstd::prelude::*;

use crate::config::text_or_none;
use crate::error::{ProxyError, ProxyErrorView};
use crate::json::{
    array_of, items_view, law_first_named, members_view, object_of, text_of, JsonValue, JsonView,
};
use crate::model::{clone_tools, tools_view, Prompt, Resource, Tool, ToolView};
use crate::naming::{extract_server_name, law_names_are_parted, server_of};
use crate::order::{
    in_order, law_sort_is_stable, law_sorted, named, sort_tools, sorted, ToolOrder,
};
use crate::query::{
    is_readable, law_phrases_are_readable, law_short_texts_are_readable, readable, MOST_STACK,
    MOST_WORK,
};
use crate::score::{
    at_least, law_higher_scores_pass, law_lower_thresholds_are_passed, passes, score_passes,
};
use crate::search_index::{
    accepts, add_document, add_stored_text_field, add_text, add_text_field, addresses_of,
    build_schema, commit,
    create_in_ram, document_at, document_size, document_texts, first_text, first_text_of, get_field,
    index_documents, index_fields, is_field_name, is_small, may_answer, may_not_answer,
    may_not_read, may_refuse_commit, may_refuse_document, may_refuse_reader, may_refuse_writer,
    most_hits, new_document, parser_defaults, parser_fields, query_accepted, query_parser, reader,
    schema_builder, schema_fields, search, searcher, searcher_documents, searcher_fields, stand_at,
    stored_texts, writer, writer_documents, writer_fields, Document, IndexWriter,
};
use crate::text::{
    decimal, decimal_text, joined, occurs_at, occurs_in, same_text, texts,
};

verus! {

/// The configuration of the tool search.
#[derive(Clone, Debug)]
pub struct ToolSearchMiddlewareConfig {
    /// Whether it does anything.
    pub enabled: bool,
    /// How many tools are shown at first, and how many a search gives.
    pub max_tools_limit: usize,
    /// A tenth of the least score that a search result has, in the bits of a
    /// single precision number.
    pub search_threshold: u32,
    /// The orders that the tools are put in before the first ones are shown, one
    /// after the other.
    pub tool_selection_order: Vec<String>,
}

/// The tool search is on where nothing else is said.
pub fn default_enabled() -> (enabled: bool)
    ensures
        enabled,
{
    true
}

/// How many tools are shown where nothing else is said.
pub fn default_max_tools_limit() -> (limit: usize)
    ensures
        limit == 50,
{
    50
}

/// The threshold where nothing else is said: one tenth.
pub fn default_search_threshold() -> (bits: u32)
    ensures
        bits == 0x3dcc_cccd,
{
    0x3dcc_cccd
}

/// The orders that tools are put in where nothing else is said.
pub fn default_tool_selection_order() -> (order: Vec<String>)
    ensures
        texts(order@) == seq!["server_priority"@],
{
    let order: Vec<String> = vec!["server_priority".to_string()];
    assert(texts(order@) =~= seq!["server_priority"@]);
    order
}

impl ToolSearchMiddlewareConfig {
    /// The configuration has the values that are used where none are given.
    pub open spec fn is_default(self) -> bool {
        &&& self.enabled
        &&& self.max_tools_limit == 50
        &&& self.search_threshold == 0x3dcc_cccd
        &&& texts(self.tool_selection_order@) == seq!["server_priority"@]
    }
}

impl Default for ToolSearchMiddlewareConfig {
    fn default() -> (config: Self)
        ensures
            config.is_default(),
    {
        ToolSearchMiddlewareConfig {
            enabled: default_enabled(),
            max_tools_limit: default_max_tools_limit(),
            search_threshold: default_search_threshold(),
            tool_selection_order: default_tool_selection_order(),
        }
    }
}

/// The name of the tool that searches for tools.
pub open spec fn search_tool_name() -> Seq<char> {
    "search_available_tools"@
}

/// The JSON Schema of the arguments of the search tool.
pub open spec fn search_tool_schema() -> JsonView {
    JsonView::Object(
        seq![
            ("type"@, JsonView::Text("object"@)),
            (
                "properties"@,
                JsonView::Object(
                    seq![
                        (
                            "query"@,
                            JsonView::Object(
                                seq![
                                    ("type"@, JsonView::Text("string"@)),
                                    (
                                        "description"@,
                                        JsonView::Text(
                                            "Search query to find relevant tools by name or description"@,
                                        ),
                                    ),
                                ],
                            ),
                        ),
                    ],
                ),
            ),
            ("required"@, JsonView::Array(seq![JsonView::Text("query"@)])),
        ],
    )
}

/// The tool that searches for the given number of tools that are not shown.
pub open spec fn search_tool(hidden: nat) -> ToolView {
    ToolView {
        name: search_tool_name(),
        description: Some(
            "Search through "@ + decimal(hidden)
                + " additional available tools. Provide a search query to find relevant tools by name or description."@,
        ),
        input_schema: search_tool_schema(),
        annotations: None,
    }
}

/// The JSON Schema of the arguments of the search tool.
fn create_search_schema() -> (schema: JsonValue)
    ensures
        schema.view() == search_tool_schema(),
{
    let query: Vec<(String, JsonValue)> = vec![
        ("type".to_string(), text_of("string")),
        (
            "description".to_string(),
            text_of("Search query to find relevant tools by name or description"),
        ),
    ];
    let ghost query_view = seq![
        ("type"@, JsonView::Text("string"@)),
        (
            "description"@,
            JsonView::Text("Search query to find relevant tools by name or description"@),
        ),
    ];
    assert(members_view(query@) =~= query_view);
    let properties: Vec<(String, JsonValue)> = vec![("query".to_string(), object_of(query))];
    let ghost properties_view = seq![("query"@, JsonView::Object(query_view))];
    assert(members_view(properties@) =~= properties_view);
    let required: Vec<JsonValue> = vec![text_of("query")];
    assert(items_view(required@) =~= seq![JsonView::Text("query"@)]);
    let schema: Vec<(String, JsonValue)> = vec![
        ("type".to_string(), text_of("object")),
        ("properties".to_string(), object_of(properties)),
        ("required".to_string(), array_of(required)),
    ];
    assert(members_view(schema@) =~= search_tool_schema()->Object_0);
    object_of(schema)
}

/// The order that a word of the configuration stands for. Other words, such as
/// `usage_frequency`, stand for none.
pub open spec fn order_named(word: Seq<char>) -> Option<ToolOrder> {
    if word == "alphabetical"@ {
        Some(ToolOrder::Alphabetical)
    } else if word == "server_priority"@ {
        Some(ToolOrder::ServerPriority)
    } else {
        None
    }
}

/// Tools put in each of the orders, one after the other.
pub open spec fn arranged(orders: Seq<Seq<char>>, tools: Seq<ToolView>) -> Seq<ToolView>
    decreases orders.len(),
{
    if orders.len() == 0 {
        tools
    } else {
        let before = arranged(orders.drop_last(), tools);
        match order_named(orders.last()) {
            Some(order) => sorted(order, before),
            None => before,
        }
    }
}

/// The tools that are shown at first: all where they are not too many, else the
/// first ones in the configured order.
pub open spec fn initial_tools(config: ToolSearchMiddlewareConfig, tools: Seq<ToolView>) -> Seq<
    ToolView,
> {
    if !config.enabled || tools.len() <= config.max_tools_limit {
        tools
    } else {
        arranged(texts(config.tool_selection_order@), tools).take(config.max_tools_limit as int)
    }
}

/// The order that a word of the configuration stands for.
fn parse_order(word: &str) -> (order: Option<ToolOrder>)
    ensures
        order == order_named(word@),
{
    if same_text(word, "alphabetical") {
        Some(ToolOrder::Alphabetical)
    } else if same_text(word, "server_priority") {
        Some(ToolOrder::ServerPriority)
    } else {
        None
    }
}

/// Putting tools in order keeps their number.
proof fn lemma_arranged_len(orders: Seq<Seq<char>>, tools: Seq<ToolView>)
    ensures
        arranged(orders, tools).len() == tools.len(),
    decreases orders.len(),
{
    if orders.len() > 0 {
        lemma_arranged_len(orders.drop_last(), tools);
        if let Some(order) = order_named(orders.last()) {
            law_sorted(order, arranged(orders.drop_last(), tools));
        }
    }
}

/// The fields of the index of tools.
pub open spec fn tool_fields() -> Seq<(Seq<char>, bool)> {
    seq![("name"@, true), ("description"@, true), ("server"@, true), ("searchable_text"@, false)]
}

/// The description of a tool, empty where it has none.
pub open spec fn description_text(tool: ToolView) -> Seq<char> {
    match tool.description {
        Some(description) => description,
        None => Seq::empty(),
    }
}

/// What the index holds of a tool: its name, its description, its server, and
/// name and description together to search in.
pub open spec fn document_of(tool: ToolView) -> Document {
    seq![
        (0u32, tool.name),
        (1u32, description_text(tool)),
        (2u32, server_of(tool.name)),
        (3u32, tool.name + " "@ + description_text(tool)),
    ]
}

/// What the index holds of tools.
pub open spec fn documents_of(tools: Seq<ToolView>) -> Multiset<Document>
    decreases tools.len(),
{
    if tools.len() == 0 {
        Multiset::empty()
    } else {
        documents_of(tools.drop_last()).insert(document_of(tools.last()))
    }
}

/// Each of the tools is small enough for the index.
pub open spec fn all_small(tools: Seq<ToolView>) -> bool {
    forall|i: int| 0 <= i < tools.len() ==> is_small(document_of(#[trigger] tools[i]))
}

/// The tools that were taken into the index.
pub open spec fn taken_tools(tools: Seq<ToolView>, taken: Seq<bool>) -> Seq<ToolView>
    decreases tools.len(),
{
    if tools.len() == 0 || tools.len() != taken.len() {
        Seq::empty()
    } else if taken.last() {
        taken_tools(tools.drop_last(), taken.drop_last()).push(tools.last())
    } else {
        taken_tools(tools.drop_last(), taken.drop_last())
    }
}

/// What became of the tools that were to be indexed.
#[derive(Clone, Debug, PartialEq, Eq)]
pub enum IndexReport {
    /// The index could not be opened for writing.
    NoWriter,
    /// For each tool whether it was taken; but what was taken did not get into
    /// the index.
    NotCommitted { taken: Vec<bool> },
    /// For each tool whether it was taken. What was taken is in the index.
    Committed { taken: Vec<bool> },
}

/// A hit of a search: its score, and the name of the tool that it is, where that
/// could be read.
#[derive(Clone, Debug, PartialEq, Eq)]
pub struct SearchHit {
    pub score: u32,
    pub name: Option<String>,
}

/// The hits of a search, with their texts as characters.
pub open spec fn hits_view(hits: Seq<SearchHit>) -> Seq<(u32, Option<Seq<char>>)> {
    hits.map_values(|hit: SearchHit| (hit.score, text_or_none(hit.name)))
}

/// A text in quotation marks.
pub open spec fn quoted(text: Seq<char>) -> Seq<char> {
    "\""@ + text + "\""@
}

/// A text is a query for tools.
pub open spec fn is_query(text: Seq<char>) -> bool {
    query_accepted(tool_fields(), seq![3u32], text)
}

/// The query that the index is asked: the text, in quotation marks where it is
/// no query as it stands.
pub open spec fn asked_query(text: Seq<char>) -> Option<Seq<char>> {
    if is_query(text) {
        Some(text)
    } else if is_query(quoted(text)) {
        Some(quoted(text))
    } else {
        None
    }
}

/// It can be found out which query the index is asked: the parser can be given the
/// text, and the text in quotation marks, where that is needed.
pub open spec fn can_be_asked(text: Seq<char>) -> bool {
    is_readable(text) && (is_query(text) || is_readable(quoted(text)))
}

/// A hit is what reading one of those found gave: it has its score, and the name
/// of the document at its place, unless that may not be read.
pub open spec fn names_hit(
    places: Map<(u32, u32), Document>,
    found: (u32, (u32, u32)),
    hit: (u32, Option<Seq<char>>),
) -> bool {
    &&& hit.0 == found.0
    &&& is_small(places[found.1]) ==> {
        ||| hit.1 == first_text(stored_texts(tool_fields(), places[found.1]), 0)
        ||| hit.1 is None && may_not_read(places[found.1])
    }
}

/// The hits are what reading `found` gave: the documents stand at their places,
/// `found` is an answer to the query, at most so many addresses, none of them
/// twice and the best first, and a hit has the name of the document at its place,
/// unless that may not be read.
pub open spec fn reads_as(
    documents: Multiset<Document>,
    limit: nat,
    query: Seq<char>,
    places: Map<(u32, u32), Document>,
    found: Seq<(u32, (u32, u32))>,
    hits: Seq<(u32, Option<Seq<char>>)>,
) -> bool {
    &&& stand_at(documents, places)
    &&& may_answer(tool_fields(), seq![3u32], query, places, limit, found)
    &&& found.len() <= limit
    &&& forall|i: int, j: int|
        0 <= i < j < found.len() ==> (#[trigger] found[i]).1 != (#[trigger] found[j]).1 && at_least(
            found[i].0,
            found[j].0,
        )
    &&& hits.len() == found.len()
    &&& forall|i: int|
        0 <= i < hits.len() ==> {
            &&& places.contains_key(#[trigger] found[i].1)
            &&& names_hit(places, found[i], hits[i])
        }
}

/// A query may get no answer from an index of the given documents, which stand at
/// their places.
pub open spec fn goes_unanswered(
    documents: Multiset<Document>,
    limit: nat,
    query: Seq<char>,
    places: Map<(u32, u32), Document>,
) -> bool {
    stand_at(documents, places) && may_not_answer(tool_fields(), seq![3u32], query, places, limit)
}

/// The hits are possible ones for a text: what reading an answer of the index gave,
/// or none, where the index may not be read or the query may get no answer. Where
/// there is no index or no query there are none.
pub open spec fn may_hit(
    indexed: Option<Multiset<Document>>,
    limit: nat,
    text: Seq<char>,
    hits: Seq<(u32, Option<Seq<char>>)>,
) -> bool {
    if indexed is Some && asked_query(text) is Some {
        let documents = indexed->0;
        let query = asked_query(text)->0;
        ||| hits.len() == 0 && may_refuse_reader(documents)
        ||| hits.len() == 0 && exists|places: Map<(u32, u32), Document>| #[trigger]
            goes_unanswered(documents, limit, query, places)
        ||| exists|places: Map<(u32, u32), Document>, found: Seq<(u32, (u32, u32))>| #[trigger]
            reads_as(documents, limit, query, places, found, hits)
    } else {
        hits.len() == 0
    }
}

/// Of two hits the first is at least as good.
pub open spec fn best_first(hits: Seq<(u32, Option<Seq<char>>)>) -> bool {
    forall|i: int, j: int|
        0 <= i < j < hits.len() ==> at_least((#[trigger] hits[i]).0, (#[trigger] hits[j]).0)
}

/// The first tool of a list that has a name.
pub open spec fn tool_named(tools: Seq<ToolView>, name: Seq<char>) -> Option<ToolView>
    decreases tools.len(),
{
    if tools.len() == 0 {
        None
    } else if tools.first().name == name {
        Some(tools.first())
    } else {
        tool_named(tools.drop_first(), name)
    }
}

/// The tool that a hit stands for, where its score passes the threshold.
pub open spec fn tool_of_hit(
    stored: Seq<ToolView>,
    threshold: u32,
    hit: (u32, Option<Seq<char>>),
) -> Option<ToolView> {
    if !passes(hit.0, threshold) {
        None
    } else {
        match hit.1 {
            Some(name) => tool_named(stored, name),
            None => None,
        }
    }
}

/// The tools that hits stand for, in the order of the hits.
pub open spec fn tools_of_hits(
    stored: Seq<ToolView>,
    threshold: u32,
    hits: Seq<(u32, Option<Seq<char>>)>,
) -> Seq<ToolView>
    decreases hits.len(),
{
    if hits.len() == 0 {
        Seq::empty()
    } else {
        let before = tools_of_hits(stored, threshold, hits.drop_last());
        match tool_of_hit(stored, threshold, hits.last()) {
            Some(tool) => before.push(tool),
            None => before,
        }
    }
}

/// What a listing shows, and what is exposed after it: the tools, and whether they
/// are shown in place of all tools.
pub struct Listing {
    pub shown: Seq<ToolView>,
    pub exposed: Seq<ToolView>,
    pub injected: bool,
}

/// One of the tools is the search tool.
pub open spec fn has_search_tool(tools: Seq<ToolView>) -> bool {
    exists|i: int| 0 <= i < tools.len() && (#[trigger] tools[i]).name == search_tool_name()
}

/// The tools with the search tool among them, which tells how many of the tools
/// in total are not shown.
pub open spec fn with_search_tool(tools: Seq<ToolView>, total: nat) -> Seq<ToolView> {
    if has_search_tool(tools) {
        tools
    } else {
        tools.push(
            search_tool(
                (if total > tools.len() {
                    total - tools.len()
                } else {
                    0
                }) as nat,
            ),
        )
    }
}

/// What a listing of all tools shows. Where tools are exposed in place of all
/// tools, those are shown, with the search tool. Else where the tools are too
/// many, the first ones are shown and exposed, with the search tool. Else all
/// are.
pub open spec fn listing(
    config: ToolSearchMiddlewareConfig,
    exposed: Seq<ToolView>,
    injected: bool,
    tools: Seq<ToolView>,
) -> Listing {
    if !config.enabled {
        Listing { shown: tools, exposed, injected }
    } else if injected {
        Listing { shown: with_search_tool(exposed, tools.len()), exposed, injected }
    } else if tools.len() > config.max_tools_limit {
        let selected = initial_tools(config, tools);
        let shown = selected.push(search_tool((tools.len() - selected.len()) as nat));
        Listing { shown, exposed: shown, injected: true }
    } else {
        Listing { shown: tools, exposed: tools, injected: false }
    }
}

/// The tool search.
pub struct ToolSearchMiddleware {
    config: ToolSearchMiddlewareConfig,
    schema: Schema,
    index: Option<Index>,
    exposed_tools: Vec<Tool>,
    search_tool_injected: bool,
    tool_storage: Vec<Tool>,
}

impl ToolSearchMiddleware {
    /// The index has the fields of tools.
    #[verifier::type_invariant]
    spec fn well_formed(&self) -> bool {
        &&& schema_fields(self.schema) == tool_fields()
        &&& self.index matches Some(index) ==> index_fields(index) == tool_fields()
    }

    /// The configuration.
    pub closed spec fn config(&self) -> ToolSearchMiddlewareConfig {
        self.config
    }

    /// The tools that are exposed.
    pub closed spec fn exposed(&self) -> Seq<ToolView> {
        tools_view(self.exposed_tools@)
    }

    /// The exposed tools are shown in place of all tools.
    pub closed spec fn injected(&self) -> bool {
        self.search_tool_injected
    }

    /// The tools that a search can give.
    pub closed spec fn stored(&self) -> Seq<ToolView> {
        tools_view(self.tool_storage@)
    }

    /// The documents of the index, where there is one.
    pub closed spec fn indexed(&self) -> Option<Multiset<Document>> {
        match self.index {
            Some(index) => Some(index_documents(index)),
            None => None,
        }
    }
}

/// For each tool whether it was taken: all are but those that may be refused.
pub open spec fn may_take(tools: Seq<ToolView>, taken: Seq<bool>) -> bool {
    &&& taken.len() == tools.len()
    &&& forall|i: int|
        0 <= i < tools.len() && !taken[i] && is_small(document_of(#[trigger] tools[i]))
            ==> may_refuse_document(document_of(tools[i]))
}

/// The working memory of the index while it is written, in bytes.
pub open spec fn index_memory() -> nat {
    50_000_000
}

/// How indexing tools changes the tool search.
pub open spec fn index_updated(
    before: &ToolSearchMiddleware,
    tools: Seq<ToolView>,
    report: IndexReport,
    after: &ToolSearchMiddleware,
) -> bool {
    &&& after.config() == before.config()
    &&& after.exposed() == before.exposed()
    &&& after.injected() == before.injected()
    &&& match report {
        IndexReport::NoWriter => {
            &&& may_refuse_writer(index_memory())
            &&& after.stored() == before.stored()
            &&& after.indexed() == before.indexed()
        },
        IndexReport::NotCommitted { taken } => {
            &&& may_take(tools, taken@)
            &&& all_small(tools) ==> may_refuse_commit(documents_of(after.stored()))
            &&& after.stored() == taken_tools(tools, taken@)
            &&& after.indexed() == before.indexed()
        },
        IndexReport::Committed { taken } => {
            &&& may_take(tools, taken@)
            &&& after.stored() == taken_tools(tools, taken@)
            &&& after.indexed() is Some
            &&& all_small(tools) ==> after.indexed() == Some(
                documents_of(after.stored()),
            )
        },
    }
}

impl ToolSearchMiddleware {
    /// What a client is shown of all tools.
    pub open spec fn shown(&self, tools: Seq<ToolView>) -> Seq<ToolView> {
        listing(self.config(), self.exposed(), self.injected(), tools).shown
    }
}

/// How a listing of all tools changes the tool search: the tools are put into
/// the index, and what is exposed is as the listing says. A tool search that is
/// off stays as it is.
pub open spec fn tools_listed(
    before: &ToolSearchMiddleware,
    tools: Seq<ToolView>,
    after: &ToolSearchMiddleware,
) -> bool {
    let listed = listing(before.config(), before.exposed(), before.injected(), tools);
    &&& after.config() == before.config()
    &&& after.exposed() == listed.exposed
    &&& after.injected() == listed.injected
    &&& if before.config().enabled {
        exists|report: IndexReport, middle: ToolSearchMiddleware|
            {
                &&& #[trigger] index_updated(before, tools, report, &middle)
                &&& after.stored() == middle.stored()
                &&& after.indexed() == middle.indexed()
            }
    } else {
        after.stored() == before.stored() && after.indexed() == before.indexed()
    }
}

/// The names of the fields are not the same, and fields can have them.
proof fn lemma_field_names()
    ensures
        is_field_name("name"@),
        is_field_name("description"@),
        is_field_name("server"@),
        is_field_name("searchable_text"@),
        "name"@ != "description"@,
        "name"@ != "server"@,
        "name"@ != "searchable_text"@,
        "description"@ != "server"@,
        "description"@ != "searchable_text"@,
        "server"@ != "searchable_text"@,
{
    reveal_strlit("name");
    reveal_strlit("description");
    reveal_strlit("server");
    reveal_strlit("searchable_text");
    assert("name"@.len() == 4);
    assert("description"@.len() == 11);
    assert("server"@.len() == 6);
    assert("searchable_text"@.len() == 15);
}

/// The schema of the index of tools.
fn tool_schema() -> (schema: Schema)
    ensures
        schema_fields(schema) == tool_fields(),
{
    proof {
        lemma_field_names();
    }
    let mut builder: SchemaBuilder = schema_builder();
    add_stored_text_field(&mut builder, "name");
    add_stored_text_field(&mut builder, "description");
    add_stored_text_field(&mut builder, "server");
    add_text_field(&mut builder, "searchable_text");
    let schema: Schema = build_schema(builder);
    assert(schema_fields(schema) =~= tool_fields());
    schema
}

/// The number of a field of tools.
fn tool_field(schema: &Schema, name: &str) -> (field: u32)
    requires
        schema_fields(*schema) == tool_fields(),
        exists|i: int| 0 <= i < 4 && (#[trigger] tool_fields()[i]).0 == name@,
    ensures
        field < 4,
        tool_fields()[field as int].0 == name@,
{
    match get_field(schema, name) {
        Some(field) => field,
        None => {
            unreached()
        },
    }
}

impl ToolSearchMiddleware {
    /// The tool search, with no tools yet.
    pub fn new(config: ToolSearchMiddlewareConfig) -> (middleware: Self)
        ensures
            middleware.config() == config,
            middleware.exposed() == Seq::<ToolView>::empty(),
            !middleware.injected(),
            middleware.stored() == Seq::<ToolView>::empty(),
            middleware.indexed() is None,
    {
        ToolSearchMiddleware {
            config,
            schema: tool_schema(),
            index: None,
            exposed_tools: Vec::new(),
            search_tool_injected: false,
            tool_storage: Vec::new(),
        }
    }

    /// The tool that searches for the tools that are not shown.
    pub fn create_search_tool(&self, hidden_count: usize) -> (tool: Tool)
        ensures
            tool@ == search_tool(hidden_count as nat),
    {
        Tool {
            name: "search_available_tools".to_string(),
            description: Some(
                joined("Search through ", decimal_text(hidden_count as u64).as_str()).concat(
                    " additional available tools. Provide a search query to find relevant tools by name or description.",
                ),
            ),
            input_schema: Arc::new(create_search_schema()),
            annotations: None,
        }
    }

    /// The tools that are shown at first.
    pub fn select_initial_tools(&self, tools: &Vec<Tool>) -> (selected: Vec<Tool>)
        ensures
            tools_view(selected@) == initial_tools(self.config(), tools_view(tools@)),
    {
        let mut selected: Vec<Tool> = clone_tools(tools);
        if !self.config.enabled || tools.len() <= self.config.max_tools_limit {
            return selected;
        }
        let ghost orders = texts(self.config.tool_selection_order@);
        let ghost seen = tools_view(tools@);
        let mut i: usize = 0;
        assert(orders.take(0) =~= Seq::<Seq<char>>::empty());
        while i < self.config.tool_selection_order.len()
            invariant
                i <= self.config.tool_selection_order.len(),
                orders == texts(self.config.tool_selection_order@),
                tools_view(selected@) == arranged(orders.take(i as int), seen),
            decreases self.config.tool_selection_order.len() - i,
        {
            proof {
                assert(orders.take(i + 1).drop_last() =~= orders.take(i as int));
                assert(orders.take(i + 1).last() == self.config.tool_selection_order@[i as int]@);
            }
            if let Some(order) = parse_order(self.config.tool_selection_order[i].as_str()) {
                selected = sort_tools(order, selected);
            }
            i = i + 1;
        }
        assert(orders.take(i as int) =~= orders);
        proof {
            lemma_arranged_len(orders, seen);
        }
        let ghost in_order = selected@;
        selected.truncate(self.config.max_tools_limit);
        assert(tools_view(selected@) =~= tools_view(in_order).take(
            self.config.max_tools_limit as int,
        ));
        selected
    }
}

/// The start of a document is not larger than the document.
proof fn lemma_start_is_small(texts: Document, len: int)
    requires
        is_small(texts),
        0 <= len <= texts.len(),
    ensures
        is_small(texts.take(len)),
    decreases texts.len(),
{
    if len < texts.len() {
        assert(texts.drop_last().take(len) =~= texts.take(len));
        lemma_start_is_small(texts.drop_last(), len);
    } else {
        assert(texts.take(len) =~= texts);
    }
}

/// The document of a tool.
fn tool_document(schema: &Schema, tool: &Tool) -> (document: TantivyDocument)
    requires
        schema_fields(*schema) == tool_fields(),
    ensures
        is_small(document_of(tool@)) ==> document_texts(document) == document_of(tool@),
{
    proof {
        lemma_field_names();
        assert(tool_fields()[0].0 == "name"@);
        assert(tool_fields()[1].0 == "description"@);
        assert(tool_fields()[2].0 == "server"@);
        assert(tool_fields()[3].0 == "searchable_text"@);
    }
    let name_field: u32 = tool_field(schema, "name");
    let description_field: u32 = tool_field(schema, "description");
    let server_field: u32 = tool_field(schema, "server");
    let searchable_text_field: u32 = tool_field(schema, "searchable_text");
    let name: &str = tool.name.as_str();
    let description: &str = match &tool.description {
        Some(description) => description.as_str(),
        None => "",
    };
    let server: &str = extract_server_name(name);
    let searchable_text: String = joined(name, " ").concat(description);
    let ghost expected = document_of(tool@);
    proof {
        reveal_strlit("");
        assert(description@ =~= description_text(tool@));
        if is_small(expected) {
            lemma_start_is_small(expected, 1);
            lemma_start_is_small(expected, 2);
            lemma_start_is_small(expected, 3);
        }
        assert(expected.take(1) =~= Seq::<(u32, Seq<char>)>::empty().push((0u32, name@)));
        assert(expected.take(2) =~= expected.take(1).push((1u32, description@)));
        assert(expected.take(3) =~= expected.take(2).push((2u32, server@)));
        assert(expected =~= expected.take(3).push((3u32, searchable_text@)));
    }
    let mut document: TantivyDocument = new_document();
    add_text(&mut document, name_field, name);
    add_text(&mut document, description_field, description);
    add_text(&mut document, server_field, server);
    add_text(&mut document, searchable_text_field, searchable_text.as_str());
    document
}

/// The tools that were taken.
fn keep_taken(tools: &Vec<Tool>, taken: &Vec<bool>) -> (kept: Vec<Tool>)
    requires
        taken@.len() == tools@.len(),
    ensures
        tools_view(kept@) == taken_tools(tools_view(tools@), taken@),
{
    let ghost seen = tools_view(tools@);
    let mut kept: Vec<Tool> = Vec::new();
    let mut i: usize = 0;
    assert(seen.take(0) =~= Seq::<ToolView>::empty());
    assert(tools_view(kept@) =~= Seq::<ToolView>::empty());
    while i < tools.len()
        invariant
            i <= tools.len(),
            taken@.len() == tools@.len(),
            seen == tools_view(tools@),
            tools_view(kept@) == taken_tools(seen.take(i as int), taken@.take(i as int)),
        decreases tools.len() - i,
    {
        let ghost before = kept@;
        if taken[i] {
            kept.push(tools[i].clone());
            assert(tools_view(kept@) =~= tools_view(before).push(tools@[i as int]@));
        }
        proof {
            assert(seen.take(i + 1).drop_last() =~= seen.take(i as int));
            assert(seen.take(i + 1).last() == tools@[i as int]@);
            assert(taken@.take(i + 1).drop_last() =~= taken@.take(i as int));
            assert(taken@.take(i + 1).last() == taken@[i as int]);
        }
        i = i + 1;
    }
    assert(seen.take(i as int) =~= seen);
    assert(taken@.take(i as int) =~= taken@);
    kept
}

/// How writing a new index went.
pub enum IndexAttempt {
    /// It could not be opened for writing.
    NotOpened,
    /// It was opened. For each tool whether it was taken; and the index with what
    /// was taken, or why that did not get into it.
    Written { taken: Vec<bool>, committed: Result<Index, TantivyError> },
}

/// What writing an index can give for tools: all tools are taken but those that
/// may be refused, and whatever was taken is in the index, and nothing else. It is
/// not opened, or does not get what was taken, only where that may be.
pub open spec fn may_write(tools: Seq<ToolView>, attempt: IndexAttempt) -> bool {
    match attempt {
        IndexAttempt::NotOpened => may_refuse_writer(index_memory()),
        IndexAttempt::Written { taken, committed } => {
            &&& may_take(tools, taken@)
            &&& match committed {
                Ok(index) => {
                    &&& index_fields(index) == tool_fields()
                    &&& all_small(tools) ==> index_documents(index) == documents_of(
                        taken_tools(tools, taken@),
                    )
                },
                Err(_) => all_small(tools) ==> may_refuse_commit(
                    documents_of(taken_tools(tools, taken@)),
                ),
            }
        },
    }
}

/// How an attempt to index tools changes the tool search, and what is said of it.
/// Where the index could not be opened, nothing changes. Else the tools that were
/// taken are stored, and where they got into the new index, it is in place of the
/// one before.
pub open spec fn attempt_applied(
    before: &ToolSearchMiddleware,
    tools: Seq<ToolView>,
    attempt: IndexAttempt,
    report: IndexReport,
    after: &ToolSearchMiddleware,
) -> bool {
    &&& after.config() == before.config()
    &&& after.exposed() == before.exposed()
    &&& after.injected() == before.injected()
    &&& match attempt {
        IndexAttempt::NotOpened => {
            &&& report is NoWriter
            &&& after.stored() == before.stored()
            &&& after.indexed() == before.indexed()
        },
        IndexAttempt::Written { taken, committed } => {
            &&& after.stored() == taken_tools(tools, taken@)
            &&& match committed {
                Ok(index) => {
                    &&& report matches IndexReport::Committed { taken: told } && told@ == taken@
                    &&& after.indexed() == Some(index_documents(index))
                },
                Err(_) => {
                    &&& report matches IndexReport::NotCommitted { taken: told } && told@ == taken@
                    &&& after.indexed() == before.indexed()
                },
            }
        },
    }
}

impl ToolSearchMiddleware {
    /// Writes tools into a new index.
    fn write_index(&self, tools: &Vec<Tool>) -> (attempt: IndexAttempt)
        ensures
            may_write(tools_view(tools@), attempt),
    {
        proof {
            use_type_invariant(self);
        }
        let index: Index = create_in_ram(&self.schema);
        let mut index_writer: IndexWriter = match writer(index, 50_000_000) {
            Ok(writer) => writer,
            Err(_) => {
                return IndexAttempt::NotOpened;
            },
        };
        let mut taken: Vec<bool> = Vec::new();
        let mut i: usize = 0;
        let ghost seen = tools_view(tools@);
        assert(seen.take(0) =~= Seq::<ToolView>::empty());
        while i < tools.len()
            invariant
                i <= tools.len(),
                seen == tools_view(tools@),
                taken@.len() == i,
                forall|j: int|
                    0 <= j < i && !taken@[j] && is_small(document_of(#[trigger] seen[j]))
                        ==> may_refuse_document(document_of(seen[j])),
                schema_fields(self.schema) == tool_fields(),
                writer_fields(index_writer) == tool_fields(),
                all_small(seen) ==> writer_documents(index_writer) == documents_of(
                    taken_tools(seen.take(i as int), taken@),
                ),
            decreases tools.len() - i,
        {
            let document: TantivyDocument = tool_document(&self.schema, &tools[i]);
            let ghost flags = taken@;
            let added: bool = add_document(&mut index_writer, document);
            taken.push(added);
            proof {
                let kept = taken_tools(seen.take(i as int), flags);
                assert(seen.take(i + 1).drop_last() =~= seen.take(i as int));
                assert(seen.take(i + 1).last() == tools@[i as int]@);
                assert(taken@.drop_last() =~= flags);
                assert(kept.push(tools@[i as int]@).drop_last() =~= kept);
                assert(seen[i as int] == tools@[i as int]@);
            }
            i = i + 1;
        }
        assert(seen.take(i as int) =~= seen);
        let committed: Result<Index, TantivyError> = commit(index_writer);
        IndexAttempt::Written { taken, committed }
    }

    /// Takes over what an attempt to index tools gave, and says what became of
    /// them.
    pub fn apply_index_attempt(&mut self, tools: &Vec<Tool>, attempt: IndexAttempt) -> (report:
        IndexReport)
        requires
            attempt matches IndexAttempt::Written { taken, committed } ==> {
                &&& taken@.len() == tools@.len()
                &&& committed matches Ok(index) ==> index_fields(index) == tool_fields()
            },
        ensures
            attempt_applied(&*old(self), tools_view(tools@), attempt, report, &*final(self)),
    {
        proof {
            use_type_invariant(&*self);
        }
        match attempt {
            IndexAttempt::NotOpened => IndexReport::NoWriter,
            IndexAttempt::Written { taken, committed } => {
                self.tool_storage = keep_taken(tools, &taken);
                match committed {
                    Ok(index) => {
                        self.index = Some(index);
                        IndexReport::Committed { taken }
                    },
                    Err(_) => IndexReport::NotCommitted { taken },
                }
            },
        }
    }

    /// Puts tools into a new index, in place of the one before, and says what
    /// became of them.
    pub fn update_tool_index(&mut self, tools: &Vec<Tool>) -> (report: IndexReport)
        ensures
            index_updated(&*old(self), tools_view(tools@), report, &*final(self)),
    {
        let attempt: IndexAttempt = self.write_index(tools);
        self.apply_index_attempt(tools, attempt)
    }

    /// Puts the tools that there are now into the index. This is for when the
    /// tools have changed, not for every search.
    pub fn refresh_tool_index(&mut self, tools: &Vec<Tool>) -> (report: IndexReport)
        ensures
            index_updated(&*old(self), tools_view(tools@), report, &*final(self)),
    {
        self.update_tool_index(tools)
    }
}

/// A tool with no other of its name before it is the one that is found.
proof fn lemma_tool_named(tools: Seq<ToolView>, name: Seq<char>, at: int)
    requires
        0 <= at <= tools.len(),
        at < tools.len() ==> tools[at].name == name,
        forall|i: int| 0 <= i < at ==> (#[trigger] tools[i]).name != name,
    ensures
        tool_named(tools, name) == if at < tools.len() {
            Some(tools[at])
        } else {
            None
        },
    decreases tools.len(),
{
    if at > 0 {
        let rest = tools.drop_first();
        assert forall|i: int| 0 <= i < at - 1 implies (#[trigger] rest[i]).name != name by {
            assert(rest[i] == tools[i + 1]);
        }
        lemma_tool_named(rest, name, at - 1);
    }
}

/// The position of the first tool that has a name, or the length of the list.
fn find_tool(tools: &Vec<Tool>, name: &str) -> (at: usize)
    ensures
        at <= tools@.len(),
        tool_named(tools_view(tools@), name@) == if at < tools@.len() {
            Some(tools@[at as int]@)
        } else {
            None
        },
{
    let ghost seen = tools_view(tools@);
    let mut at: usize = 0;
    while at < tools.len()
        invariant
            at <= tools.len(),
            seen == tools_view(tools@),
            forall|i: int| 0 <= i < at ==> (#[trigger] seen[i]).name != name@,
        decreases tools.len() - at,
    {
        assert(seen[at as int] == tools@[at as int]@);
        if same_text(tools[at].name.as_str(), name) {
            proof {
                lemma_tool_named(seen, name@, at as int);
            }
            return at;
        }
        at = at + 1;
    }
    proof {
        lemma_tool_named(seen, name@, at as int);
    }
    at
}

/// The parser of queries for tools.
fn tool_query_parser(schema: &Schema, index: &Index) -> (parser: QueryParser)
    requires
        schema_fields(*schema) == tool_fields(),
        index_fields(*index) == tool_fields(),
    ensures
        parser_fields(parser) == tool_fields(),
        parser_defaults(parser) == seq![3u32],
{
    proof {
        lemma_field_names();
        assert(tool_fields()[3].0 == "searchable_text"@);
    }
    let searchable_text_field: u32 = tool_field(schema, "searchable_text");
    let parser: QueryParser = query_parser(index, vec![searchable_text_field]);
    assert(parser_defaults(parser) =~= seq![3u32]);
    parser
}

/// The query that the index is asked: the text, in quotation marks where it is
/// no query as it stands.
fn query_to_ask(parser: &QueryParser, query: &str) -> (asked: Option<String>)
    requires
        parser_fields(*parser) == tool_fields(),
        parser_defaults(*parser) == seq![3u32],
        can_be_asked(query@),
    ensures
        text_or_none(asked) == asked_query(query@),
        asked matches Some(text) ==> is_readable(text@),
{
    if accepts(parser, query) {
        return Some(query.to_string());
    }
    let quoted_query: String = joined("\"", query).concat("\"");
    if accepts(parser, quoted_query.as_str()) {
        Some(quoted_query)
    } else {
        None
    }
}

/// The text in a field of a document, from what reading the document gave: none
/// where it could not be read.
fn name_read(read: Result<TantivyDocument, TantivyError>, field: u32) -> (name: Option<String>)
    ensures
        text_or_none(name) == (match read {
            Ok(document) => first_text(document_texts(document), field),
            Err(_) => None,
        }),
{
    match read {
        Ok(document) => first_text_of(&document, field),
        Err(_) => None,
    }
}

impl ToolSearchMiddleware {
    /// A search can be made: there is no index to ask, or the text is one that it
    /// can be asked, and the number of hits to ask for is too where there is a query.
    pub open spec fn searchable(&self, text: Seq<char>) -> bool {
        self.indexed() is Some ==> {
            &&& can_be_asked(text)
            &&& asked_query(text) is Some ==> 1 <= self.config().max_tools_limit <= most_hits()
        }
    }

    /// Whether a search can be made.
    pub fn can_search(&self, query: &str) -> (can: bool)
        ensures
            can == self.searchable(query@),
    {
        proof {
            use_type_invariant(self);
        }
        let index: &Index = match &self.index {
            Some(index) => index,
            None => {
                return true;
            },
        };
        let parser: QueryParser = tool_query_parser(&self.schema, index);
        if !readable(query) {
            return false;
        }
        let quoted_query: String = joined("\"", query).concat("\"");
        if !accepts(&parser, query) && !readable(quoted_query.as_str()) {
            return false;
        }
        if 1 <= self.config.max_tools_limit && self.config.max_tools_limit <= usize::MAX / 48 {
            return true;
        }
        query_to_ask(&parser, query).is_none()
    }

    /// The hits that an answer of the index stands for: none where it gave none,
    /// else one for each that it found, in that order, with its score and, where
    /// the document at its place could be read, with the name in it.
    pub fn hits_for_answer(
        &self,
        index_searcher: &Searcher,
        answer: &Option<Vec<(u32, (u32, u32))>>,
    ) -> (hits: Vec<SearchHit>)
        requires
            searcher_fields(*index_searcher) == tool_fields(),
            answer matches Some(found) ==> forall|i: int|
                0 <= i < found@.len() ==> searcher_documents(*index_searcher).contains_key(
                    #[trigger] found@[i].1,
                ),
        ensures
            match answer {
                None => hits@.len() == 0,
                Some(found) => {
                    &&& hits@.len() == found@.len()
                    &&& forall|i: int|
                        0 <= i < hits@.len() ==> names_hit(
                            searcher_documents(*index_searcher),
                            found@[i],
                            #[trigger] hits_view(hits@)[i],
                        )
                },
            },
    {
        proof {
            use_type_invariant(self);
            lemma_field_names();
            assert(tool_fields()[0].0 == "name"@);
        }
        let mut hits: Vec<SearchHit> = Vec::new();
        let found: &Vec<(u32, (u32, u32))> = match answer {
            Some(found) => found,
            None => {
                return hits;
            },
        };
        let name_field: u32 = tool_field(&self.schema, "name");
        let ghost places = searcher_documents(*index_searcher);
        let mut i: usize = 0;
        while i < found.len()
            invariant
                i <= found.len(),
                hits@.len() == i,
                name_field == 0,
                places == searcher_documents(*index_searcher),
                searcher_fields(*index_searcher) == tool_fields(),
                forall|j: int| 0 <= j < found@.len() ==> places.contains_key(#[trigger] found@[j].1),
                forall|j: int|
                    0 <= j < i ==> names_hit(places, found@[j], #[trigger] hits_view(hits@)[j]),
            decreases found.len() - i,
        {
            let (score, address): (u32, (u32, u32)) = found[i];
            assert(places.contains_key(found@[i as int].1));
            let name: Option<String> = name_read(
                document_at(index_searcher, address),
                name_field,
            );
            let ghost before = hits_view(hits@);
            hits.push(SearchHit { score, name });
            assert(hits_view(hits@) =~= before.push((score, text_or_none(name))));
            i = i + 1;
        }
        hits
    }

    /// The hits of a search in the index: none where there is no index or the
    /// text is no query, nor one in quotation marks.
    pub fn search_hits(&self, query: &str) -> (hits: Vec<SearchHit>)
        requires
            self.searchable(query@),
        ensures
            may_hit(
                self.indexed(),
                self.config().max_tools_limit as nat,
                query@,
                hits_view(hits@),
            ),
    {
        proof {
            use_type_invariant(self);
        }
        let index: &Index = match &self.index {
            Some(index) => index,
            None => {
                return Vec::new();
            },
        };
        let index_reader = match reader(index) {
            Ok(reader) => reader,
            Err(_) => {
                return Vec::new();
            },
        };
        let index_searcher: Searcher = searcher(&index_reader);
        let parser: QueryParser = tool_query_parser(&self.schema, index);
        let asked: String = match query_to_ask(&parser, query) {
            Some(asked) => asked,
            None => {
                return Vec::new();
            },
        };
        let limit: usize = self.config.max_tools_limit;
        let answer: Option<Vec<(u32, (u32, u32))>> = search(
            &index_searcher,
            &parser,
            asked.as_str(),
            limit,
        );
        let hits: Vec<SearchHit> = self.hits_for_answer(&index_searcher, &answer);
        proof {
            let seen = hits_view(hits@);
            let places = searcher_documents(index_searcher);
            let limit = self.config().max_tools_limit as nat;
            let wanted = asked_query(query@)->0;
            assert(asked_query(query@) == Some(asked@));
            assert(wanted == asked@);
            if let Some(found) = answer {
                assert forall|i: int| 0 <= i < seen.len() implies {
                    &&& places.contains_key(#[trigger] found@[i].1)
                    &&& names_hit(places, found@[i], seen[i])
                } by {
                    assert(names_hit(places, found@[i], seen[i]));
                }
                assert(reads_as(self.indexed()->0, limit, wanted, places, found@, seen));
            } else {
                assert(seen.len() == 0);
                assert(goes_unanswered(self.indexed()->0, limit, wanted, places));
            }
        }
        hits
    }

    /// The tools that hits stand for.
    pub fn tools_for_hits(&self, hits: &Vec<SearchHit>) -> (results: Vec<Tool>)
        ensures
            tools_view(results@) == tools_of_hits(
                self.stored(),
                self.config().search_threshold,
                hits_view(hits@),
            ),
    {
        let ghost stored = tools_view(self.tool_storage@);
        let ghost seen = hits_view(hits@);
        let threshold: u32 = self.config.search_threshold;
        let mut results: Vec<Tool> = Vec::new();
        let mut i: usize = 0;
        assert(seen.take(0) =~= Seq::<(u32, Option<Seq<char>>)>::empty());
        assert(tools_view(results@) =~= Seq::<ToolView>::empty());
        while i < hits.len()
            invariant
                i <= hits.len(),
                stored == tools_view(self.tool_storage@),
                seen == hits_view(hits@),
                threshold == self.config.search_threshold,
                tools_view(results@) == tools_of_hits(stored, threshold, seen.take(i as int)),
            decreases hits.len() - i,
        {
            proof {
                assert(seen.take(i + 1).drop_last() =~= seen.take(i as int));
                assert(seen.take(i + 1).last() == seen[i as int]);
            }
            let ghost before = results@;
            if score_passes(hits[i].score, threshold) {
                if let Some(name) = &hits[i].name {
                    let at: usize = find_tool(&self.tool_storage, name.as_str());
                    if at < self.tool_storage.len() {
                        results.push(self.tool_storage[at].clone());
                        assert(tools_view(results@) =~= tools_view(before).push(
                            self.tool_storage@[at as int]@,
                        ));
                    }
                }
            }
            i = i + 1;
        }
        assert(seen.take(i as int) =~= seen);
        results
    }

    /// The tools that match a query, the best first.
    pub fn search_tools(&self, query: &str) -> (results: Vec<Tool>)
        requires
            self.searchable(query@),
        ensures
            exists|hits: Seq<(u32, Option<Seq<char>>)>|
                {
                    &&& #[trigger] may_hit(
                        self.indexed(),
                        self.config().max_tools_limit as nat,
                        query@,
                        hits,
                    )
                    &&& tools_view(results@) == tools_of_hits(
                        self.stored(),
                        self.config().search_threshold,
                        hits,
                    )
                },
    {
        let hits: Vec<SearchHit> = self.search_hits(query);
        self.tools_for_hits(&hits)
    }

    /// Exposes tools in place of all tools, as after a search.
    pub fn update_exposed_tools(&mut self, new_tools: Vec<Tool>)
        ensures
            final(self).exposed() == tools_view(new_tools@),
            final(self).injected(),
            final(self).config() == old(self).config(),
            final(self).stored() == old(self).stored(),
            final(self).indexed() == old(self).indexed(),
    {
        proof {
            use_type_invariant(&*self);
        }
        self.exposed_tools = new_tools;
        self.search_tool_injected = true;
    }

    /// The tools that are exposed.
    pub fn get_exposed_tools(&self) -> (tools: Vec<Tool>)
        ensures
            tools_view(tools@) == self.exposed(),
    {
        clone_tools(&self.exposed_tools)
    }

    /// Whether there is an index to search in.
    pub fn has_index(&self) -> (has: bool)
        ensures
            has == self.indexed() is Some,
    {
        self.index.is_some()
    }

    /// How many tools a search can give.
    pub fn stored_count(&self) -> (count: usize)
        ensures
            count == self.stored().len(),
    {
        self.tool_storage.len()
    }

    /// Whether the exposed tools are shown in place of all tools.
    pub fn is_search_tool_injected(&self) -> (injected: bool)
        ensures
            injected == self.injected(),
    {
        self.search_tool_injected
    }

    /// What a client is shown of all tools. They are put into the index first.
    pub fn on_list_tools(&mut self, tools: &mut Vec<Tool>)
        ensures
            tools_view(final(tools)@) == old(self).shown(tools_view(old(tools)@)),
            tools_listed(&*old(self), tools_view(old(tools)@), &*final(self)),
    {
        if !self.config.enabled {
            return;
        }
        let report: IndexReport = self.update_tool_index(&*tools);
        let ghost middle = *self;
        assert(index_updated(&*old(self), tools_view(old(tools)@), report, &middle));
        if self.search_tool_injected {
            let mut current_exposed: Vec<Tool> = clone_tools(&self.exposed_tools);
            let ghost exposed = tools_view(current_exposed@);
            let at: usize = find_tool(&current_exposed, "search_available_tools");
            proof {
                lemma_has_search_tool(exposed);
            }
            if at == current_exposed.len() {
                let total: usize = tools.len();
                let shown: usize = current_exposed.len();
                let hidden: usize = if total > shown {
                    total - shown
                } else {
                    0
                };
                current_exposed.push(self.create_search_tool(hidden));
                assert(tools_view(current_exposed@) =~= exposed.push(search_tool(hidden as nat)));
            }
            *tools = current_exposed;
            return;
        }
        let selected: Vec<Tool> = self.select_initial_tools(&*tools);
        if tools.len() > self.config.max_tools_limit {
            let ghost chosen = tools_view(selected@);
            proof {
                lemma_arranged_len(
                    texts(self.config.tool_selection_order@),
                    tools_view(tools@),
                );
                assert(chosen.len() == selected@.len());
            }
            let hidden: usize = tools.len() - selected.len();
            let mut exposed: Vec<Tool> = selected;
            exposed.push(self.create_search_tool(hidden));
            assert(tools_view(exposed@) =~= chosen.push(search_tool(hidden as nat)));
            let shown: Vec<Tool> = clone_tools(&exposed);
            self.update_exposed_tools(exposed);
            *tools = shown;
        } else {
            let exposed: Vec<Tool> = clone_tools(&*tools);
            self.update_exposed_tools(exposed);
            proof {
                use_type_invariant(&*self);
            }
            self.search_tool_injected = false;
        }
    }

    /// The tool search does nothing to prompts.
    pub fn on_list_prompts(&self, prompts: &mut Vec<Prompt>)
        ensures
            final(prompts)@ == old(prompts)@,
    {
    }

    /// The tool search does nothing to resources.
    pub fn on_list_resources(&self, resources: &mut Vec<Resource>)
        ensures
            final(resources)@ == old(resources)@,
    {
    }
}

/// The search tool is among tools exactly where it is found by its name.
proof fn lemma_has_search_tool(tools: Seq<ToolView>)
    ensures
        has_search_tool(tools) == tool_named(tools, search_tool_name()) is Some,
    decreases tools.len(),
{
    if tools.len() > 0 {
        let rest = tools.drop_first();
        lemma_has_search_tool(rest);
        if has_search_tool(tools) && tools.first().name != search_tool_name() {
            let i = choose|i: int|
                0 <= i < tools.len() && (#[trigger] tools[i]).name == search_tool_name();
            assert(rest[i - 1] == tools[i]);
        }
        if has_search_tool(rest) {
            let i = choose|i: int|
                0 <= i < rest.len() && (#[trigger] rest[i]).name == search_tool_name();
            assert(tools[i + 1] == rest[i]);
        }
    }
}

/// Makes the tool search from its configuration.
#[derive(Debug)]
pub struct ToolSearchMiddlewareFactory;

impl ToolSearchMiddlewareFactory {
    /// The tool search, from what reading its configuration gave: nothing where
    /// none is given, else the configuration, or why it is none.
    pub fn create(&self, parsed: Option<Result<ToolSearchMiddlewareConfig, String>>) -> (res:
        Result<ToolSearchMiddleware, ProxyError>)
        ensures
            match (parsed, res) {
                (None, Ok(middleware)) => middleware.config().is_default(),
                (Some(Ok(config)), Ok(middleware)) => middleware.config() == config,
                (Some(Err(reason)), Err(error)) => error@ == ProxyErrorView::Config(
                    "Invalid tool search configuration: "@ + reason@,
                ),
                _ => false,
            },
            res matches Ok(middleware) ==> {
                &&& middleware.exposed() == Seq::<ToolView>::empty()
                &&& !middleware.injected()
                &&& middleware.stored() == Seq::<ToolView>::empty()
                &&& middleware.indexed() is None
            },
    {
        match parsed {
            None => Ok(ToolSearchMiddleware::new(ToolSearchMiddlewareConfig::default())),
            Some(Ok(config)) => Ok(ToolSearchMiddleware::new(config)),
            Some(Err(reason)) => Err(
                ProxyError::config(
                    joined("Invalid tool search configuration: ", reason.as_str()).as_str(),
                ),
            ),
        }
    }

    /// The word for the tool search in a configuration.
    pub fn middleware_type(&self) -> (word: &'static str)
        ensures
            word@ == "tool_search"@,
    {
        "tool_search"
    }
}

/// Where no tool was refused, all tools are stored.
pub proof fn law_all_taken_tools_are_stored(tools: Seq<ToolView>, taken: Seq<bool>)
    requires
        taken.len() == tools.len(),
        forall|i: int| 0 <= i < taken.len() ==> taken[i],
    ensures
        taken_tools(tools, taken) == tools,
    decreases tools.len(),
{
    if tools.len() > 0 {
        law_all_taken_tools_are_stored(tools.drop_last(), taken.drop_last());
        assert(tools.drop_last().push(tools.last()) =~= tools);
    }
}

/// Where the tools are not too many and none are exposed in their place, all of
/// them are shown and nothing else.
pub proof fn law_few_tools_are_all_shown(
    config: ToolSearchMiddlewareConfig,
    exposed: Seq<ToolView>,
    tools: Seq<ToolView>,
)
    requires
        tools.len() <= config.max_tools_limit,
    ensures
        listing(config, exposed, false, tools).shown == tools,
{
}

/// Putting tools in order keeps the tools.
proof fn lemma_arranged_tools(orders: Seq<Seq<char>>, tools: Seq<ToolView>)
    ensures
        arranged(orders, tools).to_multiset() == tools.to_multiset(),
    decreases orders.len(),
{
    if orders.len() > 0 {
        lemma_arranged_tools(orders.drop_last(), tools);
        if let Some(order) = order_named(orders.last()) {
            law_sorted(order, arranged(orders.drop_last(), tools));
        }
    }
}

/// Where the tools are too many, as many are shown as the limit says, each of
/// them one of the tools, and behind them the search tool, which tells how many
/// there are besides.
pub proof fn law_many_tools_are_limited(
    config: ToolSearchMiddlewareConfig,
    exposed: Seq<ToolView>,
    tools: Seq<ToolView>,
)
    requires
        config.enabled,
        tools.len() > config.max_tools_limit,
    ensures
        ({
            let shown = listing(config, exposed, false, tools).shown;
            let limit = config.max_tools_limit as int;
            &&& shown.len() == limit + 1
            &&& shown.last() == search_tool((tools.len() - limit) as nat)
            &&& shown.drop_last().to_multiset().subset_of(tools.to_multiset())
        }),
{
    broadcast use vstd::seq_lib::group_to_multiset_ensures;

    let orders = texts(config.tool_selection_order@);
    let limit = config.max_tools_limit as int;
    let all = arranged(orders, tools);
    lemma_arranged_len(orders, tools);
    lemma_arranged_tools(orders, tools);
    let shown = listing(config, exposed, false, tools).shown;
    assert(shown.drop_last() =~= all.take(limit));
    vstd::seq_lib::lemma_multiset_commutative(all.take(limit), all.skip(limit));
    assert(all.take(limit) + all.skip(limit) =~= all);
}

/// The search tool is shown wherever not all tools are.
pub proof fn law_search_tool_is_shown(
    config: ToolSearchMiddlewareConfig,
    exposed: Seq<ToolView>,
    injected: bool,
    tools: Seq<ToolView>,
)
    ensures
        ({
            let shown = listing(config, exposed, injected, tools).shown;
            shown == tools || has_search_tool(shown)
        }),
{
    let shown = listing(config, exposed, injected, tools).shown;
    if config.enabled && (injected || tools.len() > config.max_tools_limit) {
        if !(injected && has_search_tool(exposed)) {
            assert(shown[shown.len() - 1].name == search_tool_name());
        }
    }
}

/// After a search the next listing shows what was exposed, in its order, and
/// besides it nothing but the search tool.
pub proof fn law_exposed_tools_are_shown(
    config: ToolSearchMiddlewareConfig,
    exposed: Seq<ToolView>,
    tools: Seq<ToolView>,
)
    requires
        config.enabled,
    ensures
        ({
            let shown = listing(config, exposed, true, tools).shown;
            &&& has_search_tool(shown)
            &&& shown.take(exposed.len() as int) == exposed
            &&& shown.len() > exposed.len() ==> shown.len() == exposed.len() + 1
                && shown.last().name == search_tool_name()
        }),
{
    let shown = listing(config, exposed, true, tools).shown;
    law_search_tool_is_shown(config, exposed, true, tools);
    if !has_search_tool(exposed) {
        assert(shown[shown.len() - 1].name == search_tool_name());
    }
    assert(shown.take(exposed.len() as int) =~= exposed);
}

/// A listing of the same tools again shows the same, and changes nothing.
pub proof fn law_listing_repeats(
    config: ToolSearchMiddlewareConfig,
    exposed: Seq<ToolView>,
    injected: bool,
    tools: Seq<ToolView>,
)
    ensures
        ({
            let first = listing(config, exposed, injected, tools);
            listing(config, first.exposed, first.injected, tools) == first
        }),
{
    let first = listing(config, exposed, injected, tools);
    if config.enabled && !injected && tools.len() > config.max_tools_limit {
        assert(first.shown[first.shown.len() - 1].name == search_tool_name());
    }
}

/// What is found by a name has that name and is one of the tools.
proof fn lemma_found_tool(tools: Seq<ToolView>, name: Seq<char>)
    ensures
        tool_named(tools, name) matches Some(tool) ==> tool.name == name && tools.contains(tool),
        tool_named(tools, name) is None ==> forall|i: int|
            0 <= i < tools.len() ==> (#[trigger] tools[i]).name != name,
    decreases tools.len(),
{
    if tools.len() > 0 {
        let rest = tools.drop_first();
        lemma_found_tool(rest, name);
        if let Some(tool) = tool_named(tools, name) {
            if tools.first().name == name {
                assert(tools[0] == tool);
            } else {
                let i = choose|i: int| 0 <= i < rest.len() && rest[i] == tool;
                assert(tools[i + 1] == tool);
            }
        } else {
            assert forall|i: int| 0 <= i < tools.len() implies (#[trigger] tools[i]).name
                != name by {
                if i > 0 {
                    assert(rest[i - 1] == tools[i]);
                }
            }
        }
    }
}

/// A search gives no more tools than there are hits, and each of them is a
/// stored tool with the name of a hit whose score passes the threshold.
pub proof fn law_results_are_hits(
    stored: Seq<ToolView>,
    threshold: u32,
    hits: Seq<(u32, Option<Seq<char>>)>,
)
    ensures
        tools_of_hits(stored, threshold, hits).len() <= hits.len(),
        forall|i: int|
            0 <= i < tools_of_hits(stored, threshold, hits).len() ==> {
                let tool = #[trigger] tools_of_hits(stored, threshold, hits)[i];
                &&& stored.contains(tool)
                &&& exists|k: int|
                    0 <= k < hits.len() && passes((#[trigger] hits[k]).0, threshold) && hits[k].1
                        == Some(tool.name)
            },
    decreases hits.len(),
{
    if hits.len() > 0 {
        let start = hits.drop_last();
        law_results_are_hits(stored, threshold, start);
        let before = tools_of_hits(stored, threshold, start);
        let results = tools_of_hits(stored, threshold, hits);
        if let Some(name) = hits.last().1 {
            lemma_found_tool(stored, name);
        }
        assert forall|i: int| 0 <= i < results.len() implies {
            let tool = #[trigger] results[i];
            &&& stored.contains(tool)
            &&& exists|k: int|
                0 <= k < hits.len() && passes((#[trigger] hits[k]).0, threshold) && hits[k].1
                    == Some(tool.name)
        } by {
            let tool = results[i];
            if i < before.len() {
                assert(tool == before[i]);
                let k = choose|k: int|
                    0 <= k < start.len() && passes((#[trigger] start[k]).0, threshold)
                        && start[k].1 == Some(tool.name);
                assert(hits[k] == start[k]);
            } else {
                assert(hits[hits.len() - 1] == hits.last());
            }
        }
    }
}

/// A search gives at most as many tools as the limit says, whatever the index
/// answers.
pub proof fn law_results_are_limited(
    stored: Seq<ToolView>,
    threshold: u32,
    indexed: Option<Multiset<Document>>,
    limit: nat,
    text: Seq<char>,
    hits: Seq<(u32, Option<Seq<char>>)>,
)
    requires
        may_hit(indexed, limit, text, hits),
    ensures
        tools_of_hits(stored, threshold, hits).len() <= limit,
        indexed is None || asked_query(text) is None ==> tools_of_hits(
            stored,
            threshold,
            hits,
        ).len() == 0,
{
    law_results_are_hits(stored, threshold, hits);
    if hits.len() > 0 {
        let (places, found) = choose|
            places: Map<(u32, u32), Document>,
            found: Seq<(u32, (u32, u32))>,
        | #[trigger] reads_as(indexed->0, limit, asked_query(text)->0, places, found, hits);
        assert(hits.len() == found.len());
    }
}

/// A document of tools is the document of one of them.
proof fn lemma_document_of_some(tools: Seq<ToolView>, document: Document)
    requires
        documents_of(tools).contains(document),
    ensures
        exists|i: int| 0 <= i < tools.len() && document_of(#[trigger] tools[i]) == document,
    decreases tools.len(),
{
    broadcast use vstd::multiset::group_multiset_axioms;

    if tools.len() > 0 {
        let start = tools.drop_last();
        if document_of(tools.last()) == document {
            assert(document_of(tools[tools.len() - 1]) == document);
        } else {
            lemma_document_of_some(start, document);
            let i = choose|i: int|
                0 <= i < start.len() && document_of(#[trigger] start[i]) == document;
            assert(tools[i] == start[i]);
        }
    }
}

/// What stands at an address is one of the documents.
proof fn lemma_standing_document(
    documents: Multiset<Document>,
    places: Map<(u32, u32), Document>,
    address: (u32, u32),
)
    requires
        stand_at(documents, places),
        places.contains_key(address),
    ensures
        documents.contains(places[address]),
{
    let addresses = addresses_of(places, places[address]);
    vstd::set_lib::lemma_set_subset_finite(places.dom(), addresses);
    assert(addresses.contains(address));
    if addresses.len() == 0 {
        assert(addresses =~= Set::<(u32, u32)>::empty());
    }
    assert(documents.count(places[address]) == addresses.len());
}

/// The name of a tool can be read back from its document.
proof fn lemma_name_is_stored(tool: ToolView)
    ensures
        first_text(stored_texts(tool_fields(), document_of(tool)), 0) == Some(tool.name),
{
    let document = document_of(tool);
    let stored = stored_texts(tool_fields(), document);
    reveal_with_fuel(Seq::filter, 5);
    assert(document.drop_last().drop_last().drop_last().drop_last() =~= Seq::<
        (u32, Seq<char>),
    >::empty());
    assert(document.drop_last().drop_last().drop_last().last() == document[0]);
    assert(stored.first() == (0u32, tool.name));
}

/// While the index holds the documents of the stored tools, no hit is lost: each
/// one whose name could be read and whose score passes the threshold stands for
/// a stored tool of that name.
pub proof fn law_hits_are_found(
    stored: Seq<ToolView>,
    threshold: u32,
    limit: nat,
    query: Seq<char>,
    places: Map<(u32, u32), Document>,
    found: Seq<(u32, (u32, u32))>,
    hits: Seq<(u32, Option<Seq<char>>)>,
    i: int,
)
    requires
        all_small(stored),
        reads_as(documents_of(stored), limit, query, places, found, hits),
        0 <= i < hits.len(),
        hits[i].1 is Some,
        passes(hits[i].0, threshold),
    ensures
        tool_of_hit(stored, threshold, hits[i]) matches Some(tool) && hits[i].1 == Some(tool.name),
{
    let document = places[found[i].1];
    assert(places.contains_key(found[i].1));
    lemma_standing_document(documents_of(stored), places, found[i].1);
    lemma_document_of_some(stored, document);
    let k = choose|k: int| 0 <= k < stored.len() && document_of(#[trigger] stored[k]) == document;
    assert(is_small(document_of(stored[k])));
    lemma_name_is_stored(stored[k]);
    lemma_found_tool(stored, stored[k].name);
}

/// The hits of a search come best first.
pub proof fn law_hits_come_best_first(
    indexed: Option<Multiset<Document>>,
    limit: nat,
    text: Seq<char>,
    hits: Seq<(u32, Option<Seq<char>>)>,
)
    requires
        may_hit(indexed, limit, text, hits),
    ensures
        best_first(hits),
{
    if hits.len() > 0 {
        let (places, found) = choose|
            places: Map<(u32, u32), Document>,
            found: Seq<(u32, (u32, u32))>,
        | #[trigger] reads_as(indexed->0, limit, asked_query(text)->0, places, found, hits);
        assert forall|i: int, j: int| 0 <= i < j < hits.len() implies at_least(
            (#[trigger] hits[i]).0,
            (#[trigger] hits[j]).0,
        ) by {
            assert(names_hit(places, found[i], hits[i]) && names_hit(places, found[j], hits[j]));
            assert(found[i].1 != found[j].1);
        }
    }
}

/// Hits that pass two thresholds give the same tools with both.
proof fn lemma_same_results(
    stored: Seq<ToolView>,
    a: u32,
    b: u32,
    hits: Seq<(u32, Option<Seq<char>>)>,
)
    requires
        forall|i: int|
            0 <= i < hits.len() ==> passes((#[trigger] hits[i]).0, a) && passes(hits[i].0, b),
    ensures
        tools_of_hits(stored, a, hits) == tools_of_hits(stored, b, hits),
    decreases hits.len(),
{
    if hits.len() > 0 {
        let start = hits.drop_last();
        assert forall|i: int| 0 <= i < start.len() implies passes((#[trigger] start[i]).0, a)
            && passes(start[i].0, b) by {
            assert(start[i] == hits[i]);
        }
        lemma_same_results(stored, a, b, start);
        assert(passes(hits[hits.len() - 1].0, a));
    }
}

/// A higher threshold only cuts off the end of the results.
pub proof fn law_higher_threshold_cuts_off_the_end(
    stored: Seq<ToolView>,
    lower: u32,
    higher: u32,
    hits: Seq<(u32, Option<Seq<char>>)>,
)
    requires
        best_first(hits),
        at_least(higher, lower),
    ensures
        tools_of_hits(stored, higher, hits).is_prefix_of(tools_of_hits(stored, lower, hits)),
    decreases hits.len(),
{
    if hits.len() > 0 {
        let start = hits.drop_last();
        let last = hits.last();
        assert forall|i: int, j: int| 0 <= i < j < start.len() implies at_least(
            (#[trigger] start[i]).0,
            (#[trigger] start[j]).0,
        ) by {
            assert(start[i] == hits[i] && start[j] == hits[j]);
        }
        law_higher_threshold_cuts_off_the_end(stored, lower, higher, start);
        if passes(last.0, higher) {
            assert forall|i: int| 0 <= i < hits.len() implies passes((#[trigger] hits[i]).0, higher)
                && passes(hits[i].0, lower) by {
                if i < hits.len() - 1 {
                    assert(at_least(hits[i].0, hits[hits.len() - 1].0));
                    law_higher_scores_pass(last.0, hits[i].0, higher);
                }
                law_lower_thresholds_are_passed(hits[i].0, higher, lower);
            }
            lemma_same_results(stored, higher, lower, hits);
        }
    }
}

/// No two tools have one name.
pub open spec fn named_apart(tools: Seq<ToolView>) -> bool {
    forall|i: int, j: int|
        0 <= i < j < tools.len() ==> (#[trigger] tools[i]).name != (#[trigger] tools[j]).name
}

/// Where no two tools have one name, each document is there at most once.
proof fn lemma_documents_once(tools: Seq<ToolView>, document: Document)
    requires
        named_apart(tools),
    ensures
        documents_of(tools).count(document) <= 1,
    decreases tools.len(),
{
    broadcast use vstd::multiset::group_multiset_axioms;

    if tools.len() > 0 {
        let start = tools.drop_last();
        let last = tools.last();
        assert forall|i: int, j: int| 0 <= i < j < start.len() implies (#[trigger] start[i]).name
            != (#[trigger] start[j]).name by {
            assert(start[i] == tools[i] && start[j] == tools[j]);
        }
        lemma_documents_once(start, document);
        if document_of(last) == document && documents_of(start).contains(document) {
            lemma_document_of_some(start, document);
            let i = choose|i: int|
                0 <= i < start.len() && document_of(#[trigger] start[i]) == document;
            assert(document[0] == (0u32, start[i].name));
            assert(document[0] == (0u32, last.name));
            assert(tools[i].name != tools[tools.len() - 1].name);
        }
    }
}

/// While the index holds the documents of the stored tools, no two of which have
/// one name, no two hits have one name.
proof fn lemma_hits_are_named_apart(
    stored: Seq<ToolView>,
    limit: nat,
    query: Seq<char>,
    places: Map<(u32, u32), Document>,
    found: Seq<(u32, (u32, u32))>,
    hits: Seq<(u32, Option<Seq<char>>)>,
    i: int,
    j: int,
)
    requires
        all_small(stored),
        named_apart(stored),
        reads_as(documents_of(stored), limit, query, places, found, hits),
        0 <= i < j < hits.len(),
        hits[i].1 is Some,
    ensures
        hits[i].1 != hits[j].1,
{
    if hits[i].1 == hits[j].1 {
        let documents = documents_of(stored);
        assert(places.contains_key(found[i].1) && places.contains_key(found[j].1));
        let left = places[found[i].1];
        let right = places[found[j].1];
        lemma_standing_document(documents, places, found[i].1);
        lemma_standing_document(documents, places, found[j].1);
        lemma_document_of_some(stored, left);
        lemma_document_of_some(stored, right);
        let k = choose|k: int| 0 <= k < stored.len() && document_of(#[trigger] stored[k]) == left;
        let l = choose|l: int| 0 <= l < stored.len() && document_of(#[trigger] stored[l]) == right;
        lemma_name_is_stored(stored[k]);
        lemma_name_is_stored(stored[l]);
        assert(stored[k].name == stored[l].name);
        assert(k == l);
        lemma_documents_once(stored, left);
        let addresses = addresses_of(places, left);
        vstd::set_lib::lemma_set_subset_finite(places.dom(), addresses);
        assert(documents.count(left) == addresses.len());
        assert(found[i].1 != found[j].1);
        assert(addresses.contains(found[i].1) && addresses.contains(found[j].1));
        let pair = Set::<(u32, u32)>::empty().insert(found[i].1).insert(found[j].1);
        vstd::set_lib::lemma_len_subset(pair, addresses);
    }
}

/// Hits with different names give tools with different names.
proof fn lemma_results_are_named_apart(
    stored: Seq<ToolView>,
    threshold: u32,
    hits: Seq<(u32, Option<Seq<char>>)>,
)
    requires
        forall|i: int, j: int|
            0 <= i < j < hits.len() && hits[i].1 is Some ==> (#[trigger] hits[i]).1 != (
            #[trigger] hits[j]).1,
    ensures
        named_apart(tools_of_hits(stored, threshold, hits)),
    decreases hits.len(),
{
    if hits.len() > 0 {
        let start = hits.drop_last();
        assert forall|i: int, j: int|
            0 <= i < j < start.len() && start[i].1 is Some implies (#[trigger] start[i]).1 != (
        #[trigger] start[j]).1 by {
            assert(start[i] == hits[i] && start[j] == hits[j]);
        }
        lemma_results_are_named_apart(stored, threshold, start);
        law_results_are_hits(stored, threshold, start);
        let before = tools_of_hits(stored, threshold, start);
        let results = tools_of_hits(stored, threshold, hits);
        if let Some(name) = hits.last().1 {
            lemma_found_tool(stored, name);
        }
        assert forall|i: int, j: int| 0 <= i < j < results.len() implies (#[trigger]
        results[i]).name != (#[trigger] results[j]).name by {
            assert(results[i] == before[i]);
            if j < before.len() {
                assert(results[j] == before[j]);
            } else {
                let tool = before[i];
                let k = choose|k: int|
                    0 <= k < start.len() && passes((#[trigger] start[k]).0, threshold)
                        && start[k].1 == Some(tool.name);
                assert(hits[k] == start[k]);
                assert(hits[k].1 != hits[hits.len() - 1].1);
            }
        }
    }
}

/// While the index holds the documents of the stored tools, no two of which have
/// one name, a search gives no tool twice.
pub proof fn law_no_tool_is_given_twice(
    stored: Seq<ToolView>,
    threshold: u32,
    limit: nat,
    text: Seq<char>,
    hits: Seq<(u32, Option<Seq<char>>)>,
)
    requires
        all_small(stored),
        named_apart(stored),
        may_hit(Some(documents_of(stored)), limit, text, hits),
    ensures
        named_apart(tools_of_hits(stored, threshold, hits)),
{
    if hits.len() > 0 {
        let documents = documents_of(stored);
        let query = asked_query(text)->0;
        let (places, found) = choose|
            places: Map<(u32, u32), Document>,
            found: Seq<(u32, (u32, u32))>,
        | #[trigger] reads_as(documents, limit, query, places, found, hits);
        assert forall|i: int, j: int|
            0 <= i < j < hits.len() && hits[i].1 is Some implies (#[trigger] hits[i]).1 != (
        #[trigger] hits[j]).1 by {
            lemma_hits_are_named_apart(stored, limit, query, places, found, hits, i, j);
        }
    }
    lemma_results_are_named_apart(stored, threshold, hits);
}

/// The index can be asked each short text without opening brackets and stars, and each
/// text without quotation marks and backslashes that the parser can be given.
pub proof fn law_plain_texts_can_be_asked(text: Seq<char>)
    requires
        ({
            ||| text.len() + 2 <= MOST_STACK && !text.contains('(') && !text.contains('*')
            ||| is_readable(text) && text.len() + 2 <= MOST_WORK && !text.contains('"')
                && !text.contains('\\')
        }),
    ensures
        can_be_asked(text),
{
    reveal_strlit("\"");
    let quote = seq!['"'];
    let phrase = quote + text + quote;
    assert(quoted(text) =~= phrase);
    if text.len() + 2 <= MOST_STACK && !text.contains('(') && !text.contains('*') {
        assert forall|i: int| 0 <= i < phrase.len() implies phrase[i] == '"' || text.contains(
            phrase[i],
        ) by {
            if 0 < i < phrase.len() - 1 {
                assert(phrase[i] == text[i - 1]);
            }
        }
        law_short_texts_are_readable(text);
        law_short_texts_are_readable(phrase);
    } else {
        law_phrases_are_readable(text);
    }
}

/// What the index holds of a tool, with a description or without: its name, its
/// description and its server, each in a field of its own, and in a fourth field a text
/// that starts with the whole name, ends with the whole description and has one space
/// between them.
pub proof fn law_document_of_a_tool(tool: ToolView)
    ensures
        ({
            let document = document_of(tool);
            let searched = document[3].1;
            let description = match tool.description {
                Some(text) => text,
                None => Seq::empty(),
            };
            &&& document.len() == 4
            &&& forall|i: int| 0 <= i < 4 ==> (#[trigger] document[i]).0 == i
            &&& document[0].1 == tool.name
            &&& document[1].1 == description
            &&& document[2].1 == server_of(tool.name)
            &&& tool.name.is_prefix_of(searched)
            &&& description.is_suffix_of(searched)
            &&& searched.len() == tool.name.len() + 1 + description.len()
            &&& searched[tool.name.len() as int] == ' '
        }),
{
    reveal_strlit(" ");
    let description = description_text(tool);
    let searched = document_of(tool)[3].1;
    assert(searched.take(tool.name.len() as int) =~= tool.name);
    assert(searched.skip(searched.len() - description.len()) =~= description);
}

/// Each part of the name of a tool, and of its description, stands in the field that is
/// searched.
pub proof fn law_names_and_descriptions_are_searched(tool: ToolView, part: Seq<char>)
    ensures
        occurs_in(tool.name, part) ==> occurs_in(document_of(tool)[3].1, part),
        tool.description matches Some(text) && occurs_in(text, part) ==> occurs_in(
            document_of(tool)[3].1,
            part,
        ),
{
    let searched = document_of(tool)[3].1;
    law_document_of_a_tool(tool);
    let len = part.len() as int;
    if occurs_in(tool.name, part) {
        let at = choose|at: int| occurs_at(tool.name, part, at);
        assert(searched.take(tool.name.len() as int).subrange(at, at + len)
            =~= searched.subrange(at, at + len));
        assert(occurs_at(searched, part, at));
    }
    if let Some(text) = tool.description {
        if occurs_in(text, part) {
            let at = choose|at: int| occurs_at(text, part, at);
            let start = searched.len() - text.len();
            assert(searched.skip(start).subrange(at, at + len) =~= searched.subrange(
                start + at,
                start + at + len,
            ));
            assert(occurs_at(searched, part, start + at));
        }
    }
}

/// A text in the given field of the document of a tool starts with the whole name of the
/// tool and ends with its whole description.
pub open spec fn holds_tool(field: u32, tool: ToolView) -> bool {
    exists|i: int|
        {
            let text = (#[trigger] document_of(tool)[i]).1;
            &&& 0 <= i < document_of(tool).len()
            &&& document_of(tool)[i].0 == field
            &&& tool.name.is_prefix_of(text)
            &&& tool.description matches Some(description) ==> description.is_suffix_of(text)
        }
}

/// A field holds the names and the descriptions of all tools there may be.
pub open spec fn is_searched_field(field: u32) -> bool {
    forall|tool: ToolView| #[trigger] holds_tool(field, tool)
}

/// The fourth field holds the names and the descriptions of all tools.
proof fn lemma_searched_field()
    ensures
        is_searched_field(3),
{
    assert forall|tool: ToolView| #[trigger] holds_tool(3, tool) by {
        law_document_of_a_tool(tool);
        assert(document_of(tool)[3].0 == 3);
    }
}

/// A query that names no field is asked of one that holds the whole name and the whole
/// description of each tool, whether it finds something or not.
pub proof fn law_queries_search_names_and_descriptions(
    documents: Multiset<Document>,
    limit: nat,
    query: Seq<char>,
    places: Map<(u32, u32), Document>,
    found: Seq<(u32, (u32, u32))>,
    hits: Seq<(u32, Option<Seq<char>>)>,
)
    ensures
        reads_as(documents, limit, query, places, found, hits) ==> exists|field: u32|
            is_searched_field(field) && #[trigger] may_answer(
                tool_fields(),
                seq![field],
                query,
                places,
                limit,
                found,
            ),
        goes_unanswered(documents, limit, query, places) ==> exists|field: u32|
            is_searched_field(field) && #[trigger] may_not_answer(
                tool_fields(),
                seq![field],
                query,
                places,
                limit,
            ),
{
    lemma_searched_field();
}

/// A text that is a query for tools is asked as it stands, and any other in quotation
/// marks, where that is one.
pub proof fn law_queries_are_asked(text: Seq<char>)
    ensures
        exists|field: u32|
            is_searched_field(field) && (is_query(text) <==> #[trigger] query_accepted(
                tool_fields(),
                seq![field],
                text,
            )),
        is_query(text) ==> asked_query(text) == Some(text),
        !is_query(text) && is_query(seq!['"'] + text + seq!['"']) ==> asked_query(text) == Some(
            seq!['"'] + text + seq!['"'],
        ),
        !is_query(text) && !is_query(seq!['"'] + text + seq!['"']) ==> asked_query(text) is None,
{
    reveal_strlit("\"");
    assert(quoted(text) =~= seq!['"'] + text + seq!['"']);
    lemma_searched_field();
    assert(is_query(text) <==> query_accepted(tool_fields(), seq![3u32], text));
}

/// The index of tools holds one document for each of them, and no others.
pub proof fn law_documents_of_tools(first: Seq<ToolView>, second: Seq<ToolView>, i: int)
    ensures
        documents_of(first + second) == documents_of(first).add(documents_of(second)),
        documents_of(second).len() == second.len(),
        0 <= i < second.len() ==> documents_of(second).contains(document_of(second[i])),
    decreases second.len(),
{
    broadcast use vstd::multiset::group_multiset_axioms;

    if second.len() == 0 {
        assert(first + second =~= first);
        assert(documents_of(first) =~= documents_of(first).add(documents_of(second)));
    } else {
        let start = second.drop_last();
        law_documents_of_tools(first, start, i);
        assert((first + second).drop_last() =~= first + start);
        assert(documents_of(first + second) =~= documents_of(first).add(documents_of(second)));
    }
}

/// The tools that were taken are those of which it is told, in their order.
pub proof fn law_taken_tools(
    first: Seq<ToolView>,
    second: Seq<ToolView>,
    first_taken: Seq<bool>,
    second_taken: Seq<bool>,
)
    requires
        first.len() == first_taken.len(),
        second.len() == second_taken.len(),
    ensures
        taken_tools(first + second, first_taken + second_taken) == taken_tools(first, first_taken)
            + taken_tools(second, second_taken),
        second.len() == 1 && second_taken[0] ==> taken_tools(second, second_taken) == second,
        second.len() == 1 && !second_taken[0] ==> taken_tools(second, second_taken).len() == 0,
    decreases second.len(),
{
    if second.len() == 0 {
        assert(first + second =~= first);
        assert(first_taken + second_taken =~= first_taken);
        assert(taken_tools(first, first_taken) + taken_tools(second, second_taken)
            =~= taken_tools(first, first_taken));
    } else {
        let start = second.drop_last();
        let start_taken = second_taken.drop_last();
        law_taken_tools(first, start, first_taken, start_taken);
        assert((first + second).drop_last() =~= first + start);
        assert((first_taken + second_taken).drop_last() =~= first_taken + start_taken);
        assert(taken_tools(first + second, first_taken + second_taken) =~= taken_tools(
            first,
            first_taken,
        ) + taken_tools(second, second_taken));
        if second.len() == 1 {
            assert(taken_tools(start, start_taken) =~= Seq::<ToolView>::empty());
            if second_taken[0] {
                assert(taken_tools(second, second_taken) =~= second);
            }
        }
    }
}

/// Nothing of an index of the given tools is refused.
pub open spec fn nothing_is_refused(tools: Seq<ToolView>) -> bool {
    &&& !may_refuse_writer(50_000_000)
    &&& forall|i: int|
        0 <= i < tools.len() ==> !may_refuse_document(document_of(#[trigger] tools[i]))
    &&& !may_refuse_commit(documents_of(tools))
}

/// Where nothing is refused, indexing tools makes exactly those the ones that a search
/// can give, whatever they were before, and changes nothing else.
pub proof fn law_indexed_tools_are_searched(
    before: ToolSearchMiddleware,
    tools: Seq<ToolView>,
    report: IndexReport,
    after: ToolSearchMiddleware,
)
    requires
        index_updated(&before, tools, report, &after),
    ensures
        after.config() == before.config(),
        after.exposed() == before.exposed(),
        after.injected() == before.injected(),
        all_small(tools) && nothing_is_refused(tools) ==> after.stored() == tools
            && after.indexed() == Some(documents_of(tools)),
{
    if all_small(tools) && nothing_is_refused(tools) {
        let taken = match report {
            IndexReport::NoWriter => Seq::empty(),
            IndexReport::NotCommitted { taken } => taken@,
            IndexReport::Committed { taken } => taken@,
        };
        if !(report is NoWriter) {
            assert forall|i: int| 0 <= i < taken.len() implies taken[i] by {
                assert(is_small(document_of(tools[i])));
                assert(!may_refuse_document(document_of(tools[i])));
            }
            law_all_taken_tools_are_stored(tools, taken);
        }
    }
}

/// Where nothing is refused, a listing makes all tools, and not only those that are
/// shown, the ones that a search can give.
pub proof fn law_listed_tools_are_searched(
    before: ToolSearchMiddleware,
    tools: Seq<ToolView>,
    after: ToolSearchMiddleware,
)
    requires
        tools_listed(&before, tools, &after),
        before.config().enabled,
    ensures
        after.config() == before.config(),
        all_small(tools) && nothing_is_refused(tools) ==> after.stored() == tools
            && after.indexed() == Some(documents_of(tools)),
{
    let (report, middle) = choose|report: IndexReport, middle: ToolSearchMiddleware|
        {
            &&& #[trigger] index_updated(&before, tools, report, &middle)
            &&& after.stored() == middle.stored()
            &&& after.indexed() == middle.indexed()
        };
    law_indexed_tools_are_searched(before, tools, report, middle);
}

/// A listing by a tool search that is off shows all tools and changes nothing. Else it
/// shows what is exposed where that is in place of all tools, and what it shows is
/// exposed where it is not.
pub proof fn law_listing_exposes_what_it_shows(
    config: ToolSearchMiddlewareConfig,
    exposed: Seq<ToolView>,
    injected: bool,
    tools: Seq<ToolView>,
)
    ensures
        ({
            let listed = listing(config, exposed, injected, tools);
            &&& !config.enabled ==> listed.shown == tools && listed.exposed == exposed
                && listed.injected == injected
            &&& config.enabled && injected ==> listed.exposed == exposed && listed.injected
            &&& config.enabled && !injected ==> listed.exposed == listed.shown && listed.injected
                == (tools.len() > config.max_tools_limit)
            &&& config.enabled && injected && !has_search_tool(exposed) && exposed.len()
                <= tools.len() ==> listed.shown == exposed.push(
                search_tool((tools.len() - exposed.len()) as nat),
            )
            &&& config.enabled && injected && !has_search_tool(exposed) && exposed.len()
                > tools.len() ==> listed.shown == exposed.push(search_tool(0))
            &&& config.enabled && injected && has_search_tool(exposed) ==> listed.shown == exposed
        }),
{
}

/// The tools that are shown of too many are the first ones in the order that is
/// configured last: the others are all the tools besides, and none of them comes before
/// one that is shown.
pub proof fn law_first_tools_are_shown(config: ToolSearchMiddlewareConfig, tools: Seq<ToolView>)
    requires
        config.enabled,
        tools.len() > config.max_tools_limit,
        config.tool_selection_order@.len() > 0,
    ensures
        ({
            let word = config.tool_selection_order@.last()@;
            let shown = initial_tools(config, tools);
            &&& shown.len() == config.max_tools_limit
            &&& exists|others: Seq<ToolView>|
                {
                    &&& #[trigger] (shown + others).to_multiset() == tools.to_multiset()
                    &&& word == "alphabetical"@ ==> in_order(
                        ToolOrder::Alphabetical,
                        shown + others,
                    )
                    &&& word == "server_priority"@ ==> in_order(
                        ToolOrder::ServerPriority,
                        shown + others,
                    )
                }
        }),
{
    reveal_strlit("alphabetical");
    reveal_strlit("server_priority");
    assert("alphabetical"@.len() != "server_priority"@.len());
    let orders = texts(config.tool_selection_order@);
    let limit = config.max_tools_limit as int;
    let all = arranged(orders, tools);
    let shown = initial_tools(config, tools);
    lemma_arranged_len(orders, tools);
    lemma_arranged_tools(orders, tools);
    assert(orders.last() == config.tool_selection_order@.last()@);
    if let Some(order) = order_named(orders.last()) {
        law_sorted(order, arranged(orders.drop_last(), tools));
    }
    let others = all.skip(limit);
    assert(shown + others =~= all);
    assert((shown + others).to_multiset() == tools.to_multiset());
}

/// A word that stands for no order changes nothing, and without words tools stay in the
/// order in which they came. Tools of one name stay in that order in any case.
pub proof fn law_orders_are_words(
    orders: Seq<Seq<char>>,
    word: Seq<char>,
    tools: Seq<ToolView>,
    name: Seq<char>,
)
    ensures
        arranged(Seq::empty(), tools) == tools,
        word != "alphabetical"@ && word != "server_priority"@ ==> arranged(
            orders.push(word),
            tools,
        ) == arranged(orders, tools),
        named(arranged(orders, tools), name) == named(tools, name),
    decreases orders.len(),
{
    assert(orders.push(word).drop_last() =~= orders);
    if orders.len() > 0 {
        let before = arranged(orders.drop_last(), tools);
        law_orders_are_words(orders.drop_last(), word, tools, name);
        if let Some(order) = order_named(orders.last()) {
            law_sort_is_stable(order, before, name);
        }
    }
}

/// The search tool has its name, tells how many tools there are besides, and asks for a
/// query, which is a text.
pub proof fn law_search_tool(hidden: nat)
    ensures
        search_tool(hidden).name == "search_available_tools"@,
        search_tool(hidden).description is Some && occurs_in(
            search_tool(hidden).description->0,
            " "@ + decimal(hidden) + " "@,
        ),
        search_tool(hidden).input_schema.member("required"@) == Some(
            JsonView::Array(seq![JsonView::Text("query"@)]),
        ),
        search_tool(hidden).input_schema.member("type"@) == Some(JsonView::Text("object"@)),
        search_tool(hidden).input_schema.member("properties"@) matches Some(properties)
            && properties.member("query"@) matches Some(query) && query.member("type"@) == Some(
            JsonView::Text("string"@),
        ),
{
    reveal_strlit("Search through ");
    reveal_strlit(
        " additional available tools. Provide a search query to find relevant tools by name or description.",
    );
    reveal_strlit(" ");
    reveal_strlit("type");
    reveal_strlit("properties");
    reveal_strlit("required");
    reveal_strlit("query");
    let start = "Search through "@;
    let end =
        " additional available tools. Provide a search query to find relevant tools by name or description."@;
    let number = " "@ + decimal(hidden) + " "@;
    let text = search_tool(hidden).description->0;
    let at = start.len() - 1;
    assert(text.subrange(at, at + number.len()) =~= number);
    assert(occurs_at(text, number, at));
    assert("type"@.len() == 4 && "properties"@.len() == 10 && "required"@.len() == 8);
    let members = search_tool_schema()->Object_0;
    law_first_named(members, "type"@, 0);
    law_first_named(members, "properties"@, 1);
    law_first_named(members, "required"@, 2);
    let properties = members[1].1->Object_0;
    law_first_named(properties, "query"@, 0);
    law_first_named(properties[0].1->Object_0, "type"@, 0);
}

/// The tools that some hits stand for and those that others do come one after the other,
/// and a hit whose score passes the threshold stands for the stored tool of its name.
pub proof fn law_hits_stand_for_tools(
    stored: Seq<ToolView>,
    threshold: u32,
    first: Seq<(u32, Option<Seq<char>>)>,
    second: Seq<(u32, Option<Seq<char>>)>,
    at: int,
)
    ensures
        tools_of_hits(stored, threshold, first + second) == tools_of_hits(stored, threshold, first)
            + tools_of_hits(stored, threshold, second),
        second.len() == 1 && (!passes(second[0].0, threshold) || second[0].1 is None)
            ==> tools_of_hits(stored, threshold, second).len() == 0,
        second.len() == 1 && passes(second[0].0, threshold) && 0 <= at < stored.len()
            && second[0].1 == Some(stored[at].name) && (forall|i: int|
            0 <= i < at ==> (#[trigger] stored[i]).name != stored[at].name) ==> tools_of_hits(
            stored,
            threshold,
            second,
        ) == seq![stored[at]],
    decreases second.len(),
{
    if second.len() == 0 {
        assert(first + second =~= first);
        assert(tools_of_hits(stored, threshold, first) + tools_of_hits(stored, threshold, second)
            =~= tools_of_hits(stored, threshold, first));
    } else {
        let start = second.drop_last();
        law_hits_stand_for_tools(stored, threshold, first, start, at);
        assert((first + second).drop_last() =~= first + start);
        assert(tools_of_hits(stored, threshold, first + second) =~= tools_of_hits(
            stored,
            threshold,
            first,
        ) + tools_of_hits(stored, threshold, second));
        if second.len() == 1 {
            assert(tools_of_hits(stored, threshold, start) =~= Seq::<ToolView>::empty());
            if 0 <= at < stored.len() && second[0].1 == Some(stored[at].name) && (forall|i: int|
                0 <= i < at ==> (#[trigger] stored[i]).name != stored[at].name) {
                lemma_tool_named(stored, stored[at].name, at);
                if passes(second[0].0, threshold) {
                    assert(tools_of_hits(stored, threshold, second) =~= seq![stored[at]]);
                }
            }
        }
    }
}

/// While the index holds the documents of the stored tools, no two of which have one
/// name, each tool whose document the index finds is given, where its document can be
/// read and its score passes the threshold.
pub proof fn law_found_tools_are_given(
    stored: Seq<ToolView>,
    threshold: u32,
    limit: nat,
    query: Seq<char>,
    places: Map<(u32, u32), Document>,
    found: Seq<(u32, (u32, u32))>,
    hits: Seq<(u32, Option<Seq<char>>)>,
    i: int,
    k: int,
)
    requires
        all_small(stored),
        named_apart(stored),
        reads_as(documents_of(stored), limit, query, places, found, hits),
        0 <= i < found.len(),
        0 <= k < stored.len(),
        places[found[i].1] == document_of(stored[k]),
        passes(found[i].0, threshold),
    ensures
        !may_not_read(document_of(stored[k])) ==> tools_of_hits(stored, threshold, hits).contains(
            stored[k],
        ),
{
    if !may_not_read(document_of(stored[k])) {
        assert(places.contains_key(found[i].1));
        assert(names_hit(places, found[i], hits[i]));
        assert(is_small(document_of(stored[k])));
        lemma_name_is_stored(stored[k]);
        assert(hits[i] == (found[i].0, Some(stored[k].name)));
        let before = hits.take(i);
        let here = seq![hits[i]];
        let behind = hits.skip(i + 1);
        assert(hits =~= before + here + behind);
        assert forall|j: int| 0 <= j < k implies (#[trigger] stored[j]).name != stored[k].name by {
        }
        law_hits_stand_for_tools(stored, threshold, before, here, k);
        law_hits_stand_for_tools(stored, threshold, before + here, behind, k);
        let at = tools_of_hits(stored, threshold, before).len() as int;
        assert(tools_of_hits(stored, threshold, here)[0] == stored[k]);
        assert(tools_of_hits(stored, threshold, hits)[at] == stored[k]);
    }
}

/// A search can be made where there is no index, and wherever the index can be asked the
/// text and the limit is one that can be asked for.
pub proof fn law_searches_can_be_made(search: ToolSearchMiddleware, text: Seq<char>)
    ensures
        search.indexed() is None ==> search.searchable(text),
        can_be_asked(text) && 1 <= search.config().max_tools_limit <= usize::MAX / 48
            ==> search.searchable(text),
{
}

/// The hits of a search are those of one answer of the index to the query that is asked,
/// for as many hits as the limit says: one for each, with its score.
pub proof fn law_hits_answer_the_query(
    indexed: Option<Multiset<Document>>,
    limit: nat,
    text: Seq<char>,
    hits: Seq<(u32, Option<Seq<char>>)>,
)
    requires
        may_hit(indexed, limit, text, hits),
        hits.len() > 0,
    ensures
        indexed is Some,
        asked_query(text) is Some,
        exists|field: u32, places: Map<(u32, u32), Document>, found: Seq<(u32, (u32, u32))>|
            {
                &&& #[trigger] may_answer(
                    tool_fields(),
                    seq![field],
                    asked_query(text)->0,
                    places,
                    limit,
                    found,
                )
                &&& is_searched_field(field)
                &&& stand_at(indexed->0, places)
                &&& found.len() == hits.len()
                &&& forall|i: int| 0 <= i < hits.len() ==> (#[trigger] hits[i]).0 == found[i].0
            },
{
    let (places, found) = choose|
        places: Map<(u32, u32), Document>,
        found: Seq<(u32, (u32, u32))>,
    | #[trigger] reads_as(indexed->0, limit, asked_query(text)->0, places, found, hits);
    lemma_searched_field();
    assert(may_answer(
        tool_fields(),
        seq![3u32],
        asked_query(text)->0,
        places,
        limit,
        found,
    ));
    assert forall|i: int| 0 <= i < hits.len() implies (#[trigger] hits[i]).0 == found[i].0 by {
        assert(names_hit(places, found[i], hits[i]));
    }
}

/// The search tool is told by its name.
pub proof fn law_search_tool_is_told_by_its_name(tools: Seq<ToolView>)
    ensures
        has_search_tool(tools) <==> exists|i: int|
            0 <= i < tools.len() && (#[trigger] tools[i]).name == "search_available_tools"@,
        forall|hidden: nat| has_search_tool(tools.push(#[trigger] search_tool(hidden))),
{
    assert forall|hidden: nat| has_search_tool(tools.push(#[trigger] search_tool(hidden))) by {
        assert(tools.push(search_tool(hidden))[tools.len() as int].name == search_tool_name());
    }
}

/// A tool with a name and a description of up to a mebi characters each is small enough
/// for the index.
pub proof fn law_ordinary_tools_are_small(tool: ToolView)
    requires
        tool.name.len() <= 0x10_0000,
        tool.description matches Some(text) ==> text.len() <= 0x10_0000,
    ensures
        is_small(document_of(tool)),
{
    law_document_of_a_tool(tool);
    law_names_are_parted(tool.name);
    reveal_strlit("unknown");
    let document = document_of(tool);
    let first = document.take(1);
    let second = document.take(2);
    let third = document.take(3);
    assert(first.drop_last() =~= Seq::<(u32, Seq<char>)>::empty());
    assert(second.drop_last() =~= first);
    assert(third.drop_last() =~= second);
    assert(document.drop_last() =~= third);
    assert(document_size(first.drop_last()) == 0);
    assert(document_size(first) == document[0].1.len());
    assert(document_size(second) == document_size(first) + document[1].1.len());
    assert(document_size(third) == document_size(second) + document[2].1.len());
    assert(document_size(document) == document_size(third) + document[3].1.len());
}

/// After a listing, another of the same tools shows the same. Where not all tools are
/// shown, those that are stay exposed in place of all until a search changes them.
pub proof fn law_listing_is_kept(
    before: ToolSearchMiddleware,
    tools: Seq<ToolView>,
    after: ToolSearchMiddleware,
)
    requires
        tools_listed(&before, tools, &after),
    ensures
        after.shown(tools) == before.shown(tools),
        before.config().enabled && !before.injected() ==> after.exposed() == before.shown(tools)
            && after.injected() == (tools.len() > before.config().max_tools_limit),
        before.config().enabled && before.injected() ==> after.exposed() == before.exposed()
            && after.injected(),
        !before.config().enabled ==> after.exposed() == before.exposed() && after.injected()
            == before.injected() && after.stored() == before.stored() && after.indexed()
            == before.indexed(),
{
    law_listing_repeats(before.config(), before.exposed(), before.injected(), tools);
}

} // verus!
