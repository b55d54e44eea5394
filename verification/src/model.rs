//! What a server offers: tools, prompts and resources.
//!
//! The proxy reads names and descriptions. What else a server says of an item is
//! carried along as JSON.

use std::sync::Arc;
use vstd::prelude::*;

use crate::config::text_or_none;
use crate::json::{JsonValue, JsonView};

verus! {

/// A tool that can be called.
#[derive(Debug)]
pub struct Tool {
    pub name: String,
    pub description: Option<String>,
    /// The JSON Schema of its arguments.
    pub input_schema: Arc<JsonValue>,
    /// Hints on what it does.
    pub annotations: Option<Arc<JsonValue>>,
}

/// A prompt that can be fetched.
#[derive(Debug)]
pub struct Prompt {
    pub name: String,
    pub description: Option<String>,
    /// The arguments that it takes.
    pub arguments: Option<Arc<JsonValue>>,
}

/// A resource that can be read.
#[derive(Debug)]
pub struct Resource {
    pub uri: String,
    pub name: String,
    pub description: Option<String>,
    pub mime_type: Option<String>,
    pub size: Option<u32>,
    /// Hints on who it is for.
    pub annotations: Option<Arc<JsonValue>>,
}

/// A tool, with its texts as characters.
pub struct ToolView {
    pub name: Seq<char>,
    pub description: Option<Seq<char>>,
    pub input_schema: JsonView,
    pub annotations: Option<JsonView>,
}

/// A prompt, with its texts as characters.
pub struct PromptView {
    pub name: Seq<char>,
    pub description: Option<Seq<char>>,
    pub arguments: Option<JsonView>,
}

/// A resource, with its texts as characters.
pub struct ResourceView {
    pub uri: Seq<char>,
    pub name: Seq<char>,
    pub description: Option<Seq<char>>,
    pub mime_type: Option<Seq<char>>,
    pub size: Option<u32>,
    pub annotations: Option<JsonView>,
}

/// A JSON value that may be missing.
pub open spec fn json_or_none(json: Option<Arc<JsonValue>>) -> Option<JsonView> {
    match json {
        Some(json) => Some(json.view()),
        None => None,
    }
}

impl View for Tool {
    type V = ToolView;

    open spec fn view(&self) -> ToolView {
        ToolView {
            name: self.name@,
            description: text_or_none(self.description),
            input_schema: self.input_schema.view(),
            annotations: json_or_none(self.annotations),
        }
    }
}

impl View for Prompt {
    type V = PromptView;

    open spec fn view(&self) -> PromptView {
        PromptView {
            name: self.name@,
            description: text_or_none(self.description),
            arguments: json_or_none(self.arguments),
        }
    }
}

impl View for Resource {
    type V = ResourceView;

    open spec fn view(&self) -> ResourceView {
        ResourceView {
            uri: self.uri@,
            name: self.name@,
            description: text_or_none(self.description),
            mime_type: text_or_none(self.mime_type),
            size: self.size,
            annotations: json_or_none(self.annotations),
        }
    }
}

/// The tools of a list, with their texts as characters.
pub open spec fn tools_view(tools: Seq<Tool>) -> Seq<ToolView> {
    tools.map_values(|tool: Tool| tool@)
}

/// The prompts of a list, with their texts as characters.
pub open spec fn prompts_view(prompts: Seq<Prompt>) -> Seq<PromptView> {
    prompts.map_values(|prompt: Prompt| prompt@)
}

/// The resources of a list, with their texts as characters.
pub open spec fn resources_view(resources: Seq<Resource>) -> Seq<ResourceView> {
    resources.map_values(|resource: Resource| resource@)
}

/// Another handle on a shared JSON value.
///
/// Calls `<Arc<JsonValue> as Clone>::clone`, which gives a handle on the same
/// value.
#[verifier::external_body]
fn share(json: &Arc<JsonValue>) -> (shared: Arc<JsonValue>)
    ensures
        shared == *json,
{
    json.clone()
}

/// Another handle on a shared JSON value that may be missing.
fn share_or_none(json: &Option<Arc<JsonValue>>) -> (shared: Option<Arc<JsonValue>>)
    ensures
        shared == *json,
{
    match json {
        Some(json) => Some(share(json)),
        None => None,
    }
}

/// The same text, where there is one.
fn text_clone(text: &Option<String>) -> (res: Option<String>)
    ensures
        res == *text,
{
    match text {
        Some(text) => Some(text.clone()),
        None => None,
    }
}

impl Clone for Tool {
    fn clone(&self) -> (res: Self)
        ensures
            res == *self,
    {
        Tool {
            name: self.name.clone(),
            description: text_clone(&self.description),
            input_schema: share(&self.input_schema),
            annotations: share_or_none(&self.annotations),
        }
    }
}

impl Clone for Prompt {
    fn clone(&self) -> (res: Self)
        ensures
            res == *self,
    {
        Prompt {
            name: self.name.clone(),
            description: text_clone(&self.description),
            arguments: share_or_none(&self.arguments),
        }
    }
}

impl Clone for Resource {
    fn clone(&self) -> (res: Self)
        ensures
            res == *self,
    {
        Resource {
            uri: self.uri.clone(),
            name: self.name.clone(),
            description: text_clone(&self.description),
            mime_type: text_clone(&self.mime_type),
            size: self.size,
            annotations: share_or_none(&self.annotations),
        }
    }
}

/// The same tools.
pub fn clone_tools(tools: &Vec<Tool>) -> (res: Vec<Tool>)
    ensures
        res@ == tools@,
{
    let res: Vec<Tool> = tools.clone();
    assert(res@ =~= tools@);
    res
}

} // verus!
