//! The react tool: a reaction to the message that came in.
use vstd::prelude::*;
use crate::channels::CompletionRoute;
use crate::channels::RouteView;
use crate::config::GatewayChannelKind;
use crate::error::{ErrorView, FrameworkError};
use crate::error;
use crate::text;

verus! {

/// The react tool.
#[derive(Debug, Clone, Copy, PartialEq, Eq, Structural)]
pub struct ReactTool;

/// A reaction that is to be added to a message.
#[derive(Debug, PartialEq, Eq)]
pub struct ReactRequest {
    pub source_channel: GatewayChannelKind,
    pub channel_id: String,
    pub message_id: String,
    pub emoji: String,
}

/// A reaction that is to be added to a message, as it reads.
#[verifier::ext_equal]
pub struct ReactView {
    pub source_channel: GatewayChannelKind,
    pub channel_id: Seq<char>,
    pub message_id: Seq<char>,
    pub emoji: Seq<char>,
}

impl View for ReactRequest {
    type V = ReactView;

    open spec fn view(&self) -> ReactView {
        ReactView {
            source_channel: self.source_channel,
            channel_id: self.channel_id@,
            message_id: self.message_id@,
            emoji: self.emoji@,
        }
    }
}

/// The reaction that is to be added; or why there is none.
pub open spec fn reaction_to(
    emoji: Seq<char>,
    has_gateway: bool,
    route: Option<RouteView>,
) -> Result<ReactView, ErrorView> {
    if text::trim(emoji).len() == 0 {
        Err(ErrorView::Tool("react requires a non-empty emoji"@))
    } else if !has_gateway {
        Err(ErrorView::Tool("react unavailable: gateway context is missing"@))
    } else {
        match route {
            None => Err(ErrorView::Tool("react unavailable: completion route is missing"@)),
            Some(route) => match route.source_message_id {
                None => Err(
                    ErrorView::Tool(
                        "react unavailable: current inbound message id is unavailable"@,
                    ),
                ),
                Some(message_id) => Ok(
                    ReactView {
                        source_channel: route.source_channel,
                        channel_id: route.channel_id,
                        message_id,
                        emoji: text::trim(emoji),
                    },
                ),
            },
        }
    }
}

impl ReactTool {
    /// What the tool is called.
    pub fn name(&self) -> (r: &'static str)
        ensures
            r@ == "react"@,
    {
        "react"
    }

    /// What the tool is for.
    pub fn description(&self) -> (r: &'static str)
        ensures
            r@ == "Add an emoji reaction to the current inbound message using JSON: {emoji}"@,
    {
        "Add an emoji reaction to the current inbound message using JSON: {emoji}"
    }

    /// What arguments the tool takes.
    pub fn input_schema_json(&self) -> (r: &'static str)
        ensures
            r@ == "{\"type\":\"object\",\"properties\":{\"emoji\":{\"type\":\"string\"}},\"required\":[\"emoji\"]}"@,
    {
        "{\"type\":\"object\",\"properties\":{\"emoji\":{\"type\":\"string\"}},\"required\":[\"emoji\"]}"
    }

    /// The reaction that is to be added; or why there is none.
    pub fn plan(&self, emoji: &str, has_gateway: bool, route: Option<&CompletionRoute>) -> (r:
        Result<ReactRequest, FrameworkError>)
        ensures
            match r {
                Ok(request) => Ok::<ReactView, ErrorView>(request@),
                Err(error) => Err(error@),
            } == reaction_to(
                emoji@,
                has_gateway,
                match route {
                    Some(route) => Some(route@),
                    None => None,
                },
            ),
    {
        let emoji = text::trimmed(emoji);
        if emoji.as_str().is_empty() {
            return Err(error::tool_error("react requires a non-empty emoji"));
        }
        if !has_gateway {
            return Err(error::tool_error("react unavailable: gateway context is missing"));
        }
        let route = match route {
            Some(route) => route,
            None => {
                return Err(error::tool_error("react unavailable: completion route is missing"));
            },
        };
        match &route.source_message_id {
            Some(message_id) => Ok(
                ReactRequest {
                    source_channel: route.source_channel,
                    channel_id: route.channel_id.clone(),
                    message_id: message_id.clone(),
                    emoji,
                },
            ),
            None => Err(
                error::tool_error("react unavailable: current inbound message id is unavailable"),
            ),
        }
    }
}

/// A reaction goes to the message that came in, on the way that it came, with the emoji that was
/// given; without an emoji, a gateway or a message there is none.
pub proof fn law_reactions_go_to_the_message(
    emoji: Seq<char>,
    has_gateway: bool,
    route: Option<RouteView>,
)
    ensures
        reaction_to(emoji, has_gateway, route) is Ok <==> {
            &&& !text::is_blank(emoji)
            &&& has_gateway
            &&& route is Some
            &&& route->0.source_message_id is Some
        },
        reaction_to(emoji, has_gateway, route) matches Ok(reaction) ==> {
            &&& reaction.source_channel == route->0.source_channel
            &&& reaction.channel_id == route->0.channel_id
            &&& Some(reaction.message_id) == route->0.source_message_id
            &&& reaction.emoji == text::trim(emoji)
        },
{
}

} // verus!
