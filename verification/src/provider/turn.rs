//! What a model hands back after one step.
use vstd::prelude::*;
use crate::message::{calls_view, CallView, ToolCall};
use crate::text::chars::view_opt;

verus! {

/// The tokens that a provider reports for a request.
#[derive(Clone, Copy, Debug, PartialEq, Eq, Structural)]
pub struct TokenUsage {
    pub prompt_tokens: usize,
    pub completion_tokens: usize,
    pub total_tokens: usize,
}

pub open spec fn no_usage() -> TokenUsage {
    TokenUsage { prompt_tokens: 0, completion_tokens: 0, total_tokens: 0 }
}

impl Default for TokenUsage {
    fn default() -> (r: TokenUsage)
        ensures
            r == no_usage(),
    {
        TokenUsage { prompt_tokens: 0, completion_tokens: 0, total_tokens: 0 }
    }
}

impl TokenUsage {
    /// The sum of two usages, each number at most `usize::MAX`.
    pub open spec fn plus(self, other: TokenUsage) -> TokenUsage {
        TokenUsage {
            prompt_tokens: self.prompt_tokens.saturating_add(other.prompt_tokens),
            completion_tokens: self.completion_tokens.saturating_add(other.completion_tokens),
            total_tokens: self.total_tokens.saturating_add(other.total_tokens),
        }
    }

    /// The sum of two usages.
    pub fn sum(&self, other: &TokenUsage) -> (r: TokenUsage)
        ensures
            r == self.plus(*other),
    {
        TokenUsage {
            prompt_tokens: self.prompt_tokens.saturating_add(other.prompt_tokens),
            completion_tokens: self.completion_tokens.saturating_add(other.completion_tokens),
            total_tokens: self.total_tokens.saturating_add(other.total_tokens),
        }
    }
}

/// What a model hands back after one step.
#[derive(Clone, Debug)]
pub struct AssistantTurn {
    pub content: Option<String>,
    pub tool_calls: Vec<ToolCall>,
    pub usage: Option<TokenUsage>,
}

#[verifier::ext_equal]
pub struct TurnView {
    pub content: Option<Seq<char>>,
    pub tool_calls: Seq<CallView>,
    pub usage: Option<TokenUsage>,
}

impl View for AssistantTurn {
    type V = TurnView;

    open spec fn view(&self) -> TurnView {
        TurnView {
            content: view_opt(self.content),
            tool_calls: calls_view(self.tool_calls@),
            usage: self.usage,
        }
    }
}

/// What the agent needs to know of a model provider besides its requests.
pub trait ModelProvider {
    spec fn model_name(&self) -> Seq<char>;

    /// The name of the model.
    fn model(&self) -> (r: &str)
        ensures
            r@ == self.model_name(),
    ;
}

} // verus!
