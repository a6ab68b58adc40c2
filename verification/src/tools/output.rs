//! What a tool hands back.
use vstd::prelude::*;

verus! {

/// The text that a tool hands back, and whether it reports a failure.
#[derive(Clone, Debug, PartialEq)]
pub struct ToolOutput {
    pub content: String,
    pub is_error: bool,
}

#[verifier::ext_equal]
pub struct OutputView {
    pub content: Seq<char>,
    pub is_error: bool,
}

impl View for ToolOutput {
    type V = OutputView;

    open spec fn view(&self) -> OutputView {
        OutputView { content: self.content@, is_error: self.is_error }
    }
}

/// The output of a tool that failed for a reason.
pub open spec fn failure(reason: Seq<char>) -> OutputView {
    OutputView { content: "工具执行失败: "@ + reason, is_error: true }
}

/// The output of a tool that succeeded.
pub open spec fn success(content: Seq<char>) -> OutputView {
    OutputView { content, is_error: false }
}

impl ToolOutput {
    /// The output of a tool that failed for a reason.
    pub fn failure(reason: &str) -> (r: ToolOutput)
        ensures
            r@ == failure(reason@),
    {
        let mut content = "工具执行失败: ".to_owned();
        content.append(reason);
        ToolOutput { content, is_error: true }
    }

    /// The output of a tool that succeeded.
    pub fn success(content: String) -> (r: ToolOutput)
        ensures
            r@ == success(content@),
    {
        ToolOutput { content, is_error: false }
    }

    /// A copy of the output.
    pub fn copy(&self) -> (r: ToolOutput)
        ensures
            r@ == self@,
    {
        ToolOutput { content: self.content.clone(), is_error: self.is_error }
    }
}

} // verus!
