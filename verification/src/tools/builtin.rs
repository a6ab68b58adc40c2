//! The tools that every registry has: calculating, the time, and waiting.
use vstd::prelude::*;
use crate::clock::{is_digit, is_rfc3339, local_now};
use crate::json::{json_parse, obj, parse, Json, JsonView};
use crate::text::chars::{byte_len, utf8_len};
use crate::tools::output::{failure, success, OutputView, ToolOutput};
use crate::tools::schema::{described, described_spec, function_schema, function_spec, parameters, parameters_spec, parameters_with, required_spec};

verus! {

/// The characters between the tokens of an expression.
pub open spec fn is_expression_blank(c: char) -> bool {
    c == ' ' || c == '\t' || c == '\r' || c == '\n'
}

pub open spec fn only_blanks(s: Seq<char>) -> bool {
    forall|i: int| 0 <= i < s.len() ==> is_expression_blank(#[trigger] s[i])
}

/// The message of the error that `meval` finds in an expression, if any: it
/// cannot be read, it names an unknown variable or function, or a function is
/// given too many or too few arguments.
pub uninterp spec fn eval_fault(expression: Seq<char>) -> Option<Seq<char>>;

/// The decimal form of the value that `meval` gives an expression of numbers,
/// brackets and the four operations.
pub uninterp spec fn eval_text(expression: Seq<char>) -> Seq<char>;

pub open spec fn is_plain_char(c: char) -> bool {
    is_digit(c) || c == '.' || c == '+' || c == '-' || c == '*' || c == '/' || c == '(' || c == ')'
        || is_expression_blank(c)
}

/// An expression of numbers, brackets and the four operations.
pub open spec fn plain_arithmetic(s: Seq<char>) -> bool {
    forall|i: int| 0 <= i < s.len() ==> is_plain_char(#[trigger] s[i])
}

/// `meval::eval_str`: the value of an expression in decimal form, or the
/// message of the error. Whether there is an error, and which, depends on the
/// text alone. So does the value where the expression holds numbers, brackets
/// and the four operations only, which are rounded alike everywhere. Of any
/// other value it is said only that its text is not empty: powers and functions
/// such as `sin` are computed with a precision that differs from machine to
/// machine. The tokenizer panics on a text that is not empty but holds blanks
/// only; such a text is left out.
#[verifier::external_body]
fn eval_expression(expression: &str) -> (r: Result<String, String>)
    requires
        expression@.len() == 0 || !only_blanks(expression@),
    ensures
        match r {
            Ok(t) => eval_fault(expression@) is None && t@.len() > 0 && (plain_arithmetic(
                expression@,
            ) ==> t@ == eval_text(expression@)),
            Err(e) => eval_fault(expression@) == Some(e@),
        },
{
    meval::eval_str(expression).map(|n| n.to_string()).map_err(|e| e.to_string())
}

/// The output for the outcome of an operation.
pub open spec fn outcome(r: Result<Seq<char>, Seq<char>>) -> OutputView {
    match r {
        Ok(content) => success(content),
        Err(reason) => failure(reason),
    }
}

fn blanks_only(text: &str) -> (r: bool)
    ensures
        r == only_blanks(text@),
{
    for c in it: text.chars()
        invariant
            it.seq() == text@,
            forall|j: int| 0 <= j < it.index() ==> is_expression_blank(#[trigger] text@[j]),
    {
        if !(c == ' ' || c == '\t' || c == '\r' || c == '\n') {
            assert(!is_expression_blank(text@[it.index()]));
            return false;
        }
    }
    true
}

/// A tool that calculates.
#[derive(Clone, Copy, Debug)]
pub struct CalculateTool;

pub open spec fn calculate_schema() -> JsonView {
    function_spec(
        "calculate"@,
        "计算一个数学表达式"@,
        required_spec(
            obj().with("expression"@, described_spec("string"@, "例如 (12+3)*4"@)),
            seq!["expression"],
        ),
    )
}

/// The expression to be evaluated for the arguments of a call, or the output
/// that rejects them. An expression of blanks only counts as empty.
pub open spec fn expression_of(args: JsonView) -> Result<Seq<char>, OutputView> {
    match args.at("expression"@).as_text() {
        None => Err(failure("缺少 expression 参数"@)),
        Some(expression) => if byte_len(expression) > 200 {
            Err(failure("表达式过长"@))
        } else if only_blanks(expression) {
            Ok(Seq::empty())
        } else {
            Ok(expression)
        },
    }
}

/// What a calculation may put out for the arguments of a call: the rejection,
/// the error that the expression holds, or the expression's value.
pub open spec fn is_calculated(args: JsonView, output: OutputView) -> bool {
    match expression_of(args) {
        Err(rejection) => output == rejection,
        Ok(expression) => match eval_fault(expression) {
            Some(reason) => output == failure(reason),
            None => exists|value: Seq<char>|
                output == #[trigger] success(value) && value.len() > 0 && (plain_arithmetic(
                    expression,
                ) ==> value == eval_text(expression)),
        },
    }
}

impl CalculateTool {
    /// The name of the tool.
    pub fn name(&self) -> (r: &'static str)
        ensures
            r@ == "calculate"@,
    {
        "calculate"
    }

    /// The schema of the tool.
    pub fn schema(&self) -> (r: Json)
        ensures
            r@ == calculate_schema(),
    {
        let properties = Json::empty().put("expression", described("string", "例如 (12+3)*4"));
        let required: [&str; 1] = ["expression"];
        assert(required@ =~= seq!["expression"]);
        function_schema(
            "calculate",
            "计算一个数学表达式",
            parameters_with(properties, &required),
        )
    }

    /// The expression to be evaluated for the arguments of a call, or the
    /// output that rejects them.
    pub fn expression(&self, args: &Json) -> (r: Result<String, ToolOutput>)
        ensures
            match r {
                Ok(e) => expression_of(args@) == Ok::<Seq<char>, OutputView>(e@),
                Err(o) => expression_of(args@) == Err::<Seq<char>, OutputView>(o@),
            },
    {
        let expression = match args.text_at("expression") {
            Some(t) => t,
            None => {
                return Err(ToolOutput::failure("缺少 expression 参数"));
            },
        };
        if utf8_len(expression) > 200 {
            return Err(ToolOutput::failure("表达式过长"));
        }
        if blanks_only(expression) {
            let none = String::new();
            assert(none@ =~= Seq::<char>::empty());
            return Ok(none);
        }
        Ok(expression.to_owned())
    }

    /// The output for the outcome of evaluating an expression.
    pub fn evaluated(&self, value: Result<String, String>) -> (r: ToolOutput)
        ensures
            r@ == outcome(
                match value {
                    Ok(t) => Ok(t@),
                    Err(e) => Err(e@),
                },
            ),
    {
        match value {
            Ok(text) => ToolOutput::success(text),
            Err(e) => ToolOutput::failure(&e),
        }
    }

    /// Calculates for arguments that were read.
    pub fn run(&self, args: &Json) -> (r: ToolOutput)
        ensures
            is_calculated(args@, r@),
    {
        match self.expression(args) {
            Ok(expression) => {
                let value = eval_expression(&expression);
                self.evaluated(value)
            },
            Err(rejection) => rejection,
        }
    }

    /// Calculates for the text of a call's arguments.
    pub fn execute(&self, raw_args: &str) -> (r: ToolOutput)
        ensures
            match json_parse(raw_args@) {
                Ok(args) => is_calculated(args, r@),
                Err(e) => r@ == failure(e),
            },
    {
        match parse(raw_args) {
            Ok(args) => self.run(&args),
            Err(e) => ToolOutput::failure(&e),
        }
    }
}

/// A tool that tells the time.
#[derive(Clone, Copy, Debug)]
pub struct CurrentTimeTool;

pub open spec fn current_time_schema() -> JsonView {
    function_spec("current_time"@, "获取运行机器的当前本地时间"@, parameters_spec(obj()))
}

impl CurrentTimeTool {
    /// The name of the tool.
    pub fn name(&self) -> (r: &'static str)
        ensures
            r@ == "current_time"@,
    {
        "current_time"
    }

    /// The schema of the tool.
    pub fn schema(&self) -> (r: Json)
        ensures
            r@ == current_time_schema(),
    {
        function_schema(
            "current_time",
            "获取运行机器的当前本地时间",
            parameters(Json::empty()),
        )
    }

    /// Tells the given time, as long as the arguments are JSON.
    pub fn execute_at(&self, raw_args: &str, now: String) -> (r: ToolOutput)
        ensures
            r@ == match json_parse(raw_args@) {
                Ok(_) => success(now@),
                Err(e) => failure(e),
            },
    {
        match parse(raw_args) {
            Ok(_) => ToolOutput::success(now),
            Err(e) => ToolOutput::failure(&e),
        }
    }

    /// Tells the present local time in the form of RFC 3339, as long as the
    /// arguments are JSON.
    pub fn execute(&self, raw_args: &str) -> (r: ToolOutput)
        ensures
            match json_parse(raw_args@) {
                Ok(_) => !r.is_error && is_rfc3339(r@.content),
                Err(e) => r@ == failure(e),
            },
    {
        let now = local_now();
        self.execute_at(raw_args, now)
    }
}

/// A tool that waits, by which cancelling and timeouts can be tried out.
#[derive(Clone, Copy, Debug)]
pub struct WaitForTool;

pub open spec fn wait_for_schema() -> JsonView {
    function_spec(
        "wait_for"@,
        "等待指定秒数，用于测试工具执行中的取消和超时；不要用于普通任务"@,
        required_spec(
            obj().with("seconds"@, described_spec("number"@, "等待秒数，范围 1 到 120"@)),
            seq!["seconds"],
        ),
    )
}

/// The span that the arguments of a call ask for: a number, whose range is not
/// looked at yet, or the output that rejects them.
pub open spec fn span_of(raw_args: Seq<char>) -> Result<JsonView, OutputView> {
    match json_parse(raw_args) {
        Ok(args) if args.at("seconds"@).is_number() => Ok(args.at("seconds"@)),
        _ => Err(failure("seconds 必须是 1 到 120 之间的数字"@)),
    }
}

impl WaitForTool {
    /// The name of the tool.
    pub fn name(&self) -> (r: &'static str)
        ensures
            r@ == "wait_for"@,
    {
        "wait_for"
    }

    /// The schema of the tool.
    pub fn schema(&self) -> (r: Json)
        ensures
            r@ == wait_for_schema(),
    {
        let properties = Json::empty().put(
            "seconds",
            described("number", "等待秒数，范围 1 到 120"),
        );
        let required: [&str; 1] = ["seconds"];
        assert(required@ =~= seq!["seconds"]);
        function_schema(
            "wait_for",
            "等待指定秒数，用于测试工具执行中的取消和超时；不要用于普通任务",
            parameters_with(properties, &required),
        )
    }

    /// The span that the arguments of a call ask for, or the output that
    /// rejects arguments that are no JSON or hold no number.
    pub fn seconds(&self, raw_args: &str) -> (r: Result<Json, ToolOutput>)
        ensures
            match r {
                Ok(n) => span_of(raw_args@) == Ok::<JsonView, OutputView>(n@),
                Err(o) => span_of(raw_args@) == Err::<JsonView, OutputView>(o@),
            },
    {
        let args = match parse(raw_args) {
            Ok(args) => args,
            Err(_) => {
                return Err(self.rejected());
            },
        };
        match args.get("seconds") {
            Some(Json::Unsigned(n)) => Ok(Json::Unsigned(*n)),
            Some(Json::Signed(n)) => Ok(Json::Signed(*n)),
            Some(Json::Float(t)) => Ok(Json::Float(t.clone())),
            _ => Err(self.rejected()),
        }
    }

    /// The output for a span that is out of range.
    pub fn rejected(&self) -> (r: ToolOutput)
        ensures
            r@ == failure("seconds 必须是 1 到 120 之间的数字"@),
    {
        ToolOutput::failure("seconds 必须是 1 到 120 之间的数字")
    }

    /// The output after a wait of a span that is given with one decimal.
    pub fn waited(&self, seconds: &str) -> (r: ToolOutput)
        ensures
            r@ == success("已等待 "@ + seconds@ + " 秒"@),
    {
        let mut text = "已等待 ".to_owned();
        text.append(seconds);
        text.append(" 秒");
        ToolOutput::success(text)
    }
}

} // verus!
