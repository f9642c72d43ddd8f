//! The machine envelope and human/JSON output of commands.

use crate::error::{exit_code, Fault, HitError};
use crate::json::print::indented;
use crate::json::{Json, JsonMap, JsonValue};
use crate::text::cat;
use vstd::prelude::*;
use vstd::string::*;

verus! {

#[derive(Debug)]
pub struct CommandOutput {
    pub data: JsonValue,
    pub human: String,
    pub exit_code: i32,
}

/// What is printed for an outcome, line by line, and the process exit code.
#[derive(Debug)]
pub struct Printed {
    /// A line for stdout.
    pub out: Option<String>,
    /// A line for stderr.
    pub err: Option<String>,
    pub exit_code: i32,
}

// ---------------------------------------------------------------- model

pub struct OutputShape {
    pub data: Json,
    pub human: Seq<char>,
    pub exit_code: i32,
}

pub struct PrintedShape {
    pub out: Option<Seq<char>>,
    pub err: Option<Seq<char>>,
    pub exit_code: i32,
}

impl View for CommandOutput {
    type V = OutputShape;

    open spec fn view(&self) -> OutputShape {
        OutputShape { data: self.data@, human: self.human@, exit_code: self.exit_code }
    }
}

impl View for Printed {
    type V = PrintedShape;

    open spec fn view(&self) -> PrintedShape {
        PrintedShape {
            out: self.out.deep_view(),
            err: self.err.deep_view(),
            exit_code: self.exit_code,
        }
    }
}

/// The envelope of a success.
pub open spec fn success_envelope(data: Json) -> Json {
    Json::Object(
        seq![("ok"@, Json::Bool(true)), ("data"@, data), ("error"@, Json::Null)],
    )
}

/// The envelope of a failure.
pub open spec fn failure_envelope(fault: Fault) -> Json {
    Json::Object(
        seq![
            ("ok"@, Json::Bool(false)),
            ("data"@, Json::Null),
            (
                "error"@,
                Json::Object(
                    seq![
                        ("kind"@, Json::Text(fault.kind())),
                        ("message"@, Json::Text(fault.message())),
                    ],
                ),
            ),
        ],
    )
}

/// What is printed: the envelope on stdout in JSON mode, human text otherwise;
/// errors go to stderr in human mode.
pub open spec fn printed(json_mode: bool, result: Result<OutputShape, Fault>) -> PrintedShape {
    match result {
        Ok(output) => PrintedShape {
            out: if json_mode {
                Some(indented(success_envelope(output.data), Seq::empty()))
            } else if output.human.len() > 0 {
                Some(output.human)
            } else {
                None
            },
            err: None,
            exit_code: output.exit_code,
        },
        Err(fault) => PrintedShape {
            out: if json_mode {
                Some(indented(failure_envelope(fault), Seq::empty()))
            } else {
                None
            },
            err: if json_mode {
                None
            } else {
                Some("error: "@ + fault.message())
            },
            exit_code: fault.exit_code(),
        },
    }
}

pub open spec fn outcome_of(result: Result<CommandOutput, HitError>) -> Result<OutputShape, Fault> {
    match result {
        Ok(output) => Ok(output@),
        Err(e) => Err(e@),
    }
}

// ---------------------------------------------------------------- operations

impl CommandOutput {
    pub fn ok(data: JsonValue, human: String) -> (r: CommandOutput)
        ensures
            r@ == (OutputShape { data: data@, human: human@, exit_code: exit_code::OK }),
    {
        CommandOutput { data, human, exit_code: exit_code::OK }
    }

    pub fn with_exit(self, code: i32) -> (r: CommandOutput)
        ensures
            r@ == (OutputShape { exit_code: code, ..self@ }),
    {
        CommandOutput { data: self.data, human: self.human, exit_code: code }
    }
}

/// What is printed for an outcome.
pub fn print_result(json_mode: bool, result: Result<CommandOutput, HitError>) -> (r: Printed)
    ensures
        r@ == printed(json_mode, outcome_of(result)),
{
    match result {
        Ok(output) => {
            let ghost shown = output@;
            let out = if json_mode {
                let mut map = JsonMap::new();
                map.append("ok", JsonValue::Bool(true));
                map.append("data", output.data);
                map.append("error", JsonValue::Null);
                assert(map@ =~= success_envelope(shown.data)->Object_0);
                let envelope = JsonValue::Object(map);
                Some(envelope.to_text_pretty())
            } else if !output.human.as_str().is_empty() {
                Some(output.human)
            } else {
                None
            };
            Printed { out, err: None, exit_code: output.exit_code }
        },
        Err(error) => {
            let message = error.message();
            let code = error.exit_code();
            if json_mode {
                let mut detail = JsonMap::new();
                detail.append_text("kind", error.kind());
                detail.append_text("message", message.as_str());
                assert(detail@ =~= seq![
                    ("kind"@, Json::Text(error@.kind())),
                    ("message"@, Json::Text(error@.message())),
                ]);
                let mut map = JsonMap::new();
                map.append("ok", JsonValue::Bool(false));
                map.append("data", JsonValue::Null);
                map.append("error", JsonValue::Object(detail));
                assert(map@ =~= failure_envelope(error@)->Object_0);
                let envelope = JsonValue::Object(map);
                Printed { out: Some(envelope.to_text_pretty()), err: None, exit_code: code }
            } else {
                Printed { out: None, err: Some(cat("error: ", message.as_str())), exit_code: code }
            }
        },
    }
}

// ---------------------------------------------------------------- laws

/// In JSON mode every outcome is exactly one envelope on stdout.
pub proof fn law_json_mode_prints_one_envelope(result: Result<OutputShape, Fault>)
    ensures
        printed(true, result).out is Some,
        printed(true, result).err is None,
{
}

/// The exit code does not depend on the output mode.
pub proof fn law_exit_code_ignores_the_mode(result: Result<OutputShape, Fault>)
    ensures
        printed(true, result).exit_code == printed(false, result).exit_code,
{
}

} // verus!
