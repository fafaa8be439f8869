//! Warnings for global flags that have no effect on the chosen subcommand.

use vstd::prelude::*;
use crate::cli::{Cli, Command, OperationField, StatusField};
use crate::text::concat3;

verus! {

pub open spec fn subcommand_name_spec(cmd: &Command) -> Seq<char> {
    match cmd {
        Command::Info { .. } => "info"@,
        Command::Spec { .. } => "spec"@,
        Command::Stats { .. } => "stats"@,
        Command::Overview { .. } => "overview"@,
        Command::Paths { .. } => "paths"@,
        Command::Operations { .. } => "operations"@,
        Command::Operation { .. } => "operation"@,
        Command::Requests { .. } => "requests"@,
        Command::Request { .. } => "request"@,
        Command::Responses { .. } => "responses"@,
        Command::Statuses { .. } => "statuses"@,
        Command::Response { .. } => "response"@,
        Command::Search { .. } => "search"@,
        Command::Tags { .. } => "tags"@,
        Command::Components { .. } => "components"@,
        Command::Schemas { .. } => "schemas"@,
        Command::Schema { .. } => "schema"@,
        Command::Validate { .. } => "validate"@,
        Command::Convert { .. } => "convert"@,
    }
}

pub open spec fn status_field_resolves(f: StatusField) -> bool {
    f == StatusField::Schema || f == StatusField::Headers || f == StatusField::Content || f == StatusField::All
}

pub open spec fn operation_field_resolves(f: OperationField) -> bool {
    f == OperationField::Parameters || f == OperationField::Request || f == OperationField::Response
        || f == OperationField::All
}

/// Whether this invocation will actually traverse `$ref`s: `operations` only when
/// `--show` pulls in parameters, the request or the responses, and `statuses`
/// only when it pulls in schemas, headers or content.
pub open spec fn resolves_refs_spec(cmd: &Command) -> bool {
    match cmd {
        Command::Statuses { status_show, .. } => exists|i: int|
            0 <= i < status_show@.len() && status_field_resolves(#[trigger] status_show@[i]),
        Command::Operations { op_show, .. } => exists|i: int|
            0 <= i < op_show@.len() && operation_field_resolves(#[trigger] op_show@[i]),
        Command::Operation { .. } | Command::Request { .. } | Command::Response { .. } | Command::Requests { .. }
        | Command::Responses { .. } | Command::Schema { .. } => true,
        _ => false,
    }
}

/// Commands that could ever resolve `$ref`s, whatever their flags.
pub open spec fn can_touch_refs_spec(cmd: &Command) -> bool {
    match cmd {
        Command::Info { .. } | Command::Spec { .. } | Command::Stats { .. } | Command::Overview { .. }
        | Command::Paths { .. } | Command::Tags { .. } | Command::Components { .. } | Command::Schemas { .. }
        | Command::Search { .. } | Command::Validate { .. } | Command::Convert { .. } => false,
        _ => true,
    }
}

pub open spec fn uses_show_null_spec(cmd: &Command) -> bool {
    cmd is Info || cmd is Overview || cmd is Components
}

pub open spec fn max_depth_warning(name: Seq<char>) -> Seq<char> {
    "warning: --max-depth has no effect on `"@ + name
        + "` with these flags (it only applies when $refs are resolved)"@
}

pub open spec fn no_resolve_warning(name: Seq<char>) -> Seq<char> {
    "warning: --no-resolve-refs has no effect on `"@ + name + "` (it does not resolve $refs)"@
}

pub open spec fn show_null_warning(name: Seq<char>) -> Seq<char> {
    "warning: --show-null has no effect on `"@ + name + "`"@
}

/// The warnings of an invocation, in order.
pub open spec fn warnings_spec(args: &Cli) -> Seq<Seq<char>> {
    let name = subcommand_name_spec(&args.command);
    (if args.max_depth is Some && !resolves_refs_spec(&args.command) {
        seq![max_depth_warning(name)]
    } else {
        Seq::empty()
    }) + (if args.no_resolve_refs && !can_touch_refs_spec(&args.command) {
        seq![no_resolve_warning(name)]
    } else {
        Seq::empty()
    }) + (if args.show_null && !uses_show_null_spec(&args.command) {
        seq![show_null_warning(name)]
    } else {
        Seq::empty()
    })
}

/// A list of warnings for flags that were explicitly set but have no effect on the
/// chosen subcommand with the given arguments.
pub fn for_invocation(args: &Cli) -> (out: Vec<String>)
    ensures
        out@.len() == warnings_spec(args).len(),
        forall|i: int| 0 <= i < out@.len() ==> #[trigger] out@[i]@ == warnings_spec(args)[i],
{
    let mut out: Vec<String> = Vec::new();
    let cmd_name = subcommand_name(&args.command);
    let ghost name = subcommand_name_spec(&args.command);
    let ghost w1: Seq<Seq<char>> = if args.max_depth is Some && !resolves_refs_spec(&args.command) {
        seq![max_depth_warning(name)]
    } else {
        Seq::empty()
    };
    let ghost w2: Seq<Seq<char>> = if args.no_resolve_refs && !can_touch_refs_spec(&args.command) {
        seq![no_resolve_warning(name)]
    } else {
        Seq::empty()
    };
    let ghost w3: Seq<Seq<char>> = if args.show_null && !uses_show_null_spec(&args.command) {
        seq![show_null_warning(name)]
    } else {
        Seq::empty()
    };
    if args.max_depth.is_some() && !command_resolves_refs(&args.command) {
        out.push(concat3(
            "warning: --max-depth has no effect on `",
            cmd_name,
            "` with these flags (it only applies when $refs are resolved)",
        ));
    }
    assert(out@.len() == w1.len() && forall|i: int| 0 <= i < w1.len() ==> out@[i]@ == w1[i]);
    if args.no_resolve_refs && !command_can_touch_refs(&args.command) {
        out.push(concat3("warning: --no-resolve-refs has no effect on `", cmd_name, "` (it does not resolve $refs)"));
    }
    assert(out@.len() == (w1 + w2).len() && forall|i: int| 0 <= i < (w1 + w2).len() ==> out@[i]@ == (w1 + w2)[i]);
    if args.show_null && !command_uses_show_null(&args.command) {
        out.push(concat3("warning: --show-null has no effect on `", cmd_name, "`"));
    }
    assert(warnings_spec(args) == w1 + w2 + w3);
    out
}

fn subcommand_name(cmd: &Command) -> (r: &'static str)
    ensures
        r@ == subcommand_name_spec(cmd),
{
    match cmd {
        Command::Info { .. } => "info",
        Command::Spec { .. } => "spec",
        Command::Stats { .. } => "stats",
        Command::Overview { .. } => "overview",
        Command::Paths { .. } => "paths",
        Command::Operations { .. } => "operations",
        Command::Operation { .. } => "operation",
        Command::Requests { .. } => "requests",
        Command::Request { .. } => "request",
        Command::Responses { .. } => "responses",
        Command::Statuses { .. } => "statuses",
        Command::Response { .. } => "response",
        Command::Search { .. } => "search",
        Command::Tags { .. } => "tags",
        Command::Components { .. } => "components",
        Command::Schemas { .. } => "schemas",
        Command::Schema { .. } => "schema",
        Command::Validate { .. } => "validate",
        Command::Convert { .. } => "convert",
    }
}

fn command_resolves_refs(cmd: &Command) -> (r: bool)
    ensures
        r == resolves_refs_spec(cmd),
{
    match cmd {
        Command::Statuses { status_show: show, .. } => {
            let mut i: usize = 0;
            while i < show.len()
                invariant
                    i <= show.len(),
                    cmd is Statuses,
                    cmd->status_show == *show,
                    forall|k: int| 0 <= k < i ==> !status_field_resolves(#[trigger] show@[k]),
                decreases show.len() - i,
            {
                let f = show[i];
                if f == StatusField::Schema || f == StatusField::Headers || f == StatusField::Content
                    || f == StatusField::All {
                    assert(status_field_resolves(show@[i as int]));
                    return true;
                }
                i = i + 1;
            }
            false
        },
        Command::Operations { op_show: show, .. } => {
            let mut i: usize = 0;
            while i < show.len()
                invariant
                    i <= show.len(),
                    cmd is Operations,
                    cmd->op_show == *show,
                    forall|k: int| 0 <= k < i ==> !operation_field_resolves(#[trigger] show@[k]),
                decreases show.len() - i,
            {
                let f = show[i];
                if f == OperationField::Parameters || f == OperationField::Request || f == OperationField::Response
                    || f == OperationField::All {
                    assert(operation_field_resolves(show@[i as int]));
                    return true;
                }
                i = i + 1;
            }
            false
        },
        Command::Operation { .. } | Command::Request { .. } | Command::Response { .. } | Command::Requests { .. }
        | Command::Responses { .. } | Command::Schema { .. } => true,
        _ => false,
    }
}

fn command_can_touch_refs(cmd: &Command) -> (r: bool)
    ensures
        r == can_touch_refs_spec(cmd),
{
    match cmd {
        Command::Info { .. } | Command::Spec { .. } | Command::Stats { .. } | Command::Overview { .. }
        | Command::Paths { .. } | Command::Tags { .. } | Command::Components { .. } | Command::Schemas { .. }
        | Command::Search { .. } | Command::Validate { .. } | Command::Convert { .. } => false,
        _ => true,
    }
}

fn command_uses_show_null(cmd: &Command) -> (r: bool)
    ensures
        r == uses_show_null_spec(cmd),
{
    match cmd {
        Command::Info { .. } | Command::Overview { .. } | Command::Components { .. } => true,
        _ => false,
    }
}

} // verus!
