//! The requests and replies of the browser interface, and what each request
//! asks the commands to do.
use vstd::prelude::*;
use crate::add::opt_str;
use crate::validator::name_seq;

verus! {

/// The reply to a command: whether it ran and what it printed.
pub struct CommandResult {
    pub ok: bool,
    pub output: String,
}

/// A command that ran, with what it printed.
pub fn ok(output: String) -> (r: CommandResult)
    ensures
        r.ok,
        r.output@ == output@,
{
    CommandResult { ok: true, output }
}

pub struct InitRequest {
    pub name: String,
    pub depth: Option<u8>,
    pub lang: Option<String>,
    pub libs: Option<Vec<String>>,
    pub blueprint: Option<String>,
    pub path: Option<String>,
}

/// The arguments that `init` runs with.
pub struct InitArgs {
    pub name: String,
    pub depth: u8,
    pub lang: Option<String>,
    pub libs: Vec<String>,
    pub blueprint: Option<String>,
    pub path: Option<String>,
}

/// A request's `init` arguments: depth 2 and no libraries unless given.
pub fn init_args(req: InitRequest) -> (r: InitArgs)
    ensures
        r.name@ == req.name@,
        r.depth == match req.depth {
            Some(d) => d,
            None => 2u8,
        },
        opt_str(r.lang) == opt_str(req.lang),
        name_seq(r.libs@) == match req.libs {
            Some(l) => name_seq(l@),
            None => Seq::empty(),
        },
        opt_str(r.blueprint) == opt_str(req.blueprint),
        opt_str(r.path) == opt_str(req.path),
{
    let InitRequest { name, depth, lang, libs, blueprint, path } = req;
    let depth = match depth {
        Some(d) => d,
        None => 2,
    };
    let libs = match libs {
        Some(l) => l,
        None => {
            let v: Vec<String> = Vec::new();
            proof {
                assert(name_seq(v@) =~= Seq::<Seq<char>>::empty());
            }
            v
        },
    };
    InitArgs { name, depth, lang, libs, blueprint, path }
}

pub struct ConvertRequest {
    pub target: Option<String>,
    pub second: Option<String>,
}

pub struct FmtRequest {
    pub folder: Option<String>,
    pub dry_run: Option<bool>,
}

/// A request's `fmt` arguments: the folder, and a dry run only when asked.
pub fn fmt_args(req: FmtRequest) -> (r: (Option<String>, bool))
    ensures
        opt_str(r.0) == opt_str(req.folder),
        r.1 == (req.dry_run == Some(true)),
{
    let dry = match req.dry_run {
        Some(d) => d,
        None => false,
    };
    (req.folder, dry)
}

pub struct BlueprintSaveRequest {
    pub path: String,
    pub content: String,
}

/// The reply to saving a blueprint.
pub struct SaveResult {
    pub ok: bool,
    pub error: Option<String>,
}

/// The reply for what writing the blueprint gave: the first error, if any.
pub fn save_result(written: Result<(), String>) -> (r: SaveResult)
    ensures
        r.ok == (written is Ok),
        opt_str(r.error) == match written {
            Ok(_) => None,
            Err(e) => Some(e@),
        },
{
    match written {
        Ok(_) => SaveResult { ok: true, error: None },
        Err(e) => SaveResult { ok: false, error: Some(e) },
    }
}

} // verus!
