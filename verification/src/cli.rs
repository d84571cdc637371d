//! The command line: which mode the program runs in, how a command and its
//! arguments are read, and how a line typed at the prompt is split.
use vstd::prelude::*;
use crate::add::opt_str;
use crate::text::{chars_of, string_of, str_is, is_ws, is_whitespace, trim_start_seq};
use crate::tools::take_word;
use crate::validator::name_seq;

verus! {

// ── Numbers ───────────────────────────────────────────────────────────────────

pub open spec fn is_dec_digit(c: char) -> bool {
    '0' <= c && c <= '9'
}

/// The value of a run of decimal digits.
pub open spec fn dec_val(d: Seq<char>) -> nat
    decreases d.len(),
{
    if d.len() == 0 { 0 } else { dec_val(d.drop_last()) * 10 + (d.last() as nat - '0' as nat) as nat }
}

/// What `u8::from_str` reads from a text: an optional `+`, then one or
/// more decimal digits whose value is at most 255.
pub open spec fn u8_text(s: Seq<char>) -> Option<nat> {
    let d = unsigned_digits(s);
    if d.len() > 0 && all_dec(d) && dec_val(d) <= 255 {
        Some(dec_val(d))
    } else {
        None
    }
}

/// The digits of an unsigned number's text: after an optional `+`.
pub open spec fn unsigned_digits(s: Seq<char>) -> Seq<char> {
    if s.len() > 0 && s[0] == '+' { s.drop_first() } else { s }
}

pub open spec fn all_dec(d: Seq<char>) -> bool {
    forall|i: int| 0 <= i < d.len() ==> is_dec_digit(#[trigger] d[i])
}

proof fn lemma_dec_val_grows(d: Seq<char>, k: int)
    requires
        0 <= k <= d.len(),
        forall|i: int| 0 <= i < d.len() ==> is_dec_digit(#[trigger] d[i]),
    ensures
        dec_val(d.subrange(0, k)) <= dec_val(d),
    decreases d.len() - k,
{
    if k < d.len() {
        lemma_dec_val_grows(d, k + 1);
        assert(d.subrange(0, k + 1).drop_last() =~= d.subrange(0, k));
        assert(d.subrange(0, k + 1).last() == d[k]);
        assert(is_dec_digit(d[k]));
    } else {
        assert(d.subrange(0, k) =~= d);
    }
}

/// `u8::from_str`.
pub fn parse_u8(s: &str) -> (r: Option<u8>)
    ensures
        match u8_text(s@) {
            Some(v) => r == Some(v as u8),
            None => r is None,
        },
{
    let v = chars_of(s);
    let n = v.len();
    let start: usize = if n > 0 && v[0] == '+' { 1 } else { 0 };
    let ghost d = unsigned_digits(s@);
    proof {
        assert(v@.subrange(start as int, n as int) =~= d);
    }
    if start == n {
        return None;
    }
    let mut acc: u32 = 0;
    let mut i = start;
    proof {
        assert(d.subrange(0, 0) =~= Seq::<char>::empty());
    }
    while i < n
        invariant
            start <= i <= n == v@.len(),
            v@ == s@,
            d == unsigned_digits(s@),
            d.len() > 0,
            v@.subrange(start as int, n as int) == d,
            acc == dec_val(d.subrange(0, i - start)),
            acc <= 255,
            forall|k: int| 0 <= k < i - start ==> is_dec_digit(#[trigger] d[k]),
        decreases n - i,
    {
        let c = v[i];
        proof {
            assert(d[i - start] == c);
            assert(d.subrange(0, i - start + 1).drop_last() =~= d.subrange(0, i - start));
            assert(d.subrange(0, i - start + 1).last() == c);
        }
        if !('0' <= c && c <= '9') {
            proof {
                assert(!is_dec_digit(d[i - start]));
                assert(!all_dec(d));
                assert(u8_text(s@) is None);
            }
            return None;
        }
        acc = acc * 10 + ((c as u32) - ('0' as u32));
        proof {
            assert(dec_val(d.subrange(0, i - start + 1)) == acc as nat);
        }
        if acc > 255 {
            proof {
                if all_dec(d) {
                    lemma_dec_val_grows(d, i - start + 1);
                }
                assert(u8_text(s@) is None);
            }
            return None;
        }
        i = i + 1;
    }
    proof {
        assert(d.subrange(0, n - start) =~= d);
    }
    Some(acc as u8)
}

// ── init ──────────────────────────────────────────────────────────────────────

/// The options of `init`.
pub struct InitOptions {
    pub name: String,
    pub depth: u8,
    pub blueprint: Option<String>,
    pub lang: Option<String>,
    pub libs: Vec<String>,
    pub path: Option<String>,
}

pub struct InitV {
    pub name: Seq<char>,
    pub depth: nat,
    pub blueprint: Option<Seq<char>>,
    pub lang: Option<Seq<char>>,
    pub libs: Seq<Seq<char>>,
    pub path: Option<Seq<char>>,
}

impl View for InitOptions {
    type V = InitV;

    open spec fn view(&self) -> InitV {
        InitV {
            name: self.name@,
            depth: self.depth as nat,
            blueprint: opt_str(self.blueprint),
            lang: opt_str(self.lang),
            libs: name_seq(self.libs@),
            path: opt_str(self.path),
        }
    }
}

/// Reads the options from position `i` on.
pub open spec fn init_scan(args: Seq<Seq<char>>, i: nat, acc: InitV) -> Result<InitV, Seq<char>>
    decreases args.len() - i,
{
    if i >= args.len() {
        Ok(acc)
    } else {
        let a = args[i as int];
        let has_value = i + 1 < args.len();
        let val = if has_value { args[i + 1 as int] } else { Seq::empty() };
        if a == "--depth"@ {
            if !has_value {
                Err("--depth requires a value"@)
            } else {
                match u8_text(val) {
                    Some(d) => init_scan(args, i + 2, InitV { depth: d, ..acc }),
                    None => Err("--depth must be a number between 1 and 6"@),
                }
            }
        } else if a == "--lang"@ {
            if !has_value { Err("--lang requires a value"@) } else { init_scan(args, i + 2, InitV { lang: Some(val), ..acc }) }
        } else if a == "--lib"@ {
            if !has_value { Err("--lib requires a value"@) } else { init_scan(args, i + 2, InitV { libs: acc.libs.push(val), ..acc }) }
        } else if a == "--blueprint"@ {
            if !has_value {
                Err("--blueprint requires a value"@)
            } else {
                init_scan(args, i + 2, InitV { blueprint: Some(val), ..acc })
            }
        } else if a == "--path"@ {
            if !has_value { Err("--path requires a value"@) } else { init_scan(args, i + 2, InitV { path: Some(val), ..acc }) }
        } else {
            Err("unknown option: '"@ + a + "'"@)
        }
    }
}

/// The options of `init <name> [--depth N] [--lang ext] [--lib header]
/// [--blueprint file] [--path dir]`: depth 2 unless given, later
/// repetitions winning (each `--lib` adding one).
pub open spec fn init_args_spec(args: Seq<Seq<char>>) -> Result<InitV, Seq<char>> {
    if args.len() == 0 {
        Err("missing project name"@)
    } else {
        init_scan(args, 1, InitV { name: args[0], depth: 2, blueprint: None, lang: None, libs: Seq::empty(), path: None })
    }
}

fn msg(s: &str) -> (r: String)
    ensures
        r@ == s@,
{
    String::from_str(s)
}

pub fn parse_init_args(args: &Vec<String>) -> (r: Result<InitOptions, String>)
    ensures
        match (r, init_args_spec(name_seq(args@))) {
            (Ok(o), Ok(v)) => o@ == v,
            (Err(m), Err(x)) => m@ == x,
            _ => false,
        },
{
    let ghost av = name_seq(args@);
    if args.len() == 0 {
        return Err(msg("missing project name"));
    }
    let mut o = InitOptions {
        name: args[0].clone(),
        depth: 2,
        blueprint: None,
        lang: None,
        libs: Vec::new(),
        path: None,
    };
    proof {
        assert(name_seq(o.libs@) =~= Seq::<Seq<char>>::empty());
    }
    let mut i: usize = 1;
    while i < args.len()
        invariant
            1 <= i,
            av == name_seq(args@),
            av.len() == args@.len(),
            init_args_spec(av) == init_scan(av, i as nat, o@),
        decreases args@.len() - i,
    {
        let a = args[i].as_str();
        let has_value = i + 1 < args.len();
        proof {
            assert(av[i as int] == args@[i as int]@);
            if has_value {
                assert(av[i + 1] == args@[i + 1]@);
            }
        }
        if str_is(a, "--depth") {
            if !has_value {
                return Err(msg("--depth requires a value"));
            }
            match parse_u8(args[i + 1].as_str()) {
                Some(d) => {
                    o.depth = d;
                },
                None => {
                    return Err(msg("--depth must be a number between 1 and 6"));
                },
            }
        } else if str_is(a, "--lang") {
            if !has_value {
                return Err(msg("--lang requires a value"));
            }
            o.lang = Some(args[i + 1].clone());
        } else if str_is(a, "--lib") {
            if !has_value {
                return Err(msg("--lib requires a value"));
            }
            let ghost before = name_seq(o.libs@);
            o.libs.push(args[i + 1].clone());
            proof {
                assert(name_seq(o.libs@) =~= before.push(args@[i + 1]@));
            }
        } else if str_is(a, "--blueprint") {
            if !has_value {
                return Err(msg("--blueprint requires a value"));
            }
            o.blueprint = Some(args[i + 1].clone());
        } else if str_is(a, "--path") {
            if !has_value {
                return Err(msg("--path requires a value"));
            }
            o.path = Some(args[i + 1].clone());
        } else {
            let mut m = String::from_str("unknown option: '");
            m.append(a);
            m.append("'");
            return Err(m);
        }
        i = i + 2;
    }
    Ok(o)
}

// ── fmt ───────────────────────────────────────────────────────────────────────

/// The folder `fmt` is given: the last argument other than `--dry-run`.
pub open spec fn fmt_folder(args: Seq<Seq<char>>) -> Option<Seq<char>>
    decreases args.len(),
{
    if args.len() == 0 {
        None
    } else if args.last() != "--dry-run"@ {
        Some(args.last())
    } else {
        fmt_folder(args.drop_last())
    }
}

pub fn parse_fmt_args(args: &Vec<String>) -> (r: (Option<String>, bool))
    ensures
        opt_str(r.0) == fmt_folder(name_seq(args@)),
        r.1 == name_seq(args@).contains("--dry-run"@),
{
    let ghost av = name_seq(args@);
    let mut folder: Option<String> = None;
    let mut dry = false;
    let mut i: usize = 0;
    proof {
        assert(av.subrange(0, 0) =~= Seq::<Seq<char>>::empty());
    }
    while i < args.len()
        invariant
            i <= args@.len(),
            av == name_seq(args@),
            opt_str(folder) == fmt_folder(av.subrange(0, i as int)),
            dry == av.subrange(0, i as int).contains("--dry-run"@),
        decreases args@.len() - i,
    {
        proof {
            assert(av.subrange(0, i + 1).drop_last() =~= av.subrange(0, i as int));
            assert(av.subrange(0, i + 1).last() == args@[i as int]@);
            assert(av.subrange(0, i + 1) =~= av.subrange(0, i as int).push(args@[i as int]@));
        }
        if str_is(args[i].as_str(), "--dry-run") {
            dry = true;
        } else {
            folder = Some(args[i].clone());
        }
        i = i + 1;
    }
    proof {
        assert(av.subrange(0, args@.len() as int) =~= av);
    }
    (folder, dry)
}

// ── Dispatch ──────────────────────────────────────────────────────────────────

/// How the program runs.
pub enum RunMode {
    /// As a language server.
    Lsp,
    /// One command from the arguments.
    Command,
    /// The interactive prompt.
    Repl,
}

pub open spec fn run_mode_spec(args: Seq<Seq<char>>) -> RunMode {
    if args.len() > 1 && args[1] == "lsp"@ {
        RunMode::Lsp
    } else if args.len() > 1 && args[1] != "--cli"@ && args[1] != "--gui"@ {
        RunMode::Command
    } else {
        RunMode::Repl
    }
}

/// The mode for the program's arguments (the program's own name first).
pub fn run_mode(args: &Vec<String>) -> (r: RunMode)
    ensures
        r == run_mode_spec(name_seq(args@)),
{
    proof {
        if args@.len() > 1 {
            assert(name_seq(args@)[1] == args@[1]@);
        }
    }
    if args.len() > 1 && str_is(args[1].as_str(), "lsp") {
        RunMode::Lsp
    } else if args.len() > 1 && !str_is(args[1].as_str(), "--cli") && !str_is(args[1].as_str(), "--gui") {
        RunMode::Command
    } else {
        RunMode::Repl
    }
}

/// A command with its arguments read.
pub enum CliCommand {
    Help,
    Check,
    EditorSetup,
    Update,
    Fmt { folder: Option<String>, dry_run: bool },
    /// `init` with no name.
    InitUsage,
    Init(Result<InitOptions, String>),
    Convert { target: Option<String>, second: Option<String> },
    Add(Vec<String>),
    Remove(Vec<String>),
    Unknown(String),
}

pub open spec fn nth(args: Seq<Seq<char>>, i: int) -> Option<Seq<char>> {
    if 0 <= i < args.len() { Some(args[i]) } else { None }
}

pub open spec fn command_ok(cmd: Seq<char>, rest: Seq<Seq<char>>, r: CliCommand) -> bool {
    if cmd == "help"@ {
        r is Help
    } else if cmd == "check"@ {
        r is Check
    } else if cmd == "editor-setup"@ {
        r is EditorSetup
    } else if cmd == "update"@ {
        r is Update
    } else if cmd == "fmt"@ {
        r matches CliCommand::Fmt { folder, dry_run } && opt_str(folder) == fmt_folder(rest)
            && dry_run == rest.contains("--dry-run"@)
    } else if cmd == "init"@ {
        if rest.len() == 0 {
            r is InitUsage
        } else {
            r matches CliCommand::Init(res) && match (res, init_args_spec(rest)) {
                (Ok(o), Ok(v)) => o@ == v,
                (Err(m), Err(x)) => m@ == x,
                _ => false,
            }
        }
    } else if cmd == "convert"@ {
        r matches CliCommand::Convert { target, second } && opt_str(target) == nth(rest, 0) && opt_str(second) == nth(rest, 1)
    } else if cmd == "add"@ {
        r matches CliCommand::Add(a) && name_seq(a@) == rest
    } else if cmd == "remove"@ {
        r matches CliCommand::Remove(a) && name_seq(a@) == rest
    } else {
        r matches CliCommand::Unknown(c) && c@ == cmd
    }
}

fn copy_strings(v: &Vec<String>) -> (r: Vec<String>)
    ensures
        name_seq(r@) == name_seq(v@),
{
    let mut out: Vec<String> = Vec::new();
    let mut i: usize = 0;
    while i < v.len()
        invariant
            i <= v@.len(),
            out@.len() == i,
            forall|j: int| 0 <= j < i ==> (#[trigger] out@[j])@ == v@[j]@,
        decreases v@.len() - i,
    {
        out.push(v[i].clone());
        i = i + 1;
    }
    proof {
        assert(name_seq(out@) =~= name_seq(v@));
    }
    out
}

/// Reads a command and the arguments that follow it.
pub fn cli_command(cmd: &str, rest: &Vec<String>) -> (r: CliCommand)
    ensures
        command_ok(cmd@, name_seq(rest@), r),
{
    if str_is(cmd, "help") {
        CliCommand::Help
    } else if str_is(cmd, "check") {
        CliCommand::Check
    } else if str_is(cmd, "editor-setup") {
        CliCommand::EditorSetup
    } else if str_is(cmd, "update") {
        CliCommand::Update
    } else if str_is(cmd, "fmt") {
        let (folder, dry_run) = parse_fmt_args(rest);
        CliCommand::Fmt { folder, dry_run }
    } else if str_is(cmd, "init") {
        if rest.len() == 0 {
            CliCommand::InitUsage
        } else {
            CliCommand::Init(parse_init_args(rest))
        }
    } else if str_is(cmd, "convert") {
        proof {
            if rest@.len() > 0 {
                assert(name_seq(rest@)[0] == rest@[0]@);
            }
            if rest@.len() > 1 {
                assert(name_seq(rest@)[1] == rest@[1]@);
            }
        }
        let target = if rest.len() > 0 { Some(rest[0].clone()) } else { None };
        let second = if rest.len() > 1 { Some(rest[1].clone()) } else { None };
        CliCommand::Convert { target, second }
    } else if str_is(cmd, "add") {
        CliCommand::Add(copy_strings(rest))
    } else if str_is(cmd, "remove") {
        CliCommand::Remove(copy_strings(rest))
    } else {
        CliCommand::Unknown(String::from_str(cmd))
    }
}

// ── The prompt ────────────────────────────────────────────────────────────────

/// `str::split_whitespace`: the runs of non-whitespace characters.
pub open spec fn words_of(s: Seq<char>) -> Seq<Seq<char>>
    decreases s.len(),
{
    let t = trim_start_seq(s);
    if t.len() == 0 {
        Seq::empty()
    } else {
        let w = take_word(t);
        proof {
            lemma_take_word(t);
            lemma_trim_start_head(s);
            crate::text::lemma_trim_start_len(s);
        }
        seq![w] + words_of(t.subrange(w.len() as int, t.len() as int))
    }
}

pub proof fn lemma_trim_start_head(s: Seq<char>)
    ensures
        trim_start_seq(s).len() > 0 ==> !is_ws(trim_start_seq(s)[0]),
    decreases s.len(),
{
    if s.len() > 0 && is_ws(s[0]) {
        lemma_trim_start_head(s.drop_first());
    }
}

pub proof fn lemma_take_word(s: Seq<char>)
    ensures
        take_word(s).len() <= s.len(),
        s.len() > 0 && !is_ws(s[0]) ==> take_word(s).len() > 0,
        take_word(s) == s.subrange(0, take_word(s).len() as int),
        take_word(s).len() < s.len() ==> is_ws(s[take_word(s).len() as int]),
        forall|i: int| 0 <= i < take_word(s).len() ==> !is_ws(#[trigger] s[i]),
    decreases s.len(),
{
    if s.len() > 0 && !is_ws(s[0]) {
        lemma_take_word(s.drop_first());
        let w = take_word(s.drop_first());
        assert(seq![s[0]] + s.drop_first().subrange(0, w.len() as int) =~= s.subrange(0, w.len() as int + 1));
        assert forall|i: int| 0 <= i < take_word(s).len() implies !is_ws(#[trigger] s[i]) by {
            if i > 0 {
                assert(s[i] == s.drop_first()[i - 1]);
            }
        }
    }
}

/// What a line typed at the prompt does.
pub enum ReplStep {
    /// Nothing was typed.
    Skip,
    /// `exit` ends the prompt.
    Exit,
    /// A command and its arguments.
    Run(Vec<String>),
}

/// Splits a line into words.
pub fn split_words(line: &str) -> (r: Vec<String>)
    ensures
        name_seq(r@) == words_of(line@),
{
    let v = chars_of(line);
    let n = v.len();
    let mut out: Vec<String> = Vec::new();
    let mut i: usize = 0;
    proof {
        assert(v@.subrange(0, n as int) =~= v@);
        assert(name_seq(out@) + words_of(v@) =~= words_of(v@));
    }
    while i < n
        invariant
            i <= n == v@.len(),
            v@ == line@,
            words_of(line@) == name_seq(out@) + words_of(v@.subrange(i as int, n as int)),
        decreases n - i,
    {
        let ghost cur = v@.subrange(i as int, n as int);
        let mut a = i;
        while a < n && is_whitespace(v[a])
            invariant
                i <= a <= n == v@.len(),
                trim_start_seq(cur) == trim_start_seq(v@.subrange(a as int, n as int)),
                cur == v@.subrange(i as int, n as int),
            decreases n - a,
        {
            proof {
                assert(v@.subrange(a as int, n as int).drop_first() =~= v@.subrange(a + 1, n as int));
            }
            a = a + 1;
        }
        let ghost t = v@.subrange(a as int, n as int);
        proof {
            if a < n {
                assert(t[0] == v@[a as int]);
            }
            assert(trim_start_seq(t) == t);
        }
        if a == n {
            proof {
                assert(words_of(cur) =~= Seq::<Seq<char>>::empty());
                assert(name_seq(out@) + Seq::<Seq<char>>::empty() =~= name_seq(out@));
                assert(v@.subrange(n as int, n as int) =~= Seq::<char>::empty());
                assert(words_of(Seq::<char>::empty()) =~= Seq::<Seq<char>>::empty());
            }
            i = n;
        } else {
            let mut b = a;
            while b < n && !is_whitespace(v[b])
                invariant
                    a <= b <= n == v@.len(),
                    forall|k: int| a <= k < b ==> !is_ws(#[trigger] v@[k]),
                decreases n - b,
            {
                b = b + 1;
            }
            proof {
                lemma_take_word(t);
                let w = take_word(t);
                assert(w.len() == b - a) by {
                    if w.len() < b - a {
                        assert(is_ws(t[w.len() as int]));
                        assert(t[w.len() as int] == v@[a + w.len()]);
                    }
                    if w.len() > b - a {
                        assert(!is_ws(t[(b - a) as int]));
                        assert(t[(b - a) as int] == v@[b as int]);
                    }
                }
                assert(w =~= v@.subrange(a as int, b as int));
                assert(t.subrange(w.len() as int, t.len() as int) =~= v@.subrange(b as int, n as int));
            }
            let word = string_of(v.as_slice(), a, b);
            let ghost before = name_seq(out@);
            out.push(word);
            proof {
                assert(name_seq(out@) =~= before.push(word@));
                assert(before + (seq![word@] + words_of(v@.subrange(b as int, n as int)))
                    =~= name_seq(out@) + words_of(v@.subrange(b as int, n as int)));
            }
            i = b;
        }
    }
    proof {
        assert(v@.subrange(n as int, n as int) =~= Seq::<char>::empty());
        assert(words_of(Seq::<char>::empty()) =~= Seq::<Seq<char>>::empty());
        assert(name_seq(out@) + Seq::<Seq<char>>::empty() =~= name_seq(out@));
    }
    out
}

pub open spec fn repl_step_ok(line: Seq<char>, r: ReplStep) -> bool {
    let ws = words_of(line);
    if ws.len() == 0 {
        r is Skip
    } else if ws[0] == "exit"@ {
        r is Exit
    } else {
        r matches ReplStep::Run(p) && name_seq(p@) == ws
    }
}

/// What a line typed at the prompt does.
pub fn repl_step(line: &str) -> (r: ReplStep)
    ensures
        repl_step_ok(line@, r),
{
    let parts = split_words(line);
    if parts.len() == 0 {
        return ReplStep::Skip;
    }
    proof {
        assert(name_seq(parts@)[0] == parts@[0]@);
    }
    if str_is(parts[0].as_str(), "exit") {
        ReplStep::Exit
    } else {
        ReplStep::Run(parts)
    }
}

} // verus!
