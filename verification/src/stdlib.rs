//! The builtins that every backend provides.
use vstd::prelude::*;
use crate::ast::{Backend, BackendV, BuType, Param, TyV, nat_decimal};
use crate::text::{str_is, chars_of, trim_seq, trim_chars};
use crate::templates::{
    template, template_of, arity, arity_of, B_SWAP_C_UNTYPED, B_SWAP_GO_UNTYPED, B_SWAP_GO, B_CLOSE_JAVA_STDIN,
    B_CLOSE_JAVA_STDOUT, B_CLOSE_JAVA_STDERR, B_OUT_JAVA_STD,
};
use crate::go_types::{tuple_go_name, tuple_parts};
use crate::ast::tys_view;
use crate::validator::name_seq;
use crate::typecheck::add_num;

verus! {

/// The names of the core builtins, as written after `builtin::`.
pub open spec fn builtin_names() -> Seq<Seq<char>> {
    seq![
        "min"@, "max"@, "tern"@, "to_upper"@, "to_lower"@, "trim"@, "starts_with"@, "ends_with"@,
        "replace_str"@, "to_string"@, "parse_i64"@, "len"@, "swap"@, "in"@, "out"@, "open"@, "close"@,
        "time"@, "args"@, "run"@, "exit"@, "env"@, "sleep"@,
    ]
}

/// Whether `name` is a core builtin.
pub fn is_known_builtin(name: &str) -> (r: bool)
    ensures
        r == builtin_names().contains(name@),
{
    let names: [&str; 23] = [
        "min", "max", "tern", "to_upper", "to_lower", "trim", "starts_with", "ends_with",
        "replace_str", "to_string", "parse_i64", "len", "swap", "in", "out", "open", "close",
        "time", "args", "run", "exit", "env", "sleep",
    ];
    let mut i: usize = 0;
    while i < 23
        invariant
            i <= 23,
            forall|k: int| 0 <= k < 23 ==> (#[trigger] names@[k])@ == builtin_names()[k],
            forall|k: int| 0 <= k < i ==> builtin_names()[k] != name@,
        decreases 23 - i,
    {
        if str_is(name, names[i]) {
            assert(builtin_names()[i as int] == name@);
            return true;
        }
        i = i + 1;
    }
    proof {
        assert(builtin_names().len() == 23);
        if builtin_names().contains(name@) {
            let k = choose|k: int| 0 <= k < builtin_names().len() && builtin_names()[k] == name@;
            assert(false);
        }
    }
    false
}

// ── Expansion ─────────────────────────────────────────────────────────────────

/// Whether a name is one of Python's keywords.
pub open spec fn py_keyword(n: Seq<char>) -> bool {
    n == "False"@ || n == "None"@ || n == "True"@ || n == "and"@ || n == "as"@ || n == "assert"@
        || n == "async"@ || n == "await"@ || n == "break"@ || n == "class"@ || n == "continue"@ || n == "def"@
        || n == "del"@ || n == "elif"@ || n == "else"@ || n == "except"@ || n == "finally"@ || n == "for"@
        || n == "from"@ || n == "global"@ || n == "if"@ || n == "import"@ || n == "in"@ || n == "is"@
        || n == "lambda"@ || n == "nonlocal"@ || n == "not"@ || n == "or"@ || n == "pass"@ || n == "raise"@
        || n == "return"@ || n == "try"@ || n == "while"@ || n == "with"@ || n == "yield"@
}

/// A parameter name that is a Python keyword gets a trailing `_`.
pub open spec fn py_esc_spec(n: Seq<char>) -> Seq<char> {
    if py_keyword(n) {
        n + "_"@
    } else {
        n
    }
}

pub fn py_esc(n: &str) -> (r: String)
    ensures
        r@ == py_esc_spec(n@),
{
    let kw =
    str_is(n, "False") || str_is(n, "None") || str_is(n, "True") || str_is(n, "and")
        || str_is(n, "as") || str_is(n, "assert") || str_is(n, "async") || str_is(n, "await")
        || str_is(n, "break") || str_is(n, "class") || str_is(n, "continue") || str_is(n, "def")
        || str_is(n, "del") || str_is(n, "elif") || str_is(n, "else") || str_is(n, "except")
        || str_is(n, "finally") || str_is(n, "for") || str_is(n, "from") || str_is(n, "global")
        || str_is(n, "if") || str_is(n, "import") || str_is(n, "in") || str_is(n, "is")
        || str_is(n, "lambda") || str_is(n, "nonlocal") || str_is(n, "not") || str_is(n, "or")
        || str_is(n, "pass") || str_is(n, "raise") || str_is(n, "return") || str_is(n, "try")
        || str_is(n, "while") || str_is(n, "with") || str_is(n, "yield");
    if kw {
        let mut r = String::from_str(n);
        r.append("_");
        r
    } else {
        String::from_str(n)
    }
}

pub open spec fn is_digit_char(c: char) -> bool {
    '0' <= c && c <= '9'
}

/// A template with its holes filled: `\u{1}i` by the `i`-th name,
/// `\u{2}i` by that name escaped for Python, `\u{3}` by `tuple`.
pub open spec fn fill(t: Seq<char>, names: Seq<Seq<char>>, tuple: Seq<char>) -> Seq<char>
    decreases t.len(),
{
    if t.len() == 0 {
        Seq::empty()
    } else if (t[0] == '\u{1}' || t[0] == '\u{2}') && t.len() >= 2 && is_digit_char(t[1]) {
        let d = (t[1] as int) - ('0' as int);
        let v = if d < names.len() {
            if t[0] == '\u{1}' { names[d] } else { py_esc_spec(names[d]) }
        } else {
            Seq::empty()
        };
        v + fill(t.subrange(2, t.len() as int), names, tuple)
    } else if t[0] == '\u{3}' {
        tuple + fill(t.drop_first(), names, tuple)
    } else {
        seq![t[0]] + fill(t.drop_first(), names, tuple)
    }
}

pub fn fill_template(t: &str, names: &Vec<String>, tuple: &str) -> (r: String)
    ensures
        r@ == fill(t@, name_seq(names@), tuple@),
{
    let v = chars_of(t);
    let mut out = String::new();
    let mut i: usize = 0;
    proof {
        assert(v@.subrange(0, v@.len() as int) =~= v@);
        assert(out@ + fill(t@, name_seq(names@), tuple@) =~= fill(t@, name_seq(names@), tuple@));
    }
    while i < v.len()
        invariant
            v@ == t@,
            i <= v@.len(),
            out@ + fill(v@.subrange(i as int, v@.len() as int), name_seq(names@), tuple@) == fill(t@, name_seq(names@), tuple@),
        decreases v@.len() - i,
    {
        let ghost rest = v@.subrange(i as int, v@.len() as int);
        let ghost o0 = out@;
        let c = v[i];
        proof {
            assert(rest[0] == c);
        }
        if (c == '\u{1}' || c == '\u{2}') && i + 1 < v.len() && '0' <= v[i + 1] && v[i + 1] <= '9' {
            let d = (v[i + 1] as u32 - '0' as u32) as usize;
            proof {
                assert(rest[1] == v@[i + 1]);
                assert(rest.subrange(2, rest.len() as int) =~= v@.subrange(i + 2, v@.len() as int));
            }
            if d < names.len() {
                if c == '\u{1}' {
                    out.append(names[d].as_str());
                } else {
                    let e = py_esc(names[d].as_str());
                    out.append(e.as_str());
                }
                proof {
                    assert(name_seq(names@)[d as int] == names@[d as int]@);
                }
            } else {
                proof {
                    assert(out@ =~= o0 + Seq::<char>::empty());
                }
            }
            proof {
                let dd = (rest[1] as int) - ('0' as int);
                assert(dd == d);
                let val = if dd < name_seq(names@).len() {
                    if c == '\u{1}' { name_seq(names@)[dd] } else { py_esc_spec(name_seq(names@)[dd]) }
                } else {
                    Seq::<char>::empty()
                };
                assert(out@ == o0 + val);
                assert(o0 + val + fill(rest.subrange(2, rest.len() as int), name_seq(names@), tuple@)
                    =~= o0 + (val + fill(rest.subrange(2, rest.len() as int), name_seq(names@), tuple@)));
            }
            i = i + 2;
        } else if c == '\u{3}' {
            out.append(tuple);
            proof {
                assert(rest.drop_first() =~= v@.subrange(i + 1, v@.len() as int));
                assert(o0 + tuple@ + fill(rest.drop_first(), name_seq(names@), tuple@) =~= o0 + (tuple@ + fill(rest.drop_first(), name_seq(names@), tuple@)));
            }
            i = i + 1;
        } else {
            crate::text::push_char(&mut out, c);
            proof {
                if rest.len() >= 2 {
                    assert(rest[1] == v@[i + 1]);
                }
                assert(rest.drop_first() =~= v@.subrange(i + 1, v@.len() as int));
                assert(o0.push(c) + fill(rest.drop_first(), name_seq(names@), tuple@) =~= o0 + (seq![c] + fill(rest.drop_first(), name_seq(names@), tuple@)));
            }
            i = i + 1;
        }
    }
    proof {
        assert(v@.subrange(v@.len() as int, v@.len() as int) =~= Seq::<char>::empty());
        assert(out@ + Seq::<char>::empty() =~= out@);
    }
    out
}

pub open spec fn msg_unknown_builtin_code(name: Seq<char>) -> Seq<char> {
    "'builtin::"@ + name + "' is not a known builtin. Run `bullang stdlib --list` to see available builtins. If this is a math/sort function, install mathlib: `bullarchy add mathlib`."@
}

pub open spec fn msg_need(name: Seq<char>, n: nat, got: nat) -> Seq<char> {
    "'builtin::"@ + name + "' requires "@ + nat_decimal(n) + " parameter(s) but the function declares "@ + nat_decimal(got)
}

pub open spec fn msg_no_backend(name: Seq<char>, kw: Seq<char>) -> Seq<char> {
    "'builtin::"@ + name + "' is not available for unknown backend '"@ + kw + "'"@
}

/// The builtins whose code this library holds: all core builtins but
/// `run` and `sleep`.
pub open spec fn has_template(name: Seq<char>) -> bool {
    builtin_names().contains(name) && name != "run"@ && name != "sleep"@
}

pub open spec fn param_names(ps: Seq<Param>) -> Seq<Seq<char>> {
    ps.map_values(|p: Param| p.name@)
}

/// The code that a builtin expands to for a backend, given the parameters
/// it is called with, or why there is none.
pub open spec fn builtin_code(name: Seq<char>, ps: Seq<Param>, b: BackendV) -> Result<Seq<char>, Seq<char>> {
    code_for(name, param_names(ps), ps.map_values(|p: Param| p.ty@), b)
}

/// The code that a builtin expands to for a backend, given the names and the
/// types of the parameters it is called with, or why there is none.
pub open spec fn code_for(name: Seq<char>, names: Seq<Seq<char>>, tys: Seq<TyV>, b: BackendV) -> Result<Seq<char>, Seq<char>> {
    if !has_template(name) {
        Err(msg_unknown_builtin_code(name))
    } else if names.len() != arity(name) {
        Err(msg_need(name, arity(name), names.len()))
    } else {
        match b {
            BackendV::Unknown(kw) => Err(msg_no_backend(name, kw)),
            BackendV::Java => if name == "close"@ && trim_seq(names[0]) == "0"@ {
                Ok(B_CLOSE_JAVA_STDIN@)
            } else if name == "close"@ && trim_seq(names[0]) == "1"@ {
                Ok(B_CLOSE_JAVA_STDOUT@)
            } else if name == "close"@ && trim_seq(names[0]) == "2"@ {
                Ok(B_CLOSE_JAVA_STDERR@)
            } else if name == "out"@ && trim_seq(names[0]) == "1"@ {
                Ok(fill(B_OUT_JAVA_STD@, names, "System.out"@))
            } else if name == "out"@ && trim_seq(names[0]) == "2"@ {
                Ok(fill(B_OUT_JAVA_STD@, names, "System.err"@))
            } else {
                Ok(fill(template(name, b), names, Seq::empty()))
            },
            BackendV::C => if name == "swap"@ {
                Err(fill(B_SWAP_C_UNTYPED@, names, Seq::empty()))
            } else {
                Ok(fill(template(name, b), names, Seq::empty()))
            },
            BackendV::Go => if name == "swap"@ {
                if tys[0] is Unknown {
                    Err(fill(B_SWAP_GO_UNTYPED@, names, Seq::empty()))
                } else {
                    Ok(fill(B_SWAP_GO@, names, "Tuple_"@ + tuple_parts(seq![tys[0], tys[0]])))
                }
            } else {
                Ok(fill(template(name, b), names, Seq::empty()))
            },
            _ => Ok(fill(template(name, b), names, Seq::empty())),
        }
    }
}

/// What the catalogue of builtins promises of every call: a name without a
/// template, or a call with the wrong number of arguments, is refused on
/// every backend; a well-formed call is refused on an unknown backend and,
/// `swap` aside, expands on every known one.
pub proof fn law_builtin_catalogue(name: Seq<char>, ps: Seq<Param>, b: BackendV)
    ensures
        !has_template(name) ==> builtin_code(name, ps, b) is Err,
        has_template(name) && ps.len() != arity(name) ==> builtin_code(name, ps, b) is Err,
        has_template(name) && ps.len() == arity(name) && b is Unknown ==> builtin_code(name, ps, b) is Err,
        has_template(name) && ps.len() == arity(name) && !(b is Unknown) && name != "swap"@
            ==> builtin_code(name, ps, b) is Ok,
{
    assert(param_names(ps).len() == ps.len());
}

fn names_of(ps: &Vec<Param>) -> (r: Vec<String>)
    ensures
        name_seq(r@) == param_names(ps@),
{
    let mut r: Vec<String> = Vec::new();
    let mut i: usize = 0;
    while i < ps.len()
        invariant
            i <= ps@.len(),
            name_seq(r@) == param_names(ps@.subrange(0, i as int)),
        decreases ps@.len() - i,
    {
        let ghost before = r@;
        r.push(ps[i].name.clone());
        proof {
            assert(name_seq(r@) =~= name_seq(before).push(ps@[i as int].name@));
            assert(param_names(ps@.subrange(0, i + 1)) =~= param_names(ps@.subrange(0, i as int)).push(ps@[i as int].name@));
        }
        i = i + 1;
    }
    proof {
        assert(ps@.subrange(0, ps@.len() as int) =~= ps@);
    }
    r
}

fn trim_is(s: &str, lit: &str) -> (r: bool)
    ensures
        r == (trim_seq(s@) == lit@),
{
    let v = chars_of(s);
    proof {
        assert(v@.subrange(0, v@.len() as int) =~= v@);
    }
    let t = trim_chars(v.as_slice(), 0, v.len());
    str_is(t.as_str(), lit)
}

/// Expands a builtin for a backend, with the names of the parameters it is
/// called with.
pub fn emit_builtin(name: &str, params: &Vec<Param>, backend: &Backend) -> (r: Result<String, String>)
    ensures
        match (r, builtin_code(name@, params@, backend@)) {
            (Ok(a), Ok(b)) => a@ == b,
            (Err(a), Err(b)) => a@ == b,
            _ => false,
        },
{
    proof {
        reveal_strlit("");
        assert(""@ =~= Seq::<char>::empty());
        reveal_strlit("run");
        reveal_strlit("sleep");
        reveal_strlit("swap");
        reveal_strlit("close");
        reveal_strlit("out");
    }
    if !is_known_builtin(name) || str_is(name, "run") || str_is(name, "sleep") {
        let mut m = String::from_str("'builtin::");
        m.append(name);
        m.append("' is not a known builtin. Run `bullang stdlib --list` to see available builtins. If this is a math/sort function, install mathlib: `bullarchy add mathlib`.");
        return Err(m);
    }
    let names = names_of(params);
    let n = arity_of(name);
    if names.len() != n {
        let mut m = String::from_str("'builtin::");
        m.append(name);
        m.append("' requires ");
        add_num(&mut m, n);
        m.append(" parameter(s) but the function declares ");
        add_num(&mut m, names.len());
        return Err(m);
    }
    proof {
        assert(name_seq(names@).len() == names@.len());
    }
    match backend {
        Backend::Unknown(kw) => {
            let mut m = String::from_str("'builtin::");
            m.append(name);
            m.append("' is not available for unknown backend '");
            m.append(kw.as_str());
            m.append("'");
            proof {
                assert(has_template(name@));
                assert(param_names(params@).len() == arity(name@));
                assert(m@ == msg_no_backend(name@, kw@));
                assert(builtin_code(name@, params@, backend@) == Err::<Seq<char>, Seq<char>>(msg_no_backend(name@, kw@)));
            }
            Err(m)
        },
        Backend::Java => {
            if str_is(name, "close") {
                proof {
                    assert(name_seq(names@)[0] == names@[0]@);
                }
                if trim_is(names[0].as_str(), "0") {
                    return Ok(String::from_str(B_CLOSE_JAVA_STDIN));
                }
                if trim_is(names[0].as_str(), "1") {
                    return Ok(String::from_str(B_CLOSE_JAVA_STDOUT));
                }
                if trim_is(names[0].as_str(), "2") {
                    return Ok(String::from_str(B_CLOSE_JAVA_STDERR));
                }
            }
            if str_is(name, "out") {
                proof {
                    assert(name_seq(names@)[0] == names@[0]@);
                }
                if trim_is(names[0].as_str(), "1") {
                    return Ok(fill_template(B_OUT_JAVA_STD, &names, "System.out"));
                }
                if trim_is(names[0].as_str(), "2") {
                    return Ok(fill_template(B_OUT_JAVA_STD, &names, "System.err"));
                }
            }
            Ok(fill_template(template_of(name, backend), &names, ""))
        },
        Backend::C => {
            if str_is(name, "swap") {
                proof {
                    assert(has_template(name@));
                    assert(param_names(params@).len() == arity(name@));
                    assert(builtin_code(name@, params@, backend@) == Err::<Seq<char>, Seq<char>>(fill(B_SWAP_C_UNTYPED@, param_names(params@), Seq::empty())));
                }
                let e = fill_template(B_SWAP_C_UNTYPED, &names, "");
                proof {
                    assert(""@ == Seq::<char>::empty());
                    assert(name_seq(names@) == param_names(params@));
                    assert(e@ == fill(B_SWAP_C_UNTYPED@, param_names(params@), Seq::empty()));
                }
                return Err(e);
            }
            Ok(fill_template(template_of(name, backend), &names, ""))
        },
        Backend::Go => {
            if str_is(name, "swap") {
                if params[0].ty.is_unknown() {
                    let e = fill_template(B_SWAP_GO_UNTYPED, &names, "");
                    proof {
                        assert(has_template(name@));
                        assert(param_names(params@).len() == arity(name@));
                        assert(builtin_code(name@, params@, backend@) == Err::<Seq<char>, Seq<char>>(fill(B_SWAP_GO_UNTYPED@, param_names(params@), Seq::empty())));
                    }
                    return Err(e);
                }
                let pair: Vec<BuType> = vec![params[0].ty.copy(), params[0].ty.copy()];
                proof {
                    crate::ast::lemma_tys_view(pair@);
                    assert(tys_view(pair@) =~= seq![params@[0].ty@, params@[0].ty@]);
                }
                let tn = tuple_go_name(&pair);
                let code = fill_template(B_SWAP_GO, &names, tn.as_str());
                proof {
                    assert(has_template(name@));
                    assert(param_names(params@).len() == arity(name@));
                    assert(builtin_code(name@, params@, backend@) == Ok::<Seq<char>, Seq<char>>(fill(B_SWAP_GO@, param_names(params@), tn@)));
                }
                return Ok(code);
            }
            Ok(fill_template(template_of(name, backend), &names, ""))
        },
        _ => Ok(fill_template(template_of(name, backend), &names, "")),
    }
}

// ── What a builtin needs at file scope ────────────────────────────────────────

/// The `use` lines that a builtin's Rust expansion needs at the top of the
/// file; no other backend has any.
pub open spec fn required_imports_spec(name: Seq<char>, b: BackendV) -> Seq<Seq<char>> {
    if b != BackendV::Rust {
        Seq::empty()
    } else if name == "in"@ {
        seq!["use std::io::{BufRead, BufReader};"@, "use std::os::unix::io::FromRawFd;"@]
    } else if name == "out"@ {
        seq!["use std::io::Write;"@, "use std::os::unix::io::FromRawFd;"@, "use std::mem::ManuallyDrop;"@]
    } else if name == "open"@ {
        seq!["use std::os::unix::io::IntoRawFd;"@]
    } else {
        Seq::empty()
    }
}

pub fn required_imports(name: &str, backend: &Backend) -> (r: Vec<&'static str>)
    ensures
        r@.map_values(|x: &'static str| x@) == required_imports_spec(name@, backend@),
{
    let mut r: Vec<&'static str> = Vec::new();
    match backend {
        Backend::Rust => {
            if str_is(name, "in") {
                r.push("use std::io::{BufRead, BufReader};");
                r.push("use std::os::unix::io::FromRawFd;");
            } else if str_is(name, "out") {
                r.push("use std::io::Write;");
                r.push("use std::os::unix::io::FromRawFd;");
                r.push("use std::mem::ManuallyDrop;");
            } else if str_is(name, "open") {
                r.push("use std::os::unix::io::IntoRawFd;");
            }
        },
        _ => {},
    }
    proof {
        assert(r@.map_values(|x: &'static str| x@) =~= required_imports_spec(name@, backend@));
    }
    r
}

/// The `#include` lines that a builtin's C or C++ expansion needs at the top
/// of the file.
pub open spec fn required_includes_spec(name: Seq<char>, b: BackendV) -> Seq<Seq<char>> {
    if b == BackendV::C {
        if name == "to_upper"@ || name == "to_lower"@ {
            seq!["#include <ctype.h>"@]
        } else if name == "trim"@ {
            seq!["#include <ctype.h>"@, "#include <string.h>"@]
        } else if name == "out"@ {
            seq!["#include <stdint.h>"@, "#include <string.h>"@, "#include <unistd.h>"@]
        } else {
            Seq::empty()
        }
    } else if b == BackendV::Cpp {
        if name == "to_upper"@ || name == "to_lower"@ {
            seq!["#include <algorithm>"@, "#include <cctype>"@, "#include <string>"@]
        } else if name == "trim"@ {
            seq!["#include <string>"@]
        } else if name == "out"@ {
            seq!["#include <cstdint>"@, "#include <string>"@, "#include <unistd.h>"@]
        } else {
            Seq::empty()
        }
    } else {
        Seq::empty()
    }
}

pub fn required_includes(name: &str, backend: &Backend) -> (r: Vec<&'static str>)
    ensures
        r@.map_values(|x: &'static str| x@) == required_includes_spec(name@, backend@),
{
    let mut r: Vec<&'static str> = Vec::new();
    match backend {
        Backend::C => {
            if str_is(name, "to_upper") || str_is(name, "to_lower") {
                r.push("#include <ctype.h>");
            } else if str_is(name, "trim") {
                r.push("#include <ctype.h>");
                r.push("#include <string.h>");
            } else if str_is(name, "out") {
                r.push("#include <stdint.h>");
                r.push("#include <string.h>");
                r.push("#include <unistd.h>");
            }
        },
        Backend::Cpp => {
            if str_is(name, "to_upper") || str_is(name, "to_lower") {
                r.push("#include <algorithm>");
                r.push("#include <cctype>");
                r.push("#include <string>");
            } else if str_is(name, "trim") {
                r.push("#include <string>");
            } else if str_is(name, "out") {
                r.push("#include <cstdint>");
                r.push("#include <string>");
                r.push("#include <unistd.h>");
            }
        },
        _ => {},
    }
    proof {
        assert(r@.map_values(|x: &'static str| x@) =~= required_includes_spec(name@, backend@));
    }
    r
}

pub const HELPER_TO_UPPER_C: &'static str = "static char *to_upper(char *str) {\n\tfor (int i = 0; str[i]; i++) {\n\t\tstr[i] = (char)toupper((unsigned char)str[i]);\n\t}\n\treturn (str);\n}\n";
pub const HELPER_TO_LOWER_C: &'static str = "static char *to_lower(char *str) {\n\tfor (int i = 0; str[i]; i++) {\n\t\tstr[i] = (char)tolower((unsigned char)str[i]);\n\t}\n\treturn (str);\n}\n";
pub const HELPER_TRIM_C: &'static str = "static char *trim(char *str) {\n\tint start = 0;\n\twhile (str[start] && isspace((unsigned char)str[start])) {\n\t\tstart++;\n\t}\n\tint end = (int)strlen(str);\n\twhile (end > start && isspace((unsigned char)str[end - 1])) {\n\t\tend--;\n\t}\n\tstr[end] = '\\0';\n\treturn (str + start);\n}\n";
pub const HELPER_TO_UPPER_CPP: &'static str = "static std::string to_upper(std::string str) {\n\tstd::transform(str.begin(), str.end(), str.begin(), ::toupper);\n\treturn (str);\n}\n";
pub const HELPER_TO_LOWER_CPP: &'static str = "static std::string to_lower(std::string str) {\n\tstd::transform(str.begin(), str.end(), str.begin(), ::tolower);\n\treturn (str);\n}\n";
pub const HELPER_TRIM_CPP: &'static str = "static std::string trim(std::string str) {\n\tstr.erase(0, str.find_first_not_of(\" \\t\\n\\r\"));\n\tstr.erase(str.find_last_not_of(\" \\t\\n\\r\") + 1);\n\treturn (str);\n}\n";

/// The function that a builtin's C or C++ expansion calls, to be defined
/// once at the top of the file, if it needs one.
pub open spec fn helper_definition_spec(name: Seq<char>, b: BackendV) -> Option<Seq<char>> {
    if b == BackendV::C && name == "to_upper"@ {
        Some(HELPER_TO_UPPER_C@)
    } else if b == BackendV::C && name == "to_lower"@ {
        Some(HELPER_TO_LOWER_C@)
    } else if b == BackendV::C && name == "trim"@ {
        Some(HELPER_TRIM_C@)
    } else if b == BackendV::Cpp && name == "to_upper"@ {
        Some(HELPER_TO_UPPER_CPP@)
    } else if b == BackendV::Cpp && name == "to_lower"@ {
        Some(HELPER_TO_LOWER_CPP@)
    } else if b == BackendV::Cpp && name == "trim"@ {
        Some(HELPER_TRIM_CPP@)
    } else {
        None
    }
}

pub fn helper_definition(name: &str, backend: &Backend) -> (r: Option<&'static str>)
    ensures
        match helper_definition_spec(name@, backend@) {
            Some(h) => r matches Some(x) && x@ == h,
            None => r is None,
        },
{
    match backend {
        Backend::C => {
            if str_is(name, "to_upper") {
                Some(HELPER_TO_UPPER_C)
            } else if str_is(name, "to_lower") {
                Some(HELPER_TO_LOWER_C)
            } else if str_is(name, "trim") {
                Some(HELPER_TRIM_C)
            } else {
                None
            }
        },
        Backend::Cpp => {
            if str_is(name, "to_upper") {
                Some(HELPER_TO_UPPER_CPP)
            } else if str_is(name, "to_lower") {
                Some(HELPER_TO_LOWER_CPP)
            } else if str_is(name, "trim") {
                Some(HELPER_TRIM_CPP)
            } else {
                None
            }
        },
        _ => None,
    }
}

} // verus!
