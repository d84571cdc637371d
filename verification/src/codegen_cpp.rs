//! The parts of a C++ build that stand on their own: the inventory's types
//! as `struct`s and `enum class`es, the project header that declares
//! everything inside a namespace, and the Makefile.
use vstd::prelude::*;
use crate::ast::{Backend, BackendV, Bullet, EnumDef, Field, NativeBlock, Param, SourceFile, StructDef, Variant, backend_keyword};
use crate::cpp_types::{cpp_type, cpp_ok, bu_type_to_cpp};
use crate::codegen_rs::{joined, join_strings};
use crate::text::{chars_of, trim_seq, trim_chars, has_prefix};
use crate::validator::name_seq;

verus! {

/// What `str::to_uppercase` gives for a text, by the Unicode tables of the
/// standard library.
pub uninterp spec fn upper_text(s: Seq<char>) -> Seq<char>;

/// An ASCII letter in upper case; any other character as it is.
pub open spec fn ascii_upper(c: char) -> char {
    if 'a' <= c <= 'z' { ((c as u32) - 32) as char } else { c }
}

/// `str::to_uppercase`. An all-ASCII text has its small letters raised and
/// nothing else changed, as its documentation states.
#[verifier::external_body]
fn uppercase(s: &str) -> (r: String)
    ensures
        r@ == upper_text(s@),
        (forall|i: int| 0 <= i < s@.len() ==> (#[trigger] s@[i] as u32) < 128)
            ==> r@ == s@.map_values(|c: char| ascii_upper(c)),
{
    s.to_uppercase()
}

/// Every occurrence of `from`, left to right and not overlapping, replaced
/// by `to`.
pub open spec fn replace_all(s: Seq<char>, from: Seq<char>, to: Seq<char>) -> Seq<char>
    decreases s.len(),
{
    if s.len() == 0 {
        Seq::empty()
    } else if from.len() > 0 && has_prefix(s, from) {
        to + replace_all(s.subrange(from.len() as int, s.len() as int), from, to)
    } else {
        seq![s[0]] + replace_all(s.drop_first(), from, to)
    }
}

fn replace_text(s: &str, from: &str, to: &str) -> (r: String)
    requires
        from@.len() > 0,
    ensures
        r@ == replace_all(s@, from@, to@),
{
    let v = chars_of(s);
    let mut r = String::new();
    let mut i: usize = 0;
    proof {
        assert(v@.subrange(0, v@.len() as int) =~= v@);
    }
    while i < v.len()
        invariant
            i <= v@.len(),
            v@ == s@,
            from@.len() > 0,
            r@ + replace_all(v@.subrange(i as int, v@.len() as int), from@, to@) == replace_all(s@, from@, to@),
        decreases v@.len() - i,
    {
        let ghost rest = v@.subrange(i as int, v@.len() as int);
        if crate::text::prefix_at(v.as_slice(), i, from) {
            proof {
                assert(rest.subrange(from@.len() as int, rest.len() as int) =~= v@.subrange(i + from@.len(), v@.len() as int));
            }
            r.append(to);
            i = i + from.unicode_len();
        } else {
            proof {
                assert(rest.drop_first() =~= v@.subrange(i + 1, v@.len() as int));
                assert(rest[0] == v@[i as int]);
            }
            let ghost r0 = r@;
            crate::text::push_char(&mut r, v[i]);
            proof {
                assert(r@ == r0.push(v@[i as int]));
                assert(r0 + (seq![v@[i as int]] + replace_all(rest.drop_first(), from@, to@))
                    =~= r0.push(v@[i as int]) + replace_all(rest.drop_first(), from@, to@));
            }
            i = i + 1;
        }
    }
    proof {
        assert(v@.subrange(i as int, v@.len() as int) =~= Seq::<char>::empty());
        assert(r@ + Seq::<char>::empty() =~= r@);
    }
    r
}

// ── Structs and enums ─────────────────────────────────────────────────────────

pub open spec fn cpp_field_lines(fs: Seq<Field>) -> Seq<char>
    decreases fs.len(),
{
    if fs.len() == 0 {
        Seq::empty()
    } else {
        cpp_field_lines(fs.drop_last()) + "    "@ + cpp_type(fs.last().ty@) + " "@ + fs.last().name@ + ";\n"@
    }
}

pub open spec fn cpp_struct(s: StructDef) -> Seq<char> {
    "struct "@ + s.name@ + " {\n"@ + cpp_field_lines(s.fields@) + "};\n"@
}

pub open spec fn cpp_struct_ok(s: StructDef) -> bool {
    forall|k: int| 0 <= k < s.fields@.len() ==> cpp_ok(#[trigger] s.fields@[k].ty@)
}

pub fn emit_struct_cpp(st: &StructDef) -> (r: String)
    requires
        cpp_struct_ok(*st),
    ensures
        r@ == cpp_struct(*st),
{
    let mut out = String::from_str("struct ");
    out.append(st.name.as_str());
    out.append(" {\n");
    let ghost o0 = out@;
    let mut i: usize = 0;
    proof {
        assert(st.fields@.subrange(0, 0) =~= Seq::<Field>::empty());
        assert(o0 + Seq::<char>::empty() =~= o0);
    }
    while i < st.fields.len()
        invariant
            i <= st.fields@.len(),
            cpp_struct_ok(*st),
            out@ == o0 + cpp_field_lines(st.fields@.subrange(0, i as int)),
        decreases st.fields@.len() - i,
    {
        proof {
            assert(st.fields@.subrange(0, i + 1).drop_last() =~= st.fields@.subrange(0, i as int));
            assert(st.fields@.subrange(0, i + 1).last() == st.fields@[i as int]);
            assert(cpp_ok(st.fields@[i as int].ty@));
        }
        out.append("    ");
        let t = bu_type_to_cpp(&st.fields[i].ty);
        out.append(t.as_str());
        out.append(" ");
        out.append(st.fields[i].name.as_str());
        out.append(";\n");
        i = i + 1;
    }
    out.append("};\n");
    proof {
        assert(st.fields@.subrange(0, st.fields@.len() as int) =~= st.fields@);
    }
    out
}

pub open spec fn cpp_variant_lines(vs: Seq<Variant>) -> Seq<char>
    decreases vs.len(),
{
    if vs.len() == 0 { Seq::empty() } else { cpp_variant_lines(vs.drop_last()) + "    "@ + vs.last().name@ + ",\n"@ }
}

pub open spec fn cpp_enum(e: EnumDef) -> Seq<char> {
    "enum class "@ + e.name@ + " {\n"@ + cpp_variant_lines(e.variants@) + "};\n"@
}

pub fn emit_enum_cpp(e: &EnumDef) -> (r: String)
    ensures
        r@ == cpp_enum(*e),
{
    let mut out = String::from_str("enum class ");
    out.append(e.name.as_str());
    out.append(" {\n");
    let ghost o0 = out@;
    let mut i: usize = 0;
    proof {
        assert(e.variants@.subrange(0, 0) =~= Seq::<Variant>::empty());
        assert(o0 + Seq::<char>::empty() =~= o0);
    }
    while i < e.variants.len()
        invariant
            i <= e.variants@.len(),
            out@ == o0 + cpp_variant_lines(e.variants@.subrange(0, i as int)),
        decreases e.variants@.len() - i,
    {
        proof {
            assert(e.variants@.subrange(0, i + 1).drop_last() =~= e.variants@.subrange(0, i as int));
            assert(e.variants@.subrange(0, i + 1).last() == e.variants@[i as int]);
        }
        out.append("    ");
        out.append(e.variants[i].name.as_str());
        out.append(",\n");
        i = i + 1;
    }
    out.append("};\n");
    proof {
        assert(e.variants@.subrange(0, e.variants@.len() as int) =~= e.variants@);
    }
    out
}

// ── Declarations ──────────────────────────────────────────────────────────────

/// Parameters as `Type name`, joined by `, `.
pub open spec fn cpp_params_text(ps: Seq<Param>) -> Seq<char> {
    joined(ps.map_values(|p: Param| cpp_type(p.ty@) + " "@ + p.name@), ", "@)
}

pub open spec fn cpp_params_ok(ps: Seq<Param>) -> bool {
    forall|k: int| 0 <= k < ps.len() ==> cpp_ok(#[trigger] ps[k].ty@)
}

pub fn cpp_param_list(ps: &Vec<Param>) -> (r: String)
    requires
        cpp_params_ok(ps@),
    ensures
        r@ == cpp_params_text(ps@),
{
    let mut parts: Vec<String> = Vec::new();
    let mut i: usize = 0;
    while i < ps.len()
        invariant
            i <= ps@.len(),
            cpp_params_ok(ps@),
            name_seq(parts@) == ps@.subrange(0, i as int).map_values(|p: Param| cpp_type(p.ty@) + " "@ + p.name@),
        decreases ps@.len() - i,
    {
        proof {
            assert(cpp_ok(ps@[i as int].ty@));
        }
        let mut s = bu_type_to_cpp(&ps[i].ty);
        s.append(" ");
        s.append(ps[i].name.as_str());
        let ghost before = parts@;
        parts.push(s);
        proof {
            assert(name_seq(parts@) =~= name_seq(before).push(s@));
            assert(ps@.subrange(0, i + 1).map_values(|p: Param| cpp_type(p.ty@) + " "@ + p.name@)
                =~= ps@.subrange(0, i as int).map_values(|p: Param| cpp_type(p.ty@) + " "@ + p.name@).push(s@));
        }
        i = i + 1;
    }
    proof {
        assert(ps@.subrange(0, ps@.len() as int) =~= ps@);
    }
    join_strings(&parts, ", ")
}

/// A forward declaration of a function: `Ret name(Params);`.
pub open spec fn cpp_decl(b: Bullet) -> Seq<char> {
    let ret = match b.output {
        Some(o) => cpp_type(o.ty@),
        None => Seq::empty(),
    };
    ret + " "@ + b.name@ + "("@ + cpp_params_text(b.params@) + ");\n"@
}

pub open spec fn cpp_decls(bs: Seq<Bullet>) -> Seq<char>
    decreases bs.len(),
{
    if bs.len() == 0 { Seq::empty() } else { cpp_decls(bs.drop_last()) + cpp_decl(bs.last()) }
}

/// Whether a function can be declared: it declares its output, and its
/// types can be translated.
pub open spec fn cpp_decl_ok(b: Bullet) -> bool {
    &&& b.output matches Some(o) && cpp_ok(o.ty@)
    &&& cpp_params_ok(b.params@)
}

/// For each source file, a comment with its name, its functions' forward
/// declarations, and a blank line.
pub open spec fn cpp_file_decls(fs: Seq<(String, SourceFile)>) -> Seq<char>
    decreases fs.len(),
{
    if fs.len() == 0 {
        Seq::empty()
    } else {
        cpp_file_decls(fs.drop_last()) + "// "@ + fs.last().0@ + "\n"@ + cpp_decls(fs.last().1.bullets@) + "\n"@
    }
}

/// An escape block of the inventory: a C++ block verbatim (trimmed), any
/// other a warning that it was skipped.
pub open spec fn cpp_native(nb: NativeBlock) -> Seq<char> {
    if nb.backend@ == BackendV::Cpp {
        "// @cpp native block\n"@ + trim_seq(nb.code@) + "\n\n"@
    } else {
        "// WARNING: @"@ + backend_keyword(nb.backend@) + " native block skipped in C++ header\n\n"@
    }
}

pub open spec fn cpp_natives(ns: Seq<NativeBlock>) -> Seq<char>
    decreases ns.len(),
{
    if ns.len() == 0 { Seq::empty() } else { cpp_natives(ns.drop_last()) + cpp_native(ns.last()) }
}

pub open spec fn cpp_enums(es: Seq<EnumDef>) -> Seq<char>
    decreases es.len(),
{
    if es.len() == 0 { Seq::empty() } else { cpp_enums(es.drop_last()) + cpp_enum(es.last()) + "\n"@ }
}

pub open spec fn cpp_structs(ss: Seq<StructDef>) -> Seq<char>
    decreases ss.len(),
{
    if ss.len() == 0 { Seq::empty() } else { cpp_structs(ss.drop_last()) + cpp_struct(ss.last()) + "\n"@ }
}

pub open spec fn cpp_includes(is: Seq<Seq<char>>) -> Seq<char>
    decreases is.len(),
{
    if is.len() == 0 { Seq::empty() } else { cpp_includes(is.drop_last()) + "#include <"@ + is.last() + ">\n"@ }
}

/// The include guard of a module: its name upper-cased, `-` as `_`, and
/// `_HPP`.
pub open spec fn header_guard(module_name: Seq<char>) -> Seq<char> {
    replace_all(upper_text(module_name), "-"@, "_"@) + "_HPP"@
}

pub const CPP_STD_INCLUDES: &'static str = "#include <cstdint>\n#include <cstddef>\n#include <string>\n#include <vector>\n#include <unordered_map>\n#include <optional>\n#include <functional>\n#include <algorithm>\n#include <numeric>\n#include <cmath>\n#include <cctype>\n";

/// The project header: include guard, standard and extra includes, then
/// inside the namespace the enums, the structs, the inventory's escape
/// blocks and each source file's declarations.
pub open spec fn cpp_header(module_name: Seq<char>, files: Seq<(String, SourceFile)>, ns: Seq<char>,
    includes: Seq<Seq<char>>, ss: Seq<StructDef>, es: Seq<EnumDef>, natives: Seq<NativeBlock>) -> Seq<char>
{
    let g = header_guard(module_name);
    "#pragma once\n#ifndef "@ + g + "\n#define "@ + g + "\n\n"@ + CPP_STD_INCLUDES@ + cpp_includes(includes) + "\n"@
        + "namespace "@ + ns + " {\n\n"@ + cpp_enums(es) + cpp_structs(ss) + cpp_natives(natives)
        + cpp_file_decls(files) + "} // namespace "@ + ns + "\n\n"@ + "#endif // "@ + g + "\n"@
}

pub open spec fn cpp_header_ok(files: Seq<(String, SourceFile)>, ss: Seq<StructDef>) -> bool {
    &&& forall|k: int| 0 <= k < ss.len() ==> cpp_struct_ok(#[trigger] ss[k])
    &&& forall|f: int, k: int| 0 <= f < files.len() && 0 <= k < files[f].1.bullets@.len()
        ==> cpp_decl_ok(#[trigger] files[f].1.bullets@[k])
}

fn push_decls(out: &mut String, bs: &Vec<Bullet>)
    requires
        forall|k: int| 0 <= k < bs@.len() ==> cpp_decl_ok(#[trigger] bs@[k]),
    ensures
        final(out)@ == old(out)@ + cpp_decls(bs@),
{
    let ghost o0 = out@;
    let mut i: usize = 0;
    proof {
        assert(bs@.subrange(0, 0) =~= Seq::<Bullet>::empty());
        assert(o0 + Seq::<char>::empty() =~= o0);
    }
    while i < bs.len()
        invariant
            i <= bs@.len(),
            forall|k: int| 0 <= k < bs@.len() ==> cpp_decl_ok(#[trigger] bs@[k]),
            out@ == o0 + cpp_decls(bs@.subrange(0, i as int)),
        decreases bs@.len() - i,
    {
        proof {
            assert(bs@.subrange(0, i + 1).drop_last() =~= bs@.subrange(0, i as int));
            assert(bs@.subrange(0, i + 1).last() == bs@[i as int]);
            assert(cpp_decl_ok(bs@[i as int]));
        }
        let f = &bs[i];
        let ret = match &f.output {
            Some(o) => bu_type_to_cpp(&o.ty),
            None => String::new(),
        };
        let params = cpp_param_list(&f.params);
        let ghost before = out@;
        out.append(ret.as_str());
        out.append(" ");
        out.append(f.name.as_str());
        out.append("(");
        out.append(params.as_str());
        out.append(");\n");
        proof {
            assert(out@ =~= before + cpp_decl(*f));
            assert(o0 + cpp_decls(bs@.subrange(0, i as int)) + cpp_decl(*f) =~= o0 + (cpp_decls(bs@.subrange(0, i as int)) + cpp_decl(*f)));
        }
        i = i + 1;
    }
    proof {
        assert(bs@.subrange(0, bs@.len() as int) =~= bs@);
    }
}

#[verifier::rlimit(40)]
pub fn emit_header_cpp(module_name: &str, source_files: &Vec<(String, SourceFile)>, namespace: &str,
    includes: &Vec<String>, structs: &Vec<StructDef>, enums: &Vec<EnumDef>, natives: &Vec<NativeBlock>) -> (r: String)
    requires
        cpp_header_ok(source_files@, structs@),
    ensures
        r@ == cpp_header(module_name@, source_files@, namespace@, name_seq(includes@), structs@, enums@, natives@),
{
    let up = uppercase(module_name);
    proof {
        reveal_strlit("-");
    }
    let mut guard = replace_text(up.as_str(), "-", "_");
    guard.append("_HPP");
    let mut out = String::from_str("#pragma once\n#ifndef ");
    out.append(guard.as_str());
    out.append("\n#define ");
    out.append(guard.as_str());
    out.append("\n\n");
    out.append(CPP_STD_INCLUDES);
    let ghost h0 = out@;
    let mut i: usize = 0;
    proof {
        assert(name_seq(includes@).subrange(0, 0) =~= Seq::<Seq<char>>::empty());
        assert(h0 + Seq::<char>::empty() =~= h0);
    }
    while i < includes.len()
        invariant
            i <= includes@.len(),
            out@ == h0 + cpp_includes(name_seq(includes@).subrange(0, i as int)),
        decreases includes@.len() - i,
    {
        proof {
            assert(name_seq(includes@).subrange(0, i + 1).drop_last() =~= name_seq(includes@).subrange(0, i as int));
            assert(name_seq(includes@).subrange(0, i + 1).last() == includes@[i as int]@);
        }
        out.append("#include <");
        out.append(includes[i].as_str());
        out.append(">\n");
        i = i + 1;
    }
    proof {
        assert(name_seq(includes@).subrange(0, includes@.len() as int) =~= name_seq(includes@));
    }
    out.append("\n");
    out.append("namespace ");
    out.append(namespace);
    out.append(" {\n\n");
    let ghost h1 = out@;
    let mut j: usize = 0;
    proof {
        assert(enums@.subrange(0, 0) =~= Seq::<EnumDef>::empty());
        assert(h1 + Seq::<char>::empty() =~= h1);
    }
    while j < enums.len()
        invariant
            j <= enums@.len(),
            out@ == h1 + cpp_enums(enums@.subrange(0, j as int)),
        decreases enums@.len() - j,
    {
        proof {
            assert(enums@.subrange(0, j + 1).drop_last() =~= enums@.subrange(0, j as int));
            assert(enums@.subrange(0, j + 1).last() == enums@[j as int]);
        }
        let t = emit_enum_cpp(&enums[j]);
        out.append(t.as_str());
        out.append("\n");
        j = j + 1;
    }
    proof {
        assert(enums@.subrange(0, enums@.len() as int) =~= enums@);
    }
    let ghost h2 = out@;
    let mut k: usize = 0;
    proof {
        assert(structs@.subrange(0, 0) =~= Seq::<StructDef>::empty());
        assert(h2 + Seq::<char>::empty() =~= h2);
    }
    while k < structs.len()
        invariant
            k <= structs@.len(),
            cpp_header_ok(source_files@, structs@),
            out@ == h2 + cpp_structs(structs@.subrange(0, k as int)),
        decreases structs@.len() - k,
    {
        proof {
            assert(structs@.subrange(0, k + 1).drop_last() =~= structs@.subrange(0, k as int));
            assert(structs@.subrange(0, k + 1).last() == structs@[k as int]);
            assert(cpp_struct_ok(structs@[k as int]));
        }
        let t = emit_struct_cpp(&structs[k]);
        out.append(t.as_str());
        out.append("\n");
        k = k + 1;
    }
    proof {
        assert(structs@.subrange(0, structs@.len() as int) =~= structs@);
    }
    let ghost h3 = out@;
    let mut n: usize = 0;
    proof {
        assert(natives@.subrange(0, 0) =~= Seq::<NativeBlock>::empty());
        assert(h3 + Seq::<char>::empty() =~= h3);
    }
    while n < natives.len()
        invariant
            n <= natives@.len(),
            out@ == h3 + cpp_natives(natives@.subrange(0, n as int)),
        decreases natives@.len() - n,
    {
        proof {
            assert(natives@.subrange(0, n + 1).drop_last() =~= natives@.subrange(0, n as int));
            assert(natives@.subrange(0, n + 1).last() == natives@[n as int]);
        }
        let nb = &natives[n];
        let ghost before = out@;
        match nb.backend {
            Backend::Cpp => {
                out.append("// @cpp native block\n");
                let v = chars_of(nb.code.as_str());
                proof {
                    assert(v@.subrange(0, v@.len() as int) =~= v@);
                }
                let t = trim_chars(v.as_slice(), 0, v.len());
                out.append(t.as_str());
                out.append("\n\n");
            },
            _ => {
                out.append("// WARNING: @");
                let kw = nb.backend.escape_keyword();
                out.append(kw.as_str());
                out.append(" native block skipped in C++ header\n\n");
            },
        }
        proof {
            assert(out@ =~= before + cpp_native(*nb));
            let a = cpp_natives(natives@.subrange(0, n as int));
            assert(h3 + a + cpp_native(*nb) =~= h3 + (a + cpp_native(*nb)));
        }
        n = n + 1;
    }
    proof {
        assert(natives@.subrange(0, natives@.len() as int) =~= natives@);
    }
    let ghost h4 = out@;
    let mut f: usize = 0;
    proof {
        assert(source_files@.subrange(0, 0) =~= Seq::<(String, SourceFile)>::empty());
        assert(h4 + Seq::<char>::empty() =~= h4);
    }
    while f < source_files.len()
        invariant
            f <= source_files@.len(),
            cpp_header_ok(source_files@, structs@),
            out@ == h4 + cpp_file_decls(source_files@.subrange(0, f as int)),
        decreases source_files@.len() - f,
    {
        proof {
            assert(source_files@.subrange(0, f + 1).drop_last() =~= source_files@.subrange(0, f as int));
            assert(source_files@.subrange(0, f + 1).last() == source_files@[f as int]);
            assert forall|k: int| 0 <= k < source_files@[f as int].1.bullets@.len()
                implies cpp_decl_ok(#[trigger] source_files@[f as int].1.bullets@[k]) by {
                assert(cpp_decl_ok(source_files@[f as int].1.bullets@[k]));
            }
        }
        let ghost before = out@;
        out.append("// ");
        out.append(source_files[f].0.as_str());
        out.append("\n");
        push_decls(&mut out, &source_files[f].1.bullets);
        out.append("\n");
        proof {
            let a = cpp_file_decls(source_files@.subrange(0, f as int));
            let b = "// "@ + source_files@[f as int].0@ + "\n"@ + cpp_decls(source_files@[f as int].1.bullets@) + "\n"@;
            assert(out@ =~= before + b);
            assert(h4 + a + b =~= h4 + (a + b));
        }
        f = f + 1;
    }
    proof {
        assert(source_files@.subrange(0, source_files@.len() as int) =~= source_files@);
    }
    out.append("} // namespace ");
    out.append(namespace);
    out.append("\n\n");
    out.append("#endif // ");
    out.append(guard.as_str());
    out.append("\n");
    proof {
        assert(guard@ == header_guard(module_name@));
        assert(out@ =~= cpp_header(module_name@, source_files@, namespace@, name_seq(includes@), structs@, enums@, natives@));
    }
    out
}

// ── Makefile ──────────────────────────────────────────────────────────────────

/// The Makefile of a C++ build: a program where there is a `main`, else a
/// static library.
pub open spec fn cpp_makefile(crate_name: Seq<char>, files: Seq<Seq<char>>, has_main: bool) -> Seq<char> {
    let objs = joined(files.map_values(|f: Seq<char>| replace_all(f, ".cpp"@, ".o"@)), " "@);
    "CXX      = c++\nCXXFLAGS = -Wall -Werror -Wextra -g -std=c++17\n"@ + "TARGET   = "@ + crate_name + "\n\n"@
        + "OBJECTS  = "@ + objs + "\n\n"@
        + (if has_main {
            "all: $(TARGET)\n\n$(TARGET): $(OBJECTS)\n\t$(CXX) $(CXXFLAGS) -o $@ $^\n\n"@
        } else {
            "all: lib"@ + crate_name + ".a\n\nlib"@ + crate_name + ".a: $(OBJECTS)\n\tar rcs $@ $^\n\n"@
        })
        + "%.o: %.cpp\n\t$(CXX) $(CXXFLAGS) -c -o $@ $<\n\n"@ + "clean:\n\trm -f $(OBJECTS) $(TARGET) lib"@ + crate_name
        + ".a\n\n.PHONY: all clean\n"@
}

pub fn emit_makefile_cpp(crate_name: &str, source_files: &Vec<String>, has_main: bool) -> (r: String)
    ensures
        r@ == cpp_makefile(crate_name@, name_seq(source_files@), has_main),
{
    proof {
        reveal_strlit(".cpp");
    }
    let mut objects: Vec<String> = Vec::new();
    let mut i: usize = 0;
    while i < source_files.len()
        invariant
            i <= source_files@.len(),
            name_seq(objects@) == name_seq(source_files@).subrange(0, i as int).map_values(
                |f: Seq<char>| replace_all(f, ".cpp"@, ".o"@)),
        decreases source_files@.len() - i,
    {
        proof {
            reveal_strlit(".cpp");
        }
        let o = replace_text(source_files[i].as_str(), ".cpp", ".o");
        let ghost before = objects@;
        objects.push(o);
        proof {
            assert(name_seq(objects@) =~= name_seq(before).push(o@));
            assert(name_seq(source_files@).subrange(0, i + 1).map_values(|f: Seq<char>| replace_all(f, ".cpp"@, ".o"@))
                =~= name_seq(source_files@).subrange(0, i as int).map_values(|f: Seq<char>| replace_all(f, ".cpp"@, ".o"@)).push(o@));
        }
        i = i + 1;
    }
    proof {
        assert(name_seq(source_files@).subrange(0, source_files@.len() as int) =~= name_seq(source_files@));
    }
    let objs = join_strings(&objects, " ");
    let mut out = String::from_str("CXX      = c++\nCXXFLAGS = -Wall -Werror -Wextra -g -std=c++17\n");
    out.append("TARGET   = ");
    out.append(crate_name);
    out.append("\n\n");
    out.append("OBJECTS  = ");
    out.append(objs.as_str());
    out.append("\n\n");
    if has_main {
        out.append("all: $(TARGET)\n\n$(TARGET): $(OBJECTS)\n\t$(CXX) $(CXXFLAGS) -o $@ $^\n\n");
    } else {
        out.append("all: lib");
        out.append(crate_name);
        out.append(".a\n\nlib");
        out.append(crate_name);
        out.append(".a: $(OBJECTS)\n\tar rcs $@ $^\n\n");
    }
    out.append("%.o: %.cpp\n\t$(CXX) $(CXXFLAGS) -c -o $@ $<\n\n");
    out.append("clean:\n\trm -f $(OBJECTS) $(TARGET) lib");
    out.append(crate_name);
    out.append(".a\n\n.PHONY: all clean\n");
    proof {
        assert(out@ =~= cpp_makefile(crate_name@, name_seq(source_files@), has_main));
    }
    out
}

} // verus!
