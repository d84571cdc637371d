//! The code that each builtin expands to, one template per builtin and
//! backend. In a template, `\u{1}` followed by a digit `i` stands for the name
//! of the builtin's `i`-th parameter, `\u{2}` and `i` for that name escaped as
//! a Python identifier, and `\u{3}` for the name of a tuple type. Where a
//! backend has a helper defined once at the top of the file (`to_upper`,
//! `to_lower` and `trim` in C and C++, `tern` in Go), the template is a
//! plain call of that helper.
use vstd::prelude::*;
use crate::ast::{Backend, BackendV};
use crate::text::str_is;

verus! {

pub const B_MIN_RUST: &'static str = "\u{1}0.iter().min().cloned().unwrap_or_else(|| panic!(\"builtin::min called on empty Vec\"))";
pub const B_MIN_PYTHON: &'static str = "min(\u{2}0)";
pub const B_MIN_C: &'static str = "({ vec_t *__src = \u{1}0; size_t __n = vec_len(__src); int64_t __m = INT64_MIN; if (__n > 0) { __m = *(int64_t *)vec_get(__src, 0); for (size_t __i = 1; __i < __n; __i++) { int64_t __v = *(int64_t *)vec_get(__src, __i); if (__v < __m) __m = __v; } } __m; })";
pub const B_MIN_CPP: &'static str = "[&]() -> int64_t { const auto &__v = \u{1}0; if (__v.empty()) return INT64_MIN; return static_cast<int64_t>(*std::min_element(__v.begin(), __v.end())); }()";
pub const B_MIN_GO: &'static str = "func() int64 { __v := \u{1}0; if len(__v) == 0 { return math.MinInt64 } return slices.Min(__v); }()";
pub const B_MIN_JAVA: &'static str = "(\u{1}0.isEmpty() ? Long.MIN_VALUE : java.util.Collections.min(\u{1}0))";

pub const B_MAX_RUST: &'static str = "\u{1}0.iter().max().cloned().unwrap_or_else(|| panic!(\"builtin::max called on empty Vec\"))";
pub const B_MAX_PYTHON: &'static str = "max(\u{2}0)";
pub const B_MAX_C: &'static str = "({ vec_t *__src = \u{1}0; size_t __n = vec_len(__src); int64_t __m = INT64_MAX; if (__n > 0) { __m = *(int64_t *)vec_get(__src, 0); for (size_t __i = 1; __i < __n; __i++) { int64_t __v = *(int64_t *)vec_get(__src, __i); if (__v > __m) __m = __v; } } __m; })";
pub const B_MAX_CPP: &'static str = "[&]() -> int64_t { const auto &__v = \u{1}0; if (__v.empty()) return INT64_MAX; return static_cast<int64_t>(*std::max_element(__v.begin(), __v.end())); }()";
pub const B_MAX_GO: &'static str = "func() int64 { __v := \u{1}0; if len(__v) == 0 { return math.MaxInt64 } return slices.Max(__v); }()";
pub const B_MAX_JAVA: &'static str = "(\u{1}0.isEmpty() ? Long.MAX_VALUE : java.util.Collections.max(\u{1}0))";

pub const B_TERN_RUST: &'static str = "(if \u{1}0 == \u{1}1 { \u{1}2 } else { \u{1}3 })";
pub const B_TERN_PYTHON: &'static str = "(\u{2}2 if \u{2}0 == \u{2}1 else \u{2}3)";
pub const B_TERN_C: &'static str = "((\u{1}0) == (\u{1}1) ? (\u{1}2) : (\u{1}3))";
pub const B_TERN_CPP: &'static str = "((\u{1}0) == (\u{1}1) ? (\u{1}2) : (\u{1}3))";
pub const B_TERN_GO: &'static str = "__tern(\u{1}0, \u{1}1, \u{1}2, \u{1}3)";
pub const B_TERN_JAVA: &'static str = "((\u{1}0) == (\u{1}1) ? (\u{1}2) : (\u{1}3))";

pub const B_TO_UPPER_RUST: &'static str = "\u{1}0.to_uppercase()";
pub const B_TO_UPPER_PYTHON: &'static str = "\u{2}0.upper()";
pub const B_TO_UPPER_C: &'static str = "to_upper(\u{1}0)";
pub const B_TO_UPPER_CPP: &'static str = "to_upper(\u{1}0)";
pub const B_TO_UPPER_GO: &'static str = "strings.ToUpper(\u{1}0)";
pub const B_TO_UPPER_JAVA: &'static str = "\u{1}0.toUpperCase()";

pub const B_TO_LOWER_RUST: &'static str = "\u{1}0.to_lowercase()";
pub const B_TO_LOWER_PYTHON: &'static str = "\u{2}0.lower()";
pub const B_TO_LOWER_C: &'static str = "to_lower(\u{1}0)";
pub const B_TO_LOWER_CPP: &'static str = "to_lower(\u{1}0)";
pub const B_TO_LOWER_GO: &'static str = "strings.ToLower(\u{1}0)";
pub const B_TO_LOWER_JAVA: &'static str = "\u{1}0.toLowerCase()";

pub const B_TRIM_RUST: &'static str = "\u{1}0.trim().to_owned()";
pub const B_TRIM_PYTHON: &'static str = "\u{2}0.strip()";
pub const B_TRIM_C: &'static str = "trim(\u{1}0)";
pub const B_TRIM_CPP: &'static str = "trim(\u{1}0)";
pub const B_TRIM_GO: &'static str = "strings.TrimSpace(\u{1}0)";
pub const B_TRIM_JAVA: &'static str = "\u{1}0.trim()";

pub const B_STARTS_WITH_RUST: &'static str = "\u{1}0.starts_with(\u{1}1.as_str())";
pub const B_STARTS_WITH_PYTHON: &'static str = "\u{2}0.startswith(\u{2}1)";
pub const B_STARTS_WITH_C: &'static str = "(strncmp(\u{1}0, \u{1}1, strlen(\u{1}1)) == 0)";
pub const B_STARTS_WITH_CPP: &'static str = "\u{1}0.rfind(\u{1}1, 0) == 0";
pub const B_STARTS_WITH_GO: &'static str = "strings.HasPrefix(\u{1}0, \u{1}1)";
pub const B_STARTS_WITH_JAVA: &'static str = "\u{1}0.startsWith(\u{1}1)";

pub const B_ENDS_WITH_RUST: &'static str = "\u{1}0.ends_with(\u{1}1.as_str())";
pub const B_ENDS_WITH_PYTHON: &'static str = "\u{2}0.endswith(\u{2}1)";
pub const B_ENDS_WITH_C: &'static str = "(strlen(\u{1}0) >= strlen(\u{1}1) && strcmp(\u{1}0 + strlen(\u{1}0) - strlen(\u{1}1), \u{1}1) == 0)";
pub const B_ENDS_WITH_CPP: &'static str = "(\u{1}0.size() >= \u{1}1.size() && \u{1}0.compare(\u{1}0.size()-\u{1}1.size(), \u{1}1.size(), \u{1}1) == 0)";
pub const B_ENDS_WITH_GO: &'static str = "strings.HasSuffix(\u{1}0, \u{1}1)";
pub const B_ENDS_WITH_JAVA: &'static str = "\u{1}0.endsWith(\u{1}1)";

pub const B_REPLACE_STR_RUST: &'static str = "\u{1}0.replace(\u{1}1.as_str(), \u{1}2.as_str())";
pub const B_REPLACE_STR_PYTHON: &'static str = "\u{2}0.replace(\u{2}1, \u{2}2)";
pub const B_REPLACE_STR_C: &'static str = "replace_str(\u{1}0, \u{1}1, \u{1}2)";
pub const B_REPLACE_STR_CPP: &'static str = "replace_str(\u{1}0, \u{1}1, \u{1}2)";
pub const B_REPLACE_STR_GO: &'static str = "strings.ReplaceAll(\u{1}0, \u{1}1, \u{1}2)";
pub const B_REPLACE_STR_JAVA: &'static str = "\u{1}0.replace(\u{1}1, \u{1}2)";

pub const B_TO_STRING_RUST: &'static str = "\u{1}0.to_string()";
pub const B_TO_STRING_PYTHON: &'static str = "str(\u{2}0)";
pub const B_TO_STRING_C: &'static str = "/* to_string: use sprintf for \u{1}0 */";
pub const B_TO_STRING_CPP: &'static str = "std::to_string(\u{1}0)";
pub const B_TO_STRING_GO: &'static str = "fmt.Sprintf(\"%v\", \u{1}0)";
pub const B_TO_STRING_JAVA: &'static str = "String.valueOf(\u{1}0)";

pub const B_PARSE_I64_RUST: &'static str = "\u{1}0.trim().parse::<i64>().unwrap_or(0)";
pub const B_PARSE_I64_PYTHON: &'static str = "int(\u{2}0.strip())";
pub const B_PARSE_I64_C: &'static str = "strtoll(\u{1}0, NULL, 10)";
pub const B_PARSE_I64_CPP: &'static str = "std::stoll(\u{1}0)";
pub const B_PARSE_I64_GO: &'static str = "func() int64 { n, _ := strconv.ParseInt(strings.TrimSpace(\u{1}0), 10, 64); return n }()";
pub const B_PARSE_I64_JAVA: &'static str = "Long.parseLong(\u{1}0.trim())";

pub const B_LEN_RUST: &'static str = "\u{1}0.len() as i64";
pub const B_LEN_PYTHON: &'static str = "int(len(\u{2}0))";
pub const B_LEN_C: &'static str = "(int64_t)strlen(\u{1}0)";
pub const B_LEN_CPP: &'static str = "(int64_t)\u{1}0.size()";
pub const B_LEN_GO: &'static str = "int64(len(\u{1}0))";
pub const B_LEN_JAVA: &'static str = "(long)\u{1}0.length()";

pub const B_SWAP_RUST: &'static str = "{ let __swap_a = \u{1}0; let __swap_b = \u{1}1; (__swap_b, __swap_a) }";
pub const B_SWAP_PYTHON: &'static str = "(\u{2}1, \u{2}0)";
pub const B_SWAP_CPP: &'static str = "[&]() { auto __sa = \u{1}0; auto __sb = \u{1}1; return std::make_pair(__sb, __sa); }()";
pub const B_SWAP_JAVA: &'static str = "((java.util.function.Supplier<Object[]>)(() -> { var __sa = \u{1}0; var __sb = \u{1}1; return new Object[]{__sb, __sa}; })).get()";

pub const B_IN_RUST: &'static str = "{let __fd = \u{1}0;let mut __f = unsafe { std::fs::File::from_raw_fd(__fd) };let mut __line = String::new();let mut __byte = [0u8; 1];loop {match __f.read(&mut __byte) {Ok(0) | Err(_) => break,Ok(_) => {if __byte[0] == b'\\n' { break; }__line.push(__byte[0] as char);}}}std::mem::forget(__f);__line.trim_end_matches('\\r').to_owned()}";
pub const B_IN_PYTHON: &'static str = "(lambda __os: b''.join(__import__('itertools').takewhile(lambda __b: __b != b'', iter(lambda: __os.read(\u{2}0, 1), b'\\n'))).decode('utf-8', errors='replace').rstrip('\\r'))(__import__('os'))";
pub const B_IN_C: &'static str = "({ char *__buf = (char *)malloc(4096); size_t __i = 0; char __ch; ssize_t __n; while (__i < 4095 && (__n = read(\u{1}0, &__ch, 1)) > 0) { if (__ch == '\\n') break; __buf[__i++] = __ch; } if (__i > 0 && __buf[__i-1] == '\\r') __i--; __buf[__i] = '\\0'; __buf; })";
pub const B_IN_CPP: &'static str = "[&]() -> std::string { std::string __s; char __ch; while (read(\u{1}0, &__ch, 1) > 0) { if (__ch == '\\n') break; __s += __ch; } if (!__s.empty() && __s.back() == '\\r') __s.pop_back(); return __s; }()";
pub const B_IN_GO: &'static str = "func() string { __f := os.NewFile(uintptr(\u{1}0), \"\"); if __f == nil { return \"\" } var __sb strings.Builder; __buf := make([]byte, 1); for { __n, __err := __f.Read(__buf); if __n == 0 || __err != nil { break } if __buf[0] == '\\n' { break } __sb.WriteByte(__buf[0]); } __line := strings.TrimRight(__sb.String(), \"\\r\"); runtime.KeepAlive(__f); return __line; }()";
pub const B_IN_JAVA: &'static str = "((java.util.function.Supplier<String>)(() -> { if ((\u{1}0) != 0) return \"\"; try { StringBuilder __sb = new StringBuilder(); int __ch; while ((__ch = System.in.read()) != -1) { if (__ch == '\\n') break; __sb.append((char) __ch); } String __line = __sb.toString(); if (__line.endsWith(\"\\r\")) __line = __line.substring(0, __line.length() - 1); return __line; } catch (java.io.IOException __e) { return \"\"; } })).get()";

pub const B_OUT_RUST: &'static str = "{let mut __f = ManuallyDrop::new(unsafe { std::fs::File::from_raw_fd(\u{1}0) });let __bytes = \u{1}1.as_bytes();__f.write_all(__bytes).map(|_| __bytes.len() as i32).unwrap_or(-1)}";
pub const B_OUT_PYTHON: &'static str = "(lambda __os, __fd, __b: __os.write(__fd, __b))(__import__('os'), \u{2}0, \u{2}1.encode('utf-8'))";
pub const B_OUT_C: &'static str = "write(\u{1}0, \u{1}1, strlen(\u{1}1))";
pub const B_OUT_CPP: &'static str = "write(\u{1}0, \u{1}1.c_str(), \u{1}1.size())";
pub const B_OUT_GO: &'static str = "func() int32 { __b := []byte(\u{1}1); __n, __err := syscall.Write(int(\u{1}0), __b); if __err != nil { return -1 } return int32(__n); }()";
pub const B_OUT_JAVA: &'static str = "((java.util.function.IntSupplier)(() -> { java.io.PrintStream __out; if ((\u{1}0) == 1) __out = System.out; else if ((\u{1}0) == 2) __out = System.err; else return BuNative.nOut(\u{1}0, \u{1}1); try { byte[] __b = \u{1}1.getBytes(java.nio.charset.StandardCharsets.UTF_8); __out.write(__b); __out.flush(); return __b.length; } catch (java.io.IOException __e) { return -1; } })).getAsInt()";

pub const B_OPEN_RUST: &'static str = "{use std::os::unix::io::IntoRawFd;let __mode: &str = \u{1}1.as_str();let mut __oo = std::fs::OpenOptions::new();match __mode {\"r\"  => { __oo.read(true); }\"w\"  => { __oo.write(true).create(true).truncate(true); }\"a\"  => { __oo.append(true).create(true); }\"rw\" => { __oo.read(true).write(true).create(true); }_     => { __oo.read(true); }}__oo.open(\u{1}0.as_str()).map(|f| f.into_raw_fd()).unwrap_or(-1)}";
pub const B_OPEN_PYTHON: &'static str = "(lambda __p, __m: (lambda __os: __os.open(__p, {'r':  __os.O_RDONLY,'w':  __os.O_WRONLY | __os.O_CREAT | __os.O_TRUNC,'a':  __os.O_WRONLY | __os.O_CREAT | __os.O_APPEND,'rw': __os.O_RDWR  | __os.O_CREAT,}.get(__m, __os.O_RDONLY), 0o644))(__import__('os')))(\u{2}0, \u{2}1)";
pub const B_OPEN_C: &'static str = "({ int __flags; if      (strcmp(\u{1}1, \"r\" ) == 0) __flags = O_RDONLY; else if (strcmp(\u{1}1, \"w\" ) == 0) __flags = O_WRONLY | O_CREAT | O_TRUNC; else if (strcmp(\u{1}1, \"a\" ) == 0) __flags = O_WRONLY | O_CREAT | O_APPEND; else if (strcmp(\u{1}1, \"rw\") == 0) __flags = O_RDWR  | O_CREAT; else                                  __flags = O_RDONLY; (int32_t)open(\u{1}0, __flags, 0644); })";
pub const B_OPEN_CPP: &'static str = "[&]() -> int32_t { int __flags; if      (\u{1}1 == \"r\" ) __flags = O_RDONLY; else if (\u{1}1 == \"w\" ) __flags = O_WRONLY | O_CREAT | O_TRUNC; else if (\u{1}1 == \"a\" ) __flags = O_WRONLY | O_CREAT | O_APPEND; else if (\u{1}1 == \"rw\") __flags = O_RDWR  | O_CREAT; else                      __flags = O_RDONLY; return static_cast<int32_t>(open(\u{1}0.c_str(), __flags, 0644)); }()";
pub const B_OPEN_GO: &'static str = "func() int32 { var __flag int; switch \u{1}1 { case \"r\":  __flag = os.O_RDONLY; case \"w\":  __flag = os.O_WRONLY | os.O_CREATE | os.O_TRUNC; case \"a\":  __flag = os.O_WRONLY | os.O_CREATE | os.O_APPEND; case \"rw\": __flag = os.O_RDWR  | os.O_CREATE; default:    __flag = os.O_RDONLY; } __f, __err := os.OpenFile(\u{1}0, __flag, 0644); if __err != nil { return -1 } return int32(__f.Fd()); }()";
pub const B_OPEN_JAVA: &'static str = "((java.util.function.IntSupplier)(() -> { try { java.nio.file.OpenOption[] __opts; switch (\u{1}1) { case \"r\":  __opts = new java.nio.file.OpenOption[]{ java.nio.file.StandardOpenOption.READ }; break; case \"w\":  __opts = new java.nio.file.OpenOption[]{ java.nio.file.StandardOpenOption.WRITE, java.nio.file.StandardOpenOption.CREATE, java.nio.file.StandardOpenOption.TRUNCATE_EXISTING }; break; case \"a\":  __opts = new java.nio.file.OpenOption[]{ java.nio.file.StandardOpenOption.WRITE, java.nio.file.StandardOpenOption.CREATE, java.nio.file.StandardOpenOption.APPEND }; break; default:   __opts = new java.nio.file.OpenOption[]{ java.nio.file.StandardOpenOption.READ }; } java.nio.channels.FileChannel __fc = java.nio.channels.FileChannel.open( java.nio.file.Paths.get(\u{1}0), __opts); return (int)__fc.hashCode(); } catch (Exception __e) { return -1; } })).getAsInt()";

pub const B_CLOSE_RUST: &'static str = "{unsafe { drop(std::fs::File::from_raw_fd(\u{1}0)) };0i32}";
pub const B_CLOSE_PYTHON: &'static str = "(lambda __os: (__os.close(\u{2}0), 0)[1])(__import__('os'))";
pub const B_CLOSE_C: &'static str = "close(\u{1}0)";
pub const B_CLOSE_CPP: &'static str = "close(\u{1}0)";
pub const B_CLOSE_GO: &'static str = "func() int32 {if __err := syscall.Close(int(\u{1}0)); __err != nil { return -1 }return 0}()";
pub const B_CLOSE_JAVA: &'static str = "((java.util.function.IntSupplier)(() -> { try { if ((\u{1}0) == 0) { System.in.close(); return 0; } if ((\u{1}0) == 1) { System.out.close(); return 0; } if ((\u{1}0) == 2) { System.err.close(); return 0; } return BuNative.nClose(\u{1}0); } catch (java.io.IOException __e) { return -1; } })).getAsInt()";

pub const B_TIME_RUST: &'static str = "std::time::SystemTime::now().duration_since(std::time::UNIX_EPOCH).map(|d| d.as_secs() as i64).unwrap_or(0)";
pub const B_TIME_PYTHON: &'static str = "int(__import__('time').time())";
pub const B_TIME_C: &'static str = "(int64_t)time(NULL)";
pub const B_TIME_CPP: &'static str = "static_cast<int64_t>(std::chrono::duration_cast<std::chrono::seconds>(std::chrono::system_clock::now().time_since_epoch()).count())";
pub const B_TIME_GO: &'static str = "time.Now().Unix()";
pub const B_TIME_JAVA: &'static str = "System.currentTimeMillis() / 1000L";

pub const B_ARGS_RUST: &'static str = "std::env::args().skip(1).collect::<Vec<String>>()";
pub const B_ARGS_PYTHON: &'static str = "__import__('sys').argv[1:]";
pub const B_ARGS_C: &'static str = "({vec_t *__args = vec_new();extern int   __bu_argc;extern char **__bu_argv;for (int __i = 1; __i < __bu_argc; __i++)vec_push(__args, __bu_argv[__i]);__args;})";
pub const B_ARGS_CPP: &'static str = "[&]() {extern int   __bu_argc;extern char **__bu_argv;std::vector<std::string> __v;for (int __i = 1; __i < __bu_argc; __i++)__v.emplace_back(__bu_argv[__i]);return __v;}()";
pub const B_ARGS_GO: &'static str = "os.Args[1:]";
pub const B_ARGS_JAVA: &'static str = "((java.util.function.Supplier<java.util.ArrayList<String>>)(() -> {\n               java.util.ArrayList<String> __a = new java.util.ArrayList<>();\n               for (String __s : System.getProperty(\"sun.java.command\",\"\").split(\" \")) __a.add(__s);\n               return __a; })).get()";

pub const B_EXIT_RUST: &'static str = "{ std::process::exit(\u{1}0 as i32); }";
pub const B_EXIT_PYTHON: &'static str = "__import__('sys').exit(\u{2}0)";
pub const B_EXIT_C: &'static str = "exit(\u{1}0)";
pub const B_EXIT_CPP: &'static str = "std::exit(\u{1}0)";
pub const B_EXIT_GO: &'static str = "os.Exit(int(\u{1}0))";
pub const B_EXIT_JAVA: &'static str = "((java.lang.Runnable)(() -> System.exit((int)(\u{1}0))).run())";

pub const B_ENV_RUST: &'static str = "std::env::var(\u{1}0.as_str()).unwrap_or_default()";
pub const B_ENV_PYTHON: &'static str = "__import__('os').environ.get(\u{2}0, \"\")";
pub const B_ENV_C: &'static str = "({ char *__ev = getenv(\u{1}0); __ev ? __ev : \"\"; })";
pub const B_ENV_CPP: &'static str = "[&]() -> std::string { const char *__ev = getenv(\u{1}0.c_str()); return __ev ? std::string(__ev) : std::string(); }()";
pub const B_ENV_GO: &'static str = "os.Getenv(\u{1}0)";
pub const B_ENV_JAVA: &'static str = "(System.getenv(\u{1}0) != null ? System.getenv(\u{1}0) : \"\")";

pub const B_SWAP_C_UNTYPED: &'static str = "'builtin::swap' (C backend) couldn't determine the type of '\u{1}0' \u{2014} this needs a concrete type to build the returned Tuple[T,T] value";
pub const B_SWAP_GO_UNTYPED: &'static str = "'builtin::swap' (Go backend) couldn't determine the type of '\u{1}0' \u{2014} this needs a concrete type to build the returned Tuple[T,T] value";
pub const B_SWAP_GO: &'static str = "func() \u{3} { __sa := \u{1}0; __sb := \u{1}1; return \u{3}{V0: __sb, V1: __sa} }()";
pub const B_CLOSE_JAVA_STDIN: &'static str = "((java.util.function.IntSupplier)(() -> { try { System.in.close(); return 0; } catch (java.io.IOException __e) { return -1; } })).getAsInt()";
pub const B_CLOSE_JAVA_STDOUT: &'static str = "((java.util.function.IntSupplier)(() -> { System.out.close(); return 0; })).getAsInt()";
pub const B_CLOSE_JAVA_STDERR: &'static str = "((java.util.function.IntSupplier)(() -> { System.err.close(); return 0; })).getAsInt()";
pub const B_OUT_JAVA_STD: &'static str = "((java.util.function.IntSupplier)(() -> { try { byte[] __b = \u{1}1.getBytes(java.nio.charset.StandardCharsets.UTF_8); \u{3}.write(__b); \u{3}.flush(); return __b.length; } catch (java.io.IOException __e) { return -1; } })).getAsInt()";

/// One of six templates, by backend; an unknown backend has none.
pub open spec fn pick(b: BackendV, rust: &'static str, python: &'static str, c: &'static str, cpp: &'static str, go: &'static str, java: &'static str) -> Seq<char> {
    match b {
        BackendV::Rust => rust@,
        BackendV::Python => python@,
        BackendV::C => c@,
        BackendV::Cpp => cpp@,
        BackendV::Go => go@,
        BackendV::Java => java@,
        BackendV::Unknown(_) => Seq::empty(),
    }
}

fn pick_of(b: &Backend, rust: &'static str, python: &'static str, c: &'static str, cpp: &'static str, go: &'static str, java: &'static str) -> (r: &'static str)
    ensures
        r@ == pick(b@, rust, python, c, cpp, go, java),
{
    match b {
        Backend::Rust => rust,
        Backend::Python => python,
        Backend::C => c,
        Backend::Cpp => cpp,
        Backend::Go => go,
        Backend::Java => java,
        Backend::Unknown(_) => {
            proof {
                reveal_strlit("");
            }
            ""
        },
    }
}

/// The template of a builtin for a backend, the cases that depend on an
/// argument aside (those are decided where the builtin is expanded).
#[verifier::opaque]
pub open spec fn template(name: Seq<char>, b: BackendV) -> Seq<char> {
    if name == "min"@ {
        pick(b, B_MIN_RUST, B_MIN_PYTHON, B_MIN_C, B_MIN_CPP, B_MIN_GO, B_MIN_JAVA)
    } else if name == "max"@ {
        pick(b, B_MAX_RUST, B_MAX_PYTHON, B_MAX_C, B_MAX_CPP, B_MAX_GO, B_MAX_JAVA)
    } else if name == "tern"@ {
        pick(b, B_TERN_RUST, B_TERN_PYTHON, B_TERN_C, B_TERN_CPP, B_TERN_GO, B_TERN_JAVA)
    } else if name == "to_upper"@ {
        pick(b, B_TO_UPPER_RUST, B_TO_UPPER_PYTHON, B_TO_UPPER_C, B_TO_UPPER_CPP, B_TO_UPPER_GO, B_TO_UPPER_JAVA)
    } else if name == "to_lower"@ {
        pick(b, B_TO_LOWER_RUST, B_TO_LOWER_PYTHON, B_TO_LOWER_C, B_TO_LOWER_CPP, B_TO_LOWER_GO, B_TO_LOWER_JAVA)
    } else if name == "trim"@ {
        pick(b, B_TRIM_RUST, B_TRIM_PYTHON, B_TRIM_C, B_TRIM_CPP, B_TRIM_GO, B_TRIM_JAVA)
    } else if name == "starts_with"@ {
        pick(b, B_STARTS_WITH_RUST, B_STARTS_WITH_PYTHON, B_STARTS_WITH_C, B_STARTS_WITH_CPP, B_STARTS_WITH_GO, B_STARTS_WITH_JAVA)
    } else if name == "ends_with"@ {
        pick(b, B_ENDS_WITH_RUST, B_ENDS_WITH_PYTHON, B_ENDS_WITH_C, B_ENDS_WITH_CPP, B_ENDS_WITH_GO, B_ENDS_WITH_JAVA)
    } else if name == "replace_str"@ {
        pick(b, B_REPLACE_STR_RUST, B_REPLACE_STR_PYTHON, B_REPLACE_STR_C, B_REPLACE_STR_CPP, B_REPLACE_STR_GO, B_REPLACE_STR_JAVA)
    } else if name == "to_string"@ {
        pick(b, B_TO_STRING_RUST, B_TO_STRING_PYTHON, B_TO_STRING_C, B_TO_STRING_CPP, B_TO_STRING_GO, B_TO_STRING_JAVA)
    } else if name == "parse_i64"@ {
        pick(b, B_PARSE_I64_RUST, B_PARSE_I64_PYTHON, B_PARSE_I64_C, B_PARSE_I64_CPP, B_PARSE_I64_GO, B_PARSE_I64_JAVA)
    } else if name == "len"@ {
        pick(b, B_LEN_RUST, B_LEN_PYTHON, B_LEN_C, B_LEN_CPP, B_LEN_GO, B_LEN_JAVA)
    } else if name == "swap"@ {
        pick(b, B_SWAP_RUST, B_SWAP_PYTHON, B_SWAP_C_UNTYPED, B_SWAP_CPP, B_SWAP_GO_UNTYPED, B_SWAP_JAVA)
    } else if name == "in"@ {
        pick(b, B_IN_RUST, B_IN_PYTHON, B_IN_C, B_IN_CPP, B_IN_GO, B_IN_JAVA)
    } else if name == "out"@ {
        pick(b, B_OUT_RUST, B_OUT_PYTHON, B_OUT_C, B_OUT_CPP, B_OUT_GO, B_OUT_JAVA)
    } else if name == "open"@ {
        pick(b, B_OPEN_RUST, B_OPEN_PYTHON, B_OPEN_C, B_OPEN_CPP, B_OPEN_GO, B_OPEN_JAVA)
    } else if name == "close"@ {
        pick(b, B_CLOSE_RUST, B_CLOSE_PYTHON, B_CLOSE_C, B_CLOSE_CPP, B_CLOSE_GO, B_CLOSE_JAVA)
    } else if name == "time"@ {
        pick(b, B_TIME_RUST, B_TIME_PYTHON, B_TIME_C, B_TIME_CPP, B_TIME_GO, B_TIME_JAVA)
    } else if name == "args"@ {
        pick(b, B_ARGS_RUST, B_ARGS_PYTHON, B_ARGS_C, B_ARGS_CPP, B_ARGS_GO, B_ARGS_JAVA)
    } else if name == "exit"@ {
        pick(b, B_EXIT_RUST, B_EXIT_PYTHON, B_EXIT_C, B_EXIT_CPP, B_EXIT_GO, B_EXIT_JAVA)
    } else if name == "env"@ {
        pick(b, B_ENV_RUST, B_ENV_PYTHON, B_ENV_C, B_ENV_CPP, B_ENV_GO, B_ENV_JAVA)
    } else {
        Seq::empty()
    }
}

pub fn template_of(name: &str, b: &Backend) -> (r: &'static str)
    ensures
        r@ == template(name@, b@),
{
    proof {
        reveal(template);
        reveal_strlit("");
        reveal_strlit("min");
        reveal_strlit("max");
        reveal_strlit("tern");
        reveal_strlit("to_upper");
        reveal_strlit("to_lower");
        reveal_strlit("trim");
        reveal_strlit("starts_with");
        reveal_strlit("ends_with");
        reveal_strlit("replace_str");
        reveal_strlit("to_string");
        reveal_strlit("parse_i64");
        reveal_strlit("len");
        reveal_strlit("swap");
        reveal_strlit("in");
        reveal_strlit("out");
        reveal_strlit("open");
        reveal_strlit("close");
        reveal_strlit("time");
        reveal_strlit("args");
        reveal_strlit("exit");
        reveal_strlit("env");
    }
    if str_is(name, "min") {
        pick_of(b, B_MIN_RUST, B_MIN_PYTHON, B_MIN_C, B_MIN_CPP, B_MIN_GO, B_MIN_JAVA)
    } else if str_is(name, "max") {
        pick_of(b, B_MAX_RUST, B_MAX_PYTHON, B_MAX_C, B_MAX_CPP, B_MAX_GO, B_MAX_JAVA)
    } else if str_is(name, "tern") {
        pick_of(b, B_TERN_RUST, B_TERN_PYTHON, B_TERN_C, B_TERN_CPP, B_TERN_GO, B_TERN_JAVA)
    } else if str_is(name, "to_upper") {
        pick_of(b, B_TO_UPPER_RUST, B_TO_UPPER_PYTHON, B_TO_UPPER_C, B_TO_UPPER_CPP, B_TO_UPPER_GO, B_TO_UPPER_JAVA)
    } else if str_is(name, "to_lower") {
        pick_of(b, B_TO_LOWER_RUST, B_TO_LOWER_PYTHON, B_TO_LOWER_C, B_TO_LOWER_CPP, B_TO_LOWER_GO, B_TO_LOWER_JAVA)
    } else if str_is(name, "trim") {
        pick_of(b, B_TRIM_RUST, B_TRIM_PYTHON, B_TRIM_C, B_TRIM_CPP, B_TRIM_GO, B_TRIM_JAVA)
    } else if str_is(name, "starts_with") {
        pick_of(b, B_STARTS_WITH_RUST, B_STARTS_WITH_PYTHON, B_STARTS_WITH_C, B_STARTS_WITH_CPP, B_STARTS_WITH_GO, B_STARTS_WITH_JAVA)
    } else if str_is(name, "ends_with") {
        pick_of(b, B_ENDS_WITH_RUST, B_ENDS_WITH_PYTHON, B_ENDS_WITH_C, B_ENDS_WITH_CPP, B_ENDS_WITH_GO, B_ENDS_WITH_JAVA)
    } else if str_is(name, "replace_str") {
        pick_of(b, B_REPLACE_STR_RUST, B_REPLACE_STR_PYTHON, B_REPLACE_STR_C, B_REPLACE_STR_CPP, B_REPLACE_STR_GO, B_REPLACE_STR_JAVA)
    } else if str_is(name, "to_string") {
        pick_of(b, B_TO_STRING_RUST, B_TO_STRING_PYTHON, B_TO_STRING_C, B_TO_STRING_CPP, B_TO_STRING_GO, B_TO_STRING_JAVA)
    } else if str_is(name, "parse_i64") {
        pick_of(b, B_PARSE_I64_RUST, B_PARSE_I64_PYTHON, B_PARSE_I64_C, B_PARSE_I64_CPP, B_PARSE_I64_GO, B_PARSE_I64_JAVA)
    } else if str_is(name, "len") {
        pick_of(b, B_LEN_RUST, B_LEN_PYTHON, B_LEN_C, B_LEN_CPP, B_LEN_GO, B_LEN_JAVA)
    } else if str_is(name, "swap") {
        pick_of(b, B_SWAP_RUST, B_SWAP_PYTHON, B_SWAP_C_UNTYPED, B_SWAP_CPP, B_SWAP_GO_UNTYPED, B_SWAP_JAVA)
    } else if str_is(name, "in") {
        pick_of(b, B_IN_RUST, B_IN_PYTHON, B_IN_C, B_IN_CPP, B_IN_GO, B_IN_JAVA)
    } else if str_is(name, "out") {
        pick_of(b, B_OUT_RUST, B_OUT_PYTHON, B_OUT_C, B_OUT_CPP, B_OUT_GO, B_OUT_JAVA)
    } else if str_is(name, "open") {
        pick_of(b, B_OPEN_RUST, B_OPEN_PYTHON, B_OPEN_C, B_OPEN_CPP, B_OPEN_GO, B_OPEN_JAVA)
    } else if str_is(name, "close") {
        pick_of(b, B_CLOSE_RUST, B_CLOSE_PYTHON, B_CLOSE_C, B_CLOSE_CPP, B_CLOSE_GO, B_CLOSE_JAVA)
    } else if str_is(name, "time") {
        pick_of(b, B_TIME_RUST, B_TIME_PYTHON, B_TIME_C, B_TIME_CPP, B_TIME_GO, B_TIME_JAVA)
    } else if str_is(name, "args") {
        pick_of(b, B_ARGS_RUST, B_ARGS_PYTHON, B_ARGS_C, B_ARGS_CPP, B_ARGS_GO, B_ARGS_JAVA)
    } else if str_is(name, "exit") {
        pick_of(b, B_EXIT_RUST, B_EXIT_PYTHON, B_EXIT_C, B_EXIT_CPP, B_EXIT_GO, B_EXIT_JAVA)
    } else if str_is(name, "env") {
        pick_of(b, B_ENV_RUST, B_ENV_PYTHON, B_ENV_C, B_ENV_CPP, B_ENV_GO, B_ENV_JAVA)
    } else {
        ""
    }
}

/// How many parameters each builtin takes.
pub open spec fn arity(name: Seq<char>) -> nat {
    if name == "min"@ {
        1
    } else if name == "max"@ {
        1
    } else if name == "tern"@ {
        4
    } else if name == "to_upper"@ {
        1
    } else if name == "to_lower"@ {
        1
    } else if name == "trim"@ {
        1
    } else if name == "starts_with"@ {
        2
    } else if name == "ends_with"@ {
        2
    } else if name == "replace_str"@ {
        3
    } else if name == "to_string"@ {
        1
    } else if name == "parse_i64"@ {
        1
    } else if name == "len"@ {
        1
    } else if name == "swap"@ {
        2
    } else if name == "in"@ {
        1
    } else if name == "out"@ {
        2
    } else if name == "open"@ {
        2
    } else if name == "close"@ {
        1
    } else if name == "time"@ {
        0
    } else if name == "args"@ {
        0
    } else if name == "exit"@ {
        1
    } else if name == "env"@ {
        1
    } else {
        0
    }
}

pub fn arity_of(name: &str) -> (r: usize)
    ensures
        r == arity(name@),
{
    proof {
        reveal_strlit("");
        reveal_strlit("min");
        reveal_strlit("max");
        reveal_strlit("tern");
        reveal_strlit("to_upper");
        reveal_strlit("to_lower");
        reveal_strlit("trim");
        reveal_strlit("starts_with");
        reveal_strlit("ends_with");
        reveal_strlit("replace_str");
        reveal_strlit("to_string");
        reveal_strlit("parse_i64");
        reveal_strlit("len");
        reveal_strlit("swap");
        reveal_strlit("in");
        reveal_strlit("out");
        reveal_strlit("open");
        reveal_strlit("close");
        reveal_strlit("time");
        reveal_strlit("args");
        reveal_strlit("exit");
        reveal_strlit("env");
    }
    if str_is(name, "min") {
        1
    } else if str_is(name, "max") {
        1
    } else if str_is(name, "tern") {
        4
    } else if str_is(name, "to_upper") {
        1
    } else if str_is(name, "to_lower") {
        1
    } else if str_is(name, "trim") {
        1
    } else if str_is(name, "starts_with") {
        2
    } else if str_is(name, "ends_with") {
        2
    } else if str_is(name, "replace_str") {
        3
    } else if str_is(name, "to_string") {
        1
    } else if str_is(name, "parse_i64") {
        1
    } else if str_is(name, "len") {
        1
    } else if str_is(name, "swap") {
        2
    } else if str_is(name, "in") {
        1
    } else if str_is(name, "out") {
        2
    } else if str_is(name, "open") {
        2
    } else if str_is(name, "close") {
        1
    } else if str_is(name, "time") {
        0
    } else if str_is(name, "args") {
        0
    } else if str_is(name, "exit") {
        1
    } else if str_is(name, "env") {
        1
    } else {
        0
    }
}

} // verus!
