use vstd::prelude::*;
use vstd::string::*;
use vstd::utf8::valid_utf8;
use crate::paths::{file_name, name_of, str_eq};

verus! {

/// Number of leading bytes of a file that the content check inspects.
pub const SAMPLE_SIZE: usize = 8192;

/// What `str::to_lowercase` returns for a string.
pub uninterp spec fn lower_of(s: Seq<char>) -> Seq<char>;

/// Whether `infer` recognises a binary file signature at the start of the bytes.
pub uninterp spec fn known_signature(b: Seq<u8>) -> bool;

/// Relies on `str::to_lowercase`: the result depends on the characters alone,
/// and an empty string stays empty.
#[verifier::external_body]
pub(crate) fn lowercase(s: &str) -> (r: String)
    ensures
        r@ == lower_of(s@),
        s@.len() == 0 ==> r@.len() == 0,
{
    s.to_lowercase()
}

/// Relies on `infer::get`: `Some` exactly when a known file signature matches.
#[verifier::external_body]
fn has_known_signature(buf: &[u8]) -> (r: bool)
    ensures
        r == known_signature(buf@),
{
    infer::get(buf).is_some()
}

/// Relies on `std::str::from_utf8`: `Ok` exactly when the bytes are valid UTF-8.
#[verifier::external_body]
fn is_utf8(buf: &[u8], start: usize, end: usize) -> (r: bool)
    requires
        start <= end <= buf@.len(),
    ensures
        r == valid_utf8(buf@.subrange(start as int, end as int)),
{
    std::str::from_utf8(&buf[start..end]).is_ok()
}

/// Index of the last '.' among the first `i` characters, -1 when there is none.
pub open spec fn last_dot(p: Seq<char>, i: int) -> int
    decreases i,
{
    if i <= 0 {
        -1
    } else if p[i - 1] == '.' {
        i - 1
    } else {
        last_dot(p, i - 1)
    }
}

/// Extension of a file name: what follows its last '.', unless that '.' opens the name.
pub open spec fn extension_of(name: Seq<char>) -> Option<Seq<char>> {
    let d = last_dot(name, name.len() as int);
    if d <= 0 || name == seq!['.', '.'] {
        None
    } else {
        Some(name.subrange(d + 1, name.len() as int))
    }
}

/// Lower-case extensions of source, markup, data, script and config files.
pub open spec fn is_text_extension(e: Seq<char>) -> bool {
    e == "rs"@
        || e == "py"@
        || e == "js"@
        || e == "ts"@
        || e == "jsx"@
        || e == "tsx"@
        || e == "java"@
        || e == "c"@
        || e == "cpp"@
        || e == "cc"@
        || e == "cxx"@
        || e == "h"@
        || e == "hpp"@
        || e == "hxx"@
        || e == "go"@
        || e == "rb"@
        || e == "php"@
        || e == "swift"@
        || e == "kt"@
        || e == "kts"@
        || e == "scala"@
        || e == "dart"@
        || e == "lua"@
        || e == "perl"@
        || e == "r"@
        || e == "jl"@
        || e == "hs"@
        || e == "elm"@
        || e == "clj"@
        || e == "cljs"@
        || e == "ex"@
        || e == "exs"@
        || e == "erl"@
        || e == "hrl"@
        || e == "ml"@
        || e == "mli"@
        || e == "fs"@
        || e == "fsi"@
        || e == "fsx"@
        || e == "fsscript"@
        || e == "pas"@
        || e == "pp"@
        || e == "inc"@
        || e == "asm"@
        || e == "s"@
        || e == "html"@
        || e == "htm"@
        || e == "css"@
        || e == "scss"@
        || e == "sass"@
        || e == "less"@
        || e == "vue"@
        || e == "svelte"@
        || e == "json"@
        || e == "yaml"@
        || e == "yml"@
        || e == "toml"@
        || e == "xml"@
        || e == "csv"@
        || e == "tsv"@
        || e == "ini"@
        || e == "conf"@
        || e == "config"@
        || e == "properties"@
        || e == "env"@
        || e == "md"@
        || e == "txt"@
        || e == "rst"@
        || e == "adoc"@
        || e == "tex"@
        || e == "org"@
        || e == "sh"@
        || e == "bash"@
        || e == "zsh"@
        || e == "fish"@
        || e == "ps1"@
        || e == "bat"@
        || e == "cmd"@
        || e == "gitignore"@
        || e == "gitattributes"@
        || e == "dockerignore"@
        || e == "editorconfig"@
        || e == "eslintrc"@
        || e == "prettierrc"@
        || e == "babelrc"@
        || e == "npmrc"@
        || e == "yarnrc"@
        || e == "dockerfile"@
        || e == "makefile"@
        || e == "cmake"@
        || e == "gradle"@
        || e == "maven"@
        || e == "ant"@
        || e == "webpack"@
        || e == "rollup"@
        || e == "vite"@
        || e == "gulpfile"@
        || e == "gruntfile"@
        || e == "package"@
        || e == "lock"@
        || e == "sum"@
        || e == "mod"@
        || e == "cargo"@
        || e == "gemfile"@
        || e == "podfile"@
        || e == "requirements"@
        || e == "pipfile"@
        || e == "pyproject"@
        || e == "log"@
        || e == "typ"@
        || e == "typst"@
        || e == "nix"@
        || e == "vim"@
        || e == "vimrc"@
        || e == "emacs"@
        || e == "el"@
        || e == "lisp"@
        || e == "scm"@
        || e == "rkt"@
        || e == "sql"@
        || e == "proto"@
        || e == "graphql"@
        || e == "gql"@
}

/// Lower-case names of well-known extensionless text files.
pub open spec fn is_text_filename(n: Seq<char>) -> bool {
    n == "readme"@
        || n == "license"@
        || n == "changelog"@
        || n == "authors"@
        || n == "contributors"@
        || n == "makefile"@
        || n == "dockerfile"@
        || n == "vagrantfile"@
        || n == "gemfile"@
        || n == "rakefile"@
        || n == "procfile"@
        || n == "cmakelists"@
        || n == "build"@
        || n == "configure"@
        || n == "install"@
        || n == "news"@
        || n == "todo"@
        || n == "copying"@
        || n == "manifest"@
        || n == "justfile"@
}

/// The name-based verdict for a path.
pub open spec fn text_by_name(path: Seq<char>) -> bool {
    match extension_of(name_of(path)) {
        Some(e) => is_text_extension(lower_of(e)),
        None => is_text_filename(lower_of(name_of(path))),
    }
}

/// Printable ASCII, tab, carriage return or line feed.
pub open spec fn printable_ascii(b: u8) -> bool {
    (32 <= b && b <= 126) || b == 10 || b == 13 || b == 9
}

/// Length of the UTF-8 sequence that a leading byte announces.
pub open spec fn utf8_width(b: u8) -> Option<int> {
    if b & 0x80 == 0 {
        Some(1)
    } else if b & 0xE0 == 0xC0 {
        Some(2)
    } else if b & 0xF0 == 0xE0 {
        Some(3)
    } else if b & 0xF8 == 0xF0 {
        Some(4)
    } else {
        None
    }
}

/// Printable bytes counted by a left-to-right scan from position `i`: printable
/// ASCII counts one, a complete valid multi-byte UTF-8 sequence counts its length,
/// anything else is skipped.
pub open spec fn printable_from(buf: Seq<u8>, i: int) -> int
    decreases buf.len() - i,
{
    if i < 0 || i >= buf.len() {
        0
    } else if printable_ascii(buf[i]) {
        1 + printable_from(buf, i + 1)
    } else if buf[i] >= 0x80 && utf8_width(buf[i]) is Some && utf8_width(buf[i])->0 >= 1
        && i + utf8_width(buf[i])->0 <= buf.len() && valid_utf8(
        buf.subrange(i, i + utf8_width(buf[i])->0),
    ) {
        utf8_width(buf[i])->0 + printable_from(buf, i + utf8_width(buf[i])->0)
    } else {
        printable_from(buf, i + 1)
    }
}

/// A non-empty sample without NUL bytes of which at least 95% is printable.
pub open spec fn likely_text(buf: Seq<u8>) -> bool {
    &&& buf.len() > 0
    &&& !buf.contains(0u8)
    &&& 100 * printable_from(buf, 0) >= 95 * buf.len()
}

/// The leading bytes of a file that the content check looks at.
pub open spec fn sample_of(b: Seq<u8>) -> Seq<u8> {
    if b.len() > SAMPLE_SIZE {
        b.take(SAMPLE_SIZE as int)
    } else {
        b
    }
}

/// The content-based verdict for the leading bytes of a file.
pub open spec fn text_by_content(b: Seq<u8>) -> bool {
    let s = sample_of(b);
    s.len() > 0 && !known_signature(s) && likely_text(s)
}

/// Extension of a file name, as `extension_of` describes it.
pub fn extension(name: &str) -> (r: Option<String>)
    ensures
        match r {
            Some(e) => extension_of(name@) == Some(e@),
            None => extension_of(name@) is None,
        },
{
    let n = name.unicode_len();
    let mut i: usize = n;
    while i > 0 && name.get_char(i - 1) != '.'
        invariant
            i <= n,
            n == name@.len(),
            last_dot(name@, n as int) == last_dot(name@, i as int),
        decreases i,
    {
        i = i - 1;
    }
    proof {
        reveal_strlit("..");
        assert(".."@ =~= seq!['.', '.']);
    }
    if i <= 1 || str_eq(name, "..") {
        None
    } else {
        Some(String::from_str(name.substring_char(i, n)))
    }
}

/// Whether a file is text by its extension or, lacking one, by its well-known name.
pub fn is_text_by_extension(path: &str) -> (r: bool)
    ensures
        r == text_by_name(path@),
{
    let name = file_name(path);
    match extension(name.as_str()) {
        Some(e) => {
            let e = lowercase(e.as_str());
            let e = e.as_str();
            str_eq(e, "rs")
        || str_eq(e, "py")
        || str_eq(e, "js")
        || str_eq(e, "ts")
        || str_eq(e, "jsx")
        || str_eq(e, "tsx")
        || str_eq(e, "java")
        || str_eq(e, "c")
        || str_eq(e, "cpp")
        || str_eq(e, "cc")
        || str_eq(e, "cxx")
        || str_eq(e, "h")
        || str_eq(e, "hpp")
        || str_eq(e, "hxx")
        || str_eq(e, "go")
        || str_eq(e, "rb")
        || str_eq(e, "php")
        || str_eq(e, "swift")
        || str_eq(e, "kt")
        || str_eq(e, "kts")
        || str_eq(e, "scala")
        || str_eq(e, "dart")
        || str_eq(e, "lua")
        || str_eq(e, "perl")
        || str_eq(e, "r")
        || str_eq(e, "jl")
        || str_eq(e, "hs")
        || str_eq(e, "elm")
        || str_eq(e, "clj")
        || str_eq(e, "cljs")
        || str_eq(e, "ex")
        || str_eq(e, "exs")
        || str_eq(e, "erl")
        || str_eq(e, "hrl")
        || str_eq(e, "ml")
        || str_eq(e, "mli")
        || str_eq(e, "fs")
        || str_eq(e, "fsi")
        || str_eq(e, "fsx")
        || str_eq(e, "fsscript")
        || str_eq(e, "pas")
        || str_eq(e, "pp")
        || str_eq(e, "inc")
        || str_eq(e, "asm")
        || str_eq(e, "s")
        || str_eq(e, "html")
        || str_eq(e, "htm")
        || str_eq(e, "css")
        || str_eq(e, "scss")
        || str_eq(e, "sass")
        || str_eq(e, "less")
        || str_eq(e, "vue")
        || str_eq(e, "svelte")
        || str_eq(e, "json")
        || str_eq(e, "yaml")
        || str_eq(e, "yml")
        || str_eq(e, "toml")
        || str_eq(e, "xml")
        || str_eq(e, "csv")
        || str_eq(e, "tsv")
        || str_eq(e, "ini")
        || str_eq(e, "conf")
        || str_eq(e, "config")
        || str_eq(e, "properties")
        || str_eq(e, "env")
        || str_eq(e, "md")
        || str_eq(e, "txt")
        || str_eq(e, "rst")
        || str_eq(e, "adoc")
        || str_eq(e, "tex")
        || str_eq(e, "org")
        || str_eq(e, "sh")
        || str_eq(e, "bash")
        || str_eq(e, "zsh")
        || str_eq(e, "fish")
        || str_eq(e, "ps1")
        || str_eq(e, "bat")
        || str_eq(e, "cmd")
        || str_eq(e, "gitignore")
        || str_eq(e, "gitattributes")
        || str_eq(e, "dockerignore")
        || str_eq(e, "editorconfig")
        || str_eq(e, "eslintrc")
        || str_eq(e, "prettierrc")
        || str_eq(e, "babelrc")
        || str_eq(e, "npmrc")
        || str_eq(e, "yarnrc")
        || str_eq(e, "dockerfile")
        || str_eq(e, "makefile")
        || str_eq(e, "cmake")
        || str_eq(e, "gradle")
        || str_eq(e, "maven")
        || str_eq(e, "ant")
        || str_eq(e, "webpack")
        || str_eq(e, "rollup")
        || str_eq(e, "vite")
        || str_eq(e, "gulpfile")
        || str_eq(e, "gruntfile")
        || str_eq(e, "package")
        || str_eq(e, "lock")
        || str_eq(e, "sum")
        || str_eq(e, "mod")
        || str_eq(e, "cargo")
        || str_eq(e, "gemfile")
        || str_eq(e, "podfile")
        || str_eq(e, "requirements")
        || str_eq(e, "pipfile")
        || str_eq(e, "pyproject")
        || str_eq(e, "log")
        || str_eq(e, "typ")
        || str_eq(e, "typst")
        || str_eq(e, "nix")
        || str_eq(e, "vim")
        || str_eq(e, "vimrc")
        || str_eq(e, "emacs")
        || str_eq(e, "el")
        || str_eq(e, "lisp")
        || str_eq(e, "scm")
        || str_eq(e, "rkt")
        || str_eq(e, "sql")
        || str_eq(e, "proto")
        || str_eq(e, "graphql")
        || str_eq(e, "gql")
        },
        None => {
            let n = lowercase(name.as_str());
            let n = n.as_str();
            str_eq(n, "readme")
        || str_eq(n, "license")
        || str_eq(n, "changelog")
        || str_eq(n, "authors")
        || str_eq(n, "contributors")
        || str_eq(n, "makefile")
        || str_eq(n, "dockerfile")
        || str_eq(n, "vagrantfile")
        || str_eq(n, "gemfile")
        || str_eq(n, "rakefile")
        || str_eq(n, "procfile")
        || str_eq(n, "cmakelists")
        || str_eq(n, "build")
        || str_eq(n, "configure")
        || str_eq(n, "install")
        || str_eq(n, "news")
        || str_eq(n, "todo")
        || str_eq(n, "copying")
        || str_eq(n, "manifest")
        || str_eq(n, "justfile")
        },
    }
}

/// Sequence length that a leading byte announces, `None` for a continuation or
/// invalid byte.
pub fn get_utf8_char_length(first_byte: u8) -> (r: Option<usize>)
    ensures
        match r {
            Some(w) => utf8_width(first_byte) == Some(w as int),
            None => utf8_width(first_byte) is None,
        },
{
    if first_byte & 0x80 == 0 {
        Some(1)
    } else if first_byte & 0xE0 == 0xC0 {
        Some(2)
    } else if first_byte & 0xF0 == 0xE0 {
        Some(3)
    } else if first_byte & 0xF8 == 0xF0 {
        Some(4)
    } else {
        None
    }
}

/// Whether the buffer holds a zero byte.
fn has_nul(buffer: &[u8]) -> (r: bool)
    ensures
        r == buffer@.contains(0u8),
{
    let mut i: usize = 0;
    while i < buffer.len()
        invariant
            i <= buffer@.len(),
            forall|j: int| 0 <= j < i ==> buffer@[j] != 0u8,
        decreases buffer.len() - i,
    {
        if buffer[i] == 0 {
            return true;
        }
        i = i + 1;
    }
    false
}

/// Printable-byte heuristic: no NUL byte and at least 95% printable bytes.
pub fn is_likely_text(buffer: &[u8]) -> (r: bool)
    ensures
        r == likely_text(buffer@),
{
    let len = buffer.len();
    if len == 0 || has_nul(buffer) {
        return false;
    }
    let mut printable: usize = 0;
    let mut i: usize = 0;
    while i < len
        invariant
            len == buffer@.len(),
            i <= len,
            printable <= i,
            printable + printable_from(buffer@, i as int) == printable_from(buffer@, 0),
        decreases len - i,
    {
        let byte = buffer[i];
        if (byte >= 32 && byte <= 126) || byte == 10 || byte == 13 || byte == 9 {
            printable = printable + 1;
            i = i + 1;
        } else if byte >= 0x80 {
            match get_utf8_char_length(byte) {
                Some(w) => {
                    if w <= len - i && is_utf8(buffer, i, i + w) {
                        printable = printable + w;
                        i = i + w;
                    } else {
                        i = i + 1;
                    }
                },
                None => {
                    i = i + 1;
                },
            }
        } else {
            i = i + 1;
        }
    }
    (printable as u128) * 100 >= (len as u128) * 95
}

/// Content verdict on the leading bytes of a file: only the first
/// `SAMPLE_SIZE` bytes are inspected; an empty sample or a known binary
/// signature is not text, else the printable-byte heuristic decides.
pub fn is_text_by_content(bytes: &[u8]) -> (r: bool)
    ensures
        r == text_by_content(bytes@),
{
    let n = if bytes.len() > SAMPLE_SIZE { SAMPLE_SIZE } else { bytes.len() };
    if n == 0 {
        return false;
    }
    let mut sample: Vec<u8> = Vec::new();
    let mut i: usize = 0;
    while i < n
        invariant
            n <= bytes@.len(),
            i <= n,
            sample@ =~= bytes@.take(i as int),
        decreases n - i,
    {
        sample.push(bytes[i]);
        i = i + 1;
    }
    assert(sample@ =~= sample_of(bytes@));
    if has_known_signature(sample.as_slice()) {
        return false;
    }
    is_likely_text(sample.as_slice())
}

/// Text verdict for a file: by name first, else by its leading bytes.
pub fn is_text_file(path: &str, bytes: &[u8]) -> (r: bool)
    ensures
        r == (text_by_name(path@) || text_by_content(bytes@)),
{
    if is_text_by_extension(path) {
        return true;
    }
    is_text_by_content(bytes)
}

} // verus!
