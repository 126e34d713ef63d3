use vstd::prelude::*;
use vstd::string::*;
use crate::classify::{extension, extension_of, lower_of, lowercase};
use crate::paths::str_eq;

verus! {

/// Options of the markdown rendering of the selected files.
pub struct OutputFormatter {
    pub include_metadata: bool,
    pub include_line_numbers: bool,
}

impl OutputFormatter {
    /// Metadata on, line numbers off.
    pub fn new() -> (r: Self)
        ensures
            r.include_metadata,
            !r.include_line_numbers,
    {
        OutputFormatter { include_metadata: true, include_line_numbers: false }
    }

    pub fn with_metadata(self, include_metadata: bool) -> (r: Self)
        ensures
            r.include_metadata == include_metadata,
            r.include_line_numbers == self.include_line_numbers,
    {
        OutputFormatter { include_metadata, include_line_numbers: self.include_line_numbers }
    }

    pub fn with_line_numbers(self, include_line_numbers: bool) -> (r: Self)
        ensures
            r.include_line_numbers == include_line_numbers,
            r.include_metadata == self.include_metadata,
    {
        OutputFormatter { include_metadata: self.include_metadata, include_line_numbers }
    }
}

/// Destination-independent writer settings: the formatter it renders with.
pub struct OutputWriter {
    pub formatter: OutputFormatter,
}

impl OutputWriter {
    pub fn new() -> (r: Self)
        ensures
            r.formatter.include_metadata,
            !r.formatter.include_line_numbers,
    {
        OutputWriter { formatter: OutputFormatter::new() }
    }

    pub fn with_formatter(self, formatter: OutputFormatter) -> (r: Self)
        ensures
            r.formatter == formatter,
    {
        OutputWriter { formatter }
    }
}

/// Code-fence language for a lower-case file extension; empty when unknown.
pub open spec fn language_of(e: Seq<char>) -> Seq<char> {
    if e == "rs"@ {
        "rust"@
    } else if e == "py"@ {
        "python"@
    } else if e == "js"@ {
        "javascript"@
    } else if e == "ts"@ {
        "typescript"@
    } else if e == "jsx"@ {
        "jsx"@
    } else if e == "tsx"@ {
        "tsx"@
    } else if e == "html"@ {
        "html"@
    } else if e == "css"@ {
        "css"@
    } else if e == "scss"@ {
        "scss"@
    } else if e == "sass"@ {
        "scss"@
    } else if e == "json"@ {
        "json"@
    } else if e == "yaml"@ {
        "yaml"@
    } else if e == "yml"@ {
        "yaml"@
    } else if e == "toml"@ {
        "toml"@
    } else if e == "xml"@ {
        "xml"@
    } else if e == "sql"@ {
        "sql"@
    } else if e == "sh"@ {
        "bash"@
    } else if e == "bash"@ {
        "bash"@
    } else if e == "c"@ {
        "c"@
    } else if e == "cpp"@ {
        "cpp"@
    } else if e == "cc"@ {
        "cpp"@
    } else if e == "cxx"@ {
        "cpp"@
    } else if e == "h"@ {
        "cpp"@
    } else if e == "hpp"@ {
        "cpp"@
    } else if e == "hxx"@ {
        "cpp"@
    } else if e == "java"@ {
        "java"@
    } else if e == "go"@ {
        "go"@
    } else if e == "rb"@ {
        "ruby"@
    } else if e == "php"@ {
        "php"@
    } else if e == "swift"@ {
        "swift"@
    } else if e == "kt"@ {
        "kotlin"@
    } else if e == "kts"@ {
        "kotlin"@
    } else if e == "scala"@ {
        "scala"@
    } else if e == "md"@ {
        "markdown"@
    } else if e == "typ"@ {
        "typst"@
    } else {
        ""@
    }
}

/// Code-fence language for a lower-case file extension.
pub fn language_for_extension(e: &str) -> (r: &'static str)
    ensures
        r@ == language_of(e@),
{
    if str_eq(e, "rs") {
        "rust"
    } else if str_eq(e, "py") {
        "python"
    } else if str_eq(e, "js") {
        "javascript"
    } else if str_eq(e, "ts") {
        "typescript"
    } else if str_eq(e, "jsx") {
        "jsx"
    } else if str_eq(e, "tsx") {
        "tsx"
    } else if str_eq(e, "html") {
        "html"
    } else if str_eq(e, "css") {
        "css"
    } else if str_eq(e, "scss") {
        "scss"
    } else if str_eq(e, "sass") {
        "scss"
    } else if str_eq(e, "json") {
        "json"
    } else if str_eq(e, "yaml") {
        "yaml"
    } else if str_eq(e, "yml") {
        "yaml"
    } else if str_eq(e, "toml") {
        "toml"
    } else if str_eq(e, "xml") {
        "xml"
    } else if str_eq(e, "sql") {
        "sql"
    } else if str_eq(e, "sh") {
        "bash"
    } else if str_eq(e, "bash") {
        "bash"
    } else if str_eq(e, "c") {
        "c"
    } else if str_eq(e, "cpp") {
        "cpp"
    } else if str_eq(e, "cc") {
        "cpp"
    } else if str_eq(e, "cxx") {
        "cpp"
    } else if str_eq(e, "h") {
        "cpp"
    } else if str_eq(e, "hpp") {
        "cpp"
    } else if str_eq(e, "hxx") {
        "cpp"
    } else if str_eq(e, "java") {
        "java"
    } else if str_eq(e, "go") {
        "go"
    } else if str_eq(e, "rb") {
        "ruby"
    } else if str_eq(e, "php") {
        "php"
    } else if str_eq(e, "swift") {
        "swift"
    } else if str_eq(e, "kt") {
        "kotlin"
    } else if str_eq(e, "kts") {
        "kotlin"
    } else if str_eq(e, "scala") {
        "scala"
    } else if str_eq(e, "md") {
        "markdown"
    } else if str_eq(e, "typ") {
        "typst"
    } else {
        ""
    }
}

/// Code-fence language of a file, from its name's extension, lower-cased.
pub fn language_hint(name: &str) -> (r: &'static str)
    ensures
        r@ == match extension_of(name@) {
            Some(e) => language_of(lower_of(e)),
            None => ""@,
        },
{
    match extension(name) {
        Some(e) => {
            let lower = lowercase(e.as_str());
            language_for_extension(lower.as_str())
        },
        None => "",
    }
}

/// Name of the file that the output is saved to, from what the user typed
/// (already trimmed): `default_name` when nothing was typed, `.md` appended
/// when the name has no '.', else the name as typed.
pub open spec fn save_name_of(input: Seq<char>, default_name: Seq<char>) -> Seq<char> {
    if input.len() == 0 {
        default_name
    } else if !input.contains('.') {
        input + ".md"@
    } else {
        input
    }
}

pub fn save_file_name(input: &str, default_name: String) -> (r: String)
    ensures
        r@ == save_name_of(input@, default_name@),
{
    let n = input.unicode_len();
    if n == 0 {
        return default_name;
    }
    let mut i: usize = 0;
    while i < n
        invariant
            n == input@.len(),
            i <= n,
            forall|j: int| 0 <= j < i ==> input@[j] != '.',
        decreases n - i,
    {
        if input.get_char(i) == '.' {
            return String::from_str(input);
        }
        i = i + 1;
    }
    let mut s = String::from_str(input);
    s.append(".md");
    s
}

} // verus!
