use vstd::prelude::*;
use vstd::string::*;
use crate::matcher::views;
use crate::paths::str_eq;

verus! {

/// Default largest file size taken into the tree, in bytes.
pub const DEFAULT_MAX_FILE_SIZE: u64 = 2097152;

/// Default largest output sent to the clipboard, in bytes.
pub const DEFAULT_MAX_CLIPBOARD_SIZE: usize = 2097152;

/// Extension lists kept in the configuration.
pub struct FileExtensionSettings {
    pub text_extensions: Vec<String>,
    pub binary_extensions: Vec<String>,
}

/// User configuration.
pub struct Settings {
    pub max_file_size: u64,
    pub max_clipboard_size: usize,
    pub respect_gitignore: bool,
    pub show_hidden: bool,
    pub include_metadata: bool,
    pub include_line_numbers: bool,
    pub default_output_dir: Option<String>,
    pub file_extensions: FileExtensionSettings,
}

pub open spec fn default_text_extension_list() -> Seq<Seq<char>> {
    seq!["txt"@, "md"@, "rs"@, "py"@, "js"@, "ts"@, "jsx"@, "tsx"@, "html"@, "css"@, "scss"@, "sass"@, "json"@, "yaml"@, "yml"@, "toml"@, "xml"@, "csv"@, "sql"@, "sh"@, "bash"@, "zsh"@, "fish"@]
}

pub open spec fn default_binary_extension_list() -> Seq<Seq<char>> {
    seq!["exe"@, "dll"@, "so"@, "dylib"@, "bin"@, "obj"@, "o"@, "a"@, "lib"@, "png"@, "jpg"@, "jpeg"@, "gif"@, "bmp"@, "ico"@, "svg"@, "pdf"@, "zip"@, "tar"@, "gz"@, "7z"@, "rar"@]
}

pub fn default_max_file_size() -> (r: u64)
    ensures
        r == DEFAULT_MAX_FILE_SIZE,
{
    DEFAULT_MAX_FILE_SIZE
}

pub fn default_max_clipboard_size() -> (r: usize)
    ensures
        r == DEFAULT_MAX_CLIPBOARD_SIZE,
{
    DEFAULT_MAX_CLIPBOARD_SIZE
}

pub fn default_respect_gitignore() -> (r: bool)
    ensures
        r,
{
    true
}

pub fn default_show_hidden() -> (r: bool)
    ensures
        !r,
{
    false
}

pub fn default_include_metadata() -> (r: bool)
    ensures
        r,
{
    true
}

pub fn default_include_line_numbers() -> (r: bool)
    ensures
        !r,
{
    false
}

pub fn default_text_extensions() -> (r: Vec<String>)
    ensures
        views(r@) == default_text_extension_list(),
{
    let mut v: Vec<String> = Vec::new();
    v.push(String::from_str("txt"));
    v.push(String::from_str("md"));
    v.push(String::from_str("rs"));
    v.push(String::from_str("py"));
    v.push(String::from_str("js"));
    v.push(String::from_str("ts"));
    v.push(String::from_str("jsx"));
    v.push(String::from_str("tsx"));
    v.push(String::from_str("html"));
    v.push(String::from_str("css"));
    v.push(String::from_str("scss"));
    v.push(String::from_str("sass"));
    v.push(String::from_str("json"));
    v.push(String::from_str("yaml"));
    v.push(String::from_str("yml"));
    v.push(String::from_str("toml"));
    v.push(String::from_str("xml"));
    v.push(String::from_str("csv"));
    v.push(String::from_str("sql"));
    v.push(String::from_str("sh"));
    v.push(String::from_str("bash"));
    v.push(String::from_str("zsh"));
    v.push(String::from_str("fish"));
    assert(views(v@) =~= default_text_extension_list());
    v
}

pub fn default_binary_extensions() -> (r: Vec<String>)
    ensures
        views(r@) == default_binary_extension_list(),
{
    let mut v: Vec<String> = Vec::new();
    v.push(String::from_str("exe"));
    v.push(String::from_str("dll"));
    v.push(String::from_str("so"));
    v.push(String::from_str("dylib"));
    v.push(String::from_str("bin"));
    v.push(String::from_str("obj"));
    v.push(String::from_str("o"));
    v.push(String::from_str("a"));
    v.push(String::from_str("lib"));
    v.push(String::from_str("png"));
    v.push(String::from_str("jpg"));
    v.push(String::from_str("jpeg"));
    v.push(String::from_str("gif"));
    v.push(String::from_str("bmp"));
    v.push(String::from_str("ico"));
    v.push(String::from_str("svg"));
    v.push(String::from_str("pdf"));
    v.push(String::from_str("zip"));
    v.push(String::from_str("tar"));
    v.push(String::from_str("gz"));
    v.push(String::from_str("7z"));
    v.push(String::from_str("rar"));
    assert(views(v@) =~= default_binary_extension_list());
    v
}

/// Whether two lists hold the same strings in the same order.
fn same_strings(a: &Vec<String>, b: &Vec<String>) -> (r: bool)
    ensures
        r == (views(a@) == views(b@)),
{
    if a.len() != b.len() {
        assert(views(a@).len() != views(b@).len());
        return false;
    }
    let mut i: usize = 0;
    while i < a.len()
        invariant
            a@.len() == b@.len(),
            i <= a@.len(),
            forall|j: int| 0 <= j < i ==> #[trigger] a@[j]@ == b@[j]@,
        decreases a@.len() - i,
    {
        if !str_eq(a[i].as_str(), b[i].as_str()) {
            assert(views(a@)[i as int] != views(b@)[i as int]);
            return false;
        }
        i = i + 1;
    }
    assert(views(a@) =~= views(b@));
    true
}

impl Default for FileExtensionSettings {
    fn default() -> (r: Self)
        ensures
            views(r.text_extensions@) == default_text_extension_list(),
            views(r.binary_extensions@) == default_binary_extension_list(),
    {
        FileExtensionSettings {
            text_extensions: default_text_extensions(),
            binary_extensions: default_binary_extensions(),
        }
    }
}

impl Default for Settings {
    fn default() -> (r: Self)
        ensures
            r.max_file_size == DEFAULT_MAX_FILE_SIZE,
            r.max_clipboard_size == DEFAULT_MAX_CLIPBOARD_SIZE,
            r.respect_gitignore,
            !r.show_hidden,
            r.include_metadata,
            !r.include_line_numbers,
            r.default_output_dir is None,
            views(r.file_extensions.text_extensions@) == default_text_extension_list(),
            views(r.file_extensions.binary_extensions@) == default_binary_extension_list(),
    {
        Settings {
            max_file_size: default_max_file_size(),
            max_clipboard_size: default_max_clipboard_size(),
            respect_gitignore: default_respect_gitignore(),
            show_hidden: default_show_hidden(),
            include_metadata: default_include_metadata(),
            include_line_numbers: default_include_line_numbers(),
            default_output_dir: None,
            file_extensions: FileExtensionSettings::default(),
        }
    }
}

/// Decimal digits of `n`.
pub open spec fn decimal(n: nat) -> Seq<char>
    decreases n,
{
    if n < 10 {
        seq![digit(n)]
    } else {
        decimal(n / 10).push(digit(n % 10))
    }
}

pub open spec fn digit(d: nat) -> char {
    seq!['0', '1', '2', '3', '4', '5', '6', '7', '8', '9'][d as int]
}

/// `n` written in decimal.
pub fn decimal_string(n: usize) -> (r: String)
    ensures
        r@ == decimal(n as nat),
    decreases n,
{
    let digits = "0123456789";
    proof {
        reveal_strlit("0123456789");
        assert("0123456789"@ =~= seq!['0', '1', '2', '3', '4', '5', '6', '7', '8', '9']);
    }
    let d = n % 10;
    let last = digits.substring_char(d, d + 1);
    proof {
        assert(last@ =~= seq![digit((n % 10) as nat)]);
    }
    if n < 10 {
        String::from_str(last)
    } else {
        let mut s = decimal_string(n / 10);
        s.append(last);
        s
    }
}

/// How the clipboard limit reads in messages: whole megabytes as `<n>MB`
/// from 1 MiB, whole kilobytes as `<n>KB` from 1 KiB, else `<n>B`.
pub open spec fn clipboard_size_text(size: nat) -> Seq<char> {
    if size >= 1048576 {
        decimal(size / 1048576) + seq!['M', 'B']
    } else if size >= 1024 {
        decimal(size / 1024) + seq!['K', 'B']
    } else {
        decimal(size) + seq!['B']
    }
}

/// Path of the project configuration file under `project_root`.
pub open spec fn project_config_path(root: Seq<char>) -> Seq<char> {
    if root.len() == 0 {
        ".gthr.toml"@
    } else if root.last() == '/' {
        root + ".gthr.toml"@
    } else {
        root + "/.gthr.toml"@
    }
}

impl Settings {
    pub fn get_project_config_path(project_root: &str) -> (r: String)
        ensures
            r@ == project_config_path(project_root@),
    {
        let n = project_root.unicode_len();
        if n == 0 {
            String::from_str(".gthr.toml")
        } else if project_root.get_char(n - 1) == '/' {
            let mut s = String::from_str(project_root);
            s.append(".gthr.toml");
            s
        } else {
            let mut s = String::from_str(project_root);
            s.append("/.gthr.toml");
            s
        }
    }

    /// Project settings over global ones: each project value that differs
    /// from its default replaces the global value; a project output
    /// directory replaces the global one.
    pub fn merge_settings(global: Settings, project: Settings) -> (r: Settings)
        ensures
            r.max_file_size == if project.max_file_size != DEFAULT_MAX_FILE_SIZE {
                project.max_file_size
            } else {
                global.max_file_size
            },
            r.max_clipboard_size == if project.max_clipboard_size != DEFAULT_MAX_CLIPBOARD_SIZE {
                project.max_clipboard_size
            } else {
                global.max_clipboard_size
            },
            r.respect_gitignore == if !project.respect_gitignore {
                project.respect_gitignore
            } else {
                global.respect_gitignore
            },
            r.show_hidden == if project.show_hidden {
                project.show_hidden
            } else {
                global.show_hidden
            },
            r.include_metadata == if !project.include_metadata {
                project.include_metadata
            } else {
                global.include_metadata
            },
            r.include_line_numbers == if project.include_line_numbers {
                project.include_line_numbers
            } else {
                global.include_line_numbers
            },
            r.default_output_dir == if project.default_output_dir is Some {
                project.default_output_dir
            } else {
                global.default_output_dir
            },
            views(r.file_extensions.text_extensions@) == if views(project.file_extensions.text_extensions@)
                != default_text_extension_list() {
                views(project.file_extensions.text_extensions@)
            } else {
                views(global.file_extensions.text_extensions@)
            },
            views(r.file_extensions.binary_extensions@) == if views(project.file_extensions.binary_extensions@)
                != default_binary_extension_list() {
                views(project.file_extensions.binary_extensions@)
            } else {
                views(global.file_extensions.binary_extensions@)
            },
    {
        let mut global = global;
        let project = project;
        if project.max_file_size != default_max_file_size() {
            global.max_file_size = project.max_file_size;
        }
        if project.max_clipboard_size != default_max_clipboard_size() {
            global.max_clipboard_size = project.max_clipboard_size;
        }
        if project.respect_gitignore != default_respect_gitignore() {
            global.respect_gitignore = project.respect_gitignore;
        }
        if project.show_hidden != default_show_hidden() {
            global.show_hidden = project.show_hidden;
        }
        if project.include_metadata != default_include_metadata() {
            global.include_metadata = project.include_metadata;
        }
        if project.include_line_numbers != default_include_line_numbers() {
            global.include_line_numbers = project.include_line_numbers;
        }
        let text_differs = !same_strings(&project.file_extensions.text_extensions, &default_text_extensions());
        let binary_differs = !same_strings(
            &project.file_extensions.binary_extensions,
            &default_binary_extensions(),
        );
        let Settings { default_output_dir, file_extensions, .. } = project;
        if default_output_dir.is_some() {
            global.default_output_dir = default_output_dir;
        }
        let FileExtensionSettings { text_extensions, binary_extensions } = file_extensions;
        if text_differs {
            global.file_extensions.text_extensions = text_extensions;
        }
        if binary_differs {
            global.file_extensions.binary_extensions = binary_extensions;
        }
        global
    }

    /// The clipboard limit as it reads in messages.
    pub fn format_clipboard_size(&self) -> (r: String)
        ensures
            r@ == clipboard_size_text(self.max_clipboard_size as nat),
    {
        let size = self.max_clipboard_size;
        if size >= 1048576 {
            let mut s = decimal_string(size / 1048576);
            s.append("MB");
            proof {
                reveal_strlit("MB");
            }
            s
        } else if size >= 1024 {
            let mut s = decimal_string(size / 1024);
            s.append("KB");
            proof {
                reveal_strlit("KB");
            }
            s
        } else {
            let mut s = decimal_string(size);
            s.append("B");
            proof {
                reveal_strlit("B");
            }
            s
        }
    }
}

} // verus!
