use vstd::prelude::*;
use crate::text::str_eq;

verus! {

/// A closed enumeration of the languages and file kinds a snippet can carry.
///
/// The language picks the extension of the snippet's content file and is
/// parsed back from user-supplied names and extensions, case-insensitively.
#[derive(Debug, PartialEq, Eq, Clone, Copy, Structural)]
pub enum FileType {
    Rust,
    C,
    Cpp,
    CSharp,
    Java,
    Python,
    JavaScript,
    TypeScript,
    Go,
    Ruby,
    PHP,
    Swift,
    Kotlin,
    Scala,
    Lua,
    Perl,
    Haskell,
    Shell,
    Bash,
    PowerShell,
    ObjectiveC,
    Dart,
    Html,
    Css,
    Xml,
    Json,
    Yaml,
    Toml,
    Markdown,
    Latex,
    Sql,
    Csv,
    Ini,
    Dockerfile,
    Makefile,
    Gradle,
    Maven,
    Gitignore,
    EditorConfig,
    TextPlain,
    Binary,
    Unknown,
}

impl Default for FileType {
    /// The fallback language for anything unrecognized.
    fn default() -> (r: Self)
        ensures
            r == FileType::Unknown,
    {
        FileType::Unknown
    }
}

/// The file extension (without a dot) that belongs to each language.
///
/// `Dockerfile`, `Makefile` and `Maven` use their conventional file names;
/// `Binary` and `Unknown` carry no extension.
pub open spec fn spec_extension(t: FileType) -> Seq<char> {
    match t {
        FileType::Rust => "rs"@,
        FileType::C => "c"@,
        FileType::Cpp => "cpp"@,
        FileType::CSharp => "cs"@,
        FileType::Java => "java"@,
        FileType::Python => "py"@,
        FileType::JavaScript => "js"@,
        FileType::TypeScript => "ts"@,
        FileType::Go => "go"@,
        FileType::Ruby => "rb"@,
        FileType::PHP => "php"@,
        FileType::Swift => "swift"@,
        FileType::Kotlin => "kt"@,
        FileType::Scala => "scala"@,
        FileType::Lua => "lua"@,
        FileType::Perl => "pl"@,
        FileType::Haskell => "hs"@,
        FileType::Shell => "sh"@,
        FileType::Bash => "bash"@,
        FileType::PowerShell => "ps1"@,
        FileType::ObjectiveC => "m"@,
        FileType::Dart => "dart"@,
        FileType::Html => "html"@,
        FileType::Css => "css"@,
        FileType::Xml => "xml"@,
        FileType::Json => "json"@,
        FileType::Yaml => "yaml"@,
        FileType::Toml => "toml"@,
        FileType::Markdown => "md"@,
        FileType::Latex => "tex"@,
        FileType::Sql => "sql"@,
        FileType::Csv => "csv"@,
        FileType::Ini => "ini"@,
        FileType::Dockerfile => "dockerfile"@,
        FileType::Makefile => "makefile"@,
        FileType::Gradle => "gradle"@,
        FileType::Maven => "pom.xml"@,
        FileType::Gitignore => "gitignore"@,
        FileType::EditorConfig => "editorconfig"@,
        FileType::TextPlain => "txt"@,
        FileType::Binary => ""@,
        FileType::Unknown => ""@,
    }
}

/// The printable name of each language.
pub open spec fn spec_display_name(t: FileType) -> Seq<char> {
    match t {
        FileType::Rust => "Rust"@,
        FileType::C => "C"@,
        FileType::Cpp => "Cpp"@,
        FileType::CSharp => "CSharp"@,
        FileType::Java => "Java"@,
        FileType::Python => "Python"@,
        FileType::JavaScript => "JavaScript"@,
        FileType::TypeScript => "TypeScript"@,
        FileType::Go => "Go"@,
        FileType::Ruby => "Ruby"@,
        FileType::PHP => "PHP"@,
        FileType::Swift => "Swift"@,
        FileType::Kotlin => "Kotlin"@,
        FileType::Scala => "Scala"@,
        FileType::Lua => "Lua"@,
        FileType::Perl => "Perl"@,
        FileType::Haskell => "Haskell"@,
        FileType::Shell => "Shell"@,
        FileType::Bash => "Bash"@,
        FileType::PowerShell => "PowerShell"@,
        FileType::ObjectiveC => "ObjectiveC"@,
        FileType::Dart => "Dart"@,
        FileType::Html => "Html"@,
        FileType::Css => "Css"@,
        FileType::Xml => "Xml"@,
        FileType::Json => "Json"@,
        FileType::Yaml => "Yaml"@,
        FileType::Toml => "Toml"@,
        FileType::Markdown => "Markdown"@,
        FileType::Latex => "Latex"@,
        FileType::Sql => "Sql"@,
        FileType::Csv => "Csv"@,
        FileType::Ini => "Ini"@,
        FileType::Dockerfile => "Dockerfile"@,
        FileType::Makefile => "Makefile"@,
        FileType::Gradle => "Gradle"@,
        FileType::Maven => "Maven"@,
        FileType::Gitignore => "Gitignore"@,
        FileType::EditorConfig => "EditorConfig"@,
        FileType::TextPlain => "TextPlain"@,
        FileType::Binary => "Binary"@,
        FileType::Unknown => "Unknown"@,
    }
}

/// Lowercases one ASCII letter; every other character is unchanged.
pub open spec fn lower_char(c: char) -> char {
    if 'A' <= c && c <= 'Z' {
        (((c as u8) + 32) as char)
    } else {
        c
    }
}

/// The string with every ASCII upper-case letter lowercased.
pub open spec fn spec_lower(s: Seq<char>) -> Seq<char> {
    s.map_values(|c: char| lower_char(c))
}

/// Lowercases the ASCII upper-case letters of a string.
pub fn ascii_lower(s: &str) -> (r: String)
    ensures
        r@ == spec_lower(s@),
{
    let n = s.unicode_len();
    let mut r = String::new();
    let mut i: usize = 0;
    while i < n
        invariant
            i <= n,
            n == s@.len(),
            r@ == spec_lower(s@.take(i as int)),
        decreases n - i,
    {
        let c = s.get_char(i);
        if 'A' <= c && c <= 'Z' {
            let u = (c as u8) + 32;
            r.push(u as char);
        } else {
            r.push(c);
        }
        proof {
            assert(spec_lower(s@.take(i + 1)) =~= spec_lower(s@.take(i as int)).push(
                lower_char(s@[i as int]),
            ));
        }
        i += 1;
    }
    proof {
        assert(s@.take(n as int) =~= s@);
    }
    r
}

/// The language that a lowercased name or alias denotes; `Unknown` for
/// anything unrecognized.
pub open spec fn spec_type_of_lower_name(s: Seq<char>) -> FileType {
    if s == "rust"@ {
        FileType::Rust
    } else if s == "c"@ {
        FileType::C
    } else if s == "cpp"@ {
        FileType::Cpp
    } else if s == "csharp"@ || s == "cs"@ {
        FileType::CSharp
    } else if s == "java"@ {
        FileType::Java
    } else if s == "python"@ {
        FileType::Python
    } else if s == "javascript"@ || s == "js"@ {
        FileType::JavaScript
    } else if s == "typescript"@ || s == "ts"@ {
        FileType::TypeScript
    } else if s == "go"@ {
        FileType::Go
    } else if s == "ruby"@ {
        FileType::Ruby
    } else if s == "php"@ {
        FileType::PHP
    } else if s == "swift"@ {
        FileType::Swift
    } else if s == "kotlin"@ {
        FileType::Kotlin
    } else if s == "scala"@ {
        FileType::Scala
    } else if s == "lua"@ {
        FileType::Lua
    } else if s == "perl"@ {
        FileType::Perl
    } else if s == "haskell"@ {
        FileType::Haskell
    } else if s == "shell"@ || s == "sh"@ {
        FileType::Shell
    } else if s == "bash"@ {
        FileType::Bash
    } else if s == "powershell"@ || s == "ps1"@ {
        FileType::PowerShell
    } else if s == "objective-c"@ || s == "objc"@ {
        FileType::ObjectiveC
    } else if s == "dart"@ {
        FileType::Dart
    } else if s == "html"@ {
        FileType::Html
    } else if s == "css"@ {
        FileType::Css
    } else if s == "xml"@ {
        FileType::Xml
    } else if s == "json"@ {
        FileType::Json
    } else if s == "yaml"@ || s == "yml"@ {
        FileType::Yaml
    } else if s == "toml"@ {
        FileType::Toml
    } else if s == "markdown"@ || s == "md"@ {
        FileType::Markdown
    } else if s == "latex"@ || s == "tex"@ {
        FileType::Latex
    } else if s == "sql"@ {
        FileType::Sql
    } else if s == "csv"@ {
        FileType::Csv
    } else if s == "ini"@ {
        FileType::Ini
    } else if s == "dockerfile"@ {
        FileType::Dockerfile
    } else if s == "makefile"@ {
        FileType::Makefile
    } else if s == "gradle"@ {
        FileType::Gradle
    } else if s == "maven"@ {
        FileType::Maven
    } else if s == "gitignore"@ {
        FileType::Gitignore
    } else if s == "editorconfig"@ {
        FileType::EditorConfig
    } else if s == "text"@ || s == "plain"@ || s == "txt"@ {
        FileType::TextPlain
    } else if s == "binary"@ || s == "bin"@ {
        FileType::Binary
    } else {
        FileType::Unknown
    }
}

/// The language that a lowercased file extension denotes; `Unknown` for
/// anything unrecognized.
pub open spec fn spec_type_of_lower_ext(s: Seq<char>) -> FileType {
    if s == "rs"@ {
        FileType::Rust
    } else if s == "c"@ {
        FileType::C
    } else if s == "cpp"@ {
        FileType::Cpp
    } else if s == "cs"@ {
        FileType::CSharp
    } else if s == "java"@ {
        FileType::Java
    } else if s == "py"@ {
        FileType::Python
    } else if s == "js"@ {
        FileType::JavaScript
    } else if s == "ts"@ {
        FileType::TypeScript
    } else if s == "go"@ {
        FileType::Go
    } else if s == "rb"@ {
        FileType::Ruby
    } else if s == "php"@ {
        FileType::PHP
    } else if s == "swift"@ {
        FileType::Swift
    } else if s == "kt"@ {
        FileType::Kotlin
    } else if s == "scala"@ {
        FileType::Scala
    } else if s == "lua"@ {
        FileType::Lua
    } else if s == "pl"@ {
        FileType::Perl
    } else if s == "hs"@ {
        FileType::Haskell
    } else if s == "sh"@ {
        FileType::Shell
    } else if s == "bash"@ {
        FileType::Bash
    } else if s == "ps1"@ {
        FileType::PowerShell
    } else if s == "m"@ {
        FileType::ObjectiveC
    } else if s == "dart"@ {
        FileType::Dart
    } else if s == "html"@ {
        FileType::Html
    } else if s == "css"@ {
        FileType::Css
    } else if s == "xml"@ {
        FileType::Xml
    } else if s == "json"@ {
        FileType::Json
    } else if s == "yaml"@ || s == "yml"@ {
        FileType::Yaml
    } else if s == "toml"@ {
        FileType::Toml
    } else if s == "md"@ {
        FileType::Markdown
    } else if s == "tex"@ {
        FileType::Latex
    } else if s == "sql"@ {
        FileType::Sql
    } else if s == "csv"@ {
        FileType::Csv
    } else if s == "ini"@ {
        FileType::Ini
    } else if s == "dockerfile"@ {
        FileType::Dockerfile
    } else if s == "makefile"@ {
        FileType::Makefile
    } else if s == "gradle"@ {
        FileType::Gradle
    } else if s == "pom.xml"@ {
        FileType::Maven
    } else if s == "gitignore"@ {
        FileType::Gitignore
    } else if s == "editorconfig"@ {
        FileType::EditorConfig
    } else if s == "txt"@ || s == "text"@ || s == "plain"@ {
        FileType::TextPlain
    } else if s == "bin"@ || s == "exe"@ {
        FileType::Binary
    } else {
        FileType::Unknown
    }
}

/// The string with every leading `.` removed.
pub open spec fn spec_trim_dots(s: Seq<char>) -> Seq<char>
    decreases s.len(),
{
    if s.len() > 0 && s[0] == '.' {
        spec_trim_dots(s.drop_first())
    } else {
        s
    }
}

impl FileType {
    /// The standard file extension (without a dot) for this language.
    pub fn extension(&self) -> (r: &'static str)
        ensures
            r@ == spec_extension(*self),
    {
        match self {
            FileType::Rust => "rs",
            FileType::C => "c",
            FileType::Cpp => "cpp",
            FileType::CSharp => "cs",
            FileType::Java => "java",
            FileType::Python => "py",
            FileType::JavaScript => "js",
            FileType::TypeScript => "ts",
            FileType::Go => "go",
            FileType::Ruby => "rb",
            FileType::PHP => "php",
            FileType::Swift => "swift",
            FileType::Kotlin => "kt",
            FileType::Scala => "scala",
            FileType::Lua => "lua",
            FileType::Perl => "pl",
            FileType::Haskell => "hs",
            FileType::Shell => "sh",
            FileType::Bash => "bash",
            FileType::PowerShell => "ps1",
            FileType::ObjectiveC => "m",
            FileType::Dart => "dart",
            FileType::Html => "html",
            FileType::Css => "css",
            FileType::Xml => "xml",
            FileType::Json => "json",
            FileType::Yaml => "yaml",
            FileType::Toml => "toml",
            FileType::Markdown => "md",
            FileType::Latex => "tex",
            FileType::Sql => "sql",
            FileType::Csv => "csv",
            FileType::Ini => "ini",
            FileType::Dockerfile => "dockerfile",
            FileType::Makefile => "makefile",
            FileType::Gradle => "gradle",
            FileType::Maven => "pom.xml",
            FileType::Gitignore => "gitignore",
            FileType::EditorConfig => "editorconfig",
            FileType::TextPlain => "txt",
            FileType::Binary => "",
            FileType::Unknown => "",
        }
    }

    /// The printable name of this language.
    pub fn display_name(&self) -> (r: &'static str)
        ensures
            r@ == spec_display_name(*self),
    {
        match self {
            FileType::Rust => "Rust",
            FileType::C => "C",
            FileType::Cpp => "Cpp",
            FileType::CSharp => "CSharp",
            FileType::Java => "Java",
            FileType::Python => "Python",
            FileType::JavaScript => "JavaScript",
            FileType::TypeScript => "TypeScript",
            FileType::Go => "Go",
            FileType::Ruby => "Ruby",
            FileType::PHP => "PHP",
            FileType::Swift => "Swift",
            FileType::Kotlin => "Kotlin",
            FileType::Scala => "Scala",
            FileType::Lua => "Lua",
            FileType::Perl => "Perl",
            FileType::Haskell => "Haskell",
            FileType::Shell => "Shell",
            FileType::Bash => "Bash",
            FileType::PowerShell => "PowerShell",
            FileType::ObjectiveC => "ObjectiveC",
            FileType::Dart => "Dart",
            FileType::Html => "Html",
            FileType::Css => "Css",
            FileType::Xml => "Xml",
            FileType::Json => "Json",
            FileType::Yaml => "Yaml",
            FileType::Toml => "Toml",
            FileType::Markdown => "Markdown",
            FileType::Latex => "Latex",
            FileType::Sql => "Sql",
            FileType::Csv => "Csv",
            FileType::Ini => "Ini",
            FileType::Dockerfile => "Dockerfile",
            FileType::Makefile => "Makefile",
            FileType::Gradle => "Gradle",
            FileType::Maven => "Maven",
            FileType::Gitignore => "Gitignore",
            FileType::EditorConfig => "EditorConfig",
            FileType::TextPlain => "TextPlain",
            FileType::Binary => "Binary",
            FileType::Unknown => "Unknown",
        }
    }

    /// Parses a language name or alias, case-insensitively; unrecognized
    /// names give `Unknown`.
    pub fn from_name(s: &str) -> (r: FileType)
        ensures
            r == spec_type_of_lower_name(spec_lower(s@)),
    {
        let l = ascii_lower(s);
        let t = l.as_str();
        if str_eq(t, "rust") {
            FileType::Rust
        } else if str_eq(t, "c") {
            FileType::C
        } else if str_eq(t, "cpp") {
            FileType::Cpp
        } else if str_eq(t, "csharp") || str_eq(t, "cs") {
            FileType::CSharp
        } else if str_eq(t, "java") {
            FileType::Java
        } else if str_eq(t, "python") {
            FileType::Python
        } else if str_eq(t, "javascript") || str_eq(t, "js") {
            FileType::JavaScript
        } else if str_eq(t, "typescript") || str_eq(t, "ts") {
            FileType::TypeScript
        } else if str_eq(t, "go") {
            FileType::Go
        } else if str_eq(t, "ruby") {
            FileType::Ruby
        } else if str_eq(t, "php") {
            FileType::PHP
        } else if str_eq(t, "swift") {
            FileType::Swift
        } else if str_eq(t, "kotlin") {
            FileType::Kotlin
        } else if str_eq(t, "scala") {
            FileType::Scala
        } else if str_eq(t, "lua") {
            FileType::Lua
        } else if str_eq(t, "perl") {
            FileType::Perl
        } else if str_eq(t, "haskell") {
            FileType::Haskell
        } else if str_eq(t, "shell") || str_eq(t, "sh") {
            FileType::Shell
        } else if str_eq(t, "bash") {
            FileType::Bash
        } else if str_eq(t, "powershell") || str_eq(t, "ps1") {
            FileType::PowerShell
        } else if str_eq(t, "objective-c") || str_eq(t, "objc") {
            FileType::ObjectiveC
        } else if str_eq(t, "dart") {
            FileType::Dart
        } else if str_eq(t, "html") {
            FileType::Html
        } else if str_eq(t, "css") {
            FileType::Css
        } else if str_eq(t, "xml") {
            FileType::Xml
        } else if str_eq(t, "json") {
            FileType::Json
        } else if str_eq(t, "yaml") || str_eq(t, "yml") {
            FileType::Yaml
        } else if str_eq(t, "toml") {
            FileType::Toml
        } else if str_eq(t, "markdown") || str_eq(t, "md") {
            FileType::Markdown
        } else if str_eq(t, "latex") || str_eq(t, "tex") {
            FileType::Latex
        } else if str_eq(t, "sql") {
            FileType::Sql
        } else if str_eq(t, "csv") {
            FileType::Csv
        } else if str_eq(t, "ini") {
            FileType::Ini
        } else if str_eq(t, "dockerfile") {
            FileType::Dockerfile
        } else if str_eq(t, "makefile") {
            FileType::Makefile
        } else if str_eq(t, "gradle") {
            FileType::Gradle
        } else if str_eq(t, "maven") {
            FileType::Maven
        } else if str_eq(t, "gitignore") {
            FileType::Gitignore
        } else if str_eq(t, "editorconfig") {
            FileType::EditorConfig
        } else if str_eq(t, "text") || str_eq(t, "plain") || str_eq(t, "txt") {
            FileType::TextPlain
        } else if str_eq(t, "binary") || str_eq(t, "bin") {
            FileType::Binary
        } else {
            FileType::Unknown
        }
    }

    /// Guesses the language from a file extension, case-insensitively and
    /// with or without leading dots; unrecognized extensions give `Unknown`.
    pub fn from_extension(ext: &str) -> (r: FileType)
        ensures
            r == spec_type_of_lower_ext(spec_lower(spec_trim_dots(ext@))),
    {
        let n = ext.unicode_len();
        let mut start: usize = 0;
        proof {
            assert(ext@.skip(0) =~= ext@);
        }
        while start < n && ext.get_char(start) == '.'
            invariant
                start <= n,
                n == ext@.len(),
                spec_trim_dots(ext@) == spec_trim_dots(ext@.skip(start as int)),
        decreases n - start,
        {
            proof {
                assert(ext@.skip(start as int).drop_first() =~= ext@.skip(start + 1));
            }
            start += 1;
        }
        let trimmed = ext.substring_char(start, n);
        proof {
            assert(ext@.skip(start as int) =~= ext@.subrange(start as int, n as int));
            if start < n {
                assert(spec_trim_dots(ext@.skip(start as int)) == ext@.skip(start as int));
            } else {
                assert(ext@.skip(start as int) =~= Seq::<char>::empty());
            }
        }
        let l = ascii_lower(trimmed);
        let t = l.as_str();
        if str_eq(t, "rs") {
            FileType::Rust
        } else if str_eq(t, "c") {
            FileType::C
        } else if str_eq(t, "cpp") {
            FileType::Cpp
        } else if str_eq(t, "cs") {
            FileType::CSharp
        } else if str_eq(t, "java") {
            FileType::Java
        } else if str_eq(t, "py") {
            FileType::Python
        } else if str_eq(t, "js") {
            FileType::JavaScript
        } else if str_eq(t, "ts") {
            FileType::TypeScript
        } else if str_eq(t, "go") {
            FileType::Go
        } else if str_eq(t, "rb") {
            FileType::Ruby
        } else if str_eq(t, "php") {
            FileType::PHP
        } else if str_eq(t, "swift") {
            FileType::Swift
        } else if str_eq(t, "kt") {
            FileType::Kotlin
        } else if str_eq(t, "scala") {
            FileType::Scala
        } else if str_eq(t, "lua") {
            FileType::Lua
        } else if str_eq(t, "pl") {
            FileType::Perl
        } else if str_eq(t, "hs") {
            FileType::Haskell
        } else if str_eq(t, "sh") {
            FileType::Shell
        } else if str_eq(t, "bash") {
            FileType::Bash
        } else if str_eq(t, "ps1") {
            FileType::PowerShell
        } else if str_eq(t, "m") {
            FileType::ObjectiveC
        } else if str_eq(t, "dart") {
            FileType::Dart
        } else if str_eq(t, "html") {
            FileType::Html
        } else if str_eq(t, "css") {
            FileType::Css
        } else if str_eq(t, "xml") {
            FileType::Xml
        } else if str_eq(t, "json") {
            FileType::Json
        } else if str_eq(t, "yaml") || str_eq(t, "yml") {
            FileType::Yaml
        } else if str_eq(t, "toml") {
            FileType::Toml
        } else if str_eq(t, "md") {
            FileType::Markdown
        } else if str_eq(t, "tex") {
            FileType::Latex
        } else if str_eq(t, "sql") {
            FileType::Sql
        } else if str_eq(t, "csv") {
            FileType::Csv
        } else if str_eq(t, "ini") {
            FileType::Ini
        } else if str_eq(t, "dockerfile") {
            FileType::Dockerfile
        } else if str_eq(t, "makefile") {
            FileType::Makefile
        } else if str_eq(t, "gradle") {
            FileType::Gradle
        } else if str_eq(t, "pom.xml") {
            FileType::Maven
        } else if str_eq(t, "gitignore") {
            FileType::Gitignore
        } else if str_eq(t, "editorconfig") {
            FileType::EditorConfig
        } else if str_eq(t, "txt") || str_eq(t, "text") || str_eq(t, "plain") {
            FileType::TextPlain
        } else if str_eq(t, "bin") || str_eq(t, "exe") {
            FileType::Binary
        } else {
            FileType::Unknown
        }
    }
}

} // verus!
