//! Compiler options: the language standard a solution is written in and the
//! code generation profile it is built with.
use vstd::prelude::*;
use crate::path::{file_stem, file_stem_spec, lemma_class_file_stem};
use crate::text::{contains, contains_seq, occurs_at};

verus! {

/// A build profile.
#[derive(Clone, Copy, Debug, PartialEq, Eq)]
pub enum Codegen {
    Debug,
    Release,
}

/// The language and language standard of a solution.
#[derive(Clone, Copy, Debug, PartialEq, Eq)]
pub enum Standard {
    Cpp11,
    Cpp14,
    Cpp17,
    Cpp20,
    Java,
}

/// The character sequences of a sequence of string slices.
pub open spec fn str_views(s: Seq<&str>) -> Seq<Seq<char>> {
    s.map_values(|x: &str| x@)
}

/// Whether the standard is one of C++.
pub open spec fn is_cpp_spec(s: Standard) -> bool {
    !(s is Java)
}

/// The flag that selects the language standard.
pub open spec fn flag_clang_spec(s: Standard) -> Seq<Seq<char>> {
    match s {
        Standard::Cpp11 => seq!["-std=c++11"@],
        Standard::Cpp14 => seq!["-std=c++14"@],
        Standard::Cpp17 => seq!["-std=c++17"@],
        Standard::Cpp20 => seq!["-std=c++20"@],
        Standard::Java => seq!["--release"@, "17"@],
    }
}

/// The extension of a built solution.
pub open spec fn executable_extension_spec(s: Standard) -> Seq<char> {
    if is_cpp_spec(s) {
        "exe"@
    } else {
        "class"@
    }
}

/// The extensions of source files.
pub open spec fn extensions_spec(s: Standard) -> Seq<Seq<char>> {
    if is_cpp_spec(s) {
        seq!["cpp"@, "cc"@, "cxx"@]
    } else {
        seq!["java"@]
    }
}

/// The flags of a debug build.
pub open spec fn debug_flags_spec(s: Standard) -> Seq<Seq<char>> {
    if is_cpp_spec(s) {
        seq!["-g"@, "-O2"@, "-fno-inline-functions"@]
    } else {
        seq!["-g"@]
    }
}

/// The flags of a release build.
pub open spec fn release_flags_spec(s: Standard) -> Seq<Seq<char>> {
    if is_cpp_spec(s) {
        seq!["-Ofast"@]
    } else {
        seq!["-nowarn"@]
    }
}

/// What runs a built solution: for Java, the class to run, named by the file
/// stem of the built file, where that file is a `.class` file.
pub open spec fn execute_command_spec(s: Standard, built: Seq<char>) -> Option<Seq<char>> {
    if !is_cpp_spec(s) && contains_seq(built, ".class"@) {
        Some(file_stem_spec(built))
    } else {
        None
    }
}

/// The view of an optional owned string.
pub open spec fn opt_string_view(s: Option<String>) -> Option<Seq<char>> {
    match s {
        Some(t) => Some(t@),
        None => None,
    }
}

impl Codegen {
    pub const LIST: [Codegen; 2] = [Codegen::Debug, Codegen::Release];

    /// The compiler flags of this profile for the configured `standard`.
    pub fn flags_clang(self, standard: Standard) -> (flags: &'static [&'static str])
        ensures
            str_views(flags@) == match self {
                Codegen::Debug => debug_flags_spec(standard),
                Codegen::Release => release_flags_spec(standard),
            },
    {
        match self {
            Codegen::Debug => standard.get_debug_flags(),
            Codegen::Release => standard.get_release_flags(),
        }
    }
}

impl Standard {
    pub fn flag_clang(self) -> (flags: &'static [&'static str])
        ensures
            str_views(flags@) == flag_clang_spec(self),
    {
        match self {
            Standard::Cpp11 => &["-std=c++11"],
            Standard::Cpp14 => &["-std=c++14"],
            Standard::Cpp17 => &["-std=c++17"],
            Standard::Cpp20 => &["-std=c++20"],
            Standard::Java => &["--release", "17"],
        }
    }

    pub fn is_cpp(self) -> (cpp: bool)
        ensures
            cpp == is_cpp_spec(self),
    {
        match self {
            Standard::Cpp11 | Standard::Cpp14 | Standard::Cpp17 | Standard::Cpp20 => true,
            Standard::Java => false,
        }
    }

    pub fn get_executable_extension(self) -> (ext: &'static str)
        ensures
            ext@ == executable_extension_spec(self),
    {
        match self {
            Standard::Cpp11 | Standard::Cpp14 | Standard::Cpp17 | Standard::Cpp20 => "exe",
            Standard::Java => "class",
        }
    }

    /// The name to hand the runtime for a built file: for Java the class name,
    /// taken from a `.class` file; `None` where the built file runs by itself.
    pub fn execute_command(self, new_ext: &str) -> (command: Option<String>)
        ensures
            opt_string_view(command) == execute_command_spec(self, new_ext@),
    {
        match self {
            Standard::Cpp11 | Standard::Cpp14 | Standard::Cpp17 | Standard::Cpp20 => None,
            Standard::Java => {
                if contains(new_ext, ".class") {
                    Some(file_stem(new_ext))
                } else {
                    None
                }
            },
        }
    }

    pub fn get_extenstions(self) -> (exts: &'static [&'static str])
        ensures
            str_views(exts@) == extensions_spec(self),
    {
        match self {
            Standard::Cpp11 | Standard::Cpp14 | Standard::Cpp17 | Standard::Cpp20 => &[
                "cpp",
                "cc",
                "cxx",
            ],
            Standard::Java => &["java"],
        }
    }

    pub fn get_debug_flags(self) -> (flags: &'static [&'static str])
        ensures
            str_views(flags@) == debug_flags_spec(self),
    {
        match self {
            Standard::Cpp11 | Standard::Cpp14 | Standard::Cpp17 | Standard::Cpp20 => &[
                "-g",
                "-O2",
                "-fno-inline-functions",
            ],
            Standard::Java => &["-g"],
        }
    }

    pub fn get_release_flags(self) -> (flags: &'static [&'static str])
        ensures
            str_views(flags@) == release_flags_spec(self),
    {
        match self {
            Standard::Cpp11 | Standard::Cpp14 | Standard::Cpp17 | Standard::Cpp20 => &["-Ofast"],
            Standard::Java => &["-nowarn"],
        }
    }
}

/// A built solution never carries the extension of a source file, so building
/// never overwrites a source.
pub proof fn lemma_built_file_is_not_source(s: Standard)
    ensures
        !extensions_spec(s).contains(executable_extension_spec(s)),
{
    reveal_strlit("exe");
    reveal_strlit("class");
    reveal_strlit("cpp");
    reveal_strlit("cc");
    reveal_strlit("cxx");
    reveal_strlit("java");
    let exts = extensions_spec(s);
    let built = executable_extension_spec(s);
    assert forall|i: int| 0 <= i < exts.len() implies exts[i] != built by {
        if exts[i].len() == built.len() {
            assert(exts[i][0] != built[0]);
        }
    }
}

/// Only a Java solution is run through a class name, and only when the built
/// file is a class file; a C++ solution runs by itself.
pub proof fn lemma_only_java_runs_a_class(s: Standard, built: Seq<char>)
    ensures
        execute_command_spec(s, built) is Some <==> (s == Standard::Java && contains_seq(built, ".class"@)),
        is_cpp_spec(s) ==> execute_command_spec(s, built) is None,
{
}

/// Which standards are C++: all but Java.
pub proof fn lemma_cpp_standards(s: Standard)
    ensures
        is_cpp_spec(s) <==> (s == Standard::Cpp11 || s == Standard::Cpp14 || s == Standard::Cpp17
            || s == Standard::Cpp20),
        !is_cpp_spec(s) <==> s == Standard::Java,
{
}

/// The flags and extensions of a standard depend only on its language: every
/// C++ standard builds debug with `-g -O2 -fno-inline-functions` and release
/// with `-Ofast`, reads `cpp`, `cc` and `cxx` sources and builds `exe` files;
/// Java builds debug with `-g` and release with `-nowarn`, reads `java` and
/// builds `class` files.
pub proof fn lemma_flags_follow_language(s: Standard, t: Standard)
    ensures
        is_cpp_spec(s) ==> debug_flags_spec(s) == seq!["-g"@, "-O2"@, "-fno-inline-functions"@],
        is_cpp_spec(s) ==> release_flags_spec(s) == seq!["-Ofast"@],
        is_cpp_spec(s) ==> extensions_spec(s) == seq!["cpp"@, "cc"@, "cxx"@],
        is_cpp_spec(s) ==> executable_extension_spec(s) == "exe"@,
        s == Standard::Java ==> debug_flags_spec(s) == seq!["-g"@],
        s == Standard::Java ==> release_flags_spec(s) == seq!["-nowarn"@],
        s == Standard::Java ==> extensions_spec(s) == seq!["java"@],
        s == Standard::Java ==> executable_extension_spec(s) == "class"@,
        is_cpp_spec(s) == is_cpp_spec(t) ==> {
            &&& debug_flags_spec(s) == debug_flags_spec(t)
            &&& release_flags_spec(s) == release_flags_spec(t)
            &&& extensions_spec(s) == extensions_spec(t)
            &&& executable_extension_spec(s) == executable_extension_spec(t)
        },
{
}

/// Each standard has a flag of its own: a C++ standard passes one flag
/// `-std=c++` followed by its two-digit version, Java passes `--release 17`,
/// and no two standards pass the same flags.
pub proof fn lemma_standard_flags_distinct(s: Standard, t: Standard)
    ensures
        is_cpp_spec(s) ==> flag_clang_spec(s).len() == 1 && flag_clang_spec(s)[0].len() == 10
            && flag_clang_spec(s)[0].take(8) == "-std=c++"@,
        s == Standard::Java ==> flag_clang_spec(s) == seq!["--release"@, "17"@],
        s != t ==> flag_clang_spec(s) != flag_clang_spec(t),
{
    reveal_strlit("-std=c++11");
    reveal_strlit("-std=c++14");
    reveal_strlit("-std=c++17");
    reveal_strlit("-std=c++20");
    reveal_strlit("--release");
    reveal_strlit("-std=c++");
    let fs = flag_clang_spec(s);
    let ft = flag_clang_spec(t);
    if is_cpp_spec(s) {
        assert(fs[0].take(8) =~= "-std=c++"@);
    }
    if s != t && fs.len() == ft.len() {
        assert(fs.len() == 1);
        if fs[0][8] == ft[0][8] {
            assert(fs[0][9] != ft[0][9]);
        }
    }
}

/// For Java, a class file built into any directory gives the name of its
/// class: the file name without `.class`, whatever its length.
pub proof fn lemma_java_class_name(dir: Seq<char>, class: Seq<char>)
    requires
        class.len() > 0,
        !class.contains('/'),
        dir.len() == 0 || dir.last() == '/',
    ensures
        execute_command_spec(Standard::Java, dir + class + ".class"@) == Some(class),
{
    reveal_strlit(".class");
    let c = ".class"@;
    assert(c =~= seq!['.', 'c', 'l', 'a', 's', 's']);
    lemma_class_file_stem(dir, class);
    let built = dir + class + c;
    assert(occurs_at(built, c, (dir.len() + class.len()) as int));
}

} // verus!
