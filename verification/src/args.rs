//! Command-line argument data, free of any parsing machinery: the front end
//! fills these from the real command line.

use vstd::prelude::*;

verus! {

/// Arguments shared by all commands.
#[derive(Debug, Clone)]
pub struct GlobalArgs {
    /// Path to a configuration file.
    pub config_file: Option<String>,
}

/// Site configuration overrides.
#[derive(Debug, Clone)]
pub struct SiteArgs {
    /// The domain of the site used for generating absolute URLs.
    pub domain: Option<String>,
    /// Root directory of the site.
    pub root_dir: Option<String>,
    /// Whether note URLs should end with a trailing slash.
    pub trailing_slash: Option<bool>,
}

/// Arguments for configuring the compilation process itself.
#[derive(Debug, Clone)]
pub struct ProcessArgs {
    /// Number of parallel jobs spawned during compilation.
    pub jobs: Option<usize>,
    /// The format to emit diagnostics in.
    pub diagnostic_format: DiagnosticFormat,
}

/// Arguments related to where packages are stored in the system.
#[derive(Debug, Clone)]
pub struct PackageArgs {
    /// Custom path to local packages.
    pub package_path: Option<String>,
    /// Custom path to the package cache.
    pub package_cache_path: Option<String>,
}

/// Common arguments to customize available fonts.
#[derive(Debug, Clone)]
pub struct FontArgs {
    /// Additional directories searched recursively for fonts.
    pub font_paths: Vec<String>,
    /// Whether system fonts are skipped.
    pub ignore_system_fonts: bool,
}

/// Arguments for the construction of a compilation world.
#[derive(Debug, Clone)]
pub struct WorldArgs {
    /// The project root for absolute paths.
    pub root: Option<String>,
    /// String key-value pairs visible to the compiled documents.
    pub inputs: Vec<(String, String)>,
    /// Font arguments.
    pub font: FontArgs,
    /// Package storage arguments.
    pub package: PackageArgs,
    /// The project's creation date as a UNIX timestamp, for reproducible
    /// builds.
    pub creation_timestamp: Option<i64>,
}

/// Arguments for compilation.
#[derive(Debug, Clone)]
pub struct CompileArgs {
    /// Path to the input directory.
    pub input: Option<String>,
    /// Path to the intermediate HTML cache directory.
    pub html_cache: Option<String>,
    /// Path to the public assets directory.
    pub public: Option<String>,
    /// Path to the output directory.
    pub output: Option<String>,
    /// Site configuration.
    pub site: SiteArgs,
    /// World arguments.
    pub world: WorldArgs,
    /// PDF standards to enforce conformance with.
    pub pdf_standard: Vec<PdfStandard>,
    /// Processing arguments.
    pub process: ProcessArgs,
}

/// Which format to use for the generated output file.
#[derive(Debug, Copy, Clone, PartialEq, Eq, Structural)]
pub enum OutputFormat {
    Pdf,
    Html,
    All,
}

/// Which format to use for diagnostics.
#[derive(Debug, Copy, Clone, PartialEq, Eq, Structural)]
pub enum DiagnosticFormat {
    Human,
    Short,
}

impl Default for DiagnosticFormat {
    /// The default diagnostic format is the human-readable one.
    fn default() -> (r: Self)
        ensures
            r == DiagnosticFormat::Human,
    {
        DiagnosticFormat::Human
    }
}

/// A PDF standard the compiler can enforce conformance with.
#[derive(Debug, Copy, Clone, PartialEq, Eq, Structural)]
#[allow(non_camel_case_types)]
pub enum PdfStandard {
    /// PDF 1.7.
    V_1_7,
    /// PDF/A-2b.
    A_2b,
    /// PDF/A-3b.
    A_3b,
}

/// The position of the first `=` in `s`, if any.
pub open spec fn eq_pos(s: Seq<char>) -> Option<int>
    decreases s.len(),
{
    if s.len() == 0 {
        Option::None
    } else if s[0] == '=' {
        Option::Some(0)
    } else {
        match eq_pos(s.drop_first()) {
            Option::Some(p) => Option::Some(p + 1),
            Option::None => Option::None,
        }
    }
}

/// The key-value pair read from `raw`: split at the first `=`, both sides
/// trimmed; no `=` or an empty key is an error.
pub open spec fn spec_sys_input_pair(raw: Seq<char>) -> Result<(Seq<char>, Seq<char>), Seq<char>> {
    match eq_pos(raw) {
        Option::None => Result::Err("input must be a key and a value separated by an equal sign"@),
        Option::Some(p) => {
            let key = crate::text::trim_spec(raw.subrange(0, p));
            let val = crate::text::trim_spec(raw.subrange(p + 1, raw.len() as int));
            if key.len() == 0 {
                Result::Err("the key was missing or empty"@)
            } else {
                Result::Ok((key, val))
            }
        },
    }
}

/// Parse a key-value pair split by the first equal sign, as given on the
/// command line.
pub fn parse_sys_input_pair(raw: &str) -> (r: Result<(String, String), String>)
    ensures
        match r {
            Result::Ok(kv) => spec_sys_input_pair(raw@) == Result::<
                (Seq<char>, Seq<char>),
                Seq<char>,
            >::Ok((kv.0@, kv.1@)),
            Result::Err(e) => spec_sys_input_pair(raw@) == Result::<
                (Seq<char>, Seq<char>),
                Seq<char>,
            >::Err(e@),
        },
{
    let n: usize = raw.unicode_len();
    let mut i: usize = 0;
    proof {
        assert(raw@.skip(0) =~= raw@);
    }
    while i < n
        invariant
            0 <= i <= n,
            n == raw@.len(),
            eq_pos(raw@) matches Option::Some(p) ==> eq_pos(raw@.skip(i as int))
                == Option::Some(p - i),
            eq_pos(raw@) is None ==> eq_pos(raw@.skip(i as int)) is None,
        decreases n - i,
    {
        proof {
            assert(raw@.skip(i as int)[0] == raw@[i as int]);
        }
        if raw.get_char(i) == '=' {
            proof {
                assert(eq_pos(raw@.skip(i as int)) == Option::Some(0int));
                match eq_pos(raw@) {
                    Option::Some(p) => {
                        assert(p - i == 0);
                    },
                    Option::None => {
                        assert(false);
                    },
                }
                assert(eq_pos(raw@) == Option::Some(i as int));
            }
            let key = crate::text::trim(raw.substring_char(0, i));
            let val = crate::text::trim(raw.substring_char(i + 1, n));
            if key.as_str().unicode_len() == 0 {
                return Err(String::from_str("the key was missing or empty"));
            }
            return Ok((key, val));
        }
        proof {
            assert(raw@.skip(i as int).drop_first() =~= raw@.skip(i + 1));
            match eq_pos(raw@) {
                Option::Some(p) => {
                    assert(eq_pos(raw@.skip(i as int)) == Option::Some(p - i));
                    match eq_pos(raw@.skip(i + 1)) {
                        Option::Some(p2) => {
                            assert(eq_pos(raw@.skip(i as int)) == Option::Some(p2 + 1));
                            assert(p2 == p - (i + 1));
                        },
                        Option::None => {
                            assert(eq_pos(raw@.skip(i as int)) is None);
                            assert(false);
                        },
                    }
                },
                Option::None => {
                    assert(eq_pos(raw@.skip(i as int)) is None);
                    match eq_pos(raw@.skip(i + 1)) {
                        Option::Some(p2) => {
                            assert(eq_pos(raw@.skip(i as int)) == Option::Some(p2 + 1));
                            assert(false);
                        },
                        Option::None => {},
                    }
                },
            }
        }
        i = i + 1;
    }
    proof {
        assert(raw@.skip(n as int).len() == 0);
        match eq_pos(raw@) {
            Option::Some(p) => {
                assert(false);
            },
            Option::None => {},
        }
    }
    Err(String::from_str("input must be a key and a value separated by an equal sign"))
}

} // verus!
