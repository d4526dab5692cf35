//! Configuration data and the merge of command-line and file settings into a
//! build configuration.

use vstd::prelude::*;

use crate::args::{CompileArgs, ProcessArgs, WorldArgs};
use crate::text::{starts_with_spec, trim, trim_spec};

verus! {

/// The configuration file contents, as plain data.
#[derive(Debug, Clone)]
pub struct WeibianConfig {
    pub directories: DirectoriesConfig,
    pub site: SiteConfig,
}

/// Configured directories.
#[derive(Debug, Clone)]
pub struct DirectoriesConfig {
    pub input_dir: Option<String>,
    pub output_dir: Option<String>,
    pub public_dir: Option<String>,
    pub cache_dir: Option<String>,
}

/// Configured site settings, all optional.
#[derive(Debug, Clone)]
pub struct SiteConfig {
    pub domain: Option<String>,
    pub root_dir: Option<String>,
    pub trailing_slash: Option<bool>,
}

/// Resolved site settings: the root directory always starts and ends with a
/// slash.
#[derive(Debug, Clone)]
pub struct SiteSettings {
    pub domain: Option<String>,
    pub root_dir: String,
    pub trailing_slash: bool,
}

/// A preprocessed compile command with configuration defaults applied.  The
/// HTML cache directory stays optional here; the front end supplies its
/// machine-dependent default.
#[derive(Debug, Clone)]
pub struct BuildConfig {
    pub input_directory: String,
    pub html_cache_directory: Option<String>,
    pub public_directory: String,
    pub output_directory: String,
    pub site: SiteSettings,
    pub world: WorldArgs,
    pub process: ProcessArgs,
}

/// The view of an optional string.
pub open spec fn opt_str_view(v: Option<String>) -> Option<Seq<char>> {
    match v {
        Option::Some(s) => Option::Some(s@),
        Option::None => Option::None,
    }
}

/// The first directory given: the command line wins over the configuration
/// file, which wins over the built-in default.
pub open spec fn resolve_dir_spec(
    cli: Option<Seq<char>>,
    config: Option<Seq<char>>,
    default: Seq<char>,
) -> Seq<char> {
    match cli {
        Option::Some(c) => c,
        Option::None => match config {
            Option::Some(c) => c,
            Option::None => default,
        },
    }
}

/// Resolve a directory from the command line, the configuration file, or a
/// default.
pub fn resolve_dir(cli: Option<&String>, config: Option<&String>, default: &str) -> (r: String)
    ensures
        r@ == resolve_dir_spec(
            match cli {
                Option::Some(c) => Option::Some(c@),
                Option::None => Option::None,
            },
            match config {
                Option::Some(c) => Option::Some(c@),
                Option::None => Option::None,
            },
            default@,
        ),
{
    match cli {
        Some(c) => c.clone(),
        None => match config {
            Some(c) => c.clone(),
            None => default.to_owned(),
        },
    }
}

/// The site root directory, normalized: trimmed, defaulted to `/`, and made
/// to start and end with `/`.
pub open spec fn normalize_root_dir_spec(raw: Option<Seq<char>>) -> Seq<char> {
    let r0 = match raw {
        Option::Some(s) => s,
        Option::None => "/"@,
    };
    let t = trim_spec(r0);
    let t1 = if t.len() == 0 {
        "/"@
    } else {
        t
    };
    let t2 = if !(t1.len() >= 1 && t1[0] == '/') {
        "/"@ + t1
    } else {
        t1
    };
    if !(t2.len() >= 1 && t2.last() == '/') {
        t2 + "/"@
    } else {
        t2
    }
}

/// Normalize the configured site root directory.
pub fn normalize_root_dir(raw: Option<&str>) -> (r: String)
    ensures
        r@ == normalize_root_dir_spec(
            match raw {
                Option::Some(s) => Option::Some(s@),
                Option::None => Option::None,
            },
        ),
{
    let base: &str = match raw {
        Some(s) => s,
        None => "/",
    };
    let t = trim(base);
    let t1: String = if t.as_str().unicode_len() == 0 {
        String::from_str("/")
    } else {
        t
    };
    let n1: usize = t1.as_str().unicode_len();
    let t2: String = if !(n1 >= 1 && t1.as_str().get_char(0) == '/') {
        let mut s2 = String::from_str("/");
        s2.append(t1.as_str());
        s2
    } else {
        t1
    };
    let n2: usize = t2.as_str().unicode_len();
    if !(n2 >= 1 && t2.as_str().get_char(n2 - 1) == '/') {
        let mut s3 = t2;
        s3.append("/");
        s3
    } else {
        t2
    }
}

impl BuildConfig {
    /// Merge command-line arguments and the configuration file into a build
    /// configuration; the command line wins.
    pub fn from(args: &CompileArgs, config: &WeibianConfig) -> (r: BuildConfig)
        ensures
            r.input_directory@ == resolve_dir_spec(
                opt_str_view(args.input),
                opt_str_view(config.directories.input_dir),
                "typ"@,
            ),
            opt_str_view(r.html_cache_directory) == (match args.html_cache {
                Option::Some(c) => Option::Some(c@),
                Option::None => opt_str_view(config.directories.cache_dir),
            }),
            r.public_directory@ == resolve_dir_spec(
                opt_str_view(args.public),
                opt_str_view(config.directories.public_dir),
                "public"@,
            ),
            r.output_directory@ == resolve_dir_spec(
                opt_str_view(args.output),
                opt_str_view(config.directories.output_dir),
                "dist"@,
            ),
            opt_str_view(r.site.domain) == (match args.site.domain {
                Option::Some(d) => Option::Some(d@),
                Option::None => opt_str_view(config.site.domain),
            }),
            r.site.root_dir@ == normalize_root_dir_spec(
                match args.site.root_dir {
                    Option::Some(s) => Option::Some(s@),
                    Option::None => opt_str_view(config.site.root_dir),
                },
            ),
            r.site.trailing_slash == (match args.site.trailing_slash {
                Option::Some(b) => b,
                Option::None => match config.site.trailing_slash {
                    Option::Some(b) => b,
                    Option::None => false,
                },
            }),
    {
        let input_directory = resolve_dir(
            args.input.as_ref(),
            config.directories.input_dir.as_ref(),
            "typ",
        );
        let html_cache_directory: Option<String> = match &args.html_cache {
            Some(c) => Some(c.clone()),
            None => match &config.directories.cache_dir {
                Some(c) => Some(c.clone()),
                None => None,
            },
        };
        let public_directory = resolve_dir(
            args.public.as_ref(),
            config.directories.public_dir.as_ref(),
            "public",
        );
        let output_directory = resolve_dir(
            args.output.as_ref(),
            config.directories.output_dir.as_ref(),
            "dist",
        );
        let domain: Option<String> = match &args.site.domain {
            Some(d) => Some(d.clone()),
            None => match &config.site.domain {
                Some(d) => Some(d.clone()),
                None => None,
            },
        };
        let root_raw: Option<&str> = match &args.site.root_dir {
            Some(s) => Some(s.as_str()),
            None => match &config.site.root_dir {
                Some(s) => Some(s.as_str()),
                None => None,
            },
        };
        let root_dir = normalize_root_dir(root_raw);
        let trailing_slash = match args.site.trailing_slash {
            Some(b) => b,
            None => match config.site.trailing_slash {
                Some(b) => b,
                None => false,
            },
        };
        BuildConfig {
            input_directory,
            html_cache_directory,
            public_directory,
            output_directory,
            site: SiteSettings { domain, root_dir, trailing_slash },
            world: args.world.clone(),
            process: args.process.clone(),
        }
    }
}

} // verus!
