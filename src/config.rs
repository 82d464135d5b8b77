//! Annotation names the linker is configured with, from a configuration file
//! and from the command line.

use vstd::prelude::*;
use crate::diagram::opt_text;

verus! {

/// Configuration read from a file: the fully qualified names of the
/// suppression annotation and of the four relationship annotations.
#[derive(Clone, Debug)]
pub struct Config {
    pub skip: Option<String>,
    pub aggregate: Option<String>,
    pub compose: Option<String>,
    pub link: Option<String>,
    pub navigate: Option<String>,
}

impl Default for Config {
    fn default() -> (r: Config)
        ensures
            r.skip.is_none(),
            r.aggregate.is_none(),
            r.compose.is_none(),
            r.link.is_none(),
            r.navigate.is_none(),
    {
        Config { skip: None, aggregate: None, compose: None, link: None, navigate: None }
    }
}

/// The configuration in effect once command-line values override the file's.
#[derive(Clone, Debug)]
pub struct MergedConfig {
    pub skip: Option<String>,
    pub aggregate: Option<String>,
    pub compose: Option<String>,
    pub link: Option<String>,
    pub navigate: Option<String>,
}

/// The command-line arguments of the linker.
#[derive(Clone, Debug)]
pub struct Args {
    /// The diagram to start from.
    pub diagram: Option<String>,
    /// Class files and directories to read.
    pub classfiles: Vec<String>,
    /// The output file or directory.
    pub output: String,
    /// The configuration file.
    pub config: Option<String>,
    pub skip: Option<String>,
    pub aggregate: Option<String>,
    pub compose: Option<String>,
    pub link: Option<String>,
    pub navigate: Option<String>,
}

/// `a` when it is given, else `b`.
pub open spec fn either(a: Option<String>, b: Option<String>) -> Option<Seq<char>> {
    if a.is_some() {
        opt_text(a)
    } else {
        opt_text(b)
    }
}

fn prefer(a: &Option<String>, b: &Option<String>) -> (r: Option<String>)
    ensures
        opt_text(r) == either(*a, *b),
{
    match a {
        Some(s) => Some(s.clone()),
        None => match b {
            Some(s) => Some(s.clone()),
            None => None,
        },
    }
}

impl Config {
    /// Merges with command-line arguments; a value given there wins.
    pub fn merge_with_args(&self, args: &Args) -> (r: MergedConfig)
        ensures
            opt_text(r.skip) == either(args.skip, self.skip),
            opt_text(r.aggregate) == either(args.aggregate, self.aggregate),
            opt_text(r.compose) == either(args.compose, self.compose),
            opt_text(r.link) == either(args.link, self.link),
            opt_text(r.navigate) == either(args.navigate, self.navigate),
    {
        MergedConfig {
            skip: prefer(&args.skip, &self.skip),
            aggregate: prefer(&args.aggregate, &self.aggregate),
            compose: prefer(&args.compose, &self.compose),
            link: prefer(&args.link, &self.link),
            navigate: prefer(&args.navigate, &self.navigate),
        }
    }
}

} // verus!
