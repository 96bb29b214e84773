//! The immutable data model threaded through the pipeline: file records,
//! the build configuration, and the intermediate representation that a
//! stage consumes and produces.

use crate::json::{json_is_null, json_null};
use crate::shmap::ShMap;
use vstd::prelude::*;
use vstd::string::StringExecFns;

verus! {

/// One logical file: content text plus parsed front matter.
pub struct ShFile {
    /// The parsed front-matter data; the null value when none existed.
    pub frontmatter: serde_json::Value,
    /// The file contents (without front matter).
    pub content: String,
}

impl ShFile {
    /// Creates an empty file record: null front matter and empty content.
    /// Useful as a tombstone value when deleting files with
    /// [`ShMap::difference`], whose result ignores the deletion mapping's
    /// values.
    pub fn empty() -> (r: ShFile)
        ensures
            json_is_null(r.frontmatter),
            r.content@ == Seq::<char>::empty(),
    {
        ShFile { frontmatter: json_null(), content: String::new() }
    }
}

/// The abstract value of a [`Config`].
pub ghost struct ConfigView {
    /// The ignore-glob patterns, in order.
    pub ignores: Seq<Seq<char>>,
    /// The source directory path.
    pub source: Seq<char>,
    /// The destination directory path.
    pub destination: Seq<char>,
    /// Whether to clean the destination directory before building.
    pub clean: bool,
    /// Whether to parse front matter.
    pub frontmatter: bool,
}

/// Configuration for one build, fixed before the build starts.
pub struct Config {
    /// Glob patterns for files that are to be ignored.
    pub ignores: Vec<String>,
    /// Source directory to read from.
    pub source: String,
    /// Destination directory to write to.
    pub destination: String,
    /// Whether to clean the destination directory before building.
    pub clean: bool,
    /// Whether to parse front matter.
    pub frontmatter: bool,
}

impl View for Config {
    type V = ConfigView;

    open spec fn view(&self) -> ConfigView {
        ConfigView {
            ignores: self.ignores.deep_view(),
            source: self.source@,
            destination: self.destination@,
            clean: self.clean,
            frontmatter: self.frontmatter,
        }
    }
}

impl Default for Config {
    /// The default configuration: no ignore patterns, source `.`,
    /// destination `./dest`, no cleaning, front matter parsed.
    fn default() -> (c: Config)
        ensures
            c@.ignores.len() == 0,
            c@.source == "."@,
            c@.destination == "./dest"@,
            !c@.clean,
            c@.frontmatter,
    {
        Config {
            ignores: Vec::new(),
            source: String::from_str("."),
            destination: String::from_str("./dest"),
            clean: false,
            frontmatter: true,
        }
    }
}

impl Config {
    /// A field-for-field copy of the configuration.
    pub fn duplicate(&self) -> (r: Config)
        ensures
            r@ == self@,
    {
        let mut ignores: Vec<String> = Vec::new();
        let n = self.ignores.len();
        let mut i: usize = 0;
        while i < n
            invariant
                n == self.ignores@.len(),
                0 <= i <= n,
                ignores@.len() == i,
                forall|j: int| 0 <= j < i ==> ignores@[j]@ == self.ignores@[j]@,
            decreases n - i,
        {
            ignores.push(self.ignores[i].clone());
            i = i + 1;
        }
        let r = Config {
            ignores,
            source: self.source.clone(),
            destination: self.destination.clone(),
            clean: self.clean,
            frontmatter: self.frontmatter,
        };
        proof {
            assert(r@.ignores =~= self@.ignores);
        }
        r
    }
}

/// The intermediate representation passed to stages: the file-state
/// mapping, the global metadata mapping, and the configuration.
pub struct IR {
    /// The file state: relative paths mapped to file records.
    pub files: ShMap<ShFile>,
    /// The configuration.
    pub config: Config,
    /// Global metadata: string keys mapped to structured values.
    pub metadata: ShMap<serde_json::Value>,
}

/// The errors the pipeline core itself can raise. I/O failures around the
/// core (reading the source tree, cleaning and writing the destination)
/// stay with the host that performs them.
#[derive(Debug)]
pub enum BuildError {
    /// An ignore pattern is not a valid glob; holds that pattern.
    InvalidGlob(String),
    /// The ignore patterns could not be assembled into a matcher set.
    GlobSet,
    /// A file's front-matter header failed to decode; holds the file's
    /// relative path.
    Decode(String),
}

} // verus!
