//! Build orchestration: the pipeline value object, its configuration
//! setters, the stage chain, and the pure part of the source read — turning
//! the walked source entries into the initial file-state mapping under the
//! ignore filter and the front-matter splitter.

use crate::chain::{chain_rel, Middleware, Ware};
use crate::frontmatter::{front_split, to_json};
use crate::globs::{
    builder_add, builder_build, builder_new, builder_patterns, glob_match, glob_new, glob_ok,
    set_builds, set_is_match, set_patterns,
};
use crate::ir::{BuildError, Config, ConfigView, ShFile, IR};
use crate::json::{json_is_null, json_null, yaml_parses, yaml_value_of};
use crate::shmap::ShMap;
use crate::strutil::eq_str;
use vstd::prelude::*;

verus! {

/// Convenience type to register as a stage: a boxed middleware over the
/// intermediate representation.
pub type Plugin = Box<dyn Middleware<IR>>;

/// A path itself is matched by some ignore pattern.
pub open spec fn ignored(pats: Seq<Seq<char>>, path: Seq<char>) -> bool {
    exists|i: int| 0 <= i < pats.len() && glob_match(#[trigger] pats[i], path)
}

/// Some ancestor directory of the slash-normalized path is matched by an
/// ignore pattern: a proper prefix ending just before a `/`.
pub open spec fn prefix_ignored(pats: Seq<Seq<char>>, path: Seq<char>) -> bool {
    exists|j: int| 0 < j < path.len() && path[j] == '/' && ignored(pats, #[trigger] path.subrange(0, j))
}

/// A path is excluded from the build: a pattern matches the path itself, or
/// one of its ancestor directories, whose subtree is pruned whole.
pub open spec fn ignored_under(pats: Seq<Seq<char>>, path: Seq<char>) -> bool {
    ignored(pats, path) || prefix_ignored(pats, path)
}

/// The record the reader builds for a source text: under the front-matter
/// flag, the content is the split's body and the front matter is null
/// exactly when the header was empty; with the flag off, the content is the
/// raw text and the front matter is null.
pub open spec fn record_matches(r: ShFile, text: Seq<char>, parse: bool) -> bool {
    if parse {
        &&& r.content@ == front_split(text).1
        &&& (front_split(text).0.len() == 0 ==> json_is_null(r.frontmatter))
        &&& (front_split(text).0.len() > 0 ==> yaml_parses(front_split(text).0)
            && r.frontmatter == yaml_value_of(front_split(text).0))
    } else {
        &&& r.content@ == text
        &&& json_is_null(r.frontmatter)
    }
}

/// A source text decodes: its header is empty or parses as YAML.
pub open spec fn decodes(text: Seq<char>) -> bool {
    front_split(text).0.len() == 0 || yaml_parses(front_split(text).0)
}

/// Every non-ignored source entry's front matter decodes (vacuous when the
/// front-matter flag is off).
pub open spec fn matter_ok(
    sources: Seq<(String, String)>,
    pats: Seq<Seq<char>>,
    parse: bool,
) -> bool {
    parse ==> forall|i: int|
        (0 <= i < sources.len() && !ignored_under(pats, #[trigger] sources[i].0@)) ==> decodes(
            sources[i].1@,
        )
}

/// The reader's result: `files` holds exactly the non-ignored source paths,
/// and the record of each path comes from the last source entry carrying
/// it.
pub open spec fn files_read_ok(
    sources: Seq<(String, String)>,
    pats: Seq<Seq<char>>,
    parse: bool,
    files: Map<Seq<char>, ShFile>,
) -> bool {
    &&& forall|k: Seq<char>|
        #[trigger] files.contains_key(k) ==> (!ignored_under(pats, k) && exists|i: int|
            0 <= i < sources.len() && #[trigger] sources[i].0@ == k)
    &&& forall|i: int|
        (0 <= i < sources.len() && !ignored_under(pats, #[trigger] sources[i].0@))
            ==> files.contains_key(sources[i].0@)
    &&& forall|i: int|
        (0 <= i < sources.len() && !ignored_under(pats, #[trigger] sources[i].0@) && (forall|j: int|
            i < j < sources.len() ==> sources[j].0@ != sources[i].0@)) ==> record_matches(
            files[sources[i].0@],
            sources[i].1@,
            parse,
        )
}

/// Some ignore pattern is not a valid glob.
pub open spec fn some_bad_pattern(pats: Seq<Seq<char>>) -> bool {
    exists|i: int| 0 <= i < pats.len() && !glob_ok(#[trigger] pats[i])
}

/// Whether the set matches the path itself or one of its ancestor
/// directory prefixes.
fn matched_under(set: &globset::GlobSet, path: &str) -> (r: bool)
    ensures
        r == ignored_under(set_patterns(*set), path@),
{
    if set_is_match(set, path) {
        return true;
    }
    let n = path.unicode_len();
    let mut j: usize = 0;
    while j < n
        invariant
            n == path@.len(),
            0 <= j <= n,
            !ignored(set_patterns(*set), path@),
            forall|q: int|
                0 < q < j && path@[q] == '/' ==> !ignored(
                    set_patterns(*set),
                    #[trigger] path@.subrange(0, q),
                ),
        decreases n - j,
    {
        if j > 0 && path.get_char(j) == '/' {
            let prefix = path.substring_char(0, j);
            if set_is_match(set, prefix) {
                return true;
            }
        }
        j = j + 1;
    }
    false
}

/// Builds the initial file-state mapping from the walked source entries:
/// compiles the ignore patterns, drops every entry whose path — or any of
/// whose ancestor directories — a pattern matches, and splits front matter
/// from each kept entry's text when `parse` is set. Fails on the first
/// invalid ignore pattern and on the first kept entry whose front matter
/// does not decode.
pub fn read_dir(
    sources: &Vec<(String, String)>,
    patterns: &Vec<String>,
    parse: bool,
) -> (r: Result<ShMap<ShFile>, BuildError>)
    ensures
        (r matches Err(BuildError::InvalidGlob(p)) ==> !glob_ok(p@) && (exists|i: int|
            0 <= i < patterns.deep_view().len() && #[trigger] patterns.deep_view()[i] == p@)),
        some_bad_pattern(patterns.deep_view()) <==> (r matches Err(BuildError::InvalidGlob(_))),
        (r matches Err(BuildError::GlobSet)) <==> (!some_bad_pattern(patterns.deep_view())
            && !set_builds(patterns.deep_view())),
        (r matches Err(BuildError::Decode(path)) ==> parse && (exists|i: int|
            0 <= i < sources@.len() && #[trigger] sources@[i].0@ == path@ && !ignored_under(
                patterns.deep_view(),
                path@,
            ) && !decodes(sources@[i].1@))),
        (r matches Err(BuildError::Decode(_))) <==> (!some_bad_pattern(patterns.deep_view())
            && set_builds(patterns.deep_view()) && !matter_ok(
            sources@,
            patterns.deep_view(),
            parse,
        )),
        r is Ok <==> (!some_bad_pattern(patterns.deep_view()) && set_builds(patterns.deep_view())
            && matter_ok(sources@, patterns.deep_view(), parse)),
        (r matches Ok(files) ==> files_read_ok(
            sources@,
            patterns.deep_view(),
            parse,
            files@,
        )),
{
    let ghost pats = patterns.deep_view();
    let mut builder = builder_new();
    let np = patterns.len();
    let mut i: usize = 0;
    while i < np
        invariant
            np == patterns@.len(),
            0 <= i <= np,
            pats == patterns.deep_view(),
            pats.len() == np,
            builder_patterns(builder) =~= pats.subrange(0, i as int),
            forall|j: int| 0 <= j < i ==> glob_ok(#[trigger] pats[j]),
        decreases np - i,
    {
        match glob_new(patterns[i].as_str()) {
            Ok(g) => {
                builder_add(&mut builder, g);
                proof {
                    assert(builder_patterns(builder) =~= pats.subrange(0, i + 1));
                }
            }
            Err(_) => {
                let bad = patterns[i].clone();
                proof {
                    assert(pats[i as int] == patterns@[i as int]@);
                    assert(bad@ == pats[i as int]);
                    assert(!glob_ok(pats[i as int]));
                    assert(some_bad_pattern(pats));
                }
                return Err(BuildError::InvalidGlob(bad));
            }
        }
        i = i + 1;
    }
    proof {
        assert(builder_patterns(builder) =~= pats);
    }
    let set = match builder_build(&builder) {
        Ok(s) => s,
        Err(_) => {
            return Err(BuildError::GlobSet);
        }
    };
    let mut files: ShMap<ShFile> = ShMap::new();
    let ns = sources.len();
    let mut k: usize = 0;
    while k < ns
        invariant
            ns == sources@.len(),
            0 <= k <= ns,
            pats == patterns.deep_view(),
            set_patterns(set) == pats,
            set_builds(pats),
            forall|j: int| 0 <= j < pats.len() ==> glob_ok(#[trigger] pats[j]),
            matter_ok(sources@.subrange(0, k as int), pats, parse),
            files_read_ok(sources@.subrange(0, k as int), pats, parse, files@),
        decreases ns - k,
    {
        let ghost pre = sources@.subrange(0, k as int);
        let ghost post = sources@.subrange(0, k + 1);
        let ghost files_pre = files@;
        proof {
            assert(post.drop_last() =~= pre);
            assert(post.last() == sources@[k as int]);
        }
        let path = sources[k].0.clone();
        if !matched_under(&set, path.as_str()) {
            let record: ShFile;
            if parse {
                let (matter, body) = crate::frontmatter::lexer(sources[k].1.as_str());
                match to_json(matter.as_str()) {
                    Some(v) => {
                        record = ShFile { frontmatter: v, content: body };
                    }
                    None => {
                        proof {
                            assert(!ignored_under(pats, path@));
                            assert(!decodes(sources@[k as int].1@));
                            assert(path@ == sources@[k as int].0@);
                            assert(!matter_ok(sources@, pats, parse));
                        }
                        return Err(BuildError::Decode(path));
                    }
                }
            } else {
                record = ShFile { frontmatter: json_null(), content: sources[k].1.clone() };
            }
            proof {
                assert(record_matches(record, sources@[k as int].1@, parse));
            }
            files.insert(path, record);
            proof {
                lemma_read_step_insert(post, pats, parse, files_pre, record);
            }
        } else {
            proof {
                lemma_read_step_skip(post, pats, parse, files_pre);
            }
        }
        k = k + 1;
    }
    proof {
        assert(sources@.subrange(0, ns as int) =~= sources@);
    }
    Ok(files)
}

/// A pattern list with adjacent repeats removed: each pattern equal to its
/// immediate predecessor is dropped.
pub open spec fn dedup_adjacent(s: Seq<Seq<char>>) -> Seq<Seq<char>>
    decreases s.len(),
{
    if s.len() <= 1 {
        s
    } else if s[s.len() - 1] == s[s.len() - 2] {
        dedup_adjacent(s.drop_last())
    } else {
        dedup_adjacent(s.drop_last()).push(s.last())
    }
}

/// Removing adjacent repeats keeps the last element, and empties only an
/// empty list.
proof fn lemma_dedup_adjacent_last(s: Seq<Seq<char>>)
    requires
        s.len() > 0,
    ensures
        dedup_adjacent(s).len() > 0,
        dedup_adjacent(s).last() == s.last(),
    decreases s.len(),
{
    if s.len() > 1 {
        lemma_dedup_adjacent_last(s.drop_last());
        if s[s.len() - 1] == s[s.len() - 2] {
            assert(s.drop_last().last() == s[s.len() - 2]);
        }
    }
}

/// The main library struct: the mutable setup object a host configures
/// before triggering a build.
pub struct Shtola {
    /// The middleware chain of registered stages.
    pub ware: Ware<IR>,
    /// The intermediate representation holding the configuration.
    pub ir: IR,
}

impl Shtola {
    /// Creates a pipeline with no registered stages and the default
    /// configuration.
    pub fn new() -> (s: Shtola)
        ensures
            s.ware.fns@.len() == 0,
            s.ir.files@ == Map::<Seq<char>, ShFile>::empty(),
            s.ir.metadata@ == Map::<Seq<char>, serde_json::Value>::empty(),
            s.ir.config@.ignores.len() == 0,
            s.ir.config@.source == "."@,
            s.ir.config@.destination == "./dest"@,
            !s.ir.config@.clean,
            s.ir.config@.frontmatter,
    {
        let config = Config::default();
        let ir = IR { files: ShMap::new(), config, metadata: ShMap::new() };
        Shtola { ware: Ware::new(), ir }
    }

    /// Appends glob patterns to the ignore list, deduplicating adjacent
    /// repeats; the given list is drained. If a pattern matches a path, the
    /// file is excluded from the intermediate representation.
    pub fn ignores(&mut self, vec: &mut Vec<String>)
        ensures
            final(self).ir.config@ == (ConfigView {
                ignores: dedup_adjacent(old(self).ir.config@.ignores + old(vec).deep_view()),
                ..old(self).ir.config@
            }),
            final(vec)@.len() == 0,
            final(self).ir.files == old(self).ir.files,
            final(self).ir.metadata == old(self).ir.metadata,
            final(self).ware == old(self).ware,
    {
        let ghost target = old(self).ir.config@.ignores + old(vec).deep_view();
        let mut merged: Vec<String> = Vec::new();
        core::mem::swap(&mut self.ir.config.ignores, &mut merged);
        let n = vec.len();
        let mut i: usize = 0;
        while i < n
            invariant
                n == vec@.len(),
                0 <= i <= n,
                merged.deep_view() =~= target.subrange(0, merged.deep_view().len() as int),
                merged@.len() == target.len() - n + i,
                target == old(self).ir.config@.ignores + vec.deep_view(),
            decreases n - i,
        {
            merged.push(vec[i].clone());
            proof {
                assert(merged.deep_view() =~= target.subrange(0, merged.deep_view().len() as int));
            }
            i = i + 1;
        }
        proof {
            assert(merged.deep_view() =~= target);
        }
        *vec = Vec::new();
        let mut out: Vec<String> = Vec::new();
        let ghost mv = merged.deep_view();
        let m = merged.len();
        let mut j: usize = 0;
        while j < m
            invariant
                m == merged@.len(),
                0 <= j <= m,
                mv == merged.deep_view(),
                mv.len() == m,
                out.deep_view() =~= dedup_adjacent(mv.subrange(0, j as int)),
            decreases m - j,
        {
            let ghost prefix = mv.subrange(0, j as int);
            let ghost prefix2 = mv.subrange(0, j + 1);
            proof {
                assert(prefix2.drop_last() =~= prefix);
                assert(prefix2.last() == mv[j as int]);
            }
            let x = merged[j].clone();
            let keep: bool;
            if out.len() == 0 {
                proof {
                    if prefix.len() > 0 {
                        lemma_dedup_adjacent_last(prefix);
                    }
                }
                keep = true;
            } else {
                proof {
                    lemma_dedup_adjacent_last(prefix);
                }
                keep = !eq_str(out[out.len() - 1].as_str(), x.as_str());
            }
            if keep {
                out.push(x);
                proof {
                    assert(out.deep_view() =~= dedup_adjacent(prefix).push(mv[j as int]));
                }
            }
            proof {
                if prefix.len() == 0 {
                    assert(prefix2.len() == 1);
                } else {
                    lemma_dedup_adjacent_last(prefix);
                    assert(prefix2[prefix2.len() - 2] == prefix.last());
                }
                assert(out.deep_view() =~= dedup_adjacent(prefix2));
            }
            j = j + 1;
        }
        proof {
            assert(mv.subrange(0, m as int) =~= mv);
            assert(out.deep_view() =~= dedup_adjacent(target));
        }
        self.ir.config.ignores = out;
    }

    /// Sets the source directory to read from.
    pub fn source(&mut self, path: String)
        ensures
            final(self).ir.config@ == (ConfigView { source: path@, ..old(self).ir.config@ }),
            final(self).ir.files == old(self).ir.files,
            final(self).ir.metadata == old(self).ir.metadata,
            final(self).ware == old(self).ware,
    {
        self.ir.config.source = path;
    }

    /// Sets the destination directory to write to.
    pub fn destination(&mut self, path: String)
        ensures
            final(self).ir.config@ == (ConfigView { destination: path@, ..old(self).ir.config@ }),
            final(self).ir.files == old(self).ir.files,
            final(self).ir.metadata == old(self).ir.metadata,
            final(self).ware == old(self).ware,
    {
        self.ir.config.destination = path;
    }

    /// Sets whether the destination directory should be removed and
    /// recreated before building. Default is `false`.
    pub fn clean(&mut self, b: bool)
        ensures
            final(self).ir.config@ == (ConfigView { clean: b, ..old(self).ir.config@ }),
            final(self).ir.files == old(self).ir.files,
            final(self).ir.metadata == old(self).ir.metadata,
            final(self).ware == old(self).ware,
    {
        self.ir.config.clean = b;
    }

    /// Sets whether front matter should be parsed. Default is `true`.
    pub fn frontmatter(&mut self, b: bool)
        ensures
            final(self).ir.config@ == (ConfigView { frontmatter: b, ..old(self).ir.config@ }),
            final(self).ir.files == old(self).ir.files,
            final(self).ir.metadata == old(self).ir.metadata,
            final(self).ware == old(self).ware,
    {
        self.ir.config.frontmatter = b;
    }

    /// Registers a new stage at the end of the middleware chain.
    pub fn register(&mut self, func: Plugin)
        ensures
            final(self).ware.fns@ == old(self).ware.fns@.push(func),
            final(self).ir == old(self).ir,
    {
        self.ware.fns.push(func);
    }

    /// Performs the pure part of the build: turns the walked source entries
    /// into the initial file state under the ignore patterns and the
    /// front-matter flag, threads the resulting representation through the
    /// registered stage chain, and returns the final representation for the
    /// host to write out. The first invalid ignore pattern or undecodable
    /// front-matter header aborts the build.
    pub fn build(&self, sources: &Vec<(String, String)>) -> (r: Result<IR, BuildError>)
        ensures
            (r matches Ok(out) ==> exists|start: IR|
                #[trigger] files_read_ok(
                    sources@,
                    self.ir.config@.ignores,
                    self.ir.config@.frontmatter,
                    start.files@,
                ) && start.config@ == self.ir.config@ && start.metadata@ == Map::<
                    Seq<char>,
                    serde_json::Value,
                >::empty() && chain_rel(self.ware.fns@, start, out)),
            (r matches Ok(out) ==> self.ware.fns@.len() == 0 ==> files_read_ok(
                sources@,
                self.ir.config@.ignores,
                self.ir.config@.frontmatter,
                out.files@,
            ) && out.config@ == self.ir.config@ && out.metadata@ == Map::<
                Seq<char>,
                serde_json::Value,
            >::empty()),
            some_bad_pattern(self.ir.config@.ignores) <==> (r matches Err(
                BuildError::InvalidGlob(_),
            )),
            (r matches Err(BuildError::InvalidGlob(p)) ==> !glob_ok(p@) && (exists|i: int|
                0 <= i < self.ir.config@.ignores.len() && #[trigger] self.ir.config@.ignores[i]
                    == p@)),
            (r matches Err(BuildError::GlobSet)) <==> (!some_bad_pattern(self.ir.config@.ignores)
                && !set_builds(self.ir.config@.ignores)),
            (r matches Err(BuildError::Decode(path)) ==> self.ir.config@.frontmatter && (
            exists|i: int|
                0 <= i < sources@.len() && #[trigger] sources@[i].0@ == path@ && !ignored_under(
                    self.ir.config@.ignores,
                    path@,
                ) && !decodes(sources@[i].1@))),
            (r matches Err(BuildError::Decode(_))) <==> (!some_bad_pattern(
                self.ir.config@.ignores,
            ) && set_builds(self.ir.config@.ignores) && !matter_ok(
                sources@,
                self.ir.config@.ignores,
                self.ir.config@.frontmatter,
            )),
            r is Ok <==> (!some_bad_pattern(self.ir.config@.ignores) && set_builds(
                self.ir.config@.ignores,
            ) && matter_ok(sources@, self.ir.config@.ignores, self.ir.config@.frontmatter)),
    {
        let ghost pats = self.ir.config.ignores.deep_view();
        proof {
            assert(self.ir.config@.ignores == pats);
        }
        let files = match read_dir(sources, &self.ir.config.ignores, self.ir.config.frontmatter) {
            Ok(f) => f,
            Err(e) => {
                proof {
                    let ghost e_g = e;
                    match e_g {
                        BuildError::InvalidGlob(p) => {
                            let i = choose|i: int| 0 <= i < pats.len() && #[trigger] pats[i] == p@;
                            assert(self.ir.config@.ignores[i] == p@);
                        }
                        _ => {}
                    }
                }
                return Err(e);
            }
        };
        let start = IR { files, config: self.ir.config.duplicate(), metadata: ShMap::new() };
        let ghost start_g = start;
        let out = self.ware.run(start);
        proof {
            assert(files_read_ok(
                sources@,
                self.ir.config@.ignores,
                self.ir.config@.frontmatter,
                start_g.files@,
            ));
            assert(start_g.config@ == self.ir.config@);
            assert(start_g.metadata@ == Map::<Seq<char>, serde_json::Value>::empty());
            assert(chain_rel(self.ware.fns@, start_g, out));
            if self.ware.fns@.len() == 0 {
                assert(out == start_g);
            }
        }
        Ok(out)
    }
}

/// Reading one more source entry whose path is ignored changes nothing.
proof fn lemma_read_step_skip(
    post: Seq<(String, String)>,
    pats: Seq<Seq<char>>,
    parse: bool,
    files: Map<Seq<char>, ShFile>,
)
    requires
        post.len() > 0,
        ignored_under(pats, post.last().0@),
        matter_ok(post.drop_last(), pats, parse),
        files_read_ok(post.drop_last(), pats, parse, files),
    ensures
        matter_ok(post, pats, parse),
        files_read_ok(post, pats, parse, files),
{
    let pre = post.drop_last();
    let n = post.len() - 1;
    assert forall|i: int| 0 <= i < n implies post[i] == pre[i] by {}
    assert(matter_ok(post, pats, parse)) by {
        if parse {
            assert forall|i: int|
                (0 <= i < post.len() && !ignored_under(pats, #[trigger] post[i].0@)) implies decodes(
                post[i].1@,
            ) by {
                if i < n {
                    assert(pre[i] == post[i]);
                    assert(decodes(pre[i].1@));
                }
            }
        }
    }
    assert forall|k: Seq<char>| #[trigger] files.contains_key(k) implies (!ignored_under(pats, k)
        && exists|i: int| 0 <= i < post.len() && #[trigger] post[i].0@ == k) by {
        let i = choose|i: int| 0 <= i < pre.len() && #[trigger] pre[i].0@ == k;
        assert(post[i].0@ == k);
    }
    assert forall|i: int|
        (0 <= i < post.len() && !ignored_under(pats, #[trigger] post[i].0@)) implies files.contains_key(
        post[i].0@,
    ) by {
        assert(i < n);
        assert(pre[i] == post[i]);
    }
    assert forall|i: int|
        (0 <= i < post.len() && !ignored_under(pats, #[trigger] post[i].0@) && (forall|j: int|
            i < j < post.len() ==> post[j].0@ != post[i].0@)) implies record_matches(
        files[post[i].0@],
        post[i].1@,
        parse,
    ) by {
        assert(i < n);
        assert(pre[i] == post[i]);
        assert forall|j: int| i < j < pre.len() implies pre[j].0@ != pre[i].0@ by {
            assert(post[j] == pre[j]);
        }
    }
}

/// Reading one more source entry whose path is kept stores its record
/// under its path, leaving every other path's record unchanged.
proof fn lemma_read_step_insert(
    post: Seq<(String, String)>,
    pats: Seq<Seq<char>>,
    parse: bool,
    files: Map<Seq<char>, ShFile>,
    record: ShFile,
)
    requires
        post.len() > 0,
        !ignored_under(pats, post.last().0@),
        matter_ok(post.drop_last(), pats, parse),
        files_read_ok(post.drop_last(), pats, parse, files),
        record_matches(record, post.last().1@, parse),
    ensures
        matter_ok(post, pats, parse),
        files_read_ok(post, pats, parse, files.insert(post.last().0@, record)),
{
    let pre = post.drop_last();
    let n = post.len() - 1;
    let key = post.last().0@;
    let out = files.insert(key, record);
    assert forall|i: int| 0 <= i < n implies post[i] == pre[i] by {}
    assert(matter_ok(post, pats, parse)) by {
        if parse {
            assert forall|i: int|
                (0 <= i < post.len() && !ignored_under(pats, #[trigger] post[i].0@)) implies decodes(
                post[i].1@,
            ) by {
                if i < n {
                    assert(pre[i] == post[i]);
                    assert(decodes(pre[i].1@));
                } else {
                    assert(post[i] == post.last());
                    if front_split(post[i].1@).0.len() > 0 {
                        assert(yaml_parses(front_split(post[i].1@).0));
                    }
                }
            }
        }
    }
    assert forall|k: Seq<char>| #[trigger] out.contains_key(k) implies (!ignored_under(pats, k)
        && exists|i: int| 0 <= i < post.len() && #[trigger] post[i].0@ == k) by {
        if k == key {
            assert(post[n].0@ == k);
        } else {
            assert(files.contains_key(k));
            let i = choose|i: int| 0 <= i < pre.len() && #[trigger] pre[i].0@ == k;
            assert(post[i].0@ == k);
        }
    }
    assert forall|i: int|
        (0 <= i < post.len() && !ignored_under(pats, #[trigger] post[i].0@)) implies out.contains_key(
        post[i].0@,
    ) by {
        if i < n {
            assert(pre[i] == post[i]);
            assert(files.contains_key(pre[i].0@));
        }
    }
    assert forall|i: int|
        (0 <= i < post.len() && !ignored_under(pats, #[trigger] post[i].0@) && (forall|j: int|
            i < j < post.len() ==> post[j].0@ != post[i].0@)) implies record_matches(
        out[post[i].0@],
        post[i].1@,
        parse,
    ) by {
        if i == n {
            assert(out[key] == record);
        } else {
            assert(pre[i] == post[i]);
            assert(post[n].0@ != post[i].0@);
            assert(out[post[i].0@] == files[post[i].0@]);
            assert forall|j: int| i < j < pre.len() implies pre[j].0@ != pre[i].0@ by {
                assert(post[j] == pre[j]);
            }
        }
    }
}










} // verus!
