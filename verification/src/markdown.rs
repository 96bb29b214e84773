//! A Markdown-to-HTML transformation stage: every file whose path names a
//! Markdown file is replaced by an HTML twin — same front matter, rendered
//! content, `.md` extension rewritten to `.html` — through the union and
//! difference combinators, so the stage never mutates the incoming state.

use crate::chain::Middleware;
use crate::ir::{ShFile, IR};
use crate::shmap::ShMap;
use vstd::prelude::*;
use vstd::string::{StrSliceExecFns, StringExecFns};

verus! {

/// The HTML that the Markdown renderer produces for a text.
pub uninterp spec fn html_of(markdown: Seq<char>) -> Seq<char>;

/// Relies on comrak::markdown_to_html with comrak's default options: the
/// rendered HTML depends on the Markdown text alone.
#[verifier::external_body]
fn render_markdown(text: &str) -> (r: String)
    ensures
        r@ == html_of(text@),
{
    comrak::markdown_to_html(text, &comrak::Options::default())
}

/// A path names a Markdown file: it ends in `.md` with a nonempty file
/// name.
pub open spec fn is_md(path: Seq<char>) -> bool {
    path.len() >= 4 && path.subrange(path.len() - 3, path.len() as int) == ".md"@ && path[path.len()
        - 4] != '/'
}

/// The path with its `.md` extension replaced by `.html`.
pub open spec fn html_path(path: Seq<char>) -> Seq<char> {
    path.subrange(0, path.len() - 3) + ".html"@
}

/// Some Markdown path of `a` has `k` as its HTML twin.
pub open spec fn has_twin(a: Map<Seq<char>, ShFile>, k: Seq<char>) -> bool {
    exists|m: Seq<char>|
        #![trigger a.contains_key(m), html_path(m)]
        a.contains_key(m) && is_md(m) && html_path(m) == k
}

/// How the stage's output file state relates to its input: Markdown paths
/// are gone, each is represented by its HTML twin carrying the rendered
/// content and the unchanged front matter, and every other record is
/// carried through untouched (unless an HTML twin overwrites its path).
pub open spec fn md_files_rel(a: Map<Seq<char>, ShFile>, b: Map<Seq<char>, ShFile>) -> bool {
    &&& forall|k: Seq<char>|
        #[trigger] b.contains_key(k) <==> ((a.contains_key(k) && !is_md(k)) || has_twin(a, k))
    &&& forall|k: Seq<char>|
        (#[trigger] a.contains_key(k) && !is_md(k) && !has_twin(a, k)) ==> b.contains_key(k)
            && b[k] == a[k]
    &&& forall|m: Seq<char>|
        (#[trigger] a.contains_key(m) && is_md(m)) ==> b.contains_key(html_path(m))
            && b[html_path(m)].frontmatter == a[m].frontmatter && b[html_path(m)].content@
            == html_of(a[m].content@)
}

/// How the stage's output relates to its input: configuration and metadata
/// are carried through, and the file state is transformed as
/// [`md_files_rel`] describes.
pub open spec fn md_rel(input: IR, output: IR) -> bool {
    &&& output.config@ == input.config@
    &&& output.metadata@ == input.metadata@
    &&& md_files_rel(input.files@, output.files@)
}

/// The HTML twin of a Markdown path is not itself a Markdown path.
proof fn lemma_html_path_not_md(m: Seq<char>)
    requires
        is_md(m),
    ensures
        !is_md(html_path(m)),
{
    reveal_strlit(".md");
    reveal_strlit(".html");
    let h = html_path(m);
    assert(h.len() == m.len() + 2);
    assert(h[h.len() - 1] == ".html"@[4]);
    if is_md(h) {
        assert(h[h.len() - 1] == h.subrange(h.len() - 3, h.len() as int)[2]);
    }
}

/// Distinct Markdown paths have distinct HTML twins.
proof fn lemma_html_path_injective(m1: Seq<char>, m2: Seq<char>)
    requires
        is_md(m1),
        is_md(m2),
        html_path(m1) == html_path(m2),
    ensures
        m1 == m2,
{
    reveal_strlit(".html");
    let h1 = html_path(m1);
    let h2 = html_path(m2);
    assert(h1.len() == m1.len() + 2);
    assert(h2.len() == m2.len() + 2);
    assert(m1.len() == m2.len());
    assert forall|i: int| 0 <= i < m1.len() implies m1[i] == m2[i] by {
        if i < m1.len() - 3 {
            assert(h1[i] == m1[i]);
            assert(h2[i] == m2[i]);
        } else {
            assert(m1[i] == m1.subrange(m1.len() - 3, m1.len() as int)[i - (m1.len() - 3)]);
            assert(m2[i] == m2.subrange(m2.len() - 3, m2.len() as int)[i - (m2.len() - 3)]);
        }
    }
    assert(m1 =~= m2);
}

/// Executable check for [`is_md`].
fn is_md_exec(path: &str) -> (r: bool)
    ensures
        r == is_md(path@),
{
    let n = path.unicode_len();
    if n < 4 {
        return false;
    }
    let r = path.get_char(n - 3) == '.' && path.get_char(n - 2) == 'm' && path.get_char(n - 1)
        == 'd' && path.get_char(n - 4) != '/';
    proof {
        reveal_strlit(".md");
        let s = path@;
        if r {
            assert(s.subrange(s.len() - 3, s.len() as int) =~= ".md"@);
        } else {
            if s.subrange(s.len() - 3, s.len() as int) == ".md"@ {
                assert(s[s.len() - 3] == ".md"@[0]);
                assert(s[s.len() - 2] == ".md"@[1]);
                assert(s[s.len() - 1] == ".md"@[2]);
            }
        }
    }
    r
}

/// Builds the HTML twin path of a Markdown path.
fn html_path_exec(path: &str) -> (r: String)
    requires
        is_md(path@),
    ensures
        r@ == html_path(path@),
{
    let n = path.unicode_len();
    let stem = path.substring_char(0, n - 3);
    let mut out = stem.to_owned();
    out.append(".html");
    out
}

/// The Markdown stage itself; its input/output pairs are described by
/// [`md_rel`].
pub struct MarkdownStage;

impl Middleware<IR> for MarkdownStage {
    open spec fn rel(&self, input: IR, output: IR) -> bool {
        md_rel(input, output)
    }

    fn call(&self, input: IR) -> (res: IR)
        ensures
            self.rel(input, res),
    {
        transform(input)
    }
}

/// Creates the Markdown stage. Returning the concrete stage type (rather
/// than a boxed [`crate::shtola::Plugin`]) lets the returned value's middleware relation
/// be stated: it is exactly [`md_rel`]. Box it to register it.
pub fn plugin() -> (r: MarkdownStage)
    ensures
        forall|input: IR, output: IR| #[trigger] r.rel(input, output) <==> md_rel(input, output),
{
    MarkdownStage
}

/// Replaces every Markdown file of the incoming state by its HTML twin:
/// builds an update mapping of rendered twins and a removal mapping of the
/// Markdown paths, unions the updates over the incoming state, and
/// differences the removals against the result, so deletion wins.
fn transform(ir: IR) -> (res: IR)
    ensures
        md_rel(ir, res),
{
    let IR { files, config, metadata } = ir;
    let mut update: ShMap<ShFile> = ShMap::new();
    let mut removal: ShMap<ShFile> = ShMap::new();
    let pairs = files.pairs();
    let n = pairs.len();
    let mut i: usize = 0;
    while i < n
        invariant
            n == pairs@.len(),
            0 <= i <= n,
            pairs@.len() == files@.len(),
            forall|j: int|
                0 <= j < pairs@.len() ==> files@.contains_key(#[trigger] pairs@[j].0@)
                    && files@[pairs@[j].0@] == pairs@[j].1,
            forall|j1: int, j2: int|
                0 <= j1 < j2 < pairs@.len() ==> pairs@[j1].0@ != pairs@[j2].0@,
            forall|k: Seq<char>|
                files@.contains_key(k) ==> exists|j: int|
                    0 <= j < pairs@.len() && #[trigger] pairs@[j].0@ == k,
            forall|k: Seq<char>|
                #[trigger] removal@.contains_key(k) <==> (exists|j: int|
                    0 <= j < i && #[trigger] pairs@[j].0@ == k && is_md(k)),
            forall|k: Seq<char>|
                #[trigger] update@.contains_key(k) <==> (exists|j: int|
                    0 <= j < i && is_md(#[trigger] pairs@[j].0@) && html_path(pairs@[j].0@) == k),
            forall|j: int|
                (0 <= j < i && is_md(#[trigger] pairs@[j].0@)) ==> update@.contains_key(
                    html_path(pairs@[j].0@),
                ) && update@[html_path(pairs@[j].0@)].frontmatter == pairs@[j].1.frontmatter
                    && update@[html_path(pairs@[j].0@)].content@ == html_of(pairs@[j].1.content@),
        decreases n - i,
    {
        let p = &pairs[i].0;
        if is_md_exec(p.as_str()) {
            let hp = html_path_exec(p.as_str());
            let rec = ShFile {
                frontmatter: pairs[i].1.frontmatter.clone(),
                content: render_markdown(pairs[i].1.content.as_str()),
            };
            let ghost upd0 = update@;
            update.insert(hp, rec);
            let ghost key = pairs@[i as int].0@;
            proof {
                assert forall|j: int|
                    (0 <= j < i + 1 && is_md(#[trigger] pairs@[j].0@)) implies update@
                    .contains_key(html_path(pairs@[j].0@)) && update@[html_path(
                    pairs@[j].0@,
                )].frontmatter == pairs@[j].1.frontmatter && update@[html_path(
                    pairs@[j].0@,
                )].content@ == html_of(pairs@[j].1.content@) by {
                    if j < i {
                        if html_path(pairs@[j].0@) == html_path(key) {
                            lemma_html_path_injective(pairs@[j].0@, key);
                        }
                    }
                }
                assert forall|k: Seq<char>| #[trigger] update@.contains_key(k) implies (
                exists|j: int|
                    0 <= j < i + 1 && is_md(#[trigger] pairs@[j].0@) && html_path(pairs@[j].0@)
                        == k) by {
                    if k != html_path(key) {
                        assert(upd0.contains_key(k));
                    } else {
                        assert(is_md(pairs@[i as int].0@) && html_path(pairs@[i as int].0@) == k);
                    }
                }
            }
            let tomb = ShFile::empty();
            removal.insert(pairs[i].0.clone(), tomb);
            proof {
                assert forall|k: Seq<char>| #[trigger] removal@.contains_key(k) implies (
                exists|j: int| 0 <= j < i + 1 && #[trigger] pairs@[j].0@ == k && is_md(k)) by {
                    if k == key {
                        assert(pairs@[i as int].0@ == k && is_md(k));
                    }
                }
            }
        }
        i = i + 1;
    }
    let merged = update.union(files);
    let out_files = removal.difference(merged);
    proof {
        lemma_md_result(pairs@, files@, update@, removal@, out_files@);
    }
    IR { files: out_files, config, metadata }
}

/// After the scan over the entry list, the union/difference combination
/// yields exactly the Markdown-transformed file state.
proof fn lemma_md_result(
    pairs: Seq<(String, ShFile)>,
    files: Map<Seq<char>, ShFile>,
    update: Map<Seq<char>, ShFile>,
    removal: Map<Seq<char>, ShFile>,
    out: Map<Seq<char>, ShFile>,
)
    requires
        forall|j: int|
            0 <= j < pairs.len() ==> files.contains_key(#[trigger] pairs[j].0@)
                && files[pairs[j].0@] == pairs[j].1,
        forall|k: Seq<char>|
            files.contains_key(k) ==> exists|j: int|
                0 <= j < pairs.len() && #[trigger] pairs[j].0@ == k,
        forall|k: Seq<char>|
            #[trigger] removal.contains_key(k) <==> (exists|j: int|
                0 <= j < pairs.len() && #[trigger] pairs[j].0@ == k && is_md(k)),
        forall|k: Seq<char>|
            #[trigger] update.contains_key(k) <==> (exists|j: int|
                0 <= j < pairs.len() && is_md(#[trigger] pairs[j].0@) && html_path(pairs[j].0@)
                    == k),
        forall|j: int|
            (0 <= j < pairs.len() && is_md(#[trigger] pairs[j].0@)) ==> update.contains_key(
                html_path(pairs[j].0@),
            ) && update[html_path(pairs[j].0@)].frontmatter == pairs[j].1.frontmatter
                && update[html_path(pairs[j].0@)].content@ == html_of(pairs[j].1.content@),
        out == files.union_prefer_right(update).remove_keys(removal.dom()),
    ensures
        md_files_rel(files, out),
{
    let merged = files.union_prefer_right(update);
    assert forall|k: Seq<char>| #[trigger] removal.contains_key(k) implies (files.contains_key(k)
        && is_md(k)) by {}
    assert forall|k: Seq<char>| (files.contains_key(k) && is_md(k)) implies removal.contains_key(
        k,
    ) by {
        let j = choose|j: int| 0 <= j < pairs.len() && #[trigger] pairs[j].0@ == k;
        assert(pairs[j].0@ == k && is_md(k));
    }
    assert forall|k: Seq<char>| #[trigger] update.contains_key(k) implies has_twin(files, k) by {
        let j = choose|j: int|
            0 <= j < pairs.len() && is_md(#[trigger] pairs[j].0@) && html_path(pairs[j].0@) == k;
        assert(files.contains_key(pairs[j].0@) && is_md(pairs[j].0@) && html_path(pairs[j].0@)
            == k);
    }
    assert forall|k: Seq<char>| has_twin(files, k) implies update.contains_key(k) by {
        let m = choose|m: Seq<char>|
            #![trigger files.contains_key(m), html_path(m)]
            files.contains_key(m) && is_md(m) && html_path(m) == k;
        let j = choose|j: int| 0 <= j < pairs.len() && #[trigger] pairs[j].0@ == m;
        assert(is_md(pairs[j].0@) && html_path(pairs[j].0@) == k);
    }
    assert forall|k: Seq<char>| #[trigger] out.contains_key(k) implies ((files.contains_key(k)
        && !is_md(k)) || has_twin(files, k)) by {
        assert(merged.contains_key(k) && !removal.contains_key(k));
        if !update.contains_key(k) {
            assert(files.contains_key(k));
            if is_md(k) {
                assert(removal.contains_key(k));
            }
        }
    }
    assert forall|k: Seq<char>| ((files.contains_key(k) && !is_md(k)) || has_twin(files, k))
        implies #[trigger] out.contains_key(k) by {
        if has_twin(files, k) {
            let m = choose|m: Seq<char>|
                #![trigger files.contains_key(m), html_path(m)]
                files.contains_key(m) && is_md(m) && html_path(m) == k;
            lemma_html_path_not_md(m);
            assert(update.contains_key(k));
            assert(!is_md(k));
            assert(!removal.contains_key(k));
        } else {
            assert(merged.contains_key(k));
            assert(!removal.contains_key(k));
        }
    }
    assert forall|k: Seq<char>| (#[trigger] files.contains_key(k) && !is_md(k) && !has_twin(
        files,
        k,
    )) implies out.contains_key(k) && out[k] == files[k] by {
        assert(!update.contains_key(k));
        assert(!removal.contains_key(k));
        assert(out[k] == merged[k]);
    }
    assert forall|m: Seq<char>| (#[trigger] files.contains_key(m) && is_md(m)) implies out
        .contains_key(html_path(m)) && out[html_path(m)].frontmatter == files[m].frontmatter
        && out[html_path(m)].content@ == html_of(files[m].content@) by {
        let k = html_path(m);
        assert(has_twin(files, k));
        lemma_html_path_not_md(m);
        assert(out.contains_key(k));
        assert(!removal.contains_key(k));
        assert(update.contains_key(k));
        assert(out[k] == merged[k]);
        assert(merged[k] == update[k]);
        let j = choose|j: int| 0 <= j < pairs.len() && #[trigger] pairs[j].0@ == m;
        assert(is_md(pairs[j].0@));
        assert(update[html_path(pairs[j].0@)].frontmatter == pairs[j].1.frontmatter);
        assert(files[m] == pairs[j].1);
    }
}

} // verus!
