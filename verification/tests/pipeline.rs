use serde_json::Value;
use shtola::{BuildError, Middleware, ShFile, ShMap, Shtola, IR};

fn entry(path: &str, text: &str) -> (String, String) {
    (path.to_string(), text.to_string())
}

#[test]
fn read_works() {
    let s = Shtola::new();
    let r = s.build(&vec![entry("hello.txt", "hello")]).unwrap();
    assert_eq!(r.files.len(), 1);
    let keys = r.files.pairs();
    assert_eq!(keys[0].0, "hello.txt");
}

struct HelloContent;

impl Middleware<IR> for HelloContent {
    fn rel(&self, _: IR, _: IR) -> bool {
        true
    }

    fn call(&self, input: IR) -> IR {
        let IR { files, config, metadata } = input;
        let mut update_hash: ShMap<ShFile> = ShMap::new();
        for (k, v) in files.pairs() {
            update_hash.insert(
                k.clone(),
                ShFile { frontmatter: v.frontmatter.clone(), content: "hello".to_string() },
            );
        }
        IR { files: update_hash.union(files), config, metadata }
    }
}

#[test]
fn write_works() {
    let mut s = Shtola::new();
    s.register(Box::new(HelloContent));
    let r = s.build(&vec![entry("hello.txt", "original")]).unwrap();
    let file = r.files.get("hello.txt").unwrap();
    assert_eq!(file.content, "hello");
}

#[test]
fn frontmatter_works() {
    let s = Shtola::new();
    let r = s
        .build(&vec![entry("matter.md", "---\nhello: bro\n---\nContent")])
        .unwrap();
    let matter_file = r.files.get("matter.md").unwrap();
    let frontmatter = matter_file.frontmatter.get("hello").unwrap().as_str().unwrap();
    assert_eq!(frontmatter, "bro");
    assert_eq!(matter_file.content, "Content");
}

#[test]
fn no_frontmatter_works() {
    let mut s = Shtola::new();
    s.frontmatter(false);
    let r = s
        .build(&vec![entry("matter.md", "---\nhello: bro\n---\nContent")])
        .unwrap();
    let matter_file = r.files.get("matter.md").unwrap();
    assert!(matter_file.frontmatter.is_null());
    assert_eq!(matter_file.content, "---\nhello: bro\n---\nContent");
}

#[test]
fn ignore_works() {
    let mut s = Shtola::new();
    s.ignores(&mut vec!["ignored.md".to_string()]);
    let r = s
        .build(&vec![entry("ignored.md", "ignored"), entry("not_ignored.md", "kept")])
        .unwrap();
    assert_eq!(r.files.len(), 1);
    let pairs = r.files.pairs();
    assert_eq!(pairs[0].0, "not_ignored.md");
    assert!(r.files.get("ignored.md").is_none());
}

struct MetaOne;

impl Middleware<IR> for MetaOne {
    fn rel(&self, _: IR, _: IR) -> bool {
        true
    }

    fn call(&self, input: IR) -> IR {
        let IR { files, config, metadata } = input;
        let mut object = serde_json::Map::new();
        object.insert("bar".to_string(), Value::String("baz".to_string()));
        let metadata = metadata
            .update("test".to_string(), Value::String("foo".to_string()))
            .update("test2".to_string(), Value::Object(object));
        IR { files, config, metadata }
    }
}

struct MetaTwo;

impl Middleware<IR> for MetaTwo {
    fn rel(&self, _: IR, _: IR) -> bool {
        true
    }

    fn call(&self, input: IR) -> IR {
        let IR { files, config, metadata } = input;
        let list = Value::Array(vec![
            Value::String("a".to_string()),
            Value::String("b".to_string()),
            Value::String("c".to_string()),
        ]);
        let metadata = metadata.update("test".to_string(), list);
        IR { files, config, metadata }
    }
}

#[test]
fn metadata_works() {
    let mut s = Shtola::new();
    s.register(Box::new(MetaOne));
    s.register(Box::new(MetaTwo));
    let r = s.build(&vec![entry("hello.txt", "hello")]).unwrap();
    let expected_list = Value::Array(vec![
        Value::String("a".to_string()),
        Value::String("b".to_string()),
        Value::String("c".to_string()),
    ]);
    let mut object = serde_json::Map::new();
    object.insert("bar".to_string(), Value::String("baz".to_string()));
    assert_eq!(r.metadata.get("test").unwrap(), &expected_list);
    assert_eq!(r.metadata.get("test2").unwrap(), &Value::Object(object));
}

#[test]
fn lib_it_works() {
    let mut s = Shtola::new();
    s.register(Box::new(shtola::markdown::plugin()));
    let r = s
        .build(&vec![entry("hello.md", "# Hello!\n\nWhat's going *on*?\n")])
        .unwrap();
    let file = r.files.get("hello.html").unwrap();
    assert_eq!(file.content, "<h1>Hello!</h1>\n<p>What's going <em>on</em>?</p>\n");
    assert!(r.files.get("hello.md").is_none());
}

struct AddExtra;

impl Middleware<IR> for AddExtra {
    fn rel(&self, _: IR, _: IR) -> bool {
        true
    }

    fn call(&self, input: IR) -> IR {
        let IR { files, config, metadata } = input;
        let mut update_hash: ShMap<ShFile> = ShMap::new();
        update_hash.insert(
            "extra.md".to_string(),
            ShFile { frontmatter: Value::Null, content: "extra".to_string() },
        );
        IR { files: update_hash.union(files), config, metadata }
    }
}

struct DeleteExtra;

impl Middleware<IR> for DeleteExtra {
    fn rel(&self, _: IR, _: IR) -> bool {
        true
    }

    fn call(&self, input: IR) -> IR {
        let IR { files, config, metadata } = input;
        let mut deletion_hash: ShMap<ShFile> = ShMap::new();
        deletion_hash.insert("extra.md".to_string(), ShFile::empty());
        IR { files: deletion_hash.difference(files), config, metadata }
    }
}

#[test]
fn deletion_wins_over_earlier_update() {
    let mut s = Shtola::new();
    s.register(Box::new(AddExtra));
    s.register(Box::new(DeleteExtra));
    let r = s.build(&vec![entry("keep.txt", "kept")]).unwrap();
    assert!(r.files.get("extra.md").is_none());
    assert_eq!(r.files.get("keep.txt").unwrap().content, "kept");
    assert_eq!(r.files.len(), 1);
}

#[test]
fn empty_chain_passes_files_through() {
    let s = Shtola::new();
    let r = s
        .build(&vec![entry("a.txt", "alpha"), entry("b.txt", "beta")])
        .unwrap();
    assert_eq!(r.files.len(), 2);
    assert_eq!(r.files.get("a.txt").unwrap().content, "alpha");
    assert_eq!(r.files.get("b.txt").unwrap().content, "beta");
    assert!(r.files.get("a.txt").unwrap().frontmatter.is_null());
}

#[test]
fn invalid_glob_reported() {
    let mut s = Shtola::new();
    s.ignores(&mut vec!["[".to_string()]);
    let r = s.build(&vec![entry("a.txt", "alpha")]);
    assert!(matches!(r, Err(BuildError::InvalidGlob(p)) if p == "["));
}

#[test]
fn bad_front_matter_reported() {
    let s = Shtola::new();
    let r = s.build(&vec![entry("bad.md", "---\n[\n---\nBody")]);
    assert!(matches!(r, Err(BuildError::Decode(p)) if p == "bad.md"));
}

#[test]
fn ignored_directory_is_pruned() {
    let mut s = Shtola::new();
    s.ignores(&mut vec!["node_modules".to_string()]);
    let r = s
        .build(&vec![
            entry("node_modules/dep.js", "module"),
            entry("node_modules/nested/deep.js", "module"),
            entry("kept.txt", "kept"),
        ])
        .unwrap();
    assert_eq!(r.files.len(), 1);
    assert!(r.files.get("kept.txt").is_some());
    assert!(r.files.get("node_modules/dep.js").is_none());
    assert!(r.files.get("node_modules/nested/deep.js").is_none());
}

#[test]
fn bad_front_matter_under_ignored_directory_is_skipped() {
    let mut s = Shtola::new();
    s.ignores(&mut vec!["vendor".to_string()]);
    let r = s
        .build(&vec![entry("vendor/bad.md", "---\n[\n---\nBody"), entry("kept.txt", "kept")])
        .unwrap();
    assert_eq!(r.files.len(), 1);
    assert!(r.files.get("kept.txt").is_some());
}

#[test]
fn ignores_are_deduplicated() {
    let mut s = Shtola::new();
    s.ignores(&mut vec!["a".to_string(), "a".to_string(), "b".to_string()]);
    assert_eq!(s.ir.config.ignores, vec!["a".to_string(), "b".to_string()]);
    s.ignores(&mut vec!["b".to_string()]);
    assert_eq!(s.ir.config.ignores, vec!["a".to_string(), "b".to_string()]);
}
