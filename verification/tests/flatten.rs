use std::collections::{HashMap, HashSet};

use flattener::engine::{expand, flatten, placeholder_text, Answer, Flattener, Request, Step};
use flattener::error::FlattenError;
use flattener::path::{Anchor, DirPath, FilePath, Layout};
use flattener::syntax::Syntax;

/// A source tree in memory. Its paths are written from the directory that holds
/// the entry file, with `/` between the names.
struct Tree {
    entry: String,
    files: HashMap<String, Option<Vec<u8>>>,
    dirs: HashSet<String>,
    syntax: Syntax,
}

impl Tree {
    fn new(syntax: Syntax, entry: &str) -> Tree {
        Tree { entry: entry.to_string(), files: HashMap::new(), dirs: HashSet::new(), syntax }
    }

    fn rust(entry: &str) -> Tree {
        Tree::new(Syntax::rust(), entry)
    }

    fn file(mut self, path: &str, text: &str) -> Tree {
        self.files.insert(path.to_string(), Some(text.as_bytes().to_vec()));
        self
    }

    fn unreadable(mut self, path: &str) -> Tree {
        self.files.insert(path.to_string(), None);
        self
    }

    fn dir(mut self, path: &str) -> Tree {
        self.dirs.insert(path.to_string());
        self
    }

    fn joined(&self, anchor: Anchor, names: &[Vec<u8>]) -> String {
        let mut parts: Vec<String> = Vec::new();
        if anchor == Anchor::Stem {
            let stem = match self.entry.rfind('.') {
                Some(dot) => &self.entry[..dot],
                None => &self.entry[..],
            };
            parts.push(stem.to_string());
        }
        for name in names {
            parts.push(String::from_utf8(name.clone()).unwrap());
        }
        parts.join("/")
    }

    fn dir_key(&self, dir: &DirPath) -> String {
        self.joined(dir.anchor, &dir.names)
    }

    fn file_key(&self, file: &FilePath) -> String {
        match file {
            FilePath::Entry => self.entry.clone(),
            FilePath::Unit { dir, .. } => self.joined(dir.anchor, &file.names(&self.syntax.extension)),
        }
    }

    fn is_file(&self, file: &FilePath) -> bool {
        self.files.contains_key(&self.file_key(file))
    }

    fn answer(&self, request: &Request) -> Answer {
        match request {
            Request::Probe(path) | Request::Locate(path) => Answer::Flag(self.is_file(path)),
            Request::BaseDir(dir) => Answer::Flag(self.dirs.contains(&self.dir_key(dir))),
            Request::Read(path) => match self.files.get(&self.file_key(path)) {
                Some(Some(text)) => Answer::Text(text.clone()),
                _ => Answer::Unreadable,
            },
        }
    }

    fn show(&self, request: &Request) -> String {
        match request {
            Request::Probe(path) => format!("probe {}", self.file_key(path)),
            Request::Locate(path) => format!("locate {}", self.file_key(path)),
            Request::BaseDir(dir) => format!("dir {}", self.dir_key(dir)),
            Request::Read(path) => format!("read {}", self.file_key(path)),
        }
    }

    /// Expands the file `path` of the tree.
    fn expand(&self, tolerant: bool, path: FilePath) -> Result<String, FlattenError> {
        let text = self.run_from(expand(&self.syntax, tolerant, path)).0?;
        Ok(String::from_utf8(text).unwrap())
    }

    /// Flattens `text` as the text of the entry file, with its units looked for
    /// beside the entry file.
    fn flatten_text(&self, tolerant: bool, text: &str) -> (Result<Vec<u8>, FlattenError>, Vec<String>) {
        let base = DirPath { anchor: Anchor::Parent, names: vec![] };
        self.run_from(flatten(
            &self.syntax,
            tolerant,
            base,
            FilePath::Entry,
            text.as_bytes().to_vec(),
        ))
    }

    /// Runs the engine against the tree; returns how the run ended and the
    /// questions that were asked.
    fn run(&self, tolerant: bool) -> (Result<Vec<u8>, FlattenError>, Vec<String>) {
        self.run_from(Flattener::start(&self.syntax, tolerant))
    }

    /// Goes on with a run from `step`.
    fn run_from(&self, step: Step) -> (Result<Vec<u8>, FlattenError>, Vec<String>) {
        let mut asked = Vec::new();
        let mut step = step;
        for _ in 0..10_000 {
            match step {
                Step::Ask { machine, request } => {
                    asked.push(self.show(&request));
                    step = machine.step(self.answer(&request));
                }
                Step::Done(text) => return (Ok(text), asked),
                Step::Failed(error) => return (Err(error), asked),
            }
        }
        panic!("the run did not end");
    }

    fn flatten(&self) -> String {
        String::from_utf8(self.run(false).0.unwrap()).unwrap()
    }

    fn flatten_tolerant(&self) -> String {
        String::from_utf8(self.run(true).0.unwrap()).unwrap()
    }
}

fn unit_syntax() -> Syntax {
    Syntax::new(b"unit".to_vec(), b"ext".to_vec()).unwrap()
}

fn unit(anchor: Anchor, names: &[&str], name: &str, layout: Layout) -> FilePath {
    FilePath::Unit {
        dir: DirPath { anchor, names: names.iter().map(|n| n.as_bytes().to_vec()).collect() },
        name: name.as_bytes().to_vec(),
        layout,
    }
}

#[test]
fn text_without_declarations_is_unchanged() {
    for text in [
        "",
        "fn main() {}\n",
        "  leading and trailing white space \t\n",
        "let model = mode + 1; // almost a keyword\n",
        "naïve — text with characters of several bytes: 😀\n",
        "let s = \"a string; with a separator\";",
        "a / b // c",
        "\r\n",
    ] {
        let tree = Tree::rust("lib.rs").file("lib.rs", text);
        let (result, asked) = tree.run(false);
        assert_eq!(result, Ok(text.as_bytes().to_vec()));
        assert_eq!(asked, vec!["locate lib.rs", "dir lib", "read lib.rs"]);
    }
}

#[test]
fn a_declaration_becomes_a_block() {
    let tree = Tree::new(unit_syntax(), "main.ext")
        .file("main.ext", "unit foo;\nrest")
        .file("foo.ext", "C");
    assert_eq!(tree.flatten(), "unit foo{\nC\n}\nrest");
    let tree = Tree::new(unit_syntax(), "main.ext")
        .file("main.ext", "unit foo;rest")
        .file("foo.ext", "C");
    assert_eq!(tree.flatten(), "unit foo{\nC\n}\nrest");
}

#[test]
fn a_rust_module_becomes_a_block() {
    let tree = Tree::rust("lib.rs")
        .file("lib.rs", "//! docs\npub mod foo;\nfn main() {}\n")
        .file("foo.rs", "pub fn f() {}\n");
    assert_eq!(tree.flatten(), "//! docs\npub mod foo{\npub fn f() {}\n\n}\nfn main() {}\n");
}

#[test]
fn the_span_of_the_declaration_is_what_gives_way() {
    let tree = Tree::rust("lib.rs")
        .file("lib.rs", "a mod /* x */ foo\n ; b")
        .file("foo.rs", "");
    assert_eq!(tree.flatten(), "a mod foo{\n\n}\n b");
}

#[test]
fn the_questions_come_in_order() {
    let tree = Tree::rust("lib.rs").file("lib.rs", "mod foo;").file("foo.rs", "x");
    let (result, asked) = tree.run(false);
    assert_eq!(result, Ok(b"mod foo{\nx\n}\n".to_vec()));
    assert_eq!(
        asked,
        vec![
            "locate lib.rs",
            "dir lib",
            "read lib.rs",
            "probe foo.rs",
            "locate foo.rs",
            "dir foo",
            "read foo.rs",
        ]
    );
}

#[test]
fn false_matches_are_passed_through() {
    let tree = Tree::new(unit_syntax(), "main.ext").file("main.ext", "unit = 5;");
    assert_eq!(tree.run(false).0, Ok(b"unit = 5;".to_vec()));
    let tree = Tree::new(unit_syntax(), "main.ext").file("main.ext", "unit foo + 1;");
    assert_eq!(tree.run(false).0, Ok(b"unit foo + 1;".to_vec()));
    for text in ["mod = 5;", "mod foo + 1;", "mod", "mod foo", "mod;", "mod mod foo;", "x.mod(foo);"] {
        let tree = Tree::rust("lib.rs").file("lib.rs", text);
        let (result, asked) = tree.run(false);
        assert_eq!(result, Ok(text.as_bytes().to_vec()));
        assert_eq!(asked.len(), 3);
    }
}

#[test]
fn a_false_match_does_not_hide_a_later_declaration() {
    let tree = Tree::rust("lib.rs").file("lib.rs", "mod = 1; mod foo; mod + mod bar;").file("foo.rs", "F").file("bar.rs", "B");
    assert_eq!(tree.flatten(), "mod = 1; mod foo{\nF\n}\n mod + mod bar{\nB\n}\n");
}

#[test]
fn comments_are_preserved() {
    let text = "// mod foo;\n/* mod bar; */\n/* mod\n baz; */ fn main() {} // mod qux;\n";
    let tree = Tree::rust("lib.rs").file("lib.rs", text);
    let (result, asked) = tree.run(false);
    assert_eq!(result, Ok(text.as_bytes().to_vec()));
    assert_eq!(asked, vec!["locate lib.rs", "dir lib", "read lib.rs"]);
}

#[test]
fn a_line_comment_at_the_end_of_the_text_is_preserved() {
    let tree = Tree::new(unit_syntax(), "main.ext").file("main.ext", "// unit foo;").file("foo.ext", "X");
    let (result, asked) = tree.run(false);
    assert_eq!(result, Ok(b"// unit foo;".to_vec()));
    assert_eq!(asked, vec!["locate main.ext", "dir main", "read main.ext"]);
    let tree = Tree::rust("lib.rs").file("lib.rs", "mod a; // mod b;").file("a.rs", "A");
    assert_eq!(tree.flatten(), "mod a{\nA\n}\n // mod b;");
}

#[test]
fn one_newline_follows_a_block() {
    let tree = Tree::rust("lib.rs").file("a.rs", "A");
    // The text behind the declaration begins with a newline: none is added.
    assert_eq!(tree.flatten_text(false, "mod a;\nx").0, Ok(b"mod a{\nA\n}\nx".to_vec()));
    assert_eq!(tree.flatten_text(false, "mod a;\n").0, Ok(b"mod a{\nA\n}\n".to_vec()));
    assert_eq!(tree.flatten_text(false, "mod a;\n\nx").0, Ok(b"mod a{\nA\n}\n\nx".to_vec()));
    // It begins with something else, or the declaration ends the text: one is added.
    assert_eq!(tree.flatten_text(false, "mod a;x").0, Ok(b"mod a{\nA\n}\nx".to_vec()));
    assert_eq!(tree.flatten_text(false, "mod a; x").0, Ok(b"mod a{\nA\n}\n x".to_vec()));
    assert_eq!(tree.flatten_text(false, "mod a;\r\nx").0, Ok(b"mod a{\nA\n}\n\r\nx".to_vec()));
    assert_eq!(tree.flatten_text(false, "mod a;").0, Ok(b"mod a{\nA\n}\n".to_vec()));
}

#[test]
fn a_text_is_flattened_without_a_question_about_its_file() {
    let tree = Tree::new(unit_syntax(), "main.ext").file("foo.ext", "C");
    let (result, asked) = tree.flatten_text(false, "unit foo;\nrest");
    assert_eq!(result, Ok(b"unit foo{\nC\n}\nrest".to_vec()));
    assert_eq!(asked, vec!["probe foo.ext", "locate foo.ext", "dir foo", "read foo.ext"]);
    let (result, asked) = tree.flatten_text(false, "no declaration");
    assert_eq!(result, Ok(b"no declaration".to_vec()));
    assert!(asked.is_empty());
    let (result, asked) = tree.flatten_text(false, "/* never closed");
    assert_eq!(result, Err(FlattenError::MalformedComment { source: FilePath::Entry, at: 0 }));
    assert!(asked.is_empty());
}

#[test]
fn a_file_is_expanded_by_its_path() {
    let tree = Tree::new(unit_syntax(), "main.ext")
        .file("a.ext", "unit b;\n")
        .file("b.ext", "unit c;\n")
        .file("c.ext", "leaf");
    assert_eq!(
        tree.expand(false, unit(Anchor::Parent, &[], "a", Layout::File)),
        Ok("unit b{\nunit c{\nleaf\n}\n\n}\n".to_string())
    );
    assert_eq!(
        tree.expand(false, unit(Anchor::Parent, &[], "c", Layout::File)),
        Ok("leaf".to_string())
    );
}

#[test]
fn a_file_is_expanded_against_the_directory_named_like_it() {
    let tree = Tree::new(unit_syntax(), "main.ext")
        .file("foo.ext", "unit bar;\n")
        .dir("foo")
        .file("foo/bar.ext", "IN")
        .file("bar.ext", "OUT");
    assert_eq!(
        tree.expand(false, unit(Anchor::Parent, &[], "foo", Layout::File)),
        Ok("unit bar{\nIN\n}\n".to_string())
    );
}

#[test]
fn a_missing_file_is_not_read() {
    let tree = Tree::new(unit_syntax(), "main.ext").dir("gone");
    let path = unit(Anchor::Parent, &[], "gone", Layout::File);
    let (result, asked) = tree.run_from(expand(&tree.syntax, false, path.clone()));
    assert_eq!(result, Err(FlattenError::FileNotFound(path.clone())));
    assert_eq!(asked, vec!["locate gone.ext"]);
    let (result, asked) = tree.run_from(expand(&tree.syntax, true, path));
    assert_eq!(result, Ok(b"// Missing module file".to_vec()));
    assert_eq!(asked, vec!["locate gone.ext"]);
}

#[test]
fn comments_around_a_declaration_are_preserved() {
    let tree = Tree::rust("lib.rs")
        .file("lib.rs", "// mod a;\nmod b; /* mod c; */\n")
        .file("b.rs", "// mod d;\n");
    assert_eq!(tree.flatten(), "// mod a;\nmod b{\n// mod d;\n\n}\n /* mod c; */\n");
}

#[test]
fn nested_declarations_nest_their_blocks() {
    let tree = Tree::rust("lib.rs")
        .file("lib.rs", "mod a;")
        .file("a.rs", "mod b;")
        .dir("a")
        .file("a/b.rs", "mod c;")
        .dir("a/b")
        .file("a/b/c.rs", "leaf");
    assert_eq!(tree.flatten(), "mod a{\nmod b{\nmod c{\nleaf\n}\n\n}\n\n}\n");
}

#[test]
fn nested_declarations_keep_the_text_around_them() {
    let tree = Tree::rust("lib.rs")
        .file("lib.rs", "1 mod a; 2 mod z; 3")
        .file("a.rs", "4 mod b; 5")
        .file("b.rs", "6")
        .file("z.rs", "7");
    assert_eq!(tree.flatten(), "1 mod a{\n4 mod b{\n6\n}\n 5\n}\n 2 mod z{\n7\n}\n 3");
}

#[test]
fn a_missing_unit_fails_the_run() {
    let tree = Tree::rust("lib.rs").file("lib.rs", "mod gone;\nmod here;").file("here.rs", "H");
    let (result, asked) = tree.run(false);
    assert_eq!(
        result,
        Err(FlattenError::FileNotFound(unit(Anchor::Parent, &[], "gone", Layout::Index)))
    );
    assert_eq!(
        asked,
        vec!["locate lib.rs", "dir lib", "read lib.rs", "probe gone.rs", "locate gone/mod.rs"]
    );
}

#[test]
fn a_missing_unit_is_replaced_when_tolerated() {
    let tree = Tree::rust("lib.rs").file("lib.rs", "mod gone;\nmod here;").file("here.rs", "H");
    assert_eq!(
        tree.flatten_tolerant(),
        "mod gone{\n// Missing module file\n}\nmod here{\nH\n}\n"
    );
    assert_eq!(placeholder_text(), b"// Missing module file".to_vec());
}

#[test]
fn a_missing_unit_does_not_stop_the_others() {
    let tree = Tree::new(unit_syntax(), "main.ext")
        .file("main.ext", "unit a;\nunit b;\n")
        .file("b.ext", "X");
    assert_eq!(
        tree.flatten_tolerant(),
        "unit a{\n// Missing module file\n}\nunit b{\nX\n}\n"
    );
}

#[test]
fn a_missing_unit_deep_in_the_tree() {
    let tree = Tree::rust("lib.rs").file("lib.rs", "mod a; end").file("a.rs", "mod gone; tail");
    assert_eq!(
        tree.run(false).0,
        Err(FlattenError::FileNotFound(unit(Anchor::Parent, &[], "gone", Layout::Index)))
    );
    assert_eq!(
        tree.flatten_tolerant(),
        "mod a{\nmod gone{\n// Missing module file\n}\n tail\n}\n end"
    );
}

#[test]
fn a_missing_entry_file() {
    let tree = Tree::rust("lib.rs");
    assert_eq!(tree.run(false), (Err(FlattenError::FileNotFound(FilePath::Entry)), vec!["locate lib.rs".to_string()]));
    assert_eq!(tree.run(true).0, Ok(b"// Missing module file".to_vec()));
}

#[test]
fn an_unterminated_block_comment_fails_the_run() {
    let tree = Tree::rust("lib.rs").file("lib.rs", "/* never closed");
    assert_eq!(
        tree.run(false).0,
        Err(FlattenError::MalformedComment { source: FilePath::Entry, at: 0 })
    );
    assert_eq!(
        tree.run(true).0,
        Err(FlattenError::MalformedComment { source: FilePath::Entry, at: 0 })
    );
    let tree = Tree::rust("lib.rs").file("lib.rs", "fn f() {} /* mod foo; ");
    assert_eq!(
        tree.run(false).0,
        Err(FlattenError::MalformedComment { source: FilePath::Entry, at: 10 })
    );
}

#[test]
fn an_unterminated_block_comment_in_a_unit_fails_the_run() {
    let tree = Tree::rust("lib.rs").file("lib.rs", "mod a; rest").file("a.rs", "x /* open");
    assert_eq!(
        tree.run(true).0,
        Err(FlattenError::MalformedComment {
            source: unit(Anchor::Parent, &[], "a", Layout::File),
            at: 2,
        })
    );
}

#[test]
fn an_unterminated_block_comment_behind_a_declaration() {
    let tree = Tree::rust("lib.rs").file("lib.rs", "mod a; /* open").file("a.rs", "A");
    let (result, asked) = tree.run(false);
    assert_eq!(result, Err(FlattenError::MalformedComment { source: FilePath::Entry, at: 7 }));
    assert_eq!(asked.last().unwrap(), "read a.rs");
}

#[test]
fn a_file_of_its_own_is_preferred_to_an_index_file() {
    let tree = Tree::rust("lib.rs")
        .file("lib.rs", "mod foo;")
        .file("foo.rs", "file")
        .dir("foo")
        .file("foo/mod.rs", "index");
    assert_eq!(tree.flatten(), "mod foo{\nfile\n}\n");
}

#[test]
fn each_unit_is_resolved_on_its_own() {
    let tree = Tree::new(unit_syntax(), "main.ext")
        .file("main.ext", "unit foo;\nunit bar;\n")
        .file("foo.ext", "F")
        .dir("foo")
        .file("foo/mod.ext", "M")
        .dir("bar")
        .file("bar/mod.ext", "B");
    assert_eq!(tree.flatten(), "unit foo{\nF\n}\nunit bar{\nB\n}\n");
}

#[test]
fn an_index_file_is_the_second_choice() {
    let tree = Tree::rust("lib.rs")
        .file("lib.rs", "mod foo;")
        .dir("foo")
        .file("foo/mod.rs", "mod bar;")
        .file("foo/bar.rs", "bar")
        .file("bar.rs", "wrong");
    let (result, asked) = tree.run(false);
    assert_eq!(result, Ok(b"mod foo{\nmod bar{\nbar\n}\n\n}\n".to_vec()));
    assert_eq!(
        asked,
        vec![
            "locate lib.rs",
            "dir lib",
            "read lib.rs",
            "probe foo.rs",
            "locate foo/mod.rs",
            "dir foo/mod",
            "read foo/mod.rs",
            "probe foo/bar.rs",
            "locate foo/bar.rs",
            "dir foo/bar",
            "read foo/bar.rs",
        ]
    );
}

#[test]
fn units_lie_in_the_directory_named_like_their_file() {
    let tree = Tree::rust("lib.rs")
        .file("lib.rs", "mod a;")
        .file("a.rs", "mod b;")
        .dir("a")
        .file("a/b.rs", "inner")
        .file("b.rs", "outer");
    assert_eq!(tree.flatten(), "mod a{\nmod b{\ninner\n}\n\n}\n");
}

#[test]
fn units_lie_beside_their_file_without_such_a_directory() {
    let tree = Tree::rust("lib.rs")
        .file("lib.rs", "mod a;")
        .file("a.rs", "mod b;")
        .file("b.rs", "outer");
    assert_eq!(tree.flatten(), "mod a{\nmod b{\nouter\n}\n\n}\n");
}

#[test]
fn the_entry_file_may_have_a_directory_of_its_own() {
    let tree = Tree::rust("foo.rs")
        .file("foo.rs", "mod bar;")
        .dir("foo")
        .file("foo/bar.rs", "inner")
        .file("bar.rs", "outer");
    let (result, asked) = tree.run(false);
    assert_eq!(result, Ok(b"mod bar{\ninner\n}\n".to_vec()));
    assert_eq!(asked[3], "probe foo/bar.rs");
}

#[test]
fn a_file_that_cannot_be_read_fails_the_run() {
    let tree = Tree::rust("lib.rs").file("lib.rs", "mod a;").unreadable("a.rs");
    assert_eq!(
        tree.run(true).0,
        Err(FlattenError::ReadFailure(unit(Anchor::Parent, &[], "a", Layout::File)))
    );
    let tree = Tree::rust("lib.rs").unreadable("lib.rs");
    assert_eq!(tree.run(false).0, Err(FlattenError::ReadFailure(FilePath::Entry)));
}

#[test]
fn a_unit_declared_twice_is_expanded_twice() {
    let tree = Tree::rust("lib.rs").file("lib.rs", "mod a;mod a;").file("a.rs", "A");
    let (result, asked) = tree.run(false);
    assert_eq!(result, Ok(b"mod a{\nA\n}\nmod a{\nA\n}\n".to_vec()));
    assert_eq!(asked.iter().filter(|q| *q == "read a.rs").count(), 2);
}

#[test]
fn characters_of_several_bytes_are_kept() {
    let tree = Tree::rust("lib.rs")
        .file("lib.rs", "é mod a; — 😀")
        .file("a.rs", "ß");
    assert_eq!(tree.flatten(), "é mod a{\nß\n}\n — 😀");
}

#[test]
fn an_answer_of_the_wrong_kind_changes_nothing() {
    let syntax = Syntax::rust();
    let Step::Ask { machine, request } = Flattener::start(&syntax, false) else {
        panic!("the engine starts with a question");
    };
    assert_eq!(request, Request::Locate(FilePath::Entry));
    let Step::Ask { machine, request } = machine.step(Answer::Text(b"x".to_vec())) else {
        panic!("the engine asks again");
    };
    assert_eq!(request, Request::Locate(FilePath::Entry));
    let Step::Ask { machine, request } = machine.step(Answer::Unreadable) else {
        panic!("the engine asks again");
    };
    assert_eq!(request, Request::Locate(FilePath::Entry));
    let Step::Ask { machine, request } = machine.step(Answer::Flag(true)) else {
        panic!("the engine goes on");
    };
    assert_eq!(request, Request::BaseDir(DirPath { anchor: Anchor::Stem, names: vec![] }));
    let Step::Ask { machine, request } = machine.step(Answer::Unreadable) else {
        panic!("the engine asks again");
    };
    assert_eq!(request, Request::BaseDir(DirPath { anchor: Anchor::Stem, names: vec![] }));
    let Step::Ask { machine, request } = machine.step(Answer::Flag(false)) else {
        panic!("the engine goes on");
    };
    assert_eq!(request, Request::Read(FilePath::Entry));
    let Step::Ask { machine, request } = machine.step(Answer::Flag(true)) else {
        panic!("the engine asks again");
    };
    assert_eq!(request, Request::Read(FilePath::Entry));
    let Step::Ask { machine, request } = machine.step(Answer::Text(b"mod a;".to_vec())) else {
        panic!("the engine goes on");
    };
    assert_eq!(request, Request::Probe(unit(Anchor::Parent, &[], "a", Layout::File)));
    let Step::Ask { machine, request } = machine.step(Answer::Text(b"x".to_vec())) else {
        panic!("the engine asks again");
    };
    assert_eq!(request, Request::Probe(unit(Anchor::Parent, &[], "a", Layout::File)));
    let Step::Ask { machine, request } = machine.step(Answer::Flag(false)) else {
        panic!("the engine goes on");
    };
    assert_eq!(request, Request::Locate(unit(Anchor::Parent, &[], "a", Layout::Index)));
    assert!(matches!(machine.step(Answer::Flag(false)), Step::Failed(_)));
}

#[test]
fn the_engine_names_the_declaring_file() {
    let syntax = Syntax::rust();
    let Step::Ask { machine, .. } = Flattener::start(&syntax, false) else {
        panic!("the engine starts with a question");
    };
    assert_eq!(machine.declaring_file(), None);
    let Step::Ask { machine, .. } = machine.step(Answer::Flag(true)) else {
        panic!("the engine goes on");
    };
    let Step::Ask { machine, .. } = machine.step(Answer::Flag(false)) else {
        panic!("the engine goes on");
    };
    let Step::Ask { machine, .. } = machine.step(Answer::Text(b"mod a;".to_vec())) else {
        panic!("the engine goes on");
    };
    assert_eq!(machine.declaring_file(), Some(FilePath::Entry));
    let Step::Ask { machine, .. } = machine.step(Answer::Flag(true)) else {
        panic!("the engine goes on");
    };
    let Step::Ask { machine, .. } = machine.step(Answer::Flag(true)) else {
        panic!("the engine goes on");
    };
    let Step::Ask { machine, .. } = machine.step(Answer::Flag(false)) else {
        panic!("the engine goes on");
    };
    let Step::Ask { machine, .. } = machine.step(Answer::Text(b"mod b;".to_vec())) else {
        panic!("the engine goes on");
    };
    assert_eq!(machine.declaring_file(), Some(unit(Anchor::Parent, &[], "a", Layout::File)));
}
