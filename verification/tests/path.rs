use flattener::guard::{check_entry, check_output, Refusal};
use flattener::path::{Anchor, DirPath, FilePath, Layout};
use flattener::syntax::{word, Syntax};

fn dir(anchor: Anchor, names: &[&str]) -> DirPath {
    DirPath { anchor, names: names.iter().map(|n| n.as_bytes().to_vec()).collect() }
}

fn unit(d: DirPath, name: &str, layout: Layout) -> FilePath {
    FilePath::Unit { dir: d, name: name.as_bytes().to_vec(), layout }
}

fn shown(names: &[Vec<u8>]) -> Vec<String> {
    names.iter().map(|n| String::from_utf8(n.clone()).unwrap()).collect()
}

#[test]
fn the_entry_file_lies_beside_its_stem() {
    let stem = FilePath::Entry.stem();
    assert_eq!(stem.anchor, Anchor::Stem);
    assert!(stem.names.is_empty());
    let parent = FilePath::Entry.parent();
    assert_eq!(parent.anchor, Anchor::Parent);
    assert!(parent.names.is_empty());
    assert!(FilePath::Entry.names(b"rs").is_empty());
}

#[test]
fn a_unit_in_a_file_of_its_own() {
    let path = unit(dir(Anchor::Parent, &["a"]), "foo", Layout::File);
    assert_eq!(shown(&path.names(b"rs")), vec!["a", "foo.rs"]);
    assert_eq!(shown(&path.names(b"ext")), vec!["a", "foo.ext"]);
    let stem = path.stem();
    assert_eq!(stem.anchor, Anchor::Parent);
    assert_eq!(shown(&stem.names), vec!["a", "foo"]);
    let parent = path.parent();
    assert_eq!(parent.anchor, Anchor::Parent);
    assert_eq!(shown(&parent.names), vec!["a"]);
}

#[test]
fn a_unit_in_the_index_file_of_its_directory() {
    let path = unit(dir(Anchor::Stem, &[]), "foo", Layout::Index);
    assert_eq!(shown(&path.names(b"rs")), vec!["foo", "mod.rs"]);
    assert_eq!(shown(&path.names(b"ext")), vec!["foo", "mod.ext"]);
    let stem = path.stem();
    assert_eq!(stem.anchor, Anchor::Stem);
    assert_eq!(shown(&stem.names), vec!["foo", "mod"]);
    let parent = path.parent();
    assert_eq!(parent.anchor, Anchor::Stem);
    assert_eq!(shown(&parent.names), vec!["foo"]);
}

#[test]
fn joining_adds_one_name() {
    let d = dir(Anchor::Parent, &["a"]).join(b"b").join(b"c");
    assert_eq!(d.anchor, Anchor::Parent);
    assert_eq!(shown(&d.names), vec!["a", "b", "c"]);
}

#[test]
fn a_copy_of_a_path_is_the_same_path() {
    let d = dir(Anchor::Stem, &["x", "y"]);
    let copy = d.clone();
    assert_eq!(copy.anchor, d.anchor);
    assert_eq!(copy.names, d.names);
    let path = unit(d, "z", Layout::Index);
    match path.clone() {
        FilePath::Unit { dir, name, layout } => {
            assert_eq!(dir.anchor, Anchor::Stem);
            assert_eq!(shown(&dir.names), vec!["x", "y"]);
            assert_eq!(name, b"z".to_vec());
            assert_eq!(layout, Layout::Index);
        }
        FilePath::Entry => panic!("a unit's path is not the entry file"),
    }
    assert!(matches!(FilePath::Entry.clone(), FilePath::Entry));
}

#[test]
fn a_syntax_takes_words_only() {
    assert!(word(b"mod"));
    assert!(word(b"a_1"));
    assert!(!word(b""));
    assert!(!word(b"a b"));
    assert!(!word(b"rs."));
    let syntax = Syntax::new(b"unit".to_vec(), b"ext".to_vec()).unwrap();
    assert_eq!(syntax.keyword, b"unit".to_vec());
    assert_eq!(syntax.extension, b"ext".to_vec());
    assert!(Syntax::new(b"".to_vec(), b"ext".to_vec()).is_none());
    assert!(Syntax::new(b"unit".to_vec(), b"".to_vec()).is_none());
    assert!(Syntax::new(b"#include".to_vec(), b"h".to_vec()).is_none());
    assert!(Syntax::new(b"unit".to_vec(), b"tar.gz".to_vec()).is_none());
}

#[test]
fn the_syntax_of_rust() {
    let syntax = Syntax::rust();
    assert_eq!(syntax.keyword, b"mod".to_vec());
    assert_eq!(syntax.extension, b"rs".to_vec());
}

#[test]
fn the_entry_path_must_be_a_regular_file() {
    assert_eq!(check_entry(true), Ok(()));
    assert_eq!(check_entry(false), Err(Refusal::InvalidRoot));
}

#[test]
fn an_existing_output_is_overwritten_only_by_force() {
    assert_eq!(check_output(true, false), Err(Refusal::OutputAlreadyExists));
    assert_eq!(check_output(true, true), Ok(()));
    assert_eq!(check_output(false, false), Ok(()));
    assert_eq!(check_output(false, true), Ok(()));
}
