use papyrust::project::{DirEntry, DirListing, ProjectError, ProjectLayout, RootListing};

fn file(name: &str) -> DirEntry {
    DirEntry { name: name.into(), is_file: true }
}

fn dir(name: &str) -> DirEntry {
    DirEntry { name: name.into(), is_file: false }
}

fn listing(
    cover: bool,
    front: Option<Vec<DirEntry>>,
    chapters: Option<Vec<DirEntry>>,
    back: Option<Vec<DirEntry>>,
) -> RootListing {
    let section = |entries: Option<Vec<DirEntry>>| match entries {
        Some(es) => DirListing::Entries(es),
        None => DirListing::NotADirectory,
    };
    RootListing {
        root_is_dir: true,
        cover_is_file: cover,
        front_matter: section(front),
        chapters: section(chapters),
        back_matter: section(back),
    }
}

fn chapter_names(layout: &ProjectLayout) -> Vec<String> {
    layout.chapters.iter().map(|p| p.rsplit('/').next().unwrap().to_string()).collect()
}

#[test]
fn discovers_full_project() {
    let l = listing(
        true,
        Some(vec![file("01-dedication.md"), file("02-epigraph.md")]),
        Some(vec![file("01-one.md"), file("02-two.md")]),
        Some(vec![file("01-about.md")]),
    );
    let layout = ProjectLayout::discover("/tmp/book", &l).unwrap();
    assert_eq!(layout.book_toml, "/tmp/book/book.toml");
    assert_eq!(layout.cover, Some("/tmp/book/cover.jpg".to_string()));
    assert_eq!(layout.front_matter.len(), 2);
    assert_eq!(layout.chapters.len(), 2);
    assert_eq!(layout.back_matter.len(), 1);
}

#[test]
fn discovers_minimal_project() {
    let l = listing(false, None, Some(vec![file("01-one.md")]), None);
    let layout = ProjectLayout::discover("/tmp/book", &l).unwrap();
    assert!(layout.cover.is_none());
    assert!(layout.front_matter.is_empty());
    assert_eq!(layout.chapters.len(), 1);
    assert!(layout.back_matter.is_empty());
}

#[test]
fn ignores_non_markdown_files() {
    let l = listing(
        false,
        None,
        Some(vec![file("01-one.md"), file("notes.txt"), file(".DS_Store")]),
        None,
    );
    let layout = ProjectLayout::discover("/tmp/book", &l).unwrap();
    assert_eq!(layout.chapters.len(), 1);
    assert_eq!(chapter_names(&layout)[0], "01-one.md");
}

#[test]
fn orders_by_numeric_prefix_not_lexicographic() {
    let l = listing(false, None, Some(vec![file("02-b.md"), file("10-j.md"), file("01-a.md")]), None);
    let layout = ProjectLayout::discover("/tmp/book", &l).unwrap();
    assert_eq!(chapter_names(&layout), vec!["01-a.md", "02-b.md", "10-j.md"]);
}

#[test]
fn unprefixed_files_sort_last() {
    let l = listing(false, None, Some(vec![file("01-a.md"), file("intro.md"), file("02-b.md")]), None);
    let layout = ProjectLayout::discover("/tmp/book", &l).unwrap();
    assert_eq!(chapter_names(&layout), vec!["01-a.md", "02-b.md", "intro.md"]);
}

#[test]
fn errors_when_root_missing() {
    let mut l = listing(false, None, None, None);
    l.root_is_dir = false;
    let result = ProjectLayout::discover("/tmp/does-not-exist", &l);
    assert!(matches!(result, Err(ProjectError::RootNotADirectory(_))));
}

#[test]
fn ignores_subdirectories_in_content_dirs() {
    let l = listing(false, None, Some(vec![file("01-a.md"), dir("scratch")]), None);
    let layout = ProjectLayout::discover("/tmp/book", &l).unwrap();
    assert_eq!(layout.chapters.len(), 1);
}

#[test]
fn equal_prefixes_order_by_name() {
    let l = listing(false, None, Some(vec![file("1-b.md"), file("01-a.md"), file("1-a.md")]), None);
    let layout = ProjectLayout::discover("/tmp/book", &l).unwrap();
    assert_eq!(chapter_names(&layout), vec!["01-a.md", "1-a.md", "1-b.md"]);
}

#[test]
fn oversized_prefix_sorts_with_unprefixed_files() {
    let l = listing(
        false,
        None,
        Some(vec![file("99999999999-x.md"), file("a.md"), file("5-y.md")]),
        None,
    );
    let layout = ProjectLayout::discover("/tmp/book", &l).unwrap();
    assert_eq!(chapter_names(&layout), vec!["5-y.md", "99999999999-x.md", "a.md"]);
}

#[test]
fn unreadable_content_dir_is_an_error() {
    let mut l = listing(false, None, Some(vec![file("01-a.md")]), None);
    l.back_matter = DirListing::Unreadable("permission denied".into());
    let err = ProjectLayout::discover("/tmp/book", &l).unwrap_err();
    match &err {
        ProjectError::ReadDir { dir, source } => {
            assert_eq!(dir, "/tmp/book/back-matter");
            assert_eq!(source, "permission denied");
        }
        _ => panic!("expected a read error"),
    }
    assert_eq!(err.message(), "could not read /tmp/book/back-matter: permission denied");
}

#[test]
fn root_error_message_names_the_root() {
    let mut l = listing(false, None, None, None);
    l.root_is_dir = false;
    let err = ProjectLayout::discover("nowhere", &l).unwrap_err();
    assert_eq!(err.message(), "project root not found or not a directory: nowhere");
}

#[test]
fn chapter_paths_are_joined_onto_the_chapters_dir() {
    let l = listing(false, None, Some(vec![file("01-a.md")]), None);
    let layout = ProjectLayout::discover("/tmp/book/", &l).unwrap();
    assert_eq!(layout.chapters, vec!["/tmp/book/chapters/01-a.md".to_string()]);
}
