use papyrust::config::{
    default_language, default_publisher, BookConfig, BookMeta, CopyrightMeta, EbookMeta, PrintMeta,
    TrimSize,
};
use papyrust::project::{ProjectError, ProjectLayout};
use papyrust::validate::{load_project, Issue, ProjectFiles, Report, Severity};

fn good_config() -> BookConfig {
    BookConfig {
        book: BookMeta { title: "Test".into(), subtitle: None, author: "A".into(), language: default_language() },
        copyright: CopyrightMeta {
            year: 2026,
            holder: "A".into(),
            isbn_epub: None,
            isbn_print: None,
            publisher: default_publisher(),
        },
        print: PrintMeta { trim: TrimSize::SixByNine },
        ebook: EbookMeta::default(),
    }
}

fn layout(cover: bool, front: usize, chapters: usize, back: usize) -> ProjectLayout {
    let paths = |dir: &str, n: usize| -> Vec<String> {
        (1..=n).map(|i| format!("/p/{dir}/{i:02}.md")).collect()
    };
    ProjectLayout {
        root: "/p".into(),
        book_toml: "/p/book.toml".into(),
        cover: if cover { Some("/p/cover.jpg".into()) } else { None },
        front_matter: paths("front-matter", front),
        chapters: paths("chapters", chapters),
        back_matter: paths("back-matter", back),
    }
}

fn files(
    config: Result<BookConfig, String>,
    cover: bool,
    front: Vec<&str>,
    chapters: Vec<&str>,
    back: Vec<&str>,
) -> ProjectFiles {
    let l = layout(cover, front.len(), chapters.len(), back.len());
    let texts = |v: Vec<&str>| -> Vec<Result<String, String>> { v.into_iter().map(|s| Ok(s.to_string())).collect() };
    ProjectFiles {
        layout: l,
        config,
        cover: if cover { Some(Ok(vec![0xff, 0xd8])) } else { None },
        front_matter: texts(front),
        chapters: texts(chapters),
        back_matter: texts(back),
    }
}

#[test]
fn full_valid_project_loads_clean() {
    let f = files(
        Ok(good_config()),
        true,
        vec!["For you.\n"],
        vec!["# One\n\nProse.\n", "# Two\n\nMore prose.\n"],
        vec!["About me.\n"],
    );
    let (book, report) = load_project(Ok(f));
    assert!(!report.has_errors(), "issues: {:?}", report.issues);
    assert!(report.warnings().len() == 0);
    let book = book.unwrap();
    assert_eq!(book.chapters.len(), 2);
    assert_eq!(book.front_matter.len(), 1);
    assert_eq!(book.back_matter.len(), 1);
}

#[test]
fn missing_book_toml_is_error() {
    let f = files(
        Err("could not read /p/book.toml: No such file or directory (os error 2)".into()),
        false,
        vec![],
        vec!["# One\n"],
        vec![],
    );
    let (book, report) = load_project(Ok(f));
    assert!(book.is_none());
    assert!(report.has_errors());
}

#[test]
fn malformed_book_toml_is_error() {
    let f = files(Err("could not parse /p/book.toml: expected newline".into()), false, vec![], vec!["# One\n"], vec![]);
    let (book, report) = load_project(Ok(f));
    assert!(book.is_none());
    assert!(report.has_errors());
}

#[test]
fn missing_cover_is_warning_not_error() {
    let f = files(Ok(good_config()), false, vec![], vec!["# One\n"], vec![]);
    let (book, report) = load_project(Ok(f));
    assert!(book.is_some(), "should still load without cover");
    assert!(!report.has_errors());
    assert_eq!(report.warnings().len(), 1);
}

#[test]
fn empty_chapters_is_error() {
    let f = files(Ok(good_config()), true, vec![], vec![], vec![]);
    let (book, report) = load_project(Ok(f));
    assert!(book.is_none());
    assert!(report.has_errors());
}

#[test]
fn chapter_without_h1_is_error() {
    let f = files(Ok(good_config()), true, vec![], vec!["No heading here.\n"], vec![]);
    let (book, report) = load_project(Ok(f));
    assert!(book.is_none());
    assert!(report.has_errors());
}

#[test]
fn root_not_a_directory_is_error() {
    let (book, report) = load_project(Err(ProjectError::RootNotADirectory("/p/does-not-exist".into())));
    assert!(book.is_none());
    assert!(report.has_errors());
}

#[test]
fn issue_messages_name_the_failing_file() {
    let mut f = files(Ok(good_config()), true, vec!["x"], vec!["No heading.\n", "# Two\n"], vec![]);
    f.front_matter[0] = Err("permission denied".into());
    let (book, report) = load_project(Ok(f));
    assert!(book.is_none());
    let errors = report.errors();
    assert_eq!(errors.len(), 1);
    assert_eq!(errors[0].message, "/p/chapters/01.md: chapter is missing a `# Heading` title");
    let warnings = report.warnings();
    assert_eq!(warnings.len(), 1);
    assert_eq!(warnings[0].message, "could not read /p/front-matter/01.md: permission denied");
}

#[test]
fn unreadable_cover_is_a_warning_and_drops_the_cover() {
    let mut f = files(Ok(good_config()), true, vec![], vec!["# One\n"], vec![]);
    f.cover = Some(Err("denied".into()));
    let (book, report) = load_project(Ok(f));
    assert!(book.unwrap().cover.is_none());
    assert_eq!(report.warnings().len(), 1);
    assert_eq!(report.warnings()[0].message, "could not read /p/cover.jpg: denied");
}

#[test]
fn loaded_book_carries_metadata_cover_and_titles() {
    let f = files(Ok(good_config()), true, vec!["# Dedication\n"], vec!["# One\n"], vec![]);
    let (book, _) = load_project(Ok(f));
    let book = book.unwrap();
    assert_eq!(book.meta.title, "Test");
    assert_eq!(book.meta.language, "en-US");
    assert_eq!(book.meta.copyright.publisher, "Self-Published");
    assert_eq!(book.cover.as_ref().unwrap().bytes, vec![0xff, 0xd8]);
    assert_eq!(book.cover.as_ref().unwrap().mime, "image/jpeg");
    assert_eq!(book.chapters[0].title, "One");
    assert_eq!(book.front_matter[0].title.as_deref(), Some("Dedication"));
}

#[test]
fn missing_cover_warning_text() {
    let f = files(Ok(good_config()), false, vec![], vec!["# One\n"], vec![]);
    let (_, report) = load_project(Ok(f));
    assert_eq!(
        report.warnings()[0].message,
        "cover.jpg not found at project root (required for EPUB build)"
    );
}

#[test]
fn report_sorts_issues_by_severity() {
    assert!(!Report::default().has_errors());
    let issue = |severity: Severity, message: &str| Issue { severity, message: message.into() };
    let r = Report {
        issues: vec![
            issue(Severity::Warning, "w1"),
            issue(Severity::Error, "e1"),
            issue(Severity::Warning, "w2"),
        ],
    };
    assert!(r.has_errors());
    let e: Vec<String> = r.errors().into_iter().map(|i: Issue| i.message).collect();
    let w: Vec<String> = r.warnings().into_iter().map(|i: Issue| i.message).collect();
    assert_eq!(e, vec!["e1"]);
    assert_eq!(w, vec!["w1", "w2"]);
    assert_eq!(e.len() + w.len(), r.issues.len());
}
