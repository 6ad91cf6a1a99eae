//! Validation and project assembly.
//!
//! [`load_project`] turns what was read of an on-disk project into a Book
//! IR. It collects every issue (errors and warnings) into a [`Report`]
//! rather than stopping at the first, so users see a complete picture.
//! When the report holds an error no Book is returned and no rendering
//! can proceed; warnings are non-fatal.
use vstd::prelude::*;

use crate::config::BookConfig;
use crate::ir::{meta_of_config, Book, BookMeta, Chapter, ChapterView, Cover, MatterPage, MatterPageView};
use crate::markdown::markdown_events;
use crate::parse::{self, chapter_of_events, matter_page_of_events};
use crate::project::{project_error_text, ProjectError, ProjectLayout};

verus! {

broadcast use vstd::string::group_string_axioms;

#[derive(Debug, Clone, Copy, PartialEq, Eq, Structural)]
pub enum Severity {
    Error,
    Warning,
}

#[derive(Debug, Clone)]
pub struct Issue {
    pub severity: Severity,
    pub message: String,
}

#[derive(Debug, Clone)]
pub struct Report {
    pub issues: Vec<Issue>,
}

pub struct IssueView {
    pub severity: Severity,
    pub message: Seq<char>,
}

impl View for Issue {
    type V = IssueView;

    open spec fn view(&self) -> IssueView {
        IssueView { severity: self.severity, message: self.message@ }
    }
}

/// The issues of `s` of the given severity, in order.
pub open spec fn issues_of(s: Seq<Issue>, severity: Severity) -> Seq<Issue>
    decreases s.len(),
{
    if s.len() == 0 {
        seq![]
    } else {
        issues_of(s.drop_last(), severity) + if s.last().severity == severity {
            seq![s.last()]
        } else {
            seq![]
        }
    }
}

pub open spec fn issue_views(s: Seq<Issue>) -> Seq<IssueView> {
    s.map_values(|i: Issue| i@)
}

/// Whether some issue of `s` is an error.
pub open spec fn has_error(s: Seq<IssueView>) -> bool {
    exists|i: int| 0 <= i < s.len() && #[trigger] s[i].severity == Severity::Error
}

impl Default for Report {
    fn default() -> (r: Self)
        ensures
            r.issues@.len() == 0,
    {
        Report { issues: Vec::new() }
    }
}

impl Report {
    fn push(&mut self, severity: Severity, message: String)
        ensures
            final(self).issues@ == old(self).issues@.push(Issue { severity, message }),
            issue_views(final(self).issues@) == issue_views(old(self).issues@).push(
                IssueView { severity, message: message@ },
            ),
    {
        let ghost m = message@;
        self.issues.push(Issue { severity, message });
        assert(issue_views(self.issues@) =~= issue_views(old(self).issues@).push(
            IssueView { severity, message: m },
        ));
    }

    /// Whether the report holds at least one error.
    pub fn has_errors(&self) -> (b: bool)
        ensures
            b == has_error(issue_views(self.issues@)),
    {
        let mut i: usize = 0;
        while i < self.issues.len()
            invariant
                i <= self.issues@.len(),
                forall|j: int| 0 <= j < i ==> self.issues@[j].severity != Severity::Error,
            decreases self.issues@.len() - i,
        {
            if self.issues[i].severity == Severity::Error {
                assert(issue_views(self.issues@)[i as int].severity == Severity::Error);
                return true;
            }
            i = i + 1;
        }
        proof {
            assert forall|j: int| 0 <= j < issue_views(self.issues@).len() implies #[trigger] issue_views(
                self.issues@,
            )[j].severity != Severity::Error by {
                assert(self.issues@[j].severity != Severity::Error);
            }
        }
        false
    }

    fn of_severity(&self, severity: Severity) -> (out: Vec<Issue>)
        ensures
            out@ == issues_of(self.issues@, severity),
    {
        let mut out: Vec<Issue> = Vec::new();
        let mut i: usize = 0;
        while i < self.issues.len()
            invariant
                i <= self.issues@.len(),
                out@ == issues_of(self.issues@.take(i as int), severity),
            decreases self.issues@.len() - i,
        {
            let issue = &self.issues[i];
            if issue.severity == severity {
                out.push(Issue { severity: issue.severity, message: issue.message.clone() });
            }
            proof {
                let t = self.issues@.take(i + 1);
                assert(t.drop_last() =~= self.issues@.take(i as int));
                assert(t.last() == self.issues@[i as int]);
                assert(out@ =~= issues_of(t, severity));
            }
            i = i + 1;
        }
        assert(self.issues@.take(self.issues@.len() as int) =~= self.issues@);
        out
    }

    /// The errors of the report, in order.
    pub fn errors(&self) -> (out: Vec<Issue>)
        ensures
            out@ == issues_of(self.issues@, Severity::Error),
    {
        self.of_severity(Severity::Error)
    }

    /// The warnings of the report, in order.
    pub fn warnings(&self) -> (out: Vec<Issue>)
        ensures
            out@ == issues_of(self.issues@, Severity::Warning),
    {
        self.of_severity(Severity::Warning)
    }
}

// ---------------------------------------------------------------------
// Loading a project

/// What was read from disk for a discovered project. Each source list
/// holds, in the order of the layout's list, the text of the file or the
/// message of why it could not be read.
#[derive(Debug)]
pub struct ProjectFiles {
    pub layout: ProjectLayout,
    /// `book.toml` decoded, or the message of why it could not be read
    /// or parsed.
    pub config: Result<BookConfig, String>,
    /// The bytes of the cover image when the layout has one, or the
    /// message of why it could not be read.
    pub cover: Option<Result<Vec<u8>, String>>,
    pub front_matter: Vec<Result<String, String>>,
    pub chapters: Vec<Result<String, String>>,
    pub back_matter: Vec<Result<String, String>>,
}

/// Whether the files read line up with the layout they were read for.
pub open spec fn files_match_layout(f: ProjectFiles) -> bool {
    &&& f.front_matter@.len() == f.layout.front_matter@.len()
    &&& f.chapters@.len() == f.layout.chapters@.len()
    &&& f.back_matter@.len() == f.layout.back_matter@.len()
    &&& (f.cover is Some <==> f.layout.cover is Some)
}

pub open spec fn error_issue(message: Seq<char>) -> IssueView {
    IssueView { severity: Severity::Error, message }
}

pub open spec fn warning_issue(message: Seq<char>) -> IssueView {
    IssueView { severity: Severity::Warning, message }
}

/// `could not read <path>: <reason>`.
pub open spec fn read_failure(path: Seq<char>, reason: Seq<char>) -> Seq<char> {
    "could not read "@ + path + ": "@ + reason
}

pub open spec fn missing_cover_message() -> Seq<char> {
    "cover.jpg not found at project root (required for EPUB build)"@
}

pub open spec fn no_chapters_message() -> Seq<char> {
    "no chapters found in chapters/"@
}

/// Issues of the chapter files: an error for each file that could not be
/// read or does not open with an `# H1` title.
pub open spec fn chapter_issues(paths: Seq<String>, sources: Seq<Result<String, String>>) -> Seq<IssueView>
    decreases sources.len(),
{
    if sources.len() == 0 {
        seq![]
    } else {
        let path = paths[sources.len() - 1]@;
        chapter_issues(paths, sources.drop_last()) + match sources.last() {
            Err(m) => seq![error_issue(read_failure(path, m@))],
            Ok(src) => if chapter_of_events(markdown_events(src@)) is None {
                seq![error_issue(path + ": "@ + "chapter is missing a `# Heading` title"@)]
            } else {
                seq![]
            },
        }
    }
}

/// The chapters parsed from the files that could be read and parsed.
pub open spec fn parsed_chapters(sources: Seq<Result<String, String>>) -> Seq<ChapterView>
    decreases sources.len(),
{
    if sources.len() == 0 {
        seq![]
    } else {
        parsed_chapters(sources.drop_last()) + match sources.last() {
            Ok(src) => match chapter_of_events(markdown_events(src@)) {
                Some(ch) => seq![ch],
                None => seq![],
            },
            Err(_) => seq![],
        }
    }
}

/// Issues of front- or back-matter files: a warning for each file that
/// could not be read.
pub open spec fn matter_issues(paths: Seq<String>, sources: Seq<Result<String, String>>) -> Seq<IssueView>
    decreases sources.len(),
{
    if sources.len() == 0 {
        seq![]
    } else {
        let path = paths[sources.len() - 1]@;
        matter_issues(paths, sources.drop_last()) + match sources.last() {
            Err(m) => seq![warning_issue(read_failure(path, m@))],
            Ok(_) => seq![],
        }
    }
}

/// The pages parsed from the matter files that could be read.
pub open spec fn parsed_pages(sources: Seq<Result<String, String>>) -> Seq<MatterPageView>
    decreases sources.len(),
{
    if sources.len() == 0 {
        seq![]
    } else {
        parsed_pages(sources.drop_last()) + match sources.last() {
            Ok(src) => seq![matter_page_of_events(markdown_events(src@))],
            Err(_) => seq![],
        }
    }
}

/// A warning when there is no cover, or when it could not be read.
pub open spec fn cover_issues(f: ProjectFiles) -> Seq<IssueView> {
    match f.layout.cover {
        None => seq![warning_issue(missing_cover_message())],
        Some(path) => match f.cover {
            Some(Err(m)) => seq![warning_issue(read_failure(path@, m@))],
            _ => seq![],
        },
    }
}

/// Every issue found while loading `project`, in the order they are
/// found: a discovery error or an unreadable `book.toml` ends the load;
/// otherwise the cover, the presence of chapters, then each chapter,
/// front-matter and back-matter file are checked.
pub open spec fn load_issues(project: Result<ProjectFiles, ProjectError>) -> Seq<IssueView> {
    match project {
        Err(e) => seq![error_issue(project_error_text(e))],
        Ok(f) => match f.config {
            Err(m) => seq![error_issue(m@)],
            Ok(_) => cover_issues(f) + (if f.layout.chapters@.len() == 0 {
                seq![error_issue(no_chapters_message())]
            } else {
                seq![]
            }) + chapter_issues(f.layout.chapters@, f.chapters@) + matter_issues(
                f.layout.front_matter@,
                f.front_matter@,
            ) + matter_issues(f.layout.back_matter@, f.back_matter@),
        },
    }
}

pub open spec fn chapter_views(s: Seq<Chapter>) -> Seq<ChapterView> {
    s.map_values(|c: Chapter| c@)
}

pub open spec fn page_views(s: Seq<MatterPage>) -> Seq<MatterPageView> {
    s.map_values(|p: MatterPage| p@)
}

/// The Book that loading `f` assembles.
pub open spec fn assembled_book(f: ProjectFiles, book: Book) -> bool {
    &&& f.config matches Ok(cfg) && book.meta == meta_of_config(cfg)
    &&& match f.cover {
        Some(Ok(bytes)) => book.cover matches Some(c) && c.bytes@ == bytes@ && c.mime@ == "image/jpeg"@,
        _ => book.cover is None,
    }
    &&& chapter_views(book.chapters@) == parsed_chapters(f.chapters@)
    &&& page_views(book.front_matter@) == parsed_pages(f.front_matter@)
    &&& page_views(book.back_matter@) == parsed_pages(f.back_matter@)
}

fn read_chapters(paths: &Vec<String>, sources: &Vec<Result<String, String>>, report: &mut Report) -> (chapters: Vec<Chapter>)
    requires
        paths@.len() == sources@.len(),
    ensures
        issue_views(final(report).issues@) == issue_views(old(report).issues@) + chapter_issues(paths@, sources@),
        chapter_views(chapters@) == parsed_chapters(sources@),
{
    let ghost start = issue_views(report.issues@);
    let mut chapters: Vec<Chapter> = Vec::new();
    let mut i: usize = 0;
    while i < sources.len()
        invariant
            i <= sources@.len() == paths@.len(),
            issue_views(report.issues@) == start + chapter_issues(paths@, sources@.take(i as int)),
            chapter_views(chapters@) == parsed_chapters(sources@.take(i as int)),
        decreases sources@.len() - i,
    {
        let ghost before = issue_views(report.issues@);
        let ghost before_ch = chapters@;
        let path = &paths[i];
        match &sources[i] {
            Ok(src) => match parse::parse_chapter(src.as_str()) {
                Ok(chapter) => chapters.push(chapter),
                Err(e) => {
                    let mut msg = path.clone();
                    msg.append(": ");
                    msg.append(e.message());
                    report.push(Severity::Error, msg);
                },
            },
            Err(reason) => {
                let mut msg = String::from_str("could not read ");
                msg.append(path.as_str());
                msg.append(": ");
                msg.append(reason.as_str());
                report.push(Severity::Error, msg);
            },
        }
        proof {
            let t = sources@.take(i + 1);
            assert(t.drop_last() =~= sources@.take(i as int));
            assert(t.last() == sources@[i as int]);
            assert(issue_views(report.issues@) =~= start + chapter_issues(paths@, t));
            assert(chapter_views(chapters@) =~= parsed_chapters(t));
        }
        i = i + 1;
    }
    assert(sources@.take(sources@.len() as int) =~= sources@);
    chapters
}

fn read_matter(paths: &Vec<String>, sources: &Vec<Result<String, String>>, report: &mut Report) -> (pages: Vec<MatterPage>)
    requires
        paths@.len() == sources@.len(),
    ensures
        issue_views(final(report).issues@) == issue_views(old(report).issues@) + matter_issues(paths@, sources@),
        page_views(pages@) == parsed_pages(sources@),
{
    let ghost start = issue_views(report.issues@);
    let mut pages: Vec<MatterPage> = Vec::new();
    let mut i: usize = 0;
    while i < sources.len()
        invariant
            i <= sources@.len() == paths@.len(),
            issue_views(report.issues@) == start + matter_issues(paths@, sources@.take(i as int)),
            page_views(pages@) == parsed_pages(sources@.take(i as int)),
        decreases sources@.len() - i,
    {
        match &sources[i] {
            Ok(src) => pages.push(parse::parse_matter_page(src.as_str())),
            Err(reason) => {
                let mut msg = String::from_str("could not read ");
                msg.append(paths[i].as_str());
                msg.append(": ");
                msg.append(reason.as_str());
                report.push(Severity::Warning, msg);
            },
        }
        proof {
            let t = sources@.take(i + 1);
            assert(t.drop_last() =~= sources@.take(i as int));
            assert(t.last() == sources@[i as int]);
            assert(issue_views(report.issues@) =~= start + matter_issues(paths@, t));
            assert(page_views(pages@) =~= parsed_pages(t));
        }
        i = i + 1;
    }
    assert(sources@.take(sources@.len() as int) =~= sources@);
    pages
}

/// Load and validate a project, returning a Book if there are no errors.
///
/// Warnings (a missing cover, an unreadable front- or back-matter file)
/// are non-fatal and the Book is still returned. Errors (the root is not
/// a directory, `book.toml` missing or malformed, no chapters, a chapter
/// that cannot be read or has no heading) prevent it.
pub fn load_project(project: Result<ProjectFiles, ProjectError>) -> (r: (Option<Book>, Report))
    requires
        project matches Ok(f) ==> files_match_layout(f),
    ensures
        issue_views(r.1.issues@) == load_issues(project),
        r.0 is Some <==> !has_error(load_issues(project)),
        r.0 matches Some(book) ==> project matches Ok(f) && assembled_book(f, book),
{
    let mut report = Report::default();
    let files = match project {
        Ok(f) => f,
        Err(e) => {
            report.push(Severity::Error, e.message());
            proof {
                assert(issue_views(report.issues@) =~= load_issues(project));
                assert(issue_views(report.issues@)[0].severity == Severity::Error);
            }
            return (None, report);
        },
    };
    let cfg = match &files.config {
        Ok(c) => c,
        Err(m) => {
            report.push(Severity::Error, m.clone());
            proof {
                assert(issue_views(report.issues@) =~= load_issues(project));
                assert(issue_views(report.issues@)[0].severity == Severity::Error);
            }
            return (None, report);
        },
    };
    let mut cover: Option<Cover> = None;
    match &files.layout.cover {
        None => {
            report.push(
                Severity::Warning,
                String::from_str("cover.jpg not found at project root (required for EPUB build)"),
            );
        },
        Some(path) => match &files.cover {
            Some(Ok(bytes)) => {
                cover = Some(Cover { bytes: bytes.clone(), mime: "image/jpeg" });
            },
            Some(Err(reason)) => {
                let mut msg = String::from_str("could not read ");
                msg.append(path.as_str());
                msg.append(": ");
                msg.append(reason.as_str());
                report.push(Severity::Warning, msg);
            },
            None => {},
        },
    }
    assert(issue_views(report.issues@) =~= cover_issues(files));
    if files.layout.chapters.len() == 0 {
        report.push(Severity::Error, String::from_str("no chapters found in chapters/"));
    }
    let ghost after_count = issue_views(report.issues@);
    let chapters = read_chapters(&files.layout.chapters, &files.chapters, &mut report);
    let front_matter = read_matter(&files.layout.front_matter, &files.front_matter, &mut report);
    let back_matter = read_matter(&files.layout.back_matter, &files.back_matter, &mut report);
    assert(issue_views(report.issues@) =~= load_issues(project));
    if report.has_errors() {
        return (None, report);
    }
    let book = Book { meta: BookMeta::from(cfg), cover, front_matter, chapters, back_matter };
    (Some(book), report)
}

// ---------------------------------------------------------------------
// Laws

/// Every issue is an error or a warning: the errors and the warnings of a
/// report together are all its issues, and it has errors exactly when the
/// list of its errors is not empty.
pub proof fn errors_and_warnings_partition_issues(s: Seq<Issue>)
    ensures
        issues_of(s, Severity::Error).len() + issues_of(s, Severity::Warning).len() == s.len(),
        has_error(issue_views(s)) <==> issues_of(s, Severity::Error).len() > 0,
    decreases s.len(),
{
    if s.len() > 0 {
        errors_and_warnings_partition_issues(s.drop_last());
        let v = issue_views(s);
        let pre = issue_views(s.drop_last());
        assert(pre =~= v.drop_last());
        if has_error(pre) {
            let i = choose|i: int| 0 <= i < pre.len() && #[trigger] pre[i].severity == Severity::Error;
            assert(v[i] == pre[i]);
        }
        if has_error(v) {
            let i = choose|i: int| 0 <= i < v.len() && #[trigger] v[i].severity == Severity::Error;
            if i < pre.len() {
                assert(pre[i] == v[i]);
            }
        }
        if s.last().severity == Severity::Error {
            assert(v[s.len() - 1].severity == Severity::Error);
        }
    }
}

proof fn lemma_has_error_concat(a: Seq<IssueView>, b: Seq<IssueView>)
    ensures
        has_error(a + b) <==> has_error(a) || has_error(b),
{
    if has_error(a) {
        let i = choose|i: int| 0 <= i < a.len() && #[trigger] a[i].severity == Severity::Error;
        assert((a + b)[i] == a[i]);
    }
    if has_error(b) {
        let i = choose|i: int| 0 <= i < b.len() && #[trigger] b[i].severity == Severity::Error;
        assert((a + b)[a.len() + i] == b[i]);
    }
    if has_error(a + b) {
        let i = choose|i: int| 0 <= i < (a + b).len() && #[trigger] (a + b)[i].severity == Severity::Error;
        if i < a.len() {
            assert(a[i] == (a + b)[i]);
        } else {
            assert(b[i - a.len()] == (a + b)[i]);
        }
    }
}

proof fn lemma_matter_issues_are_warnings(paths: Seq<String>, sources: Seq<Result<String, String>>)
    ensures
        !has_error(matter_issues(paths, sources)),
    decreases sources.len(),
{
    if sources.len() > 0 {
        lemma_matter_issues_are_warnings(paths, sources.drop_last());
        let tail = match sources.last() {
            Err(m) => seq![warning_issue(read_failure(paths[sources.len() - 1]@, m@))],
            Ok(_) => Seq::<IssueView>::empty(),
        };
        lemma_has_error_concat(matter_issues(paths, sources.drop_last()), tail);
    }
}

/// Whether a chapter file keeps the book from loading: it could not be
/// read, or it has no `# H1` title.
pub open spec fn chapter_fails(source: Result<String, String>) -> bool {
    match source {
        Err(_) => true,
        Ok(src) => chapter_of_events(markdown_events(src@)) is None,
    }
}

proof fn lemma_chapter_issues_errors(paths: Seq<String>, sources: Seq<Result<String, String>>)
    ensures
        has_error(chapter_issues(paths, sources)) <==> exists|i: int|
            0 <= i < sources.len() && chapter_fails(#[trigger] sources[i]),
    decreases sources.len(),
{
    if sources.len() > 0 {
        let pre = sources.drop_last();
        lemma_chapter_issues_errors(paths, pre);
        let path = paths[sources.len() - 1]@;
        let tail = match sources.last() {
            Err(m) => seq![error_issue(read_failure(path, m@))],
            Ok(src) => if chapter_of_events(markdown_events(src@)) is None {
                seq![error_issue(path + ": "@ + "chapter is missing a `# Heading` title"@)]
            } else {
                Seq::<IssueView>::empty()
            },
        };
        lemma_has_error_concat(chapter_issues(paths, pre), tail);
        if chapter_fails(sources.last()) {
            assert(tail[0].severity == Severity::Error);
            assert(chapter_fails(sources[sources.len() - 1]));
        }
        if exists|i: int| 0 <= i < sources.len() && chapter_fails(#[trigger] sources[i]) {
            let i = choose|i: int| 0 <= i < sources.len() && chapter_fails(#[trigger] sources[i]);
            if i < pre.len() {
                assert(pre[i] == sources[i]);
            }
        }
        if exists|i: int| 0 <= i < pre.len() && chapter_fails(#[trigger] pre[i]) {
            let i = choose|i: int| 0 <= i < pre.len() && chapter_fails(#[trigger] pre[i]);
            assert(pre[i] == sources[i]);
        }
    }
}

/// Loading fails (the report has an error, and no Book is returned)
/// exactly when the project could not be discovered, `book.toml` could
/// not be read or parsed, there are no chapters, or some chapter could
/// not be read or has no `# H1` title. A missing or unreadable cover and
/// unreadable front- or back-matter files are only warnings.
pub proof fn load_fails_exactly_on_errors(project: Result<ProjectFiles, ProjectError>)
    requires
        project matches Ok(f) ==> files_match_layout(f),
    ensures
        has_error(load_issues(project)) <==> match project {
            Err(_) => true,
            Ok(f) => f.config is Err || f.layout.chapters@.len() == 0 || exists|i: int|
                0 <= i < f.chapters@.len() && chapter_fails(#[trigger] f.chapters@[i]),
        },
{
    match project {
        Err(e) => {
            assert(load_issues(project)[0].severity == Severity::Error);
        },
        Ok(f) => {
            match f.config {
                Err(m) => {
                    assert(load_issues(project)[0].severity == Severity::Error);
                },
                Ok(_) => {
                    let cov = cover_issues(f);
                    let none = if f.layout.chapters@.len() == 0 {
                        seq![error_issue(no_chapters_message())]
                    } else {
                        Seq::<IssueView>::empty()
                    };
                    let ch = chapter_issues(f.layout.chapters@, f.chapters@);
                    let fm = matter_issues(f.layout.front_matter@, f.front_matter@);
                    let bm = matter_issues(f.layout.back_matter@, f.back_matter@);
                    assert(!has_error(cov)) by {
                        if has_error(cov) {
                            let i = choose|i: int| 0 <= i < cov.len() && #[trigger] cov[i].severity
                                == Severity::Error;
                        }
                    }
                    if f.layout.chapters@.len() == 0 {
                        assert(none[0].severity == Severity::Error);
                    } else {
                        assert(!has_error(none));
                    }
                    lemma_chapter_issues_errors(f.layout.chapters@, f.chapters@);
                    lemma_matter_issues_are_warnings(f.layout.front_matter@, f.front_matter@);
                    lemma_matter_issues_are_warnings(f.layout.back_matter@, f.back_matter@);
                    lemma_has_error_concat(cov, none);
                    lemma_has_error_concat(cov + none, ch);
                    lemma_has_error_concat(cov + none + ch, fm);
                    lemma_has_error_concat(cov + none + ch + fm, bm);
                },
            }
        },
    }
}

/// What a chapter file parses to, if it reads and has a title.
pub open spec fn chapter_parse(source: Result<String, String>) -> Option<ChapterView> {
    match source {
        Ok(src) => chapter_of_events(markdown_events(src@)),
        Err(_) => None,
    }
}

/// Reading two runs of chapter files one after the other gives the
/// chapters of the first run, then those of the second.
pub proof fn parsed_chapters_keep_file_order(a: Seq<Result<String, String>>, b: Seq<Result<String, String>>)
    ensures
        parsed_chapters(a + b) == parsed_chapters(a) + parsed_chapters(b),
    decreases b.len(),
{
    if b.len() == 0 {
        assert(a + b =~= a);
        assert(parsed_chapters(a) + parsed_chapters(b) =~= parsed_chapters(a));
    } else {
        parsed_chapters_keep_file_order(a, b.drop_last());
        assert((a + b).drop_last() =~= a + b.drop_last());
        assert((a + b).last() == b.last());
    }
}

proof fn lemma_all_chapters_parse(sources: Seq<Result<String, String>>)
    requires
        forall|k: int| 0 <= k < sources.len() ==> !chapter_fails(#[trigger] sources[k]),
    ensures
        parsed_chapters(sources).len() == sources.len(),
        forall|k: int|
            0 <= k < sources.len() ==> Some(#[trigger] parsed_chapters(sources)[k]) == chapter_parse(
                sources[k],
            ),
    decreases sources.len(),
{
    if sources.len() > 0 {
        let p = sources.drop_last();
        assert forall|k: int| 0 <= k < p.len() implies !chapter_fails(#[trigger] p[k]) by {
            assert(p[k] == sources[k]);
        }
        lemma_all_chapters_parse(p);
        assert(!chapter_fails(sources[sources.len() - 1]));
        assert forall|k: int| 0 <= k < sources.len() implies Some(#[trigger] parsed_chapters(sources)[k])
            == chapter_parse(sources[k]) by {
            if k < p.len() {
                assert(parsed_chapters(sources)[k] == parsed_chapters(p)[k]);
                assert(p[k] == sources[k]);
            }
        }
    }
}

/// A loaded book whose chapter files all read and parse has one chapter
/// per file, in the order of the layout's chapter files: chapter `k` is
/// the parse of file `k`.
pub proof fn loaded_chapters_follow_file_order(f: ProjectFiles, book: Book)
    requires
        assembled_book(f, book),
        forall|k: int| 0 <= k < f.chapters@.len() ==> !chapter_fails(#[trigger] f.chapters@[k]),
    ensures
        book.chapters@.len() == f.chapters@.len(),
        forall|k: int|
            0 <= k < f.chapters@.len() ==> Some(#[trigger] book.chapters@[k]@) == chapter_parse(
                f.chapters@[k],
            ),
{
    lemma_all_chapters_parse(f.chapters@);
    assert(chapter_views(book.chapters@).len() == book.chapters@.len());
    assert forall|k: int| 0 <= k < f.chapters@.len() implies Some(#[trigger] book.chapters@[k]@)
        == chapter_parse(f.chapters@[k]) by {
        assert(chapter_views(book.chapters@)[k] == book.chapters@[k]@);
    }
}

} // verus!
