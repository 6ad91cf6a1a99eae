//! Print PDF rendering: the Typst source of a book, and the errors of
//! compiling and exporting it.
use vstd::prelude::*;

pub mod source;

verus! {

broadcast use vstd::string::group_string_axioms;

/// Why producing a PDF failed.
#[derive(Debug)]
pub enum PdfError {
    Io(std::io::Error),
    /// Typst could not compile the source; the diagnostics, one per line.
    Compile(String),
    /// Typst could not export the compiled document; the diagnostics, one
    /// per line.
    Export(String),
}

/// `messages` joined by line breaks.
pub open spec fn lines_text(messages: Seq<Seq<char>>) -> Seq<char>
    decreases messages.len(),
{
    if messages.len() == 0 {
        seq![]
    } else if messages.len() == 1 {
        messages[0]
    } else {
        lines_text(messages.drop_last()) + "\n"@ + messages.last()
    }
}

/// The report of a list of diagnostics: their messages, one per line.
pub fn diagnostics_text(messages: &Vec<String>) -> (text: String)
    ensures
        text@ == lines_text(messages@.map_values(|m: String| m@)),
{
    let ghost views = messages@.map_values(|m: String| m@);
    let mut text = String::new();
    let mut i: usize = 0;
    while i < messages.len()
        invariant
            i <= messages@.len(),
            views == messages@.map_values(|m: String| m@),
            text@ == lines_text(views.take(i as int)),
        decreases messages@.len() - i,
    {
        if i > 0 {
            text.append("\n");
        }
        text.append(messages[i].as_str());
        proof {
            let t = views.take(i + 1);
            assert(t.drop_last() =~= views.take(i as int));
            assert(t.last() == messages@[i as int]@);
            if i == 0 {
                assert(t.len() == 1);
            }
        }
        i = i + 1;
    }
    assert(views.take(messages@.len() as int) =~= views);
    text
}

} // verus!
