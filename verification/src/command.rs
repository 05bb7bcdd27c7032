//! The command surface: what a line typed at the prompt asks for.

use crate::matcher::recall;
use crate::store::{Entry, KnowledgeBase};
use crate::text::{starts_with, text_eq, trim, trimmed};
use vstd::prelude::*;
use vstd::string::StrSliceExecFns;

verus! {

/// What a line asks for.
#[derive(Clone, Debug, PartialEq, Eq)]
pub enum Command {
    /// Leave.
    Exit,
    /// Open a teaching session.
    Teach,
    /// Teach the `key=value` lines of the named file.
    TeachFile(String),
    /// Show every fact.
    Show,
    /// Forget everything.
    Reset,
    /// Write the facts to the named file as CSV.
    ExportCsv(String),
    /// Teach the rows of the named CSV file.
    ImportCsv(String),
    /// Write the facts to the named file as Markdown.
    ExportMarkdown(String),
    /// Anything else: a free-form query.
    Query(String),
}

/// A command as the contracts see it.
pub enum Request {
    Exit,
    Teach,
    TeachFile(Seq<char>),
    Show,
    Reset,
    ExportCsv(Seq<char>),
    ImportCsv(Seq<char>),
    ExportMarkdown(Seq<char>),
    Query(Seq<char>),
}

impl View for Command {
    type V = Request;

    open spec fn view(&self) -> Request {
        match self {
            Command::Exit => Request::Exit,
            Command::Teach => Request::Teach,
            Command::TeachFile(file) => Request::TeachFile(file@),
            Command::Show => Request::Show,
            Command::Reset => Request::Reset,
            Command::ExportCsv(file) => Request::ExportCsv(file@),
            Command::ImportCsv(file) => Request::ImportCsv(file@),
            Command::ExportMarkdown(file) => Request::ExportMarkdown(file@),
            Command::Query(text) => Request::Query(text@),
        }
    }
}

/// The answer to a query.
#[derive(Clone, Debug, PartialEq, Eq)]
pub enum Reply {
    /// The query was an expression, and this is what it comes to.
    Computed(String),
    /// The query fits a taught key, and this is the value taught for it.
    Recalled(String),
    /// Nothing is known about the query.
    Unknown,
}

/// A reply as the contracts see it.
pub enum Answer {
    Computed(Seq<char>),
    Recalled(Seq<char>),
    Unknown,
}

impl View for Reply {
    type V = Answer;

    open spec fn view(&self) -> Answer {
        match self {
            Reply::Computed(result) => Answer::Computed(result@),
            Reply::Recalled(value) => Answer::Recalled(value@),
            Reply::Unknown => Answer::Unknown,
        }
    }
}

/// The answer that a query gets. Where the query could be evaluated as an
/// expression, the result of that is the answer; otherwise the value of the
/// key that fits the query best; otherwise nothing is known.
pub open spec fn answer_of(
    query: Seq<char>,
    computed: Option<Seq<char>>,
    entries: Seq<Entry>,
) -> Answer {
    match computed {
        Some(result) => Answer::Computed(result),
        None => match recall(query, entries) {
            Some(value) => Answer::Recalled(value),
            None => Answer::Unknown,
        },
    }
}

/// What follows `word` in `input`, trimmed, where `input` begins with
/// `word`.
pub open spec fn argument(input: Seq<char>, word: Seq<char>) -> Option<Seq<char>> {
    if word.is_prefix_of(input) {
        Some(trimmed(input.skip(word.len() as int)))
    } else {
        None
    }
}

/// The request that a line stands for. The line is trimmed first. The words
/// `exit`, `teaching mode`, `show` and `reset` stand alone; `teach_file`,
/// `export_csv`, `import_csv` and `export_md` are followed by a blank and a
/// file name; every other line is a query.
pub open spec fn request_of(line: Seq<char>) -> Request {
    let input = trimmed(line);
    if input == "exit"@ {
        Request::Exit
    } else if input == "teaching mode"@ {
        Request::Teach
    } else if argument(input, "teach_file "@) is Some {
        Request::TeachFile(argument(input, "teach_file "@)->0)
    } else if input == "show"@ {
        Request::Show
    } else if input == "reset"@ {
        Request::Reset
    } else if argument(input, "export_csv "@) is Some {
        Request::ExportCsv(argument(input, "export_csv "@)->0)
    } else if argument(input, "import_csv "@) is Some {
        Request::ImportCsv(argument(input, "import_csv "@)->0)
    } else if argument(input, "export_md "@) is Some {
        Request::ExportMarkdown(argument(input, "export_md "@)->0)
    } else {
        Request::Query(input)
    }
}

/// What follows `word` in `input`, trimmed, if `input` begins with `word`.
pub fn argument_of(input: &str, word: &str) -> (rest: Option<String>)
    ensures
        rest.deep_view() == argument(input@, word@),
{
    if starts_with(input, word) {
        let from = word.unicode_len();
        let to = input.unicode_len();
        Some(trim(input.substring_char(from, to)).to_owned())
    } else {
        None
    }
}

/// Reads a line typed at the prompt.
pub fn parse_command(line: &str) -> (command: Command)
    ensures
        command@ == request_of(line@),
{
    let input = trim(line);
    if text_eq(input, "exit") {
        return Command::Exit;
    }
    if text_eq(input, "teaching mode") {
        return Command::Teach;
    }
    if let Some(file) = argument_of(input, "teach_file ") {
        return Command::TeachFile(file);
    }
    if text_eq(input, "show") {
        return Command::Show;
    }
    if text_eq(input, "reset") {
        return Command::Reset;
    }
    if let Some(file) = argument_of(input, "export_csv ") {
        return Command::ExportCsv(file);
    }
    if let Some(file) = argument_of(input, "import_csv ") {
        return Command::ImportCsv(file);
    }
    if let Some(file) = argument_of(input, "export_md ") {
        return Command::ExportMarkdown(file);
    }
    Command::Query(input.to_owned())
}

/// Answers a query. `computed` is what evaluating the query as an expression
/// gave, if it could be evaluated; the knowledge base is asked only where it
/// could not.
pub fn reply(kb: &KnowledgeBase, query: &str, computed: Option<String>) -> (answer: Reply)
    ensures
        answer@ == answer_of(query@, computed.deep_view(), kb@.entries),
{
    match computed {
        Some(result) => Reply::Computed(result),
        None => match kb.fuzzy_lookup(query) {
            Some(value) => Reply::Recalled(value.clone()),
            None => Reply::Unknown,
        },
    }
}

} // verus!
