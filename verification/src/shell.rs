//! The prompt of the two programs: which tool a typed line starts, and the
//! words it hands that tool (the line trimmed, then split on spaces).
use vstd::prelude::*;
use crate::text::{has_prefix, split_all, split_str, str_starts_with, string_views, trim_whitespace, trim_ws};

verus! {

/// What a line typed at the prompt asks for.
#[derive(Debug)]
pub enum MenuChoice {
    /// Start the thread-pool server with these words.
    Prethread(Vec<String>),
    /// Start the process-pool server with these words.
    Preforked(Vec<String>),
    /// Run the client with these words.
    HttpClient(Vec<String>),
    /// Run the stress script.
    Stress,
    /// Leave.
    Exit,
    /// A command this program knows but does nothing for.
    Idle,
    /// A line that names no command.
    Invalid,
}

/// What a menu choice holds.
pub enum MenuView {
    Prethread(Seq<Seq<char>>),
    Preforked(Seq<Seq<char>>),
    HttpClient(Seq<Seq<char>>),
    Stress,
    Exit,
    Idle,
    Invalid,
}

impl View for MenuChoice {
    type V = MenuView;

    open spec fn view(&self) -> MenuView {
        match self {
            MenuChoice::Prethread(w) => MenuView::Prethread(string_views(w@)),
            MenuChoice::Preforked(w) => MenuView::Preforked(string_views(w@)),
            MenuChoice::HttpClient(w) => MenuView::HttpClient(string_views(w@)),
            MenuChoice::Stress => MenuView::Stress,
            MenuChoice::Exit => MenuView::Exit,
            MenuChoice::Idle => MenuView::Idle,
            MenuChoice::Invalid => MenuView::Invalid,
        }
    }
}

/// The words of a typed line: the line without surrounding whitespace,
/// split on single spaces.
pub open spec fn line_words(input: Seq<char>) -> Seq<Seq<char>> {
    split_all(trim_ws(input), ' ')
}

/// The choice of the thread-pool program's prompt.
pub open spec fn thread_menu_spec(input: Seq<char>) -> MenuView {
    if has_prefix(input, "prethread-WebServer"@) {
        MenuView::Prethread(line_words(input))
    } else if has_prefix(input, "preforked-WebServer"@) {
        MenuView::Idle
    } else if has_prefix(input, "HTTPclient"@) {
        MenuView::HttpClient(line_words(input))
    } else if has_prefix(input, "stress"@) {
        MenuView::Stress
    } else if has_prefix(input, "exit"@) {
        MenuView::Exit
    } else {
        MenuView::Invalid
    }
}

/// The choice of the process-pool program's prompt: any line that starts
/// with `p` but not with `prethread-WebServer` starts the process pool.
pub open spec fn process_menu_spec(input: Seq<char>) -> MenuView {
    if has_prefix(input, "prethread-WebServer"@) {
        MenuView::Idle
    } else if has_prefix(input, "p"@) {
        MenuView::Preforked(line_words(input))
    } else if has_prefix(input, "HTTPclient"@) || has_prefix(input, "stress"@) {
        MenuView::Idle
    } else if has_prefix(input, "exit"@) {
        MenuView::Exit
    } else {
        MenuView::Invalid
    }
}

/// The words of a typed line.
pub fn words_of_line(input: &str) -> (r: Vec<String>)
    ensures
        string_views(r@) == line_words(input@),
{
    let trimmed = trim_whitespace(input);
    split_str(trimmed.as_str(), ' ')
}

/// Reads a line typed at the thread-pool program's prompt.
pub fn thread_menu(input: &str) -> (r: MenuChoice)
    ensures
        r@ == thread_menu_spec(input@),
{
    if str_starts_with(input, "prethread-WebServer") {
        MenuChoice::Prethread(words_of_line(input))
    } else if str_starts_with(input, "preforked-WebServer") {
        MenuChoice::Idle
    } else if str_starts_with(input, "HTTPclient") {
        MenuChoice::HttpClient(words_of_line(input))
    } else if str_starts_with(input, "stress") {
        MenuChoice::Stress
    } else if str_starts_with(input, "exit") {
        MenuChoice::Exit
    } else {
        MenuChoice::Invalid
    }
}

/// Reads a line typed at the process-pool program's prompt.
pub fn process_menu(input: &str) -> (r: MenuChoice)
    ensures
        r@ == process_menu_spec(input@),
{
    if str_starts_with(input, "prethread-WebServer") {
        MenuChoice::Idle
    } else if str_starts_with(input, "p") {
        MenuChoice::Preforked(words_of_line(input))
    } else if str_starts_with(input, "HTTPclient") || str_starts_with(input, "stress") {
        MenuChoice::Idle
    } else if str_starts_with(input, "exit") {
        MenuChoice::Exit
    } else {
        MenuChoice::Invalid
    }
}

} // verus!
