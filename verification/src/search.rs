//! Search of the browsed directory by file name: the rule that accepts a
//! file, the walk over the directories, and the list of results on display.
//!
//! Reading a directory is the caller's part. The walk says which directory
//! is due and takes its listing.

use crate::selection::display_file;
use crate::selection::is_displayed;
use vstd::prelude::*;

verus! {

pub enum SearchCommand {
    /// Search for the text below the root directory.
    Search(String, String, SearchOptions),
    Clear,
}

#[derive(Debug, Clone, Copy)]
pub struct SearchOptions {
    pub case_sensitive: bool,
}

impl Default for SearchOptions {
    fn default() -> (options: Self)
        ensures
            !options.case_sensitive,
    {
        SearchOptions { case_sensitive: false }
    }
}

/// Whether `needle` occurs in `text` as a run of consecutive characters.
pub open spec fn occurs_in(text: Seq<char>, needle: Seq<char>) -> bool {
    exists|start: int|
        0 <= start && start + needle.len() <= text.len() && #[trigger] text.subrange(start, start + needle.len())
            == needle
}

/// `str::contains` with a string as the pattern: whether the pattern matches
/// a part of the text.
#[verifier::external_body]
fn contains_text(text: &str, needle: &str) -> (found: bool)
    ensures
        found == occurs_in(text@, needle@),
{
    text.contains(needle)
}

/// The lower-case form of a text by the Unicode rules of the standard
/// library.
pub uninterp spec fn lowercase_of(text: Seq<char>) -> Seq<char>;

/// `str::to_lowercase`: the lower-case form of the text.
#[verifier::external_body]
fn to_lowercase(text: &str) -> (lowered: String)
    ensures
        lowered@ == lowercase_of(text@),
{
    text.to_lowercase()
}

/// Whether the text matches a name, given both also in lower case: the text
/// occurs in the name as it is written, or, unless case matters, in lower
/// case.
pub open spec fn matches_name(
    filename: Seq<char>,
    searched: Seq<char>,
    lowered_filename: Seq<char>,
    lowered_searched: Seq<char>,
    options: SearchOptions,
) -> bool {
    occurs_in(filename, searched) || (!options.case_sensitive && occurs_in(lowered_filename, lowered_searched))
}

/// Whether a file of this name is a result of the search: the text matches
/// the name, and the file is one that the browser offers.
pub fn accept_name(
    filename: &str,
    searched: &str,
    lowered_filename: &str,
    lowered_searched: &str,
    options: &SearchOptions,
) -> (accepted: bool)
    ensures
        accepted == (matches_name(filename@, searched@, lowered_filename@, lowered_searched@, *options)
            && is_displayed(filename@)),
{
    let accept = if options.case_sensitive {
        contains_text(filename, searched)
    } else {
        contains_text(filename, searched) || contains_text(lowered_filename, lowered_searched)
    };
    accept && display_file(filename)
}

/// Whether a file of this name is a result of the search for `searched`.
pub open spec fn accepts(filename: Seq<char>, searched: Seq<char>, options: SearchOptions) -> bool {
    matches_name(filename, searched, lowercase_of(filename), lowercase_of(searched), options) && is_displayed(
        filename,
    )
}

pub fn accept_entry(filename: &str, searched: &str, options: &SearchOptions) -> (accepted: bool)
    ensures
        accepted == accepts(filename@, searched@, *options),
{
    let lowered_filename = to_lowercase(filename);
    let lowered_searched = to_lowercase(searched);
    accept_name(filename, searched, lowered_filename.as_str(), lowered_searched.as_str(), options)
}

/// An entry of a directory as it was read from disk.
#[derive(Debug, Clone)]
pub struct DirEntry {
    pub name: String,
    pub path: String,
    pub is_directory: bool,
    pub is_file: bool,
}

/// A result of the search.
#[derive(Debug, Clone)]
pub struct Found {
    pub path: String,
    pub is_directory: bool,
}

/// The directories among `entries` that the walk has yet to visit, in order.
pub open spec fn subdirectories(entries: Seq<DirEntry>) -> Seq<String>
    decreases entries.len(),
{
    if entries.len() == 0 {
        Seq::empty()
    } else {
        let before = subdirectories(entries.drop_last());
        if entries.last().is_directory {
            before.push(entries.last().path)
        } else {
            before
        }
    }
}

/// The results among `entries`, in order: directories and files whose name
/// the search accepts.
pub open spec fn results_of(entries: Seq<DirEntry>, searched: Seq<char>, options: SearchOptions) -> Seq<Found>
    decreases entries.len(),
{
    if entries.len() == 0 {
        Seq::empty()
    } else {
        let before = results_of(entries.drop_last(), searched, options);
        let entry = entries.last();
        if (entry.is_directory || entry.is_file) && accepts(entry.name@, searched, options) {
            before.push(Found { path: entry.path, is_directory: entry.is_directory })
        } else {
            before
        }
    }
}

/// One step of the walk: the directory on top of the stack is taken off;
/// `listing` is what reading it gave, or nothing where it could not be read.
/// Its subdirectories go onto the stack, and its accepted entries are the
/// results of the step.
pub fn search_filesystem(
    stack: &mut Vec<String>,
    listing: Option<Vec<DirEntry>>,
    searched: &str,
    options: &SearchOptions,
) -> (results: Vec<Found>)
    ensures
        old(stack)@.len() == 0 ==> final(stack)@.len() == 0 && results@.len() == 0,
        old(stack)@.len() > 0 ==> match listing {
            Some(entries) => final(stack)@ == old(stack)@.drop_last() + subdirectories(entries@) && results@
                == results_of(entries@, searched@, *options),
            None => final(stack)@ == old(stack)@.drop_last() && results@.len() == 0,
        },
{
    let mut results: Vec<Found> = Vec::new();
    if stack.len() == 0 {
        return results;
    }
    stack.pop();
    let ghost rest = stack@;
    match listing {
        Some(entries) => {
            let mut entries = entries;
            let ghost all = entries@;
            let mut reversed: Vec<DirEntry> = Vec::new();
            while entries.len() > 0
                invariant
                    reversed@.len() + entries@.len() == all.len(),
                    forall|i: int| 0 <= i < entries@.len() ==> entries@[i] == all[i],
                    forall|i: int| 0 <= i < reversed@.len() ==> reversed@[i] == all[all.len() - 1 - i],
                decreases entries@.len(),
            {
                let entry = entries.pop().unwrap();
                reversed.push(entry);
            }
            let ghost mut taken: int = 0;
            assert(all.take(0) =~= Seq::empty());
            while reversed.len() > 0
                invariant
                    0 <= taken,
                    taken + reversed@.len() == all.len(),
                    forall|i: int| 0 <= i < reversed@.len() ==> reversed@[i] == all[all.len() - 1 - i],
                    stack@ == rest + subdirectories(all.take(taken)),
                    results@ == results_of(all.take(taken), searched@, *options),
                decreases reversed@.len(),
            {
                let entry = reversed.pop().unwrap();
                proof {
                    assert(entry == all[taken]);
                    assert(all.take(taken + 1).drop_last() =~= all.take(taken));
                    assert(all.take(taken + 1).last() == entry);
                }
                if entry.is_directory || entry.is_file {
                    let accepted = accept_entry(entry.name.as_str(), searched, options);
                    if entry.is_directory {
                        stack.push(entry.path.clone());
                    }
                    if accepted {
                        results.push(Found { path: entry.path, is_directory: entry.is_directory });
                    }
                }
                proof {
                    taken = taken + 1;
                    assert(stack@ =~= rest + subdirectories(all.take(taken)));
                }
            }
            assert(all.take(taken) =~= all);
        },
        None => {},
    }
    results
}

pub enum SearchState {
    Idle,
    /// The text searched for, the directories yet to visit, the options.
    Search(String, Vec<String>, SearchOptions),
}

/// What the walk can meet: a command; the listing of the directory that was
/// due, or nothing where there is no command and no listing to be had.
pub enum Event {
    Command(SearchCommand),
    Listing(Option<Vec<DirEntry>>),
}

#[derive(Debug, Clone)]
pub enum Message {
    /// The walk's command queue is open.
    Initialized,
    SearchTextChanged(String),
    SearchStarted,
    SearchFinished,
    FoundResults(Vec<Found>),
    ClearResults,
    Selected(Option<usize>),
    SelectPrevious,
    SelectNext,
}

impl SearchState {
    /// The directory whose listing the walk needs next.
    pub open spec fn due(self) -> Option<String> {
        match self {
            SearchState::Search(_, stack, _) => if stack@.len() > 0 {
                Some(stack@.last())
            } else {
                None
            },
            SearchState::Idle => None,
        }
    }

    pub fn next_directory(&self) -> (directory: Option<&String>)
        ensures
            match directory {
                Some(path) => self.due() == Some(*path),
                None => self.due().is_none(),
            },
    {
        match self {
            SearchState::Search(_, stack, _) => {
                if stack.len() > 0 {
                    Some(&stack[stack.len() - 1])
                } else {
                    None
                }
            },
            SearchState::Idle => None,
        }
    }
}

/// A fresh walk for a command to search.
pub open spec fn begun(searched: String, root: String, options: SearchOptions, next: SearchState) -> bool {
    next matches SearchState::Search(text, stack, chosen) && (text == searched && stack@ == seq![root] && chosen
        == options)
}

/// One turn of the walk: `next` is the state after `event`, `messages` what
/// the display is sent.
///
/// An idle walk begins with a command to search and ignores all else. A walk
/// in progress begins anew with a command to search, announcing it; a command
/// to clear ends it and clears the results. Without a command it takes the
/// listing of the directory that is due and reports the results, or, when no
/// directory is left, finishes.
pub open spec fn turned(state: SearchState, event: Event, next: SearchState, messages: Seq<Message>) -> bool {
    match state {
        SearchState::Idle => messages.len() == 0 && match event {
            Event::Command(SearchCommand::Search(searched, root, options)) => begun(searched, root, options, next),
            _ => next is Idle,
        },
        SearchState::Search(searched, stack, options) => {
            &&& messages.len() == 1
            &&& match event {
                Event::Command(SearchCommand::Search(text, root, chosen)) => begun(text, root, chosen, next)
                    && messages[0] is SearchStarted,
                Event::Command(SearchCommand::Clear) => next is Idle && messages[0] is ClearResults,
                Event::Listing(listing) => if stack@.len() == 0 {
                    next is Idle && messages[0] is SearchFinished
                } else {
                    &&& next matches SearchState::Search(text, rest, chosen) && (text == searched && chosen == options
                        && rest@ == match listing {
                        Some(entries) => stack@.drop_last() + subdirectories(entries@),
                        None => stack@.drop_last(),
                    })
                    &&& messages[0] matches Message::FoundResults(results) && results@ == match listing {
                        Some(entries) => results_of(entries@, searched@, options),
                        None => Seq::empty(),
                    }
                },
            }
        },
    }
}

pub fn search_new(state: SearchState, event: Event) -> (next: (SearchState, Vec<Message>))
    ensures
        turned(state, event, next.0, next.1@),
{
    let mut messages: Vec<Message> = Vec::new();
    match state {
        SearchState::Idle => {
            match event {
                Event::Command(SearchCommand::Search(searched, root_directory, options)) => {
                    let mut stack: Vec<String> = Vec::new();
                    stack.push(root_directory);
                    assert(stack@ =~= seq![root_directory]);
                    (SearchState::Search(searched, stack, options), messages)
                },
                _ => (SearchState::Idle, messages),
            }
        },
        SearchState::Search(searched, mut directories_to_visit, options) => {
            match event {
                Event::Command(SearchCommand::Search(text, root_directory, chosen)) => {
                    let mut stack: Vec<String> = Vec::new();
                    stack.push(root_directory);
                    assert(stack@ =~= seq![root_directory]);
                    messages.push(Message::SearchStarted);
                    (SearchState::Search(text, stack, chosen), messages)
                },
                Event::Command(SearchCommand::Clear) => {
                    messages.push(Message::ClearResults);
                    (SearchState::Idle, messages)
                },
                Event::Listing(listing) => {
                    if directories_to_visit.len() == 0 {
                        messages.push(Message::SearchFinished);
                        (SearchState::Idle, messages)
                    } else {
                        let results = search_filesystem(
                            &mut directories_to_visit,
                            listing,
                            searched.as_str(),
                            &options,
                        );
                        assert(results@.len() == 0 ==> results@ =~= Seq::empty());
                        messages.push(Message::FoundResults(results));
                        (SearchState::Search(searched, directories_to_visit, options), messages)
                    }
                },
            }
        },
    }
}

/// Which list the browser shows.
pub enum ListView {
    Explorer,
    Search,
}

/// What the caller has to do after a message.
pub enum Effect {
    Nothing,
    /// Send this command to the walk.
    Send(SearchCommand),
    /// Send `Selected` with this result.
    Select(Option<usize>),
    /// The selection is now the file at this path, or nothing.
    SelectFile(Option<String>),
}

/// The search as a mathematical value.
pub struct Listing {
    pub input: Seq<char>,
    pub connected: bool,
    pub root_path: Seq<char>,
    pub results: Seq<Found>,
    pub options: SearchOptions,
    pub selected: Option<usize>,
}

impl Listing {
    /// The search after `message`.
    pub open spec fn apply(self, message: Message) -> Listing {
        match message {
            Message::Initialized => Listing { connected: true, ..self },
            Message::SearchTextChanged(text) => Listing { input: text@, results: Seq::empty(), ..self },
            Message::SearchStarted => Listing { results: Seq::empty(), ..self },
            Message::SearchFinished => self,
            Message::FoundResults(found) => Listing { results: self.results + found@, ..self },
            Message::ClearResults => Listing { results: Seq::empty(), ..self },
            Message::Selected(selected) => Listing { selected, ..self },
            Message::SelectPrevious => self,
            Message::SelectNext => self,
        }
    }

    /// The list that the browser shows after `message`, having shown `view`.
    pub open spec fn view_after(self, message: Message, view: ListView) -> ListView {
        match message {
            Message::SearchTextChanged(text) => if text@.len() == 0 {
                ListView::Explorer
            } else {
                ListView::Search
            },
            Message::SearchStarted => ListView::Search,
            _ => view,
        }
    }

    /// `effect` is what `message` asks of the caller.
    pub open spec fn effect_of(self, message: Message, effect: Effect) -> bool {
        match message {
            Message::SearchTextChanged(text) => if !self.connected {
                effect == Effect::Nothing
            } else if text@.len() == 0 {
                effect == Effect::Send(SearchCommand::Clear)
            } else {
                effect matches Effect::Send(SearchCommand::Search(searched, root, options)) && (searched == text
                    && root@ == self.root_path && options == self.options)
            },
            Message::Selected(selected) => match selected {
                Some(index) => if index < self.results.len() {
                    effect == Effect::SelectFile(Some(self.results[index as int].path))
                } else {
                    effect == Effect::SelectFile(None)
                },
                None => effect == Effect::SelectFile(None),
            },
            Message::SelectPrevious => match self.selected {
                Some(index) => if index > 0 {
                    effect == Effect::Select(Some((index - 1) as usize))
                } else {
                    effect == Effect::Nothing
                },
                None => effect == Effect::Nothing,
            },
            Message::SelectNext => match self.selected {
                Some(index) => if index + 1 < self.results.len() {
                    effect == Effect::Select(Some((index + 1) as usize))
                } else {
                    effect == Effect::Nothing
                },
                None => effect == Effect::Nothing,
            },
            _ => effect == Effect::Nothing,
        }
    }
}

pub struct Search {
    input: String,
    connected: bool,
    root_path: String,
    results: Vec<Found>,
    search_options: SearchOptions,
    selected: Option<usize>,
}

impl Search {
    pub closed spec fn view(&self) -> Listing {
        Listing {
            input: self.input@,
            connected: self.connected,
            root_path: self.root_path@,
            results: self.results@,
            options: self.search_options,
            selected: self.selected,
        }
    }

    pub fn new() -> (search: Self)
        ensures
            search@ == (Listing {
                input: Seq::empty(),
                connected: false,
                root_path: Seq::empty(),
                results: Seq::empty(),
                options: SearchOptions { case_sensitive: false },
                selected: None,
            }),
    {
        Search {
            input: String::new(),
            connected: false,
            root_path: String::new(),
            results: Vec::new(),
            search_options: SearchOptions { case_sensitive: false },
            selected: None,
        }
    }

    pub fn set_root_path(&mut self, path: String)
        ensures
            final(self)@ == (Listing { root_path: path@, ..old(self)@ }),
    {
        self.root_path = path;
    }

    /// Takes one message, see `Listing::apply`, and says which list the
    /// browser is to show now.
    pub fn update(&mut self, message: Message, view: &mut ListView) -> (effect: Effect)
        ensures
            final(self)@ == old(self)@.apply(message),
            *final(view) == old(self)@.view_after(message, *old(view)),
            old(self)@.effect_of(message, effect),
    {
        match message {
            Message::Initialized => {
                self.connected = true;
                Effect::Nothing
            },
            Message::SearchTextChanged(text) => {
                self.input = text.clone();
                self.results.clear();
                if text.as_str().unicode_len() == 0 {
                    *view = ListView::Explorer;
                    if self.connected {
                        Effect::Send(SearchCommand::Clear)
                    } else {
                        Effect::Nothing
                    }
                } else {
                    *view = ListView::Search;
                    if self.connected {
                        Effect::Send(SearchCommand::Search(text, self.root_path.clone(), self.search_options))
                    } else {
                        Effect::Nothing
                    }
                }
            },
            Message::FoundResults(results) => {
                let mut results = results;
                self.results.append(&mut results);
                Effect::Nothing
            },
            Message::SearchStarted => {
                self.results.clear();
                *view = ListView::Search;
                Effect::Nothing
            },
            Message::SearchFinished => Effect::Nothing,
            Message::ClearResults => {
                self.results.clear();
                Effect::Nothing
            },
            Message::Selected(selected) => {
                self.selected = selected;
                match selected {
                    Some(index) => {
                        if index < self.results.len() {
                            Effect::SelectFile(Some(self.results[index].path.clone()))
                        } else {
                            Effect::SelectFile(None)
                        }
                    },
                    None => Effect::SelectFile(None),
                }
            },
            Message::SelectPrevious => {
                match self.selected {
                    Some(selected) => {
                        if selected > 0 {
                            Effect::Select(Some(selected - 1))
                        } else {
                            Effect::Nothing
                        }
                    },
                    None => Effect::Nothing,
                }
            },
            Message::SelectNext => {
                match self.selected {
                    Some(selected) => {
                        if selected < self.results.len() && selected + 1 < self.results.len() {
                            Effect::Select(Some(selected + 1))
                        } else {
                            Effect::Nothing
                        }
                    },
                    None => Effect::Nothing,
                }
            },
        }
    }

    /// The results on display.
    pub fn results(&self) -> (results: &Vec<Found>)
        ensures
            results@ == self@.results,
    {
        &self.results
    }

    /// The text in the search field.
    pub fn input(&self) -> (input: &String)
        ensures
            input@ == self@.input,
    {
        &self.input
    }

    pub fn selected(&self) -> (selected: Option<usize>)
        ensures
            selected == self@.selected,
    {
        self.selected
    }
}

} // verus!
