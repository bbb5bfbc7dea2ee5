use sample_explorer::search::{
    accept_entry, accept_name, search_filesystem, search_new, DirEntry, Effect, Event, Found, ListView, Message,
    Search, SearchCommand, SearchOptions, SearchState,
};

fn entry(name: &str, is_directory: bool) -> DirEntry {
    DirEntry { name: name.to_string(), path: format!("/samples/{}", name), is_directory, is_file: !is_directory }
}

fn paths(results: &[Found]) -> Vec<(String, bool)> {
    results.iter().map(|found| (found.path.clone(), found.is_directory)).collect()
}

fn insensitive() -> SearchOptions {
    SearchOptions::default()
}

fn sensitive() -> SearchOptions {
    SearchOptions { case_sensitive: true }
}

#[test]
fn options_ignore_case_by_default() {
    assert!(!SearchOptions::default().case_sensitive);
}

#[test]
fn accepts_a_name_that_holds_the_text() {
    assert!(accept_entry("kick_long.wav", "kick", &sensitive()));
    assert!(accept_entry("kick_long.wav", "long", &sensitive()));
    assert!(accept_entry("kick_long.wav", ".wav", &sensitive()));
    assert!(accept_entry("kick_long.wav", "", &sensitive()));
    assert!(!accept_entry("kick_long.wav", "snare", &sensitive()));
    assert!(!accept_entry("kick_long.wav", "kicklong", &sensitive()));
}

#[test]
fn case_matters_only_when_asked_for() {
    assert!(!accept_entry("Kick.wav", "kick", &sensitive()));
    assert!(accept_entry("Kick.wav", "kick", &insensitive()));
    assert!(accept_entry("kick.wav", "KICK", &insensitive()));
    assert!(accept_entry("ÉTÉ.wav", "été", &insensitive()));
    assert!(!accept_entry("ÉTÉ.wav", "été", &sensitive()));
}

#[test]
fn only_displayed_files_are_accepted() {
    assert!(!accept_entry("kick.txt", "kick", &insensitive()));
    assert!(!accept_entry(".kick.wav", "kick", &insensitive()));
    assert!(!accept_entry("kick.mid", "kick", &insensitive()));
    assert!(!accept_entry("kick", "kick", &insensitive()));
}

#[test]
fn accept_name_goes_by_the_lowered_texts_it_is_given() {
    assert!(accept_name("Kick.wav", "kick", "kick.wav", "kick", &insensitive()));
    assert!(!accept_name("Kick.wav", "kick", "kick.wav", "kick", &sensitive()));
    assert!(!accept_name("Kick.wav", "kick", "Kick.wav", "kick", &insensitive()));
    assert!(accept_name("kick.wav", "kick", "", "x", &sensitive()));
    assert!(!accept_name("kick.txt", "kick", "kick.txt", "kick", &insensitive()));
}

#[test]
fn step_takes_the_top_directory_and_adds_its_subdirectories() {
    let mut stack = vec!["/a".to_string(), "/samples".to_string()];
    let listing = vec![
        entry("drums", true),
        entry("kick.wav", false),
        entry("readme.txt", false),
        entry("kicks.wav", true),
        entry("snare.wav", false),
    ];
    let results = search_filesystem(&mut stack, Some(listing), "kick", &insensitive());
    assert_eq!(stack, vec!["/a".to_string(), "/samples/drums".to_string(), "/samples/kicks.wav".to_string()]);
    assert_eq!(
        paths(&results),
        vec![("/samples/kick.wav".to_string(), false), ("/samples/kicks.wav".to_string(), true)]
    );
}

#[test]
fn step_skips_what_is_neither_file_nor_directory() {
    let mut stack = vec!["/samples".to_string()];
    let link = DirEntry { name: "kick.wav".to_string(), path: "/samples/kick.wav".to_string(), is_directory: false, is_file: false };
    let results = search_filesystem(&mut stack, Some(vec![link]), "kick", &insensitive());
    assert!(stack.is_empty());
    assert!(results.is_empty());
}

#[test]
fn step_over_an_unreadable_directory_only_takes_it_off() {
    let mut stack = vec!["/a".to_string(), "/b".to_string()];
    let results = search_filesystem(&mut stack, None, "kick", &insensitive());
    assert_eq!(stack, vec!["/a".to_string()]);
    assert!(results.is_empty());
    let mut empty: Vec<String> = Vec::new();
    let results = search_filesystem(&mut empty, Some(vec![entry("kick.wav", false)]), "kick", &insensitive());
    assert!(empty.is_empty());
    assert!(results.is_empty());
}

#[test]
fn idle_walk_begins_with_a_search() {
    let (state, messages) = search_new(SearchState::Idle, Event::Command(SearchCommand::Clear));
    assert!(matches!(state, SearchState::Idle));
    assert!(messages.is_empty());
    let (state, messages) = search_new(state, Event::Listing(None));
    assert!(matches!(state, SearchState::Idle));
    assert!(messages.is_empty());
    let command = SearchCommand::Search("kick".to_string(), "/samples".to_string(), insensitive());
    let (state, messages) = search_new(state, Event::Command(command));
    assert!(messages.is_empty());
    assert_eq!(state.next_directory(), Some(&"/samples".to_string()));
    assert!(matches!(&state, SearchState::Search(text, stack, _) if text == "kick" && stack.len() == 1));
}

#[test]
fn walk_reports_results_and_finishes() {
    let command = SearchCommand::Search("kick".to_string(), "/samples".to_string(), insensitive());
    let (state, _) = search_new(SearchState::Idle, Event::Command(command));
    let listing = vec![entry("drums", true), entry("kick.wav", false)];
    let (state, messages) = search_new(state, Event::Listing(Some(listing)));
    assert_eq!(messages.len(), 1);
    assert!(matches!(&messages[0], Message::FoundResults(found)
        if paths(found) == vec![("/samples/kick.wav".to_string(), false)]));
    assert_eq!(state.next_directory(), Some(&"/samples/drums".to_string()));
    let (state, messages) = search_new(state, Event::Listing(None));
    assert!(matches!(&messages[0], Message::FoundResults(found) if found.is_empty()));
    assert_eq!(state.next_directory(), None);
    let (state, messages) = search_new(state, Event::Listing(None));
    assert!(matches!(state, SearchState::Idle));
    assert_eq!(messages.len(), 1);
    assert!(matches!(messages[0], Message::SearchFinished));
}

#[test]
fn commands_interrupt_a_walk() {
    let command = SearchCommand::Search("kick".to_string(), "/samples".to_string(), insensitive());
    let (state, _) = search_new(SearchState::Idle, Event::Command(command));
    let command = SearchCommand::Search("snare".to_string(), "/other".to_string(), sensitive());
    let (state, messages) = search_new(state, Event::Command(command));
    assert_eq!(messages.len(), 1);
    assert!(matches!(messages[0], Message::SearchStarted));
    assert!(matches!(&state, SearchState::Search(text, stack, options)
        if text == "snare" && *stack == vec!["/other".to_string()] && options.case_sensitive));
    let (state, messages) = search_new(state, Event::Command(SearchCommand::Clear));
    assert!(matches!(state, SearchState::Idle));
    assert_eq!(messages.len(), 1);
    assert!(matches!(messages[0], Message::ClearResults));
}

fn connected() -> (Search, ListView) {
    let mut search = Search::new();
    let mut view = ListView::Explorer;
    search.set_root_path("/samples".to_string());
    assert!(matches!(search.update(Message::Initialized, &mut view), Effect::Nothing));
    (search, view)
}

fn found(path: &str) -> Found {
    Found { path: path.to_string(), is_directory: false }
}

#[test]
fn typing_starts_a_search_and_shows_the_results() {
    let (mut search, mut view) = connected();
    let effect = search.update(Message::SearchTextChanged("kick".to_string()), &mut view);
    assert!(matches!(effect, Effect::Send(SearchCommand::Search(text, root, options))
        if text == "kick" && root == "/samples" && !options.case_sensitive));
    assert!(matches!(view, ListView::Search));
    assert_eq!(search.input(), "kick");
}

#[test]
fn emptying_the_field_clears_and_shows_the_tree() {
    let (mut search, mut view) = connected();
    search.update(Message::SearchTextChanged("kick".to_string()), &mut view);
    search.update(Message::FoundResults(vec![found("/samples/kick.wav")]), &mut view);
    let effect = search.update(Message::SearchTextChanged(String::new()), &mut view);
    assert!(matches!(effect, Effect::Send(SearchCommand::Clear)));
    assert!(matches!(view, ListView::Explorer));
    assert!(search.results().is_empty());
}

#[test]
fn typing_before_the_walk_is_connected_sends_nothing() {
    let mut search = Search::new();
    let mut view = ListView::Explorer;
    let effect = search.update(Message::SearchTextChanged("kick".to_string()), &mut view);
    assert!(matches!(effect, Effect::Nothing));
    assert!(matches!(view, ListView::Search));
}

#[test]
fn results_accumulate_until_cleared() {
    let (mut search, mut view) = connected();
    search.update(Message::FoundResults(vec![found("/a.wav"), found("/b.wav")]), &mut view);
    search.update(Message::FoundResults(vec![found("/c.wav")]), &mut view);
    search.update(Message::SearchFinished, &mut view);
    assert_eq!(
        paths(search.results()),
        vec![("/a.wav".to_string(), false), ("/b.wav".to_string(), false), ("/c.wav".to_string(), false)]
    );
    assert!(matches!(view, ListView::Explorer));
    search.update(Message::SearchStarted, &mut view);
    assert!(search.results().is_empty());
    assert!(matches!(view, ListView::Search));
    search.update(Message::FoundResults(vec![found("/d.wav")]), &mut view);
    search.update(Message::ClearResults, &mut view);
    assert!(search.results().is_empty());
}

#[test]
fn selecting_a_result_selects_its_file() {
    let (mut search, mut view) = connected();
    search.update(Message::FoundResults(vec![found("/a.wav"), found("/b.wav")]), &mut view);
    let effect = search.update(Message::Selected(Some(1)), &mut view);
    assert!(matches!(effect, Effect::SelectFile(Some(path)) if path == "/b.wav"));
    assert_eq!(search.selected(), Some(1));
    assert!(matches!(search.update(Message::Selected(None), &mut view), Effect::SelectFile(None)));
    assert_eq!(search.selected(), None);
    assert!(matches!(search.update(Message::Selected(Some(2)), &mut view), Effect::SelectFile(None)));
}

#[test]
fn arrows_move_within_the_results() {
    let (mut search, mut view) = connected();
    search.update(Message::FoundResults(vec![found("/a.wav"), found("/b.wav")]), &mut view);
    assert!(matches!(search.update(Message::SelectNext, &mut view), Effect::Nothing));
    assert!(matches!(search.update(Message::SelectPrevious, &mut view), Effect::Nothing));
    search.update(Message::Selected(Some(0)), &mut view);
    assert!(matches!(search.update(Message::SelectPrevious, &mut view), Effect::Nothing));
    assert!(matches!(search.update(Message::SelectNext, &mut view), Effect::Select(Some(1))));
    search.update(Message::Selected(Some(1)), &mut view);
    assert!(matches!(search.update(Message::SelectNext, &mut view), Effect::Nothing));
    assert!(matches!(search.update(Message::SelectPrevious, &mut view), Effect::Select(Some(0))));
}
