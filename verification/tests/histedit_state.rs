//! What a history editor knows of the commits that it edits.

use jj_commands::commit::Commit;
use jj_commands::commit::CommitId;
use jj_commands::histedit::state::State;
use jj_commands::id_map::IdMap;

fn id(name: char) -> CommitId {
    CommitId::new(name.to_string().into_bytes())
}

/// Commits, each written with its parents behind it.
fn commits(written: &[&str]) -> Vec<Commit> {
    written
        .iter()
        .map(|text| {
            let mut names = text.chars();
            let own = id(names.next().unwrap());
            Commit::new(own, names.map(id).collect())
        })
        .collect()
}

fn spell(ids: &[CommitId]) -> String {
    ids.iter().map(|id| String::from_utf8(id.bytes.clone()).unwrap()).collect()
}

fn listed(map: &IdMap<Vec<CommitId>>, name: char) -> String {
    spell(map.get(&id(name)).unwrap())
}

#[test]
fn orders_are_as_given() {
    let state = State::new(commits(&["cb", "ba", "ar"]), commits(&[]));
    assert_eq!(spell(&state.original_order), "cba");
    assert_eq!(spell(&state.current_order), "cba");
    assert_eq!(state.commits.len(), 3);
    assert!(state.commits.get(&id('b')).unwrap().id.same(&id('b')));
}

#[test]
fn parents_are_kept_in_order() {
    let state = State::new(commits(&["dbc", "cr", "br"]), commits(&[]));
    assert_eq!(listed(&state.parents, 'd'), "bc");
    assert_eq!(listed(&state.parents, 'b'), "r");
    assert!(state.parents.get(&id('r')).is_none());
}

#[test]
fn external_parents_are_those_not_edited() {
    let state = State::new(commits(&["cbs", "br"]), commits(&[]));
    assert!(state.external_parents.contains(&id('r')));
    assert!(state.external_parents.contains(&id('s')));
    assert!(!state.external_parents.contains(&id('b')));
    assert!(!state.external_parents.contains(&id('c')));
}

#[test]
fn children_mirror_parents() {
    let state = State::new(commits(&["dbc", "ca", "ba", "ar"]), commits(&["xd", "yaq", "zr"]));
    assert_eq!(listed(&state.children, 'd'), "x");
    assert_eq!(listed(&state.children, 'c'), "d");
    assert_eq!(listed(&state.children, 'b'), "d");
    assert_eq!(listed(&state.children, 'a'), "bcy");
    assert!(state.children.get(&id('r')).is_none());
    assert!(state.external_children.contains(&id('x')));
    assert!(state.external_children.contains(&id('y')));
    assert!(state.external_children.contains(&id('z')));
    assert!(!state.external_children.contains(&id('d')));
}

#[test]
fn later_commit_with_the_same_identifier_counts() {
    let state = State::new(commits(&["ba", "ar", "bs"]), commits(&[]));
    assert_eq!(spell(&state.original_order), "bab");
    assert_eq!(state.commits.len(), 2);
    assert_eq!(listed(&state.parents, 'b'), "s");
    assert_eq!(listed(&state.children, 'a'), "");
}

#[test]
fn empty_history_has_no_commits() {
    let state = State::new(commits(&[]), commits(&["xa"]));
    assert_eq!(state.commits.len(), 0);
    assert_eq!(spell(&state.current_order), "");
    assert!(state.external_children.contains(&id('x')));
}

#[test]
fn reordering_puts_commits_before_their_parents() {
    let mut state = State::new(commits(&["ar", "ba", "cb"]), commits(&[]));
    state.update_commit_order();
    assert_eq!(spell(&state.original_order), "abc");
    assert_eq!(spell(&state.current_order), "cba");
}

#[test]
fn reordering_lists_every_commit_once() {
    let mut state = State::new(commits(&["ec", "dbc", "ca", "ba", "ar"]), commits(&[]));
    state.update_commit_order();
    let order = spell(&state.current_order);
    assert_eq!(order, "edbca");
    state.update_commit_order();
    assert_eq!(spell(&state.current_order), order);
}

#[test]
fn cycles_leave_no_order() {
    let state = State::new(commits(&["ca", "ab", "ba"]), commits(&[]));
    let found = state.commit_order().unwrap_err();
    assert!(found.same(&id('a')) || found.same(&id('b')));
    let state = State::new(commits(&["ba", "ar"]), commits(&[]));
    assert_eq!(spell(&state.commit_order().unwrap()), "ba");
}
