//! Walks over a graph of commits.

use jj_commands::commit::CommitId;
use jj_commands::dag_walk::contains_id;
use jj_commands::dag_walk::heads;
use jj_commands::dag_walk::topo_order_reverse;
use jj_commands::id_map::IdMap;

fn id(name: &str) -> CommitId {
    CommitId::new(name.as_bytes().to_vec())
}

fn list(names: &str) -> Vec<CommitId> {
    names.chars().map(|name| id(&name.to_string())).collect()
}

/// A graph, each commit written with its parents behind it.
fn graph(commits: &[&str]) -> IdMap<Vec<CommitId>> {
    let mut graph = IdMap::new();
    for commit in commits {
        graph.insert(id(&commit[..1]), list(&commit[1..]));
    }
    graph
}

fn spell(ids: Vec<CommitId>) -> String {
    ids.into_iter().map(|id| String::from_utf8(id.bytes).unwrap()).collect()
}

fn order(start: &str, graph: &IdMap<Vec<CommitId>>) -> String {
    spell(topo_order_reverse(&list(start), graph).unwrap())
}

#[test]
fn heads_have_no_children() {
    let diamond = graph(&["dbc", "ba", "ca", "a"]);
    assert_eq!(spell(heads(&list("dbca"), &diamond)), "d");
    assert_eq!(spell(heads(&list("abcd"), &diamond)), "d");
    let forest = graph(&["ba", "a", "dc", "c"]);
    assert_eq!(spell(heads(&list("cdab"), &forest)), "db");
    assert_eq!(spell(heads(&list(""), &graph(&[]))), "");
}

#[test]
fn commits_come_before_their_parents() {
    let chain = graph(&["cb", "ba", "a"]);
    assert_eq!(order("c", &chain), "cba");
    let diamond = graph(&["dbc", "ba", "ca", "a"]);
    assert_eq!(order("d", &diamond), "dbca");
    assert_eq!(order("", &diamond), "");
}

#[test]
fn first_head_comes_first() {
    let forest = graph(&["ba", "a", "dc", "c"]);
    assert_eq!(order("bd", &forest), "badc");
    assert_eq!(order("db", &forest), "dcba");
    assert_eq!(order("bb", &forest), "ba");
}

#[test]
fn only_what_is_reached_is_listed() {
    let forest = graph(&["ba", "a", "dc", "c"]);
    assert_eq!(order("d", &forest), "dc");
    assert_eq!(order("a", &forest), "a");
}

#[test]
fn cycles_are_refused() {
    let cycle = graph(&["ab", "bc", "ca", "da"]);
    let found = topo_order_reverse(&list("d"), &cycle).unwrap_err();
    assert!(contains_id(&list("abc"), &found));
    let own_parent = graph(&["aa"]);
    assert!(topo_order_reverse(&list("a"), &own_parent).unwrap_err().same(&id("a")));
}

#[test]
fn cycles_out_of_reach_do_no_harm() {
    let graph = graph(&["ab", "ba", "dc", "c"]);
    assert_eq!(order("d", &graph), "dc");
}

#[test]
fn identifiers_are_compared_byte_by_byte() {
    assert!(id("ab").same(&id("ab")));
    assert!(!id("ab").same(&id("a")));
    assert!(!id("ab").same(&id("ac")));
    assert!(contains_id(&list("ab"), &id("b")));
    assert!(!contains_id(&list("ab"), &id("c")));
}
