use std::collections::{HashMap, VecDeque};

use workspace_version::tasks::{Action, Recurse, UnitState};

/// A workspace that exists in memory only: which raw reference leads to
/// which manifest, and which references each manifest holds.
struct World {
    resolves: HashMap<String, String>,
    manifests: HashMap<String, Result<Vec<String>, String>>,
}

impl World {
    fn new() -> Self {
        World { resolves: HashMap::new(), manifests: HashMap::new() }
    }

    fn link(&mut self, raw: &str, id: &str) {
        self.resolves.insert(raw.to_string(), id.to_string());
    }

    fn manifest(&mut self, id: &str, refs: &[&str]) {
        self.manifests.insert(id.to_string(), Ok(refs.iter().map(|r| r.to_string()).collect()));
    }

    fn broken(&mut self, id: &str, why: &str) {
        self.manifests.insert(id.to_string(), Err(why.to_string()));
    }

    fn resolve(&self, raw: &str) -> Result<String, String> {
        match self.resolves.get(raw) {
            Some(id) => Ok(id.clone()),
            None => Err(format!("{}: not found", raw)),
        }
    }
}

/// Runs a whole traversal. A unit runs whenever the engine waits. Returns
/// the result and the manifests for which a unit ran, in that order.
fn traverse(world: &World, root: &str) -> (Result<(), String>, Vec<String>) {
    let mut engine: Recurse<String, String> = Recurse::new();
    let mut started: VecDeque<String> = VecDeque::new();
    let mut visited: Vec<String> = Vec::new();
    engine.run(root.to_string());
    for _ in 0..10_000 {
        match engine.dispatch() {
            Action::Resolve(raw) => {
                if let Some(id) = engine.resolved(world.resolve(&raw)) {
                    started.push_back(id);
                }
            }
            Action::Wait => {
                let id = started.pop_front().expect("the engine waits for a unit");
                visited.push(id.clone());
                assert_eq!(engine.state(&id), UnitState::Running);
                match &world.manifests[&id] {
                    Ok(refs) => {
                        engine.discovered(&id, refs.clone());
                        engine.finished(&id, Ok(()));
                        assert_eq!(engine.state(&id), UnitState::Succeeded);
                    }
                    Err(why) => {
                        engine.finished(&id, Err(why.clone()));
                        assert_eq!(engine.state(&id), UnitState::Failed);
                    }
                }
            }
            Action::Done => {
                assert!(started.is_empty());
                return (engine.result(), visited);
            }
        }
    }
    panic!("the traversal does not end");
}

fn count(visited: &[String], id: &str) -> usize {
    visited.iter().filter(|v| v.as_str() == id).count()
}

#[test]
fn diamond_visits_the_shared_manifest_once() {
    let mut world = World::new();
    world.link(".", "/ws/Cargo.toml");
    world.link("/ws/a", "/ws/a/Cargo.toml");
    world.link("/ws/b", "/ws/b/Cargo.toml");
    world.link("/ws/a/../c", "/ws/c/Cargo.toml");
    world.link("/ws/b/../c", "/ws/c/Cargo.toml");
    world.manifest("/ws/Cargo.toml", &["/ws/a", "/ws/b"]);
    world.manifest("/ws/a/Cargo.toml", &["/ws/a/../c"]);
    world.manifest("/ws/b/Cargo.toml", &["/ws/b/../c"]);
    world.manifest("/ws/c/Cargo.toml", &[]);
    let (result, visited) = traverse(&world, ".");
    assert_eq!(result, Ok(()));
    assert_eq!(visited.len(), 4);
    assert_eq!(count(&visited, "/ws/Cargo.toml"), 1);
    assert_eq!(count(&visited, "/ws/a/Cargo.toml"), 1);
    assert_eq!(count(&visited, "/ws/b/Cargo.toml"), 1);
    assert_eq!(count(&visited, "/ws/c/Cargo.toml"), 1);
}

#[test]
fn cycle_ends_and_visits_each_once() {
    let mut world = World::new();
    world.link(".", "/ws/Cargo.toml");
    world.link("/ws/a", "/ws/a/Cargo.toml");
    world.link("/ws/a/..", "/ws/Cargo.toml");
    world.manifest("/ws/Cargo.toml", &["/ws/a"]);
    world.manifest("/ws/a/Cargo.toml", &["/ws/a/.."]);
    let (result, visited) = traverse(&world, ".");
    assert_eq!(result, Ok(()));
    assert_eq!(visited, vec!["/ws/Cargo.toml".to_string(), "/ws/a/Cargo.toml".to_string()]);
}

#[test]
fn self_reference_is_absorbed() {
    let mut world = World::new();
    world.link(".", "/ws/Cargo.toml");
    world.link("/ws/.", "/ws/Cargo.toml");
    world.manifest("/ws/Cargo.toml", &["/ws/."]);
    let (result, visited) = traverse(&world, ".");
    assert_eq!(result, Ok(()));
    assert_eq!(visited, vec!["/ws/Cargo.toml".to_string()]);
}

#[test]
fn manifest_without_references_is_one_unit() {
    let mut world = World::new();
    world.link(".", "/ws/Cargo.toml");
    world.manifest("/ws/Cargo.toml", &[]);
    let (result, visited) = traverse(&world, ".");
    assert_eq!(result, Ok(()));
    assert_eq!(visited.len(), 1);
}

#[test]
fn missing_dependency_fails_the_run_after_the_root_is_done() {
    let mut world = World::new();
    world.link(".", "/ws/Cargo.toml");
    world.manifest("/ws/Cargo.toml", &["/ws/libs/foo"]);
    let (result, visited) = traverse(&world, ".");
    assert_eq!(result, Err("/ws/libs/foo: not found".to_string()));
    assert_eq!(visited, vec!["/ws/Cargo.toml".to_string()]);
}

#[test]
fn unresolved_reference_does_not_block_the_others() {
    let mut world = World::new();
    world.link(".", "/ws/Cargo.toml");
    world.link("/ws/a", "/ws/a/Cargo.toml");
    world.link("/ws/b", "/ws/b/Cargo.toml");
    world.manifest("/ws/Cargo.toml", &["/ws/a", "/ws/gone", "/ws/b"]);
    world.manifest("/ws/a/Cargo.toml", &[]);
    world.manifest("/ws/b/Cargo.toml", &[]);
    let (result, visited) = traverse(&world, ".");
    assert_eq!(result, Err("/ws/gone: not found".to_string()));
    assert_eq!(count(&visited, "/ws/a/Cargo.toml"), 1);
    assert_eq!(count(&visited, "/ws/b/Cargo.toml"), 1);
}

#[test]
fn unresolved_root_fails_without_any_unit() {
    let world = World::new();
    let (result, visited) = traverse(&world, ".");
    assert_eq!(result, Err(".: not found".to_string()));
    assert!(visited.is_empty());
}

#[test]
fn first_failure_is_the_result() {
    let mut world = World::new();
    world.link(".", "/ws/Cargo.toml");
    world.link("/ws/a", "/ws/a/Cargo.toml");
    world.manifest("/ws/Cargo.toml", &["/ws/gone", "/ws/a"]);
    world.broken("/ws/a/Cargo.toml", "/ws/a/Cargo.toml: not a document");
    let (result, visited) = traverse(&world, ".");
    assert_eq!(result, Err("/ws/gone: not found".to_string()));
    assert_eq!(count(&visited, "/ws/a/Cargo.toml"), 1);
}

#[test]
fn new_engine_is_done_at_once() {
    let mut engine: Recurse<String, String> = Recurse::new();
    assert!(matches!(engine.dispatch(), Action::Done));
    assert_eq!(engine.result(), Ok(()));
}

#[test]
fn dispatch_hands_out_references_oldest_first() {
    let mut engine: Recurse<String, String> = Recurse::new();
    engine.run("root".to_string());
    assert!(matches!(engine.dispatch(), Action::Resolve(r) if r == "root"));
    assert_eq!(engine.resolved(Ok("/root".to_string())), Some("/root".to_string()));
    engine.discovered("/root", vec!["a".to_string(), "b".to_string()]);
    assert!(matches!(engine.dispatch(), Action::Resolve(r) if r == "a"));
    assert_eq!(engine.resolved(Ok("/a".to_string())), Some("/a".to_string()));
    assert!(matches!(engine.dispatch(), Action::Resolve(r) if r == "b"));
    assert_eq!(engine.resolved(Ok("/b".to_string())), Some("/b".to_string()));
    assert!(matches!(engine.dispatch(), Action::Wait));
}

#[test]
fn one_resolution_at_a_time() {
    let mut engine: Recurse<String, String> = Recurse::new();
    engine.run("a".to_string());
    engine.run("b".to_string());
    assert!(matches!(engine.dispatch(), Action::Resolve(r) if r == "a"));
    assert!(matches!(engine.dispatch(), Action::Wait));
    assert_eq!(engine.resolved(Ok("/a".to_string())), Some("/a".to_string()));
    assert!(matches!(engine.dispatch(), Action::Resolve(r) if r == "b"));
}

#[test]
fn second_claim_of_an_identity_starts_nothing() {
    let mut engine: Recurse<String, String> = Recurse::new();
    engine.run("a".to_string());
    engine.run("./a".to_string());
    assert!(matches!(engine.dispatch(), Action::Resolve(_)));
    assert_eq!(engine.resolved(Ok("/a".to_string())), Some("/a".to_string()));
    assert!(matches!(engine.dispatch(), Action::Resolve(_)));
    assert_eq!(engine.resolved(Ok("/a".to_string())), None);
    assert!(matches!(engine.dispatch(), Action::Wait));
    engine.finished("/a", Ok(()));
    assert!(matches!(engine.dispatch(), Action::Done));
    assert_eq!(engine.result(), Ok(()));
}

#[test]
fn outcome_that_nobody_awaited_is_dropped() {
    let mut engine: Recurse<String, String> = Recurse::new();
    assert_eq!(engine.resolved(Ok("/a".to_string())), None);
    assert_eq!(engine.resolved(Err("lost".to_string())), None);
    engine.finished("/a", Err("nobody ran".to_string()));
    engine.discovered("/a", vec!["b".to_string()]);
    assert!(matches!(engine.dispatch(), Action::Done));
    assert_eq!(engine.result(), Ok(()));
}

#[test]
fn failed_unit_stops_new_units_but_not_running_ones() {
    let mut engine: Recurse<String, String> = Recurse::new();
    engine.run("a".to_string());
    engine.run("b".to_string());
    engine.run("c".to_string());
    assert!(matches!(engine.dispatch(), Action::Resolve(_)));
    assert_eq!(engine.resolved(Ok("/a".to_string())), Some("/a".to_string()));
    assert!(matches!(engine.dispatch(), Action::Resolve(_)));
    assert_eq!(engine.resolved(Ok("/b".to_string())), Some("/b".to_string()));
    engine.finished("/a", Err("a is broken".to_string()));
    // `c` is still queued, `b` still runs: the engine waits and starts nothing.
    assert!(matches!(engine.dispatch(), Action::Wait));
    assert_eq!(engine.state("/a"), UnitState::Failed);
    assert_eq!(engine.state("/b"), UnitState::Running);
    assert_eq!(engine.state("/c"), UnitState::Unseen);
    engine.finished("/b", Err("b is broken too".to_string()));
    assert!(matches!(engine.dispatch(), Action::Done));
    assert_eq!(engine.result(), Err("a is broken".to_string()));
}

#[test]
fn resolution_that_ends_after_a_failed_unit_starts_nothing() {
    let mut engine: Recurse<String, String> = Recurse::new();
    engine.run("a".to_string());
    engine.run("b".to_string());
    assert!(matches!(engine.dispatch(), Action::Resolve(_)));
    assert_eq!(engine.resolved(Ok("/a".to_string())), Some("/a".to_string()));
    assert!(matches!(engine.dispatch(), Action::Resolve(_)));
    engine.finished("/a", Err("a is broken".to_string()));
    assert!(matches!(engine.dispatch(), Action::Wait));
    assert_eq!(engine.resolved(Ok("/b".to_string())), None);
    assert_eq!(engine.state("/b"), UnitState::Unseen);
    assert!(matches!(engine.dispatch(), Action::Done));
    assert_eq!(engine.result(), Err("a is broken".to_string()));
}

#[test]
fn unit_ends_once() {
    let mut engine: Recurse<String, String> = Recurse::new();
    engine.run("a".to_string());
    engine.run("b".to_string());
    assert_eq!(engine.state("/a"), UnitState::Unseen);
    assert!(matches!(engine.dispatch(), Action::Resolve(_)));
    assert_eq!(engine.resolved(Ok("/a".to_string())), Some("/a".to_string()));
    assert!(matches!(engine.dispatch(), Action::Resolve(_)));
    assert_eq!(engine.resolved(Ok("/b".to_string())), Some("/b".to_string()));
    engine.finished("/a", Ok(()));
    assert_eq!(engine.state("/a"), UnitState::Succeeded);
    // A second report of the same unit does not end the other one, and a
    // unit that succeeded cannot fail any more.
    engine.finished("/a", Err("again".to_string()));
    assert_eq!(engine.state("/a"), UnitState::Succeeded);
    assert_eq!(engine.state("/b"), UnitState::Running);
    assert!(matches!(engine.dispatch(), Action::Wait));
    engine.finished("/b", Ok(()));
    assert!(matches!(engine.dispatch(), Action::Done));
    assert_eq!(engine.result(), Ok(()));
}

#[test]
fn references_of_a_unit_that_ended_are_dropped() {
    let mut engine: Recurse<String, String> = Recurse::new();
    engine.run("a".to_string());
    assert!(matches!(engine.dispatch(), Action::Resolve(_)));
    assert_eq!(engine.resolved(Ok("/a".to_string())), Some("/a".to_string()));
    engine.discovered("/nobody", vec!["x".to_string()]);
    engine.finished("/a", Ok(()));
    engine.discovered("/a", vec!["late".to_string()]);
    assert!(matches!(engine.dispatch(), Action::Done));
    assert_eq!(engine.result(), Ok(()));
}
