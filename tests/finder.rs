use doodles::{AgeError, UpdateTimeFinder};
use git2::{Oid, Repository, Signature, Time};

fn repository(name: &str) -> Repository {
    Repository::init_bare(format!("/tmp/doodles_finder_tests/{name}")).unwrap()
}

fn commit(repo: &Repository, parent: Option<Oid>, time: i64, files: &[(&str, &[u8])]) -> Oid {
    let mut builder = repo.treebuilder(None).unwrap();
    for (name, data) in files {
        let blob = repo.blob(data).unwrap();
        builder.insert(name, blob, 0o100644).unwrap();
    }
    let tree = repo.find_tree(builder.write().unwrap()).unwrap();
    let signature = Signature::new("author", "author@example.com", &Time::new(time, 0)).unwrap();
    let parents: Vec<git2::Commit> = parent.map(|p| repo.find_commit(p).unwrap()).into_iter().collect();
    let parent_refs: Vec<&git2::Commit> = parents.iter().collect();
    repo.commit(None, &signature, &signature, "change", &tree, &parent_refs).unwrap()
}

#[test]
fn finder_unbroken_chain() {
    let repo = repository("unbroken");
    let c2 = commit(&repo, None, 100, &[("a.png", b"same")]);
    let c1 = commit(&repo, Some(c2), 200, &[("a.png", b"same"), ("b.png", b"x")]);
    let c0 = commit(&repo, Some(c1), 300, &[("a.png", b"same"), ("b.png", b"y")]);
    repo.set_head_detached(c0).unwrap();
    let finder = UpdateTimeFinder::new(&repo).unwrap();
    assert_eq!(finder.find("a.png"), Ok(100));
    let chain = finder.read_chain("a.png").unwrap();
    assert_eq!(chain.len(), 3);
}

#[test]
fn finder_content_change() {
    let repo = repository("changed");
    let c2 = commit(&repo, None, 100, &[("a.png", b"new")]);
    let c1 = commit(&repo, Some(c2), 200, &[("a.png", b"old")]);
    let c0 = commit(&repo, Some(c1), 300, &[("a.png", b"new")]);
    repo.set_head_detached(c0).unwrap();
    let finder = UpdateTimeFinder::new(&repo).unwrap();
    assert_eq!(finder.find("a.png"), Ok(300));
    assert_eq!(finder.read_chain("a.png").unwrap().len(), 2);
}

#[test]
fn finder_file_introduced_in_parent() {
    let repo = repository("introduced");
    let c2 = commit(&repo, None, 100, &[("b.png", b"x")]);
    let c1 = commit(&repo, Some(c2), 200, &[("a.png", b"v"), ("b.png", b"x")]);
    let c0 = commit(&repo, Some(c1), 300, &[("a.png", b"v"), ("b.png", b"z")]);
    repo.set_head_detached(c0).unwrap();
    let finder = UpdateTimeFinder::new(&repo).unwrap();
    assert_eq!(finder.find("a.png"), Ok(200));
    assert_eq!(finder.find("b.png"), Ok(300));
    assert_eq!(finder.find("a.png"), Ok(200));
}

#[test]
fn finder_missing_path() {
    let repo = repository("missing");
    let c0 = commit(&repo, None, 300, &[("a.png", b"v")]);
    repo.set_head_detached(c0).unwrap();
    let finder = UpdateTimeFinder::new(&repo).unwrap();
    assert_eq!(finder.find("nope.png"), Err(AgeError::PathNotFound));
    assert_eq!(finder.read_chain("nope.png").unwrap().len(), 1);
}
