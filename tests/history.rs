use doodles::{resolve_age, AgeError, AgeWalk, CommitEntry};

fn at(time: i64, content: Option<&[u8]>) -> CommitEntry {
    CommitEntry { time, content: content.map(|c| c.to_vec()) }
}

#[test]
fn unbroken_chain_gives_oldest_time() {
    let id: &[u8] = &[1, 2, 3];
    let chain = vec![at(300, Some(id)), at(200, Some(id)), at(100, Some(id))];
    assert_eq!(resolve_age(&chain), Ok(100));
}

#[test]
fn content_change_gives_head_time() {
    let chain = vec![at(300, Some(&[1, 2, 3])), at(200, Some(&[9, 9, 9])), at(100, Some(&[1, 2, 3]))];
    assert_eq!(resolve_age(&chain), Ok(300));
}

#[test]
fn missing_path_is_an_error() {
    let chain = vec![at(300, None), at(200, Some(&[1]))];
    assert_eq!(resolve_age(&chain), Err(AgeError::PathNotFound));
    assert_eq!(resolve_age(&vec![]), Err(AgeError::PathNotFound));
}

#[test]
fn path_introduced_midway() {
    let id: &[u8] = &[7];
    let chain = vec![at(500, Some(id)), at(400, Some(id)), at(300, None), at(200, Some(id))];
    assert_eq!(resolve_age(&chain), Ok(400));
}

#[test]
fn single_commit_history() {
    assert_eq!(resolve_age(&vec![at(42, Some(&[5]))]), Ok(42));
}

#[test]
fn content_ids_compare_whole_bytes() {
    let chain = vec![at(300, Some(&[1, 2])), at(200, Some(&[1, 2, 0]))];
    assert_eq!(resolve_age(&chain), Ok(300));
}

#[test]
fn walk_steps_until_content_differs() {
    let mut walk = AgeWalk::start(&at(30, Some(&[4]))).unwrap();
    assert_eq!(walk.candidate, 30);
    walk.step(&at(20, Some(&[4])));
    assert!(!walk.done);
    assert_eq!(walk.candidate, 20);
    walk.step(&at(10, Some(&[5])));
    assert!(walk.done);
    assert_eq!(walk.candidate, 20);
    assert!(AgeWalk::start(&at(30, None)).is_err());
}
