use vstd::prelude::*;

verus! {

/// What one commit of the first-parent chain holds for the path being asked
/// about: the commit's timestamp, and the path's content id in its tree
/// (`None` where the tree has no such path).
pub struct CommitEntry {
    pub time: i64,
    pub content: Option<Vec<u8>>,
}

/// Why a content age could not be found.
#[derive(Debug, Clone, Copy, PartialEq, Eq, Structural)]
pub enum AgeError {
    /// The path is not in the head commit's tree.
    PathNotFound,
    /// A commit, a tree or a tree entry could not be read.
    RepositoryCorrupt,
}

/// Whether `e` carries exactly the content `id` for the path.
pub open spec fn holds(e: CommitEntry, id: Seq<u8>) -> bool {
    match e.content {
        Some(v) => v@ == id,
        None => false,
    }
}

/// Number of leading commits of `chain` that carry the content `id`.
pub open spec fn run_length(chain: Seq<CommitEntry>, id: Seq<u8>) -> nat
    decreases chain.len(),
{
    if chain.len() > 0 && holds(chain[0], id) {
        1 + run_length(chain.drop_first(), id)
    } else {
        0
    }
}

/// The content age of the path over `chain` (head first, each entry the
/// first parent of the one before): the timestamp of the oldest commit of
/// the unbroken run that carries the head's content; `None` where the head
/// lacks the path.
pub open spec fn content_age(chain: Seq<CommitEntry>) -> Option<i64> {
    if chain.len() > 0 && chain[0].content is Some {
        let id = chain[0].content->0@;
        Some(chain[run_length(chain, id) - 1].time)
    } else {
        None
    }
}

/// Whether `chain` is what a walk for the content age reads: the head, and
/// where the head has the path, first parents that carry its content, up to
/// and including the first one that does not.
pub open spec fn walk_read(chain: Seq<CommitEntry>) -> bool {
    &&& chain.len() >= 1
    &&& chain[0].content is None ==> chain.len() == 1
    &&& chain[0].content is Some ==> forall|i: int|
        0 <= i < chain.len() - 1 ==> holds(#[trigger] chain[i], chain[0].content->0@)
}

/// `content_age` as a `Result`, with `PathNotFound` where it is `None`.
pub open spec fn age_result(chain: Seq<CommitEntry>) -> Result<i64, AgeError> {
    match content_age(chain) {
        Some(t) => Ok(t),
        None => Err(AgeError::PathNotFound),
    }
}

/// A run of `k` leading commits carrying `id`, ended by the chain's end or
/// by a commit that does not carry it, has length `k`.
pub proof fn lemma_run_length(chain: Seq<CommitEntry>, id: Seq<u8>, k: int)
    requires
        0 <= k <= chain.len(),
        forall|i: int| 0 <= i < k ==> holds(#[trigger] chain[i], id),
        k == chain.len() || !holds(chain[k], id),
    ensures
        run_length(chain, id) == k,
    decreases k,
{
    if k > 0 {
        let rest = chain.drop_first();
        assert forall|i: int| 0 <= i < k - 1 implies holds(#[trigger] rest[i], id) by {
            assert(rest[i] == chain[i + 1]);
        }
        if k - 1 < rest.len() {
            assert(rest[k - 1] == chain[k]);
        }
        lemma_run_length(rest, id, k - 1);
    } else if chain.len() > 0 {
        assert(!holds(chain[0], id));
    }
}

/// Where every commit of a non-empty chain carries the head's content for
/// the path, the content age is the timestamp of the chain's last commit.
pub proof fn law_unbroken_chain(chain: Seq<CommitEntry>)
    requires
        chain.len() > 0,
        chain[0].content is Some,
        forall|i: int| 0 <= i < chain.len() ==> holds(#[trigger] chain[i], chain[0].content->0@),
    ensures
        age_result(chain) == Ok::<i64, AgeError>(chain[chain.len() - 1].time),
{
    lemma_run_length(chain, chain[0].content->0@, chain.len() as int);
}

/// Where the head carries the path and its first parent does not carry the
/// same content (another id, or no such path), the content age is the head's
/// own timestamp.
pub proof fn law_content_change(chain: Seq<CommitEntry>)
    requires
        chain.len() > 1,
        chain[0].content is Some,
        !holds(chain[1], chain[0].content->0@),
    ensures
        age_result(chain) == Ok::<i64, AgeError>(chain[0].time),
{
    let id = chain[0].content->0@;
    assert(holds(chain[0], id));
    lemma_run_length(chain, id, 1);
}

/// Where the head lacks the path, the age is `PathNotFound`, never a
/// timestamp.
pub proof fn law_missing_path(chain: Seq<CommitEntry>)
    requires
        chain.len() > 0,
        chain[0].content is None,
    ensures
        age_result(chain) == Err::<i64, AgeError>(AgeError::PathNotFound),
{
}

/// What a walk reads decides the content age of the whole history: where
/// `read` has the shape that `read_chain` promises, starts the first-parent
/// history `full`, and ends either where `full` ends or at a commit that
/// breaks the run, its content age is that of `full`. Commits older than the
/// first break, and entries of other paths, do not matter.
pub proof fn law_read_decides(read: Seq<CommitEntry>, full: Seq<CommitEntry>)
    requires
        walk_read(read),
        read.len() <= full.len(),
        forall|i: int| 0 <= i < read.len() ==> #[trigger] read[i] == full[i],
        read.len() < full.len() ==> read[0].content is None || !holds(
            read[read.len() - 1],
            read[0].content->0@,
        ),
    ensures
        age_result(read) == age_result(full),
{
    assert(read[0] == full[0]);
    if read[0].content is Some {
        let id = read[0].content->0@;
        let k = read.len() as int;
        if k == full.len() {
            assert(read =~= full);
        } else {
            assert forall|i: int| 0 <= i < k - 1 implies holds(#[trigger] full[i], id) by {
                assert(read[i] == full[i]);
                assert(holds(read[i], id));
            }
            assert(read[k - 1] == full[k - 1]);
            if k - 1 == 0 {
                assert(holds(read[0], id));
            }
            lemma_run_length(read, id, k - 1);
            lemma_run_length(full, id, k - 1);
            assert(read[k - 2] == full[k - 2]);
        }
    }
}

/// Whether two content ids are the same bytes.
fn same_bytes(a: &Vec<u8>, b: &Vec<u8>) -> (r: bool)
    ensures
        r == (a@ == b@),
{
    if a.len() != b.len() {
        return false;
    }
    let mut i: usize = 0;
    while i < a.len()
        invariant
            a@.len() == b@.len(),
            0 <= i <= a@.len(),
            forall|j: int| 0 <= j < i ==> a@[j] == b@[j],
        decreases a@.len() - i,
    {
        if a[i] != b[i] {
            return false;
        }
        i = i + 1;
    }
    assert(a@ =~= b@);
    true
}

fn copy_bytes(a: &Vec<u8>) -> (r: Vec<u8>)
    ensures
        r@ == a@,
{
    let mut r: Vec<u8> = Vec::new();
    let mut i: usize = 0;
    while i < a.len()
        invariant
            0 <= i <= a@.len(),
            r@ == a@.subrange(0, i as int),
        decreases a@.len() - i,
    {
        r.push(a[i]);
        i = i + 1;
        assert(r@ =~= a@.subrange(0, i as int));
    }
    assert(a@.subrange(0, a@.len() as int) =~= a@);
    r
}

/// The state of a backward walk along the first-parent chain: the content
/// id that the head carries, the timestamp of the oldest commit seen so far
/// that carries it, and whether the run has ended.
pub struct AgeWalk {
    pub content: Vec<u8>,
    pub candidate: i64,
    pub done: bool,
}

impl AgeWalk {
    /// Starts a walk at the head commit; `PathNotFound` exactly when the head
    /// lacks the path.
    pub fn start(head: &CommitEntry) -> (r: Result<AgeWalk, AgeError>)
        ensures
            head.content is None ==> r == Err::<AgeWalk, AgeError>(AgeError::PathNotFound),
            head.content matches Some(c) ==> r matches Ok(w) && w.content@ == c@
                && w.candidate == head.time && !w.done,
    {
        match &head.content {
            Some(c) => Ok(AgeWalk { content: copy_bytes(c), candidate: head.time, done: false }),
            None => Err(AgeError::PathNotFound),
        }
    }

    /// Takes in the first parent of the last commit taken: a parent that
    /// carries the same content becomes the candidate; any other ends the
    /// walk with the candidate unchanged.
    pub fn step(&mut self, parent: &CommitEntry)
        requires
            !old(self).done,
        ensures
            final(self).content@ == old(self).content@,
            holds(*parent, old(self).content@) ==> final(self).candidate == parent.time
                && !final(self).done,
            !holds(*parent, old(self).content@) ==> final(self).candidate == old(self).candidate
                && final(self).done,
    {
        match &parent.content {
            Some(c) => {
                if same_bytes(c, &self.content) {
                    self.candidate = parent.time;
                } else {
                    self.done = true;
                }
            },
            None => {
                self.done = true;
            },
        }
    }
}

/// The content age of the path over `chain`: head first, each entry the
/// first parent of the one before, ending where history ends.
pub fn resolve_age(chain: &Vec<CommitEntry>) -> (r: Result<i64, AgeError>)
    ensures
        r == age_result(chain@),
{
    if chain.len() == 0 {
        return Err(AgeError::PathNotFound);
    }
    let mut walk = match AgeWalk::start(&chain[0]) {
        Ok(w) => w,
        Err(e) => return Err(e),
    };
    let ghost id = walk.content@;
    let mut k: usize = 1;
    while k < chain.len() && !walk.done
        invariant
            1 <= k <= chain@.len(),
            walk.content@ == id,
            chain@[0].content matches Some(c) && c@ == id,
            forall|i: int| 0 <= i < k ==> holds(#[trigger] chain@[i], id),
            walk.candidate == chain@[k - 1].time,
            walk.done ==> k < chain@.len() && !holds(chain@[k as int], id),
        decreases chain@.len() - k + (if walk.done { 0int } else { 1 }),
    {
        walk.step(&chain[k]);
        if !walk.done {
            k = k + 1;
        }
    }
    proof {
        lemma_run_length(chain@, id, k as int);
    }
    Ok(walk.candidate)
}


#[verifier::external_type_specification]
#[verifier::external_body]
pub struct ExRepository(git2::Repository);

#[verifier::external_type_specification]
#[verifier::external_body]
pub struct ExReference<'repo>(git2::Reference<'repo>);

#[verifier::external_type_specification]
#[verifier::external_body]
pub struct ExCommit<'repo>(git2::Commit<'repo>);

#[verifier::external_type_specification]
#[verifier::external_body]
pub struct ExTree<'repo>(git2::Tree<'repo>);

#[verifier::external_type_specification]
#[verifier::external_body]
pub struct ExOid(git2::Oid);

#[verifier::external_type_specification]
#[verifier::external_body]
pub struct ExError(git2::Error);

/// Relies on `git2::Repository::head`: the reference HEAD points to.
#[verifier::external_body]
fn repo_head(repo: &git2::Repository) -> (r: Result<git2::Reference<'_>, git2::Error>) {
    repo.head()
}

/// Relies on `git2::Reference::target`: the object id of a direct reference.
#[verifier::external_body]
fn reference_target(reference: &git2::Reference<'_>) -> (r: Option<git2::Oid>) {
    reference.target()
}

/// Relies on `git2::Repository::find_commit`: the commit with the given id.
#[verifier::external_body]
fn find_commit(repo: &git2::Repository, oid: git2::Oid) -> (r: Result<git2::Commit<'_>, git2::Error>) {
    repo.find_commit(oid)
}

/// Relies on `git2::Commit::tree`: the tree the commit points to.
#[verifier::external_body]
fn commit_tree<'repo>(commit: &git2::Commit<'repo>) -> (r: Result<git2::Tree<'repo>, git2::Error>) {
    commit.tree()
}

/// Relies on `git2::Commit::time`, read through `git2::Time::seconds`: the
/// commit's timestamp in seconds since the epoch.
#[verifier::external_body]
fn commit_seconds(commit: &git2::Commit<'_>) -> (r: i64) {
    commit.time().seconds()
}

/// Relies on `git2::Commit::parent_count`: the number of parents.
#[verifier::external_body]
fn parent_count(commit: &git2::Commit<'_>) -> (r: usize) {
    commit.parent_count()
}

/// Relies on `git2::Commit::parent`: the parent at index `i`.
#[verifier::external_body]
fn commit_parent<'repo>(commit: &git2::Commit<'repo>, i: usize) -> (r: Result<git2::Commit<'repo>, git2::Error>) {
    commit.parent(i)
}

/// Relies on `git2::Tree::get_path`, with `git2::TreeEntry::id`: the content
/// id of the entry at `path`, as bytes; `Ok(None)` where git reports the path
/// as not found (`git2::ErrorCode::NotFound`).
#[verifier::external_body]
fn tree_entry_id(tree: &git2::Tree<'_>, path: &str) -> (r: Result<Option<Vec<u8>>, git2::Error>) {
    match tree.get_path(std::path::Path::new(path)) {
        Ok(entry) => Ok(Some(entry.id().as_bytes().to_vec())),
        Err(e) if e.code() == git2::ErrorCode::NotFound => Ok(None),
        Err(e) => Err(e),
    }
}

/// Reads what `commit` holds for `path`.
fn read_entry(commit: &git2::Commit<'_>, path: &str) -> (r: Result<CommitEntry, AgeError>)
    ensures
        r matches Err(e) ==> e == AgeError::RepositoryCorrupt,
{
    let tree = match commit_tree(commit) {
        Ok(t) => t,
        Err(_) => return Err(AgeError::RepositoryCorrupt),
    };
    match tree_entry_id(&tree, path) {
        Ok(content) => Ok(CommitEntry { time: commit_seconds(commit), content }),
        Err(_) => Err(AgeError::RepositoryCorrupt),
    }
}

/// The first parent of `commit`, `None` for a root commit.
fn first_parent<'repo>(commit: &git2::Commit<'repo>) -> (r: Result<Option<git2::Commit<'repo>>, AgeError>)
    ensures
        r matches Err(e) ==> e == AgeError::RepositoryCorrupt,
{
    if parent_count(commit) == 0 {
        Ok(None)
    } else {
        match commit_parent(commit, 0) {
            Ok(p) => Ok(Some(p)),
            Err(_) => Err(AgeError::RepositoryCorrupt),
        }
    }
}

/// Finds content ages in one repository, with its head commit looked up
/// once for all paths.
pub struct UpdateTimeFinder<'repo> {
    head_commit: git2::Commit<'repo>,
}

impl<'repo> UpdateTimeFinder<'repo> {
    /// Looks up the commit that HEAD points to.
    pub fn new(repo: &'repo git2::Repository) -> (r: Result<UpdateTimeFinder<'repo>, AgeError>)
        ensures
            r matches Err(e) ==> e == AgeError::RepositoryCorrupt,
    {
        let head = match repo_head(repo) {
            Ok(h) => h,
            Err(_) => return Err(AgeError::RepositoryCorrupt),
        };
        let oid = match reference_target(&head) {
            Some(o) => o,
            None => return Err(AgeError::RepositoryCorrupt),
        };
        match find_commit(repo, oid) {
            Ok(head_commit) => Ok(UpdateTimeFinder { head_commit }),
            Err(_) => Err(AgeError::RepositoryCorrupt),
        }
    }

    /// The first-parent chain for `path` as far as the content age needs it:
    /// the head's entry, then each first parent's entry while the parents
    /// carry the head's content, ending with the first parent that does not
    /// (or where history ends). Nothing older than that parent is read, and a
    /// head without the path is read alone. A commit, tree or entry that
    /// cannot be read is `RepositoryCorrupt`.
    pub fn read_chain(&self, path: &str) -> (r: Result<Vec<CommitEntry>, AgeError>)
        ensures
            r matches Err(e) ==> e == AgeError::RepositoryCorrupt,
            r matches Ok(chain) ==> walk_read(chain@),
    {
        let head = match read_entry(&self.head_commit, path) {
            Ok(e) => e,
            Err(e) => return Err(e),
        };
        let mut walk = match AgeWalk::start(&head) {
            Ok(w) => w,
            Err(_) => return Ok(vec![head]),
        };
        let ghost id = walk.content@;
        let mut chain: Vec<CommitEntry> = vec![head];
        // A first-parent chain has no cycles in a sound repository, so one
        // longer than any count that fits in memory is treated as corrupt.
        let mut budget: usize = usize::MAX;
        let mut next = match first_parent(&self.head_commit) {
            Ok(p) => p,
            Err(e) => return Err(e),
        };
        loop
            invariant_except_break
                forall|i: int| 0 <= i < chain@.len() ==> holds(#[trigger] chain@[i], id),
                !walk.done,
            invariant
                walk.content@ == id,
                chain@.len() >= 1,
                chain@[0].content matches Some(c) && c@ == id,
            ensures
                forall|i: int| 0 <= i < chain@.len() - 1 ==> holds(#[trigger] chain@[i], id),
            decreases budget,
        {
            if budget == 0 {
                return Err(AgeError::RepositoryCorrupt);
            }
            budget = budget - 1;
            let commit = match next {
                Some(c) => c,
                None => break,
            };
            let entry = match read_entry(&commit, path) {
                Ok(e) => e,
                Err(e) => return Err(e),
            };
            walk.step(&entry);
            let ghost before = chain@;
            chain.push(entry);
            if walk.done {
                assert forall|i: int| 0 <= i < chain@.len() - 1 implies holds(#[trigger] chain@[i], id) by {
                    assert(chain@[i] == before[i]);
                }
                break;
            }
            next = match first_parent(&commit) {
                Ok(p) => p,
                Err(e) => return Err(e),
            };
        }
        Ok(chain)
    }

    /// The content age of `path`: walks back from the head along first
    /// parents while each parent carries the head's content for `path`, and
    /// returns the timestamp of the oldest such commit (`resolve_age` of the
    /// chain that `read_chain` reads). Only first parents are followed: a
    /// merge is compared with its first parent alone. Any result but
    /// `RepositoryCorrupt` is the content age of a chain of the shape that
    /// `read_chain` promises; which commits those are, the repository on disk
    /// decides.
    pub fn find(&self, path: &str) -> (r: Result<i64, AgeError>)
        ensures
            r != Err::<i64, AgeError>(AgeError::RepositoryCorrupt) ==> exists|chain: Seq<CommitEntry>|
                walk_read(chain) && #[trigger] age_result(chain) == r,
    {
        match self.read_chain(path) {
            Ok(chain) => resolve_age(&chain),
            Err(e) => Err(e),
        }
    }
}

} // verus!
