//! The link reconciliation engine.
//!
//! For one `(source, destination)` pair the engine decides whether the
//! filesystem already satisfies the desired symlink, whether it is safe to
//! create it, or whether a conflict exists — and, unless it runs in
//! simulation mode, performs the single safe mutation. It never overwrites
//! or deletes an existing entry.

use vstd::prelude::*;

use crate::context::Context;
use crate::expand::{join, join_of, opt_str_view};
use crate::filesystem::{FileSystem, FsEntry, Node};

verus! {

/// One desired link: a symlink at `destination` whose stored target is
/// `source`. Both paths are absolute.
#[derive(Debug)]
pub struct LinkRequest {
    pub source: String,
    pub destination: String,
}

/// Mathematical image of a [`LinkRequest`].
#[verifier::ext_equal]
pub struct LinkRequestView {
    pub source: Seq<char>,
    pub destination: Seq<char>,
}

impl View for LinkRequest {
    type V = LinkRequestView;

    open spec fn view(&self) -> LinkRequestView {
        LinkRequestView { source: self.source@, destination: self.destination@ }
    }
}

/// Classification of a failed symlink-creation call, carried for
/// diagnostics.
#[derive(Clone, Copy, Debug, PartialEq, Eq, Structural)]
pub enum ErrorKind {
    PermissionDenied,
    Unsupported,
    Other,
}

/// The one outcome of reconciling one request.
#[derive(Clone, Copy, Debug, PartialEq, Eq, Structural)]
pub enum LinkOutcome {
    /// The destination was free and the link was (or, under simulation,
    /// would be) created.
    Created,
    /// The destination is already a symlink whose stored target is exactly
    /// the requested source.
    AlreadyLinked,
    /// The source path does not exist.
    SourceNotFound,
    /// The parent directory of the destination does not exist.
    DestinationDirectoryMissing,
    /// The destination is occupied by something else; nothing is touched.
    DestinationConflict,
    /// The creation call itself failed.
    SystemError(ErrorKind),
}

/// What a symlink-creation call reported.
#[derive(Clone, Copy, Debug, PartialEq, Eq, Structural)]
pub enum CreateResult {
    /// The link was created.
    Done,
    /// The destination sprang into existence between the engine's check and
    /// the call.
    AlreadyExists,
    /// The call failed for another reason.
    Failed(ErrorKind),
}

/// Index of the last `/` in `p`, or `-1` if `p` holds none.
pub open spec fn last_sep(p: Seq<char>) -> int
    decreases p.len(),
{
    if p.len() == 0 {
        -1
    } else if p[p.len() - 1] == '/' {
        p.len() - 1
    } else {
        last_sep(p.drop_last())
    }
}

pub proof fn lemma_last_sep_bounds(p: Seq<char>)
    ensures
        -1 <= last_sep(p) < p.len(),
    decreases p.len(),
{
    if p.len() > 0 && p[p.len() - 1] != '/' {
        lemma_last_sep_bounds(p.drop_last());
    }
}

/// The parent directory of `p`, as `Path::parent` names it for a
/// slash-normalized path: everything before the last separator, the lone
/// root for a top-level entry, and the empty string where no parent exists
/// (the root itself, or a path without separator).
pub open spec fn parent_of(p: Seq<char>) -> Seq<char> {
    if p =~= seq!['/'] {
        Seq::empty()
    } else {
        let i = last_sep(p);
        if i == 0 {
            seq!['/']
        } else if i > 0 {
            p.subrange(0, i)
        } else {
            Seq::empty()
        }
    }
}

/// Index of the last `/` of `p`, if any.
fn last_slash(p: &str) -> (r: Option<usize>)
    ensures
        match r {
            Some(i) => last_sep(p@) == i,
            None => last_sep(p@) == -1,
        },
{
    let n = p.unicode_len();
    let mut i = n;
    proof {
        assert(p@.subrange(0, n as int) =~= p@);
    }
    while i > 0
        invariant
            i <= n,
            n == p@.len(),
            last_sep(p@) == last_sep(p@.subrange(0, i as int)),
        decreases i,
    {
        if p.get_char(i - 1) == '/' {
            proof {
                assert(p@.subrange(0, i as int)[i - 1] == p@[i - 1]);
            }
            return Some(i - 1);
        }
        proof {
            assert(p@.subrange(0, i as int).drop_last() =~= p@.subrange(0, i - 1));
        }
        i = i - 1;
    }
    proof {
        assert(p@.subrange(0, 0) =~= Seq::<char>::empty());
    }
    None
}

/// The parent directory of `p`, per [`parent_of`].
pub fn parent_component(p: &str) -> (r: String)
    ensures
        r@ == parent_of(p@),
{
    proof {
        reveal_strlit("/");
        assert("/"@ =~= seq!['/']);
        lemma_last_sep_bounds(p@);
    }
    let n = p.unicode_len();
    if n == 1 && p.get_char(0) == '/' {
        proof {
            assert(p@ =~= seq!['/']);
        }
        return String::new();
    }
    match last_slash(p) {
        Some(i) => {
            if i == 0 {
                String::from_str("/")
            } else {
                p.substring_char(0, i).to_owned()
            }
        }
        None => String::new(),
    }
}

/// The outcome for a destination that is already occupied by `node`:
/// already linked exactly when `node` is a symlink whose stored target is,
/// character for character, the requested source; otherwise a conflict.
pub open spec fn existing_outcome(node: Node, source: Seq<char>) -> LinkOutcome {
    match node {
        Node::Link(target) => if target == source {
            LinkOutcome::AlreadyLinked
        } else {
            LinkOutcome::DestinationConflict
        },
        _ => LinkOutcome::DestinationConflict,
    }
}

/// The decision procedure over the engine's three observations: whether the
/// source exists, whether the destination's parent directory exists, and
/// what (if anything) occupies the destination. Evaluated in this fixed
/// order; `Created` means the destination is free and creation is safe.
pub open spec fn classified(
    source_exists: bool,
    parent_exists: bool,
    destination: Option<Node>,
    source: Seq<char>,
) -> LinkOutcome {
    if !source_exists {
        LinkOutcome::SourceNotFound
    } else if !parent_exists {
        LinkOutcome::DestinationDirectoryMissing
    } else {
        match destination {
            Some(node) => existing_outcome(node, source),
            None => LinkOutcome::Created,
        }
    }
}

/// The outcome of reconciling `(source, destination)` against filesystem
/// state `fs`.
pub open spec fn outcome_of(
    fs: Map<Seq<char>, Node>,
    source: Seq<char>,
    destination: Seq<char>,
) -> LinkOutcome {
    classified(
        fs.contains_key(source),
        fs.contains_key(parent_of(destination)),
        if fs.contains_key(destination) {
            Some(fs[destination])
        } else {
            None
        },
        source,
    )
}

/// The filesystem state after reconciling `(source, destination)`: the one
/// mutation the engine ever performs is creating the requested symlink, and
/// only when the destination is free and simulation is off.
pub open spec fn fs_after(
    fs: Map<Seq<char>, Node>,
    source: Seq<char>,
    destination: Seq<char>,
    simulate: bool,
) -> Map<Seq<char>, Node> {
    if outcome_of(fs, source, destination) == LinkOutcome::Created && !simulate {
        fs.insert(destination, Node::Link(source))
    } else {
        fs
    }
}

/// Classifies a destination that is already occupied by `entry`.
pub fn classify_existing(entry: &FsEntry, source: &String) -> (o: LinkOutcome)
    ensures
        o == existing_outcome(entry@, source@),
{
    match entry {
        FsEntry::Symlink(target) => {
            if *target == *source {
                LinkOutcome::AlreadyLinked
            } else {
                LinkOutcome::DestinationConflict
            }
        }
        _ => LinkOutcome::DestinationConflict,
    }
}

/// The decision procedure over the three observations a caller made of the
/// live filesystem; see [`classified`].
pub fn classify(
    source_exists: bool,
    parent_exists: bool,
    destination: Option<&FsEntry>,
    source: &String,
) -> (o: LinkOutcome)
    ensures
        o == classified(
            source_exists,
            parent_exists,
            match destination {
                Some(e) => Some(e@),
                None => None,
            },
            source@,
        ),
{
    if !source_exists {
        LinkOutcome::SourceNotFound
    } else if !parent_exists {
        LinkOutcome::DestinationDirectoryMissing
    } else {
        match destination {
            Some(entry) => classify_existing(entry, source),
            None => LinkOutcome::Created,
        }
    }
}

/// Reclassifies a request after a symlink-creation call, per the call's
/// report and a fresh observation of the destination. An "already exists"
/// report is the authoritative sign of a race: the now-existing destination
/// is classified as any occupied destination would be.
pub open spec fn create_outcome(
    result: CreateResult,
    destination: Option<Node>,
    source: Seq<char>,
) -> LinkOutcome {
    match result {
        CreateResult::Done => LinkOutcome::Created,
        CreateResult::AlreadyExists => match destination {
            Some(node) => existing_outcome(node, source),
            None => LinkOutcome::SystemError(ErrorKind::Other),
        },
        CreateResult::Failed(kind) => LinkOutcome::SystemError(kind),
    }
}

/// The outcome after an attempted creation reported `result`, with
/// `destination` re-observed; see [`create_outcome`].
pub fn classify_create_result(
    result: CreateResult,
    destination: Option<&FsEntry>,
    source: &String,
) -> (o: LinkOutcome)
    ensures
        o == create_outcome(
            result,
            match destination {
                Some(e) => Some(e@),
                None => None,
            },
            source@,
        ),
{
    match result {
        CreateResult::Done => LinkOutcome::Created,
        CreateResult::AlreadyExists => match destination {
            Some(entry) => classify_existing(entry, source),
            None => LinkOutcome::SystemError(ErrorKind::Other),
        },
        CreateResult::Failed(kind) => LinkOutcome::SystemError(kind),
    }
}

/// Reconciles one request against the filesystem state `fs`: classifies it
/// and, when the destination is free and `simulate` is off, creates the
/// symlink. No other state is ever touched.
pub fn reconcile(fs: &mut FileSystem, req: &LinkRequest, simulate: bool) -> (o: LinkOutcome)
    ensures
        o == outcome_of(old(fs)@, req.source@, req.destination@),
        final(fs)@ == fs_after(old(fs)@, req.source@, req.destination@, simulate),
{
    let source_exists = fs.contains(req.source.as_str());
    let parent = parent_component(req.destination.as_str());
    let parent_exists = fs.contains(parent.as_str());
    let o = classify(source_exists, parent_exists, fs.get(req.destination.as_str()), &req.source);
    if matches!(o, LinkOutcome::Created) && !simulate {
        fs.create_symlink(req.destination.clone(), req.source.clone());
    }
    o
}

/// Reconciles the request that links `relative_from` (taken under the
/// context's source directory) to `to`, honouring the context's simulation
/// flag.
pub fn symlink(fs: &mut FileSystem, relative_from: &str, to: &String, ctx: &Context) -> (o:
    LinkOutcome)
    ensures
        o == outcome_of(old(fs)@, join_of(ctx.pwd@, relative_from@), to@),
        final(fs)@ == fs_after(old(fs)@, join_of(ctx.pwd@, relative_from@), to@, ctx.dry_run),
{
    let from = join(ctx.pwd.as_str(), relative_from);
    let req = LinkRequest { source: from, destination: to.clone() };
    reconcile(fs, &req, ctx.dry_run)
}

/// Idempotence: a request the engine just satisfied is classified as
/// already linked by a second run on the resulting state, and the second
/// run changes nothing.
pub proof fn lemma_reconcile_idempotent(
    fs: Map<Seq<char>, Node>,
    source: Seq<char>,
    destination: Seq<char>,
)
    requires
        outcome_of(fs, source, destination) == LinkOutcome::Created,
    ensures
        outcome_of(fs_after(fs, source, destination, false), source, destination)
            == LinkOutcome::AlreadyLinked,
        fs_after(fs_after(fs, source, destination, false), source, destination, false)
            == fs_after(fs, source, destination, false),
{
}

/// Non-destructiveness: a destination occupied by anything but the exact
/// requested link yields a conflict, and the filesystem is left untouched.
pub proof fn lemma_reconcile_non_destructive(
    fs: Map<Seq<char>, Node>,
    source: Seq<char>,
    destination: Seq<char>,
    simulate: bool,
)
    requires
        fs.contains_key(source),
        fs.contains_key(parent_of(destination)),
        fs.contains_key(destination),
        existing_outcome(fs[destination], source) == LinkOutcome::DestinationConflict,
    ensures
        outcome_of(fs, source, destination) == LinkOutcome::DestinationConflict,
        fs_after(fs, source, destination, simulate) == fs,
        fs_after(fs, source, destination, simulate)[destination] == fs[destination],
{
}

/// Dry-run equivalence: a simulated run mutates nothing, and a real run
/// made afterwards on the same state classifies the request exactly as the
/// simulated one did.
pub proof fn lemma_dry_run_equivalence(
    fs: Map<Seq<char>, Node>,
    source: Seq<char>,
    destination: Seq<char>,
)
    ensures
        fs_after(fs, source, destination, true) == fs,
        outcome_of(fs_after(fs, source, destination, true), source, destination)
            == outcome_of(fs, source, destination),
{
}

/// Missing source: a request whose source does not exist is reported as
/// such, whatever occupies the destination, and nothing is mutated.
pub proof fn lemma_missing_source(
    fs: Map<Seq<char>, Node>,
    source: Seq<char>,
    destination: Seq<char>,
    simulate: bool,
)
    requires
        !fs.contains_key(source),
    ensures
        outcome_of(fs, source, destination) == LinkOutcome::SourceNotFound,
        fs_after(fs, source, destination, simulate) == fs,
{
}

impl LinkOutcome {
    /// The human-readable label of this outcome.
    pub fn message(&self) -> (r: String)
        ensures
            match self {
                LinkOutcome::Created => r@ == "Created"@,
                LinkOutcome::AlreadyLinked => r@ == "Already linked"@,
                LinkOutcome::SourceNotFound => r@ == "Source not found"@,
                LinkOutcome::DestinationDirectoryMissing => r@
                    == "Destination directory not found"@,
                LinkOutcome::DestinationConflict => r@ == "Destination exists"@,
                LinkOutcome::SystemError(_) => r@ == "System error"@,
            },
    {
        match self {
            LinkOutcome::Created => String::from_str("Created"),
            LinkOutcome::AlreadyLinked => String::from_str("Already linked"),
            LinkOutcome::SourceNotFound => String::from_str("Source not found"),
            LinkOutcome::DestinationDirectoryMissing => String::from_str(
                "Destination directory not found",
            ),
            LinkOutcome::DestinationConflict => String::from_str("Destination exists"),
            LinkOutcome::SystemError(_) => String::from_str("System error"),
        }
    }

    /// Whether this outcome is a success: the desired link exists (or, for
    /// `Created` under simulation, would exist).
    pub fn is_success(&self) -> (r: bool)
        ensures
            r == (self == LinkOutcome::Created || self == LinkOutcome::AlreadyLinked),
    {
        matches!(self, LinkOutcome::Created | LinkOutcome::AlreadyLinked)
    }
}

/// Whether `fs` satisfies the request `(source, destination)`: the source
/// and the destination's parent directory exist, and the destination is
/// exactly the requested symlink. A satisfied request is classified as
/// already linked.
pub open spec fn satisfied_in(
    fs: Map<Seq<char>, Node>,
    source: Seq<char>,
    destination: Seq<char>,
) -> bool {
    &&& fs.contains_key(source)
    &&& fs.contains_key(parent_of(destination))
    &&& fs.contains_key(destination)
    &&& fs[destination] == Node::Link(source)
}

/// Whether every outcome of a run is a success: the desired link existed
/// already, or was created.
pub open spec fn all_satisfied(outs: Seq<LinkOutcome>) -> bool {
    forall|i: int|
        0 <= i < outs.len() ==> (#[trigger] outs[i]) == LinkOutcome::Created || outs[i]
            == LinkOutcome::AlreadyLinked
}

/// The images of a sequence of requests.
pub open spec fn reqs_view(s: Seq<LinkRequest>) -> Seq<LinkRequestView> {
    s.map_values(|r: LinkRequest| r@)
}

/// The images of a reconciliation log: each recorded request with its
/// outcome, in record order.
pub open spec fn log_view(s: Seq<(LinkRequest, LinkOutcome)>) -> Seq<(LinkRequestView, LinkOutcome)> {
    s.map_values(|p: (LinkRequest, LinkOutcome)| (p.0@, p.1))
}

/// Pairs each request with its outcome, positionally.
pub open spec fn paired(reqs: Seq<LinkRequestView>, outs: Seq<LinkOutcome>) -> Seq<
    (LinkRequestView, LinkOutcome),
> {
    Seq::new(reqs.len(), |i: int| (reqs[i], outs[i]))
}

/// The filesystem state after reconciling `reqs` one at a time, in order,
/// each against the state the previous ones left behind.
pub open spec fn batch_fs(
    fs: Map<Seq<char>, Node>,
    reqs: Seq<LinkRequestView>,
    simulate: bool,
) -> Map<Seq<char>, Node>
    decreases reqs.len(),
{
    if reqs.len() == 0 {
        fs
    } else {
        fs_after(
            batch_fs(fs, reqs.drop_last(), simulate),
            reqs.last().source,
            reqs.last().destination,
            simulate,
        )
    }
}

/// The outcomes of reconciling `reqs` one at a time, in order.
pub open spec fn batch_outcomes(
    fs: Map<Seq<char>, Node>,
    reqs: Seq<LinkRequestView>,
    simulate: bool,
) -> Seq<LinkOutcome>
    decreases reqs.len(),
{
    if reqs.len() == 0 {
        Seq::empty()
    } else {
        batch_outcomes(fs, reqs.drop_last(), simulate).push(
            outcome_of(
                batch_fs(fs, reqs.drop_last(), simulate),
                reqs.last().source,
                reqs.last().destination,
            ),
        )
    }
}

/// There is exactly one outcome per request.
pub proof fn lemma_batch_outcomes_len(
    fs: Map<Seq<char>, Node>,
    reqs: Seq<LinkRequestView>,
    simulate: bool,
)
    ensures
        batch_outcomes(fs, reqs, simulate).len() == reqs.len(),
    decreases reqs.len(),
{
    if reqs.len() > 0 {
        lemma_batch_outcomes_len(fs, reqs.drop_last(), simulate);
    }
}

/// Reconciles `reqs` in order, each against the state the previous ones
/// left behind, and returns the log: every request paired with its
/// outcome, in request order.
pub fn reconcile_all(fs: &mut FileSystem, reqs: &Vec<LinkRequest>, simulate: bool) -> (log: Vec<
    (LinkRequest, LinkOutcome),
>)
    ensures
        log_view(log@) == paired(
            reqs_view(reqs@),
            batch_outcomes(old(fs)@, reqs_view(reqs@), simulate),
        ),
        final(fs)@ == batch_fs(old(fs)@, reqs_view(reqs@), simulate),
{
    let ghost fs0 = old(fs)@;
    let ghost rv = reqs_view(reqs@);
    let mut log: Vec<(LinkRequest, LinkOutcome)> = Vec::new();
    let mut i: usize = 0;
    proof {
        assert(rv.subrange(0, 0) =~= Seq::<LinkRequestView>::empty());
        assert(log_view(log@) =~~= paired(rv.subrange(0, 0), batch_outcomes(fs0, rv.subrange(0, 0), simulate)));
    }
    while i < reqs.len()
        invariant
            i <= reqs.len(),
            rv == reqs_view(reqs@),
            fs@ == batch_fs(fs0, rv.subrange(0, i as int), simulate),
            log_view(log@) == paired(
                rv.subrange(0, i as int),
                batch_outcomes(fs0, rv.subrange(0, i as int), simulate),
            ),
        decreases reqs.len() - i,
    {
        let req = &reqs[i];
        let ghost old_log = log@;
        let o = reconcile(fs, req, simulate);
        log.push((LinkRequest { source: req.source.clone(), destination: req.destination.clone() }, o));
        proof {
            assert(rv[i as int] == reqs@[i as int]@);
            lemma_batch_outcomes_len(fs0, rv.subrange(0, i as int), simulate);
            assert(rv.subrange(0, i + 1).drop_last() =~= rv.subrange(0, i as int));
            assert(rv.subrange(0, i + 1).last() == rv[i as int]);
            assert(batch_outcomes(fs0, rv.subrange(0, i + 1), simulate) == batch_outcomes(
                fs0,
                rv.subrange(0, i as int),
                simulate,
            ).push(o));
            let lhs = log_view(log@);
            let rhs = paired(
                rv.subrange(0, i + 1),
                batch_outcomes(fs0, rv.subrange(0, i + 1), simulate),
            );
            assert(old_log.len() == i) by {
                assert(log_view(old_log).len() == old_log.len());
                assert(paired(
                    rv.subrange(0, i as int),
                    batch_outcomes(fs0, rv.subrange(0, i as int), simulate),
                ).len() == i);
            }
            assert(lhs.len() == rhs.len());
            assert forall|j: int| 0 <= j < lhs.len() implies lhs[j] == rhs[j] by {
                if j < i {
                    assert(log_view(old_log)[j] == paired(
                        rv.subrange(0, i as int),
                        batch_outcomes(fs0, rv.subrange(0, i as int), simulate),
                    )[j]);
                    assert(rv.subrange(0, i + 1)[j] == rv.subrange(0, i as int)[j]);
                }
            }
            assert(lhs =~= rhs);
        }
        i = i + 1;
    }
    proof {
        assert(rv.subrange(0, reqs@.len() as int) =~= rv);
    }
    log
}

/// After a run whose every outcome was a success, the run's state
/// satisfies every one of its requests.
proof fn lemma_batch_satisfies_requests(fs: Map<Seq<char>, Node>, reqs: Seq<LinkRequestView>)
    requires
        all_satisfied(batch_outcomes(fs, reqs, false)),
    ensures
        forall|i: int|
            0 <= i < reqs.len() ==> satisfied_in(
                batch_fs(fs, reqs, false),
                (#[trigger] reqs[i]).source,
                reqs[i].destination,
            ),
    decreases reqs.len(),
{
    if reqs.len() > 0 {
        let prefix = reqs.drop_last();
        let last = reqs.last();
        let outs = batch_outcomes(fs, reqs, false);
        let prefix_outs = batch_outcomes(fs, prefix, false);
        let prefix_fs = batch_fs(fs, prefix, false);
        lemma_batch_outcomes_len(fs, prefix, false);
        assert(all_satisfied(prefix_outs)) by {
            assert forall|i: int|
                0 <= i < prefix_outs.len() implies (#[trigger] prefix_outs[i])
                == LinkOutcome::Created || prefix_outs[i] == LinkOutcome::AlreadyLinked by {
                assert(outs[i] == prefix_outs[i]);
            }
        }
        lemma_batch_satisfies_requests(fs, prefix);
        let last_out = outcome_of(prefix_fs, last.source, last.destination);
        assert(last_out == outs[prefix.len() as int]);
        assert(satisfied_in(batch_fs(fs, reqs, false), last.source, last.destination));
        assert forall|i: int|
            0 <= i < reqs.len() implies satisfied_in(
            batch_fs(fs, reqs, false),
            (#[trigger] reqs[i]).source,
            reqs[i].destination,
        ) by {
            if i < prefix.len() {
                assert(satisfied_in(prefix_fs, prefix[i].source, prefix[i].destination));
                assert(reqs[i] == prefix[i]);
            }
        }
    }
}

/// A run over requests that the state already satisfies classifies each as
/// already linked and changes nothing.
proof fn lemma_rerun_already_linked(fs: Map<Seq<char>, Node>, reqs: Seq<LinkRequestView>)
    requires
        forall|i: int|
            0 <= i < reqs.len() ==> satisfied_in(
                fs,
                (#[trigger] reqs[i]).source,
                reqs[i].destination,
            ),
    ensures
        batch_fs(fs, reqs, false) == fs,
        batch_outcomes(fs, reqs, false).len() == reqs.len(),
        forall|i: int|
            0 <= i < reqs.len() ==> (#[trigger] batch_outcomes(fs, reqs, false)[i])
                == LinkOutcome::AlreadyLinked,
    decreases reqs.len(),
{
    lemma_batch_outcomes_len(fs, reqs, false);
    if reqs.len() > 0 {
        let prefix = reqs.drop_last();
        lemma_rerun_already_linked(fs, prefix);
        assert forall|i: int|
            0 <= i < reqs.len() implies (#[trigger] batch_outcomes(fs, reqs, false)[i])
            == LinkOutcome::AlreadyLinked by {
            if i < prefix.len() {
                assert(batch_outcomes(fs, prefix, false)[i] == LinkOutcome::AlreadyLinked);
            }
        }
    }
}

/// Idempotence of a whole run: once a run has satisfied every one of its
/// requests, running the same requests again classifies each as already
/// linked and mutates nothing.
pub proof fn lemma_run_idempotent(fs: Map<Seq<char>, Node>, reqs: Seq<LinkRequestView>)
    requires
        all_satisfied(batch_outcomes(fs, reqs, false)),
    ensures
        batch_fs(batch_fs(fs, reqs, false), reqs, false) == batch_fs(fs, reqs, false),
        batch_outcomes(batch_fs(fs, reqs, false), reqs, false).len() == reqs.len(),
        forall|i: int|
            0 <= i < reqs.len() ==> (#[trigger] batch_outcomes(
                batch_fs(fs, reqs, false),
                reqs,
                false,
            )[i]) == LinkOutcome::AlreadyLinked,
{
    lemma_batch_satisfies_requests(fs, reqs);
    lemma_rerun_already_linked(batch_fs(fs, reqs, false), reqs);
}

/// Something that can drive the engine: one configured item whose desired
/// links can be reconciled, in order, against a filesystem state.
///
/// Expansion of the item's destinations fails as a whole, before any
/// mutation; a successful expansion reconciles every described link and
/// logs one outcome per request, in request order.
pub trait Symlinkable: Sized {
    /// The requests this item describes, in order.
    spec fn requests(&self, pwd: Seq<char>, home: Option<Seq<char>>) -> Seq<LinkRequestView>;

    /// Whether every destination of this item resolves.
    spec fn expand_ok(&self, home: Option<Seq<char>>) -> bool;

    /// The error expansion fails with, when it fails.
    spec fn expand_err(&self, home: Option<Seq<char>>) -> crate::expand::PathError;

    /// Reconciles every link this item describes, in order.
    fn apply(&self, fs: &mut FileSystem, ctx: &Context) -> (r: Result<
        Vec<(LinkRequest, LinkOutcome)>,
        crate::expand::PathError,
    >)
        ensures
            match r {
                Ok(log) => {
                    &&& self.expand_ok(opt_str_view(ctx.home))
                    &&& log_view(log@) == paired(
                        self.requests(ctx.pwd@, opt_str_view(ctx.home)),
                        batch_outcomes(
                            old(fs)@,
                            self.requests(ctx.pwd@, opt_str_view(ctx.home)),
                            ctx.dry_run,
                        ),
                    )
                    &&& final(fs)@ == batch_fs(
                        old(fs)@,
                        self.requests(ctx.pwd@, opt_str_view(ctx.home)),
                        ctx.dry_run,
                    )
                },
                Err(e) => {
                    &&& !self.expand_ok(opt_str_view(ctx.home))
                    &&& e == self.expand_err(opt_str_view(ctx.home))
                    &&& final(fs)@ == old(fs)@
                },
            },
    ;
}

} // verus!
