//! The reconciliation engine: one check per input of the root node, each a
//! small state machine that the caller drives, and the sum of what they find.
//!
//! A check never reads a file or talks to the network. Each of its stages
//! names one request; the caller performs it and reports the event that came
//! of it, and the check says what to do next.

use vstd::prelude::*;
use vstd::seq_lib::{to_multiset_contains, to_multiset_len, to_multiset_remove};
use vstd::string::*;
use crate::cache::{read_count, read_entry, write_entry};
use crate::failure::{Failure, FailureView, Fault, LockError};
use crate::input::{
    classify, lemma_one_entry_per_comparison, node_fields, Classification, ClassificationView,
    Coordinates, GitHubInput, InputView,
};
use crate::json::{json_document, json_keys, json_member, json_text, keys, member, parse, text};
use crate::text::{decimal_digits, owned};

verus! {

/// An input that is behind its upstream, and by how many commits: never by
/// none.
#[derive(Debug, PartialEq, Eq)]
pub struct Update {
    input: GitHubInput,
    behind_by: u64,
}

/// An update as a plain value.
pub struct UpdateView {
    pub input: InputView,
    pub behind_by: u64,
}

impl View for Update {
    type V = UpdateView;

    closed spec fn view(&self) -> UpdateView {
        UpdateView { input: self.input@, behind_by: self.behind_by }
    }
}

/// What a finished check reports for a count: nothing where the input is up
/// to date.
pub open spec fn outcome(input: InputView, behind_by: u64) -> Option<UpdateView> {
    if behind_by == 0 {
        None
    } else {
        Some(UpdateView { input, behind_by })
    }
}

/// An optional update as a plain value.
pub open spec fn reported(update: Option<Update>) -> Option<UpdateView> {
    match update {
        Some(u) => Some(u@),
        None => None,
    }
}

impl Update {
    #[verifier::type_invariant]
    spec fn is_behind(self) -> bool {
        self.behind_by > 0
    }

    /// The update for an input that is `behind_by` commits behind; none where
    /// that is no commit at all.
    pub fn new(input: GitHubInput, behind_by: u64) -> (update: Option<Update>)
        ensures
            reported(update) == outcome(input@, behind_by),
    {
        if behind_by == 0 {
            None
        } else {
            Some(Update { input, behind_by })
        }
    }

    /// The input that is behind.
    pub fn input(&self) -> (input: &GitHubInput)
        ensures
            input@ == self@.input,
    {
        &self.input
    }

    /// The number of commits that the input is behind.
    pub fn behind_by(&self) -> (n: u64)
        ensures
            n == self@.behind_by,
            n > 0,
    {
        proof {
            use_type_invariant(self);
        }
        self.behind_by
    }
}

/// The sum of the counts of a sequence of updates.
pub open spec fn total_of(updates: Seq<UpdateView>) -> nat
    decreases updates.len(),
{
    if updates.len() == 0 {
        0
    } else {
        total_of(updates.drop_last()) + updates.last().behind_by as nat
    }
}

/// The updates of a vector as plain values.
pub open spec fn update_views(updates: Seq<Update>) -> Seq<UpdateView> {
    updates.map_values(|u: Update| u@)
}

/// What a reconciliation found: the inputs that are behind, and the number of
/// commits that they are behind together.
#[derive(Debug, PartialEq, Eq)]
pub struct ReconciliationResult {
    updates: Vec<Update>,
    total: u128,
}

/// The result of a reconciliation as a plain value.
pub struct ResultView {
    pub updates: Seq<UpdateView>,
    pub total: nat,
}

impl View for ReconciliationResult {
    type V = ResultView;

    closed spec fn view(&self) -> ResultView {
        ResultView { updates: update_views(self.updates@), total: self.total as nat }
    }
}

/// The result with nothing in it.
pub open spec fn nothing_found() -> ResultView {
    ResultView { updates: Seq::empty(), total: 0 }
}

/// The result after one more check has reported.
pub open spec fn record_spec(found: ResultView, report: Option<UpdateView>) -> ResultView {
    match report {
        None => found,
        Some(u) => ResultView {
            updates: found.updates.push(u),
            total: found.total + u.behind_by as nat,
        },
    }
}

/// No sum of counts is larger than as many times the largest count.
pub proof fn lemma_total_bound(updates: Seq<UpdateView>)
    ensures
        total_of(updates) <= updates.len() * u64::MAX,
    decreases updates.len(),
{
    if updates.len() > 0 {
        lemma_total_bound(updates.drop_last());
    }
}

impl ReconciliationResult {
    #[verifier::type_invariant]
    spec fn adds_up(self) -> bool {
        self.total as nat == total_of(update_views(self.updates@))
    }

    /// The result of a reconciliation that has heard of no input yet.
    pub fn new() -> (found: ReconciliationResult)
        ensures
            found@ == nothing_found(),
    {
        let found = ReconciliationResult { updates: Vec::new(), total: 0 };
        assert(update_views(found.updates@) =~= Seq::empty());
        found
    }

    /// Takes in what one check reports: an update is added at the end and
    /// counted, and nothing changes where there is none.
    pub fn record(self, report: Option<Update>) -> (found: ReconciliationResult)
        ensures
            found@ == record_spec(self@, reported(report)),
    {
        proof {
            use_type_invariant(&self);
        }
        match report {
            None => self,
            Some(update) => {
                let ReconciliationResult { mut updates, total } = self;
                let ghost before = update_views(updates@);
                let held: usize = updates.len();
                proof {
                    lemma_total_bound(before);
                    assert(before.len() == held);
                    assert(before.len() * u64::MAX <= usize::MAX * u64::MAX) by (nonlinear_arith)
                        requires
                            before.len() <= usize::MAX,
                    ;
                    assert(usize::MAX * u64::MAX + u64::MAX <= u128::MAX) by (nonlinear_arith)
                        requires
                            usize::MAX <= u64::MAX,
                            u64::MAX == 0xffff_ffff_ffff_ffff,
                            u128::MAX == 0xffff_ffff_ffff_ffff_ffff_ffff_ffff_ffff,
                    ;
                }
                let total = total + update.behind_by as u128;
                updates.push(update);
                proof {
                    assert(update_views(updates@) =~= before.push(update@));
                    assert(before.push(update@).drop_last() =~= before);
                }
                ReconciliationResult { updates, total }
            },
        }
    }

    /// The inputs that are behind, in the order in which they were reported.
    pub fn updates(&self) -> (updates: &Vec<Update>)
        ensures
            update_views(updates@) == self@.updates,
    {
        &self.updates
    }

    /// The number of commits that the inputs are behind together: the sum of
    /// the counts of the updates.
    pub fn total(&self) -> (total: u128)
        ensures
            total == self@.total,
            total == total_of(self@.updates),
    {
        proof {
            use_type_invariant(self);
        }
        self.total
    }
}

/// What the caller reports of the request that it performed.
#[derive(Debug, PartialEq, Eq)]
pub enum Event {
    /// The cache holds no entry for the comparison.
    CacheMiss,
    /// The cache holds an entry, with this text.
    CacheHit(String),
    /// The cache holds an entry that could not be read.
    CacheUnreadable,
    /// The remote host counted this many commits.
    Compared(i64),
    /// The remote host could not be asked, or refused.
    CompareFailed,
    /// The entry was written.
    Stored,
    /// The entry could not be written.
    StoreFailed,
}

/// An event as a plain value.
pub enum EventView {
    CacheMiss,
    CacheHit(Seq<char>),
    CacheUnreadable,
    Compared(i64),
    CompareFailed,
    Stored,
    StoreFailed,
}

impl View for Event {
    type V = EventView;

    open spec fn view(&self) -> EventView {
        match self {
            Event::CacheMiss => EventView::CacheMiss,
            Event::CacheHit(text) => EventView::CacheHit(text@),
            Event::CacheUnreadable => EventView::CacheUnreadable,
            Event::Compared(n) => EventView::Compared(*n),
            Event::CompareFailed => EventView::CompareFailed,
            Event::Stored => EventView::Stored,
            Event::StoreFailed => EventView::StoreFailed,
        }
    }
}

/// Where the check of one input stands.
#[derive(Debug, PartialEq, Eq)]
pub enum Stage {
    /// Waiting to hear what the cache holds for the input.
    AwaitingCache(GitHubInput),
    /// Waiting for the remote host to compare.
    AwaitingRemote(GitHubInput),
    /// Waiting for the count to be written to the cache.
    AwaitingWrite { input: GitHubInput, behind_by: u64, content: String },
    /// Finished, with an update if the input is behind.
    Done(Option<Update>),
    /// Failed.
    Failed(Failure),
}

/// A stage as a plain value.
pub enum StageView {
    AwaitingCache(InputView),
    AwaitingRemote(InputView),
    AwaitingWrite { input: InputView, behind_by: u64, content: Seq<char> },
    Done(Option<UpdateView>),
    Failed(FailureView),
}

impl View for Stage {
    type V = StageView;

    open spec fn view(&self) -> StageView {
        match self {
            Stage::AwaitingCache(input) => StageView::AwaitingCache(input@),
            Stage::AwaitingRemote(input) => StageView::AwaitingRemote(input@),
            Stage::AwaitingWrite { input, behind_by, content } => StageView::AwaitingWrite {
                input: input@,
                behind_by: *behind_by,
                content: content@,
            },
            Stage::Done(update) => StageView::Done(reported(*update)),
            Stage::Failed(failure) => StageView::Failed(failure@),
        }
    }
}

/// What a stage asks its caller to do.
#[derive(Debug, PartialEq, Eq)]
pub enum Request {
    /// Look for the entry at this path below the state directory.
    ReadEntry { path: String },
    /// Ask the remote host how many commits `head` is behind `base`.
    Compare { owner: String, repo: String, base: String, head: String },
    /// Write this text to the entry at this path, with the directories above
    /// it.
    WriteEntry { path: String, content: String },
    /// Nothing: the check is over.
    Nothing,
}

/// A request as a plain value.
pub enum RequestView {
    ReadEntry { path: Seq<char> },
    Compare { owner: Seq<char>, repo: Seq<char>, base: Seq<char>, head: Seq<char> },
    WriteEntry { path: Seq<char>, content: Seq<char> },
    Nothing,
}

impl View for Request {
    type V = RequestView;

    open spec fn view(&self) -> RequestView {
        match self {
            Request::ReadEntry { path } => RequestView::ReadEntry { path: path@ },
            Request::Compare { owner, repo, base, head } => RequestView::Compare {
                owner: owner@,
                repo: repo@,
                base: base@,
                head: head@,
            },
            Request::WriteEntry { path, content } => RequestView::WriteEntry {
                path: path@,
                content: content@,
            },
            Request::Nothing => RequestView::Nothing,
        }
    }
}

/// A stage together with the request that it makes.
#[derive(Debug, PartialEq, Eq)]
pub struct Step {
    pub stage: Stage,
    pub request: Request,
}

/// A step as a plain value.
pub struct StepView {
    pub stage: StageView,
    pub request: RequestView,
}

impl View for Step {
    type V = StepView;

    open spec fn view(&self) -> StepView {
        StepView { stage: self.stage@, request: self.request@ }
    }
}

/// The step that a stage makes: the stage with the request that it asks for.
pub open spec fn step_of(stage: StageView) -> StepView {
    StepView { stage, request: request_spec(stage) }
}

/// The failure of the check of an input.
pub open spec fn failed(input: Seq<char>, fault: Fault) -> StageView {
    StageView::Failed(FailureView { input, fault })
}

/// The request of each stage. The cache is read and written at the path of
/// the input's comparison; the remote host is asked about the input's ref and
/// locked revision; a check that is over asks for nothing.
pub open spec fn request_spec(stage: StageView) -> RequestView {
    match stage {
        StageView::AwaitingCache(input) => RequestView::ReadEntry { path: input.cache_path() },
        StageView::AwaitingRemote(input) => RequestView::Compare {
            owner: input.owner,
            repo: input.repo,
            base: input.base_ref,
            head: input.rev,
        },
        StageView::AwaitingWrite { input, behind_by, content } => RequestView::WriteEntry {
            path: input.cache_path(),
            content,
        },
        StageView::Done(_) => RequestView::Nothing,
        StageView::Failed(_) => RequestView::Nothing,
    }
}

/// The first stage of the check of the input `name`, which the root node
/// resolves to `id`. An input without a node identifier and a malformed node
/// fail the check; a node of an unsupported type finishes it with nothing to
/// report; a tracked input goes to the cache first.
pub open spec fn begin_spec(
    nodes: serde_json::Value,
    name: Seq<char>,
    id: Option<Seq<char>>,
) -> StageView {
    match id {
        None => failed(name, Fault::NoNodeId),
        Some(id) => match classify(name, id, node_fields(nodes, id)) {
            Err(fault) => failed(name, fault),
            Ok(ClassificationView::Unsupported(_)) => StageView::Done(None),
            Ok(ClassificationView::Supported(input)) => StageView::AwaitingCache(input),
        },
    }
}

/// The stage that follows a stage on an event.
///
/// A cache hit finishes the check with the count that the entry holds, and
/// fails it where the entry holds none. A miss sends the check to the remote
/// host. The host's count is written to the cache, in decimal digits, before
/// the check finishes with it; a negative count fails the check. An event that the stage did not
/// ask for fails the check, and a check that is over stays as it is.
pub open spec fn advance_spec(stage: StageView, event: EventView) -> StageView {
    match stage {
        StageView::AwaitingCache(input) => match event {
            EventView::CacheMiss => StageView::AwaitingRemote(input),
            EventView::CacheHit(text) => match read_count(text) {
                Ok(behind_by) => StageView::Done(outcome(input, behind_by)),
                Err(fault) => failed(input.name, fault),
            },
            EventView::CacheUnreadable => failed(input.name, Fault::EntryUnreadable),
            _ => failed(input.name, Fault::OutOfTurn),
        },
        StageView::AwaitingRemote(input) => match event {
            EventView::Compared(n) => if n < 0 {
                failed(input.name, Fault::RemoteCountNegative)
            } else {
                StageView::AwaitingWrite {
                    input,
                    behind_by: n as u64,
                    content: decimal_digits(n as nat),
                }
            },
            EventView::CompareFailed => failed(input.name, Fault::RemoteFailed),
            _ => failed(input.name, Fault::OutOfTurn),
        },
        StageView::AwaitingWrite { input, behind_by, content } => match event {
            EventView::Stored => StageView::Done(outcome(input, behind_by)),
            EventView::StoreFailed => failed(input.name, Fault::EntryUnwritable),
            _ => failed(input.name, Fault::OutOfTurn),
        },
        StageView::Done(_) => stage,
        StageView::Failed(_) => stage,
    }
}

fn fail(input: &GitHubInput, fault: Fault) -> (stage: Stage)
    ensures
        stage@ == failed(input@.name, fault),
{
    Stage::Failed(Failure { input: input.name.clone(), fault })
}

impl Stage {
    /// What this stage asks the caller to do.
    pub fn request(&self) -> (request: Request)
        ensures
            request@ == request_spec(self@),
    {
        match self {
            Stage::AwaitingCache(input) => Request::ReadEntry { path: input.cache_path() },
            Stage::AwaitingRemote(input) => Request::Compare {
                owner: input.owner.clone(),
                repo: input.repo.clone(),
                base: input.base_ref.clone(),
                head: input.rev.clone(),
            },
            Stage::AwaitingWrite { input, behind_by, content } => Request::WriteEntry {
                path: input.cache_path(),
                content: content.clone(),
            },
            Stage::Done(_) => Request::Nothing,
            Stage::Failed(_) => Request::Nothing,
        }
    }

    /// Whether the check finished well. Where the first check of an entry did
    /// not, the checks that wait for it need not run: the join fails anyway.
    pub fn is_done(&self) -> (done: bool)
        ensures
            done == (self@ is Done),
    {
        match self {
            Stage::Done(_) => true,
            _ => false,
        }
    }

    /// Whether the check is over, for better or worse.
    pub fn is_over(&self) -> (over: bool)
        ensures
            over == (self@ is Done || self@ is Failed),
    {
        match self {
            Stage::Done(_) => true,
            Stage::Failed(_) => true,
            _ => false,
        }
    }

    /// Begins the check of the input `name`, which the root node resolves to
    /// the node `id` of `nodes`.
    pub fn begin(nodes: &serde_json::Value, name: &str, id: Option<&str>) -> (first: Step)
        ensures
            first@ == step_of(begin_spec(*nodes, name@, id.deep_view())),
    {
        let stage = match id {
            None => Stage::Failed(Failure { input: String::from_str(name), fault: Fault::NoNodeId }),
            Some(id) => match GitHubInput::new(nodes, name, id) {
                Err(fault) => Stage::Failed(Failure { input: String::from_str(name), fault }),
                Ok(Classification::Unsupported(_)) => Stage::Done(None),
                Ok(Classification::Supported(input)) => Stage::AwaitingCache(input),
            },
        };
        let request = stage.request();
        Step { stage, request }
    }

    /// Takes the check one step on: from this stage, on what the caller
    /// reports, to the next stage and its request.
    pub fn advance(self, event: Event) -> (next: Step)
        ensures
            next@ == step_of(advance_spec(self@, event@)),
    {
        let stage = match self {
            Stage::AwaitingCache(input) => match event {
                Event::CacheMiss => Stage::AwaitingRemote(input),
                Event::CacheHit(text) => match read_entry(text.as_str()) {
                    Ok(behind_by) => Stage::Done(Update::new(input, behind_by)),
                    Err(fault) => fail(&input, fault),
                },
                Event::CacheUnreadable => fail(&input, Fault::EntryUnreadable),
                _ => fail(&input, Fault::OutOfTurn),
            },
            Stage::AwaitingRemote(input) => match event {
                Event::Compared(n) => if n < 0 {
                    fail(&input, Fault::RemoteCountNegative)
                } else {
                    let behind_by = n as u64;
                    let content = write_entry(behind_by);
                    Stage::AwaitingWrite { input, behind_by, content }
                },
                Event::CompareFailed => fail(&input, Fault::RemoteFailed),
                _ => fail(&input, Fault::OutOfTurn),
            },
            Stage::AwaitingWrite { input, behind_by, content } => match event {
                Event::Stored => Stage::Done(Update::new(input, behind_by)),
                Event::StoreFailed => fail(&input, Fault::EntryUnwritable),
                _ => fail(&input, Fault::OutOfTurn),
            },
            Stage::Done(update) => Stage::Done(update),
            Stage::Failed(failure) => Stage::Failed(failure),
        };
        let request = stage.request();
        Step { stage, request }
    }
}

/// An input as the root node names it.
#[derive(Debug, PartialEq, Eq)]
pub struct RootInput {
    /// The name that the flake gives the input.
    pub name: String,
    /// The node that the name resolves to, where the root node gives one as
    /// a string.
    pub id: Option<String>,
}

/// A root input as a plain value.
pub struct RootInputView {
    pub name: Seq<char>,
    pub id: Option<Seq<char>>,
}

impl View for RootInput {
    type V = RootInputView;

    open spec fn view(&self) -> RootInputView {
        RootInputView { name: self.name@, id: self.id.deep_view() }
    }
}

/// The object in which the root node of a lock file lists its inputs.
pub open spec fn inputs_of(lock: serde_json::Value) -> serde_json::Value {
    json_member(json_member(json_member(lock, "nodes"@), "root"@), "inputs"@)
}

/// The inputs of the root node: every key of its `inputs`, in the order of
/// the object, with the string that stands under it. None where `inputs` is
/// no object.
pub open spec fn root_inputs_spec(lock: serde_json::Value) -> Option<Seq<RootInputView>> {
    match json_keys(inputs_of(lock)) {
        None => None,
        Some(names) => Some(
            Seq::new(
                names.len(),
                |i: int|
                    RootInputView {
                        name: names[i],
                        id: json_text(json_member(inputs_of(lock), names[i])),
                    },
            ),
        ),
    }
}

/// The root inputs of a vector as plain values.
pub open spec fn root_views(roots: Seq<RootInput>) -> Seq<RootInputView> {
    roots.map_values(|r: RootInput| r@)
}

/// Lists the inputs of the root node of a lock file.
pub fn root_inputs(lock: &serde_json::Value) -> (r: Result<Vec<RootInput>, LockError>)
    ensures
        match root_inputs_spec(*lock) {
            None => r == Err::<Vec<RootInput>, LockError>(LockError::NoRootInputs),
            Some(listed) => r is Ok && root_views(r->Ok_0@) == listed,
        },
{
    let inputs = member(member(member(lock, "nodes"), "root"), "inputs");
    let names = match keys(inputs) {
        Some(names) => names,
        None => {
            return Err(LockError::NoRootInputs);
        },
    };
    let ghost listed = root_inputs_spec(*lock)->0;
    let mut roots: Vec<RootInput> = Vec::new();
    let mut i: usize = 0;
    while i < names.len()
        invariant
            i <= names.len(),
            *inputs == inputs_of(*lock),
            json_keys(*inputs) == Some(names.deep_view()),
            listed == root_inputs_spec(*lock)->0,
            roots.len() == i,
            forall|j: int| 0 <= j < i ==> (#[trigger] roots[j])@ == listed[j],
        decreases names.len() - i,
    {
        let name = names[i].clone();
        let id = owned(text(member(inputs, names[i].as_str())));
        roots.push(RootInput { name, id });
        i += 1;
    }
    assert(root_views(roots@) =~= listed);
    Ok(roots)
}

/// The first stage of every check that a lock file asks for, in the order of
/// its root inputs.
pub open spec fn plan_spec(lock_text: Seq<char>) -> Result<Seq<StageView>, LockError> {
    match json_document(lock_text) {
        None => Err(LockError::NotJson),
        Some(lock) => match root_inputs_spec(lock) {
            None => Err(LockError::NoRootInputs),
            Some(listed) => Ok(
                Seq::new(
                    listed.len(),
                    |i: int| begin_spec(json_member(lock, "nodes"@), listed[i].name, listed[i].id),
                ),
            ),
        },
    }
}

/// Reads a lock file and begins one check for each input of its root node.
/// The checks come in the order of the root inputs, each with its first
/// request.
pub fn plan(lock_text: &str) -> (r: Result<Vec<Step>, LockError>)
    ensures
        match plan_spec(lock_text@) {
            Err(e) => r == Err::<Vec<Step>, LockError>(e),
            Ok(stages) => {
                &&& r is Ok
                &&& r->Ok_0@.len() == stages.len()
                &&& forall|i: int|
                    0 <= i < stages.len() ==> (#[trigger] r->Ok_0@[i])@ == step_of(stages[i])
            },
        },
{
    let lock = match parse(lock_text) {
        Ok(lock) => lock,
        Err(_) => {
            return Err(LockError::NotJson);
        },
    };
    let roots = match root_inputs(&lock) {
        Ok(roots) => roots,
        Err(e) => {
            return Err(e);
        },
    };
    let nodes = member(&lock, "nodes");
    let ghost stages = plan_spec(lock_text@)->Ok_0;
    let mut steps: Vec<Step> = Vec::new();
    let mut i: usize = 0;
    while i < roots.len()
        invariant
            i <= roots.len(),
            *nodes == json_member(lock, "nodes"@),
            Some(root_views(roots@)) == root_inputs_spec(lock),
            plan_spec(lock_text@) == Ok::<Seq<StageView>, LockError>(stages),
            json_document(lock_text@) == Some(lock),
            steps.len() == i,
            forall|j: int| 0 <= j < i ==> (#[trigger] steps[j])@ == step_of(stages[j]),
        decreases roots.len() - i,
    {
        let root = &roots[i];
        assert(root_views(roots@)[i as int] == root@);
        let id = match &root.id {
            Some(id) => Some(id.as_str()),
            None => None,
        };
        steps.push(Stage::begin(nodes, root.name.as_str(), id));
        i += 1;
    }
    Ok(steps)
}

/// The comparison whose cache entry a stage is about to read.
pub open spec fn awaited(stage: StageView) -> Option<Coordinates> {
    match stage {
        StageView::AwaitingCache(input) => Some(input.coordinates()),
        _ => None,
    }
}

/// Whether check `j` is the first among the checks up to `i` that is about to
/// read the cache entry that check `i` is about to read. A check that reads no
/// entry is its own first.
pub open spec fn is_first_alike(stages: Seq<StageView>, i: int, j: int) -> bool {
    &&& 0 <= j <= i
    &&& match awaited(stages[i]) {
        None => j == i,
        Some(c) => {
            &&& awaited(stages[j]) == Some(c)
            &&& forall|k: int| 0 <= k < j ==> awaited(#[trigger] stages[k]) != Some(c)
        },
    }
}

/// The stages of the steps of a plan, as plain values. The requests play no
/// part in what follows: each is what its stage asks for.
pub open spec fn step_stages(steps: Seq<Step>) -> Seq<StageView> {
    steps.map_values(|s: Step| s@.stage)
}

fn awaits(stage: &Stage, input: &GitHubInput) -> (alike: bool)
    ensures
        alike == (awaited(stage@) == Some(input@.coordinates())),
{
    match stage {
        Stage::AwaitingCache(other) => other.same_comparison(input),
        _ => false,
    }
}

/// Finds, for every check of a plan, the first check that is about to read
/// the same cache entry. Checks that are their own first read entries of
/// their own and can run side by side; each of the others finds the answer in
/// the cache once its first is over.
pub fn first_alike(steps: &Vec<Step>) -> (firsts: Vec<usize>)
    ensures
        firsts.len() == steps.len(),
        forall|i: int|
            0 <= i < steps.len() ==> is_first_alike(step_stages(steps@), i, #[trigger] firsts[i] as int),
{
    let ghost stages = step_stages(steps@);
    let mut firsts: Vec<usize> = Vec::new();
    let mut i: usize = 0;
    while i < steps.len()
        invariant
            i <= steps.len(),
            stages == step_stages(steps@),
            firsts.len() == i,
            forall|m: int| 0 <= m < i ==> is_first_alike(stages, m, #[trigger] firsts[m] as int),
        decreases steps.len() - i,
    {
        let first = match &steps[i].stage {
            Stage::AwaitingCache(input) => {
                let mut j: usize = 0;
                while j < i && !awaits(&steps[j].stage, input)
                    invariant
                        j <= i < steps.len(),
                        stages == step_stages(steps@),
                        awaited(stages[i as int]) == Some(input@.coordinates()),
                        forall|k: int|
                            0 <= k < j ==> awaited(#[trigger] stages[k]) != Some(
                                input@.coordinates(),
                            ),
                    decreases i - j,
                {
                    j += 1;
                }
                j
            },
            _ => i,
        };
        firsts.push(first);
        i += 1;
    }
    firsts
}

/// Checks that are about to read the same entry have the same first.
pub proof fn lemma_alike_share_their_first(
    stages: Seq<StageView>,
    i1: int,
    j1: int,
    i2: int,
    j2: int,
)
    requires
        0 <= i1 < stages.len(),
        0 <= i2 < stages.len(),
        is_first_alike(stages, i1, j1),
        is_first_alike(stages, i2, j2),
        awaited(stages[i1]) is Some,
        awaited(stages[i1]) == awaited(stages[i2]),
    ensures
        j1 == j2,
{
}

/// No two firsts read the same entry: where two different checks are both
/// their own first and both read the cache, they read it at different paths.
pub proof fn lemma_firsts_read_their_own_entries(stages: Seq<StageView>, i1: int, i2: int)
    requires
        0 <= i1 < i2 < stages.len(),
        is_first_alike(stages, i1, i1),
        is_first_alike(stages, i2, i2),
        request_spec(stages[i1]) is ReadEntry,
        request_spec(stages[i2]) is ReadEntry,
    ensures
        request_spec(stages[i1])->ReadEntry_path != request_spec(stages[i2])->ReadEntry_path,
{
    let a = stages[i1]->AwaitingCache_0;
    let b = stages[i2]->AwaitingCache_0;
    lemma_one_entry_per_comparison(a, b);
}

/// The stages of a vector as plain values.
pub open spec fn stage_views(stages: Seq<Stage>) -> Seq<StageView> {
    stages.map_values(|s: Stage| s@)
}

/// The outcome of a join as a plain value.
pub open spec fn joined(r: Result<ReconciliationResult, Failure>) -> Result<
    ResultView,
    FailureView,
> {
    match r {
        Ok(found) => Ok(found@),
        Err(failure) => Err(failure@),
    }
}

/// What one more check adds to what the checks before it came to. A failure
/// before it stands. A finished check is recorded, a failed one fails the
/// whole, and so does one that is not over.
pub open spec fn join_one(before: Result<ResultView, FailureView>, stage: StageView) -> Result<
    ResultView,
    FailureView,
> {
    match before {
        Err(failure) => Err(failure),
        Ok(found) => match stage {
            StageView::Done(report) => Ok(record_spec(found, report)),
            StageView::Failed(failure) => Err(failure),
            StageView::AwaitingCache(input) => Err(
                FailureView { input: input.name, fault: Fault::OutOfTurn },
            ),
            StageView::AwaitingRemote(input) => Err(
                FailureView { input: input.name, fault: Fault::OutOfTurn },
            ),
            StageView::AwaitingWrite { input, behind_by, content } => Err(
                FailureView { input: input.name, fault: Fault::OutOfTurn },
            ),
        },
    }
}

/// What the checks of a reconciliation come to, taken in their order: the
/// updates of those that found the input behind, with the sum of their
/// counts, or the failure of the first check that did not finish well.
pub open spec fn join_spec(stages: Seq<StageView>) -> Result<ResultView, FailureView>
    decreases stages.len(),
{
    if stages.len() == 0 {
        Ok(nothing_found())
    } else {
        join_one(join_spec(stages.drop_last()), stages.last())
    }
}

/// A failure among the first checks is the failure of the whole.
pub proof fn lemma_join_fails_fast(stages: Seq<StageView>, k: int)
    requires
        0 <= k <= stages.len(),
        join_spec(stages.take(k)) is Err,
    ensures
        join_spec(stages) == join_spec(stages.take(k)),
    decreases stages.len() - k,
{
    if k < stages.len() {
        assert(stages.take(k + 1).drop_last() =~= stages.take(k));
        lemma_join_fails_fast(stages, k + 1);
    } else {
        assert(stages.take(k) =~= stages);
    }
}

/// Joins the checks of a reconciliation, in the order given: all of them
/// have to be over, and one failure fails the whole.
pub fn join(stages: Vec<Stage>) -> (r: Result<ReconciliationResult, Failure>)
    ensures
        joined(r) == join_spec(stage_views(stages@)),
{
    let ghost all = stage_views(stages@);
    let mut found = ReconciliationResult::new();
    assert(all.take(0) =~= Seq::<StageView>::empty());
    for stage in it: stages
        invariant
            it.seq() == stages@,
            all == stage_views(stages@),
            join_spec(all.take(it.index() as int)) == Ok::<ResultView, FailureView>(found@),
    {
        let ghost k = it.index() as int;
        proof {
            assert(all.take(k + 1).drop_last() =~= all.take(k));
            assert(all.take(k + 1).last() == stage@);
        }
        match stage {
            Stage::Done(report) => {
                found = found.record(report);
            },
            Stage::Failed(failure) => {
                proof {
                    lemma_join_fails_fast(all, k + 1);
                }
                return Err(failure);
            },
            Stage::AwaitingCache(input) => {
                proof {
                    lemma_join_fails_fast(all, k + 1);
                }
                return Err(Failure { input: input.name, fault: Fault::OutOfTurn });
            },
            Stage::AwaitingRemote(input) => {
                proof {
                    lemma_join_fails_fast(all, k + 1);
                }
                return Err(Failure { input: input.name, fault: Fault::OutOfTurn });
            },
            Stage::AwaitingWrite { input, behind_by, content } => {
                proof {
                    lemma_join_fails_fast(all, k + 1);
                }
                return Err(Failure { input: input.name, fault: Fault::OutOfTurn });
            },
        }
    }
    assert(all.take(all.len() as int) =~= all);
    Ok(found)
}

/// Where a check stands after a run of events.
pub open spec fn run(stage: StageView, events: Seq<EventView>) -> StageView
    decreases events.len(),
{
    if events.len() == 0 {
        stage
    } else {
        run(advance_spec(stage, events[0]), events.drop_first())
    }
}

/// A check that is over stays where it is, whatever is reported to it.
pub proof fn lemma_over_is_over(stage: StageView, events: Seq<EventView>)
    requires
        stage is Done || stage is Failed,
    ensures
        run(stage, events) == stage,
    decreases events.len(),
{
    if events.len() > 0 {
        lemma_over_is_over(stage, events.drop_first());
    }
}

/// A cache hit keeps the remote host out of it: the hit ends the check, with
/// the count that the entry holds or with a failure, and whatever is reported
/// afterwards, the check never asks for a comparison.
pub proof fn lemma_hit_never_compares(input: InputView, entry: Seq<char>, later: Seq<EventView>)
    ensures
        advance_spec(StageView::AwaitingCache(input), EventView::CacheHit(entry)) == (match read_count(
            entry,
        ) {
            Ok(behind_by) => StageView::Done(outcome(input, behind_by)),
            Err(fault) => failed(input.name, fault),
        }),
        !(request_spec(
            run(advance_spec(StageView::AwaitingCache(input), EventView::CacheHit(entry)), later),
        ) is Compare),
{
    lemma_over_is_over(
        advance_spec(StageView::AwaitingCache(input), EventView::CacheHit(entry)),
        later,
    );
}

/// Only a check that waits for the remote host asks for a comparison, and it
/// waits for the remote host only after the cache has reported a miss.
pub proof fn lemma_compare_follows_miss(stage: StageView, event: EventView)
    ensures
        request_spec(stage) is Compare <==> stage is AwaitingRemote,
        advance_spec(stage, event) is AwaitingRemote <==> stage is AwaitingCache
            && event is CacheMiss,
{
}

/// An input that is no commit behind gives no update: neither where the
/// remote host counts none and the count has been stored, nor where the cache
/// holds a count of none.
pub proof fn lemma_up_to_date_reports_nothing(input: InputView, entry: Seq<char>)
    ensures
        advance_spec(StageView::AwaitingRemote(input), EventView::Compared(0)) matches StageView::AwaitingWrite {
            input: waiting,
            behind_by,
            content,
        } ==> advance_spec(
            StageView::AwaitingWrite { input: waiting, behind_by, content },
            EventView::Stored,
        ) == StageView::Done(None),
        read_count(entry) == Ok::<u64, Fault>(0) ==> advance_spec(
            StageView::AwaitingCache(input),
            EventView::CacheHit(entry),
        ) == StageView::Done(None),
{
}

/// A miss that the remote host answers takes the check to its end in three
/// steps: the count is written in decimal digits at the path of the
/// comparison, and once it is stored the check reports the input with that
/// count, or nothing where the count is zero.
pub proof fn lemma_miss_reports_the_remote_count(input: InputView, n: i64)
    requires
        n >= 0,
    ensures
        advance_spec(StageView::AwaitingCache(input), EventView::CacheMiss)
            == StageView::AwaitingRemote(input),
        advance_spec(StageView::AwaitingRemote(input), EventView::Compared(n))
            == (StageView::AwaitingWrite {
            input,
            behind_by: n as u64,
            content: decimal_digits(n as nat),
        }),
        request_spec(advance_spec(StageView::AwaitingRemote(input), EventView::Compared(n)))
            == (RequestView::WriteEntry {
            path: input.cache_path(),
            content: decimal_digits(n as nat),
        }),
        run(
            StageView::AwaitingCache(input),
            seq![EventView::CacheMiss, EventView::Compared(n), EventView::Stored],
        ) == StageView::Done(outcome(input, n as u64)),
{
    let events = seq![EventView::CacheMiss, EventView::Compared(n), EventView::Stored];
    let after_miss = StageView::AwaitingRemote(input);
    let after_count = StageView::AwaitingWrite {
        input,
        behind_by: n as u64,
        content: decimal_digits(n as nat),
    };
    let done = StageView::Done(outcome(input, n as u64));
    assert(events.drop_first() =~= seq![EventView::Compared(n), EventView::Stored]);
    assert(events.drop_first().drop_first() =~= seq![EventView::Stored]);
    assert(events.drop_first().drop_first().drop_first() =~= Seq::<EventView>::empty());
    assert(run(done, Seq::<EventView>::empty()) == done);
    assert(run(after_count, seq![EventView::Stored]) == done);
    assert(run(after_miss, seq![EventView::Compared(n), EventView::Stored]) == done);
}

/// One check that did not finish well fails the whole: where any stage is
/// not done, the join gives a failure, whatever the other checks found.
pub proof fn lemma_one_failure_fails_all(stages: Seq<StageView>, k: int)
    requires
        0 <= k < stages.len(),
        !(stages[k] is Done),
    ensures
        join_spec(stages) is Err,
{
    assert(stages.take(k + 1).drop_last() =~= stages.take(k));
    assert(stages.take(k + 1).last() == stages[k]);
    lemma_join_fails_fast(stages, k + 1);
}

/// A stage that reports an update reports a count above zero.
pub open spec fn reports_behind(stage: StageView) -> bool {
    stage matches StageView::Done(Some(update)) ==> update.behind_by > 0
}

/// No check ever reports an update for an input that is not behind: the
/// first stage does not, and no step leads to a stage that does.
pub proof fn lemma_updates_are_behind(
    nodes: serde_json::Value,
    name: Seq<char>,
    id: Option<Seq<char>>,
    stage: StageView,
    event: EventView,
)
    ensures
        reports_behind(begin_spec(nodes, name, id)),
        reports_behind(stage) ==> reports_behind(advance_spec(stage, event)),
{
}

/// A check that reports nothing adds nothing: the updates and the total are
/// what they are without it.
pub proof fn lemma_nothing_adds_nothing(stages: Seq<StageView>)
    ensures
        join_spec(stages.push(StageView::Done(None))) == join_spec(stages),
{
    assert(stages.push(StageView::Done(None)).drop_last() =~= stages);
}

/// The total of a reconciliation is the sum of the counts of its updates.
pub proof fn lemma_total_is_sum(stages: Seq<StageView>)
    ensures
        join_spec(stages) matches Ok(found) ==> found.total == total_of(found.updates),
    decreases stages.len(),
{
    if stages.len() > 0 {
        lemma_total_is_sum(stages.drop_last());
        if let Ok(before) = join_spec(stages.drop_last()) {
            if let StageView::Done(Some(update)) = stages.last() {
                assert(before.updates.push(update).drop_last() =~= before.updates);
            }
        }
    }
}

/// The checks that finished with the given updates, one each.
pub open spec fn finished_with(updates: Seq<UpdateView>) -> Seq<StageView> {
    updates.map_values(|u: UpdateView| StageView::Done(Some(u)))
}

/// Joining checks that finished with the given updates gives those updates
/// and their sum.
pub proof fn lemma_join_of_updates(updates: Seq<UpdateView>)
    ensures
        join_spec(finished_with(updates)) == Ok::<ResultView, FailureView>(
            ResultView { updates, total: total_of(updates) },
        ),
    decreases updates.len(),
{
    if updates.len() == 0 {
        assert(updates =~= Seq::empty());
    } else {
        lemma_join_of_updates(updates.drop_last());
        assert(finished_with(updates).drop_last() =~= finished_with(updates.drop_last()));
        assert(updates.drop_last().push(updates.last()) =~= updates);
    }
}

/// Adding up again changes nothing: the updates that a reconciliation
/// produced, joined once more, give the same updates and the same total.
pub proof fn lemma_joining_again(stages: Seq<StageView>)
    ensures
        join_spec(stages) matches Ok(found) ==> join_spec(finished_with(found.updates))
            == join_spec(stages),
{
    if let Ok(found) = join_spec(stages) {
        lemma_total_is_sum(stages);
        lemma_join_of_updates(found.updates);
    }
}

/// Taking one update out of a sequence takes its count out of the sum.
proof fn lemma_total_without(updates: Seq<UpdateView>, i: int)
    requires
        0 <= i < updates.len(),
    ensures
        total_of(updates) == total_of(updates.remove(i)) + updates[i].behind_by,
    decreases updates.len(),
{
    if i == updates.len() - 1 {
        assert(updates.remove(i) =~= updates.drop_last());
    } else {
        lemma_total_without(updates.drop_last(), i);
        assert(updates.remove(i).drop_last() =~= updates.drop_last().remove(i));
        assert(updates.remove(i).last() == updates.last());
    }
}

/// The total does not depend on the order in which the checks report: the
/// same updates, in whatever order, add up to the same.
pub proof fn lemma_total_ignores_order(a: Seq<UpdateView>, b: Seq<UpdateView>)
    requires
        a.to_multiset() == b.to_multiset(),
    ensures
        total_of(a) == total_of(b),
    decreases a.len(),
{
    to_multiset_len(a);
    to_multiset_len(b);
    if a.len() > 0 {
        let last = a.len() - 1;
        let x = a[last];
        assert(a.contains(x));
        to_multiset_contains(a, x);
        to_multiset_contains(b, x);
        let i = choose|i: int| 0 <= i < b.len() && b[i] == x;
        to_multiset_remove(a, last);
        to_multiset_remove(b, i);
        assert(a.remove(last) =~= a.drop_last());
        lemma_total_ignores_order(a.drop_last(), b.remove(i));
        lemma_total_without(b, i);
    }
}

} // verus!
