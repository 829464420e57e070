//! The render orchestrator's bookkeeping for one batch.
//!
//! A batch goes through four phases: its jobs are dispatched, their results
//! are collected in whatever order the jobs finish, the results are put into
//! the order of the jobs, and they are delivered. The functions here decide;
//! starting jobs and waiting for results is the caller's part.

use vstd::prelude::*;
use vstd::string::StringExecFns;

verus! {

/// The number of batches that may wait for the renderer; a caller that brings
/// one more waits until there is room.
pub const BATCH_QUEUE_SLOTS: usize = 32;

/// The number of results of one batch that may wait to be collected; a job
/// that brings one more waits until there is room.
pub const RESULT_QUEUE_SLOTS: usize = 32;

/// The step at which rendering one job failed.
#[derive(Clone, Copy, Debug, PartialEq, Eq, Structural)]
pub enum RenderFailure {
    /// The tab did not get to the content.
    Navigation,
    /// The browser could not be talked to.
    BrowserIo,
    /// The page was reached and printing it failed.
    Capture,
}

/// Why one job gave no PDF.
#[derive(Clone, Debug, PartialEq, Eq)]
pub struct JobRenderError {
    pub cause: RenderFailure,
    pub message: String,
}

/// The outcome of one job: the bytes of its PDF, or why there are none.
pub type InternalResponse = Result<Vec<u8>, JobRenderError>;

/// The outcome of one job together with the position of the job in its
/// batch.
#[derive(Debug)]
pub struct RendererResponse {
    pub resp: InternalResponse,
    pub order: usize,
}

/// The outcome of a job whose tab was closed after printing: what printing
/// gave, unless printing went well and closing did not.
pub open spec fn concluded(printed: InternalResponse, closed: Result<(), String>)
    -> InternalResponse {
    match printed {
        Err(e) => Err(e),
        Ok(bytes) => match closed {
            Ok(_) => Ok(bytes),
            Err(message) => Err(JobRenderError { cause: RenderFailure::BrowserIo, message }),
        },
    }
}

/// Decides the outcome of a job once its tab is closed. The tab is closed
/// whether printing went well or not. A job that failed keeps its own
/// failure; a job that printed and whose tab could not be closed has failed
/// at the browser.
pub fn conclude(printed: InternalResponse, closed: Result<(), String>) -> (outcome:
    InternalResponse)
    ensures
        outcome == concluded(printed, closed),
{
    match printed {
        Err(e) => Err(e),
        Ok(bytes) => match closed {
            Ok(_) => Ok(bytes),
            Err(message) => Err(JobRenderError { cause: RenderFailure::BrowserIo, message }),
        },
    }
}

/// The response of a job that names nothing to render: it has failed before
/// its tab got anywhere, for the reason given.
pub fn without_content(order: usize, reason: &str) -> (response: RendererResponse)
    ensures
        response.order == order,
        response.resp matches Err(e) && e.cause == RenderFailure::Navigation && e.message@
            == reason@,
{
    RendererResponse {
        resp: Err(
            JobRenderError { cause: RenderFailure::Navigation, message: String::from_str(reason) },
        ),
        order,
    }
}

/// Where a response with the position `order` goes in `sorted`: behind every
/// response whose position is not higher.
pub open spec fn slot_for(sorted: Seq<RendererResponse>, order: usize) -> int
    decreases sorted.len(),
{
    if sorted.len() == 0 || sorted.last().order <= order {
        sorted.len() as int
    } else {
        slot_for(sorted.drop_last(), order)
    }
}

/// The responses by the position of their jobs. Responses with the same
/// position keep the order in which they came.
pub open spec fn in_order(responses: Seq<RendererResponse>) -> Seq<RendererResponse>
    decreases responses.len(),
{
    if responses.len() == 0 {
        Seq::empty()
    } else {
        let before = in_order(responses.drop_last());
        before.insert(slot_for(before, responses.last().order), responses.last())
    }
}

/// Whether no response stands before one of a lower position.
pub open spec fn ordered(responses: Seq<RendererResponse>) -> bool {
    forall|i: int, j: int|
        0 <= i < j < responses.len() ==> (#[trigger] responses[i]).order <= (
        #[trigger] responses[j]).order
}

/// Whether each response is that of a job of a batch of `jobs` jobs, and no
/// two are those of one job.
pub open spec fn of_different_jobs(responses: Seq<RendererResponse>, jobs: nat) -> bool {
    &&& forall|i: int| 0 <= i < responses.len() ==> (#[trigger] responses[i]).order < jobs
    &&& forall|i: int, j: int|
        0 <= i < j < responses.len() ==> (#[trigger] responses[i]).order != (
        #[trigger] responses[j]).order
}

/// Whether the responses are those of `jobs` different jobs, one of each.
pub open spec fn one_per_job(responses: Seq<RendererResponse>, jobs: nat) -> bool {
    responses.len() == jobs && of_different_jobs(responses, jobs)
}

/// Whether one of the responses is that of the job at position `order`.
pub open spec fn has_response_of(responses: Seq<RendererResponse>, order: usize) -> bool {
    exists|i: int| 0 <= i < responses.len() && (#[trigger] responses[i]).order == order
}

/// The outcomes of the responses, in their order.
pub open spec fn outcomes(responses: Seq<RendererResponse>) -> Seq<InternalResponse> {
    Seq::new(responses.len(), |i: int| responses[i].resp)
}

/// A slot lies within the sequence; what stands before it is not higher than
/// the position, what stands from it on is.
pub proof fn lemma_slot(sorted: Seq<RendererResponse>, order: usize)
    requires
        ordered(sorted),
    ensures
        0 <= slot_for(sorted, order) <= sorted.len(),
        forall|i: int| 0 <= i < slot_for(sorted, order) ==> (#[trigger] sorted[i]).order <= order,
        forall|i: int|
            slot_for(sorted, order) <= i < sorted.len() ==> (#[trigger] sorted[i]).order > order,
    decreases sorted.len(),
{
    if !(sorted.len() == 0 || sorted.last().order <= order) {
        let shorter = sorted.drop_last();
        assert(ordered(shorter)) by {
            assert forall|i: int, j: int| 0 <= i < j < shorter.len() implies (
            #[trigger] shorter[i]).order <= (#[trigger] shorter[j]).order by {
                assert(shorter[i] == sorted[i] && shorter[j] == sorted[j]);
            }
        }
        lemma_slot(shorter, order);
        assert forall|i: int| 0 <= i < slot_for(sorted, order) implies (#[trigger] sorted[i]).order
            <= order by {
            assert(sorted[i] == shorter[i]);
        }
        assert forall|i: int| slot_for(sorted, order) <= i < sorted.len() implies (
        #[trigger] sorted[i]).order > order by {
            if i < shorter.len() {
                assert(sorted[i] == shorter[i]);
            }
        }
    }
}

/// Putting responses in order loses none, adds none and leaves none before
/// one of a lower position.
pub proof fn lemma_in_order(responses: Seq<RendererResponse>)
    ensures
        in_order(responses).len() == responses.len(),
        ordered(in_order(responses)),
        in_order(responses).to_multiset() == responses.to_multiset(),
    decreases responses.len(),
{
    broadcast use vstd::seq_lib::group_to_multiset_ensures;

    if responses.len() > 0 {
        let last = responses.last();
        let before = in_order(responses.drop_last());
        lemma_in_order(responses.drop_last());
        lemma_slot(before, last.order);
        let at = slot_for(before, last.order);
        let after = before.insert(at, last);
        assert(ordered(after)) by {
            assert forall|i: int, j: int| 0 <= i < j < after.len() implies (
            #[trigger] after[i]).order <= (#[trigger] after[j]).order by {
                if j < at {
                    assert(after[i] == before[i] && after[j] == before[j]);
                } else if j == at {
                    assert(after[i] == before[i]);
                } else if i < at {
                    assert(after[i] == before[i] && after[j] == before[j - 1]);
                } else if i == at {
                    assert(after[j] == before[j - 1]);
                } else {
                    assert(after[i] == before[i - 1] && after[j] == before[j - 1]);
                }
            }
        }
        assert(after.remove(at) =~= before);
        assert(after[at] == last);
        assert(after.to_multiset().remove(last) =~= before.to_multiset());
        assert(after.to_multiset().count(last) > 0) by {
            assert(after.contains(last));
        }
        assert(after.to_multiset() =~= before.to_multiset().insert(last));
        assert(responses.drop_last().push(last) =~= responses);
        assert(responses.to_multiset() =~= responses.drop_last().to_multiset().insert(last));
    }
}

/// A response stands among the responses in order where it stands among
/// the responses as they came.
proof fn lemma_in_order_same_members(responses: Seq<RendererResponse>)
    ensures
        forall|r: RendererResponse| #[trigger]
            in_order(responses).contains(r) <==> responses.contains(r),
{
    lemma_in_order(responses);
    in_order(responses).to_multiset_ensures();
    responses.to_multiset_ensures();
    assert forall|r: RendererResponse| #[trigger]
        in_order(responses).contains(r) <==> responses.contains(r) by {
        assert(in_order(responses).contains(r) <==> in_order(responses).to_multiset().count(r) > 0);
        assert(responses.contains(r) <==> responses.to_multiset().count(r) > 0);
    }
}

/// Where no two responses are those of one job, none are once they are in
/// order.
proof fn lemma_in_order_distinct(responses: Seq<RendererResponse>)
    requires
        forall|i: int, j: int|
            0 <= i < j < responses.len() ==> (#[trigger] responses[i]).order != (
            #[trigger] responses[j]).order,
    ensures
        forall|i: int, j: int|
            0 <= i < j < in_order(responses).len() ==> (#[trigger] in_order(responses)[i]).order
                != (#[trigger] in_order(responses)[j]).order,
    decreases responses.len(),
{
    if responses.len() > 0 {
        let last = responses.last();
        let shorter = responses.drop_last();
        let before = in_order(shorter);
        assert forall|i: int, j: int| 0 <= i < j < shorter.len() implies (
        #[trigger] shorter[i]).order != (#[trigger] shorter[j]).order by {
            assert(shorter[i] == responses[i] && shorter[j] == responses[j]);
        }
        lemma_in_order_distinct(shorter);
        lemma_in_order(shorter);
        lemma_in_order_same_members(shorter);
        lemma_slot(before, last.order);
        let at = slot_for(before, last.order);
        let after = before.insert(at, last);
        assert forall|b: int| 0 <= b < before.len() implies (#[trigger] before[b]).order
            != last.order by {
            assert(before.contains(before[b]));
            assert(shorter.contains(before[b]));
            let j = choose|j: int| 0 <= j < shorter.len() && shorter[j] == before[b];
            assert(responses[j] == before[b]);
            assert(responses[responses.len() - 1] == last);
        }
        assert forall|i: int, j: int| 0 <= i < j < after.len() implies (#[trigger] after[i]).order
            != (#[trigger] after[j]).order by {
            lemma_inserted(before, at, last, i);
            lemma_inserted(before, at, last, j);
        }
    }
}

/// What stands at a place after an insertion.
proof fn lemma_inserted(before: Seq<RendererResponse>, at: int, new: RendererResponse, i: int)
    requires
        0 <= at <= before.len(),
        0 <= i <= before.len(),
    ensures
        before.insert(at, new)[i] == if i < at {
            before[i]
        } else if i == at {
            new
        } else {
            before[i - 1]
        },
{
}

/// Positions that rise strictly are at least as high as their place.
proof fn lemma_rising_from_below(sorted: Seq<RendererResponse>, i: int)
    requires
        0 <= i < sorted.len(),
        forall|a: int, b: int|
            0 <= a < b < sorted.len() ==> (#[trigger] sorted[a]).order < (
            #[trigger] sorted[b]).order,
    ensures
        sorted[i].order >= i,
    decreases i,
{
    if i > 0 {
        lemma_rising_from_below(sorted, i - 1);
    }
}

/// Positions that rise strictly and stay below the length are at most as
/// high as their place.
proof fn lemma_rising_from_above(sorted: Seq<RendererResponse>, i: int)
    requires
        0 <= i < sorted.len(),
        forall|a: int| 0 <= a < sorted.len() ==> (#[trigger] sorted[a]).order < sorted.len(),
        forall|a: int, b: int|
            0 <= a < b < sorted.len() ==> (#[trigger] sorted[a]).order < (
            #[trigger] sorted[b]).order,
    ensures
        sorted[i].order <= i,
    decreases sorted.len() - i,
{
    if i < sorted.len() - 1 {
        lemma_rising_from_above(sorted, i + 1);
    }
}

/// The ordering law of a batch: where the responses are those of the jobs of
/// a batch, one of each, then in whatever order they came, the response of
/// the job at position `i` stands at place `i` once they are in order.
pub proof fn lemma_each_job_in_its_place(responses: Seq<RendererResponse>)
    requires
        one_per_job(responses, responses.len()),
    ensures
        in_order(responses).len() == responses.len(),
        forall|i: int|
            0 <= i < responses.len() ==> (#[trigger] in_order(responses)[i]).order == i,
        forall|j: int|
            0 <= j < responses.len() ==> in_order(responses)[(#[trigger] responses[j]).order as int]
                == responses[j],
{
    let sorted = in_order(responses);
    lemma_in_order(responses);
    lemma_in_order_same_members(responses);
    lemma_in_order_distinct(responses);
    assert forall|a: int| 0 <= a < sorted.len() implies (#[trigger] sorted[a]).order
        < sorted.len() by {
        assert(sorted.contains(sorted[a]));
        assert(responses.contains(sorted[a]));
        let j = choose|j: int| 0 <= j < responses.len() && responses[j] == sorted[a];
        assert(responses[j].order < responses.len());
    }
    assert forall|i: int| 0 <= i < responses.len() implies (#[trigger] sorted[i]).order == i by {
        lemma_rising_from_below(sorted, i);
        lemma_rising_from_above(sorted, i);
    }
    assert forall|j: int| 0 <= j < responses.len() implies sorted[(
    #[trigger] responses[j]).order as int] == responses[j] by {
        assert(responses.contains(responses[j]));
        assert(sorted.contains(responses[j]));
        let i = choose|i: int| 0 <= i < sorted.len() && sorted[i] == responses[j];
        assert(sorted[i].order == i);
    }
}

/// What a batch delivers stands in the order of its jobs: where the responses
/// are those of the jobs of a batch, one of each, the outcome of the job at
/// position `i` is delivered at place `i`, in whatever order the jobs
/// finished.
pub proof fn lemma_delivery_in_job_order(responses: Seq<RendererResponse>)
    requires
        one_per_job(responses, responses.len()),
    ensures
        outcomes(in_order(responses)).len() == responses.len(),
        forall|j: int|
            0 <= j < responses.len() ==> outcomes(in_order(responses))[(
            #[trigger] responses[j]).order as int] == responses[j].resp,
{
    lemma_each_job_in_its_place(responses);
}

/// Puts the responses of a batch into the order of its jobs. Responses with
/// the same position keep the order in which they came.
pub fn reorder(rendered: Vec<RendererResponse>) -> (sorted: Vec<RendererResponse>)
    ensures
        sorted@ == in_order(rendered@),
        sorted.len() == rendered.len(),
        ordered(sorted@),
        sorted@.to_multiset() == rendered@.to_multiset(),
{
    let ghost all = rendered@;
    let mut sorted: Vec<RendererResponse> = Vec::new();
    for response in it: rendered.into_iter()
        invariant
            it.seq() == all,
            sorted@ == in_order(all.take(it.index() as int)),
    {
        let mut at: usize = sorted.len();
        proof {
            assert(sorted@.take(at as int) =~= sorted@);
        }
        while at > 0 && sorted[at - 1].order > response.order
            invariant
                at <= sorted.len(),
                slot_for(sorted@, response.order) == slot_for(
                    sorted@.take(at as int),
                    response.order,
                ),
            decreases at,
        {
            proof {
                assert(sorted@.take(at as int).drop_last() =~= sorted@.take(at - 1));
            }
            at = at - 1;
        }
        proof {
            assert(all.take(it.index() + 1).drop_last() =~= all.take(it.index() as int));
            assert(all.take(it.index() + 1).last() == response);
        }
        sorted.insert(at, response);
    }
    proof {
        assert(all.take(all.len() as int) =~= all);
        lemma_in_order(all);
    }
    sorted
}

/// The phase of a batch.
#[derive(Clone, Copy, Debug, PartialEq, Eq, Structural)]
pub enum Phase {
    /// Jobs are being started.
    Dispatching,
    /// Every job was started; results are awaited.
    Collecting,
    /// Every job has its result; they wait to be put in order.
    Reordering,
    /// The results were handed on.
    Delivered,
}

/// The state of one batch of render jobs.
pub struct Batch {
    jobs: usize,
    dispatched: usize,
    collected: Vec<RendererResponse>,
    phase: Phase,
    delivered: usize,
}

impl Batch {
    /// The number of jobs of the batch.
    pub closed spec fn jobs(&self) -> nat {
        self.jobs as nat
    }

    /// The number of jobs that were started.
    pub closed spec fn dispatched(&self) -> nat {
        self.dispatched as nat
    }

    /// The results that came in and wait, in the order in which they came.
    pub closed spec fn collected(&self) -> Seq<RendererResponse> {
        self.collected@
    }

    /// The number of results that were handed on.
    pub closed spec fn delivered(&self) -> nat {
        self.delivered as nat
    }

    /// The phase of the batch.
    pub closed spec fn phase(&self) -> Phase {
        self.phase
    }

    /// What holds of every batch: jobs are started before results are
    /// taken, the results that wait are those of different jobs of the
    /// batch, no more results are taken than there are jobs, and once the
    /// batch is delivered, as many results were handed on as it has jobs.
    pub open spec fn wf(&self) -> bool {
        &&& of_different_jobs(self.collected(), self.jobs())
        &&& self.in_phase()
    }

    /// What the phase of a batch says of its counts.
    pub open spec fn in_phase(&self) -> bool {
        match self.phase() {
            Phase::Dispatching => self.dispatched() < self.jobs() && self.collected().len() == 0
                && self.delivered() == 0,
            Phase::Collecting => self.dispatched() == self.jobs() && self.collected().len()
                < self.jobs() && self.delivered() == 0,
            Phase::Reordering => self.dispatched() == self.jobs() && self.collected().len()
                == self.jobs() && self.delivered() == 0,
            Phase::Delivered => self.dispatched() == self.jobs() && self.collected().len() == 0
                && self.delivered() == self.jobs(),
        }
    }

    /// A batch of `jobs` jobs, none of them started. A batch without jobs
    /// has nothing to start and nothing to wait for.
    pub fn new(jobs: usize) -> (batch: Batch)
        ensures
            batch.wf(),
            batch.jobs() == jobs,
            batch.dispatched() == 0,
            batch.collected() == Seq::<RendererResponse>::empty(),
            batch.phase() == if jobs == 0 {
                Phase::Reordering
            } else {
                Phase::Dispatching
            },
    {
        Batch {
            jobs,
            dispatched: 0,
            collected: Vec::new(),
            phase: if jobs == 0 {
                Phase::Reordering
            } else {
                Phase::Dispatching
            },
            delivered: 0,
        }
    }

    /// The phase of the batch.
    pub fn current_phase(&self) -> (phase: Phase)
        ensures
            phase == self.phase(),
    {
        self.phase
    }

    /// The number of results that the batch still waits for.
    pub fn outstanding(&self) -> (n: usize)
        requires
            self.wf(),
        ensures
            n == self.jobs() - self.collected().len() - self.delivered(),
    {
        self.jobs - self.collected.len() - self.delivered
    }

    /// Says which job to start next: while jobs are being dispatched, the
    /// position of the next one, each position once and in rising order.
    /// With the last job the batch goes on to collecting. In every other
    /// phase there is nothing to start and nothing changes.
    pub fn dispatch(&mut self) -> (next: Option<usize>)
        requires
            old(self).wf(),
        ensures
            final(self).wf(),
            final(self).jobs() == old(self).jobs(),
            final(self).collected() == old(self).collected(),
            old(self).phase() == Phase::Dispatching ==> next == Some(old(self).dispatched() as usize)
                && final(self).dispatched() == old(self).dispatched() + 1 && final(self).phase()
                == if final(self).dispatched() == final(self).jobs() {
                Phase::Collecting
            } else {
                Phase::Dispatching
            },
            old(self).phase() != Phase::Dispatching ==> next is None && *final(self) == *old(self),
    {
        match self.phase {
            Phase::Dispatching => {
                let next = self.dispatched;
                self.dispatched = self.dispatched + 1;
                if self.dispatched == self.jobs {
                    self.phase = Phase::Collecting;
                }
                Some(next)
            },
            _ => None,
        }
    }

    /// Whether a batch takes a response: while results are collected, it
    /// takes the response of a job of the batch that has none so far.
    pub open spec fn accepts(&self, response: RendererResponse) -> bool {
        &&& self.phase() == Phase::Collecting
        &&& response.order < self.jobs()
        &&& !has_response_of(self.collected(), response.order)
    }

    /// Takes the result of one job. While results are collected, the
    /// result of a job of the batch that has none so far is kept, and with
    /// the last one the batch goes on to reordering. A result that names no
    /// job of the batch, or a job that has its result, is refused, and so is
    /// every result in another phase; nothing changes then.
    pub fn record(&mut self, response: RendererResponse) -> (taken: bool)
        requires
            old(self).wf(),
        ensures
            final(self).wf(),
            final(self).jobs() == old(self).jobs(),
            final(self).dispatched() == old(self).dispatched(),
            taken == old(self).accepts(response),
            taken ==> final(self).collected() == old(self).collected().push(response)
                && final(self).phase() == if final(self).collected().len() == final(self).jobs() {
                Phase::Reordering
            } else {
                Phase::Collecting
            },
            !taken ==> *final(self) == *old(self),
    {
        match self.phase {
            Phase::Collecting => {
                if response.order >= self.jobs || holds_response_of(
                    &self.collected,
                    response.order,
                ) {
                    return false;
                }
                self.collected.push(response);
                if self.collected.len() == self.jobs {
                    self.phase = Phase::Reordering;
                }
                true
            },
            _ => false,
        }
    }

    /// Hands on the results of a batch that has all of them: one outcome
    /// for each job, and at place `i` the outcome of the job at position
    /// `i`, in whatever order the jobs finished. The batch is then
    /// delivered. In every other phase there is nothing to hand on and
    /// nothing changes.
    pub fn deliver(&mut self) -> (results: Option<Vec<InternalResponse>>)
        requires
            old(self).wf(),
        ensures
            final(self).wf(),
            final(self).jobs() == old(self).jobs(),
            old(self).phase() == Phase::Reordering ==> results is Some && results.unwrap()@
                == outcomes(in_order(old(self).collected())) && results.unwrap().len() == old(
                self,
            ).jobs() && final(self).phase() == Phase::Delivered,
            old(self).phase() == Phase::Reordering ==> forall|j: int|
                0 <= j < old(self).collected().len() ==> results.unwrap()@[(#[trigger] old(
                    self,
                ).collected()[j]).order as int] == old(self).collected()[j].resp,
            old(self).phase() != Phase::Reordering ==> results is None && *final(self) == *old(
                self,
            ),
    {
        match self.phase {
            Phase::Reordering => {
                let mut collected: Vec<RendererResponse> = Vec::new();
                std::mem::swap(&mut collected, &mut self.collected);
                proof {
                    lemma_delivery_in_job_order(collected@);
                }
                let sorted = reorder(collected);
                let results = unwrap_all(sorted);
                self.delivered = self.jobs;
                self.phase = Phase::Delivered;
                Some(results)
            },
            _ => None,
        }
    }
}

/// Whether one of the responses is that of the job at position `order`.
pub fn holds_response_of(responses: &Vec<RendererResponse>, order: usize) -> (found: bool)
    ensures
        found == has_response_of(responses@, order),
{
    let mut i: usize = 0;
    while i < responses.len()
        invariant
            i <= responses.len(),
            forall|j: int| 0 <= j < i ==> (#[trigger] responses@[j]).order != order,
        decreases responses.len() - i,
    {
        if responses[i].order == order {
            return true;
        }
        i = i + 1;
    }
    false
}

/// The outcomes of the responses, in their order.
pub fn unwrap_all(responses: Vec<RendererResponse>) -> (results: Vec<InternalResponse>)
    ensures
        results@ == outcomes(responses@),
{
    let ghost all = responses@;
    let mut results: Vec<InternalResponse> = Vec::new();
    for response in it: responses.into_iter()
        invariant
            it.seq() == all,
            results@ == outcomes(all.take(it.index() as int)),
    {
        results.push(response.resp);
        proof {
            assert(results@ =~= outcomes(all.take(it.index() + 1)));
        }
    }
    proof {
        assert(all.take(all.len() as int) =~= all);
    }
    results
}

} // verus!
