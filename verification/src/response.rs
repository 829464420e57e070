//! What a render call answers: one item per job, or one item for all jobs
//! combined.
//!
//! An item carries a status and, where the job gave a PDF, a payload. The
//! functions here decide what each item says and whether its bytes are
//! returned or uploaded; uploading itself is the caller's part, who then
//! reports how it went.

use vstd::prelude::*;
use vstd::string::StringExecFns;
use crate::batch::InternalResponse;
use crate::merge::{merge_keeps_plan, merge_pdfs, merged, MergeError};
use crate::metadata::{add_pdf_metadata, stamped, MetaData, MetadataError};
use crate::pdf::{doc_parse, parsed, plain_bookmarks};

verus! {

/// Where the bytes of an item are uploaded to.
#[derive(Clone, Debug, PartialEq, Eq)]
pub struct UploadOptions {
    pub bucket: Option<String>,
    pub key: Option<String>,
    pub content_disposition: Option<String>,
}

/// What a caller wants done with the PDF of an item.
#[derive(Clone, Debug, PartialEq, Eq)]
pub struct OutputOptions {
    pub meta_data: Option<MetaData>,
    pub upload_options: Option<UploadOptions>,
}

/// The status of an item: 0 for success, 400 where rendering or uploading
/// it failed, 500 where it has no result at all.
#[derive(Clone, Debug, PartialEq, Eq)]
pub struct Status {
    pub code: u32,
    pub message: String,
}

/// What an item carries.
#[derive(Clone, Debug, PartialEq, Eq)]
pub enum Payload {
    /// The bytes of the PDF.
    Pdf(Vec<u8>),
    /// The confirmation of an upload: the number of bytes and the location.
    Upload { length: usize, url: String },
}

/// One item of an answer.
#[derive(Clone, Debug, PartialEq, Eq)]
pub struct ItemResponse {
    pub status: Status,
    pub payload: Option<Payload>,
}

/// What is to be done for one item.
#[derive(Clone, Debug, PartialEq, Eq)]
pub enum ItemAction {
    /// The item is answered as it stands.
    Respond(ItemResponse),
    /// The bytes are to be uploaded; how that went decides the answer.
    Upload { data: Vec<u8>, options: UploadOptions },
}

/// Why a job of a combined call gave no document.
#[derive(Clone, Copy, Debug, PartialEq, Eq, Structural)]
pub enum SourceProblem {
    /// The job at this position has no result.
    MissingResult(usize),
    /// The job at this position failed.
    JobFailed(usize),
    /// The result of the job at this position is no PDF that can be read.
    Unreadable(usize),
}

/// Why a combined call as a whole failed.
#[derive(Clone, Copy, Debug, PartialEq, Eq, Structural)]
pub enum CombineError {
    /// The documents could not be merged.
    Merge(MergeError),
}

/// The status code of an item that went well.
pub open spec fn code_success() -> u32 {
    0
}

/// The status code of an item that failed.
pub open spec fn code_failed() -> u32 {
    400
}

/// The status code of an item that has no result.
pub open spec fn code_missing() -> u32 {
    500
}

/// Whether an item has this status and this payload.
pub open spec fn item_is(item: ItemResponse, code: u32, message: Seq<char>, payload: Option<Payload>)
    -> bool {
    item.status.code == code && item.status.message@ == message && item.payload == payload
}

/// The message of an item that failed for the reason `reason`.
pub open spec fn failure_message(reason: Seq<char>) -> Seq<char> {
    "render failed: "@ + reason
}

/// What is said of a document that could not be stamped.
pub open spec fn metadata_reason(e: MetadataError) -> Seq<char> {
    match e {
        MetadataError::Unreadable => "failed parsing pdf"@,
        MetadataError::Unwritable => "failed saving PDF"@,
    }
}

/// Whether `action` answers with this status and this payload.
pub open spec fn responds(action: ItemAction, code: u32, message: Seq<char>, payload: Option<Payload>)
    -> bool {
    action matches ItemAction::Respond(item) && item_is(item, code, message, payload)
}

/// Whether `action` is what delivering `data` as `upload` asks takes: the
/// upload where one is asked for, else the bytes as the answer.
pub open spec fn delivers(action: ItemAction, data: Seq<u8>, upload: Option<UploadOptions>) -> bool {
    match upload {
        Some(options) => {
            &&& action matches ItemAction::Upload { data: d, options: o }
            &&& d@ == data
            &&& o == options
        },
        None => {
            &&& action matches ItemAction::Respond(item)
            &&& item.status.code == code_success()
            &&& item.status.message@ == "success"@
            &&& item.payload matches Some(Payload::Pdf(d))
            &&& d@ == data
        },
    }
}

/// The metadata that a caller wants stamped.
pub open spec fn wanted_metadata(output: Option<OutputOptions>) -> Option<MetaData> {
    match output {
        Some(o) => o.meta_data,
        None => None,
    }
}

/// The upload that a caller wants.
pub open spec fn wanted_upload(output: Option<OutputOptions>) -> Option<UploadOptions> {
    match output {
        Some(o) => o.upload_options,
        None => None,
    }
}

/// Whether `action` is what finishing the bytes `data` takes: they are
/// stamped where metadata is wanted and then delivered; where stamping fails
/// the item has failed.
pub open spec fn finishes(action: ItemAction, data: Seq<u8>, output: Option<OutputOptions>) -> bool {
    match wanted_metadata(output) {
        None => delivers(action, data, wanted_upload(output)),
        Some(meta) => match stamped(data, meta) {
            Ok(bytes) => delivers(action, bytes, wanted_upload(output)),
            Err(e) => responds(action, code_failed(), failure_message(metadata_reason(e)), None),
        },
    }
}

/// Whether `action` is what the result `slot` of one job takes.
pub open spec fn answers(action: ItemAction, slot: Option<InternalResponse>, output: Option<OutputOptions>)
    -> bool {
    match slot {
        None => responds(action, code_missing(), "unknown error"@, None),
        Some(Err(e)) => responds(action, code_failed(), failure_message(e.message@), None),
        Some(Ok(data)) => finishes(action, data@, output),
    }
}

/// Whether an item confirms an upload of `length` bytes.
pub open spec fn confirms_upload(item: ItemResponse, length: usize) -> bool {
    &&& item.status.code == code_success()
    &&& item.status.message@ == "success"@
    &&& item.payload matches Some(Payload::Upload { length: l, url })
    &&& l == length
    &&& url@ == "n/a"@
}

/// The item of a job that has no result: status 500, no payload.
pub fn missing_result() -> (item: ItemResponse)
    ensures
        item_is(item, code_missing(), "unknown error"@, None),
{
    ItemResponse {
        status: Status { code: 500, message: String::from_str("unknown error") },
        payload: None,
    }
}

/// The item of a job that failed, or whose upload failed: status 400 with
/// the reason, no payload.
pub fn failure(reason: &str) -> (item: ItemResponse)
    ensures
        item_is(item, code_failed(), failure_message(reason@), None),
{
    let mut message = String::from_str("render failed: ");
    message.append(reason);
    ItemResponse { status: Status { code: 400, message }, payload: None }
}

/// The item of a job whose PDF is returned: status 0 and the bytes.
pub fn pdf_result(data: Vec<u8>) -> (item: ItemResponse)
    ensures
        item_is(item, code_success(), "success"@, Some(Payload::Pdf(data))),
{
    ItemResponse {
        status: Status { code: 0, message: String::from_str("success") },
        payload: Some(Payload::Pdf(data)),
    }
}

/// The item of a job whose PDF was to be uploaded, once the upload is over:
/// status 0 with the number of bytes where it went well, status 400 with the
/// reason where it did not.
pub fn upload_result(outcome: Result<(), String>, length: usize) -> (item: ItemResponse)
    ensures
        outcome is Ok ==> confirms_upload(item, length),
        outcome matches Err(reason) ==> item_is(
            item,
            code_failed(),
            failure_message(reason@),
            None,
        ),
{
    match outcome {
        Ok(_) => ItemResponse {
            status: Status { code: 0, message: String::from_str("success") },
            payload: Some(Payload::Upload { length, url: String::from_str("n/a") }),
        },
        Err(reason) => failure(reason.as_str()),
    }
}

/// Decides how the bytes of an item leave: by upload where the caller asks
/// for one, else as the answer itself.
pub fn deliver(data: Vec<u8>, upload: Option<UploadOptions>) -> (action: ItemAction)
    ensures
        delivers(action, data@, upload),
{
    match upload {
        Some(options) => ItemAction::Upload { data, options },
        None => ItemAction::Respond(pdf_result(data)),
    }
}

fn metadata_failure(e: MetadataError) -> (item: ItemResponse)
    ensures
        item_is(item, code_failed(), failure_message(metadata_reason(e)), None),
{
    match e {
        MetadataError::Unreadable => failure("failed parsing pdf"),
        MetadataError::Unwritable => failure("failed saving PDF"),
    }
}

/// Finishes the PDF of an item: stamps it where the caller asks for
/// metadata, and decides how it leaves.
pub fn finish_item(data: Vec<u8>, output: Option<OutputOptions>) -> (action: ItemAction)
    ensures
        finishes(action, data@, output),
{
    match output {
        None => deliver(data, None),
        Some(output) => {
            let OutputOptions { meta_data, upload_options } = output;
            match meta_data {
                None => deliver(data, upload_options),
                Some(meta) => match add_pdf_metadata(data, Some(meta)) {
                    Ok(bytes) => deliver(bytes, upload_options),
                    Err(e) => ItemAction::Respond(metadata_failure(e)),
                },
            }
        },
    }
}

/// Decides the item of one job from its result. A job without a result
/// answers with status 500, a failed job with status 400 and its reason;
/// the PDF of a job that went well is finished as the caller asks.
pub fn individual_item(slot: Option<InternalResponse>, output: Option<OutputOptions>) -> (action:
    ItemAction)
    ensures
        answers(action, slot, output),
{
    match slot {
        None => ItemAction::Respond(missing_result()),
        Some(Err(e)) => ItemAction::Respond(failure(e.message.as_str())),
        Some(Ok(data)) => finish_item(data, output),
    }
}

/// Decides the items of a call whose jobs are answered one by one: as many
/// items as jobs, in the order of the jobs, each decided from the result of
/// its job alone. A job that failed or has no result does not touch the
/// items of the others.
pub fn individual_response(
    rendered: Vec<Option<InternalResponse>>,
    outputs: Vec<Option<OutputOptions>>,
) -> (actions: Vec<ItemAction>)
    requires
        rendered.len() == outputs.len(),
    ensures
        actions.len() == rendered.len(),
        forall|i: int|
            0 <= i < rendered.len() ==> answers(#[trigger] actions[i], rendered[i], outputs[i]),
{
    let ghost slots = rendered@;
    let ghost wanted = outputs@;
    let mut rendered = rendered;
    let mut outputs = outputs;
    let mut actions: Vec<ItemAction> = Vec::new();
    let mut done: usize = 0;
    let total = rendered.len();
    while done < total
        invariant
            done <= total,
            total == slots.len(),
            slots.len() == wanted.len(),
            rendered@ == slots.skip(done as int),
            outputs@ == wanted.skip(done as int),
            actions.len() == done,
            forall|i: int| 0 <= i < done ==> answers(#[trigger] actions[i], slots[i], wanted[i]),
        decreases total - done,
    {
        let slot = rendered.remove(0);
        let output = outputs.remove(0);
        proof {
            assert(rendered@ =~= slots.skip(done + 1));
            assert(outputs@ =~= wanted.skip(done + 1));
            assert(slot == slots[done as int]);
            assert(output == wanted[done as int]);
        }
        actions.push(individual_item(slot, output));
        done = done + 1;
    }
    actions
}

/// The documents that the results of the jobs are, if every job has a
/// result that can be read; else the first job that has none, and why.
pub open spec fn sources_of(rendered: Seq<Option<InternalResponse>>) -> Result<
    Seq<lopdf::Document>,
    SourceProblem,
>
    decreases rendered.len(),
{
    if rendered.len() == 0 {
        Ok(Seq::empty())
    } else {
        let at = (rendered.len() - 1) as usize;
        match sources_of(rendered.drop_last()) {
            Err(e) => Err(e),
            Ok(before) => match rendered.last() {
                None => Err(SourceProblem::MissingResult(at)),
                Some(Err(_)) => Err(SourceProblem::JobFailed(at)),
                Some(Ok(bytes)) => match parsed(bytes@) {
                    None => Err(SourceProblem::Unreadable(at)),
                    Some(document) => Ok(before.push(document)),
                },
            },
        }
    }
}

/// The position of the job that a problem is about.
pub open spec fn position_of(problem: SourceProblem) -> usize {
    match problem {
        SourceProblem::MissingResult(at) => at,
        SourceProblem::JobFailed(at) => at,
        SourceProblem::Unreadable(at) => at,
    }
}

/// The reason that the job at position `at` gave for its failure.
pub open spec fn reason_of(rendered: Seq<Option<InternalResponse>>, at: int) -> Seq<char> {
    match rendered[at] {
        Some(Err(e)) => e.message@,
        _ => Seq::empty(),
    }
}

/// Whether `action` is the one item of a combined call of which a job gave
/// no document: status 500 where the job has no result, status 400 with the
/// job's reason where it failed, status 400 where its bytes cannot be read.
pub open spec fn answers_problem(
    action: ItemAction,
    rendered: Seq<Option<InternalResponse>>,
    problem: SourceProblem,
) -> bool {
    match problem {
        SourceProblem::MissingResult(_) => responds(action, code_missing(), "unknown error"@, None),
        SourceProblem::JobFailed(at) => responds(
            action,
            code_failed(),
            failure_message(reason_of(rendered, at as int)),
            None,
        ),
        SourceProblem::Unreadable(_) => responds(
            action,
            code_failed(),
            failure_message("failed parsing pdf"@),
            None,
        ),
    }
}

/// Whether `r` is what a combined call answers. A job without a document
/// makes the one item a failed one; documents that cannot be merged fail the
/// call; the merged document is finished as the caller asks.
pub open spec fn combines(
    r: Result<ItemAction, CombineError>,
    rendered: Seq<Option<InternalResponse>>,
    output: Option<OutputOptions>,
) -> bool {
    match sources_of(rendered) {
        Err(problem) => r matches Ok(action) && answers_problem(action, rendered, problem),
        Ok(documents) => match merged(documents) {
            Err(e) => r == Err::<ItemAction, CombineError>(CombineError::Merge(e)),
            Ok(bytes) => r matches Ok(action) && finishes(action, bytes, output),
        },
    }
}

/// Where the results before some job cannot be combined, neither can more.
proof fn lemma_sources_stay_failed(rendered: Seq<Option<InternalResponse>>, k: int)
    requires
        0 <= k <= rendered.len(),
        sources_of(rendered.take(k)) is Err,
    ensures
        sources_of(rendered) == sources_of(rendered.take(k)),
    decreases rendered.len() - k,
{
    if k < rendered.len() {
        assert(rendered.take(k + 1).drop_last() =~= rendered.take(k));
        lemma_sources_stay_failed(rendered, k + 1);
    } else {
        assert(rendered.take(k) =~= rendered);
    }
}

/// Reads the results of the jobs of a call as documents, in the order of the
/// jobs. The first job without a result, with a failure, or with bytes that
/// cannot be read ends it.
pub fn read_sources(rendered: &Vec<Option<InternalResponse>>) -> (r: Result<
    Vec<lopdf::Document>,
    SourceProblem,
>)
    ensures
        match sources_of(rendered@) {
            Ok(documents) => r is Ok && r.unwrap()@ == documents,
            Err(e) => r == Err::<Vec<lopdf::Document>, SourceProblem>(e),
        },
        r matches Err(problem) ==> position_of(problem) < rendered.len(),
        r is Ok ==> forall|k: int|
            0 <= k < r.unwrap().len() ==> plain_bookmarks(#[trigger] r.unwrap()[k]),
{
    let mut documents: Vec<lopdf::Document> = Vec::new();
    let mut i: usize = 0;
    while i < rendered.len()
        invariant
            i <= rendered.len(),
            sources_of(rendered@.take(i as int)) == Ok::<Seq<lopdf::Document>, SourceProblem>(
                documents@,
            ),
            forall|k: int| 0 <= k < documents.len() ==> plain_bookmarks(#[trigger] documents[k]),
        decreases rendered.len() - i,
    {
        proof {
            assert(rendered@.take(i + 1).drop_last() =~= rendered@.take(i as int));
        }
        let problem = match &rendered[i] {
            None => Some(SourceProblem::MissingResult(i)),
            Some(Err(_)) => Some(SourceProblem::JobFailed(i)),
            Some(Ok(bytes)) => match doc_parse(bytes.as_slice()) {
                Ok(document) => {
                    documents.push(document);
                    None
                },
                Err(_) => Some(SourceProblem::Unreadable(i)),
            },
        };
        match problem {
            Some(e) => {
                proof {
                    lemma_sources_stay_failed(rendered@, i + 1);
                }
                return Err(e);
            },
            None => {},
        }
        i = i + 1;
    }
    proof {
        assert(rendered@.take(rendered.len() as int) =~= rendered@);
    }
    Ok(documents)
}

/// Decides the item of a combined call of which a job gave no document.
pub fn problem_item(rendered: &Vec<Option<InternalResponse>>, problem: SourceProblem) -> (item:
    ItemResponse)
    requires
        position_of(problem) < rendered.len(),
    ensures
        answers_problem(ItemAction::Respond(item), rendered@, problem),
{
    match problem {
        SourceProblem::MissingResult(_) => missing_result(),
        SourceProblem::JobFailed(at) => match &rendered[at] {
            Some(Err(e)) => failure(e.message.as_str()),
            _ => {
                let item = failure("");
                proof {
                    reveal_strlit("");
                    assert(""@ =~= Seq::<char>::empty());
                }
                item
            },
        },
        SourceProblem::Unreadable(_) => failure("failed parsing pdf"),
    }
}

/// Decides the one item of a call whose jobs are combined.
///
/// The PDFs of all jobs are merged in the order of the jobs, the merged
/// document is stamped where the caller asks for metadata, and it leaves as
/// the caller asks. A job that has no result, that failed, or whose bytes
/// cannot be read does not fail the call: the item then carries the status
/// of that job, 500 or 400, and no payload; of several such jobs the first
/// decides. So does a merged document that cannot be stamped. Only documents
/// that cannot be merged, for want of a catalog or a page tree root, fail
/// the call.
pub fn combined_response(rendered: Vec<Option<InternalResponse>>, output: Option<OutputOptions>)
    -> (r: Result<ItemAction, CombineError>)
    ensures
        combines(r, rendered@, output),
        sources_of(rendered@) matches Ok(documents) ==> merge_keeps_plan(documents),
{
    let documents = match read_sources(&rendered) {
        Ok(documents) => documents,
        Err(problem) => {
            return Ok(ItemAction::Respond(problem_item(&rendered, problem)));
        },
    };
    match merge_pdfs(documents) {
        Ok(bytes) => Ok(finish_item(bytes, output)),
        Err(e) => Err(CombineError::Merge(e)),
    }
}

} // verus!
