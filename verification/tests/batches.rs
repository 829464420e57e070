use pdf_rendering::batch::{
    conclude, holds_response_of, reorder, unwrap_all, without_content, Batch, InternalResponse,
    JobRenderError, Phase, RenderFailure, RendererResponse, BATCH_QUEUE_SLOTS,
    RESULT_QUEUE_SLOTS,
};

fn ok(order: usize, byte: u8) -> RendererResponse {
    RendererResponse { resp: Ok(vec![byte]), order }
}

fn failed(order: usize, message: &str) -> RendererResponse {
    RendererResponse {
        resp: Err(JobRenderError { cause: RenderFailure::Navigation, message: message.to_string() }),
        order,
    }
}

fn orders(responses: &[RendererResponse]) -> Vec<usize> {
    responses.iter().map(|r| r.order).collect()
}

#[test]
fn queues_have_thirty_two_slots() {
    assert_eq!(BATCH_QUEUE_SLOTS, 32);
    assert_eq!(RESULT_QUEUE_SLOTS, 32);
}

#[test]
fn reorder_puts_each_job_in_its_place() {
    let sorted = reorder(vec![ok(2, 12), ok(0, 10), ok(3, 13), ok(1, 11)]);
    assert_eq!(orders(&sorted), vec![0, 1, 2, 3]);
    for (place, response) in sorted.iter().enumerate() {
        assert_eq!(response.resp, Ok(vec![10 + place as u8]));
    }
}

#[test]
fn reorder_holds_for_every_completion_order_of_three() {
    let arrivals = [[0, 1, 2], [0, 2, 1], [1, 0, 2], [1, 2, 0], [2, 0, 1], [2, 1, 0]];
    for arrival in arrivals {
        let rendered: Vec<RendererResponse> =
            arrival.iter().map(|&order| ok(order, 40 + order as u8)).collect();
        let sorted = reorder(rendered);
        assert_eq!(sorted.len(), 3);
        for (place, response) in sorted.iter().enumerate() {
            assert_eq!(response.order, place);
            assert_eq!(response.resp, Ok(vec![40 + place as u8]));
        }
    }
}

#[test]
fn reorder_keeps_arrival_order_among_equals() {
    let sorted = reorder(vec![ok(1, 1), ok(0, 2), ok(1, 3), ok(0, 4)]);
    assert_eq!(orders(&sorted), vec![0, 0, 1, 1]);
    let bytes: Vec<InternalResponse> = sorted.into_iter().map(|r| r.resp).collect();
    assert_eq!(bytes, vec![Ok(vec![2]), Ok(vec![4]), Ok(vec![1]), Ok(vec![3])]);
}

#[test]
fn reorder_of_nothing_and_of_one() {
    assert!(reorder(Vec::new()).is_empty());
    assert_eq!(orders(&reorder(vec![ok(7, 0)])), vec![7]);
}

#[test]
fn reorder_keeps_failed_jobs_in_their_place() {
    let sorted = reorder(vec![ok(2, 2), failed(1, "no route"), ok(0, 0)]);
    assert_eq!(orders(&sorted), vec![0, 1, 2]);
    assert!(sorted[1].resp.is_err());
    assert!(sorted[0].resp.is_ok() && sorted[2].resp.is_ok());
}

#[test]
fn unwrap_all_keeps_order_and_count() {
    let results = unwrap_all(vec![ok(0, 5), failed(1, "x"), ok(2, 6)]);
    assert_eq!(results.len(), 3);
    assert_eq!(results[0], Ok(vec![5]));
    assert_eq!(results[1].as_ref().unwrap_err().message, "x");
    assert_eq!(results[2], Ok(vec![6]));
}

#[test]
fn batch_walks_through_its_phases() {
    let mut batch = Batch::new(3);
    assert_eq!(batch.current_phase(), Phase::Dispatching);
    assert_eq!(batch.outstanding(), 3);
    assert_eq!(batch.dispatch(), Some(0));
    assert_eq!(batch.dispatch(), Some(1));
    assert_eq!(batch.current_phase(), Phase::Dispatching);
    assert_eq!(batch.dispatch(), Some(2));
    assert_eq!(batch.current_phase(), Phase::Collecting);
    assert_eq!(batch.dispatch(), None);
    assert!(batch.record(ok(1, 1)));
    assert!(batch.record(failed(2, "gone")));
    assert_eq!(batch.current_phase(), Phase::Collecting);
    assert_eq!(batch.outstanding(), 1);
    assert!(batch.deliver().is_none());
    assert!(batch.record(ok(0, 0)));
    assert_eq!(batch.current_phase(), Phase::Reordering);
    assert_eq!(batch.outstanding(), 0);
    let results = batch.deliver().unwrap();
    assert_eq!(batch.current_phase(), Phase::Delivered);
    assert_eq!(results.len(), 3);
    assert_eq!(results[0], Ok(vec![0]));
    assert_eq!(results[1], Ok(vec![1]));
    assert_eq!(results[2].as_ref().unwrap_err().message, "gone");
    assert_eq!(results[2].as_ref().unwrap_err().cause, RenderFailure::Navigation);
}

#[test]
fn batch_refuses_results_out_of_phase() {
    let mut batch = Batch::new(2);
    assert!(!batch.record(ok(0, 0)));
    assert_eq!(batch.dispatch(), Some(0));
    assert!(!batch.record(ok(0, 0)));
    assert_eq!(batch.dispatch(), Some(1));
    assert!(batch.record(ok(0, 0)));
    assert!(!batch.record(ok(0, 9)));
    assert!(!batch.record(ok(2, 9)));
    assert_eq!(batch.current_phase(), Phase::Collecting);
    assert_eq!(batch.outstanding(), 1);
    assert!(batch.record(ok(1, 0)));
    assert!(!batch.record(ok(1, 0)));
    assert_eq!(batch.deliver().unwrap().len(), 2);
    assert!(!batch.record(ok(1, 0)));
    assert!(batch.deliver().is_none());
    assert_eq!(batch.dispatch(), None);
    assert_eq!(batch.outstanding(), 0);
}

#[test]
fn batch_without_jobs_has_nothing_to_wait_for() {
    let mut batch = Batch::new(0);
    assert_eq!(batch.current_phase(), Phase::Reordering);
    assert_eq!(batch.dispatch(), None);
    assert!(!batch.record(ok(0, 0)));
    assert_eq!(batch.deliver().unwrap().len(), 0);
    assert_eq!(batch.current_phase(), Phase::Delivered);
}

#[test]
fn batch_delivers_as_many_results_as_jobs() {
    for jobs in 1..6usize {
        let mut batch = Batch::new(jobs);
        while batch.dispatch().is_some() {}
        for order in (0..jobs).rev() {
            let response = if order % 2 == 0 { ok(order, order as u8) } else { failed(order, "late") };
            assert!(batch.record(response));
        }
        let results = batch.deliver().unwrap();
        assert_eq!(results.len(), jobs);
        for (place, result) in results.iter().enumerate() {
            assert_eq!(result.is_ok(), place % 2 == 0);
        }
    }
}

#[test]
fn batch_takes_one_result_per_job_only() {
    let mut batch = Batch::new(3);
    while batch.dispatch().is_some() {}
    assert!(batch.record(ok(2, 22)));
    assert!(!batch.record(ok(2, 99)));
    assert!(!batch.record(ok(3, 99)));
    assert!(!batch.record(failed(usize::MAX, "stray")));
    assert!(batch.record(ok(0, 20)));
    assert!(batch.record(ok(1, 21)));
    let results = batch.deliver().unwrap();
    assert_eq!(results, vec![Ok(vec![20]), Ok(vec![21]), Ok(vec![22])]);
}

#[test]
fn holds_response_of_looks_at_positions() {
    let responses = vec![ok(4, 0), failed(1, "x")];
    assert!(holds_response_of(&responses, 4));
    assert!(holds_response_of(&responses, 1));
    assert!(!holds_response_of(&responses, 0));
    assert!(!holds_response_of(&Vec::new(), 0));
}

#[test]
fn a_job_keeps_its_own_failure_when_the_tab_closes() {
    let printing = JobRenderError { cause: RenderFailure::Capture, message: "blank".to_string() };
    assert_eq!(conclude(Err(printing.clone()), Ok(())), Err(printing.clone()));
    assert_eq!(conclude(Err(printing.clone()), Err("gone".to_string())), Err(printing));
}

#[test]
fn a_printed_job_fails_where_its_tab_cannot_be_closed() {
    assert_eq!(conclude(Ok(vec![1, 2]), Ok(())), Ok(vec![1, 2]));
    let outcome = conclude(Ok(vec![1, 2]), Err("gone".to_string()));
    let expected = JobRenderError { cause: RenderFailure::BrowserIo, message: "gone".to_string() };
    assert_eq!(outcome, Err(expected));
}

#[test]
fn a_job_without_content_has_failed() {
    let response = without_content(5, "no source");
    assert_eq!(response.order, 5);
    let error = response.resp.unwrap_err();
    assert_eq!(error.cause, RenderFailure::Navigation);
    assert_eq!(error.message, "no source");
}
