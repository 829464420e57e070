use lopdf::{Dictionary, Document, Object, ObjectId};
use pdf_rendering::batch::{InternalResponse, JobRenderError, RenderFailure};
use pdf_rendering::merge::MergeError;
use pdf_rendering::metadata::MetaData;
use pdf_rendering::plan::MissingRoot;
use pdf_rendering::response::{
    combined_response, deliver, failure, finish_item, individual_item, individual_response,
    missing_result, pdf_result, problem_item, read_sources, upload_result, CombineError,
    ItemAction, ItemResponse, OutputOptions, Payload, SourceProblem, UploadOptions,
};

fn name(text: &str) -> Object {
    Object::Name(text.as_bytes().to_vec())
}

/// The bytes of a document of one page that carries `Marker`.
fn rendered_page(marker: i64) -> Vec<u8> {
    let mut doc = Document::with_version("1.5");
    let info_id = doc.add_object(Dictionary::new());
    let root_id = doc.new_object_id();
    let mut page = Dictionary::new();
    page.set("Type", name("Page"));
    page.set("Parent", root_id);
    page.set("Marker", marker);
    let page_id = doc.add_object(page);
    let mut root = Dictionary::new();
    root.set("Type", name("Pages"));
    root.set("Count", 1);
    root.set("Kids", vec![Object::Reference(page_id)]);
    doc.objects.insert(root_id, Object::Dictionary(root));
    let mut catalog = Dictionary::new();
    catalog.set("Type", name("Catalog"));
    catalog.set("Pages", root_id);
    let catalog_id = doc.add_object(catalog);
    doc.trailer.set("Root", catalog_id);
    doc.trailer.set("Info", info_id);
    let mut bytes = Vec::new();
    doc.save_to(&mut bytes).unwrap();
    bytes
}

fn navigation_failed(message: &str) -> InternalResponse {
    Err(JobRenderError { cause: RenderFailure::Navigation, message: message.to_string() })
}

fn upload_to(key: &str) -> UploadOptions {
    UploadOptions {
        bucket: Some("pdf".to_string()),
        key: Some(key.to_string()),
        content_disposition: None,
    }
}

fn answered(action: ItemAction) -> ItemResponse {
    match action {
        ItemAction::Respond(item) => item,
        ItemAction::Upload { .. } => panic!("an upload where an answer was expected"),
    }
}

fn bookmarks(doc: &Document) -> Vec<(String, ObjectId)> {
    let mut found = Vec::new();
    let outlines = doc.catalog().unwrap().get(b"Outlines").unwrap().as_reference().unwrap();
    let mut next = doc.get_dictionary(outlines).unwrap().get(b"First").ok().cloned();
    while let Some(item) = next {
        let item = doc.get_dictionary(item.as_reference().unwrap()).unwrap();
        let title = String::from_utf8(item.get(b"Title").unwrap().as_str().unwrap().to_vec());
        let action = doc.get_dictionary(item.get(b"A").unwrap().as_reference().unwrap()).unwrap();
        let target = action.get(b"D").unwrap().as_array().unwrap()[0].as_reference().unwrap();
        found.push((title.unwrap(), target));
        next = item.get(b"Next").ok().cloned();
    }
    found
}

#[test]
fn a_missing_result_answers_500() {
    let item = missing_result();
    assert_eq!(item.status.code, 500);
    assert_eq!(item.status.message, "unknown error");
    assert_eq!(item.payload, None);
}

#[test]
fn a_failure_answers_400_with_its_reason() {
    let item = failure("timed out");
    assert_eq!(item.status.code, 400);
    assert_eq!(item.status.message, "render failed: timed out");
    assert_eq!(item.payload, None);
    assert_eq!(failure("").status.message, "render failed: ");
}

#[test]
fn a_pdf_answers_0_with_its_bytes() {
    let item = pdf_result(vec![1, 2, 3]);
    assert_eq!(item.status.code, 0);
    assert_eq!(item.status.message, "success");
    assert_eq!(item.payload, Some(Payload::Pdf(vec![1, 2, 3])));
}

#[test]
fn an_upload_that_went_well_is_confirmed() {
    let item = upload_result(Ok(()), 1234);
    assert_eq!(item.status.code, 0);
    assert_eq!(item.status.message, "success");
    assert_eq!(item.payload, Some(Payload::Upload { length: 1234, url: "n/a".to_string() }));
}

#[test]
fn an_upload_that_failed_answers_400() {
    let item = upload_result(Err("access denied".to_string()), 1234);
    assert_eq!(item.status.code, 400);
    assert_eq!(item.status.message, "render failed: access denied");
    assert_eq!(item.payload, None);
}

#[test]
fn bytes_leave_by_upload_only_where_asked() {
    assert_eq!(deliver(vec![9], None), ItemAction::Respond(pdf_result(vec![9])));
    assert_eq!(
        deliver(vec![9], Some(upload_to("a.pdf"))),
        ItemAction::Upload { data: vec![9], options: upload_to("a.pdf") }
    );
}

#[test]
fn an_item_without_wishes_returns_its_bytes() {
    let action = finish_item(vec![4, 5], None);
    assert_eq!(action, ItemAction::Respond(pdf_result(vec![4, 5])));
    let open = OutputOptions { meta_data: None, upload_options: None };
    assert_eq!(finish_item(vec![4, 5], Some(open)), ItemAction::Respond(pdf_result(vec![4, 5])));
}

#[test]
fn an_item_is_stamped_before_it_leaves() {
    let meta = MetaData { title: Some("T".to_string()), creator: None, producer: None };
    let output = OutputOptions { meta_data: Some(meta), upload_options: Some(upload_to("k")) };
    match finish_item(rendered_page(1), Some(output)) {
        ItemAction::Upload { data, options } => {
            assert_eq!(options, upload_to("k"));
            let doc = Document::load_mem(&data).unwrap();
            let info = doc.get_dictionary((1, 0)).unwrap();
            assert_eq!(info.get(b"Title").unwrap().as_str().unwrap(), b"T");
        }
        ItemAction::Respond(_) => panic!("an answer where an upload was expected"),
    }
}

#[test]
fn an_item_that_cannot_be_stamped_has_failed() {
    let meta = MetaData { title: Some("T".to_string()), creator: None, producer: None };
    let output = OutputOptions { meta_data: Some(meta), upload_options: Some(upload_to("k")) };
    let item = answered(finish_item(b"not a pdf".to_vec(), Some(output)));
    assert_eq!(item.status.code, 400);
    assert_eq!(item.status.message, "render failed: failed parsing pdf");
    assert_eq!(item.payload, None);
}

#[test]
fn one_item_from_each_kind_of_result() {
    assert_eq!(answered(individual_item(None, None)), missing_result());
    assert_eq!(
        answered(individual_item(Some(navigation_failed("no route")), None)),
        failure("no route")
    );
    assert_eq!(answered(individual_item(Some(Ok(vec![7])), None)), pdf_result(vec![7]));
}

#[test]
fn a_failed_job_leaves_its_siblings_alone() {
    let rendered = vec![Some(Ok(vec![1])), Some(navigation_failed("no route")), Some(Ok(vec![3]))];
    let actions = individual_response(rendered, vec![None, None, None]);
    assert_eq!(actions.len(), 3);
    let items: Vec<ItemResponse> = actions.into_iter().map(answered).collect();
    assert_eq!(items[0].status.code, 0);
    assert_eq!(items[0].payload, Some(Payload::Pdf(vec![1])));
    assert_eq!(items[1].status.code, 400);
    assert_eq!(items[1].status.message, "render failed: no route");
    assert_eq!(items[1].payload, None);
    assert_eq!(items[2].status.code, 0);
    assert_eq!(items[2].payload, Some(Payload::Pdf(vec![3])));
}

#[test]
fn there_are_as_many_items_as_jobs() {
    for jobs in 0..5usize {
        let rendered: Vec<Option<InternalResponse>> = (0..jobs)
            .map(|job| match job % 3 {
                0 => Some(Ok(vec![job as u8])),
                1 => Some(navigation_failed("x")),
                _ => None,
            })
            .collect();
        let outputs = (0..jobs).map(|_| None).collect();
        let actions = individual_response(rendered, outputs);
        assert_eq!(actions.len(), jobs);
        for (job, action) in actions.into_iter().enumerate() {
            assert_eq!(answered(action).status.code, [0, 400, 500][job % 3]);
        }
    }
}

#[test]
fn each_item_follows_its_own_wishes() {
    let rendered = vec![Some(Ok(vec![1])), Some(Ok(vec![2]))];
    let upload = OutputOptions { meta_data: None, upload_options: Some(upload_to("second.pdf")) };
    let actions = individual_response(rendered, vec![None, Some(upload)]);
    assert_eq!(actions[0], ItemAction::Respond(pdf_result(vec![1])));
    assert_eq!(actions[1], ItemAction::Upload { data: vec![2], options: upload_to("second.pdf") });
}

#[test]
fn sources_are_read_in_the_order_of_the_jobs() {
    let rendered = vec![Some(Ok(rendered_page(1))), Some(Ok(rendered_page(2)))];
    let documents = read_sources(&rendered).unwrap();
    assert_eq!(documents.len(), 2);
    for (position, document) in documents.iter().enumerate() {
        let page = document.get_pages()[&1];
        let marker = document.get_dictionary(page).unwrap().get(b"Marker").unwrap();
        assert_eq!(marker, &Object::Integer(position as i64 + 1));
    }
    assert!(read_sources(&Vec::new()).unwrap().is_empty());
}

#[test]
fn the_first_job_without_a_pdf_ends_the_reading() {
    let page = rendered_page(1);
    let missing = vec![Some(Ok(page.clone())), None, Some(navigation_failed("x"))];
    assert_eq!(read_sources(&missing).unwrap_err(), SourceProblem::MissingResult(1));
    let failed = vec![Some(navigation_failed("x")), None];
    assert_eq!(read_sources(&failed).unwrap_err(), SourceProblem::JobFailed(0));
    let unreadable = vec![Some(Ok(page.clone())), Some(Ok(page)), Some(Ok(vec![1, 2]))];
    assert_eq!(read_sources(&unreadable).unwrap_err(), SourceProblem::Unreadable(2));
}

#[test]
fn three_jobs_combined_give_one_pdf_of_three_pages() {
    let rendered =
        vec![Some(Ok(rendered_page(1))), Some(Ok(rendered_page(2))), Some(Ok(rendered_page(3)))];
    let item = answered(combined_response(rendered, None).unwrap());
    assert_eq!(item.status.code, 0);
    assert_eq!(item.status.message, "success");
    let bytes = match item.payload {
        Some(Payload::Pdf(bytes)) => bytes,
        _ => panic!("no pdf"),
    };
    let doc = Document::load_mem(&bytes).unwrap();
    let pages: Vec<ObjectId> = doc.get_pages().into_values().collect();
    assert_eq!(pages.len(), 3);
    for (position, page) in pages.iter().enumerate() {
        let marker = doc.get_dictionary(*page).unwrap().get(b"Marker").unwrap();
        assert_eq!(marker, &Object::Integer(position as i64 + 1));
    }
    assert!(doc.catalog().unwrap().has(b"Outlines"));
    assert_eq!(
        bookmarks(&doc),
        vec![
            ("Page_1".to_string(), pages[0]),
            ("Page_2".to_string(), pages[1]),
            ("Page_3".to_string(), pages[2]),
        ]
    );
}

#[test]
fn combined_jobs_are_stamped_and_uploaded_as_asked() {
    let meta = MetaData { title: None, creator: Some("C".to_string()), producer: None };
    let output = OutputOptions { meta_data: Some(meta), upload_options: Some(upload_to("all")) };
    let rendered = vec![Some(Ok(rendered_page(1))), Some(Ok(rendered_page(2)))];
    match combined_response(rendered, Some(output)).unwrap() {
        ItemAction::Upload { data, options } => {
            assert_eq!(options, upload_to("all"));
            let doc = Document::load_mem(&data).unwrap();
            assert_eq!(doc.get_pages().len(), 2);
            let info = doc.get_dictionary((1, 0)).unwrap();
            assert_eq!(info.len(), 1);
            assert_eq!(info.get(b"Creator").unwrap().as_str().unwrap(), b"C");
        }
        ItemAction::Respond(_) => panic!("an answer where an upload was expected"),
    }
}

#[test]
fn a_problem_of_one_job_becomes_the_item() {
    let rendered = vec![Some(Ok(vec![1])), Some(navigation_failed("no route")), None];
    assert_eq!(problem_item(&rendered, SourceProblem::MissingResult(2)), missing_result());
    assert_eq!(problem_item(&rendered, SourceProblem::JobFailed(1)), failure("no route"));
    assert_eq!(problem_item(&rendered, SourceProblem::JobFailed(0)), failure(""));
    assert_eq!(
        problem_item(&rendered, SourceProblem::Unreadable(0)),
        failure("failed parsing pdf")
    );
}

#[test]
fn combining_with_a_missing_result_answers_500() {
    let rendered = vec![Some(Ok(rendered_page(1))), None];
    let item = answered(combined_response(rendered, None).unwrap());
    assert_eq!(item.status.code, 500);
    assert_eq!(item.status.message, "unknown error");
    assert_eq!(item.payload, None);
    assert_eq!(answered(combined_response(vec![None], None).unwrap()), missing_result());
}

#[test]
fn combining_with_a_failed_job_answers_400() {
    let rendered = vec![Some(navigation_failed("no route")), Some(Ok(rendered_page(1)))];
    let item = answered(combined_response(rendered, None).unwrap());
    assert_eq!(item.status.code, 400);
    assert_eq!(item.status.message, "render failed: no route");
    assert_eq!(item.payload, None);
}

#[test]
fn combining_bytes_that_are_no_pdf_answers_400() {
    let rendered = vec![Some(Ok(rendered_page(1))), Some(Ok(b"junk".to_vec()))];
    let item = answered(combined_response(rendered, None).unwrap());
    assert_eq!(item.status.code, 400);
    assert_eq!(item.status.message, "render failed: failed parsing pdf");
    assert_eq!(item.payload, None);
}

#[test]
fn the_first_job_without_a_pdf_decides_the_combined_item() {
    let rendered = vec![Some(Ok(rendered_page(1))), Some(navigation_failed("first")), None];
    let output = OutputOptions { meta_data: None, upload_options: Some(upload_to("k")) };
    let item = answered(combined_response(rendered, Some(output)).unwrap());
    assert_eq!(item, failure("first"));
    let rendered = vec![None, Some(navigation_failed("later"))];
    assert_eq!(answered(combined_response(rendered, None).unwrap()), missing_result());
}

#[test]
fn combining_nothing_misses_the_roots() {
    assert_eq!(
        combined_response(Vec::new(), None).unwrap_err(),
        CombineError::Merge(MergeError::MissingRoot(MissingRoot::Pages))
    );
}

#[test]
fn only_a_merge_fails_a_combined_call() {
    let mut doc = Document::with_version("1.5");
    let mut catalog = Dictionary::new();
    catalog.set("Type", name("Catalog"));
    doc.add_object(catalog);
    let mut bytes = Vec::new();
    doc.save_to(&mut bytes).unwrap();
    assert_eq!(
        combined_response(vec![Some(Ok(bytes))], None).unwrap_err(),
        CombineError::Merge(MergeError::MissingRoot(MissingRoot::Pages))
    );
    assert_ne!(
        CombineError::Merge(MergeError::TooManyObjects),
        CombineError::Merge(MergeError::Unwritable)
    );
}
