use std::sync::Arc;

use minio_xml_validator::config::{MinioConfig, PipelineConfig};
use minio_xml_validator::diagnostic::{Diagnostic, Severity};
use minio_xml_validator::grpc::responses::{
    closing_events, diagnostic_response, file_failure, file_success, stream_item, BatchEvent,
};
use minio_xml_validator::grpc::service::{Delivery, DownloadFeed, ValidatorServiceImpl};
use minio_xml_validator::proto::{
    self, Code, FileComplete, FileRequest, Payload, ValidateRequest, ValidateResponse,
};
use minio_xml_validator::registry::ValidatorRegistry;
use minio_xml_validator::storage::client::MinioClientPool;
use minio_xml_validator::validators::register_all;

fn test_minio_pool() -> Arc<MinioClientPool> {
    let configs = vec![MinioConfig {
        name: "test".to_owned(),
        endpoint: "http://127.0.0.1:19000".to_owned(),
        access_key: "minioadmin".to_owned(),
        secret_key: "minioadmin".to_owned(),
        region: None,
        secure: Some(false),
    }];
    Arc::new(MinioClientPool::from_configs(&configs).unwrap())
}

fn test_registry() -> Arc<ValidatorRegistry> {
    let mut reg = ValidatorRegistry::new();
    register_all(&mut reg);
    Arc::new(reg)
}

fn test_service() -> ValidatorServiceImpl {
    ValidatorServiceImpl::new(test_minio_pool(), test_registry(), &PipelineConfig::default())
}

fn file_request(minio_config: &str, bucket: &str, key: &str, validator: &str) -> FileRequest {
    FileRequest {
        minio_config_name: minio_config.to_owned(),
        bucket: bucket.to_owned(),
        object_key: key.to_owned(),
        validator_id: validator.to_owned(),
    }
}

#[test]
fn reject_empty_request() {
    let service = test_service();
    let err = service.validate_batch(ValidateRequest { files: vec![] }).err().unwrap();
    assert_eq!(err.code, Code::InvalidArgument);
    assert!(err.message.contains("no files"));
}

#[test]
fn reject_unknown_minio_config() {
    let service = test_service();
    let req = ValidateRequest {
        files: vec![file_request("nonexistent", "bucket", "key.xml", "example-catalog")],
    };
    let err = service.validate_batch(req).err().unwrap();
    assert_eq!(err.code, Code::NotFound);
    assert!(err.message.contains("nonexistent"));
}

#[test]
fn reject_unknown_validator() {
    let service = test_service();
    let req = ValidateRequest {
        files: vec![file_request("test", "bucket", "key.xml", "no-such-validator")],
    };
    let err = service.validate_batch(req).err().unwrap();
    assert_eq!(err.code, Code::NotFound);
    assert!(err.message.contains("no-such-validator"));
}

#[test]
fn first_unknown_file_is_named_and_its_instance_first() {
    let service = test_service();
    let files = vec![
        file_request("test", "b", "1.xml", "example-catalog"),
        file_request("bad", "b", "2.xml", "nope"),
        file_request("worse", "b", "3.xml", "example-catalog"),
    ];
    let err = service.check_files(&files).unwrap_err();
    assert_eq!(err.code, Code::NotFound);
    assert_eq!(err.message, "unknown minio config 'bad'");

    let err = service
        .check_files(&[file_request("test", "b", "k", "nope")])
        .unwrap_err();
    assert_eq!(err.message, "unknown validator 'nope'");
    assert!(service.check_files(&files[..1]).is_ok());
}

#[test]
fn accepted_batch_is_downloaded_in_order() {
    let service = test_service();
    let mut feed = service
        .validate_batch(ValidateRequest {
            files: vec![
                file_request("test", "b", "1.xml", "example-catalog"),
                file_request("test", "b", "dir/2.xml", "example-catalog"),
            ],
        })
        .ok()
        .unwrap();
    assert_eq!(feed.file_count(), 2);

    let job = service.next_job(&mut feed).unwrap();
    assert_eq!(job.filename, "b/1.xml");
    assert_eq!(job.bucket, "b");
    assert_eq!(job.object_key, "1.xml");
    assert_eq!(job.descriptors.root.name, "catalog");
    assert!(!job.client.is_secure());
    feed.note_delivery(Delivery::Handed);

    let job = service.next_job(&mut feed).unwrap();
    assert_eq!(job.filename, "b/dir/2.xml");
    feed.note_delivery(Delivery::Handed);

    assert!(service.next_job(&mut feed).is_none());
    assert_eq!(feed.file_count(), 2);
    assert_eq!(feed.into_handed(), ["b/1.xml", "b/dir/2.xml"]);
}

#[test]
fn files_that_are_not_handed_over_are_left_out() {
    let service = test_service();
    let mut feed = DownloadFeed::new(
        ["1.xml", "2.xml", "3.xml"]
            .iter()
            .map(|key| file_request("test", "b", key, "example-catalog"))
            .collect(),
    );
    feed.note_delivery(Delivery::Handed);
    assert!(service.next_job(&mut feed).is_some());
    feed.note_delivery(Delivery::Reported);
    assert!(service.next_job(&mut feed).is_some());
    feed.note_delivery(Delivery::Handed);
    feed.note_delivery(Delivery::Handed);
    assert!(service.next_job(&mut feed).is_some());
    feed.note_delivery(Delivery::Refused);
    assert_eq!(feed.into_handed(), ["b/2.xml"]);
}

#[test]
fn unknown_files_are_passed_over() {
    let service = test_service();
    let mut feed = DownloadFeed::new(vec![
        file_request("bad", "b", "1.xml", "example-catalog"),
        file_request("test", "b", "2.xml", "example-catalog"),
        file_request("test", "b", "3.xml", "nope"),
    ]);
    assert_eq!(service.next_job(&mut feed).unwrap().filename, "b/2.xml");
    assert!(service.next_job(&mut feed).is_none());
    assert!(service.next_job(&mut feed).is_none());
}

#[test]
fn feed_stops_when_nobody_takes_delivery() {
    let service = test_service();
    let mut feed = DownloadFeed::new(vec![
        file_request("test", "b", "1.xml", "example-catalog"),
        file_request("test", "b", "2.xml", "example-catalog"),
    ]);
    assert!(service.next_job(&mut feed).is_some());
    feed.note_delivery(Delivery::Refused);
    assert!(service.next_job(&mut feed).is_none());
    feed.note_delivery(Delivery::Handed);
    assert!(service.next_job(&mut feed).is_none());
}

#[test]
fn pipeline_settings_are_kept() {
    let config = PipelineConfig {
        thread_count: Some(4),
        buf_reader_capacity: 1,
        diagnostics_buffer_size: 2,
    };
    let service = ValidatorServiceImpl::new(test_minio_pool(), test_registry(), &config);
    assert_eq!(service.build_pipeline_config(), config);
}

/// The marker that a response carries.
fn marker(response: ValidateResponse) -> FileComplete {
    match response.payload {
        Some(Payload::FileComplete(complete)) => complete,
        other => panic!("not a completion: {:?}", other),
    }
}

#[test]
fn failed_download_is_a_failed_file() {
    let complete = marker(file_failure("b/k.xml".to_owned(), "unreachable".to_owned()));
    assert_eq!(complete.filename, "b/k.xml");
    assert!(!complete.success);
    assert_eq!(complete.error_message, "unreachable");

    let event = BatchEvent::StartFailed {
        filename: "b/k.xml".to_owned(),
        error: "unreachable".to_owned(),
    };
    let complete = marker(stream_item(event).unwrap());
    assert_eq!(complete.filename, "b/k.xml");
    assert!(!complete.success);
    assert_eq!(complete.error_message, "unreachable");
}

#[test]
fn file_that_ended_well_has_a_marker() {
    let complete = marker(file_success("b/k.xml".to_owned()));
    assert_eq!(complete.filename, "b/k.xml");
    assert!(complete.success);
    assert_eq!(complete.error_message, "");
}

#[test]
fn pipeline_error_stands_for_its_file() {
    let event = BatchEvent::PipelineError("b/k.xml: broken".to_owned());
    let complete = marker(stream_item(event).unwrap());
    assert_eq!(complete.filename, "b/k.xml: broken");
    assert!(!complete.success);
    assert_eq!(complete.error_message, "b/k.xml: broken");
}

#[test]
fn pipeline_errors_are_reported_in_order() {
    assert!(closing_events(&[], &[]).is_empty());
    let events = closing_events(&["f".to_owned()], &["one".to_owned(), "two".to_owned()]);
    let markers: Vec<FileComplete> =
        events.into_iter().map(|e| marker(stream_item(e).unwrap())).collect();
    assert!(markers.iter().all(|m| !m.success));
    let texts: Vec<String> = markers.into_iter().map(|m| m.error_message).collect();
    assert_eq!(texts, ["one", "two"]);
}

#[test]
fn files_of_a_clean_batch_are_marked_in_order() {
    let events = closing_events(&["b/1.xml".to_owned(), "b/2.xml".to_owned()], &[]);
    let markers: Vec<FileComplete> =
        events.into_iter().map(|e| marker(stream_item(e).unwrap())).collect();
    assert!(markers.iter().all(|m| m.success && m.error_message.is_empty()));
    let names: Vec<String> = markers.into_iter().map(|m| m.filename).collect();
    assert_eq!(names, ["b/1.xml", "b/2.xml"]);
}

#[test]
fn stream_keeps_findings_and_markers_in_order() {
    let finding = |rule: &str| {
        BatchEvent::Finding(Diagnostic {
            rule_name: rule.to_owned(),
            message: "m".to_owned(),
            element_path: vec!["root".to_owned()],
            element_index: 0,
            severity: Severity::Error,
        })
    };
    let mut events = vec![finding("a"), finding("a"), finding("b")];
    events.push(BatchEvent::StartFailed { filename: "f".to_owned(), error: "lost".to_owned() });
    events.extend(closing_events(&[], &["broken".to_owned()]));
    events.push(finding("c"));
    let said: Vec<String> = events
        .into_iter()
        .map(|e| match stream_item(e).unwrap().payload {
            Some(Payload::Diagnostic(message)) => message.rule_name,
            Some(Payload::FileComplete(complete)) => complete.error_message,
            None => panic!("no payload"),
        })
        .collect();
    assert_eq!(said, ["a", "a", "b", "lost", "broken", "c"]);
}

#[test]
fn finding_becomes_a_response() {
    let d = Diagnostic {
        rule_name: "r".to_owned(),
        message: "m".to_owned(),
        element_path: vec!["catalog".to_owned(), "entry".to_owned()],
        element_index: 9,
        severity: Severity::Warning,
    };
    match diagnostic_response(&d).payload {
        Some(Payload::Diagnostic(message)) => {
            assert_eq!(message.rule_name, "r");
            assert_eq!(message.message, "m");
            assert_eq!(message.element_path, "catalog/entry");
            assert_eq!(message.element_index, 9);
            assert_eq!(message.severity, proto::Severity::Warning);
            assert_eq!(message.filename, "catalog/entry");
        }
        other => panic!("not a finding: {:?}", other),
    }
}
