use std::collections::HashMap;

use indexify_core::errors::ExtractionError;
use indexify_core::persistence::ContentPayload;
use indexify_core::server::{advertise_addr, extract_response, sync_response, ExecutorConfig,
    ExecutorServer, ExtractorExecutor};

fn config() -> ExecutorConfig {
    ExecutorConfig {
        listen_if: "0.0.0.0".to_string(),
        listen_port: 0,
        advertise_if: "192.168.1.10".to_string(),
    }
}

#[test]
fn advertise_addr_joins_interface_and_port() {
    assert_eq!(advertise_addr("192.168.1.10", 8956), "192.168.1.10:8956");
    assert_eq!(advertise_addr("localhost", 0), "localhost:0");
    assert_eq!(advertise_addr("::", 65535), ":::65535");
}

#[test]
fn executor_server_holds_its_configuration() {
    let server = ExecutorServer::new("/etc/extractor.yaml", config());
    assert_eq!(server.extractor_config_path, "/etc/extractor.yaml");
    assert_eq!(server.executor_config.advertise_if, "192.168.1.10");
    assert_eq!(ExecutorServer::identity(), "Indexify Extractor Server");
}

#[test]
fn extractor_executor_keeps_advertised_address() {
    let addr = advertise_addr("192.168.1.10", 8956);
    let executor = ExtractorExecutor::new(config(), addr);
    assert_eq!(executor.advertise_addr, "192.168.1.10:8956");
}

#[test]
fn failing_extraction_surfaces_as_500_with_message() {
    let outcome = Err(ExtractionError {
        message: "python module crashed".to_string(),
    });
    let err = extract_response(outcome).unwrap_err();
    assert_eq!(err.status_code, 500);
    assert_eq!(err.message, "python module crashed");
}

#[test]
fn successful_extraction_passes_content_through() {
    let item = ContentPayload::from_text("repo", "chunk one", HashMap::new());
    let id = item.id.clone();
    let resp = extract_response(Ok(vec![item])).unwrap();
    assert_eq!(resp.content.len(), 1);
    assert_eq!(resp.content[0].id, id);
    assert_eq!(resp.content[0].payload, "chunk one");
}

#[test]
fn sync_acknowledges_without_waiting_on_heartbeat() {
    assert!(sync_response().is_ok());
}
