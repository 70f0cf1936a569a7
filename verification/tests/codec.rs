use indexify_core::codec::{decode_content, decode_executor, decode_id_list, decode_task,
    encode_content, encode_executor, encode_id_list, encode_task};
use indexify_core::records::{ContentMetadata, ExecutorMetadata, Task};

#[test]
fn task_encodes_to_canonical_text() {
    let t = Task {
        id: "t1".to_string(),
        executor_id: "e1".to_string(),
        extractor_name: "minilm".to_string(),
        status: "pending".to_string(),
        payload_ref: "blob/t1".to_string(),
    };
    assert_eq!(
        encode_task(&t),
        "[\"t1\",\"e1\",\"minilm\",\"pending\",\"blob/t1\"]"
    );
}

#[test]
fn task_round_trips() {
    let t = Task {
        id: "t-42".to_string(),
        executor_id: "exec-1".to_string(),
        extractor_name: "wiki".to_string(),
        status: "running".to_string(),
        payload_ref: "".to_string(),
    };
    let back = decode_task(&encode_task(&t)).unwrap();
    assert_eq!(back.id, t.id);
    assert_eq!(back.executor_id, t.executor_id);
    assert_eq!(back.extractor_name, t.extractor_name);
    assert_eq!(back.status, t.status);
    assert_eq!(back.payload_ref, t.payload_ref);
}

#[test]
fn task_with_quotes_and_backslashes_round_trips() {
    let t = Task {
        id: "a\"b\\c".to_string(),
        executor_id: "\\".to_string(),
        extractor_name: "\"".to_string(),
        status: "ok,[]".to_string(),
        payload_ref: "null".to_string(),
    };
    let enc = encode_task(&t);
    assert_eq!(enc, "[\"a\\\"b\\\\c\",\"\\\\\",\"\\\"\",\"ok,[]\",\"null\"]");
    let back = decode_task(&enc).unwrap();
    assert_eq!(back.id, t.id);
    assert_eq!(back.executor_id, t.executor_id);
    assert_eq!(back.extractor_name, t.extractor_name);
    assert_eq!(back.status, t.status);
    assert_eq!(back.payload_ref, t.payload_ref);
}

#[test]
fn task_decode_rejects_garbage_and_trailing_text() {
    assert!(decode_task("").is_none());
    assert!(decode_task("{\"id\":\"t1\"}").is_none());
    assert!(decode_task("[\"a\",\"b\",\"c\",\"d\"]").is_none());
    assert!(decode_task("[\"a\",\"b\",\"c\",\"d\",\"e\"] ").is_none());
}

#[test]
fn id_list_encodes_to_canonical_text() {
    let ids = vec!["t1".to_string(), "t2".to_string()];
    assert_eq!(encode_id_list(&ids), "[\"t1\",\"t2\"]");
    let empty: Vec<String> = Vec::new();
    assert_eq!(encode_id_list(&empty), "[]");
}

#[test]
fn id_list_round_trips() {
    let ids = vec!["t1".to_string(), "t,2".to_string(), "t\"3".to_string()];
    let back = decode_id_list(&encode_id_list(&ids)).unwrap();
    assert_eq!(back, ids);
    let empty: Vec<String> = Vec::new();
    assert_eq!(decode_id_list("[]").unwrap(), empty);
    assert!(decode_id_list("[").is_none());
    assert!(decode_id_list("[\"a\"").is_none());
}

#[test]
fn executor_round_trips_with_labels() {
    let e = ExecutorMetadata {
        id: "e1".to_string(),
        addr: "10.0.0.1:8956".to_string(),
        labels: vec!["gpu".to_string()],
    };
    assert_eq!(encode_executor(&e), "[\"e1\",\"10.0.0.1:8956\",[\"gpu\"]]");
    let back = decode_executor(&encode_executor(&e)).unwrap();
    assert_eq!(back.id, e.id);
    assert_eq!(back.addr, e.addr);
    assert_eq!(back.labels, e.labels);

    let bare = ExecutorMetadata {
        id: "e2".to_string(),
        addr: "".to_string(),
        labels: Vec::new(),
    };
    assert_eq!(encode_executor(&bare), "[\"e2\",\"\",[]]");
    let back = decode_executor(&encode_executor(&bare)).unwrap();
    assert_eq!(back.labels, Vec::<String>::new());
}

#[test]
fn content_round_trips_with_and_without_parent() {
    let root = ContentMetadata {
        id: "c1".to_string(),
        parent_id: None,
        content_type: "text/plain".to_string(),
        storage_ptr: "s3://b/c1".to_string(),
    };
    assert_eq!(encode_content(&root), "[\"c1\",null,\"text/plain\",\"s3://b/c1\"]");
    let back = decode_content(&encode_content(&root)).unwrap();
    assert_eq!(back.parent_id, None);

    let child = ContentMetadata {
        id: "c2".to_string(),
        parent_id: Some("c1".to_string()),
        content_type: "application/pdf".to_string(),
        storage_ptr: "s3://b/c2".to_string(),
    };
    let back = decode_content(&encode_content(&child)).unwrap();
    assert_eq!(back.id, "c2");
    assert_eq!(back.parent_id, Some("c1".to_string()));
    assert_eq!(back.content_type, "application/pdf");
}
