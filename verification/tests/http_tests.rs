use nomos_da::http::{hash_tx, mempool_metrics_body, ApiService, ApiServiceSettings, Endpoint, Tx};

#[test]
fn transaction_hash_is_its_text() {
    let tx = Tx(String::from("abc"));
    assert_eq!(hash_tx(&tx), "abc");
}

#[test]
fn transaction_bytes_are_its_utf8_text() {
    let tx = Tx(String::from("hé"));
    assert_eq!(tx.as_bytes(), vec![104, 0xc3, 0xa9]);
    assert!(Tx(String::new()).as_bytes().is_empty());
}

#[test]
fn metrics_body_is_json_with_both_numbers() {
    let body = mempool_metrics_body(3, 42);
    assert_eq!(String::from_utf8(body).unwrap(), "{\"pending_items\": 3, \"last_item\": 42}");
}

#[test]
fn metrics_body_edge_numbers() {
    let body = mempool_metrics_body(0, u64::MAX);
    assert_eq!(
        String::from_utf8(body).unwrap(),
        format!("{{\"pending_items\": 0, \"last_item\": {}}}", u64::MAX)
    );
    let body = mempool_metrics_body(10, 9);
    assert_eq!(String::from_utf8(body).unwrap(), "{\"pending_items\": 10, \"last_item\": 9}");
}

struct Server;

impl Endpoint for Server {
    type Settings = u16;
}

#[test]
fn api_service_hands_its_settings_to_the_server() {
    let service: ApiService<Server> = ApiService::init(ApiServiceSettings { server_settings: 8080 });
    assert_eq!(service.into_server_settings(), 8080);
}
