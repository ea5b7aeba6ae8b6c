use sniproxy::protocols::jsonrpc::{detect_jsonrpc, validate_batch};
use sniproxy::protocols::rpc::{detect_rpc, extract_rpc_method};
use sniproxy::protocols::soap::{detect_soap, detect_soap_envelope, extract_soap_action};
use sniproxy::protocols::socketio::{
    detect_socketio, detect_transport, extract_namespace, Transport,
};
use sniproxy::protocols::xmlrpc::{detect_xmlrpc, extract_method};

#[test]
fn test_rpc_detection() {
    assert!(detect_rpc("POST /rpc HTTP/1.1"));
    assert!(detect_rpc("POST /api/rpc HTTP/1.1"));
    assert!(detect_rpc("POST /rpc/method HTTP/1.1"));
    assert!(detect_rpc("GET /jsonrpc HTTP/1.1"));
    assert!(detect_rpc("POST /xmlrpc HTTP/1.1"));
}

#[test]
fn test_not_rpc() {
    assert!(!detect_rpc("GET /api/users HTTP/1.1"));
    assert!(!detect_rpc("POST /graphql HTTP/1.1"));
    assert!(!detect_rpc("GET / HTTP/1.1"));
}

#[test]
fn test_method_extraction() {
    let req = "POST /rpc/getUserInfo HTTP/1.1";
    assert_eq!(extract_rpc_method(req), Some("getUserInfo".to_string()));

    let req_with_params = "POST /rpc/sendMessage?id=123 HTTP/1.1";
    assert_eq!(
        extract_rpc_method(req_with_params),
        Some("sendMessage".to_string())
    );

    let req_no_method = "POST /rpc HTTP/1.1";
    assert_eq!(extract_rpc_method(req_no_method), None);
}

#[test]
fn test_case_insensitive() {
    assert!(detect_rpc("POST /RPC HTTP/1.1"));
    assert!(detect_rpc("POST /API/RPC HTTP/1.1"));
}

#[test]
fn test_soap_envelope_detection() {
    let body = br#"<?xml version="1.0"?>
<soap:Envelope xmlns:soap="http://schemas.xmlsoap.org/soap/envelope/">
  <soap:Body>
    <GetPrice xmlns="http://www.example.com/stock">
      <StockName>IBM</StockName>
    </GetPrice>
  </soap:Body>
</soap:Envelope>"#;

    assert!(detect_soap_envelope(body));
}

#[test]
fn test_soap_action_header() {
    let headers = "POST /StockQuote HTTP/1.1\r\n\
                      Content-Type: text/xml\r\n\
                      SOAPAction: \"http://www.example.com/GetStockPrice\"\r\n";

    assert!(detect_soap(headers, b""));
    assert_eq!(
        extract_soap_action(headers),
        Some("http://www.example.com/GetStockPrice".to_string())
    );
}

#[test]
fn test_not_soap() {
    let body = br#"<?xml version="1.0"?><data><value>test</value></data>"#;
    let headers = "POST /api HTTP/1.1\r\n";
    assert!(!detect_soap(headers, body));
}

#[test]
fn test_case_insensitive_header() {
    let headers = "POST /Test HTTP/1.1\r\nsoapaction: \"test\"\r\n";
    assert!(detect_soap(headers, b""));
}

#[test]
fn test_socketio_detection() {
    assert!(detect_socketio(
        "GET /socket.io/?EIO=4&transport=polling HTTP/1.1"
    ));
    assert!(detect_socketio("GET /socket.io/?EIO=3 HTTP/1.1"));
    assert!(!detect_socketio("GET /api/data HTTP/1.1"));
}

#[test]
fn test_transport_detection() {
    let req = "GET /socket.io/?EIO=4&transport=polling HTTP/1.1";
    assert_eq!(detect_transport(req), Transport::Polling);

    let req_ws = "GET /socket.io/?EIO=4&transport=websocket HTTP/1.1";
    assert_eq!(detect_transport(req_ws), Transport::WebSocket);
}

#[test]
fn test_namespace_extraction() {
    let path = "/socket.io/?EIO=4&transport=polling&namespace=/admin";
    assert_eq!(extract_namespace(path).unwrap(), "/admin");

    let default_path = "/socket.io/?EIO=4&transport=polling";
    assert_eq!(extract_namespace(default_path).unwrap(), "/");
}

#[test]
fn test_jsonrpc_v2_detection() {
    let body = br#"{"jsonrpc":"2.0","method":"test","params":[],"id":1}"#;
    assert!(detect_jsonrpc(body));
}

#[test]
fn test_jsonrpc_v1_detection() {
    let body = br#"{"method":"test","params":[],"id":1}"#;
    assert!(detect_jsonrpc(body));
}

#[test]
fn test_jsonrpc_batch() {
    let body = br#"[{"jsonrpc":"2.0","method":"test1","id":1},{"jsonrpc":"2.0","method":"test2","id":2}]"#;
    assert!(detect_jsonrpc(body));
    assert!(validate_batch(body, 10).is_ok());
    assert!(validate_batch(body, 1).is_err());
}

#[test]
fn test_not_jsonrpc() {
    let body = br#"{"data":"value"}"#;
    assert!(!detect_jsonrpc(body));
}

#[test]
fn test_xmlrpc_detection() {
    let body = br#"<?xml version="1.0"?>
<methodCall>
  <methodName>examples.getStateName</methodName>
  <params>
    <param>
      <value><i4>40</i4></value>
    </param>
  </params>
</methodCall>"#;

    assert!(detect_xmlrpc(body));
    assert_eq!(extract_method(body).unwrap(), "examples.getStateName");
}

#[test]
fn test_not_xmlrpc() {
    let body = br#"<?xml version="1.0"?><data><value>test</value></data>"#;
    assert!(!detect_xmlrpc(body));
}

#[test]
fn test_invalid_xml() {
    let body = b"not xml at all";
    assert!(!detect_xmlrpc(body));
}
