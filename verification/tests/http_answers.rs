use agentemac::http::{
    json_response, not_found_response, preflight_response, push_decimal, report_json,
    report_response, route_request, route_text, Route,
};
use agentemac::report::{macs_to_json, MacInfo};

const CORS: &str = "Access-Control-Allow-Origin: *\r\nAccess-Control-Allow-Methods: GET, OPTIONS\r\n";

fn buffer(request: &str) -> Vec<u8> {
    let mut buf = vec![0u8; 1024];
    buf[..request.len()].copy_from_slice(request.as_bytes());
    buf
}

fn mac(interface: &str, mac: &str, ip: &str) -> MacInfo {
    MacInfo { interface: interface.to_string(), mac: mac.to_string(), ip: ip.to_string() }
}

#[test]
fn mac_request_gets_the_report() {
    let buf = buffer("GET /mac HTTP/1.1\r\nHost: 127.0.0.1:6060\r\n\r\n");
    assert_eq!(route_request(&buf), Route::MacReport);
}

#[test]
fn options_request_is_preflight_whatever_its_target() {
    assert_eq!(route_request(&buffer("OPTIONS /mac HTTP/1.1\r\n\r\n")), Route::Preflight);
    assert_eq!(route_request(&buffer("OPTIONS /elsewhere HTTP/1.1\r\n\r\n")), Route::Preflight);
    assert_eq!(route_text("OPTIONSX"), Route::Preflight);
}

#[test]
fn other_targets_are_not_found() {
    assert_eq!(route_request(&buffer("GET / HTTP/1.1\r\n\r\n")), Route::NotFound);
    assert_eq!(route_request(&buffer("GET /mac/ HTTP/1.1\r\n\r\n")), Route::NotFound);
    assert_eq!(route_request(&buffer("POST /MAC HTTP/1.1\r\n\r\n")), Route::NotFound);
    // No target at all: the target is taken to be `/`.
    assert_eq!(route_request(&buffer("GET\r\n")), Route::NotFound);
    assert_eq!(route_request(&[0u8; 1024]), Route::NotFound);
    assert_eq!(route_text(""), Route::NotFound);
}

#[test]
fn target_is_second_word_of_first_line_only() {
    assert_eq!(route_text("  GET   /mac\r\n"), Route::MacReport);
    assert_eq!(route_text("GET /x HTTP/1.1\r\nOPTIONS /mac\r\n"), Route::NotFound);
    assert_eq!(route_text("GET /mac"), Route::MacReport);
}

#[test]
fn unterminated_request_line_keeps_trailing_buffer_bytes() {
    // Without a line end the zero bytes of the read buffer stay in the target.
    assert_eq!(route_request(&buffer("GET /mac")), Route::NotFound);
}

#[test]
fn invalid_utf8_is_replaced_before_routing() {
    let mut buf = buffer("GET /mac HTTP/1.1\r\n");
    buf[20] = 0xff;
    assert_eq!(route_request(&buf), Route::MacReport);
    let mut bad = b"GET /\xffmac HTTP/1.1\r\n".to_vec();
    bad.resize(1024, 0);
    assert_eq!(route_request(&bad), Route::NotFound);
    assert_eq!(route_request(b"GET \xc3\xa9 /mac\r\n"), Route::NotFound);
}

#[test]
fn preflight_answer_is_exact() {
    assert_eq!(
        preflight_response(),
        format!("HTTP/1.1 204 No Content\r\n{}Content-Length: 0\r\n\r\n", CORS)
    );
}

#[test]
fn not_found_answer_is_exact() {
    assert_eq!(
        not_found_response(),
        format!(
            "HTTP/1.1 404 Not Found\r\n{}Content-Type: application/json\r\nContent-Length: 21\r\n\r\n{{\"error\":\"Not found\"}}",
            CORS
        )
    );
}

#[test]
fn report_answer_counts_body_bytes() {
    let macs = vec![mac("eth0", "aa:bb:cc:dd:ee:ff", "192.168.0.7")];
    let body = "{\"hostname\":\"café\",\"macs\":[{\"interface\":\"eth0\",\"mac\":\"aa:bb:cc:dd:ee:ff\",\"ip\":\"192.168.0.7\"}]}";
    assert_eq!(report_json("café", &macs), body);
    let expected = format!(
        "HTTP/1.1 200 OK\r\n{}Content-Type: application/json\r\nContent-Length: {}\r\n\r\n{}",
        CORS,
        body.len(),
        body
    );
    assert_eq!(report_response("café", &macs), expected);
    assert_eq!(body.len(), body.chars().count() + 1);
}

#[test]
fn every_answer_carries_cors_and_ends_with_body() {
    for r in [preflight_response(), not_found_response(), json_response("HTTP/1.1 200 OK", "{}")] {
        assert!(r.contains(CORS));
    }
    let r = json_response("S", "ü€𝄞");
    assert!(r.ends_with("\r\n\r\nü€𝄞"));
    assert!(r.contains("Content-Length: 9\r\n"));
}

#[test]
fn decimal_numbers() {
    for n in [0usize, 7, 10, 21, 99, 100, 12345, usize::MAX] {
        let mut s = String::from("x");
        push_decimal(&mut s, n);
        assert_eq!(s, format!("x{}", n));
        assert_eq!(s[1..].parse::<usize>().unwrap(), n);
    }
}

#[test]
fn empty_report_list_is_empty_array() {
    assert_eq!(macs_to_json(&[]), "[]");
    assert_eq!(report_json("h", &[]), "{\"hostname\":\"h\",\"macs\":[]}");
}

#[test]
fn json_lists_interfaces_in_order() {
    let macs = vec![mac("eth0", "00:11:22:33:44:55", ""), mac("wlan0", "66:77:88:99:aa:bb", "10.0.0.2")];
    assert_eq!(
        macs_to_json(&macs),
        "[{\"interface\":\"eth0\",\"mac\":\"00:11:22:33:44:55\",\"ip\":\"\"},{\"interface\":\"wlan0\",\"mac\":\"66:77:88:99:aa:bb\",\"ip\":\"10.0.0.2\"}]"
    );
}

#[test]
fn each_answer_has_one_content_length_header() {
    let macs = vec![mac("eth0", "aa:bb:cc:dd:ee:ff", "")];
    for (answer, expected) in [
        (preflight_response(), 0usize),
        (not_found_response(), 21),
        (report_response("café", &macs), report_json("café", &macs).len()),
    ] {
        let (head, body) = answer.split_once("\r\n\r\n").unwrap();
        let lengths: Vec<&str> = head
            .split("\r\n")
            .skip(1)
            .filter_map(|l| l.strip_prefix("Content-Length: "))
            .collect();
        assert_eq!(lengths.len(), 1);
        assert_eq!(lengths[0].parse::<usize>().unwrap(), expected);
        assert_eq!(body.len(), expected);
    }
}
