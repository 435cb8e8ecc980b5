use unkvoid::google::{
    answer_request, decode, fresh_state, hex, hex_digit, login_url, percent_decode, token_of, DONE_PAGE,
};

#[test]
fn the_token_is_read_only_when_the_state_matches() {
    let request = "GET /?token=12%7Cabc&state=f00d HTTP/1.1\r\nHost: 127.0.0.1\r\n\r\n";

    assert_eq!(token_of(request, "f00d").as_deref(), Some("12|abc"));
    assert_eq!(token_of(request, "beef"), None, "o state de outra pessoa não entrega token");
    assert_eq!(token_of("GET /favicon.ico HTTP/1.1\r\n\r\n", "f00d"), None);
    assert_eq!(token_of("GET /?state=f00d&token= HTTP/1.1\r\n\r\n", "f00d"), None, "token vazio não é token");
}

#[test]
fn a_lone_percent_stays_as_it_is() {
    assert_eq!(decode("a%7Cb%zz%4"), "a|b%zz%4");
    assert_eq!(percent_decode(b"%41%62"), b"Ab".to_vec());
    assert_eq!(hex(b'F'), Some(15));
    assert_eq!(hex(b'g'), None);
}

#[test]
fn the_login_address_carries_the_port_and_the_state() {
    assert_eq!(
        login_url("http://127.0.0.1:8000/", 4242, "f00d"),
        "http://127.0.0.1:8000/oauth2/app?port=4242&state=f00d"
    );
}

#[test]
fn a_fresh_state_is_thirty_two_hexadecimal_digits() {
    let state = fresh_state();

    assert_eq!(state.len(), 32);
    assert!(state.chars().all(|digit| digit.is_ascii_hexdigit() && !digit.is_ascii_uppercase()));
    assert_ne!(state, fresh_state());
}

#[test]
fn a_good_return_gets_the_page_and_anything_else_a_bad_request() {
    let (token, reply) = answer_request(b"GET /?token=12%7Cabc&state=f00d HTTP/1.1\r\nHost: x\r\n\r\n", "f00d");

    assert_eq!(token.as_deref(), Some("12|abc"));
    assert_eq!(
        reply,
        format!(
            "HTTP/1.1 200 OK\r\ncontent-type: text/html; charset=utf-8\r\ncontent-length: {}\r\nconnection: close\r\n\r\n{DONE_PAGE}",
            DONE_PAGE.len()
        )
    );

    let (token, reply) = answer_request(b"GET /?token=12%7Cabc&state=beef HTTP/1.1\r\n\r\n", "f00d");

    assert_eq!(token, None);
    assert_eq!(
        reply,
        "HTTP/1.1 400 Bad Request\r\ncontent-type: text/html; charset=utf-8\r\ncontent-length: 0\r\nconnection: close\r\n\r\n"
    );

    // Bytes that are no UTF-8 do not stop the reading of the rest.
    let (token, _) = answer_request(b"GET /?token=ok&state=f00d HTTP/1.1\r\n\xff\xfe\r\n", "f00d");
    assert_eq!(token.as_deref(), Some("ok"));
}

#[test]
fn the_hexadecimal_digits_are_lowercase() {
    let digits: String = (0..16).map(hex_digit).collect();

    assert_eq!(digits, "0123456789abcdef");
}
