use listener_pool::keep_alive::{keeps_alive, ConnectionOptions, HttpVersion};

fn options(close: bool, keep_alive: bool) -> ConnectionOptions {
    ConnectionOptions { close, keep_alive }
}

#[test]
fn the_version_and_the_options_say_whether_a_connection_persists() {
    let none = ConnectionOptions { close: false, keep_alive: false };
    let keep = ConnectionOptions { close: false, keep_alive: true };
    let close = ConnectionOptions { close: true, keep_alive: false };
    let both = ConnectionOptions { close: true, keep_alive: true };
    assert!(keeps_alive(HttpVersion::Http11, none));
    assert!(keeps_alive(HttpVersion::Http11, keep));
    assert!(!keeps_alive(HttpVersion::Http11, close));
    assert!(!keeps_alive(HttpVersion::Http11, both));
    assert!(!keeps_alive(HttpVersion::Http10, none));
    assert!(keeps_alive(HttpVersion::Http10, keep));
    assert!(!keeps_alive(HttpVersion::Http10, close));
    assert!(!keeps_alive(HttpVersion::Http10, both));
}

#[test]
fn a_header_names_the_options_it_lists() {
    assert_eq!(ConnectionOptions::named_in(b"close"), options(true, false));
    assert_eq!(ConnectionOptions::named_in(b"keep-alive"), options(false, true));
    assert_eq!(ConnectionOptions::named_in(b"keep-alive, close"), options(true, true));
    assert_eq!(ConnectionOptions::named_in(b"close,keep-alive"), options(true, true));
    assert_eq!(ConnectionOptions::named_in(b"upgrade"), options(false, false));
    assert_eq!(ConnectionOptions::named_in(b"upgrade, keep-alive"), options(false, true));
    assert_eq!(ConnectionOptions::named_in(b"TE, close"), options(true, false));
}

#[test]
fn an_empty_header_names_no_option() {
    assert_eq!(ConnectionOptions::named_in(b""), options(false, false));
    assert_eq!(ConnectionOptions::named_in(b","), options(false, false));
    assert_eq!(ConnectionOptions::named_in(b" , ,, "), options(false, false));
    assert_eq!(ConnectionOptions::none(), options(false, false));
}

#[test]
fn the_case_of_letters_does_not_matter() {
    assert_eq!(ConnectionOptions::named_in(b"Close"), options(true, false));
    assert_eq!(ConnectionOptions::named_in(b"CLOSE"), options(true, false));
    assert_eq!(ConnectionOptions::named_in(b"Keep-Alive"), options(false, true));
    assert_eq!(ConnectionOptions::named_in(b"KEEP-ALIVE"), options(false, true));
    assert_eq!(ConnectionOptions::named_in(b"kEEP-aLIVE,cLoSe"), options(true, true));
}

#[test]
fn blanks_around_an_option_do_not_matter() {
    assert_eq!(ConnectionOptions::named_in(b" close"), options(true, false));
    assert_eq!(ConnectionOptions::named_in(b"close "), options(true, false));
    assert_eq!(ConnectionOptions::named_in(b"\tclose\t"), options(true, false));
    assert_eq!(ConnectionOptions::named_in(b"  keep-alive \t,\t close  "), options(true, true));
    assert_eq!(ConnectionOptions::named_in(b"foo ,  keep-alive"), options(false, true));
}

#[test]
fn a_name_that_only_resembles_an_option_is_none() {
    assert_eq!(ConnectionOptions::named_in(b"closed"), options(false, false));
    assert_eq!(ConnectionOptions::named_in(b"xclose"), options(false, false));
    assert_eq!(ConnectionOptions::named_in(b"clos"), options(false, false));
    assert_eq!(ConnectionOptions::named_in(b"c lose"), options(false, false));
    assert_eq!(ConnectionOptions::named_in(b"close close"), options(false, false));
    assert_eq!(ConnectionOptions::named_in(b"keep alive"), options(false, false));
    assert_eq!(ConnectionOptions::named_in(b"keep-alive;close"), options(false, false));
    assert_eq!(ConnectionOptions::named_in(b"keepalive"), options(false, false));
    assert_eq!(ConnectionOptions::named_in(b"keep-alives"), options(false, false));
    assert_eq!(ConnectionOptions::named_in(b"close\n"), options(false, false));
    assert_eq!(ConnectionOptions::named_in(b"\x03lose"), options(false, false));
    assert_eq!(ConnectionOptions::named_in(b"CLOSE\x00"), options(false, false));
    assert_eq!(ConnectionOptions::named_in(b"[lose"), options(false, false));
    assert_eq!(ConnectionOptions::named_in(b"@lose"), options(false, false));
    assert_eq!(ConnectionOptions::named_in(b"KEEP\x0dALIVE"), options(false, false));
}

#[test]
fn the_headers_of_one_request_count_together() {
    let first = ConnectionOptions::named_in(b"keep-alive");
    let second = ConnectionOptions::named_in(b"close");
    assert_eq!(first.and(second), options(true, true));
    assert_eq!(second.and(first), options(true, true));
    assert_eq!(first.and(ConnectionOptions::none()), first);
    assert_eq!(ConnectionOptions::none().and(ConnectionOptions::none()), options(false, false));
    assert!(!keeps_alive(HttpVersion::Http11, first.and(second)));
}

#[test]
fn a_request_that_asks_to_close_is_not_kept_alive() {
    let asked = ConnectionOptions::named_in(b"Close");
    assert!(!keeps_alive(HttpVersion::Http11, asked));
    assert!(!keeps_alive(HttpVersion::Http10, asked));
}

#[test]
fn an_old_client_must_ask_to_keep_its_connection() {
    assert!(!keeps_alive(HttpVersion::Http10, ConnectionOptions::none()));
    assert!(keeps_alive(HttpVersion::Http10, ConnectionOptions::named_in(b"Keep-Alive")));
    assert!(keeps_alive(HttpVersion::Http11, ConnectionOptions::none()));
}
