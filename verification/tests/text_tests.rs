use gfwlist::console::chunk_ends_stream;
use gfwlist::console::format_credentials;
use gfwlist::console::http_response_header;
use gfwlist::console::numbered_line;
use gfwlist::console::simulated_expensive_calculation;
use gfwlist::pool::worker_id;
use gfwlist::pool::worker_name;
use gfwlist::pool::worker_names;
use gfwlist::pool::worker_step;
use gfwlist::pool::MessageKind;
use gfwlist::pool::WorkerAction;
use gfwlist::text::decimal_string;
use gfwlist::text::push_decimal;
use gfwlist::text::push_signed_decimal;
use gfwlist::words::get_third_word;
use gfwlist::words::raw_back;

#[test]
fn simulated_expensive_calculation_adds_one() {
    let arg = 5;
    let answer = simulated_expensive_calculation(arg);
    assert_eq!(6, answer);
    assert_eq!(simulated_expensive_calculation(0), 1);
    assert_eq!(simulated_expensive_calculation(u32::MAX - 1), u32::MAX);
}

#[test]
fn decimal_string_values() {
    assert_eq!(decimal_string(0), "0");
    assert_eq!(decimal_string(7), "7");
    assert_eq!(decimal_string(42), "42");
    assert_eq!(decimal_string(1000), "1000");
    assert_eq!(decimal_string(u64::MAX), "18446744073709551615");
}

#[test]
fn push_decimal_appends() {
    let mut s = String::from("n=");
    push_decimal(&mut s, 305);
    assert_eq!(s, "n=305");
}

#[test]
fn push_signed_decimal_values() {
    let mut s = String::new();
    push_signed_decimal(&mut s, -12);
    push_signed_decimal(&mut s, 0);
    push_signed_decimal(&mut s, i64::MIN);
    push_signed_decimal(&mut s, i64::MAX);
    assert_eq!(s, "-120-92233720368547758089223372036854775807");
}

#[test]
fn format_credentials_echoes_input() {
    assert_eq!(format_credentials("bob\n", "pw\n"), "name:bob\npwd:pw\n");
    assert_eq!(format_credentials("", ""), "name:pwd:");
}

#[test]
fn numbered_line_format() {
    assert_eq!(numbered_line(0, "first"), "line 0: first");
    assert_eq!(numbered_line(12, ""), "line 12: ");
}

#[test]
fn http_response_header_format() {
    assert_eq!(
        http_response_header(1234),
        "HTTP/1.1 200 OK\r\nContent-Type:text/html; charset=UTF-8\r\ncontent-length: 1234\r\n\r\n"
    );
}

#[test]
fn chunk_ends_stream_on_short_read() {
    assert!(chunk_ends_stream(0, 512));
    assert!(chunk_ends_stream(511, 512));
    assert!(!chunk_ends_stream(512, 512));
}

#[test]
fn worker_names_are_numbered() {
    assert_eq!(worker_name(0), "ThreadPool-0");
    assert_eq!(worker_name(17), "ThreadPool-17");
    assert_eq!(
        worker_names(4),
        vec!["ThreadPool-0", "ThreadPool-1", "ThreadPool-2", "ThreadPool-3"]
    );
}

#[test]
fn worker_names_are_distinct() {
    let names = worker_names(12);
    for i in 0..names.len() {
        for j in 0..names.len() {
            assert_eq!(names[i] == names[j], i == j);
        }
    }
}

#[test]
fn worker_id_falls_back_to_fixed_name() {
    assert_eq!(worker_id(Some("ThreadPool-2")), "ThreadPool-2");
    assert_eq!(worker_id(None), "Defalut id Name");
}

#[test]
fn worker_step_runs_jobs_and_stops() {
    let (action, log) = worker_step("ThreadPool-1", MessageKind::Work);
    assert_eq!(action, WorkerAction::RunJob);
    assert_eq!(log, "Worker ThreadPool-1 got a job; executing.");
    let (action, log) = worker_step("ThreadPool-1", MessageKind::Terminate);
    assert_eq!(action, WorkerAction::Exit);
    assert_eq!(log, "Worker ThreadPool-1 got a Terminate signal; Exist.");
}

#[test]
fn raw_back_returns_input() {
    assert_eq!(raw_back("same"), "same");
    assert_eq!(raw_back(""), "");
}

#[test]
fn get_third_word_between_third_and_fourth_line_feed() {
    assert_eq!(get_third_word("a\nb\nc\nd\ne"), "\nd");
    assert_eq!(get_third_word("one\ntwo\nthree\nfour\nfive\nsix"), "\nfour");
}

#[test]
fn get_third_word_with_exactly_three_line_feeds_runs_to_the_end() {
    assert_eq!(get_third_word("a\nb\nc\nd"), "\nd");
    assert_eq!(get_third_word("a\nb\nc\n"), "\n");
}

#[test]
fn get_third_word_with_fewer_line_feeds_is_whole_text() {
    assert_eq!(get_third_word(""), "");
    assert_eq!(get_third_word("one\ntwo"), "one\ntwo");
    assert_eq!(get_third_word("a\nb\nc"), "a\nb\nc");
}

#[test]
fn get_third_word_non_ascii_after_the_piece() {
    assert_eq!(get_third_word("a\nb\nc\nd\né"), "\nd");
}
