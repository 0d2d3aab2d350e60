use gfwlist::gfwlist::convert_gfwlist;
use gfwlist::gfwlist::decode_gfwlist;
use gfwlist::gfwlist::gfwlist_to_dnsmasq;
use gfwlist::gfwlist::processLine;
use gfwlist::gfwlist::text_from_decoded;
use gfwlist::gfwlist::GfwlistError;
use gfwlist::text::strip_newlines;

const DNS: &str = "127.0.0.1#5353";
const IPSET: &str = "gfwlist";

#[test]
fn process_line_appends_server_and_ipset_rules() {
    let mut result = String::from("# rules\n");
    processLine(&mut result, "google.com", DNS, IPSET);
    assert_eq!(
        result,
        "# rules\nserver=/google.com/127.0.0.1#5353\nipset=/google.com/gfwlist\n"
    );
}

#[test]
fn convert_sorts_lines_into_rules_and_ignored() {
    let text = "[AutoProxy 0.2.9]\n||google.com\n.youtube.com\n@@||baidu.com\r\nlast\r";
    let c = convert_gfwlist(text, DNS, IPSET);
    assert_eq!(
        c.result,
        "server=/google.com/127.0.0.1#5353\nipset=/google.com/gfwlist\n\
         server=/youtube.com/127.0.0.1#5353\nipset=/youtube.com/gfwlist\n"
    );
    assert_eq!(c.ignored, "[AutoProxy 0.2.9]\n@@||baidu.com\nlast\r\n");
}

#[test]
fn convert_empty_text_gives_nothing() {
    let c = convert_gfwlist("", DNS, IPSET);
    assert_eq!(c.result, "");
    assert_eq!(c.ignored, "");
}

#[test]
fn convert_keeps_empty_lines_as_ignored() {
    let c = convert_gfwlist("\n\r\n", DNS, IPSET);
    assert_eq!(c.result, "");
    assert_eq!(c.ignored, "\n\n");
}

#[test]
fn convert_dot_takes_priority_and_bare_prefixes_give_empty_targets() {
    let c = convert_gfwlist(".||x\n||\n.\n|y", "d", "s");
    assert_eq!(
        c.result,
        "server=/||x/d\nipset=/||x/s\nserver=//d\nipset=//s\nserver=//d\nipset=//s\n"
    );
    assert_eq!(c.ignored, "|y\n");
}

#[test]
fn convert_handles_non_ascii_targets() {
    let c = convert_gfwlist("||例え.jp\r\n", "d", "s");
    assert_eq!(c.result, "server=/例え.jp/d\nipset=/例え.jp/s\n");
    assert_eq!(c.ignored, "");
}

#[test]
fn convert_is_line_by_line() {
    let a = "||a.com\nfoo\n";
    let b = ".b.org\nbar";
    let whole = convert_gfwlist(&format!("{}{}", a, b), DNS, IPSET);
    let first = convert_gfwlist(a, DNS, IPSET);
    let second = convert_gfwlist(b, DNS, IPSET);
    assert_eq!(whole.result, format!("{}{}", first.result, second.result));
    assert_eq!(whole.ignored, format!("{}{}", first.ignored, second.ignored));
}

#[test]
fn strip_newlines_drops_only_line_feeds() {
    assert_eq!(strip_newlines("ab\ncd\r\n\nef"), "abcd\ref");
    assert_eq!(strip_newlines(""), "");
}

#[test]
fn decode_gfwlist_joins_lines_before_decoding() {
    let body = "W0F1dG9Qcm94eSAwLjIuOV0KfHxnb29nbGUuY29tCi55b3V0dWJlLmNvbQpAQHx8\nYmFpZHUuY29tCg==\n";
    assert_eq!(
        decode_gfwlist(body),
        Ok(String::from("[AutoProxy 0.2.9]\n||google.com\n.youtube.com\n@@||baidu.com\n"))
    );
}

#[test]
fn decode_gfwlist_accepts_missing_padding() {
    assert_eq!(decode_gfwlist("aGk"), Ok(String::from("hi")));
}

#[test]
fn decode_gfwlist_rejects_bad_base64() {
    assert_eq!(decode_gfwlist("!!!!"), Err(GfwlistError::InvalidBase64));
    assert_eq!(decode_gfwlist("a"), Err(GfwlistError::InvalidBase64));
}

#[test]
fn decode_gfwlist_rejects_bad_utf8() {
    assert_eq!(decode_gfwlist("//4="), Err(GfwlistError::InvalidUtf8));
}

#[test]
fn text_from_decoded_maps_each_outcome() {
    assert_eq!(text_from_decoded(Ok(vec![0x68, 0x69])), Ok(String::from("hi")));
    assert_eq!(
        text_from_decoded(Ok(vec![0xe4, 0xbe, 0x8b])),
        Ok(String::from("例"))
    );
    assert_eq!(text_from_decoded(Ok(vec![0xc0, 0x80])), Err(GfwlistError::InvalidUtf8));
    assert_eq!(
        text_from_decoded(Err(base64::DecodeError::InvalidLength)),
        Err(GfwlistError::InvalidBase64)
    );
}

#[test]
fn gfwlist_to_dnsmasq_runs_the_whole_pipeline() {
    let body = "W0F1dG9Qcm94eSAwLjIuOV0KfHxnb29nbGUuY29tCi55b3V0dWJlLmNvbQpAQHx8YmFpZHUuY29tCg==";
    let c = gfwlist_to_dnsmasq(body, DNS, IPSET).unwrap();
    assert_eq!(
        c.result,
        "server=/google.com/127.0.0.1#5353\nipset=/google.com/gfwlist\n\
         server=/youtube.com/127.0.0.1#5353\nipset=/youtube.com/gfwlist\n"
    );
    assert_eq!(c.ignored, "[AutoProxy 0.2.9]\n@@||baidu.com\n");
    assert!(matches!(
        gfwlist_to_dnsmasq("%%%%", DNS, IPSET),
        Err(GfwlistError::InvalidBase64)
    ));
}

#[test]
fn gfwlist_to_dnsmasq_decodes_non_ascii() {
    let c = gfwlist_to_dnsmasq("fHzkvovjgYguanAK", "d", "s").unwrap();
    assert_eq!(c.result, "server=/例え.jp/d\nipset=/例え.jp/s\n");
}
