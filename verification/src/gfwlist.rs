//! The GFW list: decoding the published Base64 body into text, and turning
//! each of its lines into dnsmasq `server=` and `ipset=` rules.

use vstd::prelude::*;
use vstd::utf8::decode_utf8;
use vstd::utf8::encode_utf8;
use vstd::utf8::valid_utf8;
use crate::text::without_newlines;
use crate::text::strip_newlines;

verus! {

/// Why the published list could not be turned into text.
#[derive(Debug, Clone, Copy, PartialEq, Eq, Structural)]
pub enum GfwlistError {
    /// The body is not Base64 (standard alphabet, padding optional).
    InvalidBase64,
    /// The decoded bytes are not UTF-8.
    InvalidUtf8,
}

/// The two texts that a conversion produces.
pub struct GfwlistConversion {
    /// The dnsmasq rules, two lines for every domain of the list.
    pub result: String,
    /// Every line that names no domain, each followed by a line feed.
    pub ignored: String,
}

/// A line without the carriage return that ends it, if it ends with one.
pub open spec fn strip_cr(line: Seq<char>) -> Seq<char> {
    if line.len() > 0 && line.last() == '\r' {
        line.drop_last()
    } else {
        line
    }
}

/// Reading `s` from the start: the lines completed by a line feed so far
/// (each without its terminator), and the unfinished line after the last
/// line feed.
pub open spec fn line_scan(s: Seq<char>) -> (Seq<Seq<char>>, Seq<char>)
    decreases s.len(),
{
    if s.len() == 0 {
        (seq![], seq![])
    } else {
        let (done, current) = line_scan(s.drop_last());
        if s.last() == '\n' {
            (done.push(strip_cr(current)), seq![])
        } else {
            (done, current.push(s.last()))
        }
    }
}

/// The lines of a text as `str::lines` yields them: split after each line
/// feed, a line feed and a carriage return just before it are not part of
/// the line, the last line needs no terminator, and an empty rest after the
/// last line feed is no line.
pub open spec fn lines(s: Seq<char>) -> Seq<Seq<char>> {
    let (done, current) = line_scan(s);
    if current.len() == 0 {
        done
    } else {
        done.push(current)
    }
}

/// The domain that a line of the list names: what follows a leading `.`,
/// or else what follows a leading `||`; a line with neither names none.
pub open spec fn line_target(line: Seq<char>) -> Option<Seq<char>> {
    if line.len() >= 1 && line[0] == '.' {
        Some(line.skip(1))
    } else if line.len() >= 2 && line[0] == '|' && line[1] == '|' {
        Some(line.skip(2))
    } else {
        None
    }
}

/// The two dnsmasq rules for one domain: resolve it through `dns`, and
/// put the addresses it resolves to into the ipset `ipset`.
pub open spec fn dnsmasq_entry(target: Seq<char>, dns: Seq<char>, ipset: Seq<char>) -> Seq<char> {
    "server=/"@ + target + "/"@ + dns + "\n"@ + "ipset=/"@ + target + "/"@ + ipset + "\n"@
}

/// The rules and the ignored text for a sequence of lines, in their order.
pub open spec fn convert_lines(ls: Seq<Seq<char>>, dns: Seq<char>, ipset: Seq<char>) -> (
    Seq<char>,
    Seq<char>,
)
    decreases ls.len(),
{
    if ls.len() == 0 {
        (seq![], seq![])
    } else {
        let (rules, ignored) = convert_lines(ls.drop_last(), dns, ipset);
        let line = ls.last();
        match line_target(line) {
            Some(target) => (rules + dnsmasq_entry(target, dns, ipset), ignored),
            None => (rules, ignored + line.push('\n')),
        }
    }
}

/// The rules and the ignored text for a whole list.
pub open spec fn convert_text(text: Seq<char>, dns: Seq<char>, ipset: Seq<char>) -> (
    Seq<char>,
    Seq<char>,
) {
    convert_lines(lines(text), dns, ipset)
}

/// Appends the two dnsmasq rules for `target` to `result`.
#[allow(non_snake_case)]
pub fn processLine(result: &mut String, target: &str, dns: &str, ipset: &str)
    ensures
        final(result)@ == old(result)@ + dnsmasq_entry(target@, dns@, ipset@),
{
    result.append("server=/");
    result.append(target);
    result.append("/");
    result.append(dns);
    result.append("\n");
    result.append("ipset=/");
    result.append(target);
    result.append("/");
    result.append(ipset);
    result.append("\n");
    proof {
        assert(final(result)@ =~= old(result)@ + dnsmasq_entry(target@, dns@, ipset@));
    }
}

/// Handles one line of the list: rules for the domain it names go to
/// `result`, a line that names none goes to `ignored`.
fn handle_line(line: &str, result: &mut String, ignored: &mut String, dns: &str, ipset: &str)
    ensures
        ({
            match line_target(line@) {
                Some(target) => final(result)@ == old(result)@ + dnsmasq_entry(target, dns@, ipset@)
                    && final(ignored)@ == old(ignored)@,
                None => final(result)@ == old(result)@ && final(ignored)@ == old(ignored)@ + line@.push('\n'),
            }
        }),
{
    let len = line.unicode_len();
    if len >= 1 && line.get_char(0) == '.' {
        let target = line.substring_char(1, len);
        processLine(result, target, dns, ipset);
    } else if len >= 2 && line.get_char(0) == '|' && line.get_char(1) == '|' {
        let target = line.substring_char(2, len);
        processLine(result, target, dns, ipset);
    } else {
        ignored.append(line);
        ignored.append("\n");
        proof {
            reveal_strlit("\n");
            assert(final(ignored)@ =~= old(ignored)@ + line@.push('\n'));
        }
    }
}

proof fn lemma_convert_push(ls: Seq<Seq<char>>, line: Seq<char>, dns: Seq<char>, ipset: Seq<char>)
    ensures
        convert_lines(ls.push(line), dns, ipset) == ({
            let (rules, ignored) = convert_lines(ls, dns, ipset);
            match line_target(line) {
                Some(target) => (rules + dnsmasq_entry(target, dns, ipset), ignored),
                None => (rules, ignored + line.push('\n')),
            }
        }),
{
    assert(ls.push(line).drop_last() =~= ls);
}

/// Turns the text of the list into dnsmasq rules: each line that starts
/// with `.` or `||` gives the rules for the domain after that prefix, and
/// every other line is kept, in order, in the ignored text.
pub fn convert_gfwlist(text: &str, dns: &str, ipset: &str) -> (res: GfwlistConversion)
    ensures
        (res.result@, res.ignored@) == convert_text(text@, dns@, ipset@),
{
    let mut result = String::new();
    let mut ignored = String::new();
    let mut current = String::new();
    let mut pending_cr = false;
    for c in it: text.chars()
        invariant
            it.seq() == text@,
            line_scan(text@.take(it.index() as int)).1 == current@ + (if pending_cr {
                seq!['\r']
            } else {
                Seq::<char>::empty()
            }),
            !pending_cr ==> current@.len() == 0 || current@.last() != '\r',
            (result@, ignored@) == convert_lines(
                line_scan(text@.take(it.index() as int)).0,
                dns@,
                ipset@,
            ),
    {
        let ghost prefix = text@.take(it.index() as int);
        let ghost next = text@.take(it.index() + 1);
        proof {
            assert(next.drop_last() =~= prefix);
            assert(next.last() == c);
        }
        if c == '\n' {
            proof {
                let scanned = line_scan(prefix).1;
                if pending_cr {
                    assert(scanned.drop_last() =~= current@);
                }
                assert(strip_cr(scanned) == current@);
                lemma_convert_push(line_scan(prefix).0, current@, dns@, ipset@);
            }
            handle_line(current.as_str(), &mut result, &mut ignored, dns, ipset);
            current = String::new();
            pending_cr = false;
        } else {
            if pending_cr {
                current.push('\r');
            }
            if c == '\r' {
                pending_cr = true;
            } else {
                current.push(c);
                pending_cr = false;
            }
            proof {
                assert(line_scan(next).1 =~= current@ + (if pending_cr {
                    seq!['\r']
                } else {
                    Seq::<char>::empty()
                }));
            }
        }
    }
    proof {
        assert(text@.take(text@.len() as int) =~= text@);
    }
    if pending_cr {
        current.push('\r');
    }
    proof {
        assert(current@ =~= line_scan(text@).1);
    }
    if current.unicode_len() > 0 {
        proof {
            lemma_convert_push(line_scan(text@).0, current@, dns@, ipset@);
        }
        handle_line(current.as_str(), &mut result, &mut ignored, dns, ipset);
    }
    GfwlistConversion { result, ignored }
}

proof fn lemma_line_scan_concat(a: Seq<char>, b: Seq<char>)
    requires
        line_scan(a).1.len() == 0,
    ensures
        line_scan(a + b) == (line_scan(a).0 + line_scan(b).0, line_scan(b).1),
    decreases b.len(),
{
    if b.len() == 0 {
        assert(a + b =~= a);
        assert(line_scan(a).1 =~= Seq::<char>::empty());
        assert(line_scan(a).0 + line_scan(b).0 =~= line_scan(a).0);
    } else {
        let b1 = b.drop_last();
        lemma_line_scan_concat(a, b1);
        assert((a + b).drop_last() =~= a + b1);
        assert((a + b).last() == b.last());
        let (da, _) = line_scan(a);
        let (db1, cb1) = line_scan(b1);
        if b.last() == '\n' {
            assert(da + db1.push(strip_cr(cb1)) =~= (da + db1).push(strip_cr(cb1)));
        }
    }
}

proof fn lemma_convert_lines_concat(x: Seq<Seq<char>>, y: Seq<Seq<char>>, dns: Seq<char>, ipset: Seq<char>)
    ensures
        convert_lines(x + y, dns, ipset) == (
            convert_lines(x, dns, ipset).0 + convert_lines(y, dns, ipset).0,
            convert_lines(x, dns, ipset).1 + convert_lines(y, dns, ipset).1,
        ),
    decreases y.len(),
{
    if y.len() == 0 {
        assert(x + y =~= x);
        assert(convert_lines(x, dns, ipset).0 + Seq::<char>::empty() =~= convert_lines(x, dns, ipset).0);
        assert(convert_lines(x, dns, ipset).1 + Seq::<char>::empty() =~= convert_lines(x, dns, ipset).1);
    } else {
        let y1 = y.drop_last();
        lemma_convert_lines_concat(x, y1, dns, ipset);
        assert((x + y).drop_last() =~= x + y1);
        assert((x + y).last() == y.last());
        let (rx, ix) = convert_lines(x, dns, ipset);
        let (ry, iy) = convert_lines(y1, dns, ipset);
        match line_target(y.last()) {
            Some(t) => {
                assert(rx + ry + dnsmasq_entry(t, dns, ipset) =~= rx + (ry + dnsmasq_entry(t, dns, ipset)));
            },
            None => {
                assert(ix + iy + y.last().push('\n') =~= ix + (iy + y.last().push('\n')));
            },
        }
    }
}

/// The list is converted line by line: converting two texts one after the
/// other, the first of them empty or ending with a line feed, gives the
/// rules of the first followed by those of the second, and likewise the
/// ignored lines.
pub proof fn convert_text_concat(a: Seq<char>, b: Seq<char>, dns: Seq<char>, ipset: Seq<char>)
    requires
        a.len() == 0 || a.last() == '\n',
    ensures
        convert_text(a + b, dns, ipset) == (
            convert_text(a, dns, ipset).0 + convert_text(b, dns, ipset).0,
            convert_text(a, dns, ipset).1 + convert_text(b, dns, ipset).1,
        ),
{
    if a.len() > 0 {
        assert(line_scan(a).1.len() == 0);
    }
    lemma_line_scan_concat(a, b);
    assert(lines(a) == line_scan(a).0);
    let cb = line_scan(b).1;
    if cb.len() == 0 {
        assert(lines(a + b) == lines(a) + lines(b));
    } else {
        assert(lines(a + b) =~= lines(a) + lines(b));
    }
    lemma_convert_lines_concat(lines(a), lines(b), dns, ipset);
}

proof fn lemma_scan_without_newline(l: Seq<char>)
    requires
        forall|i: int| 0 <= i < l.len() ==> l[i] != '\n',
    ensures
        line_scan(l) == (Seq::<Seq<char>>::empty(), l),
    decreases l.len(),
{
    if l.len() > 0 {
        lemma_scan_without_newline(l.drop_last());
        assert(l.drop_last().push(l.last()) =~= l);
    }
}

/// The conversion of `t` followed by the line `l`, with or without a line
/// feed (or carriage return and line feed) after it, is the conversion of
/// `t` followed by that of the single line `l`.
proof fn lemma_append_line(t: Seq<char>, l: Seq<char>, dns: Seq<char>, ipset: Seq<char>)
    requires
        t.len() == 0 || t.last() == '\n',
        forall|i: int| 0 <= i < l.len() ==> l[i] != '\n',
    ensures
        l.len() > 0 ==> convert_text(t + l, dns, ipset) == (
            convert_text(t, dns, ipset).0 + convert_lines(seq![l], dns, ipset).0,
            convert_text(t, dns, ipset).1 + convert_lines(seq![l], dns, ipset).1,
        ),
        (l.len() == 0 || l.last() != '\r') ==> convert_text(t + l.push('\n'), dns, ipset) == (
            convert_text(t, dns, ipset).0 + convert_lines(seq![l], dns, ipset).0,
            convert_text(t, dns, ipset).1 + convert_lines(seq![l], dns, ipset).1,
        ),
        convert_text(t + (l + seq!['\r', '\n']), dns, ipset) == (
            convert_text(t, dns, ipset).0 + convert_lines(seq![l], dns, ipset).0,
            convert_text(t, dns, ipset).1 + convert_lines(seq![l], dns, ipset).1,
        ),
{
    lemma_scan_without_newline(l);
    if l.len() > 0 {
        convert_text_concat(t, l, dns, ipset);
        assert(lines(l) == seq![l]);
    }
    // terminated by a line feed
    let b1 = l.push('\n');
    assert(b1.drop_last() =~= l);
    assert(line_scan(b1) == (seq![strip_cr(l)], Seq::<char>::empty()));
    if l.len() == 0 || l.last() != '\r' {
        assert(lines(b1) == seq![l]);
        convert_text_concat(t, b1, dns, ipset);
    }
    // terminated by a carriage return and a line feed
    let lr = l.push('\r');
    assert forall|i: int| 0 <= i < lr.len() implies lr[i] != '\n' by {
        if i < l.len() {
            assert(lr[i] == l[i]);
        }
    }
    lemma_scan_without_newline(lr);
    let b2 = l + seq!['\r', '\n'];
    assert(b2 =~= lr.push('\n'));
    assert(b2.drop_last() =~= lr);
    assert(strip_cr(lr) =~= l);
    assert(lines(b2) == seq![l]);
    convert_text_concat(t, b2, dns, ipset);
}

proof fn lemma_single_line(l: Seq<char>, dns: Seq<char>, ipset: Seq<char>)
    ensures
        convert_lines(seq![l], dns, ipset) == (match line_target(l) {
            Some(target) => (dnsmasq_entry(target, dns, ipset), Seq::<char>::empty()),
            None => (Seq::<char>::empty(), l.push('\n')),
        }),
{
    let one = seq![l];
    assert(one.drop_last() =~= Seq::<Seq<char>>::empty());
    assert(one.last() == l);
    let e = Seq::<char>::empty();
    assert(convert_lines(one.drop_last(), dns, ipset) == (e, e));
    match line_target(l) {
        Some(target) => {
            assert(e + dnsmasq_entry(target, dns, ipset) =~= dnsmasq_entry(target, dns, ipset));
        },
        None => {
            assert(e + l.push('\n') =~= l.push('\n'));
        },
    }
}

/// An empty text gives no rules and no ignored lines.
pub proof fn convert_empty_text(dns: Seq<char>, ipset: Seq<char>)
    ensures
        convert_text(Seq::<char>::empty(), dns, ipset) == (Seq::<char>::empty(), Seq::<char>::empty()),
{
    assert(lines(Seq::<char>::empty()) =~= Seq::<Seq<char>>::empty());
}

/// A line that starts with `.`, or else with `||`, adds exactly the
/// `server=` and `ipset=` rules for the rest of the line to the rules, and
/// nothing to the ignored text; this holds for a last line without a line
/// feed too, and for one ended by a carriage return and a line feed.
pub proof fn domain_line_gives_rules(t: Seq<char>, l: Seq<char>, dns: Seq<char>, ipset: Seq<char>)
    requires
        t.len() == 0 || t.last() == '\n',
        forall|i: int| 0 <= i < l.len() ==> l[i] != '\n',
        (l.len() >= 1 && l[0] == '.') || (l.len() >= 2 && l[0] == '|' && l[1] == '|'),
    ensures
        ({
            let domain = if l[0] == '.' {
                l.skip(1)
            } else {
                l.skip(2)
            };
            let rules = "server=/"@ + domain + "/"@ + dns + "\n"@ + "ipset=/"@ + domain + "/"@
                + ipset + "\n"@;
            let (r, i) = convert_text(t, dns, ipset);
            &&& convert_text(t + l, dns, ipset) == (r + rules, i)
            &&& l.last() != '\r' ==> convert_text(t + l.push('\n'), dns, ipset) == (r + rules, i)
            &&& convert_text(t + (l + seq!['\r', '\n']), dns, ipset) == (r + rules, i)
        }),
{
    lemma_append_line(t, l, dns, ipset);
    let (r, i) = convert_text(t, dns, ipset);
    lemma_single_line(l, dns, ipset);
    assert(i + Seq::<char>::empty() =~= i);
}

/// A line that starts with neither `.` nor `||` adds nothing to the rules
/// and itself, followed by a line feed, to the ignored text; this holds for
/// a last line without a line feed too, and for one ended by a carriage
/// return and a line feed.
pub proof fn other_line_is_ignored(t: Seq<char>, l: Seq<char>, dns: Seq<char>, ipset: Seq<char>)
    requires
        t.len() == 0 || t.last() == '\n',
        forall|i: int| 0 <= i < l.len() ==> l[i] != '\n',
        !(l.len() >= 1 && l[0] == '.'),
        !(l.len() >= 2 && l[0] == '|' && l[1] == '|'),
    ensures
        ({
            let (r, i) = convert_text(t, dns, ipset);
            &&& l.len() > 0 ==> convert_text(t + l, dns, ipset) == (r, i + l.push('\n'))
            &&& (l.len() == 0 || l.last() != '\r') ==> convert_text(t + l.push('\n'), dns, ipset)
                == (r, i + l.push('\n'))
            &&& convert_text(t + (l + seq!['\r', '\n']), dns, ipset) == (r, i + l.push('\n'))
        }),
{
    lemma_append_line(t, l, dns, ipset);
    let (r, i) = convert_text(t, dns, ipset);
    lemma_single_line(l, dns, ipset);
    assert(r + Seq::<char>::empty() =~= r);
}

/// `base64::DecodeError`, the reason a Base64 text could not be decoded.
#[verifier::external_type_specification]
#[verifier::external_body]
pub struct ExDecodeError(base64::DecodeError);

/// The bytes that `base64::decode_config` gives for `input` with the
/// standard alphabet and padding switched off, or `None` where it fails.
pub uninterp spec fn base64_standard_decode(input: Seq<u8>) -> Option<Seq<u8>>;

/// Calls `base64::decode_config` with `Config::new(CharacterSet::Standard,
/// false)`. The contract claims that the call succeeds exactly where the
/// named result is `Some`, and then returns those bytes. Which
/// `DecodeError` comes back on failure is left unsaid. The crate panics
/// when the length of the input plus seven overflows a `usize`.
#[verifier::external_body]
fn decode_base64(input: &[u8]) -> (res: Result<Vec<u8>, base64::DecodeError>)
    requires
        input@.len() + 7 <= usize::MAX,
    ensures
        res is Ok <==> base64_standard_decode(input@) is Some,
        res matches Ok(bytes) ==> bytes@ == base64_standard_decode(input@)->0,
{
    base64::decode_config(input, base64::Config::new(base64::CharacterSet::Standard, false))
}

/// Calls `<[u8]>::len`: the number of bytes of the slice, which Rust keeps
/// at most `isize::MAX` (no allocation, and so no slice, is larger; see the
/// safety conditions of `std::slice::from_raw_parts`).
#[verifier::external_body]
fn byte_count(bytes: &[u8]) -> (n: usize)
    ensures
        n == bytes@.len(),
        n <= isize::MAX,
{
    bytes.len()
}

/// Calls `String::from_utf8`, which succeeds exactly on valid UTF-8 and then
/// holds the characters that the bytes encode.
#[verifier::external_body]
fn string_from_utf8(bytes: Vec<u8>) -> (res: Option<String>)
    ensures
        res is Some <==> valid_utf8(bytes@),
        res matches Some(s) ==> s@ == decode_utf8(bytes@),
{
    String::from_utf8(bytes).ok()
}

/// The text that the decoded list holds, or why there is none.
pub open spec fn text_of_decoded(decoded: Option<Seq<u8>>) -> Result<Seq<char>, GfwlistError> {
    match decoded {
        None => Err(GfwlistError::InvalidBase64),
        Some(bytes) => if valid_utf8(bytes) {
            Ok(decode_utf8(bytes))
        } else {
            Err(GfwlistError::InvalidUtf8)
        },
    }
}

/// The text of the published list: its line feeds are dropped, the rest is
/// decoded from Base64, and the bytes are read as UTF-8.
pub open spec fn decoded_gfwlist(body: Seq<char>) -> Result<Seq<char>, GfwlistError> {
    text_of_decoded(base64_standard_decode(encode_utf8(without_newlines(body))))
}

/// The decoded bytes that an outcome of Base64 decoding holds, if any.
pub open spec fn decoded_bytes(decoded: Result<Vec<u8>, base64::DecodeError>) -> Option<Seq<u8>> {
    match decoded {
        Ok(bytes) => Some(bytes@),
        Err(_) => None,
    }
}

/// Turns the outcome of Base64 decoding into the text of the list.
pub fn text_from_decoded(decoded: Result<Vec<u8>, base64::DecodeError>) -> (res: Result<
    String,
    GfwlistError,
>)
    ensures
        text_of_decoded(decoded_bytes(decoded)) matches Ok(text) ==> res matches Ok(s) && s@
            == text,
        text_of_decoded(decoded_bytes(decoded)) matches Err(e) ==> res == Err::<String, GfwlistError>(e),
{
    match decoded {
        Ok(bytes) => match string_from_utf8(bytes) {
            Some(text) => Ok(text),
            None => Err(GfwlistError::InvalidUtf8),
        },
        Err(_) => Err(GfwlistError::InvalidBase64),
    }
}

/// Decodes the body of the published list into its text.
pub fn decode_gfwlist(body: &str) -> (res: Result<String, GfwlistError>)
    ensures
        decoded_gfwlist(body@) matches Ok(text) ==> res matches Ok(s) && s@ == text,
        decoded_gfwlist(body@) matches Err(e) ==> res == Err::<String, GfwlistError>(e),
{
    let joined = strip_newlines(body);
    let bytes = joined.as_str().as_bytes();
    let len = byte_count(bytes);
    assert(len + 7 <= usize::MAX);
    let decoded = decode_base64(bytes);
    text_from_decoded(decoded)
}

/// Decodes the published list and turns it into dnsmasq rules.
pub fn gfwlist_to_dnsmasq(body: &str, dns: &str, ipset: &str) -> (res: Result<
    GfwlistConversion,
    GfwlistError,
>)
    ensures
        decoded_gfwlist(body@) matches Ok(text) ==> res matches Ok(c) && (c.result@, c.ignored@)
            == convert_text(text, dns@, ipset@),
        decoded_gfwlist(body@) matches Err(e) ==> res matches Err(e2) && e2 == e,
{
    match decode_gfwlist(body) {
        Ok(text) => Ok(convert_gfwlist(text.as_str(), dns, ipset)),
        Err(e) => Err(e),
    }
}

} // verus!
