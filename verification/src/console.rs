//! The texts that the program shows or sends, and the small computations
//! that its interactive and networked parts make.

use vstd::prelude::*;
use crate::text::decimal;
use crate::text::push_decimal;

verus! {

/// Adds one to the number given; the number must be below `u32::MAX`.
pub fn simulated_expensive_calculation(intensity: u32) -> (answer: u32)
    requires
        intensity < u32::MAX,
    ensures
        answer == intensity + 1,
{
    intensity + 1
}

/// The line that echoes what was typed at the two prompts.
pub open spec fn credentials_text(name: Seq<char>, pwd: Seq<char>) -> Seq<char> {
    "name:"@ + name + "pwd:"@ + pwd
}

/// Echoes the name and the password as typed.
pub fn format_credentials(name: &str, pwd: &str) -> (s: String)
    ensures
        s@ == credentials_text(name@, pwd@),
{
    let mut s = String::new();
    s.append("name:");
    s.append(name);
    s.append("pwd:");
    s.append(pwd);
    proof {
        assert(s@ =~= credentials_text(name@, pwd@));
    }
    s
}

/// A line of a file shown with its number.
pub open spec fn numbered_line_text(line_num: nat, line: Seq<char>) -> Seq<char> {
    "line "@ + decimal(line_num) + ": "@ + line
}

/// Shows `line` with its number `line_num`.
pub fn numbered_line(line_num: u64, line: &str) -> (s: String)
    ensures
        s@ == numbered_line_text(line_num as nat, line@),
{
    let mut s = String::new();
    s.append("line ");
    push_decimal(&mut s, line_num);
    s.append(": ");
    s.append(line);
    proof {
        assert(s@ =~= numbered_line_text(line_num as nat, line@));
    }
    s
}

/// The head of the answer that the server sends before a page of
/// `content_length` bytes.
pub open spec fn response_header_text(content_length: nat) -> Seq<char> {
    "HTTP/1.1 200 OK\r\nContent-Type:text/html; charset=UTF-8\r\ncontent-length: "@ + decimal(
        content_length,
    ) + "\r\n\r\n"@
}

/// The head of the answer for a page of `content_length` bytes.
pub fn http_response_header(content_length: u64) -> (s: String)
    ensures
        s@ == response_header_text(content_length as nat),
{
    let mut s = String::new();
    s.append("HTTP/1.1 200 OK\r\nContent-Type:text/html; charset=UTF-8\r\ncontent-length: ");
    push_decimal(&mut s, content_length);
    s.append("\r\n\r\n");
    proof {
        assert(s@ =~= response_header_text(content_length as nat));
    }
    s
}

/// Whether a read of `count` bytes into a buffer of `buf_len` bytes was
/// the last one: a read that does not fill the buffer ends the file.
pub fn chunk_ends_stream(count: usize, buf_len: usize) -> (last: bool)
    ensures
        last == (count < buf_len),
{
    count < buf_len
}

} // verus!
