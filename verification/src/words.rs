//! Picking pieces out of a text by its line feeds.

use vstd::prelude::*;
use vstd::utf8::decode_utf8;
use vstd::utf8::encode_utf8;
use vstd::utf8::is_char_boundary;
use vstd::utf8::is_ascii_chars;
use vstd::string::StringSliceAdditionalSpecFns;

verus! {

/// The character positions of the line feeds in `s`, in increasing order.
pub open spec fn newline_positions(s: Seq<char>) -> Seq<int>
    decreases s.len(),
{
    if s.len() == 0 {
        seq![]
    } else if s.last() == '\n' {
        newline_positions(s.drop_last()).push(s.len() - 1)
    } else {
        newline_positions(s.drop_last())
    }
}

/// Where the piece starts: the position of the third line feed, or 0 when
/// there are fewer than three.
pub open spec fn third_word_start(s: Seq<char>) -> int {
    let p = newline_positions(s);
    if p.len() >= 3 {
        p[2]
    } else {
        0
    }
}

/// Where the piece ends: the position of the fourth line feed, or the
/// number of characters when there are fewer than four.
pub open spec fn third_word_end(s: Seq<char>) -> int {
    let p = newline_positions(s);
    if p.len() >= 4 {
        p[3]
    } else {
        s.len() as int
    }
}

proof fn lemma_newline_positions_sorted(s: Seq<char>)
    ensures
        forall|i: int|
            0 <= i < newline_positions(s).len() ==> 0 <= #[trigger] newline_positions(s)[i]
                < s.len(),
        forall|i: int, j: int|
            0 <= i < j < newline_positions(s).len() ==> newline_positions(s)[i]
                < newline_positions(s)[j],
    decreases s.len(),
{
    if s.len() > 0 {
        let q = newline_positions(s.drop_last());
        lemma_newline_positions_sorted(s.drop_last());
        let p = newline_positions(s);
        if s.last() == '\n' {
            assert(p == q.push(s.len() - 1));
            assert forall|i: int| 0 <= i < p.len() implies 0 <= #[trigger] p[i] < s.len() by {
                if i < q.len() {
                    assert(p[i] == q[i]);
                }
            }
            assert forall|i: int, j: int| 0 <= i < j < p.len() implies p[i] < p[j] by {
                assert(p[i] == q[i]);
                if j < q.len() {
                    assert(p[j] == q[j]);
                }
            }
        } else {
            assert(p == q);
        }
    }
}

proof fn lemma_boundary_within(bytes: Seq<u8>, index: int)
    requires
        vstd::utf8::valid_utf8(bytes),
        is_char_boundary(bytes, index),
    ensures
        0 <= index <= bytes.len(),
{
    reveal_with_fuel(is_char_boundary, 1);
}

/// Gives its argument back.
pub fn raw_back<'a>(input2: &'a str) -> (res: &'a str)
    ensures
        res == input2,
{
    input2
}

proof fn lemma_prefix_boundary(bytes: Seq<u8>, end: int, start: int)
    requires
        vstd::utf8::valid_utf8(bytes),
        is_char_boundary(bytes, end),
        is_char_boundary(bytes, start),
        0 <= start <= end <= bytes.len(),
    ensures
        vstd::utf8::valid_utf8(bytes.subrange(0, end)),
        is_char_boundary(bytes.subrange(0, end), start),
{
    vstd::utf8::valid_utf8_split(bytes, end);
    let prefix = bytes.subrange(0, end);
    if start == 0 {
    } else if start == end {
        vstd::utf8::is_char_boundary_start_end_of_seq(prefix);
        assert(prefix.len() == end);
    } else {
        vstd::utf8::is_char_boundary_iff_not_is_continuation_byte(bytes, start);
        vstd::utf8::is_char_boundary_iff_not_is_continuation_byte(prefix, start);
        assert(prefix[start] == bytes[start]);
    }
}

/// The piece of `input` that starts at its third line feed and ends before
/// its fourth one. The two character positions are taken as byte offsets
/// into the UTF-8 text when the piece is cut out; both must fall on
/// character boundaries.
pub fn get_third_word(input: &str) -> (res: &str)
    requires
        is_char_boundary(input.spec_bytes(), third_word_start(input@)),
        is_char_boundary(input.spec_bytes(), third_word_end(input@)),
    ensures
        res.spec_bytes() == input.spec_bytes().subrange(
            third_word_start(input@),
            third_word_end(input@),
        ),
        res@ == decode_utf8(
            input.spec_bytes().subrange(third_word_start(input@), third_word_end(input@)),
        ),
{
    let mut start: usize = 0;
    let mut end: usize = input.unicode_len();
    let ghost len = input@.len();
    let mut space_index: usize = 0;
    let mut index: usize = 0;
    for item in it: input.chars()
        invariant
            it.seq() == input@,
            index == it.index(),
            len == input@.len(),
            len <= usize::MAX,
            space_index as int == if newline_positions(input@.take(index as int)).len() >= 4 {
                4
            } else {
                newline_positions(input@.take(index as int)).len() as int
            },
            start as int == if newline_positions(input@.take(index as int)).len() >= 3 {
                newline_positions(input@.take(index as int))[2]
            } else {
                0
            },
            end as int == if newline_positions(input@.take(index as int)).len() >= 4 {
                newline_positions(input@.take(index as int))[3]
            } else {
                len as int
            },
    {
        let ghost prefix = input@.take(index as int);
        let ghost next = input@.take(index + 1);
        proof {
            assert(next.drop_last() =~= prefix);
            assert(next.last() == item);
        }
        if item == '\n' && space_index < 4 {
            if space_index == 2 {
                start = index;
            } else if space_index == 3 {
                end = index;
            }
            space_index = space_index + 1;
        }
        index = index + 1;
    }
    proof {
        assert(input@.take(len as int) =~= input@);
    }
    let bytes = Ghost(input.spec_bytes());
    proof {
        vstd::utf8::encode_utf8_valid_utf8(input@);
        vstd::utf8::encode_utf8_decode_utf8(input@);
        lemma_newline_positions_sorted(input@);
        lemma_boundary_within(bytes@, end as int);
        lemma_prefix_boundary(bytes@, end as int, start as int);
    }
    let (head, _) = input.split_at(end);
    let (_, word) = head.split_at(start);
    proof {
        assert(word.spec_bytes() =~= bytes@.subrange(start as int, end as int));
        vstd::utf8::encode_utf8_decode_utf8(word@);
    }
    word
}

proof fn lemma_ascii_boundary(chars: Seq<char>, k: int)
    requires
        is_ascii_chars(chars),
        0 <= k <= chars.len(),
    ensures
        is_char_boundary(encode_utf8(chars), k),
{
    let bytes = encode_utf8(chars);
    vstd::utf8::encode_utf8_valid_utf8(chars);
    vstd::utf8::is_ascii_chars_encode_utf8(chars);
    if k == chars.len() {
        vstd::utf8::is_char_boundary_start_end_of_seq(bytes);
    } else {
        vstd::utf8::is_ascii_chars_nat_bound(chars);
        assert(chars[k] as u8 == bytes[k]);
        assert((chars[k] as nat) < 128);
        assert(bytes[k] < 128);
        vstd::utf8::is_char_boundary_iff_not_is_continuation_byte(bytes, k);
    }
}

/// For ASCII text the character positions are byte offsets, so the piece
/// is always defined and consists of the characters from the third line
/// feed up to the fourth one.
pub proof fn ascii_third_word(input: &str)
    requires
        is_ascii_chars(input@),
    ensures
        is_char_boundary(input.spec_bytes(), third_word_start(input@)),
        is_char_boundary(input.spec_bytes(), third_word_end(input@)),
        decode_utf8(input.spec_bytes().subrange(third_word_start(input@), third_word_end(input@)))
            == input@.subrange(third_word_start(input@), third_word_end(input@)),
{
    let chars = input@;
    let bytes = input.spec_bytes();
    let a = third_word_start(chars);
    let b = third_word_end(chars);
    lemma_newline_positions_sorted(chars);
    assert(0 <= a <= b <= chars.len());
    lemma_ascii_boundary(chars, a);
    lemma_ascii_boundary(chars, b);
    let sub = chars.subrange(a, b);
    assert(is_ascii_chars(sub));
    vstd::utf8::is_ascii_chars_encode_utf8(chars);
    vstd::utf8::is_ascii_chars_encode_utf8(sub);
    assert(encode_utf8(sub) =~= bytes.subrange(a, b));
    vstd::utf8::encode_utf8_decode_utf8(sub);
}

/// The number of line feeds in `s`.
pub open spec fn count_newlines(s: Seq<char>) -> nat {
    s.filter(|c: char| c == '\n').len()
}

proof fn lemma_newline_positions_count(s: Seq<char>)
    ensures
        newline_positions(s).len() == count_newlines(s),
        forall|i: int|
            0 <= i < newline_positions(s).len() ==> s[#[trigger] newline_positions(s)[i]] == '\n'
                && count_newlines(s.take(newline_positions(s)[i])) == i,
    decreases s.len(),
{
    reveal_with_fuel(Seq::filter, 1);
    if s.len() > 0 {
        let t = s.drop_last();
        lemma_newline_positions_count(t);
        lemma_newline_positions_sorted(t);
        let q = newline_positions(t);
        let p = newline_positions(s);
        assert forall|i: int| 0 <= i < q.len() implies s[#[trigger] q[i]] == '\n'
            && count_newlines(s.take(q[i])) == i by {
            assert(s.take(q[i]) =~= t.take(q[i]));
            assert(s[q[i]] == t[q[i]]);
        }
        if s.last() == '\n' {
            assert(p == q.push(s.len() - 1));
            assert(s.take(s.len() - 1) =~= t);
            assert forall|i: int| 0 <= i < p.len() implies s[#[trigger] p[i]] == '\n'
                && count_newlines(s.take(p[i])) == i by {
                if i < q.len() {
                    assert(p[i] == q[i]);
                }
            }
        } else {
            assert(p == q);
        }
    }
}

/// Where the piece lies, counted over the characters: it starts at the
/// line feed with exactly two line feeds before it (or at 0 when the text
/// has fewer than three), and ends at the line feed with exactly three
/// before it (or at the end of the text when it has fewer than four).
pub proof fn third_word_bounds(s: Seq<char>)
    ensures
        count_newlines(s) >= 3 ==> 0 <= third_word_start(s) < s.len() && s[third_word_start(s)]
            == '\n' && count_newlines(s.take(third_word_start(s))) == 2,
        count_newlines(s) < 3 ==> third_word_start(s) == 0,
        count_newlines(s) >= 4 ==> third_word_start(s) < third_word_end(s) < s.len()
            && s[third_word_end(s)] == '\n' && count_newlines(s.take(third_word_end(s))) == 3,
        count_newlines(s) < 4 ==> third_word_end(s) == s.len(),
{
    lemma_newline_positions_count(s);
    lemma_newline_positions_sorted(s);
    let p = newline_positions(s);
    if p.len() >= 3 {
        assert(s[p[2]] == '\n');
    }
    if p.len() >= 4 {
        assert(s[p[3]] == '\n');
        assert(p[2] < p[3]);
    }
}

} // verus!
