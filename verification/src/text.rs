//! Line-oriented re-encoding of one entry's content, as the tar path does it.
//!
//! Content is read as a sequence of newline-terminated lines (the last line
//! may lack its terminator). A terminated line loses its terminator and, if
//! present, a carriage return directly before it. A line whose remaining
//! bytes are valid UTF-8 is written back followed by a single newline; any
//! other line is dropped.

use vstd::prelude::*;

verus! {

/// The line terminator, `\n`.
pub const NL: u8 = 10;

/// The carriage return, `\r`, stripped when it precedes a terminator.
pub const CR: u8 = 13;

/// A line with a trailing carriage return loses it.
pub open spec fn strip_cr(l: Seq<u8>) -> Seq<u8> {
    if l.len() > 0 && l.last() == CR {
        l.drop_last()
    } else {
        l
    }
}

/// What one line contributes to the output. `chunk` is the line as it stood
/// in the input, terminator included when it had one: a terminated line is
/// stripped of the terminator and of a carriage return before it, an
/// unterminated one is taken as it stands. A valid UTF-8 line comes out
/// re-terminated; an invalid one is dropped.
pub open spec fn chunk_output(chunk: Seq<u8>) -> Seq<u8> {
    let body = if chunk.len() > 0 && chunk.last() == NL {
        strip_cr(chunk.drop_last())
    } else {
        chunk
    };
    if vstd::utf8::valid_utf8(body) {
        body.push(NL)
    } else {
        Seq::empty()
    }
}

/// Index of the first newline in `s`, or `s.len()` when there is none
/// (see `lemma_first_nl`).
pub open spec fn first_nl(s: Seq<u8>) -> int
    decreases s.len(),
{
    if s.len() == 0 {
        0
    } else if s[0] == NL {
        0
    } else {
        1 + first_nl(s.skip(1))
    }
}

/// The whole text output for one entry's content: every line re-encoded by
/// `chunk_output`, in order.
pub open spec fn text_output(s: Seq<u8>) -> Seq<u8>
    decreases s.len(),
{
    if s.len() == 0 {
        Seq::empty()
    } else {
        let i = first_nl(s);
        if 0 <= i < s.len() {
            chunk_output(s.take(i).push(NL)) + text_output(s.skip(i + 1))
        } else {
            chunk_output(s)
        }
    }
}

/// `first_nl` points at the first newline: no byte before it is a newline,
/// the byte at it (when it is in range) is one, and it is `s.len()` exactly
/// when `s` holds no newline at all.
pub proof fn lemma_first_nl(s: Seq<u8>)
    ensures
        0 <= first_nl(s) <= s.len(),
        first_nl(s) < s.len() ==> s[first_nl(s)] == NL,
        forall|j: int| 0 <= j < first_nl(s) ==> s[j] != NL,
    decreases s.len(),
{
    if s.len() == 0 {
    } else if s[0] == NL {
    } else {
        lemma_first_nl(s.skip(1));
        assert forall|j: int| 0 <= j < first_nl(s) implies s[j] != NL by {
            if j > 0 {
                assert(s.skip(1)[j - 1] == s[j]);
            }
        }
        if first_nl(s) < s.len() {
            assert(s.skip(1)[first_nl(s) - 1] == s[first_nl(s)]);
        }
    }
}

/// Relies on `std::str::from_utf8`: it returns `Ok` exactly when the bytes
/// are valid UTF-8, the property `vstd::utf8::valid_utf8` describes.
#[verifier::external_body]
fn utf8_check(bytes: &Vec<u8>) -> (r: bool)
    ensures
        r == vstd::utf8::valid_utf8(bytes@),
{
    std::str::from_utf8(bytes.as_slice()).is_ok()
}

/// Re-encodes one line, as `chunk_output` states.
fn render_chunk(chunk: &Vec<u8>) -> (out: Vec<u8>)
    ensures
        out@ == chunk_output(chunk@),
{
    let n = chunk.len();
    let end: usize = if n > 0 && chunk[n - 1] == NL {
        if n > 1 && chunk[n - 2] == CR {
            n - 2
        } else {
            n - 1
        }
    } else {
        n
    };
    let mut body: Vec<u8> = Vec::new();
    let mut j: usize = 0;
    while j < end
        invariant
            j <= end <= chunk@.len(),
            body@ == chunk@.take(j as int),
        decreases end - j,
    {
        body.push(chunk[j]);
        assert(body@ == chunk@.take(j + 1));
        j += 1;
    }
    proof {
        assert(chunk@.take(end as int) == (if chunk@.len() > 0 && chunk@.last() == NL {
            strip_cr(chunk@.drop_last())
        } else {
            chunk@
        }));
    }
    if utf8_check(&body) {
        body.push(NL);
        body
    } else {
        Vec::new()
    }
}

/// Appends `bytes` to `out`.
pub(crate) fn push_bytes(out: &mut Vec<u8>, bytes: &Vec<u8>)
    ensures
        final(out)@ == old(out)@ + bytes@,
{
    let mut j: usize = 0;
    while j < bytes.len()
        invariant
            j <= bytes@.len(),
            out@ == old(out)@ + bytes@.take(j as int),
        decreases bytes@.len() - j,
    {
        out.push(bytes[j]);
        proof {
            assert(old(out)@ + bytes@.take(j + 1) =~= (old(out)@ + bytes@.take(
                j as int,
            )).push(bytes@[j as int]));
        }
        j += 1;
    }
    proof {
        assert(bytes@.take(bytes@.len() as int) =~= bytes@);
    }
}

/// Re-encodes a whole entry's content, as `text_output` states.
pub fn render_text(data: &Vec<u8>) -> (out: Vec<u8>)
    ensures
        out@ == text_output(data@),
{
    let mut out: Vec<u8> = Vec::new();
    let mut pos: usize = 0;
    proof {
        assert(data@.skip(0) =~= data@);
        assert(Seq::<u8>::empty() + text_output(data@) =~= text_output(data@));
    }
    while pos < data.len()
        invariant
            pos <= data@.len(),
            text_output(data@) == out@ + text_output(data@.skip(pos as int)),
        decreases data@.len() - pos,
    {
        let ghost start = pos as int;
        let ghost s = data@.skip(start);
        let mut line: Vec<u8> = Vec::new();
        while pos < data.len() && data[pos] != NL
            invariant
                0 <= start <= pos <= data@.len(),
                line@ == data@.subrange(start, pos as int),
                forall|j: int| start <= j < pos ==> data@[j] != NL,
            decreases data@.len() - pos,
        {
            line.push(data[pos]);
            proof {
                assert(data@.subrange(start, pos + 1) =~= data@.subrange(start, pos as int).push(
                    data@[pos as int],
                ));
            }
            pos += 1;
        }
        proof {
            lemma_first_nl(s);
            assert(forall|j: int| 0 <= j < pos - start ==> s[j] == data@[start + j] && s[j] != NL);
        }
        if pos < data.len() {
            // the line is terminated: data[pos] is the newline
            proof {
                assert(s[pos - start] == data@[pos as int]);
                let i = first_nl(s);
                if i < pos - start {
                    assert(s[i] != NL);
                } else if i > pos - start {
                    assert(s[pos - start] != NL);
                }
                assert(i == pos - start);
                assert(s.take(i) =~= line@);
                assert(s.skip(i + 1) =~= data@.skip(pos + 1));
            }
            line.push(NL);
            let piece = render_chunk(&line);
            let ghost out_before = out@;
            push_bytes(&mut out, &piece);
            pos += 1;
            proof {
                assert(out_before + (chunk_output(line@) + text_output(data@.skip(pos as int)))
                    =~= (out_before + chunk_output(line@)) + text_output(data@.skip(pos as int)));
            }
        } else {
            // the final line has no terminator
            proof {
                let i = first_nl(s);
                if i < s.len() {
                    assert(s[i] != NL);
                }
                assert(i == s.len());
                assert(s =~= line@);
                assert(s.len() > 0);
            }
            let piece = render_chunk(&line);
            let ghost out_before = out@;
            push_bytes(&mut out, &piece);
            proof {
                assert(data@.skip(pos as int).len() == 0);
                assert(text_output(data@.skip(pos as int)) == Seq::<u8>::empty());
                assert(out_before + (chunk_output(line@) + Seq::<u8>::empty()) =~= out@);
            }
        }
    }
    proof {
        assert(data@.skip(pos as int).len() == 0);
        assert(out@ + Seq::<u8>::empty() =~= out@);
    }
    out
}

} // verus!
