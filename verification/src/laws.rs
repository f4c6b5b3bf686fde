//! Properties of the conversion, stated and proved over the same
//! specifications the public contracts use.

use vstd::prelude::*;
use crate::text::{NL, first_nl, chunk_output, strip_cr, text_output, lemma_first_nl};
use crate::extract::{tar_output, zip_output, tar_gz_result, zip_result};

verus! {

/// How many newline bytes a byte sequence holds.
pub open spec fn nl_count(s: Seq<u8>) -> int
    decreases s.len(),
{
    if s.len() == 0 {
        0
    } else {
        nl_count(s.drop_last()) + if s.last() == NL {
            1int
        } else {
            0int
        }
    }
}

/// How many of the lines of an entry's content are valid UTF-8 once their
/// terminator, and a carriage return before it, are stripped — the lines
/// the tar path keeps.
pub open spec fn valid_line_count(s: Seq<u8>) -> int
    decreases s.len(),
{
    if s.len() == 0 {
        0
    } else {
        let i = first_nl(s);
        if 0 <= i < s.len() {
            (if vstd::utf8::valid_utf8(strip_cr(s.take(i))) {
                1int
            } else {
                0int
            }) + valid_line_count(s.skip(i + 1))
        } else {
            if vstd::utf8::valid_utf8(s) {
                1int
            } else {
                0int
            }
        }
    }
}

/// How many lines an entry's content holds, the unterminated final one
/// included.
pub open spec fn line_count(s: Seq<u8>) -> int
    decreases s.len(),
{
    if s.len() == 0 {
        0
    } else {
        let i = first_nl(s);
        if 0 <= i < s.len() {
            1 + line_count(s.skip(i + 1))
        } else {
            1
        }
    }
}

/// The tar path never invents lines: its output holds at most as many
/// lines as the content, strictly fewer exactly when invalid-UTF-8 lines
/// are dropped.
pub proof fn lemma_kept_lines_bounded(s: Seq<u8>)
    ensures
        valid_line_count(s) <= line_count(s),
    decreases s.len(),
{
    if s.len() > 0 {
        lemma_first_nl(s);
        let i = first_nl(s);
        if 0 <= i < s.len() {
            lemma_kept_lines_bounded(s.skip(i + 1));
        }
    }
}

proof fn lemma_nl_count_add(a: Seq<u8>, b: Seq<u8>)
    ensures
        nl_count(a + b) == nl_count(a) + nl_count(b),
    decreases b.len(),
{
    if b.len() == 0 {
        assert(a + b =~= a);
    } else {
        lemma_nl_count_add(a, b.drop_last());
        assert((a + b).drop_last() =~= a + b.drop_last());
        assert((a + b).last() == b.last());
    }
}

proof fn lemma_nl_count_none(s: Seq<u8>)
    requires
        forall|j: int| 0 <= j < s.len() ==> s[j] != NL,
    ensures
        nl_count(s) == 0,
    decreases s.len(),
{
    if s.len() > 0 {
        lemma_nl_count_none(s.drop_last());
    }
}

proof fn lemma_nl_count_line(body: Seq<u8>)
    requires
        forall|j: int| 0 <= j < body.len() ==> body[j] != NL,
    ensures
        nl_count(body.push(NL)) == 1,
{
    lemma_nl_count_none(body);
    assert(body.push(NL).drop_last() =~= body);
}

/// The tar path emits exactly one newline-terminated output line for each
/// line of the content that it keeps: a content of `n` valid-UTF-8 lines,
/// with any number of invalid lines interleaved, produces `n` output lines.
pub proof fn lemma_tar_text_line_count(s: Seq<u8>)
    ensures
        nl_count(text_output(s)) == valid_line_count(s),
    decreases s.len(),
{
    if s.len() == 0 {
    } else {
        lemma_first_nl(s);
        let i = first_nl(s);
        if 0 <= i < s.len() {
            let chunk = s.take(i).push(NL);
            let body = strip_cr(s.take(i));
            assert(chunk.drop_last() =~= s.take(i));
            assert(forall|j: int| 0 <= j < body.len() ==> body[j] == s.take(i)[j]);
            lemma_tar_text_line_count(s.skip(i + 1));
            if vstd::utf8::valid_utf8(body) {
                lemma_nl_count_line(body);
            }
            lemma_nl_count_add(chunk_output(chunk), text_output(s.skip(i + 1)));
        } else {
            // no newline anywhere in the content: one unterminated line
            assert(forall|j: int| 0 <= j < s.len() ==> s[j] != NL);
            assert(s.len() > 0 && s.last() != NL);
            if vstd::utf8::valid_utf8(s) {
                lemma_nl_count_line(s);
            }
        }
    }
}

/// The newlines the zip path owes a member list: each kept member's own
/// newlines, plus exactly one terminator per member.
pub open spec fn zip_terminator_count(es: Seq<(bool, Seq<u8>)>) -> int
    decreases es.len(),
{
    if es.len() == 0 {
        0
    } else {
        zip_terminator_count(es.drop_last()) + if es.last().0 {
            1 + nl_count(es.last().1)
        } else {
            0int
        }
    }
}

/// The zip path appends one terminator per kept member, never one per
/// line: the output's newline count is each kept member's own newline
/// count plus exactly one.
pub proof fn lemma_zip_one_terminator_per_member(es: Seq<(bool, Seq<u8>)>)
    ensures
        nl_count(zip_output(es)) == zip_terminator_count(es),
    decreases es.len(),
{
    if es.len() > 0 {
        lemma_zip_one_terminator_per_member(es.drop_last());
        let piece = if es.last().0 {
            es.last().1.push(NL)
        } else {
            Seq::<u8>::empty()
        };
        lemma_nl_count_add(zip_output(es.drop_last()), piece);
        if es.last().0 {
            assert(es.last().1.push(NL).drop_last() =~= es.last().1);
        }
    }
}

/// The output is nothing but the members' renderings, concatenated in
/// member order: splitting the member list anywhere splits the output the
/// same way, so no record of the archive's structure separates them.
pub proof fn lemma_output_concatenates(a: Seq<(bool, Seq<u8>)>, b: Seq<(bool, Seq<u8>)>)
    ensures
        tar_output(a + b) == tar_output(a) + tar_output(b),
        zip_output(a + b) == zip_output(a) + zip_output(b),
    decreases b.len(),
{
    if b.len() == 0 {
        assert(a + b =~= a);
        assert(tar_output(a) + Seq::<u8>::empty() =~= tar_output(a));
        assert(zip_output(a) + Seq::<u8>::empty() =~= zip_output(a));
    } else {
        lemma_output_concatenates(a, b.drop_last());
        assert((a + b).drop_last() =~= a + b.drop_last());
        assert((a + b).last() == b.last());
        let t = if b.last().0 {
            text_output(b.last().1)
        } else {
            Seq::<u8>::empty()
        };
        let z = if b.last().0 {
            b.last().1.push(NL)
        } else {
            Seq::<u8>::empty()
        };
        assert((tar_output(a) + tar_output(b.drop_last())) + t =~= tar_output(a) + (tar_output(
            b.drop_last(),
        ) + t));
        assert((zip_output(a) + zip_output(b.drop_last())) + z =~= zip_output(a) + (zip_output(
            b.drop_last(),
        ) + z));
    }
}

/// An archive with no member classified as a regular file — directories
/// alone, say — produces empty output on either path.
pub proof fn lemma_no_regular_files_no_output(es: Seq<(bool, Seq<u8>)>)
    requires
        forall|i: int| 0 <= i < es.len() ==> !es[i].0,
    ensures
        tar_output(es) == Seq::<u8>::empty(),
        zip_output(es) == Seq::<u8>::empty(),
    decreases es.len(),
{
    if es.len() > 0 {
        lemma_no_regular_files_no_output(es.drop_last());
        assert(!es.last().0);
        assert(Seq::<u8>::empty() + Seq::<u8>::empty() =~= Seq::<u8>::empty());
    }
}

/// Two runs over the same gzip-compressed tar archive produce the same
/// text: the result is a function of the input bytes alone, so repeating a
/// conversion overwrites the output with identical bytes.
pub proof fn lemma_tar_gz_rerun_identical(
    bytes: Seq<u8>,
    first: Option<Seq<u8>>,
    second: Option<Seq<u8>>,
)
    requires
        first == tar_gz_result(bytes),
        second == tar_gz_result(bytes),
    ensures
        first == second,
{
}

/// Two runs over the same zip archive produce the same text.
pub proof fn lemma_zip_rerun_identical(
    bytes: Seq<u8>,
    first: Option<Seq<u8>>,
    second: Option<Seq<u8>>,
)
    requires
        first == zip_result(bytes),
        second == zip_result(bytes),
    ensures
        first == second,
{
}

} // verus!
