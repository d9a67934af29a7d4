//! Rewriting the message of a monorepo commit for the commits it is split
//! into: `Topic: ` lines are taken out and returned, `^-- ` book-keeping lines
//! are dropped, every other line is kept.
use vstd::prelude::*;
use crate::bytes::{is_prefix, slice_of, starts_with, tail_from};

verus! {

/// The position of the first `\n` at or after `i`, or the length of `s`.
pub open spec fn next_newline(s: Seq<u8>, i: int) -> int
    decreases s.len() - i,
{
    if i >= s.len() {
        s.len() as int
    } else if s[i] == 10u8 {
        i
    } else {
        next_newline(s, i + 1)
    }
}

pub proof fn lemma_next_newline(s: Seq<u8>, i: int)
    requires
        0 <= i <= s.len(),
    ensures
        i <= next_newline(s, i) <= s.len(),
        next_newline(s, i) < s.len() ==> s[next_newline(s, i)] == 10u8,
        forall|k: int| i <= k < next_newline(s, i) ==> s[k] != 10u8,
    decreases s.len() - i,
{
    if i < s.len() && s[i] != 10u8 {
        lemma_next_newline(s, i + 1);
    }
}

/// A line ended by `\n` without its trailing carriage return, if any.
pub open spec fn strip_cr(l: Seq<u8>) -> Seq<u8> {
    if l.len() > 0 && l.last() == 13u8 {
        l.drop_last()
    } else {
        l
    }
}

/// The lines of `s` from position `i` on, split at `\n`. A `\r` right before
/// a `\n` belongs to the line break; a last line without `\n` is kept as it
/// is. A final `\n` does not start another line.
pub open spec fn lines_from(s: Seq<u8>, i: int) -> Seq<Seq<u8>>
    decreases s.len() + 1 - i,
    via lines_from_decreases
{
    if 0 <= i < s.len() {
        let e = next_newline(s, i);
        let l = if e < s.len() {
            strip_cr(s.subrange(i, e))
        } else {
            s.subrange(i, e)
        };
        seq![l] + lines_from(s, e + 1)
    } else {
        Seq::empty()
    }
}

#[via_fn]
proof fn lines_from_decreases(s: Seq<u8>, i: int) {
    if 0 <= i < s.len() {
        lemma_next_newline(s, i);
    }
}

/// The prefix of a topic line, `Topic: `.
pub open spec fn topic_prefix() -> Seq<u8> {
    seq![84u8, 111u8, 112u8, 105u8, 99u8, 58u8, 32u8]
}

/// The prefix of a book-keeping line, `^-- `.
pub open spec fn crumb_prefix() -> Seq<u8> {
    seq![94u8, 45u8, 45u8, 32u8]
}

/// What a line contributes to the rewritten message.
pub open spec fn kept_line(l: Seq<u8>) -> Seq<u8> {
    if is_prefix(topic_prefix(), l) || is_prefix(crumb_prefix(), l) {
        Seq::empty()
    } else {
        l + seq![10u8]
    }
}

/// The rewritten message: every kept line followed by `\n`.
pub open spec fn kept_text(lines: Seq<Seq<u8>>) -> Seq<u8>
    decreases lines.len(),
{
    if lines.len() == 0 {
        Seq::empty()
    } else {
        kept_line(lines[0]) + kept_text(lines.drop_first())
    }
}

/// The topic of the last `Topic: ` line, if there is one.
pub open spec fn last_topic(lines: Seq<Seq<u8>>) -> Option<Seq<u8>>
    decreases lines.len(),
{
    if lines.len() == 0 {
        None
    } else {
        match last_topic(lines.drop_first()) {
            Some(t) => Some(t),
            None => if is_prefix(topic_prefix(), lines[0]) {
                Some(lines[0].subrange(7, lines[0].len() as int))
            } else {
                None
            },
        }
    }
}

/// Splits the topic out of a commit message and drops its book-keeping
/// lines. Returns the new message and the topic.
pub fn rewrite_push_message(message: &[u8]) -> (r: (Vec<u8>, Option<Vec<u8>>))
    ensures
        r.0@ == kept_text(lines_from(message@, 0)),
        match r.1 {
            Some(t) => last_topic(lines_from(message@, 0)) == Some(t@),
            None => last_topic(lines_from(message@, 0)) is None,
        },
{
    let s = message;
    let topic_bytes: Vec<u8> = vec![84u8, 111u8, 112u8, 105u8, 99u8, 58u8, 32u8];
    let crumb_bytes: Vec<u8> = vec![94u8, 45u8, 45u8, 32u8];
    assert(topic_bytes@ =~= topic_prefix());
    assert(crumb_bytes@ =~= crumb_prefix());
    let mut out: Vec<u8> = Vec::new();
    let mut topic: Option<Vec<u8>> = None;
    let ghost all = lines_from(s@, 0);
    let mut i: usize = 0;
    while i < s.len()
        invariant
            i <= s@.len(),
            topic_bytes@ == topic_prefix(),
            crumb_bytes@ == crumb_prefix(),
            all == lines_from(s@, 0),
            out@ + kept_text(lines_from(s@, i as int)) == kept_text(all),
            last_topic(all) == match last_topic(lines_from(s@, i as int)) {
                Some(t) => Some(t),
                None => match topic {
                    Some(t) => Some(t@),
                    None => None,
                },
            },
        decreases s@.len() - i,
    {
        let mut e: usize = i;
        while e < s.len() && s[e] != 10u8
            invariant
                i <= e <= s@.len(),
                next_newline(s@, i as int) == next_newline(s@, e as int),
            decreases s@.len() - e,
        {
            e = e + 1;
        }
        proof {
            lemma_next_newline(s@, i as int);
        }
        let mut end: usize = e;
        if e < s.len() && end > i && s[end - 1] == 13u8 {
            end = end - 1;
        }
        let line = slice_of(s, i, end);
        let ghost l = if e < s.len() {
            strip_cr(s@.subrange(i as int, e as int))
        } else {
            s@.subrange(i as int, e as int)
        };
        assert(line@ =~= l);
        let ghost rest = lines_from(s@, e + 1);
        assert(lines_from(s@, i as int) == seq![l] + rest);
        assert((seq![l] + rest)[0] == l);
        assert((seq![l] + rest).drop_first() =~= rest);
        let ghost old_out = out@;
        if starts_with(line.as_slice(), topic_bytes.as_slice()) {
            topic = Some(tail_from(line.as_slice(), 7));
        } else if starts_with(line.as_slice(), crumb_bytes.as_slice()) {
        } else {
            let mut k: usize = 0;
            while k < line.len()
                invariant
                    k <= line@.len(),
                    out@ == old_out + line@.subrange(0, k as int),
                decreases line@.len() - k,
            {
                out.push(line[k]);
                k = k + 1;
                assert(out@ =~= old_out + line@.subrange(0, k as int));
            }
            out.push(10u8);
            assert(out@ =~= old_out + (l + seq![10u8]));
        }
        assert(out@ + kept_text(rest) =~= old_out + kept_text(lines_from(s@, i as int)));
        if e == s.len() {
            assert(lines_from(s@, e + 1) =~= Seq::<Seq<u8>>::empty());
            assert(lines_from(s@, e as int) =~= Seq::<Seq<u8>>::empty());
            i = e;
        } else {
            i = e + 1;
        }
    }
    assert(lines_from(s@, i as int) =~= Seq::<Seq<u8>>::empty());
    assert(out@ + kept_text(lines_from(s@, i as int)) =~= out@);
    (out, topic)
}

} // verus!
