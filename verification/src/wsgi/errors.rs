//! The `wsgi.errors` stream: text written by the application is logged line
//! by line, partial lines being held until they are complete or flushed.
use crate::text::{append_bytes, first_index_of, lemma_first_index_of};
use vstd::prelude::*;

verus! {

/// The non-empty pieces of `s` between newlines, in order: what is logged
/// for `s`.
pub open spec fn log_lines(s: Seq<u8>) -> Seq<Seq<u8>>
    decreases s.len(),
{
    let i = first_index_of(s, 10u8);
    let head = s.take(i);
    let rest = if 0 <= i < s.len() {
        proof {
            lemma_first_index_of(s, 10u8);
        }
        log_lines(s.skip(i + 1))
    } else {
        Seq::empty()
    };
    if head.len() > 0 {
        seq![head] + rest
    } else {
        rest
    }
}

/// Whether `s` holds a newline.
pub open spec fn has_newline(s: Seq<u8>) -> bool {
    exists|i: int| 0 <= i < s.len() && s[i] == 10u8
}

/// The bytes of the lines, as sequences.
pub open spec fn lines_view(lines: Seq<Vec<u8>>) -> Seq<Seq<u8>> {
    lines.map_values(|v: Vec<u8>| v@)
}

/// The position of the first newline at or after `from`, or the length.
fn find_newline_from(s: &[u8], from: usize) -> (res: usize)
    requires
        from <= s@.len(),
    ensures
        res - from == first_index_of(s@.skip(from as int), 10u8),
        from <= res <= s@.len(),
{
    proof {
        lemma_first_index_of(s@.skip(from as int), 10u8);
    }
    let mut i: usize = from;
    while i < s.len()
        invariant
            from <= i <= s@.len(),
            forall|k: int| from <= k < i ==> s@[k] != 10u8,
        decreases s@.len() - i,
    {
        if s[i] == 10u8 {
            proof {
                lemma_first_newline(s@.skip(from as int), i - from);
            }
            return i;
        }
        i = i + 1;
    }
    proof {
        lemma_first_newline(s@.skip(from as int), i - from);
    }
    i
}

pub proof fn lemma_first_newline(s: Seq<u8>, i: int)
    requires
        0 <= i <= s.len(),
        forall|k: int| 0 <= k < i ==> s[k] != 10u8,
        i < s.len() ==> s[i] == 10u8,
    ensures
        first_index_of(s, 10u8) == i,
    decreases s.len(),
{
    if s.len() > 0 && s[0] != 10u8 {
        assert forall|k: int| 0 <= k < i - 1 implies s.drop_first()[k] != 10u8 by {
            assert(s.drop_first()[k] == s[k + 1]);
        }
        if i < s.len() {
            assert(s.drop_first()[i - 1] == s[i]);
        }
        lemma_first_newline(s.drop_first(), i - 1);
    }
}

/// Splits `s` into the lines to log (see `log_lines`).
pub fn split_log_lines(s: &[u8]) -> (res: Vec<Vec<u8>>)
    ensures
        lines_view(res@) == log_lines(s@),
{
    let mut lines: Vec<Vec<u8>> = Vec::new();
    let mut pos: usize = 0;
    let mut done = false;
    proof {
        assert(s@.skip(0) =~= s@);
        assert(lines_view(lines@) =~= Seq::<Seq<u8>>::empty());
    }
    while !done
        invariant
            pos <= s@.len(),
            done ==> lines_view(lines@) == log_lines(s@),
            !done ==> log_lines(s@) == lines_view(lines@) + log_lines(s@.skip(pos as int)),
        decreases s@.len() - pos + (if done { 0int } else { 1int }),
    {
        let end = find_newline_from(s, pos);
        let ghost rest = s@.skip(pos as int);
        let mut piece: Vec<u8> = Vec::new();
        let mut j: usize = pos;
        while j < end
            invariant
                pos <= j <= end,
                end <= s@.len(),
                piece@ == s@.subrange(pos as int, j as int),
            decreases end - j,
        {
            piece.push(s[j]);
            proof {
                assert(s@.subrange(pos as int, j + 1) =~= s@.subrange(pos as int, j as int).push(
                    s@[j as int],
                ));
            }
            j = j + 1;
        }
        proof {
            assert(piece@ =~= rest.take(end - pos));
        }
        let ghost prev = lines_view(lines@);
        if piece.len() > 0 {
            lines.push(piece);
            proof {
                assert(lines_view(lines@) =~= prev.push(rest.take(end - pos)));
            }
        }
        if end < s.len() {
            proof {
                assert(rest.skip(end - pos + 1) =~= s@.skip(end + 1));
                assert(log_lines(rest) == (if rest.take(end - pos).len() > 0 {
                    seq![rest.take(end - pos)] + log_lines(rest.skip(end - pos + 1))
                } else {
                    log_lines(rest.skip(end - pos + 1))
                }));
                assert(log_lines(s@) =~= lines_view(lines@) + log_lines(s@.skip(end + 1)));
            }
            pos = end + 1;
        } else {
            proof {
                assert(log_lines(rest) == (if rest.take(end - pos).len() > 0 {
                    seq![rest.take(end - pos)]
                } else {
                    Seq::empty()
                }));
                assert(log_lines(s@) =~= lines_view(lines@));
            }
            pos = end;
            done = true;
        }
    }
    lines
}

/// The position of the last newline in `s`, if any.
fn rfind_newline(s: &[u8]) -> (res: Option<usize>)
    ensures
        match res {
            Some(i) => i < s@.len() && s@[i as int] == 10u8 && forall|k: int|
                i < k < s@.len() ==> s@[k] != 10u8,
            None => !has_newline(s@),
        },
{
    let mut i: usize = s.len();
    while i > 0
        invariant
            i <= s@.len(),
            forall|k: int| i <= k < s@.len() ==> s@[k] != 10u8,
        decreases i,
    {
        if s[i - 1] == 10u8 {
            return Some(i - 1);
        }
        i = i - 1;
    }
    None
}

/// The `wsgi.errors` stream of a request.
pub struct ErrorsOutput {
    /// The start of a line not yet complete.
    pub buffer: Vec<u8>,
}

/// What a write logs and keeps: with the buffer empty and the text ending
/// in a newline, all its lines; otherwise the buffer and the text up to and
/// including the last newline are logged and the rest kept.
pub open spec fn write_outcome(buffer: Seq<u8>, data: Seq<u8>) -> (Seq<Seq<u8>>, Seq<u8>) {
    if data.len() == 0 {
        (Seq::empty(), buffer)
    } else if data.last() == 10u8 && buffer.len() == 0 {
        (log_lines(data), buffer)
    } else {
        let all = buffer + data;
        if all.last() == 10u8 {
            (log_lines(all), Seq::empty())
        } else if has_newline(all) {
            let idx = choose|i: int|
                0 <= i < all.len() && all[i] == 10u8 && forall|k: int|
                    i < k < all.len() ==> all[k] != 10u8;
            (log_lines(all.take(idx + 1)), all.skip(idx + 1))
        } else {
            (Seq::empty(), all)
        }
    }
}

impl ErrorsOutput {
    pub fn new() -> (res: Self)
        ensures
            res.buffer@.len() == 0,
    {
        ErrorsOutput { buffer: Vec::new() }
    }

    /// Writes text: returns the lines to log and the number of bytes
    /// written (all of them).
    pub fn write(&mut self, data: &[u8]) -> (res: (Vec<Vec<u8>>, usize))
        requires
            old(self).buffer@.len() + data@.len() <= usize::MAX,
        ensures
            res.1 == data@.len(),
            (lines_view(res.0@), final(self).buffer@) == write_outcome(old(self).buffer@, data@),
    {
        if data.len() == 0 {
            return (Vec::new(), 0);
        }
        if data[data.len() - 1] == 10u8 && self.buffer.len() == 0 {
            return (split_log_lines(data), data.len());
        }
        append_bytes(&mut self.buffer, data);
        let ghost all = self.buffer@;
        if self.buffer[self.buffer.len() - 1] == 10u8 {
            let mut taken: Vec<u8> = Vec::new();
            std::mem::swap(&mut taken, &mut self.buffer);
            let lines = split_log_lines(taken.as_slice());
            return (lines, data.len());
        }
        match rfind_newline(self.buffer.as_slice()) {
            Some(idx) => {
                let mut head: Vec<u8> = Vec::new();
                let mut remaining: Vec<u8> = Vec::new();
                let mut k: usize = 0;
                while k < self.buffer.len()
                    invariant
                        self.buffer@ == all,
                        idx < all.len(),
                        k <= all.len(),
                        head@ == all.take(if k <= idx + 1 { k as int } else { idx + 1 }),
                        remaining@ == (if k <= idx + 1 { Seq::empty() } else { all.subrange(
                            idx + 1,
                            k as int,
                        ) }),
                    decreases all.len() - k,
                {
                    if k <= idx {
                        head.push(self.buffer[k]);
                        proof {
                            assert(all.take(k + 1) =~= all.take(k as int).push(all[k as int]));
                        }
                    } else {
                        remaining.push(self.buffer[k]);
                        proof {
                            assert(all.subrange(idx + 1, k + 1) =~= all.subrange(
                                idx + 1,
                                k as int,
                            ).push(all[k as int]));
                            assert(all.subrange(idx + 1, idx + 1) =~= Seq::<u8>::empty());
                        }
                    }
                    k = k + 1;
                }
                proof {
                    let c = choose|i: int|
                        0 <= i < all.len() && all[i] == 10u8 && forall|k: int|
                            i < k < all.len() ==> all[k] != 10u8;
                    assert(0 <= idx < all.len() && all[idx as int] == 10u8);
                    if c != idx {
                        if c < idx {
                        } else {
                        }
                    }
                    assert(c == idx);
                    assert(all.subrange(idx + 1, all.len() as int) =~= all.skip(idx + 1));
                    if idx + 1 == all.len() {
                        assert(all.skip(idx + 1) =~= Seq::<u8>::empty());
                    }
                }
                self.buffer = remaining;
                let lines = split_log_lines(head.as_slice());
                (lines, data.len())
            },
            None => (Vec::new(), data.len()),
        }
    }

    /// Flushes the partial line, returning the lines to log.
    pub fn flush(&mut self) -> (res: Vec<Vec<u8>>)
        ensures
            lines_view(res@) == log_lines(old(self).buffer@),
            final(self).buffer@.len() == 0,
    {
        if self.buffer.len() == 0 {
            proof {
                assert(first_index_of(self.buffer@, 10u8) == 0);
                assert(log_lines(self.buffer@) =~= Seq::<Seq<u8>>::empty());
            }
            return Vec::new();
        }
        let mut taken: Vec<u8> = Vec::new();
        std::mem::swap(&mut taken, &mut self.buffer);
        split_log_lines(taken.as_slice())
    }
}

/// What `writelines` logs for one item: nothing for an empty item, else
/// the item without one trailing newline.
pub open spec fn writelines_entry(item: Seq<u8>) -> Option<Seq<u8>> {
    if item.len() == 0 {
        None
    } else if item.last() == 10u8 {
        Some(item.drop_last())
    } else {
        Some(item)
    }
}

/// The line `writelines` logs for one item, if any.
pub fn writelines_entry_of(item: &[u8]) -> (res: Option<Vec<u8>>)
    ensures
        match (res, writelines_entry(item@)) {
            (Some(v), Some(w)) => v@ == w,
            (None, None) => true,
            _ => false,
        },
{
    if item.len() == 0 {
        return None;
    }
    let end = if item[item.len() - 1] == 10u8 {
        item.len() - 1
    } else {
        item.len()
    };
    let mut v: Vec<u8> = Vec::new();
    let mut i: usize = 0;
    while i < end
        invariant
            end <= item@.len(),
            i <= end,
            v@ == item@.take(i as int),
        decreases end - i,
    {
        v.push(item[i]);
        proof {
            assert(item@.take(i + 1) =~= item@.take(i as int).push(item@[i as int]));
        }
        i = i + 1;
    }
    proof {
        if end < item@.len() {
            assert(item@.take(end as int) =~= item@.drop_last());
        } else {
            assert(item@.take(end as int) =~= item@);
        }
    }
    Some(v)
}

/// The bytes of `s` other than newlines.
pub open spec fn without_newlines(s: Seq<u8>) -> Seq<u8>
    decreases s.len(),
{
    if s.len() == 0 {
        Seq::empty()
    } else if s[0] == 10u8 {
        without_newlines(s.drop_first())
    } else {
        seq![s[0]] + without_newlines(s.drop_first())
    }
}

/// The lines put end to end.
pub open spec fn joined(lines: Seq<Seq<u8>>) -> Seq<u8>
    decreases lines.len(),
{
    if lines.len() == 0 {
        Seq::empty()
    } else {
        lines[0] + joined(lines.drop_first())
    }
}

proof fn lemma_without_newlines_concat(a: Seq<u8>, b: Seq<u8>)
    ensures
        without_newlines(a + b) == without_newlines(a) + without_newlines(b),
    decreases a.len(),
{
    if a.len() == 0 {
        assert(a + b =~= b);
    } else {
        assert((a + b).drop_first() =~= a.drop_first() + b);
        lemma_without_newlines_concat(a.drop_first(), b);
        assert(without_newlines(a + b) =~= without_newlines(a) + without_newlines(b));
    }
}

proof fn lemma_without_newlines_free(a: Seq<u8>)
    requires
        !has_newline(a),
    ensures
        without_newlines(a) == a,
    decreases a.len(),
{
    if a.len() > 0 {
        assert(!has_newline(a.drop_first())) by {
            if has_newline(a.drop_first()) {
                let i = choose|i: int| 0 <= i < a.drop_first().len() && a.drop_first()[i] == 10u8;
                assert(a[i + 1] == 10u8);
            }
        }
        assert(a[0] != 10u8);
        lemma_without_newlines_free(a.drop_first());
        assert(seq![a[0]] + a.drop_first() =~= a);
    }
}

/// The logged lines put end to end are the text without its newlines.
proof fn lemma_log_lines_joined(s: Seq<u8>)
    ensures
        joined(log_lines(s)) == without_newlines(s),
    decreases s.len(),
{
    lemma_first_index_of(s, 10u8);
    let i = first_index_of(s, 10u8);
    let head = s.take(i);
    assert(!has_newline(head)) by {
        if has_newline(head) {
            let k = choose|k: int| 0 <= k < head.len() && head[k] == 10u8;
            assert(s[k] == 10u8);
        }
    }
    lemma_without_newlines_free(head);
    if i < s.len() {
        lemma_log_lines_joined(s.skip(i + 1));
        assert(s =~= head + (seq![10u8] + s.skip(i + 1)));
        lemma_without_newlines_concat(head, seq![10u8] + s.skip(i + 1));
        assert((seq![10u8] + s.skip(i + 1)).drop_first() =~= s.skip(i + 1));
        if head.len() > 0 {
            assert((seq![head] + log_lines(s.skip(i + 1))).drop_first() =~= log_lines(s.skip(i + 1)));
        } else {
            assert(head =~= Seq::<u8>::empty());
        }
    } else {
        assert(head =~= s);
        if head.len() > 0 {
            let l = seq![head] + Seq::<Seq<u8>>::empty();
            assert(l.len() == 1);
            assert(l[0] == head);
            assert(l.drop_first() =~= Seq::<Seq<u8>>::empty());
            assert(joined(l.drop_first()) == Seq::<u8>::empty());
            assert(joined(l) =~= head);
        }
    }
}

/// Nothing written to `wsgi.errors` is lost: the logged lines followed by
/// the kept partial line are the buffered and written text without its
/// newlines, and the kept partial line holds no newline.
pub proof fn law_errors_keep_all_text(buffer: Seq<u8>, data: Seq<u8>)
    requires
        !has_newline(buffer),
    ensures
        joined(write_outcome(buffer, data).0) + write_outcome(buffer, data).1 == without_newlines(
            buffer + data,
        ),
        !has_newline(write_outcome(buffer, data).1),
{
    let all = buffer + data;
    if data.len() == 0 {
        assert(all =~= buffer);
        lemma_without_newlines_free(buffer);
    } else if data.last() == 10u8 && buffer.len() == 0 {
        assert(all =~= data);
        lemma_log_lines_joined(data);
        assert(joined(log_lines(data)) + buffer =~= joined(log_lines(data)));
    } else if all.last() == 10u8 {
        lemma_log_lines_joined(all);
        assert(joined(log_lines(all)) + Seq::<u8>::empty() =~= joined(log_lines(all)));
    } else if has_newline(all) {
        let idx = choose|i: int|
            0 <= i < all.len() && all[i] == 10u8 && forall|k: int| i < k < all.len() ==> all[k] != 10u8;
        assert(exists|i: int|
            0 <= i < all.len() && all[i] == 10u8 && forall|k: int| i < k < all.len() ==> all[k] != 10u8) by {
            let j = choose|j: int| 0 <= j < all.len() && all[j] == 10u8;
            assert(0 <= j < all.len() && all[j] == 10u8);
            lemma_last_newline_exists(all, j);
        }
        let rest = all.skip(idx + 1);
        assert(!has_newline(rest)) by {
            if has_newline(rest) {
                let k = choose|k: int| 0 <= k < rest.len() && rest[k] == 10u8;
                assert(all[idx + 1 + k] == 10u8);
            }
        }
        lemma_log_lines_joined(all.take(idx + 1));
        lemma_without_newlines_free(rest);
        assert(all =~= all.take(idx + 1) + rest);
        lemma_without_newlines_concat(all.take(idx + 1), rest);
    } else {
        lemma_without_newlines_free(all);
    }
}

proof fn lemma_last_newline_exists(all: Seq<u8>, j: int)
    requires
        0 <= j < all.len(),
        all[j] == 10u8,
    ensures
        exists|i: int|
            0 <= i < all.len() && all[i] == 10u8 && forall|k: int| i < k < all.len() ==> all[k] != 10u8,
    decreases all.len() - j,
{
    if exists|k: int| j < k < all.len() && all[k] == 10u8 {
        let k = choose|k: int| j < k < all.len() && all[k] == 10u8;
        lemma_last_newline_exists(all, k);
    } else {
        assert(forall|k: int| j < k < all.len() ==> all[k] != 10u8);
    }
}

} // verus!
