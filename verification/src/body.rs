//! Request body buffers as handed over by Envoy, and the plans for reading them.
use vstd::prelude::*;

verus! {

/// The bytes of a list of buffers, in order.
pub open spec fn flat(bufs: Seq<Vec<u8>>) -> Seq<u8>
    decreases bufs.len(),
{
    if bufs.len() == 0 {
        Seq::empty()
    } else {
        flat(bufs.drop_last()) + bufs.last()@
    }
}

/// The bytes of an optional list of buffers (none means no bytes).
pub open spec fn flat_opt(bufs: Option<Vec<Vec<u8>>>) -> Seq<u8> {
    match bufs {
        Some(v) => flat(v@),
        None => Seq::empty(),
    }
}

/// The bytes of the first `i` buffers, followed by buffer `i`, are the bytes
/// of the first `i + 1` buffers.
pub proof fn lemma_flat_take_succ(bufs: Seq<Vec<u8>>, i: int)
    requires
        0 <= i < bufs.len(),
    ensures
        flat(bufs.take(i + 1)) == flat(bufs.take(i)) + bufs[i]@,
{
    assert(bufs.take(i + 1).drop_last() =~= bufs.take(i));
}

/// Flattening distributes over concatenation.
pub proof fn lemma_flat_concat(a: Seq<Vec<u8>>, b: Seq<Vec<u8>>)
    ensures
        flat(a + b) == flat(a) + flat(b),
    decreases b.len(),
{
    if b.len() == 0 {
        assert(a + b =~= a);
        assert(flat(a) + flat(b) =~= flat(a));
    } else {
        lemma_flat_concat(a, b.drop_last());
        assert((a + b).drop_last() =~= a + b.drop_last());
        assert(flat(a + b) =~= flat(a) + flat(b));
    }
}

/// The bytes of a prefix of the buffers are a prefix of all bytes.
pub proof fn lemma_flat_prefix(bufs: Seq<Vec<u8>>, i: int)
    requires
        0 <= i <= bufs.len(),
    ensures
        flat(bufs.take(i)).len() <= flat(bufs).len(),
        flat(bufs) == flat(bufs.take(i)) + flat(bufs.skip(i)),
{
    lemma_flat_concat(bufs.take(i), bufs.skip(i));
    assert(bufs.take(i) + bufs.skip(i) =~= bufs);
}

/// Byte `j` of buffer `i` sits at its offset within all bytes.
pub proof fn lemma_flat_index(bufs: Seq<Vec<u8>>, i: int, j: int)
    requires
        0 <= i < bufs.len(),
        0 <= j < bufs[i]@.len(),
    ensures
        flat(bufs.take(i)).len() + j < flat(bufs).len(),
        flat(bufs)[flat(bufs.take(i)).len() + j] == bufs[i]@[j],
{
    lemma_flat_take_succ(bufs, i);
    lemma_flat_prefix(bufs, i + 1);
}

/// All bytes are empty exactly when every buffer is.
pub proof fn lemma_flat_empty(bufs: Seq<Vec<u8>>)
    ensures
        (flat(bufs).len() == 0) == (forall|i: int| 0 <= i < bufs.len() ==> #[trigger] bufs[i]@.len()
            == 0),
    decreases bufs.len(),
{
    if bufs.len() > 0 {
        lemma_flat_empty(bufs.drop_last());
        if flat(bufs).len() == 0 {
            assert forall|i: int| 0 <= i < bufs.len() implies #[trigger] bufs[i]@.len() == 0 by {
                if i < bufs.len() - 1 {
                    assert(bufs.drop_last()[i] == bufs[i]);
                }
            }
        } else {
            if forall|i: int| 0 <= i < bufs.len() ==> #[trigger] bufs[i]@.len() == 0 {
                assert forall|i: int| 0 <= i < bufs.drop_last().len() implies #[trigger] bufs.drop_last()[i]@.len() == 0 by {
                    assert(bufs.drop_last()[i] == bufs[i]);
                }
                assert(bufs[bufs.len() - 1]@.len() == 0);
            }
        }
    }
}

/// Whether any buffer holds at least one byte.
pub fn has_nonempty_buffer(body: &Option<Vec<Vec<u8>>>) -> (res: bool)
    ensures
        res == (flat_opt(*body).len() > 0),
{
    match body {
        None => false,
        Some(buffers) => {
            proof {
                lemma_flat_empty(buffers@);
            }
            let mut i: usize = 0;
            while i < buffers.len()
                invariant
                    i <= buffers.len(),
                    flat_opt(*body) == flat(buffers@),
                    forall|k: int| 0 <= k < i ==> #[trigger] buffers@[k]@.len() == 0,
                decreases buffers.len() - i,
            {
                if buffers[i].len() > 0 {
                    proof {
                        lemma_flat_empty(buffers@);
                        assert(buffers@[i as int]@.len() != 0);
                    }
                    return true;
                }
                i = i + 1;
            }
            proof {
                lemma_flat_empty(buffers@);
            }
            false
        },
    }
}

/// Whether Envoy holds any readable request body, buffered or just received.
pub fn has_request_body(buffered: &Option<Vec<Vec<u8>>>, received: &Option<Vec<Vec<u8>>>) -> (res:
    bool)
    ensures
        res == (flat_opt(*buffered).len() + flat_opt(*received).len() > 0),
{
    if has_nonempty_buffer(buffered) {
        return true;
    }
    if has_nonempty_buffer(received) {
        return true;
    }
    false
}

/// The total number of bytes in the buffers.
pub fn buffers_len(buffers: &Option<Vec<Vec<u8>>>) -> (res: usize)
    requires
        flat_opt(*buffers).len() <= usize::MAX,
    ensures
        res == flat_opt(*buffers).len(),
{
    match buffers {
        None => 0,
        Some(bufs) => {
            let mut total: usize = 0;
            let mut i: usize = 0;
            while i < bufs.len()
                invariant
                    i <= bufs.len(),
                    flat(bufs@).len() <= usize::MAX,
                    total == flat(bufs@.take(i as int)).len(),
                decreases bufs.len() - i,
            {
                proof {
                    lemma_flat_take_succ(bufs@, i as int);
                    lemma_flat_prefix(bufs@, i + 1);
                }
                total = total + bufs[i].len();
                i = i + 1;
            }
            proof {
                assert(bufs@.take(bufs.len() as int) =~= bufs@);
            }
            total
        },
    }
}

/// Appends every byte of the chunks to `vec`, returning how many were appended.
pub fn extend_from_chunks(bufs: &Vec<Vec<u8>>, vec: &mut Vec<u8>) -> (res: usize)
    requires
        flat(bufs@).len() <= usize::MAX,
    ensures
        final(vec)@ == old(vec)@ + flat(bufs@),
        res == flat(bufs@).len(),
{
    let ghost start = vec@;
    let mut read: usize = 0;
    let mut i: usize = 0;
    while i < bufs.len()
        invariant
            i <= bufs.len(),
            flat(bufs@).len() <= usize::MAX,
            read == flat(bufs@.take(i as int)).len(),
            vec@ == start + flat(bufs@.take(i as int)),
        decreases bufs.len() - i,
    {
        proof {
            lemma_flat_take_succ(bufs@, i as int);
            lemma_flat_prefix(bufs@, i + 1);
        }
        let ghost before = vec@;
        let mut j: usize = 0;
        while j < bufs[i].len()
            invariant
                i < bufs.len(),
                j <= bufs[i as int]@.len(),
                vec@ == before + bufs[i as int]@.take(j as int),
            decreases bufs[i as int]@.len() - j,
        {
            vec.push(bufs[i][j]);
            proof {
                assert(bufs[i as int]@.take(j + 1) =~= bufs[i as int]@.take(j as int).push(
                    bufs[i as int]@[j as int],
                ));
            }
            j = j + 1;
        }
        proof {
            assert(bufs[i as int]@.take(j as int) =~= bufs[i as int]@);
            assert(vec@ =~= start + flat(bufs@.take(i + 1)));
        }
        read = read + bufs[i].len();
        i = i + 1;
    }
    proof {
        assert(bufs@.take(bufs.len() as int) =~= bufs@);
    }
    read
}

/// Appends every byte of the buffers to `vec`, returning how many were appended.
pub fn extend_from_buffers(buffers: &Option<Vec<Vec<u8>>>, vec: &mut Vec<u8>) -> (res: usize)
    requires
        flat_opt(*buffers).len() <= usize::MAX,
    ensures
        final(vec)@ == old(vec)@ + flat_opt(*buffers),
        res == flat_opt(*buffers).len(),
{
    match buffers {
        None => {
            proof {
                assert(old(vec)@ + Seq::<u8>::empty() =~= old(vec)@);
            }
            0
        },
        Some(bufs) => extend_from_chunks(bufs, vec),
    }
}

/// What to do to read the whole readable request body at once.
pub struct BodyRead {
    /// The body: buffered bytes, then received bytes.
    pub body: Vec<u8>,
    /// How many bytes to drain from the buffered body.
    pub drain_buffered: usize,
    /// How many bytes to drain from the received body.
    pub drain_received: usize,
}

/// Plans reading the entire readable request body: all buffered bytes, then
/// all received bytes, draining both.
pub fn read_request_body(buffered: &Option<Vec<Vec<u8>>>, received: &Option<Vec<Vec<u8>>>) -> (res:
    BodyRead)
    requires
        flat_opt(*buffered).len() + flat_opt(*received).len() <= usize::MAX,
    ensures
        res.body@ == flat_opt(*buffered) + flat_opt(*received),
        res.drain_buffered == flat_opt(*buffered).len(),
        res.drain_received == flat_opt(*received).len(),
{
    let mut body: Vec<u8> = Vec::new();
    let drain_buffered = extend_from_buffers(buffered, &mut body);
    let drain_received = extend_from_buffers(received, &mut body);
    proof {
        assert(Seq::<u8>::empty() + flat_opt(*buffered) =~= flat_opt(*buffered));
    }
    BodyRead { body, drain_buffered, drain_received }
}

/// Appends the first bytes of the buffers to `vec`, at most `limit` of them,
/// returning how many were appended.
pub fn extend_from_buffers_up_to(buffers: &Option<Vec<Vec<u8>>>, limit: usize, vec: &mut Vec<u8>) -> (res:
    usize)
    ensures
        res == if limit < flat_opt(*buffers).len() {
            limit as int
        } else {
            flat_opt(*buffers).len() as int
        },
        final(vec)@ == old(vec)@ + flat_opt(*buffers).take(res as int),
{
    let ghost start = vec@;
    match buffers {
        None => {
            proof {
                assert(start + Seq::<u8>::empty().take(0) =~= start);
            }
            0
        },
        Some(bufs) => {
            let mut read: usize = 0;
            let mut i: usize = 0;
            while i < bufs.len() && read < limit
                invariant
                    i <= bufs.len(),
                    flat_opt(*buffers) == flat(bufs@),
                    start == old(vec)@,
                    read <= limit,
                    read == flat(bufs@.take(i as int)).len(),
                    vec@ == start + flat(bufs@.take(i as int)),
                decreases bufs.len() - i,
            {
                proof {
                    lemma_flat_take_succ(bufs@, i as int);
                }
                let remaining = limit - read;
                let to_read = if remaining < bufs[i].len() {
                    remaining
                } else {
                    bufs[i].len()
                };
                let ghost before = vec@;
                let mut j: usize = 0;
                while j < to_read
                    invariant
                        i < bufs.len(),
                        to_read <= bufs[i as int]@.len(),
                        j <= to_read,
                        vec@ == before + bufs[i as int]@.take(j as int),
                    decreases to_read - j,
                {
                    vec.push(bufs[i][j]);
                    proof {
                        assert(bufs[i as int]@.take(j + 1) =~= bufs[i as int]@.take(j as int).push(
                            bufs[i as int]@[j as int],
                        ));
                    }
                    j = j + 1;
                }
                read = read + to_read;
                if to_read < bufs[i].len() {
                    proof {
                        lemma_flat_prefix(bufs@, i as int);
                        lemma_flat_prefix(bufs@, i + 1);
                        let pre = flat(bufs@.take(i as int));
                        let all = flat(bufs@);
                        assert(flat(bufs@.take(i + 1)) =~= pre + bufs[i as int]@);
                        assert(read < flat(bufs@.take(i + 1)).len());
                        assert(all.take(read as int) =~= pre + bufs[i as int]@.take(to_read as int))
                            by {
                            assert forall|k: int| 0 <= k < read implies all.take(read as int)[k] == (
                            pre + bufs[i as int]@.take(to_read as int))[k] by {
                                if k >= pre.len() {
                                    lemma_flat_index(bufs@, i as int, k - pre.len());
                                } else {
                                    assert(all[k] == flat(bufs@.take(i + 1))[k]);
                                }
                            }
                        }
                        assert(vec@ =~= start + all.take(read as int));
                    }
                    return read;
                }
                proof {
                    assert(bufs[i as int]@.take(to_read as int) =~= bufs[i as int]@);
                    assert(vec@ =~= start + flat(bufs@.take(i + 1)));
                }
                i = i + 1;
            }
            proof {
                lemma_flat_prefix(bufs@, i as int);
                if i == bufs.len() {
                    assert(bufs@.take(i as int) =~= bufs@);
                }
                let all = flat(bufs@);
                if read < flat(bufs@).len() {
                    assert(read == limit);
                }
                assert(all.take(read as int) =~= flat(bufs@.take(i as int)));
            }
            read
        },
    }
}

} // verus!
