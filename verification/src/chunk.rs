//! Chunk producer: splits a snapshot file's bytes into a finite sequence of
//! bounded blocks for streaming, holding at most one block in memory at a
//! time.

use vstd::prelude::*;

verus! {

/// Maximum number of bytes in one streamed chunk.
pub const SNAP_CHUNK_LEN: usize = 1024 * 1024;

/// The chunk decomposition of `data` into blocks of at most `max` bytes:
/// every block except possibly the last holds exactly `max` bytes, the last
/// holds whatever remains, and an empty input yields no blocks at all.
pub open spec fn chunks_of(data: Seq<u8>, max: int) -> Seq<Seq<u8>>
    decreases data.len(),
    when max >= 1
{
    if data.len() == 0 {
        Seq::empty()
    } else if data.len() <= max {
        seq![data]
    } else {
        seq![data.take(max)].add(chunks_of(data.skip(max), max))
    }
}

/// Concatenating the chunk decomposition gives back the original bytes: no
/// byte is lost, duplicated or reordered by chunking.
pub proof fn lemma_chunks_flatten(data: Seq<u8>, max: int)
    requires
        max >= 1,
    ensures
        chunks_of(data, max).flatten() == data,
    decreases data.len(),
{
    let cs = chunks_of(data, max);
    if data.len() == 0 {
        assert(cs.flatten() =~= data);
    } else if data.len() <= max {
        assert(cs.drop_first() =~= Seq::<Seq<u8>>::empty());
        assert(Seq::<Seq<u8>>::empty().flatten() =~= Seq::<u8>::empty());
        assert(cs.flatten() =~= data);
    } else {
        lemma_chunks_flatten(data.skip(max), max);
        assert(cs.first() == data.take(max));
        assert(cs.drop_first() =~= chunks_of(data.skip(max), max));
        assert(cs.flatten() =~= data.take(max).add(data.skip(max)));
        assert(data.take(max).add(data.skip(max)) =~= data);
    }
}

/// Shape of the chunk decomposition: an empty input yields no chunks; a
/// non-empty input yields at least one, every chunk before the last holds
/// exactly `max` bytes, and the last holds between 1 and `max` bytes.
pub proof fn lemma_chunks_shape(data: Seq<u8>, max: int)
    requires
        max >= 1,
    ensures
        data.len() == 0 ==> chunks_of(data, max).len() == 0,
        data.len() > 0 ==> chunks_of(data, max).len() >= 1,
        data.len() > 0 ==> 1 <= chunks_of(data, max).last().len() <= max,
        forall|i: int|
            0 <= i < chunks_of(data, max).len() - 1 ==> (#[trigger] chunks_of(data, max)[i]).len()
                == max,
    decreases data.len(),
{
    let cs = chunks_of(data, max);
    if data.len() == 0 {
    } else if data.len() <= max {
        assert(cs.last() == data);
    } else {
        let rest = chunks_of(data.skip(max), max);
        lemma_chunks_shape(data.skip(max), max);
        assert(data.skip(max).len() == data.len() - max);
        assert(cs.last() == rest.last());
        assert forall|i: int| 0 <= i < cs.len() - 1 implies (#[trigger] cs[i]).len() == max by {
            if i == 0 {
                assert(cs[0] == data.take(max));
            } else {
                assert(cs[i] == rest[i - 1]);
            }
        }
    }
}

/// An open, readable snapshot file positioned at some offset.  `grain`
/// bounds how many bytes the underlying reader hands back in one call, so
/// that the accumulation loop of the producer is exercised with every
/// possible read granularity.
pub struct ByteSource {
    data: Vec<u8>,
    pos: usize,
    grain: usize,
}

impl ByteSource {
    /// The source is positioned inside its data and reads make progress.
    pub closed spec fn wf(&self) -> bool {
        self.pos <= self.data@.len() && self.grain >= 1
    }

    pub closed spec fn spec_grain(&self) -> usize {
        self.grain
    }

    /// Bytes not yet consumed.
    pub closed spec fn remaining(&self) -> Seq<u8> {
        self.data@.skip(self.pos as int)
    }

    /// Opens a source over `data`, positioned at the start.
    pub fn new(data: Vec<u8>, grain: usize) -> (s: ByteSource)
        requires
            grain >= 1,
        ensures
            s.wf(),
            s.remaining() == data@,
            s.spec_grain() == grain,
    {
        let s = ByteSource { data, pos: 0, grain };
        proof {
            assert(s.remaining() =~= s.data@);
        }
        s
    }

    /// One read call: hands back a prefix of the remaining bytes, at most
    /// `cap` of them and no more than the reader's grain; an empty block
    /// comes back only at end of stream.
    pub fn read_at_most(&mut self, cap: usize) -> (out: Vec<u8>)
        requires
            old(self).wf(),
            cap >= 1,
        ensures
            final(self).wf(),
            final(self).spec_grain() == old(self).spec_grain(),
            out@.len() <= cap,
            out@.len() <= old(self).remaining().len(),
            out@ == old(self).remaining().take(out@.len() as int),
            final(self).remaining() == old(self).remaining().skip(out@.len() as int),
            out@.len() == 0 <==> old(self).remaining().len() == 0,
    {
        let p = self.pos;
        let avail = self.data.len() - p;
        let want = if cap < self.grain {
            cap
        } else {
            self.grain
        };
        let n = if want < avail {
            want
        } else {
            avail
        };
        let ghost bytes = self.data@;
        let mut out: Vec<u8> = Vec::new();
        let mut i: usize = 0;
        while i < n
            invariant
                i <= n,
                p + n <= bytes.len(),
                bytes.len() <= usize::MAX,
                self.data@ == bytes,
                self.pos == p,
                out@ == bytes.subrange(p as int, p + i),
            decreases n - i,
        {
            out.push(self.data[p + i]);
            assert(out@ =~= bytes.subrange(p as int, p + i + 1));
            i = i + 1;
        }
        self.pos = p + n;
        proof {
            assert(out@ =~= old(self).remaining().take(n as int));
            assert(self.remaining() =~= old(self).remaining().skip(n as int));
        }
        out
    }

    /// Produces the next chunk of at most `max` bytes: read blocks are
    /// accumulated until the chunk is full or the stream ends early; an
    /// exhausted stream yields `None`.  Which chunk comes back depends only
    /// on the remaining bytes and on `max`, never on the read grain.
    pub fn next_chunk(&mut self, max: usize) -> (out: Option<Vec<u8>>)
        requires
            old(self).wf(),
            max >= 1,
        ensures
            final(self).wf(),
            final(self).spec_grain() == old(self).spec_grain(),
            match out {
                Option::None => {
                    &&& old(self).remaining().len() == 0
                    &&& final(self).remaining() == old(self).remaining()
                },
                Option::Some(c) => {
                    &&& old(self).remaining().len() > 0
                    &&& c@.len() == (if old(self).remaining().len() <= max {
                        old(self).remaining().len() as int
                    } else {
                        max as int
                    })
                    &&& c@ == old(self).remaining().take(c@.len() as int)
                    &&& final(self).remaining() == old(self).remaining().skip(c@.len() as int)
                },
            },
    {
        let ghost orig = *old(self);
        let mut written: Vec<u8> = Vec::new();
        let mut eof = false;
        while !eof && written.len() < max
            invariant
                self.wf(),
                self.spec_grain() == orig.spec_grain(),
                max >= 1,
                written@.len() <= max,
                written@.len() <= orig.remaining().len(),
                written@ == orig.remaining().take(written@.len() as int),
                self.remaining() == orig.remaining().skip(written@.len() as int),
                eof ==> self.remaining().len() == 0,
            decreases max - written@.len() + (if eof {
                0int
            } else {
                1int
            }),
        {
            let ghost pre = *self;
            let mut r = self.read_at_most(max - written.len());
            if r.len() == 0 {
                eof = true;
            } else {
                proof {
                    let w = written@.len() as int;
                    let rl = r@.len() as int;
                    assert(r@ == pre.remaining().take(rl));
                    assert(pre.remaining() == orig.remaining().skip(w));
                    assert(written@.add(r@) =~= orig.remaining().take(w + rl));
                    assert(orig.remaining().skip(w).skip(rl) =~= orig.remaining().skip(w + rl));
                }
                written.append(&mut r);
            }
        }
        proof {
            assert(orig.remaining().len() == written@.len() + self.remaining().len());
        }
        if written.len() == 0 {
            proof {
                assert(self.remaining() =~= old(self).remaining());
            }
            None
        } else {
            proof {
                assert(written@ == old(self).remaining().take(written@.len() as int));
            }
            Some(written)
        }
    }
}

/// Reads a source to exhaustion and returns every chunk in order: exactly
/// the chunk decomposition of the bytes that remained, whatever the read
/// grain was.
pub fn chunk_file(src: &mut ByteSource, max: usize) -> (out: Vec<Vec<u8>>)
    requires
        old(src).wf(),
        max >= 1,
    ensures
        final(src).wf(),
        final(src).remaining().len() == 0,
        out@.map_values(|c: Vec<u8>| c@) == chunks_of(old(src).remaining(), max as int),
{
    let ghost orig = *old(src);
    let mut out: Vec<Vec<u8>> = Vec::new();
    let mut done = false;
    while !done
        invariant
            src.wf(),
            max >= 1,
            out@.map_values(|c: Vec<u8>| c@).add(chunks_of(src.remaining(), max as int))
                == chunks_of(orig.remaining(), max as int),
            done ==> src.remaining().len() == 0,
        decreases src.remaining().len() + (if done {
            0int
        } else {
            1int
        }),
    {
        let ghost before = src.remaining();
        match src.next_chunk(max) {
            Some(c) => {
                proof {
                    let m = c@.len() as int;
                    if before.len() <= max {
                        assert(c@ =~= before);
                        assert(chunks_of(before, max as int) =~= seq![c@].add(
                            chunks_of(src.remaining(), max as int),
                        ));
                    } else {
                        assert(chunks_of(before, max as int) == seq![before.take(max as int)].add(
                            chunks_of(before.skip(max as int), max as int),
                        ));
                    }
                    assert(out@.push(c).map_values(|x: Vec<u8>| x@) =~= out@.map_values(
                        |x: Vec<u8>| x@,
                    ).push(c@));
                    assert(out@.map_values(|x: Vec<u8>| x@).push(c@).add(
                        chunks_of(src.remaining(), max as int),
                    ) =~= out@.map_values(|x: Vec<u8>| x@).add(seq![c@].add(
                        chunks_of(src.remaining(), max as int),
                    )));
                }
                out.push(c);
            },
            None => {
                done = true;
            },
        }
    }
    proof {
        assert(chunks_of(src.remaining(), max as int) =~= Seq::<Seq<u8>>::empty());
        assert(out@.map_values(|c: Vec<u8>| c@).add(Seq::<Seq<u8>>::empty()) =~= out@.map_values(
            |c: Vec<u8>| c@,
        ));
    }
    out
}

} // verus!
