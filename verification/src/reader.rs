//! A byte cursor over a borrowed [`ByteSource`].

use crate::source::{ByteSource, BUFFER_SIZE};
use vstd::prelude::*;

verus! {

/// What a [`StreamReader`] stands for: the bytes it has handed out, and the
/// bytes that it holds ready.
pub struct Cursor {
    /// The bytes handed out so far, in order. A step back takes the last one
    /// off again.
    pub taken: Seq<u8>,
    /// The bytes that are buffered and will be handed out next, before the
    /// source is asked again.
    pub pending: Seq<u8>,
    /// How many steps back can be taken from here.
    pub rewind: nat,
    /// Whether the last call of `next` found nothing to hand out.
    pub stopped: bool,
}

impl Cursor {
    /// Whether this cursor has handed out as many bytes as a reader counts.
    pub open spec fn full(self) -> bool {
        self.taken.len() >= u64::MAX
    }

    /// The bytes handed out since the cursor stood at `before`.
    pub open spec fn since(self, before: Cursor) -> Seq<u8> {
        self.taken.skip(before.taken.len() as int)
    }

    /// Whether this cursor is `before`, moved forward only.
    pub open spec fn extends(self, before: Cursor) -> bool {
        before.taken.is_prefix_of(self.taken)
    }

    /// Whether a reader that stands here asks its source when it is to hand
    /// out a byte: it has nothing pending, and may hand out more.
    pub open spec fn asks(self) -> bool {
        self.pending.len() == 0 && !self.full()
    }

    /// Whether a source that returns `answer` has given bytes: the answer is
    /// a number of bytes, at least one and no more than the buffer holds.
    pub open spec fn given(answer: Option<usize>) -> bool {
        answer matches Some(n) && 0 < n <= BUFFER_SIZE
    }

    /// This cursor after its source wrote `chunk` and returned `answer`.
    /// Where the source has given bytes, those it counts are pending, in
    /// their order from the front of `chunk`; where it has not, nothing is.
    /// Either way no step back is possible. A cursor that has bytes pending
    /// takes no others and stays as it is.
    pub open spec fn refilled(self, chunk: Seq<u8>, answer: Option<usize>) -> Cursor {
        if self.pending.len() > 0 {
            self
        } else {
            Cursor {
                taken: self.taken,
                pending: if Cursor::given(answer) {
                    chunk.take(answer->0 as int)
                } else {
                    Seq::empty()
                },
                rewind: 0,
                stopped: self.stopped,
            }
        }
    }

    /// What comes of handing out a byte from here without asking the
    /// source: the first pending byte, with the cursor behind it, or `None`,
    /// with the cursor stopped where it is, if nothing is pending or no more
    /// may be handed out.
    pub open spec fn handed(self) -> (Cursor, Option<u8>) {
        if self.pending.len() > 0 && !self.full() {
            (
                Cursor {
                    taken: self.taken.push(self.pending[0]),
                    pending: self.pending.skip(1),
                    rewind: self.rewind + 1,
                    stopped: false,
                },
                Some(self.pending[0]),
            )
        } else {
            (Cursor { stopped: true, ..self }, None)
        }
    }

    /// Whether `next` may lead from here to `after` with the result `r`. A
    /// reader that need not ask its source hands out what it has. One that
    /// asks takes what its source wrote and returned, whatever that is, as
    /// `refilled` says, and hands out what it then has.
    pub open spec fn leads_to(self, after: Cursor, r: Option<u8>) -> bool {
        if self.asks() {
            exists|chunk: Seq<u8>, answer: Option<usize>|
                chunk.len() == BUFFER_SIZE && (after, r) == (#[trigger] self.refilled(
                    chunk,
                    answer,
                )).handed()
        } else {
            (after, r) == self.handed()
        }
    }
}

/// A reader that hands out the bytes of a borrowed [`ByteSource`] one at a
/// time.
///
/// The source stays with its owner, who can use it again once the reader is
/// gone, for instance to write a response to the same connection.
///
/// The reader asks its source only when it has handed out all that the
/// source gave before, and hands out what the source gives in the order in
/// which the source wrote it. What it makes of an answer of its source is
/// laid down by [`StreamReader::refill`].
///
/// A reader counts the bytes it hands out, and hands out no more than
/// `u64::MAX` of them: for a reader, a longer stream ends there.
pub struct StreamReader<'a, T: ByteSource> {
    stream: &'a mut T,
    buffer: [u8; BUFFER_SIZE],
    index: usize,
    read: usize,
    count: u64,
    taken: Ghost<Seq<u8>>,
    stopped: Ghost<bool>,
}

impl<'a, T: ByteSource> View for StreamReader<'a, T> {
    type V = Cursor;

    closed spec fn view(&self) -> Cursor {
        Cursor {
            taken: self.taken@,
            pending: self.buffer@.subrange(self.index as int, self.read as int),
            rewind: self.index as nat,
            stopped: self.stopped@,
        }
    }
}

impl<'a, T: ByteSource> StreamReader<'a, T> {
    /// The source that this reader reads from, as it is now.
    pub closed spec fn source(&self) -> T {
        *self.stream
    }

    /// The invariant of a reader: the buffered bytes before the cursor are the
    /// last ones handed out.
    pub closed spec fn wf(&self) -> bool {
        &&& self.index <= self.read <= BUFFER_SIZE
        &&& self.count == self.taken@.len()
        &&& self.index <= self.count
        &&& forall|i: int|
            0 <= i < self.index ==> self.buffer@[i] == self.taken@[self.count - self.index + i]
    }

    /// Create a new `StreamReader` from a source.
    pub fn from(stream: &'a mut T) -> (reader: StreamReader<'a, T>)
        ensures
            reader.wf(),
            reader@ == (Cursor {
                taken: Seq::empty(),
                pending: Seq::empty(),
                rewind: 0,
                stopped: false,
            }),
            reader.source() == *old(stream),
    {
        let reader = StreamReader {
            stream,
            buffer: [0; BUFFER_SIZE],
            index: 0,
            read: 0,
            count: 0,
            taken: Ghost(Seq::empty()),
            stopped: Ghost(false),
        };
        assert(reader@.pending =~= Seq::empty());
        reader
    }

    /// Takes what the source wrote and returned when it was asked: `chunk`
    /// is the buffer as the source left it, and `answer` what it returned.
    /// Returns whether the reader has bytes from it.
    ///
    /// Where `answer` is a number of bytes, at least one and no more than
    /// the buffer holds, that many bytes from the front of `chunk` are handed
    /// out next, in their order. Any other answer is taken for the end of
    /// the stream: the source has nothing more, reading from it failed, or
    /// it claims more bytes than it can have written. After either, no step
    /// back is possible.
    ///
    /// A reader that still has bytes to hand out takes no others: it stays as
    /// it is.
    pub fn refill(&mut self, chunk: [u8; BUFFER_SIZE], answer: Option<usize>) -> (ok: bool)
        requires
            old(self).wf(),
        ensures
            final(self).wf(),
            final(self).source() == old(self).source(),
            ok == (old(self)@.pending.len() == 0 && Cursor::given(answer)),
            final(self)@ == old(self)@.refilled(chunk@, answer),
    {
        if self.index < self.read {
            return false;
        }
        self.index = 0;
        self.read = 0;
        let ok = match answer {
            Some(n) => {
                if n > 0 && n <= BUFFER_SIZE {
                    self.buffer = chunk;
                    self.read = n;
                    true
                } else {
                    false
                }
            },
            None => false,
        };
        assert(self@.pending =~= old(self)@.refilled(chunk@, answer).pending);
        ok
    }

    /// Asks the source for the next bytes, and takes what it gives. Returns
    /// whether the reader has bytes from it.
    fn read(&mut self) -> (ok: bool)
        requires
            old(self).wf(),
            old(self)@.pending.len() == 0,
        ensures
            final(self).wf(),
            ok == (final(self)@.pending.len() > 0),
            exists|chunk: Seq<u8>, answer: Option<usize>|
                chunk.len() == BUFFER_SIZE && ok == Cursor::given(answer) && final(self)@
                    == #[trigger] old(self)@.refilled(chunk, answer),
    {
        let mut chunk: [u8; BUFFER_SIZE] = [0; BUFFER_SIZE];
        let answer = self.stream.read(&mut chunk);
        let ghost before = self@;
        let ok = self.refill(chunk, answer);
        assert(self@ == before.refilled(chunk@, answer));
        ok
    }

    /// Hands out the next byte of the stream, or `None` where there is none:
    /// the source has run dry, or reading from it failed. The two are not
    /// told apart.
    ///
    /// A byte that is pending is handed out without asking the source. With
    /// nothing pending the source is asked, and what it wrote and returned
    /// is taken as by `refill`: the byte handed out is the first that the
    /// source gave, and the others that it gave are pending behind it. This
    /// is what `leads_to` says; the clauses before it spell out what follows
    /// for the result at hand, whatever the source gave.
    pub fn next(&mut self) -> (r: Option<u8>)
        requires
            old(self).wf(),
        ensures
            final(self).wf(),
            final(self)@.stopped == (r is None),
            !old(self)@.asks() ==> final(self).source() == old(self).source(),
            match r {
                Some(b) => {
                    &&& !old(self)@.full()
                    &&& final(self)@.taken == old(self)@.taken.push(b)
                    &&& if old(self)@.pending.len() > 0 {
                        &&& b == old(self)@.pending[0]
                        &&& final(self)@.pending == old(self)@.pending.skip(1)
                        &&& final(self)@.rewind == old(self)@.rewind + 1
                    } else {
                        final(self)@.rewind == 1
                    }
                },
                None => {
                    &&& final(self)@.taken == old(self)@.taken
                    &&& if old(self)@.full() {
                        &&& final(self)@.pending == old(self)@.pending
                        &&& final(self)@.rewind == old(self)@.rewind
                    } else {
                        &&& old(self)@.pending.len() == 0
                        &&& final(self)@.pending.len() == 0
                        &&& final(self)@.rewind == 0
                    }
                },
            },
            old(self)@.leads_to(final(self)@, r),
    {
        if self.count == u64::MAX {
            self.stopped = Ghost(true);
            return None;
        }
        if self.index >= self.read {
            if !self.read() {
                self.stopped = Ghost(true);
                return None;
            }
        }
        let ghost ready = self@;
        let b = self.buffer[self.index];
        self.index += 1;
        self.count += 1;
        self.taken = Ghost(self.taken@.push(b));
        self.stopped = Ghost(false);
        assert(b == ready.pending[0]);
        assert(self@.pending =~= ready.pending.skip(1));
        assert((self@, Some(b)) == ready.handed());
        Some(b)
    }

    /// Moves the cursor back by one byte, so that the next call of `next`
    /// hands out the previous byte again. Returns `Some(())` if the cursor
    /// moved and `None` if it could not.
    ///
    /// This succeeds the first time it is called after a call of `next` that
    /// handed out a byte. How many more steps back succeed depends on where
    /// in its buffer the reader stands.
    pub fn step_back(&mut self) -> (r: Option<()>)
        requires
            old(self).wf(),
        ensures
            final(self).wf(),
            final(self).source() == old(self).source(),
            match r {
                Some(_) => {
                    &&& old(self)@.rewind > 0
                    &&& old(self)@.taken.len() > 0
                    &&& !final(self)@.full()
                    &&& final(self)@ == (Cursor {
                        taken: old(self)@.taken.drop_last(),
                        pending: seq![old(self)@.taken.last()] + old(self)@.pending,
                        rewind: (old(self)@.rewind - 1) as nat,
                        stopped: false,
                    })
                },
                None => old(self)@.rewind == 0 && final(self)@ == old(self)@,
            },
    {
        if self.index > 0 {
            self.index -= 1;
            self.count -= 1;
            self.taken = Ghost(self.taken@.drop_last());
            self.stopped = Ghost(false);
            assert(self@.pending =~= seq![old(self)@.taken.last()] + old(self)@.pending);
            Some(())
        } else {
            None
        }
    }
}

} // verus!
