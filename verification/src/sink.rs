//! The buffered sink: a fixed-capacity write-coalescing wrapper.  Every
//! write appends to the buffer byte by byte; when the buffer is full it is
//! written out whole before the next byte is buffered.  The underlying
//! writes are recorded in order; the owner of the real output stream drains
//! them with `take_writes` and performs them.

use vstd::prelude::*;

verus! {

/// The mathematical state of a buffered sink: its capacity, the bytes
/// pending in the buffer, and the underlying writes performed so far.
#[verifier::ext_equal]
pub struct SinkView {
    pub capacity: nat,
    pub pending: Seq<u8>,
    pub writes: Seq<Seq<u8>>,
}

/// One byte enters the buffer; a full buffer is written out first.
pub open spec fn sb_push_byte(s: SinkView, b: u8) -> SinkView {
    if s.pending.len() == s.capacity {
        SinkView { capacity: s.capacity, pending: seq![b], writes: s.writes.push(s.pending) }
    } else {
        SinkView { capacity: s.capacity, pending: s.pending.push(b), writes: s.writes }
    }
}

/// A write buffers each byte in turn.
pub open spec fn sb_write(s: SinkView, data: Seq<u8>) -> SinkView
    decreases data.len(),
{
    if data.len() == 0 {
        s
    } else {
        sb_write(sb_push_byte(s, data[0]), data.skip(1))
    }
}

/// A flush writes the pending bytes out, even when there are none.
pub open spec fn sb_flush(s: SinkView) -> SinkView {
    SinkView { capacity: s.capacity, pending: Seq::empty(), writes: s.writes.push(s.pending) }
}

/// The underlying writes, concatenated in order.
pub open spec fn concat_writes(ws: Seq<Seq<u8>>) -> Seq<u8>
    decreases ws.len(),
{
    if ws.len() == 0 {
        Seq::empty()
    } else {
        concat_writes(ws.drop_last()) + ws.last()
    }
}

/// Buffering one more byte at the end of a write equals writing the extended
/// data.
proof fn lemma_sb_write_snoc(s: SinkView, data: Seq<u8>, b: u8)
    ensures
        sb_write(s, data.push(b)) == sb_push_byte(sb_write(s, data), b),
    decreases data.len(),
{
    let one = data.push(b);
    if data.len() == 0 {
        assert(one[0] == b);
        assert(one.skip(1) =~= Seq::<u8>::empty());
        assert(sb_write(s, one) == sb_write(sb_push_byte(s, one[0]), one.skip(1)));
        assert(sb_write(sb_push_byte(s, b), one.skip(1)) == sb_push_byte(s, b));
        assert(sb_write(s, data) == s);
    } else {
        let stepped = sb_push_byte(s, data[0]);
        lemma_sb_write_snoc(stepped, data.skip(1), b);
        assert(one[0] == data[0]);
        assert(one.skip(1) =~= data.skip(1).push(b));
        assert(sb_write(s, one) == sb_write(stepped, one.skip(1)));
        assert(sb_write(stepped, one.skip(1)) == sb_write(stepped, data.skip(1).push(b)));
        assert(sb_write(stepped, data.skip(1).push(b)) == sb_push_byte(
            sb_write(stepped, data.skip(1)),
            b,
        ));
        assert(sb_write(s, data) == sb_write(stepped, data.skip(1)));
    }
}

pub struct StreamBuffer {
    buffer: Vec<u8>,
    capacity: usize,
    writes: Vec<Vec<u8>>,
}

impl View for StreamBuffer {
    type V = SinkView;

    closed spec fn view(&self) -> SinkView {
        SinkView {
            capacity: self.capacity as nat,
            pending: self.buffer@,
            writes: self.writes@.map_values(|w: Vec<u8>| w@),
        }
    }
}

impl StreamBuffer {
    /// The buffer never outgrows its capacity, which is positive.
    pub closed spec fn wf(&self) -> bool {
        self.capacity >= 1 && self.buffer@.len() <= self.capacity
    }

    pub fn new(capacity: usize) -> (r: Self)
        requires
            capacity >= 1,
        ensures
            r.wf(),
            r@ == (SinkView {
                capacity: capacity as nat,
                pending: Seq::empty(),
                writes: Seq::empty(),
            }),
    {
        let r = StreamBuffer { buffer: Vec::new(), capacity, writes: Vec::new() };
        proof {
            assert(r.writes@.map_values(|w: Vec<u8>| w@) =~= Seq::<Seq<u8>>::empty());
        }
        r
    }

    /// Forgets the pending bytes without writing them out.
    pub fn clear(&mut self)
        ensures
            final(self)@ == (SinkView { pending: Seq::empty(), ..old(self)@ }),
            old(self).wf() ==> final(self).wf(),
    {
        self.buffer.clear();
    }

    /// Moves the pending bytes into the record of underlying writes.
    fn push_out(&mut self)
        ensures
            final(self)@ == (SinkView {
                capacity: old(self)@.capacity,
                pending: Seq::empty(),
                writes: old(self)@.writes.push(old(self)@.pending),
            }),
            final(self).capacity == old(self).capacity,
    {
        let mut outgoing: Vec<u8> = Vec::new();
        core::mem::swap(&mut outgoing, &mut self.buffer);
        self.writes.push(outgoing);
        proof {
            assert(self.writes@.map_values(|w: Vec<u8>| w@) =~= old(self)@.writes.push(
                old(self)@.pending,
            ));
        }
    }

    /// Appends `data`, writing the buffer out whenever it fills.
    pub fn write(&mut self, data: &[u8])
        requires
            old(self).wf(),
        ensures
            final(self).wf(),
            final(self)@ == sb_write(old(self)@, data@),
    {
        let mut i: usize = 0;
        while i < data.len()
            invariant
                i <= data@.len(),
                self.wf(),
                self@ == sb_write(old(self)@, data@.subrange(0, i as int)),
            decreases data@.len() - i,
        {
            let ghost pre = self@;
            if self.buffer.len() == self.capacity {
                self.push_out();
            }
            self.buffer.push(data[i]);
            i = i + 1;
            proof {
                assert(self@ == sb_push_byte(pre, data@[i - 1]));
                lemma_sb_write_snoc(old(self)@, data@.subrange(0, i - 1), data@[i - 1]);
                assert(data@.subrange(0, i - 1).push(data@[i - 1]) =~= data@.subrange(0, i as int));
            }
        }
        proof {
            assert(data@.subrange(0, data@.len() as int) =~= data@);
        }
    }

    /// Writes the pending bytes out, leaving the buffer empty.
    pub fn flush(&mut self)
        requires
            old(self).wf(),
        ensures
            final(self).wf(),
            final(self)@ == sb_flush(old(self)@),
    {
        self.push_out();
    }

    /// Hands over the recorded underlying writes, in order, and forgets
    /// them.  The owner of the real stream performs each in turn.
    pub fn take_writes(&mut self) -> (r: Vec<Vec<u8>>)
        ensures
            r@.map_values(|w: Vec<u8>| w@) == old(self)@.writes,
            final(self)@ == (SinkView { writes: Seq::empty(), ..old(self)@ }),
            old(self).wf() ==> final(self).wf(),
    {
        let mut outgoing: Vec<Vec<u8>> = Vec::new();
        core::mem::swap(&mut outgoing, &mut self.writes);
        proof {
            assert(self.writes@.map_values(|w: Vec<u8>| w@) =~= Seq::<Seq<u8>>::empty());
        }
        outgoing
    }
}

/// Concatenation over one more write.
proof fn lemma_concat_push(ws: Seq<Seq<u8>>, w: Seq<u8>)
    ensures
        concat_writes(ws.push(w)) == concat_writes(ws) + w,
{
    assert(ws.push(w).drop_last() =~= ws);
    assert(ws.push(w).last() == w);
}

/// Every recorded write has exactly `c` bytes.
pub open spec fn writes_full(ws: Seq<Seq<u8>>, c: nat) -> bool {
    forall|i: int| 0 <= i < ws.len() ==> (#[trigger] ws[i]).len() == c
}

/// Writing never loses or reorders a byte: the recorded writes plus the
/// pending bytes always equal everything written so far.
pub proof fn lemma_sb_write_content(s: SinkView, data: Seq<u8>)
    ensures
        ({
            let w = sb_write(s, data);
            &&& concat_writes(w.writes) + w.pending == concat_writes(s.writes) + s.pending + data
            &&& w.capacity == s.capacity
        }),
    decreases data.len(),
{
    if data.len() > 0 {
        let stepped = sb_push_byte(s, data[0]);
        lemma_sb_write_content(stepped, data.skip(1));
        if s.pending.len() == s.capacity {
            lemma_concat_push(s.writes, s.pending);
            assert(concat_writes(stepped.writes) + stepped.pending =~= concat_writes(s.writes)
                + s.pending + seq![data[0]]);
        } else {
            assert(concat_writes(stepped.writes) + stepped.pending =~= concat_writes(s.writes)
                + s.pending + seq![data[0]]);
        }
        assert((concat_writes(s.writes) + s.pending + seq![data[0]]) + data.skip(1)
            =~= concat_writes(s.writes) + s.pending + data);
    } else {
        assert(concat_writes(s.writes) + s.pending + data =~= concat_writes(s.writes) + s.pending);
    }
}

/// Writing into a well-formed sink keeps it well formed, fills every
/// intermediate write to capacity, and, once anything was written, leaves at
/// least one pending byte.
proof fn lemma_sb_write_shape(s: SinkView, data: Seq<u8>)
    requires
        s.capacity >= 1,
        s.pending.len() <= s.capacity,
        writes_full(s.writes, s.capacity),
    ensures
        ({
            let w = sb_write(s, data);
            &&& w.pending.len() <= s.capacity
            &&& writes_full(w.writes, s.capacity)
            &&& data.len() >= 1 ==> w.pending.len() >= 1
            &&& data.len() == 0 ==> w == s
        }),
    decreases data.len(),
{
    if data.len() > 0 {
        let stepped = sb_push_byte(s, data[0]);
        if s.pending.len() == s.capacity {
            assert(writes_full(stepped.writes, s.capacity)) by {
                assert(forall|i: int|
                    0 <= i < s.writes.len() ==> stepped.writes[i] == #[trigger] s.writes[i]);
                assert(stepped.writes.last() == s.pending);
            }
        }
        lemma_sb_write_shape(stepped, data.skip(1));
        if data.skip(1).len() == 0 {
            assert(sb_write(s, data) == stepped);
        }
    }
}

/// The concatenation of full writes has their combined length.
proof fn lemma_concat_full_len(ws: Seq<Seq<u8>>, c: nat)
    requires
        writes_full(ws, c),
    ensures
        concat_writes(ws).len() == ws.len() * c,
    decreases ws.len(),
{
    if ws.len() == 0 {
        assert(0 * c == 0) by (nonlinear_arith);
    } else {
        assert(writes_full(ws.drop_last(), c)) by {
            assert(forall|i: int|
                0 <= i < ws.len() - 1 ==> ws.drop_last()[i] == #[trigger] ws[i]);
        }
        lemma_concat_full_len(ws.drop_last(), c);
        assert(ws.last().len() == c);
        assert((ws.len() - 1) * c + c == ws.len() * c) by (nonlinear_arith);
    }
}

/// Writing `N >= 1` bytes through a fresh buffer of capacity `C` and then
/// flushing performs exactly `(N + C - 1) / C` underlying writes, whose
/// concatenation is the original bytes in order.
pub proof fn lemma_buffered_write_count(capacity: nat, data: Seq<u8>)
    requires
        capacity >= 1,
        data.len() >= 1,
    ensures
        ({
            let start = SinkView { capacity, pending: Seq::empty(), writes: Seq::empty() };
            let finished = sb_flush(sb_write(start, data));
            &&& finished.writes.len() == (data.len() + capacity - 1) as int / (capacity as int)
            &&& concat_writes(finished.writes) == data
            &&& finished.pending.len() == 0
        }),
{
    let start = SinkView { capacity, pending: Seq::empty(), writes: Seq::empty() };
    let written = sb_write(start, data);
    let finished = sb_flush(written);
    lemma_sb_write_content(start, data);
    lemma_sb_write_shape(start, data);
    assert(concat_writes(start.writes) == Seq::<u8>::empty());
    assert(concat_writes(start.writes) + start.pending + data =~= data);
    lemma_concat_push(written.writes, written.pending);
    assert(concat_writes(finished.writes) == concat_writes(written.writes) + written.pending);
    assert(concat_writes(finished.writes) == data);
    lemma_concat_full_len(written.writes, capacity);
    let full_count = written.writes.len() as int;
    let pending_len = written.pending.len() as int;
    assert(full_count * (capacity as int) + pending_len == data.len());
    assert(1 <= pending_len <= capacity);
    assert((full_count + 1) * (capacity as int) == full_count * (capacity as int) + capacity)
        by (nonlinear_arith);
    assert(data.len() + capacity - 1 == (full_count + 1) * (capacity as int) + (pending_len - 1));
    vstd::arithmetic::div_mod::lemma_fundamental_div_mod_converse(
        data.len() + capacity - 1,
        capacity as int,
        full_count + 1,
        pending_len - 1,
    );
    assert(finished.writes.len() == full_count + 1);
}

} // verus!
