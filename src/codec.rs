use vstd::prelude::*;

use crate::error::RemoteError;
use crate::table::{pair_view, table_of_columns, ColumnsView, Table};

verus! {

/// The bytes of a chunk sequence, in arrival order.
pub open spec fn flatten(chunks: Seq<Seq<u8>>) -> Seq<u8>
    decreases chunks.len(),
{
    if chunks.len() == 0 {
        Seq::empty()
    } else {
        flatten(chunks.drop_last()) + chunks.last()
    }
}

/// The view of a list of byte chunks.
pub open spec fn chunks_view(chunks: Seq<Vec<u8>>) -> Seq<Seq<u8>> {
    chunks.map_values(|c: Vec<u8>| c@)
}

/// Accumulates the byte chunks of one streamed payload until the stream ends.
#[derive(Debug)]
pub struct Reassembler {
    buf: Vec<u8>,
}

impl View for Reassembler {
    type V = Seq<u8>;

    closed spec fn view(&self) -> Seq<u8> {
        self.buf@
    }
}

impl Reassembler {
    /// A reassembler that has seen no chunk.
    pub fn new() -> (r: Reassembler)
        ensures
            r@ == Seq::<u8>::empty(),
    {
        Reassembler { buf: Vec::new() }
    }

    /// Appends one chunk after the bytes already held.
    pub fn push_chunk(&mut self, chunk: &[u8])
        requires
            old(self)@.len() + chunk@.len() <= usize::MAX,
        ensures
            final(self)@ == old(self)@ + chunk@,
    {
        let n = chunk.len();
        let mut i: usize = 0;
        while i < n
            invariant
                n == chunk@.len(),
                i <= n,
                self@ == old(self)@ + chunk@.subrange(0, i as int),
            decreases n - i,
        {
            self.buf.push(chunk[i]);
            i = i + 1;
            proof {
                assert(self@ =~= old(self)@ + chunk@.subrange(0, i as int));
            }
        }
        proof {
            assert(chunk@.subrange(0, n as int) =~= chunk@);
        }
    }

    /// The number of bytes held.
    pub fn len(&self) -> (r: usize)
        ensures
            r == self@.len(),
    {
        self.buf.len()
    }

    /// Ends the stream and hands back every byte received.
    pub fn into_bytes(self) -> (r: Vec<u8>)
        ensures
            r@ == self@,
    {
        self.buf
    }
}

/// Joins the chunks of a finished stream into one buffer.
pub fn concat_chunks(chunks: &Vec<Vec<u8>>) -> (r: Option<Vec<u8>>)
    ensures
        match r {
            Some(b) => b@ == flatten(chunks_view(chunks@)),
            None => flatten(chunks_view(chunks@)).len() > usize::MAX,
        },
{
    let mut acc = Reassembler::new();
    let n = chunks.len();
    let mut i: usize = 0;
    while i < n
        invariant
            n == chunks@.len(),
            i <= n,
            acc@ == flatten(chunks_view(chunks@.subrange(0, i as int))),
        decreases n - i,
    {
        proof {
            assert(chunks_view(chunks@.subrange(0, i + 1)).drop_last() =~= chunks_view(
                chunks@.subrange(0, i as int),
            ));
        }
        if chunks[i].len() > usize::MAX - acc.len() {
            proof {
                let cv = chunks_view(chunks@);
                assert(cv.subrange(0, i + 1) =~= chunks_view(chunks@.subrange(0, i + 1)));
                assert(chunks_view(chunks@.subrange(0, i + 1)).last() == chunks@[i as int]@);
                lemma_flatten_prefix_len(cv, i as int + 1);
            }
            return None;
        }
        acc.push_chunk(chunks[i].as_slice());
        i = i + 1;
    }
    proof {
        assert(chunks@.subrange(0, n as int) =~= chunks@);
    }
    Some(acc.into_bytes())
}

/// A prefix of the chunks never holds more bytes than all of them.
pub proof fn lemma_flatten_prefix_len(chunks: Seq<Seq<u8>>, k: int)
    requires
        0 <= k <= chunks.len(),
    ensures
        flatten(chunks.subrange(0, k)).len() <= flatten(chunks).len(),
    decreases chunks.len(),
{
    if k < chunks.len() {
        assert(chunks.drop_last().subrange(0, k) =~= chunks.subrange(0, k));
        lemma_flatten_prefix_len(chunks.drop_last(), k);
    } else {
        assert(chunks.subrange(0, k) =~= chunks);
    }
}

/// `bincode::ErrorKind`, why a payload did not decode; carried opaquely.
#[verifier::external_type_specification]
#[verifier::external_body]
pub struct ExBincodeErrorKind(bincode::ErrorKind);

/// What bincode's default encoding of a list of `(String, Vec<u64>)` pairs
/// decodes to from the given bytes, if they hold one.
pub uninterp spec fn table_wire(b: Seq<u8>) -> Option<Seq<(Seq<char>, Seq<u64>)>>;

/// What bincode's default encoding of a `(u64, u64, Vec<u8>)` triple decodes
/// to from the given bytes, if they hold one.
pub uninterp spec fn frame_wire(b: Seq<u8>) -> Option<(u64, u64, Seq<u8>)>;

/// Relies on `bincode::deserialize`: decodes the column list of a table; the
/// result depends on the bytes alone.
#[verifier::external_body]
fn deserialize_columns(b: &[u8]) -> (r: Result<Vec<(String, Vec<u64>)>, Box<bincode::ErrorKind>>)
    ensures
        r is Ok <==> table_wire(b@) is Some,
        r matches Ok(cols) ==> table_wire(b@) == Some(
            cols@.map_values(|c: (String, Vec<u64>)| pair_view(c)),
        ),
{
    bincode::deserialize::<Vec<(String, Vec<u64>)>>(b)
}

/// Relies on `bincode::deserialize`: decodes the index, timestamp and entity
/// snapshot of a replay frame; the result depends on the bytes alone.
#[verifier::external_body]
fn deserialize_frame(b: &[u8]) -> (r: Result<(u64, u64, Vec<u8>), Box<bincode::ErrorKind>>)
    ensures
        r is Ok <==> frame_wire(b@) is Some,
        r matches Ok(f) ==> frame_wire(b@) == Some((f.0, f.1, f.2@)),
{
    bincode::deserialize::<(u64, u64, Vec<u8>)>(b)
}

/// The table that a reassembled payload decodes to, or why it decodes to none.
pub open spec fn decode_table_spec(b: Seq<u8>) -> Result<ColumnsView, RemoteError> {
    match table_wire(b) {
        None => Err(RemoteError::Decode),
        Some(cols) => table_of_columns(cols),
    }
}

/// Decodes a reassembled dataset payload. Undecodable bytes give
/// [`RemoteError::Decode`] and nothing else.
pub fn decode_table(b: &[u8]) -> (r: Result<Table, RemoteError>)
    ensures
        match (r, decode_table_spec(b@)) {
            (Ok(t), Ok(v)) => t@ == v,
            (Err(e), Err(f)) => e == f,
            _ => false,
        },
{
    match deserialize_columns(b) {
        Ok(cols) => Table::from_columns(cols),
        Err(_) => Err(RemoteError::Decode),
    }
}

/// One snapshot of the replayed world.
#[derive(Clone, Debug)]
pub struct Frame {
    /// Position of the frame in its session's timeline.
    pub frame_index: u64,
    /// Timestamp, as the bit pattern of a floating-point second count.
    pub timestamp_bits: u64,
    /// The encoded entity state, carried unread.
    pub snapshot: Vec<u8>,
}

/// The frame that a reassembled payload decodes to, if any.
pub open spec fn decode_frame_spec(b: Seq<u8>) -> Option<(u64, u64, Seq<u8>)> {
    frame_wire(b)
}

/// Decodes a reassembled replay frame.
pub fn decode_frame(b: &[u8]) -> (r: Result<Frame, RemoteError>)
    ensures
        match (r, decode_frame_spec(b@)) {
            (Ok(f), Some(w)) => f.frame_index == w.0 && f.timestamp_bits == w.1 && f.snapshot@ == w.2,
            (Err(e), None) => e == RemoteError::Decode,
            _ => false,
        },
{
    match deserialize_frame(b) {
        Ok((frame_index, timestamp_bits, snapshot)) => Ok(Frame { frame_index, timestamp_bits, snapshot }),
        Err(_) => Err(RemoteError::Decode),
    }
}

} // verus!
