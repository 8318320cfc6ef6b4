//! The identity of a data fragment and the payload that carries it.

use crate::batch::Batch;
use vstd::prelude::*;

verus! {

/// Names a window: the query and the shuffle partition.
pub type WindowId = (String, usize);

/// The window identity as a mathematical value.
pub open spec fn window_key(id: WindowId) -> (Seq<char>, usize) {
    (id.0@, id.1)
}

/// Names one data fragment within one window of one query.
#[derive(Debug)]
pub struct Uuid {
    /// The query execution that all fragments and stages share.
    pub qid: String,
    /// The position of this fragment in its window, counted from 1.
    pub seq_num: usize,
    /// The number of fragments that the window expects.
    pub seq_len: usize,
    /// The shuffle partition that the fragment belongs to.
    pub shuffle_id: usize,
}

impl Uuid {
    /// The fragment lies inside its window: `1 <= seq_num <= seq_len`.
    pub open spec fn wf(&self) -> bool {
        1 <= self.seq_num <= self.seq_len
    }

    /// The window that the fragment belongs to.
    pub open spec fn window(&self) -> (Seq<char>, usize) {
        (self.qid@, self.shuffle_id)
    }

    /// Builds the identity of fragment `seq_num` of `seq_len`, or nothing
    /// where the position lies outside the window.
    pub fn new(qid: String, seq_num: usize, seq_len: usize, shuffle_id: usize) -> (r: Option<Uuid>)
        ensures
            r is Some <==> 1 <= seq_num <= seq_len,
            r matches Some(u) ==> u.qid == qid && u.seq_num == seq_num && u.seq_len == seq_len
                && u.shuffle_id == shuffle_id && u.wf(),
    {
        if 1 <= seq_num && seq_num <= seq_len {
            Some(Uuid { qid, seq_num, seq_len, shuffle_id })
        } else {
            None
        }
    }

    /// The window identity of the fragment.
    pub fn get_window_id(&self) -> (id: WindowId)
        ensures
            window_key(id) == self.window(),
    {
        (self.qid.clone(), self.shuffle_id)
    }
}

/// One fragment as it arrives from the stage before: its identity and its
/// batches for the first and the second relation.
#[derive(Debug)]
pub struct Payload {
    /// The identity of the fragment.
    pub uuid: Uuid,
    /// The batches for the first relation.
    pub data: Vec<Batch>,
    /// The batches for the second relation; empty for a single input.
    pub data2: Vec<Batch>,
}

impl Payload {
    /// The window identity of the fragment.
    pub fn get_window_id(&self) -> (id: WindowId)
        ensures
            window_key(id) == self.uuid.window(),
    {
        self.uuid.get_window_id()
    }

    /// Hands out the batches of both relations.
    pub fn to_record_batch(self) -> (r: (Vec<Batch>, Vec<Batch>))
        ensures
            r.0 == self.data,
            r.1 == self.data2,
    {
        (self.data, self.data2)
    }
}

} // verus!
