//! A sliding window for the Go-Back-N and selective-reject protocols.
//!
//! The window holds the frames that were sent and not yet acknowledged,
//! each with the timer that resends it. The timers are of a type the window
//! does not look into: elements taken out of the window are handed back so
//! that their timers can be stopped.

use crate::frame::Frame;
use vstd::prelude::*;
use std::collections::VecDeque;

verus! {

/// Defines the error type for the window
#[derive(Debug, PartialEq, Eq, Structural)]
pub enum WindowError {
    /// The window is full and cannot accept any more frames
    Full,
}

/// A sliding window: a deque of frames with their timers, of bounded size,
/// and the flags of the connection.
pub struct Window<T> {
    /// The frames in the window, oldest first, each with its timer
    pub frames: VecDeque<(Frame, T)>,
    /// Flag to resend all frames in the window
    pub resend_all: bool,
    /// Flag to indicate if the connection is established
    pub is_connected: bool,
    /// Flag to indicate if the window is using the selective reject protocol
    pub srej: bool,
    /// Flag to indicate if a disconnect request was sent
    pub sent_disconnect_request: bool,
}

/// Whether the element at index `i` is the first one whose frame has number
/// `num`.
pub open spec fn spec_is_first_index<T>(frames: Seq<(Frame, T)>, num: u8, i: int) -> bool {
    &&& 0 <= i < frames.len()
    &&& frames[i].0.num == num
    &&& forall|j: int| 0 <= j < i ==> (#[trigger] frames[j]).0.num != num
}

/// Whether some element has a frame of number `num`.
pub open spec fn spec_has_num<T>(frames: Seq<(Frame, T)>, num: u8) -> bool {
    exists|i: int| 0 <= i < frames.len() && (#[trigger] frames[i]).0.num == num
}

/// The index of the first element whose frame has number `num`.
pub open spec fn spec_first_index<T>(frames: Seq<(Frame, T)>, num: u8) -> int {
    choose|i: int| spec_is_first_index(frames, num, i)
}

/// How many elements `pop_until` takes from the front of the window.
pub open spec fn spec_pop_count<T>(frames: Seq<(Frame, T)>, num: u8, inclusive: bool) -> int {
    if inclusive {
        spec_first_index(frames, num) + 1
    } else {
        spec_first_index(frames, num)
    }
}

/// The first index, when some element has the number, is the one `choose`
/// picks.
pub proof fn lemma_first_index_unique<T>(frames: Seq<(Frame, T)>, num: u8, i: int)
    requires
        spec_is_first_index(frames, num, i),
    ensures
        spec_first_index(frames, num) == i,
        spec_has_num(frames, num),
{
    let j = spec_first_index(frames, num);
    assert(spec_is_first_index(frames, num, j));
    if j < i {
        assert(frames[j].0.num != num);
    }
    if i < j {
        assert(frames[i].0.num != num);
    }
}

impl<T> Window<T> {
    /// Number of bits used for numbering frames
    pub const NUMBERING_BITS: usize = 3;
    /// The number of frame numbers: frames are numbered modulo this number
    pub const MAX_FRAME_NUM: u8 = 8;
    /// The maximum time in seconds to wait before a frame is considered lost
    pub const FRAME_TIMEOUT: u64 = 3;
    /// The maximum number of frames in the window for the go-back-n protocol
    pub const SIZE_GO_BACK_N: usize = 7;
    /// The maximum number of frames in the window for the selective reject protocol
    pub const SIZE_SREJ: usize = 4;

    /// The maximum number of frames the window may hold.
    pub open spec fn spec_max_size(&self) -> usize {
        if self.srej {
            4
        } else {
            7
        }
    }

    /// Every frame in the window holds its stuffed bytes.
    pub open spec fn wf(&self) -> bool {
        forall|i: int|
            0 <= i < self.frames@.len() ==> (#[trigger] self.frames@[i]).0.content_stuffed is Some
    }

    /// The flags of two windows are equal.
    pub open spec fn same_flags(&self, other: &Self) -> bool {
        &&& self.resend_all == other.resend_all
        &&& self.is_connected == other.is_connected
        &&& self.srej == other.srej
        &&& self.sent_disconnect_request == other.sent_disconnect_request
    }

    /// Create a new window: empty, with all flags unset.
    pub fn new() -> (window: Self)
        ensures
            window.frames@ == Seq::<(Frame, T)>::empty(),
            !window.resend_all,
            !window.is_connected,
            !window.srej,
            !window.sent_disconnect_request,
    {
        Window {
            frames: VecDeque::with_capacity(Self::SIZE_GO_BACK_N),
            resend_all: false,
            is_connected: false,
            srej: false,
            sent_disconnect_request: false,
        }
    }

    /// Get the maximum number of frames that can be in the window: 4 with
    /// selective reject, 7 with go-back-n.
    pub fn get_max_size(&self) -> (size: usize)
        ensures
            size == self.spec_max_size(),
    {
        if self.srej {
            Self::SIZE_SREJ
        } else {
            Self::SIZE_GO_BACK_N
        }
    }

    /// Push a frame with its timer to the back of the window.
    ///
    /// # Errors
    /// If the window is full, `WindowError::Full` is returned and the window
    /// is left as it was.
    pub fn push(&mut self, frame: Frame, timer: T) -> (result: Result<(), WindowError>)
        requires
            frame.content_stuffed is Some,
        ensures
            final(self).same_flags(old(self)),
            old(self).wf() ==> final(self).wf(),
            old(self).frames@.len() == old(self).spec_max_size() ==> {
                &&& result == Err::<(), WindowError>(WindowError::Full)
                &&& final(self).frames@ == old(self).frames@
            },
            old(self).frames@.len() <= old(self).spec_max_size() ==> final(self).frames@.len()
                <= final(self).spec_max_size(),
            old(self).frames@.len() != old(self).spec_max_size() ==> {
                &&& result is Ok
                &&& final(self).frames@ == old(self).frames@.push((frame, timer))
            },
    {
        if self.frames.len() == self.get_max_size() {
            return Err(WindowError::Full);
        }
        self.frames.push_back((frame, timer));
        Ok(())
    }

    /// Take the oldest frame, with its timer, out of the window.
    ///
    /// Returns `None` if the window is empty.
    pub fn pop_front(&mut self) -> (popped: Option<(Frame, T)>)
        ensures
            final(self).same_flags(old(self)),
            old(self).wf() ==> final(self).wf(),
            old(self).frames@.len() == 0 ==> popped is None && final(self).frames@ == old(
                self,
            ).frames@,
            old(self).frames@.len() > 0 ==> popped == Some(old(self).frames@[0])
                && final(self).frames@ == old(self).frames@.subrange(
                1,
                old(self).frames@.len() as int,
            ),
    {
        self.frames.pop_front()
    }

    /// Check if the window is full
    pub fn is_full(&self) -> (full: bool)
        ensures
            full == (self.frames@.len() == self.spec_max_size()),
    {
        self.frames.len() == self.get_max_size()
    }

    /// Check if the window contains a frame with the given number
    pub fn contains(&self, num: u8) -> (found: bool)
        ensures
            found == spec_has_num(self.frames@, num),
    {
        match self.position(num) {
            Some(_) => true,
            None => false,
        }
    }

    /// Check if the window is empty
    pub fn is_empty(&self) -> (empty: bool)
        ensures
            empty == (self.frames@.len() == 0),
    {
        self.frames.len() == 0
    }

    /// The index of the first frame with the given number.
    pub(crate) fn position(&self, num: u8) -> (index: Option<usize>)
        ensures
            match index {
                Some(i) => spec_is_first_index(self.frames@, num, i as int) && spec_first_index(
                    self.frames@,
                    num,
                ) == i,
                None => !spec_has_num(self.frames@, num),
            },
    {
        let mut i: usize = 0;
        while i < self.frames.len()
            invariant
                i <= self.frames@.len(),
                forall|j: int| 0 <= j < i ==> (#[trigger] self.frames@[j]).0.num != num,
            decreases self.frames@.len() - i,
        {
            if self.frames[i].0.num == num {
                proof {
                    lemma_first_index_unique(self.frames@, num, i as int);
                }
                return Some(i);
            }
            i += 1;
        }
        None
    }

    /// Take the first frame with the given number, with its timer, out of
    /// the window.
    ///
    /// Returns `None` if no frame has that number.
    pub fn pop(&mut self, num: u8) -> (popped: Option<(Frame, T)>)
        ensures
            final(self).same_flags(old(self)),
            old(self).wf() ==> final(self).wf(),
            match popped {
                Some(element) => {
                    let i = spec_first_index(old(self).frames@, num);
                    &&& spec_is_first_index(old(self).frames@, num, i)
                    &&& element == old(self).frames@[i]
                    &&& final(self).frames@ == old(self).frames@.remove(i)
                },
                None => !spec_has_num(old(self).frames@, num) && final(self).frames@ == old(
                    self,
                ).frames@,
            },
    {
        match self.position(num) {
            Some(i) => self.frames.remove(i),
            None => None,
        }
    }

    /// Take the frames, with their timers, out of the front of the window
    /// until the first frame with the given number; with `inclusive`, that
    /// frame too.
    ///
    /// Returns the elements taken, oldest first, or `None` if no frame has
    /// that number (the window is then left as it was).
    pub fn pop_until(&mut self, num: u8, inclusive: bool) -> (popped: Option<Vec<(Frame, T)>>)
        ensures
            final(self).same_flags(old(self)),
            old(self).wf() ==> final(self).wf(),
            match popped {
                Some(elements) => {
                    let k = spec_pop_count(old(self).frames@, num, inclusive);
                    &&& spec_has_num(old(self).frames@, num)
                    &&& elements@ == old(self).frames@.take(k)
                    &&& final(self).frames@ == old(self).frames@.skip(k)
                    &&& elements@ + final(self).frames@ == old(self).frames@
                },
                None => !spec_has_num(old(self).frames@, num) && final(self).frames@ == old(
                    self,
                ).frames@,
            },
    {
        let i: usize = match self.position(num) {
            Some(i) => i,
            None => return None,
        };
        let len: usize = self.frames.len();
        assert(i < len);
        let count: usize = if inclusive {
            i + 1
        } else {
            i
        };
        let ghost start = self.frames@;
        let mut drained: Vec<(Frame, T)> = Vec::new();
        let mut n: usize = 0;
        while n < count
            invariant
                count <= start.len(),
                n <= count,
                drained@ == start.take(n as int),
                self.frames@ == start.skip(n as int),
                self.same_flags(old(self)),
                old(self).frames@ == start,
            decreases count - n,
        {
            match self.frames.pop_front() {
                Some(element) => {
                    drained.push(element);
                },
                None => {},
            }
            assert(start.take(n + 1) == start.take(n as int).push(start[n as int]));
            assert(start.skip(n + 1) == start.skip(n as int).subrange(1, start.skip(n as int).len() as int));
            n += 1;
        }
        assert(drained@ + self.frames@ == start);
        Some(drained)
    }

    /// Take all the frames, with their timers, out of the window.
    pub fn clear(&mut self) -> (popped: Vec<(Frame, T)>)
        ensures
            final(self).same_flags(old(self)),
            final(self).frames@ == Seq::<(Frame, T)>::empty(),
            popped@ == old(self).frames@,
    {
        let ghost start = self.frames@;
        let mut drained: Vec<(Frame, T)> = Vec::new();
        while self.frames.len() > 0
            invariant
                drained@ + self.frames@ == start,
                self.same_flags(old(self)),
            decreases self.frames@.len(),
        {
            let ghost before = self.frames@;
            match self.frames.pop_front() {
                Some(element) => {
                    drained.push(element);
                    assert(drained@ + self.frames@ == start) by {
                        assert(before == seq![element] + self.frames@);
                    }
                },
                None => {},
            }
        }
        assert(drained@ + self.frames@ == drained@);
        drained
    }
}

impl<T> Default for Window<T> {
    fn default() -> (window: Self)
        ensures
            window.frames@ == Seq::<(Frame, T)>::empty(),
            !window.resend_all,
            !window.is_connected,
            !window.srej,
            !window.sent_disconnect_request,
    {
        Self::new()
    }
}

} // verus!
