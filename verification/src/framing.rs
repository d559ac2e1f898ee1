//! The byte framer: slices one raw request buffer (a fixed-size read with a
//! zero-padded tail) into logical lines and, when a `{` starts a JSON body,
//! a final body segment.
//!
//! The scanner has three states. While scanning a line, a CRLF pair ends the
//! line and a `{` starts body capture. After a line ends, the next ordinary
//! byte starts a new line, while further CR or LF bytes are skipped. Body
//! capture takes everything from the `{` up to, but not including, the last
//! byte of the buffer, and framing stops there.

use vstd::prelude::*;
use crate::byteseq::{seq_views, bytes_range, clone_bytes};

verus! {

/// The scanner's state: inside a line, just after a line ended, or capturing
/// the JSON body.
#[derive(Clone, Copy)]
pub enum FrameState {
    FindingSpace,
    SpaceFound,
    Json,
}

/// One scanner step at position `i`, carrying the current line `cur` and the
/// segments `out` emitted so far; yields the final segment sequence.
pub open spec fn spec_frame(
    b: Seq<u8>,
    i: int,
    st: FrameState,
    cur: Seq<u8>,
    out: Seq<Seq<u8>>,
) -> Seq<Seq<u8>>
    decreases b.len() - i,
{
    if i < 0 || i >= b.len() {
        out
    } else {
        match st {
            FrameState::FindingSpace => {
                if b[i] == 13 && i + 1 < b.len() && b[i + 1] == 10 {
                    spec_frame(b, i + 1, FrameState::SpaceFound, cur, out)
                } else if b[i] == 123 {
                    spec_frame(b, i + 1, FrameState::Json, cur, out)
                } else {
                    spec_frame(b, i + 1, FrameState::FindingSpace, cur.push(b[i]), out)
                }
            },
            FrameState::SpaceFound => {
                let out2 = if cur.len() > 0 {
                    out.push(cur)
                } else {
                    out
                };
                if b[i] != 13 && b[i] != 10 {
                    if b[i] == 123 {
                        spec_frame(b, i + 1, FrameState::Json, cur.push(b[i]), out2)
                    } else {
                        spec_frame(b, i + 1, FrameState::FindingSpace, cur.push(b[i]), out2)
                    }
                } else {
                    spec_frame(b, i + 1, FrameState::SpaceFound, Seq::empty(), out2)
                }
            },
            FrameState::Json => {
                if i >= 1 {
                    out.push(b.subrange(i - 1, b.len() - 1))
                } else {
                    out
                }
            },
        }
    }
}

/// The segments the framer produces for a whole buffer.
pub open spec fn spec_process(b: Seq<u8>) -> Seq<Seq<u8>> {
    spec_frame(b, 0, FrameState::FindingSpace, Seq::empty(), Seq::empty())
}

/// Frames a raw request buffer into logical line segments, the last of them
/// being the body segment when a `{` began one.
pub fn process_buffer(buffer: &Vec<u8>) -> (r: Vec<Vec<u8>>)
    ensures
        seq_views(r@) == spec_process(buffer@),
{
    let n = buffer.len();
    let mut out: Vec<Vec<u8>> = Vec::new();
    let mut cur: Vec<u8> = Vec::new();
    let mut st = FrameState::FindingSpace;
    let mut i: usize = 0;
    proof {
        assert(seq_views(out@) =~= Seq::<Seq<u8>>::empty());
        assert(cur@ =~= Seq::<u8>::empty());
    }
    while i < n
        invariant
            i <= n,
            n == buffer@.len(),
            !(st is Json),
            spec_process(buffer@) == spec_frame(buffer@, i as int, st, cur@, seq_views(out@)),
        decreases n - i,
    {
        match st {
            FrameState::FindingSpace => {
                let b = buffer[i];
                if b == 13 && i + 1 < n && buffer[i + 1] == 10 {
                    st = FrameState::SpaceFound;
                } else if b == 123 {
                    proof {
                        assert(spec_frame(buffer@, i as int, st, cur@, seq_views(out@))
                            == spec_frame(buffer@, i + 1, FrameState::Json, cur@, seq_views(out@)));
                    }
                    if i + 1 < n {
                        let body = bytes_range(buffer.as_slice(), i, n - 1);
                        proof {
                            assert(seq_views(out@.push(body)) =~= seq_views(out@).push(body@));
                        }
                        out.push(body);
                    }
                    return out;
                } else {
                    cur.push(b);
                }
            },
            FrameState::SpaceFound => {
                if cur.len() > 0 {
                    let flushed = clone_bytes(&cur);
                    proof {
                        assert(seq_views(out@.push(flushed)) =~= seq_views(out@).push(flushed@));
                    }
                    out.push(flushed);
                }
                let b = buffer[i];
                if b != 13 && b != 10 {
                    cur.push(b);
                    if b == 123 {
                        proof {
                            assert(spec_frame(buffer@, i + 1, FrameState::Json, cur@, seq_views(out@))
                                == if i + 1 < n {
                                    seq_views(out@).push(buffer@.subrange(i as int, n - 1))
                                } else {
                                    seq_views(out@)
                                });
                        }
                        if i + 1 < n {
                            let body = bytes_range(buffer.as_slice(), i, n - 1);
                            proof {
                                assert(seq_views(out@.push(body)) =~= seq_views(out@).push(body@));
                            }
                            out.push(body);
                        }
                        return out;
                    } else {
                        st = FrameState::FindingSpace;
                    }
                } else {
                    cur.clear();
                }
            },
            FrameState::Json => {
                proof {
                    assert(false);
                }
            },
        }
        i += 1;
    }
    out
}

} // verus!
