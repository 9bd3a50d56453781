//! The parent's end of the error channel: children write framed messages to
//! one shared pipe, and the parent decodes them in arrival order.

use crate::fdio::{decode_frames, frame_complete, frame_end, leftover, read_usize};
use crate::fdio::{lemma_decode_append, le_value};
use crate::res::{lossy_utf8, utf8_lossy};
use vstd::prelude::*;

verus! {

/// Why the error channel cannot be read.
#[derive(Clone, Copy, Debug, PartialEq, Eq, Structural)]
pub enum ChannelError {
    /// The channel ended inside a frame.
    Truncated,
}

/// The messages that frames carry, decoded lossily as UTF-8.
pub open spec fn messages_of(frames: Seq<Seq<u8>>) -> Seq<Seq<char>> {
    frames.map_values(|f: Seq<u8>| lossy_utf8(f))
}

/// The views of a sequence of strings.
pub open spec fn views(v: Seq<String>) -> Seq<Seq<char>> {
    v.map_values(|s: String| s@)
}

/// What taking `chunk` does to the channel's reader: bytes are appended to
/// what was received and decoded into messages; no bytes end the channel,
/// which must then hold no incomplete frame.
pub open spec fn read_spec(before: ErrPipeRead, after: ErrPipeRead, chunk: Seq<u8>, r: Result<bool, ChannelError>) -> bool {
    &&& after.wf()
    &&& after.fd_spec() == before.fd_spec()
    &&& chunk.len() == 0 ==> after.received() == before.received()
    &&& chunk.len() > 0 ==> after.received() == before.received() + chunk
    &&& after.messages() == messages_of(decode_frames(after.received()))
    &&& r == (if chunk.len() > 0 {
        Ok(false)
    } else if leftover(before.received()).len() == 0 {
        Ok(true)
    } else {
        Err(ChannelError::Truncated)
    })
}

/// The read end of the error channel, with the messages received so far.
pub struct ErrPipeRead {
    fd: i32,
    pending: Vec<u8>,
    errs: Vec<String>,
    received: Ghost<Seq<u8>>,
}

impl ErrPipeRead {
    /// Every byte received on the channel so far.
    pub closed spec fn received(&self) -> Seq<u8> {
        self.received@
    }

    /// The messages decoded so far.
    pub closed spec fn messages(&self) -> Seq<Seq<char>> {
        views(self.errs@)
    }

    pub closed spec fn fd_spec(&self) -> i32 {
        self.fd
    }

    pub closed spec fn wf(&self) -> bool {
        &&& self.pending@ == leftover(self.received@)
        &&& views(self.errs@) == messages_of(decode_frames(self.received@))
    }

    /// Starts reading the channel's read end `fd`.
    pub fn new(fd: i32) -> (r: ErrPipeRead)
        ensures
            r.wf(),
            r.fd_spec() == fd,
            r.received() == Seq::<u8>::empty(),
            r.messages() == Seq::<Seq<char>>::empty(),
    {
        let r = ErrPipeRead { fd, pending: Vec::new(), errs: Vec::new(), received: Ghost(Seq::empty()) };
        assert(!frame_complete(Seq::<u8>::empty()));
        assert(views(r.errs@) =~= messages_of(decode_frames(Seq::<u8>::empty())));
        r
    }

    pub fn get_fd(&self) -> (r: i32)
        ensures
            r == self.fd_spec(),
    {
        self.fd
    }

    /// Takes the outcome of one read from the channel: the bytes read, where
    /// no bytes mean the end of the channel.  Returns whether the channel is
    /// finished.
    pub fn read(&mut self, chunk: &[u8]) -> (r: Result<bool, ChannelError>)
        requires
            old(self).wf(),
        ensures
            read_spec(*old(self), *final(self), chunk@, r),
    {
        if chunk.len() == 0 {
            if self.pending.len() == 0 {
                return Ok(true);
            } else {
                return Err(ChannelError::Truncated);
            }
        }
        let ghost old_received = self.received@;
        let mut i: usize = 0;
        while i < chunk.len()
            invariant
                i <= chunk@.len(),
                self.pending@ == leftover(old_received) + chunk@.subrange(0, i as int),
                self.fd == old(self).fd,
                views(self.errs@) == messages_of(decode_frames(old_received)),
            decreases chunk@.len() - i,
        {
            self.pending.push(chunk[i]);
            assert(chunk@.subrange(0, i + 1) =~= chunk@.subrange(0, i as int).push(chunk@[i as int]));
            i = i + 1;
        }
        assert(chunk@.subrange(0, chunk@.len() as int) =~= chunk@);
        let ghost p = self.pending@;
        let ghost all = old_received + chunk@;
        proof {
            lemma_decode_append(old_received, chunk@);
        }
        assert(p == leftover(old_received) + chunk@);
        let len = self.pending.len();
        let mut pos: usize = 0;
        let ghost mut done: Seq<Seq<u8>> = Seq::empty();
        assert(p.subrange(0, len as int) =~= p);
        assert(decode_frames(old_received) + done =~= decode_frames(old_received));
        while len - pos >= 8
            invariant
                pos <= len,
                len == p.len(),
                self.pending@ == p,
                decode_frames(p) == done + decode_frames(p.subrange(pos as int, len as int)),
                leftover(p) == leftover(p.subrange(pos as int, len as int)),
                views(self.errs@) == messages_of(decode_frames(old_received) + done),
                self.fd == old(self).fd,
            ensures
                pos <= len,
                self.pending@ == p,
                decode_frames(p) == done + decode_frames(p.subrange(pos as int, len as int)),
                leftover(p) == leftover(p.subrange(pos as int, len as int)),
                views(self.errs@) == messages_of(decode_frames(old_received) + done),
                self.fd == old(self).fd,
                !frame_complete(p.subrange(pos as int, len as int)),
            decreases len - pos,
        {
            let n = read_usize(self.pending.as_slice(), pos);
            let ghost rest = p.subrange(pos as int, len as int);
            assert(rest.subrange(0, 8) =~= p.subrange(pos as int, pos + 8));
            if n > (len - pos - 8) as u64 {
                assert(!frame_complete(rest));
                break;
            }
            let end: usize = pos + 8 + n as usize;
            let mut payload: Vec<u8> = Vec::new();
            let mut j: usize = pos + 8;
            while j < end
                invariant
                    pos + 8 <= j <= end,
                    end <= len,
                    len == p.len(),
                    self.pending@ == p,
                    payload@ == p.subrange(pos + 8, j as int),
                    self.fd == old(self).fd,
                    views(self.errs@) == messages_of(decode_frames(old_received) + done),
                decreases end - j,
            {
                payload.push(self.pending[j]);
                assert(p.subrange(pos + 8, j + 1) =~= p.subrange(pos + 8, j as int).push(p[j as int]));
                j = j + 1;
            }
            let msg = utf8_lossy(payload.as_slice());
            proof {
                assert(frame_complete(rest));
                assert(frame_end(rest) == end - pos);
                assert(rest.subrange(8, frame_end(rest)) =~= payload@);
                assert(rest.subrange(frame_end(rest), rest.len() as int) =~= p.subrange(
                    end as int,
                    len as int,
                ));
                assert(decode_frames(rest) == seq![payload@] + decode_frames(
                    p.subrange(end as int, len as int),
                ));
                assert(leftover(rest) == leftover(p.subrange(end as int, len as int)));
            }
            let ghost old_errs = self.errs@;
            self.errs.push(msg);
            proof {
                let d2 = decode_frames(old_received) + done.push(payload@);
                assert(views(self.errs@) =~= views(old_errs).push(msg@));
                assert(d2 =~= (decode_frames(old_received) + done).push(payload@));
                assert(messages_of(d2) =~= messages_of(decode_frames(old_received) + done).push(
                    lossy_utf8(payload@),
                ));
                assert(done.push(payload@) + decode_frames(p.subrange(end as int, len as int))
                    =~= done + (seq![payload@] + decode_frames(p.subrange(end as int, len as int))));
                done = done.push(payload@);
            }
            pos = end;
        }
        let ghost rest = p.subrange(pos as int, len as int);
        proof {
            assert(decode_frames(rest) =~= Seq::<Seq<u8>>::empty());
            assert(decode_frames(p) =~= done);
        }
        let mut tail: Vec<u8> = Vec::new();
        let mut k: usize = pos;
        while k < len
            invariant
                pos <= k <= len,
                len == p.len(),
                self.pending@ == p,
                tail@ == p.subrange(pos as int, k as int),
                self.fd == old(self).fd,
                views(self.errs@) == messages_of(decode_frames(old_received) + done),
            decreases len - k,
        {
            tail.push(self.pending[k]);
            assert(p.subrange(pos as int, k + 1) =~= p.subrange(pos as int, k as int).push(p[k as int]));
            k = k + 1;
        }
        self.pending = tail;
        self.received = Ghost(all);
        assert(self.pending@ == leftover(all));
        assert(decode_frames(all) == decode_frames(old_received) + done);
        Ok(false)
    }

    /// The messages received, in arrival order.
    pub fn get_errors(self) -> (r: Vec<String>)
        ensures
            views(r@) == self.messages(),
    {
        self.errs
    }
}

} // verus!
