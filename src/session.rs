//! The receive side: a deframer per transfer, which checks toggle bits and
//! the transport CRC, and a bounded table of sessions that routes frames to
//! them by frame identifier and transfer id.
use vstd::prelude::*;
use crate::crc::{crc16, crc_of};
use crate::frame::{CanFrame, TransferFrame};
use crate::transfer::{eot_of, sot_of, tid_of, toggle_of, TailByte, TransferFrameID, TransferID};

verus! {

/// Why a transfer was dropped on receipt.
#[derive(Clone, Copy, Debug, PartialEq, Eq, Structural)]
pub enum RxError {
    /// A frame's toggle bit was not the one its place in the transfer asks for.
    ToggleError,
    /// The transport CRC of a multi-frame transfer did not match its body.
    CRCError,
}

/// The state of a deframer: whether a transfer is in progress, the toggle
/// bit the next frame must carry, and the payload bytes gathered so far.
pub type DeframerState = (bool, bool, Seq<u8>);

/// What one frame gives: nothing yet, a completed body, or an error.
pub type StepResult = Result<Option<Seq<u8>>, RxError>;

/// The deframer's state between transfers.
pub open spec fn idle() -> DeframerState {
    (false, false, Seq::empty())
}

/// The gathered bytes of a multi-frame transfer start with the CRC of the
/// rest, least significant byte first.
pub open spec fn crc_matches(b: Seq<u8>) -> bool {
    b.len() >= 2 && (b[0] as u16 | ((b[1] as u16) << 8u16)) == crc16(b.skip(2))
}

/// What a deframer in state `s` does with a frame whose data is `data`.
///
/// A frame without data, or one that is no start frame while nothing is in
/// progress, is ignored. A start frame must carry toggle bit 0; it begins a
/// transfer anew, and one that is also an end frame completes at once with
/// its payload. Every other frame must carry the expected toggle bit; its
/// payload is gathered, and at the end frame the CRC is checked and the body
/// after it returned. Errors and completions leave the deframer idle.
pub open spec fn deframe_step(s: DeframerState, data: Seq<u8>) -> (DeframerState, StepResult) {
    if data.len() == 0 {
        (s, Ok(None))
    } else {
        let t = data.last();
        let p = data.drop_last();
        if sot_of(t) {
            if toggle_of(t) {
                (idle(), Err(RxError::ToggleError))
            } else if eot_of(t) {
                (idle(), Ok(Some(p)))
            } else {
                ((true, true, p), Ok(None))
            }
        } else if !s.0 {
            (s, Ok(None))
        } else if toggle_of(t) != s.1 {
            (idle(), Err(RxError::ToggleError))
        } else if eot_of(t) {
            let b = s.2 + p;
            if crc_matches(b) {
                (idle(), Ok(Some(b.skip(2))))
            } else {
                (idle(), Err(RxError::CRCError))
            }
        } else {
            ((true, !s.1, s.2 + p), Ok(None))
        }
    }
}

/// The result of a step, with the body as a sequence.
pub open spec fn result_view(r: Result<Option<Vec<u8>>, RxError>) -> StepResult {
    match r {
        Ok(Some(v)) => Ok(Some(v@)),
        Ok(None) => Ok(None),
        Err(e) => Err(e),
    }
}

/// Reassembles one transfer from its frames.
#[derive(Clone, Debug)]
pub struct Deframer {
    in_progress: bool,
    next_toggle: bool,
    buffer: Vec<u8>,
}

impl Deframer {
    pub closed spec fn view(&self) -> DeframerState {
        (self.in_progress, self.next_toggle, self.buffer@)
    }

    pub fn new() -> (r: Deframer)
        ensures
            r@ == idle(),
    {
        Deframer { in_progress: false, next_toggle: false, buffer: Vec::new() }
    }

    fn reset(&mut self)
        ensures
            final(self)@ == idle(),
    {
        self.in_progress = false;
        self.next_toggle = false;
        self.buffer = Vec::new();
    }

    /// Takes in the data of one frame.
    pub fn receive(&mut self, data: &[u8]) -> (r: Result<Option<Vec<u8>>, RxError>)
        ensures
            (final(self)@, result_view(r)) == deframe_step(old(self)@, data@),
    {
        let n = data.len();
        if n == 0 {
            return Ok(None);
        }
        let t = data[n - 1];
        let tb = TailByte::from_byte(t);
        let sot = tb.start_of_transfer();
        let eot = tb.end_of_transfer();
        let toggle = tb.toggle();
        let payload = vstd::slice::slice_subrange(data, 0, n - 1);
        assert(payload@ =~= data@.drop_last());
        if sot {
            self.reset();
            if toggle {
                Err(RxError::ToggleError)
            } else if eot {
                Ok(Some(vstd::slice::slice_to_vec(payload)))
            } else {
                self.in_progress = true;
                self.next_toggle = true;
                self.buffer = vstd::slice::slice_to_vec(payload);
                Ok(None)
            }
        } else if !self.in_progress {
            Ok(None)
        } else if toggle != self.next_toggle {
            self.reset();
            Err(RxError::ToggleError)
        } else {
            let mut i: usize = 0;
            let ghost b0 = self.buffer@;
            let ghost tog0 = self.next_toggle;
            while i < n - 1
                invariant
                    i <= n - 1,
                    self.in_progress,
                    self.next_toggle == tog0,
                    n == data@.len(),
                    payload@ == data@.drop_last(),
                    self.buffer@ == b0 + payload@.take(i as int),
                decreases n - 1 - i,
            {
                self.buffer.push(payload[i]);
                assert(self.buffer@ =~= b0 + payload@.take(i + 1));
                i = i + 1;
            }
            assert(payload@.take(i as int) =~= payload@);
            if eot {
                let b = &self.buffer;
                let len = b.len();
                let ok = if len >= 2 {
                    let rest = vstd::slice::slice_subrange(b.as_slice(), 2, len);
                    assert(rest@ =~= b@.skip(2));
                    let c = crc_of(rest);
                    (b[0] as u16 | ((b[1] as u16) << 8u16)) == c
                } else {
                    false
                };
                if ok {
                    let rest = vstd::slice::slice_to_vec(
                        vstd::slice::slice_subrange(self.buffer.as_slice(), 2, len),
                    );
                    assert(rest@ =~= self.buffer@.skip(2));
                    self.reset();
                    Ok(Some(rest))
                } else {
                    self.reset();
                    Err(RxError::CRCError)
                }
            } else {
                self.next_toggle = !self.next_toggle;
                Ok(None)
            }
        }
    }
}


/// The key of a session: the frame identifier and the transfer id.
pub type SessionKey = (u32, u8);

/// The sessions in order of their first frame's arrival, oldest first.
pub type SessionsModel = Seq<(SessionKey, DeframerState)>;

/// The index of the session with key `key`, the latest if several, or -1.
pub open spec fn find_session(ss: SessionsModel, key: SessionKey) -> int
    decreases ss.len(),
{
    if ss.len() == 0 {
        -1
    } else if ss.last().0 == key {
        ss.len() - 1
    } else {
        find_session(ss.drop_last(), key)
    }
}

/// A found session is in the table and has the key looked for.
pub proof fn lemma_find_session(ss: SessionsModel, key: SessionKey)
    ensures
        -1 <= find_session(ss, key) < ss.len(),
        find_session(ss, key) >= 0 ==> ss[find_session(ss, key)].0 == key,
    decreases ss.len(),
{
    if ss.len() > 0 {
        lemma_find_session(ss.drop_last(), key);
    }
}

/// What a session table with room for `cap` sessions does with a frame of
/// key `key` whose data is `data`.
///
/// A single-frame transfer is deframed at once and the table left alone. A
/// frame of a known session goes to that session's deframer; the session is
/// released when the transfer completes or fails. A start frame of an
/// unknown session opens one, evicting the oldest session when the table is
/// full. Any other frame is dropped.
pub open spec fn manager_step(ss: SessionsModel, cap: nat, key: SessionKey, data: Seq<u8>) -> (
    SessionsModel,
    StepResult,
) {
    if data.len() == 0 {
        (ss, Ok(None))
    } else if sot_of(data.last()) && eot_of(data.last()) {
        (ss, deframe_step(idle(), data).1)
    } else {
        let i = find_session(ss, key);
        if i >= 0 {
            let (s2, r) = deframe_step(ss[i].1, data);
            if r == Ok::<Option<Seq<u8>>, RxError>(None) {
                (ss.update(i, (key, s2)), r)
            } else {
                (ss.remove(i), r)
            }
        } else if sot_of(data.last()) {
            let base = if ss.len() >= cap {
                ss.skip(1)
            } else {
                ss
            };
            let (s2, r) = deframe_step(idle(), data);
            if r == Ok::<Option<Seq<u8>>, RxError>(None) {
                (base.push((key, s2)), r)
            } else {
                (base, r)
            }
        } else {
            (ss, Ok(None))
        }
    }
}

/// A frame that neither starts a transfer nor belongs to a session in
/// progress yields nothing and leaves the table as it was.
pub proof fn lemma_orphan_frame_ignored(ss: SessionsModel, cap: nat, key: SessionKey, data: Seq<u8>)
    requires
        data.len() > 0,
        !sot_of(data.last()),
        find_session(ss, key) < 0,
    ensures
        manager_step(ss, cap, key, data) == (ss, Ok::<Option<Seq<u8>>, RxError>(None)),
{
}

/// A completed transfer: the identifiers of its frames and its body.
#[derive(Clone, Debug, PartialEq, Eq)]
pub struct Transfer {
    pub frame_id: TransferFrameID,
    pub transfer_id: TransferID,
    pub payload: Vec<u8>,
}

/// The result of taking in a frame, with the body as a sequence.
pub open spec fn transfer_view(r: Result<Option<Transfer>, RxError>) -> StepResult {
    match r {
        Ok(Some(t)) => Ok(Some(t.payload@)),
        Ok(None) => Ok(None),
        Err(e) => Err(e),
    }
}

/// One in-flight transfer.
#[derive(Clone, Debug)]
pub(crate) struct Session {
    pub(crate) key: crate::transfer::FullTransferID,
    pub(crate) deframer: Deframer,
}

impl Session {
    pub(crate) open spec fn model(self) -> (SessionKey, DeframerState) {
        (
            (self.key.frame_id.spec_value(), self.key.transfer_id.spec_value()),
            self.deframer@,
        )
    }
}

/// A bounded table of in-flight transfers.
#[derive(Clone, Debug)]
pub struct SessionManager {
    sessions: Vec<Session>,
    capacity: usize,
}

impl SessionManager {
    /// The sessions, oldest first.
    pub closed spec fn view(&self) -> SessionsModel {
        self.sessions@.map_values(|s: Session| s.model())
    }

    /// The number of sessions the table holds at most.
    pub closed spec fn spec_capacity(&self) -> nat {
        self.capacity as nat
    }

    pub closed spec fn wf(&self) -> bool {
        &&& self.capacity >= 1
        &&& self.sessions@.len() <= self.capacity
    }

    /// An empty table with room for `capacity` sessions.
    pub fn new(capacity: usize) -> (r: SessionManager)
        requires
            capacity >= 1,
        ensures
            r.wf(),
            r@ == SessionsModel::empty(),
            r.spec_capacity() == capacity,
    {
        let r = SessionManager { sessions: Vec::new(), capacity };
        assert(r@ =~= SessionsModel::empty());
        r
    }

    /// The number of sessions in progress.
    pub fn len(&self) -> (r: usize)
        ensures
            r == self@.len(),
    {
        self.sessions.len()
    }

    fn find(&self, key: crate::transfer::FullTransferID) -> (r: Option<usize>)
        ensures
            find_session(self@, (key.frame_id.spec_value(), key.transfer_id.spec_value())) < 0
                ==> r is None,
            find_session(self@, (key.frame_id.spec_value(), key.transfer_id.spec_value())) >= 0
                ==> r == Some(
                find_session(self@, (key.frame_id.spec_value(), key.transfer_id.spec_value()))
                    as usize,
            ),
    {
        let ghost k = (key.frame_id.spec_value(), key.transfer_id.spec_value());
        proof {
            lemma_find_session(self@, k);
        }
        let mut j: usize = self.sessions.len();
        assert(self@.take(j as int) =~= self@);
        while j > 0
            invariant
                j <= self@.len(),
                self@.len() == self.sessions@.len(),
                k == (key.frame_id.spec_value(), key.transfer_id.spec_value()),
                find_session(self@, k) == find_session(self@.take(j as int), k),
            decreases j,
        {
            assert(self@.take(j as int).last() == self.sessions@[j - 1].model());
            if self.sessions[j - 1].key == key {
                assert(self@.take(j as int).last().0 == k);
                assert(find_session(self@.take(j as int), k) == j - 1);
                return Some(j - 1);
            }
            assert(self@.take(j as int).drop_last() =~= self@.take(j - 1));
            j = j - 1;
        }
        None
    }

    /// Takes in one frame; yields a transfer when the frame completes one.
    pub fn ingest(&mut self, frame: &CanFrame) -> (r: Result<Option<Transfer>, RxError>)
        requires
            old(self).wf(),
            frame.frame_wf(),
        ensures
            final(self).wf(),
            final(self).spec_capacity() == old(self).spec_capacity(),
            frame.spec_data().len() > 0 ==> (final(self)@, transfer_view(r)) == manager_step(
                old(self)@,
                old(self).spec_capacity(),
                (frame.spec_id(), tid_of(frame.spec_data().last())),
                frame.spec_data(),
            ),
            frame.spec_data().len() == 0 ==> final(self)@ == old(self)@ && r == Ok::<
                Option<Transfer>,
                RxError,
            >(None),
            r matches Ok(Some(t)) ==> t.frame_id == frame.id && t.transfer_id.spec_value()
                == tid_of(frame.spec_data().last()),
    {
        let data = frame.data();
        if data.len() == 0 {
            return Ok(None);
        }
        let key = frame.full_id();
        let ghost k = (frame.spec_id(), tid_of(frame.spec_data().last()));
        let ghost ss = self@;
        let ghost data_v = frame.spec_data();
        proof {
            lemma_find_session(ss, k);
        }
        let sot = frame.is_start_frame();
        let eot = frame.is_end_frame();
        let result = if sot && eot {
            let mut d = Deframer::new();
            d.receive(data)
        } else {
            match self.find(key) {
                Some(i) => {
                    let mut s = self.sessions.remove(i);
                    let r = s.deframer.receive(data);
                    proof {
                        assert(s.model().0 == k);
                    }
                    if matches!(r, Ok(None)) {
                        self.sessions.insert(i, s);
                        assert(self@ =~= ss.update(i as int, (k, s.deframer@)));
                    } else {
                        assert(self@ =~= ss.remove(i as int));
                    }
                    r
                },
                None => {
                    if sot {
                        if self.sessions.len() >= self.capacity {
                            let _old = self.sessions.remove(0);
                            assert(self@ =~= ss.skip(1));
                        }
                        let ghost base = self@;
                        let mut s = Session { key, deframer: Deframer::new() };
                        let r = s.deframer.receive(data);
                        if matches!(r, Ok(None)) {
                            self.sessions.push(s);
                            assert(self@ =~= base.push((k, s.deframer@)));
                        }
                        r
                    } else {
                        Ok(None)
                    }
                },
            }
        };
        match result {
            Ok(Some(payload)) => Ok(
                Some(Transfer { frame_id: frame.id, transfer_id: key.transfer_id, payload }),
            ),
            Ok(None) => Ok(None),
            Err(e) => Err(e),
        }
    }
}

} // verus!
