//! The capability interfaces the session coordinates: a recorder that
//! captures audio, a transcriber that turns captured audio into text, and a
//! processor declared as a collaborator for the surrounding system. Each is
//! a trait the surrounding program implements; the contracts on the methods
//! describe every implementation through abstract call logs, so that the
//! session's own contract can say exactly which capability was invoked, how
//! often, and with what.

use vstd::prelude::*;

verus! {

/// Captured audio: an opaque byte payload handed from the recorder to the
/// transcriber.
pub struct AudioBuffer {
    bytes: Vec<u8>,
}

impl View for AudioBuffer {
    type V = Seq<u8>;

    closed spec fn view(&self) -> Seq<u8> {
        self.bytes@
    }
}

impl AudioBuffer {
    pub fn from_bytes(bytes: Vec<u8>) -> (b: AudioBuffer)
        ensures
            b@ == bytes@,
    {
        AudioBuffer { bytes }
    }

    pub fn len(&self) -> (n: usize)
        ensures
            n == self@.len(),
    {
        self.bytes.len()
    }

    pub fn bytes(&self) -> (r: &Vec<u8>)
        ensures
            r@ == self@,
    {
        &self.bytes
    }
}

/// The error a capability reports when it fails. An operational failure
/// terminates the session instead of being turned into a protocol reply.
#[derive(Debug)]
pub struct CapabilityError {
    pub detail: String,
}

impl CapabilityError {
    pub fn new(detail: String) -> (e: CapabilityError)
        ensures
            e.detail@ == detail@,
    {
        CapabilityError { detail }
    }
}

/// Captures audio. An implementation's visible history is abstracted by
/// four ghost logs: how many times `start` was invoked, how many of those
/// invocations succeeded, how many times `stop` was invoked, and the byte
/// payloads the successful `stop` invocations returned, in order.
pub trait Recorder: Sized {
    /// How many times `start` has been invoked. The default body stands in
    /// for implementations outside the verified world and says nothing.
    open spec fn starts(&self) -> nat {
        arbitrary()
    }

    /// How many of the `start` invocations returned `Ok`. The default body
    /// stands in for implementations outside the verified world and says
    /// nothing.
    open spec fn start_oks(&self) -> nat {
        arbitrary()
    }

    /// How many times `stop` has been invoked. The default body stands in
    /// for implementations outside the verified world and says nothing.
    open spec fn stops(&self) -> nat {
        arbitrary()
    }

    /// The audio payloads returned by the successful `stop` invocations,
    /// oldest first. The default body stands in for implementations outside
    /// the verified world and says nothing.
    open spec fn captures(&self) -> Seq<Seq<u8>> {
        arbitrary()
    }

    /// Begins capturing audio.
    fn start(&mut self) -> (r: Result<(), CapabilityError>)
        ensures
            final(self).starts() == old(self).starts() + 1,
            final(self).stops() == old(self).stops(),
            final(self).captures() == old(self).captures(),
            r is Ok ==> final(self).start_oks() == old(self).start_oks() + 1,
            r is Err ==> final(self).start_oks() == old(self).start_oks(),
    ;

    /// Ends the capture and returns the audio recorded since `start`.
    fn stop(&mut self) -> (r: Result<AudioBuffer, CapabilityError>)
        ensures
            final(self).stops() == old(self).stops() + 1,
            final(self).starts() == old(self).starts(),
            final(self).start_oks() == old(self).start_oks(),
            r is Ok ==> final(self).captures() == old(self).captures().push(r->Ok_0@),
            r is Err ==> final(self).captures() == old(self).captures(),
    ;
}

/// Turns captured audio into text. An implementation's visible history is
/// abstracted by two ghost logs: the audio payloads handed in, and the texts
/// returned by the successful invocations.
pub trait Transcriber: Sized {
    /// The audio payloads `transcribe` has been handed, oldest first. The
    /// default body stands in for implementations outside the verified world
    /// and says nothing.
    open spec fn requests(&self) -> Seq<Seq<u8>> {
        arbitrary()
    }

    /// The texts the successful `transcribe` invocations returned, oldest
    /// first. The default body stands in for implementations outside the
    /// verified world and says nothing.
    open spec fn outputs(&self) -> Seq<Seq<char>> {
        arbitrary()
    }

    /// Transcribes one audio payload. May block until the transcription
    /// engine answers; the session processes no other command meanwhile.
    fn transcribe(&mut self, audio: &AudioBuffer) -> (r: Result<String, CapabilityError>)
        ensures
            final(self).requests() == old(self).requests().push(audio@),
            r is Ok ==> final(self).outputs() == old(self).outputs().push(r->Ok_0@),
            r is Err ==> final(self).outputs() == old(self).outputs(),
    ;
}

/// A post-processing collaborator. It is declared as part of the server's
/// surface but no command in this core invokes it; its contract is owned by
/// the surrounding system.
pub trait Processor: Sized {
    /// Post-processes one piece of text.
    fn process(&mut self, input: &str) -> Result<String, CapabilityError>;
}

/// Holds when `post` shows the same recorder history as `pre`: no recorder
/// method was invoked in between.
pub open spec fn recorder_untouched<R: Recorder>(pre: R, post: R) -> bool {
    &&& post.starts() == pre.starts()
    &&& post.start_oks() == pre.start_oks()
    &&& post.stops() == pre.stops()
    &&& post.captures() == pre.captures()
}

/// Holds when `post` shows the same transcriber history as `pre`: no
/// transcription was requested in between.
pub open spec fn transcriber_untouched<T: Transcriber>(pre: T, post: T) -> bool {
    &&& post.requests() == pre.requests()
    &&& post.outputs() == pre.outputs()
}

} // verus!
