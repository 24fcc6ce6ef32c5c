//! The recording buffer: raw 16 kHz mono audio, bounded by the configured
//! duration.
use crate::files::append_bytes;
use vstd::prelude::*;

verus! {

/// Samples per second.
pub const SAMPLE_RATE: u32 = 16_000;

/// Channels of the recording.
pub const CHANNELS: u32 = 1;

/// Bytes of one signed 16 bit sample.
pub const BYTES_PER_SAMPLE: u32 = 2;

/// Bytes of one second of audio.
pub const BYTES_PER_SECOND: u64 = 32_000;

/// A tenth of a second of audio: with less, nobody spoke.
pub const SHORTEST_SPEECH_BYTES: usize = 3_200;

/// Why a recording came to nothing.
#[derive(Debug, Clone, Copy, PartialEq, Eq, Structural)]
pub enum AudioError {
    /// More audio arrived than the configured duration allows.
    TooLong,
    /// Less than a tenth of a second was captured.
    NoSpeech,
}

impl AudioError {
    /// The message shown for the error.
    pub open spec fn text(self) -> Seq<char> {
        match self {
            AudioError::TooLong => "recording exceeded the configured maximum duration"@,
            AudioError::NoSpeech => "no speech audio was captured"@,
        }
    }

    /// The message shown for the error.
    pub fn message(self) -> (r: String)
        ensures
            r@ == self.text(),
    {
        match self {
            AudioError::TooLong => "recording exceeded the configured maximum duration".to_owned(),
            AudioError::NoSpeech => "no speech audio was captured".to_owned(),
        }
    }
}

/// Audio captured so far.
#[derive(Debug)]
pub struct Recording {
    max_bytes: u64,
    pcm: Vec<u8>,
    overrun: bool,
}

impl Recording {
    /// The captured bytes.
    pub closed spec fn captured(&self) -> Seq<u8> {
        self.pcm@
    }

    /// The number of bytes that the recording may reach.
    pub closed spec fn limit(&self) -> nat {
        self.max_bytes as nat
    }

    /// A chunk was refused. Such a recording comes to nothing.
    pub closed spec fn refused(&self) -> bool {
        self.overrun
    }

    /// The buffer is within its limit.
    pub open spec fn wf(&self) -> bool {
        self.captured().len() <= self.limit()
    }

    /// An empty recording that may last `max_seconds`.
    pub fn start(max_seconds: u64) -> (r: Recording)
        requires
            max_seconds * BYTES_PER_SECOND <= u64::MAX,
        ensures
            r.wf(),
            !r.refused(),
            r.captured() == Seq::<u8>::empty(),
            r.limit() == SAMPLE_RATE * CHANNELS * BYTES_PER_SAMPLE * max_seconds,
    {
        Recording { max_bytes: BYTES_PER_SECOND * max_seconds, pcm: Vec::new(), overrun: false }
    }

    /// Adds a chunk of audio. A chunk that would pass the limit is refused with
    /// nothing of it kept, and so is whatever follows it.
    pub fn push(&mut self, chunk: &[u8]) -> (r: Result<(), AudioError>)
        requires
            old(self).wf(),
        ensures
            final(self).wf(),
            final(self).limit() == old(self).limit(),
            final(self).refused() == (r is Err),
            match r {
                Ok(_) => {
                    &&& !old(self).refused()
                    &&& old(self).captured().len() + chunk@.len() <= old(self).limit()
                    &&& final(self).captured() == old(self).captured() + chunk@
                },
                Err(error) => {
                    &&& error == AudioError::TooLong
                    &&& old(self).refused() || old(self).captured().len() + chunk@.len() > old(
                        self,
                    ).limit()
                    &&& final(self).captured() == old(self).captured()
                },
            },
    {
        if self.overrun || self.pcm.len() as u128 + chunk.len() as u128 > self.max_bytes as u128 {
            self.overrun = true;
            return Err(AudioError::TooLong);
        }
        append_bytes(&mut self.pcm, chunk);
        Ok(())
    }

    /// Hands the audio over, unless it grew too long or there is too little of
    /// it to be speech.
    pub fn finish(self) -> (r: Result<Vec<u8>, AudioError>)
        ensures
            match r {
                Ok(pcm) => {
                    &&& !self.refused()
                    &&& self.captured().len() >= SHORTEST_SPEECH_BYTES
                    &&& pcm@ == self.captured()
                },
                Err(AudioError::TooLong) => self.refused(),
                Err(AudioError::NoSpeech) => {
                    &&& !self.refused()
                    &&& self.captured().len() < SHORTEST_SPEECH_BYTES
                },
            },
    {
        if self.overrun {
            return Err(AudioError::TooLong);
        }
        if self.pcm.len() < SHORTEST_SPEECH_BYTES {
            return Err(AudioError::NoSpeech);
        }
        Ok(self.pcm)
    }
}

} // verus!
