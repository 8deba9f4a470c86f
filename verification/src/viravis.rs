//! The orchestrator: owns the active analyzer, the stream settings, the
//! most-recent-frame snapshot and the consumer registry, and makes every
//! decision of the capture loop — which analyzer to build, which stream
//! configuration to use, when a device change demands a rebuild, and which
//! frames may be published.

use vstd::prelude::*;
use vstd::string::StringExecFns;

use crate::analyzer_fft::{spectral_frame, AnalyzerFFT, BIN_MAX};
use crate::analyzer_rolling::{rolling_frame, AnalyzerRolling};
use crate::utils::{all_in, chunk_ok, frame_ok};
use crate::{MAX_CHUNK_LEN, MAX_FRAME_LEN};

verus! {

/// Samples per capture chunk, fixed whatever sample rate is negotiated.
pub const CHUNK: u32 = 960;

/// Sample rate used when the caller supplies none.
pub const DEFAULT_SAMPLE_RATE: u32 = 48_000;

/// Which analyzer variant drives the pipeline.
#[derive(Clone, Copy, PartialEq, Eq, Structural, Debug)]
pub enum AnalyzerMode {
    /// Frequency columns from a Fourier transform of each chunk.
    Fft,
    /// Wave-like rolling loudness history.
    Rolling,
}

impl AnalyzerMode {
    /// Parse the textual form of a mode: exactly `fft` and `rolling` name a
    /// variant; any other text is a configuration error carrying the
    /// offending input.
    pub fn from_str(s: &str) -> (r: Result<AnalyzerMode, String>)
        ensures
            s@ == "fft"@ ==> r == Ok::<AnalyzerMode, String>(AnalyzerMode::Fft),
            s@ == "rolling"@ ==> r == Ok::<AnalyzerMode, String>(AnalyzerMode::Rolling),
            s@ != "fft"@ && s@ != "rolling"@ ==> (r matches Err(m) && m@ == "Unknown mode: "@
                + s@),
    {
        proof {
            reveal_strlit("fft");
            reveal_strlit("rolling");
            assert("fft"@.len() == 3);
            assert("rolling"@.len() == 7);
        }
        let owned = s.to_owned();
        if owned == String::from_str("fft") {
            Ok(AnalyzerMode::Fft)
        } else if owned == String::from_str("rolling") {
            Ok(AnalyzerMode::Rolling)
        } else {
            Err(String::from_str("Unknown mode: ").concat(s))
        }
    }

    /// The textual form of the mode.
    pub fn mode_name(&self) -> (r: &'static str)
        ensures
            *self == AnalyzerMode::Fft ==> r@ == "fft"@,
            *self == AnalyzerMode::Rolling ==> r@ == "rolling"@,
    {
        match self {
            AnalyzerMode::Fft => "fft",
            AnalyzerMode::Rolling => "rolling",
        }
    }
}

/// The closed set of analyzer variants, dispatched by a single match: no
/// indirect call stands on the audio hot path.
pub enum Analyzer {
    /// Spectral variant; its input is the chunk's magnitude bins.
    Fft(AnalyzerFFT),
    /// Rolling variant; its input is the raw chunk itself.
    Rolling(AnalyzerRolling),
}

impl Analyzer {
    /// Which mode this analyzer implements.
    pub open spec fn mode_of(&self) -> AnalyzerMode {
        match self {
            Analyzer::Fft(_) => AnalyzerMode::Fft,
            Analyzer::Rolling(_) => AnalyzerMode::Rolling,
        }
    }

    /// The variant's history frame.
    pub open spec fn history(&self) -> Seq<i64> {
        match self {
            Analyzer::Fft(a) => a.history(),
            Analyzer::Rolling(a) => a.history(),
        }
    }

    /// A usable analyzer of either variant.
    pub open spec fn wf(&self) -> bool {
        match self {
            Analyzer::Fft(a) => a.wf(),
            Analyzer::Rolling(a) => a.wf(),
        }
    }

    /// What one step accepts: magnitude bins (at least one per frame slot)
    /// for the spectral variant, a non-empty bounded chunk for the rolling
    /// one.
    pub open spec fn input_ok(&self, input: Seq<i64>) -> bool {
        match self {
            Analyzer::Fft(a) => a.history().len() <= input.len() <= MAX_FRAME_LEN
                && all_in(input, 0, BIN_MAX as int),
            Analyzer::Rolling(_) => 0 < input.len() <= MAX_CHUNK_LEN && chunk_ok(input),
        }
    }

    /// The frame one step produces from the given input.
    pub open spec fn step_frame(&self, input: Seq<i64>) -> Seq<i64> {
        match self {
            Analyzer::Fft(a) => spectral_frame(a.history(), input),
            Analyzer::Rolling(a) => rolling_frame(a.history(), input),
        }
    }

    /// A fresh analyzer of the requested mode with an all-zero history of
    /// the given frame length.
    pub fn new(size: usize, mode: AnalyzerMode) -> (r: Analyzer)
        requires
            0 < size <= MAX_FRAME_LEN,
        ensures
            r.wf(),
            r.mode_of() == mode,
            r.history() =~= Seq::new(size as nat, |i: int| 0i64),
    {
        match mode {
            AnalyzerMode::Fft => Analyzer::Fft(AnalyzerFFT::new(size)),
            AnalyzerMode::Rolling => Analyzer::Rolling(AnalyzerRolling::new(size)),
        }
    }

    /// One analysis step: consume the input of the variant's kind, produce
    /// the next frame and keep it as the new history.
    pub fn analyze(&mut self, input: &Vec<i64>) -> (frame: Vec<i64>)
        requires
            old(self).wf(),
            old(self).input_ok(input@),
        ensures
            final(self).wf(),
            final(self).mode_of() == old(self).mode_of(),
            frame@ == old(self).step_frame(input@),
            final(self).history() == frame@,
            frame@.len() == old(self).history().len(),
            frame_ok(frame@),
    {
        match self {
            Analyzer::Fft(a) => a.analyze(input),
            Analyzer::Rolling(a) => a.analyze(input.as_slice()),
        }
    }
}

/// Whether every slot of a candidate frame is finite in the model's sense:
/// within `[0, FRAME_MAX]`. The distribution loop rejects a frame that is
/// not, rather than publish it.
pub fn is_valid_frame(data: &Vec<i64>) -> (ok: bool)
    ensures
        ok == frame_ok(data@),
{
    let n = data.len();
    let mut i: usize = 0;
    while i < n
        invariant
            n == data@.len(),
            i <= n,
            forall|j: int| 0 <= j < i ==> 0 <= #[trigger] data@[j] <= crate::FRAME_MAX,
        decreases n - i,
    {
        let x = data[i];
        if x < 0 || x > crate::FRAME_MAX {
            return false;
        }
        i = i + 1;
    }
    true
}

/// Whatever the variant, a silent analyzer fed silence emits the all-zero
/// frame: finite, non-negative, and free of any division collapse.
pub proof fn lemma_silence_frame(a: Analyzer, input: Seq<i64>)
    requires
        a.wf(),
        a.input_ok(input),
        forall|i: int| 0 <= i < a.history().len() ==> a.history()[i] == 0i64,
        forall|i: int| 0 <= i < input.len() ==> input[i] == 0i64,
    ensures
        a.step_frame(input) =~= Seq::new(a.history().len(), |i: int| 0i64),
{
    match a {
        Analyzer::Fft(f) => {
            assert(a.history() == f.history());
            crate::analyzer_fft::lemma_spectral_silence(f.history(), input);
        },
        Analyzer::Rolling(r) => {
            assert(a.history() == r.history());
            crate::analyzer_rolling::lemma_rolling_silence(r.history(), input);
        },
    }
}

/// The stream configuration the orchestrator decides on: the device's
/// channel count, the negotiated sample rate, and the fixed chunk size.
#[derive(Clone, Copy, PartialEq, Eq, Structural, Debug)]
pub struct StreamSettings {
    /// Channels taken from the device's first supported profile.
    pub channels: u16,
    /// Sample rate in use.
    pub sample_rate: u32,
    /// Fixed frames per buffer, always `CHUNK`.
    pub buffer_frames: u32,
}

/// The orchestrator's state: the device in use, the negotiated sample rate,
/// the active analyzer, the most-recent published frame, and the consumers
/// in registration order.
pub struct Viravis {
    device_name: String,
    sample_rate: u32,
    analyzer: Analyzer,
    snapshot: Vec<i64>,
    consumers: Vec<u64>,
}

impl Viravis {
    /// The name of the device the stream is bound to.
    pub closed spec fn device(&self) -> Seq<char> {
        self.device_name@
    }

    /// The negotiated sample rate.
    pub closed spec fn rate(&self) -> u32 {
        self.sample_rate
    }

    /// The active analyzer.
    pub closed spec fn active(&self) -> Analyzer {
        self.analyzer
    }

    /// The most-recent published frame.
    pub closed spec fn latest(&self) -> Seq<i64> {
        self.snapshot@
    }

    /// The registered consumers, in dispatch order.
    pub closed spec fn registered(&self) -> Seq<u64> {
        self.consumers@
    }

    /// A usable orchestrator: its analyzer is usable and its snapshot is a
    /// well-formed frame of the analyzer's length.
    pub open spec fn wf(&self) -> bool {
        &&& self.active().wf()
        &&& self.latest().len() == self.active().history().len()
        &&& frame_ok(self.latest())
    }

    /// A fresh orchestrator bound to the named device: an analyzer of the
    /// requested mode sized to the frame length, an all-zero snapshot, the
    /// given sample rate (or the default when none is given), and no
    /// consumers yet.
    pub fn new(size: usize, mode: AnalyzerMode, sample_rate: Option<u32>, device_name: String) -> (r:
        Viravis)
        requires
            0 < size <= MAX_FRAME_LEN,
        ensures
            r.wf(),
            r.active().mode_of() == mode,
            r.active().history() =~= Seq::new(size as nat, |i: int| 0i64),
            r.latest() =~= Seq::new(size as nat, |i: int| 0i64),
            r.rate() == (match sample_rate {
                Some(given) => given,
                None => DEFAULT_SAMPLE_RATE,
            }),
            r.device() == device_name@,
            r.registered() == Seq::<u64>::empty(),
    {
        let rate: u32 = match sample_rate {
            Some(given) => given,
            None => DEFAULT_SAMPLE_RATE,
        };
        let analyzer = Analyzer::new(size, mode);
        let mut snapshot: Vec<i64> = Vec::new();
        let mut i: usize = 0;
        while i < size
            invariant
                i <= size,
                snapshot@.len() == i,
                forall|j: int| 0 <= j < i ==> #[trigger] snapshot@[j] == 0i64,
            decreases size - i,
        {
            snapshot.push(0);
            i = i + 1;
        }
        Viravis { device_name, sample_rate: rate, analyzer, snapshot, consumers: Vec::new() }
    }

    /// The configuration to build a stream with: the channel count the
    /// device offers, the orchestrator's sample rate, and the fixed chunk
    /// size.
    pub fn get_config(&self, channels: u16) -> (r: StreamSettings)
        ensures
            r == (StreamSettings {
                channels,
                sample_rate: self.rate(),
                buffer_frames: CHUNK,
            }),
    {
        StreamSettings { channels, sample_rate: self.sample_rate, buffer_frames: CHUNK }
    }

    /// Compare the current default device against the one in use. On a
    /// change, adopt the new device and report that the stream must be
    /// rebuilt; the analyzer, snapshot and consumers are reused unchanged
    /// either way.
    pub fn device_check(&mut self, default_name: String) -> (changed: bool)
        ensures
            changed == (default_name@ != old(self).device()),
            changed ==> final(self).device() == default_name@,
            !changed ==> final(self).device() == old(self).device(),
            final(self).active() == old(self).active(),
            final(self).latest() == old(self).latest(),
            final(self).registered() == old(self).registered(),
            final(self).rate() == old(self).rate(),
    {
        if self.device_name == default_name {
            false
        } else {
            self.device_name = default_name;
            true
        }
    }

    /// Register one more consumer; dispatch order is registration order.
    pub fn add_callback(&mut self, consumer: u64)
        ensures
            final(self).registered() == old(self).registered().push(consumer),
            final(self).active() == old(self).active(),
            final(self).latest() == old(self).latest(),
            final(self).device() == old(self).device(),
            final(self).rate() == old(self).rate(),
    {
        self.consumers.push(consumer);
    }

    /// The registered consumers in dispatch order, for the loop that hands
    /// the published frame to each of them in turn.
    pub fn dispatch_order(&self) -> (r: &Vec<u64>)
        ensures
            r@ == self.registered(),
    {
        &self.consumers
    }

    /// One analysis step on the active analyzer; the snapshot is untouched
    /// until the frame is published by `update`.
    pub fn analyze(&mut self, input: &Vec<i64>) -> (frame: Vec<i64>)
        requires
            old(self).wf(),
            old(self).active().input_ok(input@),
        ensures
            final(self).wf(),
            frame@ == old(self).active().step_frame(input@),
            final(self).active().history() == frame@,
            final(self).active().mode_of() == old(self).active().mode_of(),
            frame@.len() == old(self).active().history().len(),
            frame_ok(frame@),
            final(self).latest() == old(self).latest(),
            final(self).registered() == old(self).registered(),
            final(self).device() == old(self).device(),
            final(self).rate() == old(self).rate(),
    {
        self.analyzer.analyze(input)
    }

    /// Publish a completed frame: a frame of the right length whose every
    /// slot is within bounds replaces the snapshot whole; a corrupted one is
    /// rejected and the previous snapshot stands.
    pub fn update(&mut self, data: Vec<i64>) -> (published: bool)
        requires
            old(self).wf(),
        ensures
            final(self).wf(),
            published == (data@.len() == old(self).latest().len() && frame_ok(data@)),
            published ==> final(self).latest() == data@,
            !published ==> final(self).latest() == old(self).latest(),
            final(self).active() == old(self).active(),
            final(self).registered() == old(self).registered(),
            final(self).device() == old(self).device(),
            final(self).rate() == old(self).rate(),
    {
        if data.len() != self.snapshot.len() {
            return false;
        }
        if !is_valid_frame(&data) {
            return false;
        }
        self.snapshot = data;
        true
    }

    /// A copy of the most-recent published frame, as a consumer reads it.
    pub fn latest_frame(&self) -> (r: Vec<i64>)
        ensures
            r@ == self.latest(),
    {
        let n = self.snapshot.len();
        let mut out: Vec<i64> = Vec::new();
        let mut i: usize = 0;
        while i < n
            invariant
                n == self.snapshot@.len(),
                i <= n,
                out@.len() == i,
                forall|j: int| 0 <= j < i ==> #[trigger] out@[j] == self.snapshot@[j],
            decreases n - i,
        {
            out.push(self.snapshot[i]);
            i = i + 1;
        }
        proof {
            assert(out@ =~= self.latest());
        }
        out
    }
}

} // verus!
