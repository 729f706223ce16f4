use crate::error::PipelineError;
use vstd::prelude::*;

verus! {

/// Seconds between two consecutive entries of an archive, as captured.
pub const NATIVE_INTERVAL_SECONDS: usize = 5;

/// The stride through the archive for a sampling interval of `minutes`,
/// or `None` where no stride of whole entries serves it.
pub open spec fn stride_of(minutes: int) -> Option<int> {
    let seconds = 60 * minutes;
    if minutes >= 1 && seconds <= usize::MAX && seconds % (NATIVE_INTERVAL_SECONDS as int) == 0 {
        Some(seconds / (NATIVE_INTERVAL_SECONDS as int))
    } else {
        None
    }
}

/// Number of archive entries between two kept entries for a sampling
/// interval given in minutes.
pub fn sampling_stride(interval_minutes: usize) -> (r: Result<usize, PipelineError>)
    ensures
        match stride_of(interval_minutes as int) {
            Some(s) => r == Ok::<usize, PipelineError>(s as usize) && s >= 1,
            None => r == Err::<usize, PipelineError>(PipelineError::InvalidConfiguration),
        },
{
    if interval_minutes == 0 || interval_minutes > usize::MAX / 60 {
        return Err(PipelineError::InvalidConfiguration);
    }
    let seconds = 60 * interval_minutes;
    if seconds % NATIVE_INTERVAL_SECONDS != 0 {
        return Err(PipelineError::InvalidConfiguration);
    }
    Ok(seconds / NATIVE_INTERVAL_SECONDS)
}

/// Checks the configuration of a run before any archive is read: the
/// sampling interval must give a stride and both chart dimensions must be
/// non-zero. Returns the stride.
pub fn validate_config(interval_minutes: usize, width: u32, height: u32) -> (r: Result<
    usize,
    PipelineError,
>)
    ensures
        match stride_of(interval_minutes as int) {
            Some(s) if width > 0 && height > 0 => r == Ok::<usize, PipelineError>(s as usize),
            _ => r == Err::<usize, PipelineError>(PipelineError::InvalidConfiguration),
        },
{
    if width == 0 || height == 0 {
        return Err(PipelineError::InvalidConfiguration);
    }
    sampling_stride(interval_minutes)
}

/// A forward cursor over the entries of an archive that says, entry by
/// entry, whether it is kept: entry `i` is kept when `i` is a multiple of
/// the stride, so the first entry is always kept.
pub struct Sampler {
    stride: usize,
    until_next: usize,
    position: Ghost<nat>,
}

impl Sampler {
    pub closed spec fn spec_stride(&self) -> nat {
        self.stride as nat
    }

    /// Index of the next entry that `observe` will be asked about.
    pub closed spec fn spec_position(&self) -> nat {
        self.position@
    }

    pub closed spec fn wf(&self) -> bool {
        &&& self.stride >= 1
        &&& self.until_next < self.stride
        &&& self.until_next as int == (self.stride as int - (self.position@ % (self.stride as nat)) as int)
            % (self.stride as int)
    }

    /// A cursor before the first entry of an archive, for the given stride.
    pub fn new(stride: usize) -> (r: Sampler)
        requires
            stride >= 1,
        ensures
            r.wf(),
            r.spec_stride() == stride,
            r.spec_position() == 0,
    {
        let r = Sampler { stride, until_next: 0, position: Ghost(0) };
        proof {
            assert(0nat % (stride as nat) == 0) by (nonlinear_arith)
                requires stride >= 1;
            assert((stride as int - 0) % (stride as int) == 0) by (nonlinear_arith)
                requires stride >= 1;
        }
        r
    }

    /// A cursor for the sampling interval given in minutes.
    pub fn for_interval(interval_minutes: usize) -> (r: Result<Sampler, PipelineError>)
        ensures
            match stride_of(interval_minutes as int) {
                Some(s) => r matches Ok(c) && c.wf() && c.spec_stride() == s && c.spec_position() == 0,
                None => r == Err::<Sampler, PipelineError>(PipelineError::InvalidConfiguration),
            },
    {
        match sampling_stride(interval_minutes) {
            Ok(s) => Ok(Sampler::new(s)),
            Err(e) => Err(e),
        }
    }

    pub fn stride(&self) -> (r: usize)
        ensures
            r == self.spec_stride(),
    {
        self.stride
    }

    /// Moves past the next entry and says whether it is kept.
    pub fn observe(&mut self) -> (keep: bool)
        requires
            old(self).wf(),
        ensures
            final(self).wf(),
            final(self).spec_stride() == old(self).spec_stride(),
            final(self).spec_position() == old(self).spec_position() + 1,
            keep == (old(self).spec_position() % old(self).spec_stride() == 0),
    {
        let keep = self.until_next == 0;
        let ghost p = self.position@;
        let ghost s = self.stride as nat;
        if self.until_next == 0 {
            self.until_next = self.stride - 1;
        } else {
            self.until_next = self.until_next - 1;
        }
        self.position = Ghost(p + 1);
        proof {
            lemma_countdown_step(p, s);
        }
        keep
    }
}

proof fn lemma_countdown_step(p: nat, s: nat)
    requires
        s >= 1,
    ensures
        (s as int - (p % s) as int) % (s as int) == 0 <==> p % s == 0,
        p % s == 0 ==> (s as int - ((p + 1) % s) as int) % (s as int) == s - 1,
        p % s != 0 ==> (s as int - ((p + 1) % s) as int) % (s as int) == (s as int - (p % s) as int)
            % (s as int) - 1,
{
    assert((s as int - (p % s) as int) % (s as int) == 0 <==> p % s == 0) by (nonlinear_arith)
        requires s >= 1;
    assert(p % s == 0 ==> (s as int - ((p + 1) % s) as int) % (s as int) == s - 1) by (nonlinear_arith)
        requires s >= 1;
    assert(p % s != 0 ==> (s as int - ((p + 1) % s) as int) % (s as int) == (s as int - (p % s) as int)
        % (s as int) - 1) by (nonlinear_arith)
        requires s >= 1;
}

} // verus!
