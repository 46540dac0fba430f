//! Runtime options for native signal processing, the choice of peak
//! analysis backend, and the integer side of spectrum computation.
use vstd::prelude::*;
use crate::text::{decimal, push_decimal, push_str};

verus! {

/// Which native accelerations are switched on.
#[derive(Clone, Copy, Debug, PartialEq, Eq, Structural)]
pub struct NativeRuntimeConfig {
    pub native_dsp_enabled: bool,
    pub native_fft_enabled: bool,
    pub python_ml_enabled: bool,
}

impl Default for NativeRuntimeConfig {
    fn default() -> (c: Self)
        ensures
            !c.native_dsp_enabled && !c.native_fft_enabled && !c.python_ml_enabled,
    {
        NativeRuntimeConfig { native_dsp_enabled: false, native_fft_enabled: false, python_ml_enabled: false }
    }
}

impl NativeRuntimeConfig {
    /// Native DSP or native FFT is requested.
    pub fn uses_native_acceleration(&self) -> (b: bool)
        ensures
            b == (self.native_dsp_enabled || self.native_fft_enabled),
    {
        self.native_dsp_enabled || self.native_fft_enabled
    }
}

/// The peak analysis backend in use.
#[derive(Clone, Copy, Debug, PartialEq, Eq, Structural)]
pub enum PeakBackendKind {
    Rust,
    NativeDsp,
    NativeFft,
}

pub open spec fn backend_for(runtime: NativeRuntimeConfig, native_built: bool) -> PeakBackendKind {
    if native_built && (runtime.native_dsp_enabled || runtime.native_fft_enabled) {
        if runtime.native_fft_enabled {
            PeakBackendKind::NativeFft
        } else {
            PeakBackendKind::NativeDsp
        }
    } else {
        PeakBackendKind::Rust
    }
}

/// The backend for a runtime configuration: a native one only when native
/// support was built in and an acceleration is requested (FFT taking
/// precedence), the Rust one otherwise.
pub fn select_backend(runtime: NativeRuntimeConfig, native_built: bool) -> (k: PeakBackendKind)
    ensures
        k == backend_for(runtime, native_built),
{
    if native_built && runtime.uses_native_acceleration() {
        if runtime.native_fft_enabled {
            PeakBackendKind::NativeFft
        } else {
            PeakBackendKind::NativeDsp
        }
    } else {
        PeakBackendKind::Rust
    }
}

pub open spec fn backend_name_text(k: PeakBackendKind) -> Seq<char> {
    match k {
        PeakBackendKind::Rust => "rust"@,
        PeakBackendKind::NativeDsp => "native-dsp-fallback"@,
        PeakBackendKind::NativeFft => "native-fft-fallback"@,
    }
}

impl PeakBackendKind {
    /// The name the backend reports.
    pub fn backend_name(&self) -> (s: &'static str)
        ensures
            s@ == backend_name_text(*self),
    {
        match self {
            PeakBackendKind::Rust => "rust",
            PeakBackendKind::NativeDsp => "native-dsp-fallback",
            PeakBackendKind::NativeFft => "native-fft-fallback",
        }
    }
}

/// Why a spectrum cannot be computed from the given sizes.
#[derive(Clone, Copy, Debug, PartialEq, Eq, Structural)]
pub enum SpectrumSizeError {
    ZeroFftSize,
    TooFewSamples { fft_size: usize, found: usize },
}

pub open spec fn spectrum_size_error_text(e: SpectrumSizeError) -> Seq<char> {
    match e {
        SpectrumSizeError::ZeroFftSize => "fft size must be greater than zero"@,
        SpectrumSizeError::TooFewSamples { fft_size, found } => "expected at least "@ + decimal(fft_size as nat)
            + " IQ samples, found "@ + decimal(found as nat),
    }
}

impl SpectrumSizeError {
    /// The human-readable reason.
    pub fn message(&self) -> (m: String)
        ensures
            m@ == spectrum_size_error_text(*self),
    {
        match self {
            SpectrumSizeError::ZeroFftSize => String::from_str("fft size must be greater than zero"),
            SpectrumSizeError::TooFewSamples { fft_size, found } => {
                let mut m = String::new();
                push_str(&mut m, "expected at least ");
                push_decimal(&mut m, *fft_size as u64);
                push_str(&mut m, " IQ samples, found ");
                push_decimal(&mut m, *found as u64);
                m
            },
        }
    }
}

/// An FFT needs at least one bin.
pub fn validate_fft_size(fft_size: usize) -> (r: Result<(), SpectrumSizeError>)
    ensures
        r is Ok <==> fft_size > 0,
        r is Err ==> r == Err::<(), SpectrumSizeError>(SpectrumSizeError::ZeroFftSize),
{
    if fft_size > 0 {
        Ok(())
    } else {
        Err(SpectrumSizeError::ZeroFftSize)
    }
}

/// The sizes of a spectrum computation: a positive FFT size and at least
/// that many samples.
pub fn check_spectrum_sizes(fft_size: usize, sample_count: usize) -> (r: Result<(), SpectrumSizeError>)
    ensures
        r == (if fft_size == 0 {
            Err(SpectrumSizeError::ZeroFftSize)
        } else if sample_count < fft_size {
            Err(SpectrumSizeError::TooFewSamples { fft_size, found: sample_count })
        } else {
            Ok::<(), SpectrumSizeError>(())
        }),
{
    validate_fft_size(fft_size)?;
    if sample_count < fft_size {
        return Err(SpectrumSizeError::TooFewSamples { fft_size, found: sample_count });
    }
    Ok(())
}

/// The FFT bin shown at each output position when the zero-frequency bin is
/// moved to the centre: position `p` shows bin `(p + n/2) mod n`.
pub open spec fn shifted_bin(n: nat, p: int) -> int {
    (p + n / 2) % (n as int)
}

/// The FFT bin for each output position, zero frequency in the centre.
pub fn shifted_bins(fft_size: usize) -> (bins: Vec<usize>)
    requires
        fft_size > 0,
    ensures
        bins.len() == fft_size,
        forall|p: int| 0 <= p < fft_size ==> bins@[p] == shifted_bin(fft_size as nat, p),
{
    let half = fft_size / 2;
    let mut bins: Vec<usize> = Vec::new();
    let mut p: usize = 0;
    while p < fft_size
        invariant
            0 <= p <= fft_size,
            half == fft_size / 2,
            bins.len() == p,
            forall|q: int| 0 <= q < p ==> bins@[q] == shifted_bin(fft_size as nat, q),
        decreases fft_size - p,
    {
        let b = if p >= fft_size - half { p - (fft_size - half) } else { p + half };
        proof {
            let n = fft_size as int;
            assert(p + half < 2 * n);
            if p + half >= n {
                assert((p + half) % n == p + half - n) by {
                    vstd::arithmetic::div_mod::lemma_fundamental_div_mod_converse(p + half, n, 1, p + half - n);
                }
            } else {
                assert((p + half) % n == p + half) by {
                    vstd::arithmetic::div_mod::lemma_small_mod((p + half) as nat, n as nat);
                }
            }
        }
        bins.push(b);
        p = p + 1;
    }
    bins
}

proof fn lemma_mod_below_twice(x: int, n: int)
    requires
        0 < n,
        0 <= x < 2 * n,
    ensures
        x % n == (if x < n { x } else { x - n }),
{
    if x < n {
        vstd::arithmetic::div_mod::lemma_small_mod(x as nat, n as nat);
    } else {
        vstd::arithmetic::div_mod::lemma_fundamental_div_mod_converse(x, n, 1, x - n);
    }
}

/// The zero-frequency bin is shown at position `n - n/2` (the centre, for an
/// even size), and every bin is shown at exactly one position.
pub proof fn lemma_shift_centres_dc(n: nat)
    requires
        n > 0,
    ensures
        shifted_bin(n, n - n / 2) == 0,
        forall|p: int| 0 <= p < n ==> 0 <= #[trigger] shifted_bin(n, p) < n,
        forall|p: int, q: int|
            0 <= p < n && 0 <= q < n && #[trigger] shifted_bin(n, p) == #[trigger] shifted_bin(n, q) ==> p == q,
{
    let h = (n / 2) as int;
    let m = n as int;
    assert(shifted_bin(n, n - n / 2) == 0) by {
        vstd::arithmetic::div_mod::lemma_mod_self_0(m);
    }
    assert forall|p: int| 0 <= p < n implies 0 <= #[trigger] shifted_bin(n, p) < n by {
        lemma_mod_below_twice(p + h, m);
    }
    assert forall|p: int, q: int|
        0 <= p < n && 0 <= q < n && #[trigger] shifted_bin(n, p) == #[trigger] shifted_bin(n, q) implies p == q by {
        lemma_mod_below_twice(p + h, m);
        lemma_mod_below_twice(q + h, m);
    }
}

} // verus!
