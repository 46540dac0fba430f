use spectraguard::detection::peak_detector::strong_runs;
use spectraguard::native::{
    check_spectrum_sizes, select_backend, shifted_bins, validate_fft_size, NativeRuntimeConfig, PeakBackendKind,
    SpectrumSizeError,
};

#[test]
fn rust_backend_is_default() {
    let backend = select_backend(NativeRuntimeConfig::default(), true);
    assert_eq!(backend.backend_name(), "rust");

    let strong = [-40.0f32, -10.0].iter().map(|power| *power >= -35.0).collect::<Vec<_>>();
    assert_eq!(strong_runs(&strong).len(), 1);
}

#[test]
fn native_backend_is_selected_when_enabled() {
    let native_runtime = NativeRuntimeConfig { native_dsp_enabled: true, ..NativeRuntimeConfig::default() };
    let backend = select_backend(native_runtime, true);

    assert_eq!(backend.backend_name(), "native-dsp-fallback");
}

#[test]
fn native_fft_backend_is_selected_when_enabled() {
    let native_runtime = NativeRuntimeConfig { native_fft_enabled: true, ..NativeRuntimeConfig::default() };
    let backend = select_backend(native_runtime, true);

    assert_eq!(backend.backend_name(), "native-fft-fallback");
}

#[test]
fn native_backends_need_native_support_built_in() {
    let native_runtime = NativeRuntimeConfig { native_fft_enabled: true, native_dsp_enabled: true, python_ml_enabled: false };
    assert_eq!(select_backend(native_runtime, false), PeakBackendKind::Rust);
    assert!(native_runtime.uses_native_acceleration());
    assert!(!NativeRuntimeConfig::default().uses_native_acceleration());
}

#[test]
fn compute_spectrum_places_dc_bin_in_the_center_of_shifted_output() {
    let bins = shifted_bins(4);
    assert_eq!(bins, vec![2, 3, 0, 1]);
    assert_eq!(bins.iter().position(|bin| *bin == 0), Some(2));
    assert_eq!(shifted_bins(5), vec![2, 3, 4, 0, 1]);
    assert_eq!(shifted_bins(1), vec![0]);
}

#[test]
fn compute_spectrum_rejects_too_few_samples() {
    let error = check_spectrum_sizes(4, 2).err().expect("input should be rejected");

    assert!(error.message().contains("expected at least 4 IQ samples"));
    assert_eq!(error.message(), "expected at least 4 IQ samples, found 2");
}

#[test]
fn fft_size_must_be_positive() {
    assert_eq!(validate_fft_size(0), Err(SpectrumSizeError::ZeroFftSize));
    assert_eq!(validate_fft_size(8), Ok(()));
    assert_eq!(check_spectrum_sizes(0, 100), Err(SpectrumSizeError::ZeroFftSize));
    assert_eq!(check_spectrum_sizes(4, 4), Ok(()));
    assert_eq!(SpectrumSizeError::ZeroFftSize.message(), "fft size must be greater than zero");
}
