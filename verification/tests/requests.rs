//! Requests, parameters and errors.

use shazamio_core::errors::SignatureError;
use shazamio_core::fingerprinting::algorithm::select_segment;
use shazamio_core::fingerprinting::communication::{
    duration_in_ms, get_signature_json, signature_json_at, unwrap_decoded_signature, RequestError,
};
use shazamio_core::fingerprinting::signature_format::{
    DecodedSignature, FrequencyBand, FrequencyPeak,
};
use shazamio_core::params::SearchParams;

fn example() -> DecodedSignature {
    let mut signature = DecodedSignature::new(16000, 160000);
    signature.push_peak(
        FrequencyBand::_520_1450,
        FrequencyPeak { fft_pass_number: 3, peak_magnitude: 9000, corrected_peak_frequency_bin: 8000 },
    );
    signature
}

#[test]
fn a_request_names_place_time_and_signature() {
    let signature = example();
    let request = signature_json_at(&signature, 1_700_000_000_123).unwrap();
    assert_eq!(request.geolocation.altitude, 300);
    assert_eq!(request.geolocation.latitude, 45);
    assert_eq!(request.geolocation.longitude, 2);
    assert_eq!(request.signature.samples, 10000);
    assert_eq!(request.signature.timestamp, (1_700_000_000_123u128 % (1u128 << 32)) as u32);
    assert_eq!(request.signature.timestamp, 3_487_918_203);
    assert_eq!(request.timestamp, 3_487_918_203);
    assert_eq!(request.timezone, "Europe/Paris");
    assert_eq!(request.signature.uri, signature.encode_to_uri().unwrap());
    assert_eq!(DecodedSignature::decode_from_uri(&request.signature.uri), Ok(signature));
}

#[test]
fn a_request_at_the_clock_time_names_the_same_signature() {
    let signature = example();
    let request = get_signature_json(&signature).unwrap();
    assert_eq!(request.signature.samples, 10000);
    assert_eq!(request.timestamp, request.signature.timestamp);
    assert_eq!(request.signature.uri, signature.encode_to_uri().unwrap());
    assert_eq!(request.timezone, "Europe/Paris");
    assert_eq!(request.geolocation.altitude, 300);
}

#[test]
fn the_length_of_the_audio_is_in_whole_milliseconds() {
    assert_eq!(duration_in_ms(16000, 16000), 1000);
    assert_eq!(duration_in_ms(15, 16000), 0);
    assert_eq!(duration_in_ms(16, 16000), 1);
    assert_eq!(duration_in_ms(31, 16000), 1);
    assert_eq!(duration_in_ms(192000, 16000), 12000);
    assert_eq!(duration_in_ms(u32::MAX, 16000), 268435455);
    assert_eq!(duration_in_ms(u32::MAX, 1), u32::MAX);
    assert_eq!(duration_in_ms(0, 0), 0);
    assert_eq!(duration_in_ms(1, 0), u32::MAX);
    assert_eq!(duration_in_ms(44100, 44100), 1000);
}

#[test]
fn search_params_default_to_ten_seconds() {
    assert_eq!(SearchParams::new(None).segment_duration_seconds, 10);
    assert_eq!(SearchParams::new(Some(12)).segment_duration_seconds, 12);
    assert_eq!(SearchParams::new(Some(0)).segment_duration_seconds, 0);
}

#[test]
fn a_signature_error_carries_its_message() {
    let error = SignatureError::new("no audio".to_string());
    assert_eq!(error.message(), "no audio");
    assert_eq!(error.describe(), "SignatureError(no audio)");
}

#[test]
fn a_short_waveform_is_its_own_segment() {
    let samples: Vec<i16> = (0..1000).map(|i| i as i16).collect();
    assert_eq!(select_segment(&samples, 1), samples);
    assert_eq!(select_segment(&samples, 10), samples);
    assert_eq!(select_segment(&Vec::new(), 10), Vec::<i16>::new());
    let exact: Vec<i16> = (0..16000).map(|i| i as i16).collect();
    assert_eq!(select_segment(&exact, 1), exact);
}

#[test]
fn a_long_waveform_is_cut_around_its_middle() {
    let samples: Vec<i16> = (0..40001).map(|i| (i % 30000) as i16).collect();
    // The middle is 20000, half a target 8000.
    assert_eq!(select_segment(&samples, 1), samples[12000..28000].to_vec());
    let samples: Vec<i16> = (0..16001).map(|i| i as i16).collect();
    assert_eq!(select_segment(&samples, 1), samples[0..16000].to_vec());
    let samples: Vec<i16> = (0..16002).map(|i| i as i16).collect();
    assert_eq!(select_segment(&samples, 1), samples[1..16001].to_vec());
    assert_eq!(select_segment(&samples, 0), Vec::<i16>::new());
}

#[test]
fn a_duration_beyond_any_waveform_keeps_it_whole() {
    let samples: Vec<i16> = (0..5000).map(|i| i as i16).collect();
    assert_eq!(select_segment(&samples, u32::MAX), samples);
}

#[test]
fn an_unwrapped_signature_is_its_request() {
    let signature = example();
    let request = unwrap_decoded_signature(example()).unwrap();
    assert_eq!(request.signature.uri, signature.encode_to_uri().unwrap());
    assert_eq!(request.signature.samples, 10000);
    assert_eq!(request.timestamp, request.signature.timestamp);
}

#[test]
fn request_errors_say_what_failed() {
    assert_eq!(RequestError::ClockBeforeEpoch.message(), "the system clock stands before 1970");
    assert_eq!(
        RequestError::TooManyPeaks.message(),
        "a band of the signature holds too many peaks"
    );
}
