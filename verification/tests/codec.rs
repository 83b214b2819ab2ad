//! The portable form of a signature.

use shazamio_core::fingerprinting::codec::{DecodeError, FORMAT_TAG};
use shazamio_core::fingerprinting::signature_format::{
    DecodedSignature, FrequencyBand, FrequencyPeak,
};

fn example() -> DecodedSignature {
    let mut signature = DecodedSignature::new(16000, 0x0102_0380);
    signature.push_peak(
        FrequencyBand::_250_520,
        FrequencyPeak { fft_pass_number: 7, peak_magnitude: 0x1234, corrected_peak_frequency_bin: 3000 },
    );
    signature.push_peak(
        FrequencyBand::_1450_3500,
        FrequencyPeak {
            fft_pass_number: 0xAABB_CCDD,
            peak_magnitude: 65535,
            corrected_peak_frequency_bin: 20000,
        },
    );
    signature.push_peak(
        FrequencyBand::_1450_3500,
        FrequencyPeak { fft_pass_number: 0, peak_magnitude: 0, corrected_peak_frequency_bin: 12000 },
    );
    signature
}

fn example_payload() -> Vec<u8> {
    vec![
        0x53, 0x49, 0x47, 0x31, // the tag
        0x80, 0x3E, 0x00, 0x00, // 16000
        0x80, 0x03, 0x02, 0x01, // the number of samples
        1, 0, 0, 0, 0, 0, 0, 0, 2, 0, 0, 0, 0, 0, 0, 0, // the counts
        7, 0, 0, 0, 0x34, 0x12, 0xB8, 0x0B, // the peak of the lowest band
        0xDD, 0xCC, 0xBB, 0xAA, 0xFF, 0xFF, 0x20, 0x4E, // the peaks of the third band
        0, 0, 0, 0, 0, 0, 0xE0, 0x2E,
    ]
}

#[test]
fn the_payload_is_tag_header_and_records() {
    assert_eq!(FORMAT_TAG.to_le_bytes(), [b'S', b'I', b'G', b'1']);
    assert_eq!(example().encode_to_binary(), Ok(example_payload()));
}

#[test]
fn an_empty_signature_is_a_header() {
    let payload = DecodedSignature::new(16000, 0).encode_to_binary().unwrap();
    assert_eq!(payload.len(), 28);
    assert_eq!(&payload[..8], &[0x53, 0x49, 0x47, 0x31, 0x80, 0x3E, 0, 0]);
    assert_eq!(&payload[8..], &[0u8; 20]);
}

#[test]
fn decoding_gives_back_what_was_encoded() {
    let signature = example();
    let payload = signature.encode_to_binary().unwrap();
    let decoded = DecodedSignature::decode_from_binary(&payload).unwrap();
    assert_eq!(decoded, signature);
    for band in [
        FrequencyBand::_250_520,
        FrequencyBand::_520_1450,
        FrequencyBand::_1450_3500,
        FrequencyBand::_3500_5500,
    ] {
        assert_eq!(decoded.peaks(band), signature.peaks(band));
    }
    assert_eq!(decoded.encode_to_binary().unwrap(), payload);
}

#[test]
fn a_payload_decodes_to_its_signature() {
    assert_eq!(DecodedSignature::decode_from_binary(&example_payload()), Ok(example()));
}

#[test]
fn many_peaks_survive_the_round_trip() {
    let mut signature = DecodedSignature::new(16000, 160000);
    for i in 0..5000u32 {
        let band = FrequencyBand::from_index((i % 4) as usize).unwrap();
        signature.push_peak(
            band,
            FrequencyPeak {
                fft_pass_number: i.wrapping_mul(2654435761),
                peak_magnitude: (i * 13) as u16,
                corrected_peak_frequency_bin: (i * 7919) as u16,
            },
        );
    }
    let payload = signature.encode_to_binary().unwrap();
    assert_eq!(payload.len(), 28 + 8 * 5000);
    assert_eq!(DecodedSignature::decode_from_binary(&payload), Ok(signature.clone()));
    let text = signature.encode_to_uri().unwrap();
    assert_eq!(DecodedSignature::decode_from_uri(&text), Ok(signature));
}

#[test]
fn a_short_payload_is_truncated() {
    assert_eq!(DecodedSignature::decode_from_binary(&Vec::new()), Err(DecodeError::Truncated));
    assert_eq!(
        DecodedSignature::decode_from_binary(&example_payload()[..27].to_vec()),
        Err(DecodeError::Truncated)
    );
}

#[test]
fn a_payload_with_another_tag_is_refused() {
    let mut payload = example_payload();
    payload[3] = 0x32;
    assert_eq!(DecodedSignature::decode_from_binary(&payload), Err(DecodeError::BadTag));
    assert_eq!(DecodedSignature::decode_from_binary(&vec![0u8; 28]), Err(DecodeError::BadTag));
}

#[test]
fn a_payload_of_another_length_than_its_counts_say_is_refused() {
    let mut longer = example_payload();
    longer.push(0);
    assert_eq!(DecodedSignature::decode_from_binary(&longer), Err(DecodeError::BadLength));
    let mut shorter = example_payload();
    shorter.pop();
    assert_eq!(DecodedSignature::decode_from_binary(&shorter), Err(DecodeError::BadLength));
    let mut miscounted = example_payload();
    miscounted[24] = 1;
    assert_eq!(DecodedSignature::decode_from_binary(&miscounted), Err(DecodeError::BadLength));
    let mut huge = example_payload();
    huge[12..28].copy_from_slice(&[0xFF; 16]);
    assert_eq!(DecodedSignature::decode_from_binary(&huge), Err(DecodeError::BadLength));
}

#[test]
fn the_text_is_prefix_and_digits() {
    let mut signature = DecodedSignature::new(16000, 256);
    signature.push_peak(
        FrequencyBand::_3500_5500,
        FrequencyPeak { fft_pass_number: 1, peak_magnitude: 0xABCD, corrected_peak_frequency_bin: 0xEF09 },
    );
    assert_eq!(
        signature.encode_to_uri().unwrap(),
        "data:application/x-signature;base16,53494731803E000000010000000000000000000000000000\
         0100000001000000CDAB09EF"
    );
}

#[test]
fn the_text_decodes_to_its_signature() {
    let signature = example();
    let text = signature.encode_to_uri().unwrap();
    assert_eq!(text.len(), 36 + 2 * example_payload().len());
    assert_eq!(DecodedSignature::decode_from_uri(&text), Ok(signature));
}

#[test]
fn a_text_without_the_prefix_is_refused() {
    let text = example().encode_to_uri().unwrap();
    assert_eq!(DecodedSignature::decode_from_uri(""), Err(DecodeError::BadPrefix));
    assert_eq!(DecodedSignature::decode_from_uri(&text[1..]), Err(DecodeError::BadPrefix));
    assert_eq!(DecodedSignature::decode_from_uri(&text[..35]), Err(DecodeError::BadPrefix));
    assert_eq!(
        DecodedSignature::decode_from_uri(&text.replace("base16", "base64")),
        Err(DecodeError::BadPrefix)
    );
    assert_eq!(
        DecodedSignature::decode_from_uri(&text.replace("data:", "d\u{e4}ta:")),
        Err(DecodeError::BadPrefix)
    );
}

#[test]
fn a_text_with_other_than_pairs_of_digits_is_refused() {
    let text = example().encode_to_uri().unwrap();
    assert_eq!(DecodedSignature::decode_from_uri(&text[..text.len() - 1]), Err(DecodeError::BadText));
    let lower = format!("{}{}", &text[..36], text[36..].to_lowercase());
    assert_eq!(DecodedSignature::decode_from_uri(&lower), Err(DecodeError::BadText));
    assert_eq!(DecodedSignature::decode_from_uri(&format!("{}G0", text)), Err(DecodeError::BadText));
    assert_eq!(DecodedSignature::decode_from_uri(&format!("{} ", text)), Err(DecodeError::BadText));
    assert_eq!(
        DecodedSignature::decode_from_uri(&format!("{}\u{e4}\u{e4}", text)),
        Err(DecodeError::BadText)
    );
}

#[test]
fn a_text_of_digits_is_held_to_the_payload() {
    let prefix = "data:application/x-signature;base16,";
    assert_eq!(DecodedSignature::decode_from_uri(prefix), Err(DecodeError::Truncated));
    assert_eq!(
        DecodedSignature::decode_from_uri(&format!("{}{}", prefix, "00".repeat(28))),
        Err(DecodeError::BadTag)
    );
    let text = example().encode_to_uri().unwrap();
    assert_eq!(DecodedSignature::decode_from_uri(&format!("{}00", text)), Err(DecodeError::BadLength));
}
