//! The signature with the data that a recognition request carries around it.

use vstd::prelude::*;
use vstd::string::StringExecFns;
use crate::errors::SignatureError;
use crate::fingerprinting::codec::EncodeError;
use crate::fingerprinting::signature_format::DecodedSignature;

verus! {

/// Where the recording is said to be made.
#[derive(Debug)]
pub struct GeolocationResponse {
    pub altitude: i16,
    pub latitude: i8,
    pub longitude: i8,
}

/// The signature as text, with the length of the analysed audio.
#[derive(Debug)]
pub struct SignatureSong {
    /// Length of the analysed audio in milliseconds.
    pub samples: u32,
    /// When the request was made, in milliseconds since 1970, cut to 32 bits.
    pub timestamp: u32,
    /// The signature as text.
    pub uri: String,
}

/// What a recognition request carries.
#[derive(Debug)]
pub struct Signature {
    pub geolocation: GeolocationResponse,
    pub signature: SignatureSong,
    /// When the request was made, in milliseconds since 1970, cut to 32 bits.
    pub timestamp: u32,
    pub timezone: String,
}

/// Why a request could not be made of a signature.
#[derive(Debug, Clone, Copy, PartialEq, Eq, Structural)]
pub enum RequestError {
    /// The clock stands before 1970.
    ClockBeforeEpoch,
    /// The signature has no portable form: a band holds too many peaks.
    TooManyPeaks,
}

impl RequestError {
    /// What the error says.
    pub open spec fn spec_message(self) -> Seq<char> {
        match self {
            RequestError::ClockBeforeEpoch => "the system clock stands before 1970"@,
            RequestError::TooManyPeaks => "a band of the signature holds too many peaks"@,
        }
    }

    /// What the error says.
    pub fn message(self) -> (text: String)
        ensures
            text@ == self.spec_message(),
    {
        match self {
            RequestError::ClockBeforeEpoch => String::from_str(
                "the system clock stands before 1970",
            ),
            RequestError::TooManyPeaks => String::from_str(
                "a band of the signature holds too many peaks",
            ),
        }
    }
}

/// The altitude that every request names.
pub const ALTITUDE: i16 = 300;

/// The latitude that every request names.
pub const LATITUDE: i8 = 45;

/// The longitude that every request names.
pub const LONGITUDE: i8 = 2;

/// The time zone that every request names.
pub open spec fn timezone() -> Seq<char> {
    "Europe/Paris"@
}

/// The length in whole milliseconds of a number of samples at a rate, at most
/// `u32::MAX`. At a rate of zero no samples last no time and any samples last forever.
pub open spec fn duration_ms(number_samples: u32, sample_rate_hz: u32) -> u32 {
    if sample_rate_hz == 0 {
        if number_samples == 0 {
            0
        } else {
            u32::MAX
        }
    } else if number_samples as int * 1000 / sample_rate_hz as int > u32::MAX {
        u32::MAX
    } else {
        (number_samples as int * 1000 / sample_rate_hz as int) as u32
    }
}

/// A time in milliseconds cut to 32 bits.
pub open spec fn low_32_bits(timestamp_ms: u128) -> u32 {
    (timestamp_ms % 0x1_0000_0000) as u32
}

/// Whether a request is a request made of a signature, at whatever time: it names the
/// fixed place and time zone, the length of the analysed audio and the signature as
/// text, and gives the same time in both places.
pub open spec fn is_request_of(request: Signature, signature: DecodedSignature) -> bool {
    &&& request.geolocation.altitude == ALTITUDE
    &&& request.geolocation.latitude == LATITUDE
    &&& request.geolocation.longitude == LONGITUDE
    &&& request.signature.samples == duration_ms(signature.number_samples, signature.sample_rate_hz)
    &&& request.signature.uri@ == signature@.uri()
    &&& request.signature.timestamp == request.timestamp
    &&& request.timezone@ == timezone()
}

/// Whether a request is the request made of a signature at a time.
pub open spec fn is_request_at(
    request: Signature,
    signature: DecodedSignature,
    timestamp_ms: u128,
) -> bool {
    &&& is_request_of(request, signature)
    &&& request.timestamp == low_32_bits(timestamp_ms)
}

/// A point in time as the system clock gives it.
#[verifier::external_type_specification]
#[verifier::external_body]
pub struct ExSystemTime(std::time::SystemTime);

/// The error of a clock that stands before the time it is compared with.
#[verifier::external_type_specification]
#[verifier::external_body]
pub struct ExSystemTimeError(std::time::SystemTimeError);

/// Calls `std::time::SystemTime::now`. Nothing is claimed of the time it gives.
#[verifier::external_body]
fn now() -> (now: std::time::SystemTime) {
    std::time::SystemTime::now()
}

/// Calls `std::time::SystemTime::duration_since` with the start of 1970 as the earlier
/// time. Nothing is claimed of the result: the clock decides whether there is one.
#[verifier::external_body]
fn since_epoch(time: &std::time::SystemTime) -> (elapsed: Result<
    std::time::Duration,
    std::time::SystemTimeError,
>) {
    time.duration_since(std::time::UNIX_EPOCH)
}

/// Calls `std::time::Duration::as_millis`. Nothing is claimed of the number it gives.
#[verifier::external_body]
fn whole_millis(elapsed: &std::time::Duration) -> (millis: u128) {
    elapsed.as_millis()
}

/// The length in whole milliseconds of a number of samples at a rate.
pub fn duration_in_ms(number_samples: u32, sample_rate_hz: u32) -> (millis: u32)
    ensures
        millis == duration_ms(number_samples, sample_rate_hz),
{
    if sample_rate_hz == 0 {
        if number_samples == 0 {
            0
        } else {
            u32::MAX
        }
    } else {
        let millis: u64 = number_samples as u64 * 1000 / sample_rate_hz as u64;
        if millis > u32::MAX as u64 {
            u32::MAX
        } else {
            millis as u32
        }
    }
}

/// Makes the request of a signature at a given time in milliseconds since 1970.
pub fn signature_json_at(signature: &DecodedSignature, timestamp_ms: u128) -> (result: Result<
    Signature,
    RequestError,
>)
    ensures
        match result {
            Ok(request) => signature@.encodable() && is_request_at(
                request,
                *signature,
                timestamp_ms,
            ),
            Err(error) => !signature@.encodable() && error == RequestError::TooManyPeaks,
        },
{
    let uri = match signature.encode_to_uri() {
        Ok(uri) => uri,
        Err(EncodeError::TooManyPeaks) => {
            return Err(RequestError::TooManyPeaks);
        },
    };
    let timestamp: u32 = (timestamp_ms % 0x1_0000_0000) as u32;
    Ok(
        Signature {
            geolocation: GeolocationResponse {
                altitude: ALTITUDE,
                latitude: LATITUDE,
                longitude: LONGITUDE,
            },
            signature: SignatureSong {
                samples: duration_in_ms(signature.number_samples, signature.sample_rate_hz),
                timestamp,
                uri,
            },
            timestamp,
            timezone: String::from_str("Europe/Paris"),
        },
    )
}

/// Makes the request of a signature at the time the clock shows. A clock that stands
/// before 1970 gives `ClockBeforeEpoch`; else the request is made of the signature,
/// and only a signature without a portable form has none.
pub fn get_signature_json(signature: &DecodedSignature) -> (result: Result<
    Signature,
    RequestError,
>)
    ensures
        match result {
            Ok(request) => signature@.encodable() && is_request_of(request, *signature),
            Err(RequestError::TooManyPeaks) => !signature@.encodable(),
            Err(RequestError::ClockBeforeEpoch) => true,
        },
{
    let time = now();
    let timestamp_ms = match since_epoch(&time) {
        Ok(elapsed) => whole_millis(&elapsed),
        Err(_) => {
            return Err(RequestError::ClockBeforeEpoch);
        },
    };
    signature_json_at(signature, timestamp_ms)
}

/// Makes the request of a signature at the time the clock shows, with a failure
/// told as a signature error that carries what the failure says.
pub fn unwrap_decoded_signature(data: DecodedSignature) -> (result: Result<
    Signature,
    SignatureError,
>)
    ensures
        match result {
            Ok(request) => data@.encodable() && is_request_of(request, data),
            Err(error) => {
                ||| error.spec_message() == RequestError::ClockBeforeEpoch.spec_message()
                ||| !data@.encodable() && error.spec_message()
                    == RequestError::TooManyPeaks.spec_message()
            },
        },
{
    match get_signature_json(&data) {
        Ok(request) => Ok(request),
        Err(error) => Err(SignatureError::new(error.message())),
    }
}

} // verus!
