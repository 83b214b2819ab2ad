//! The signature pipeline and the signature's portable form.

pub mod algorithm;
pub mod codec;
pub mod communication;
pub mod histories;
pub mod pipeline;
pub mod signature_format;
pub mod spectra;
pub mod uri;
