//! The shape of the link endpoint's answer.
use vstd::prelude::*;

verus! {

/// One stream: its address and its MIME type.
#[derive(Debug)]
pub struct Link {
    /// Address of the stream; obfuscated as received, playable once decoded.
    pub src: String,
    /// MIME type of the stream, passed through unchanged.
    pub mime_type: String,
}

/// The streams of one video, by resolution.
#[derive(Debug)]
pub struct Links {
    /// Streams at 360p.
    pub quality_360: Vec<Link>,
    /// Streams at 480p.
    pub quality_480: Vec<Link>,
    /// Streams at 720p.
    pub quality_720: Vec<Link>,
}

/// The answer of the link endpoint.
#[derive(Debug)]
pub struct KodikResponse {
    /// Available streams, by resolution.
    pub links: Links,
}

/// The addresses of a list of streams.
pub open spec fn srcs(v: Seq<Link>) -> Seq<Seq<char>> {
    v.map_values(|l: Link| l.src@)
}

/// The MIME types of a list of streams.
pub open spec fn mime_types(v: Seq<Link>) -> Seq<Seq<char>> {
    v.map_values(|l: Link| l.mime_type@)
}

} // verus!
