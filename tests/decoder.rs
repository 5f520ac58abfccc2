use kodik_parser::decoder::{b64, caesar_cipher, decode_link, decode_links, try_decode, ShiftCache};
use kodik_parser::text::replace;
use kodik_parser::{Error, KodikResponse, Link, Links};

const SRC_360: &str = "iPZ0kPU6Tg9eVBGci29siEaciE5ujg9hT20dBPs5iuRPWBNiYhDgGrRAkON5UFxsZht5EDlsjMfbBvHqChsfGhREmEZGYvVqUsHzG3s4ms9Ci3tHjDxwB1UeVDtyGhVUDNM0EtZRlM9PEuxHChI1EslAjDtCHhDVmtRwB0ZDThM1GrQgVBtsWBs1GhHrVEC1V2Y0VuVuVrGeVBGeVrHpUBM2UuG3UhZqVBJrGBZuGhM5UrHpGBHuUro0V2UeUBI6UrIgVBI4UBYgUA8hVrIcjFI0WupakhxbGE5xHuDhlK5bU3C4";
const SRC_480: &str = "iPZ0kPU6Tg9eUhYci29siEaciE5ujg9hT20dBPs5iuRPWBNiYhDgGrRAkON5UFxsZht5EDlsjMfbBvHqChsfGhREmEZGYvVqUsHzG3s4ms9Ci3tHjDxwB1UeVDtyGhVUDNM0EtZRlM9PEuxHChI1EslAjDtCHhDVmtRwB0ZDThM1GrQgVBtsWBs1GhHrVEC1V2Y0VuVuVrGeVBGeVrHpUBM2UuG3UhZqVBJrGBZuGhM5UrHpGBHuUro0V2UeUBI6UrIgVBI4UBYgUA80WLIcjFI0WupakhxbGE5xHuDhlK5bU3C4";
const SRC_720: &str = "iPZ0kPU6Tg9eVBGci29siEaciE5ujg9hT20dBPs5iuRPWBNiYhDgGrRAkON5UFxsZht5EDlsjMfbBvHqChsfGhREmEZGYvVqUsHzG3s4ms9Ci3tHjDxwB1UeVDtyGhVUDNM0EtZRlM9PEuxHChI1EslAjDtCHhDVmtRwB0ZDThM1GrQgVBtsWBs1GhHrVEC1V2Y0VuVuVrGeVBGeVrHpUBM2UuG3UhZqVBJrGBZuGhM5UrHpGBHuUro0V2UeUBI6UrIgVBI4UBYgUA80WLIcjFI0WupakhxbGE5xHuDhlK5bU3C4";
const PLAIN_360: &str = "https://p56.kodik.info/s/m/Ly9jbG91ZC5rb2Rpay1zdG9yYWdlLmNvbS91c2VydXBsb2Fkcy8zOTkyYmZhOS05Yjc3LTQ4ZTItOGZjYS05ZGRmYTg5MzRhODU/15b2259d995c6c5e57d46cf66056066a1162f734b50ca4fc1926aa6f2847c010:2025081421/360.mp4:hls:manifest.m3u8";
const PLAIN_480: &str = "https://p56.kodik.info/s/m/Ly9jbG91ZC5rb2Rpay1zdG9yYWdlLmNvbS91c2VydXBsb2Fkcy8zOTkyYmZhOS05Yjc3LTQ4ZTItOGZjYS05ZGRmYTg5MzRhODU/15b2259d995c6c5e57d46cf66056066a1162f734b50ca4fc1926aa6f2847c010:2025081421/480.mp4:hls:manifest.m3u8";
const PLAIN_720: &str = "https://p56.kodik.info/s/m/Ly9jbG91ZC5rb2Rpay1zdG9yYWdlLmNvbS91c2VydXBsb2Fkcy8zOTkyYmZhOS05Yjc3LTQ4ZTItOGZjYS05ZGRmYTg5MzRhODU/15b2259d995c6c5e57d46cf66056066a1162f734b50ca4fc1926aa6f2847c010:2025081421/720.mp4:hls:manifest.m3u8";
const MIME: &str = "application/x-mpegURL";

fn link(src: &str) -> Link {
    Link { src: src.to_owned(), mime_type: MIME.to_owned() }
}

/// Rotates letters forward, as the site does before publishing a link.
fn rotate_forward(text: &str, shift: u8) -> String {
    text.chars()
        .map(|c| {
            if c.is_ascii_lowercase() {
                (b'a' + (c as u8 - b'a' + shift) % 26) as char
            } else if c.is_ascii_uppercase() {
                (b'A' + (c as u8 - b'A' + shift) % 26) as char
            } else {
                c
            }
        })
        .collect()
}

#[test]
fn test_b64() {
    let input = "L2Z0b3I=";
    let decoded = b64(input).unwrap();
    assert_eq!("/ftor", decoded);
}

#[test]
fn test_caesar_cipher() {
    let text = SRC_360;
    let decoded = caesar_cipher(text, 8);
    assert_eq!(
        "aHR0cHM6Ly9wNTYua29kaWsuaW5mby9zL20vTHk5amJHOTFaQzVyYjJScGF5MXpkRzl5WVdkbExtTnZiUzkxYzJWeWRYQnNiMkZrY3k4ek9Ua3lZbVpoT1MwNVlqYzNMVFE0WlRJdE9HWmpZUzA1WkdSbVlUZzVNelJoT0RVLzE1YjIyNTlkOTk1YzZjNWU1N2Q0NmNmNjYwNTYwNjZhMTE2MmY3MzRiNTBjYTRmYzE5MjZhYTZmMjg0N2MwMTA6MjAyNTA4MTQyMS8zNjAubXA0OmhsczptYW5pZmVzdC5tM3U4",
        decoded
    );
}

#[test]
fn test_try_decode() {
    let decoded = try_decode(SRC_360, 8).unwrap();
    assert_eq!(PLAIN_360, decoded);
}

#[test]
fn test_decode_link() {
    let mut cache = ShiftCache::new();
    let decoded = decode_link(SRC_360, &mut cache).unwrap();
    assert_eq!(PLAIN_360, decoded);
}

#[test]
fn test_decode_links() {
    let mut kodik_response = KodikResponse {
        links: Links {
            quality_360: vec![link(SRC_360)],
            quality_480: vec![link(SRC_480)],
            quality_720: vec![link(SRC_720)],
        },
    };
    let mut cache = ShiftCache::new();
    decode_links(&mut kodik_response, &mut cache).unwrap();

    assert_eq!(PLAIN_360, kodik_response.links.quality_360.first().unwrap().src);
    assert_eq!(PLAIN_480, kodik_response.links.quality_480.first().unwrap().src);
    assert_eq!(PLAIN_720, kodik_response.links.quality_720.first().unwrap().src);
}

#[test]
fn caesar_keeps_case_digits_and_punctuation() {
    assert_eq!("xyz XYZ 09+/=", caesar_cipher("abc ABC 09+/=", 3));
    assert_eq!("abc", caesar_cipher("abc", 26));
    assert_eq!("", caesar_cipher("", 5));
}

#[test]
fn try_decode_pads_to_a_multiple_of_four() {
    // "L2Z0b3I" lacks its padding; rotation 0 leaves it as it is.
    assert_eq!("/ftor", try_decode("L2Z0b3I", 0).unwrap());
    assert_eq!("/ftor", try_decode(&rotate_forward("L2Z0b3I", 5), 5).unwrap());
}

#[test]
fn decode_link_caches_the_rotation() {
    let mut cache = ShiftCache::new();
    assert_eq!(0, cache.shift());
    assert_eq!(PLAIN_360, decode_link(SRC_360, &mut cache).unwrap());
    assert_eq!(8, cache.shift());
    // A second decoding takes the cached rotation and gives the same text.
    assert_eq!(PLAIN_360, decode_link(SRC_360, &mut cache).unwrap());
    assert_eq!(8, cache.shift());
}

#[test]
fn rotation_round_trip() {
    let encoded = "aHR0cHM6Ly9leGFtcGxlLmNvbS92aWRlby8zNjAubXA0"; // https://example.com/video/360.mp4
    for k in [8u8, 13, 25] {
        let hidden = rotate_forward(encoded, k);
        assert_eq!("https://example.com/video/360.mp4", try_decode(&hidden, k).unwrap());
        let mut cache = ShiftCache::new();
        let first = decode_link(&hidden, &mut cache).unwrap();
        let found = cache.shift();
        assert!((1..=k).contains(&found));
        assert_eq!(try_decode(&hidden, found).unwrap(), first);
        // Cached: the same rotation again, the same text.
        assert_eq!(first, decode_link(&hidden, &mut cache).unwrap());
        assert_eq!(found, cache.shift());
    }
}

#[test]
fn undecodable_link_is_reported() {
    let mut cache = ShiftCache::new();
    match decode_link("!!!!", &mut cache) {
        Err(Error::LinkCannotBeDecoded(src)) => assert_eq!("!!!!", src),
        other => panic!("unexpected: {other:?}"),
    }
    assert_eq!(0, cache.shift());
}

#[test]
fn b64_rejects_bad_text_and_bad_utf8() {
    assert!(matches!(b64("!!!"), Err(Error::Decode(_))));
    assert!(matches!(b64("/w=="), Err(Error::FromUtf8(_))));
    assert_eq!("", b64("").unwrap());
}

#[test]
fn decode_links_without_360_decodes_each_tier() {
    let mut response = KodikResponse {
        links: Links { quality_360: vec![], quality_480: vec![link(SRC_480)], quality_720: vec![link(SRC_360)] },
    };
    let mut cache = ShiftCache::new();
    decode_links(&mut response, &mut cache).unwrap();
    assert_eq!(PLAIN_480.replace("p56", "p34"), response.links.quality_480[0].src);
    assert_eq!(PLAIN_360, response.links.quality_720[0].src);
    assert_eq!(MIME, response.links.quality_720[0].mime_type);
    assert_eq!(8, cache.shift());
}

#[test]
fn decode_links_derives_every_higher_tier_entry() {
    let mut response = KodikResponse {
        links: Links {
            quality_360: vec![link(SRC_360)],
            quality_480: vec![link("unused"), link("also unused")],
            quality_720: vec![],
        },
    };
    let mut cache = ShiftCache::new();
    decode_links(&mut response, &mut cache).unwrap();
    assert_eq!(2, response.links.quality_480.len());
    assert_eq!(PLAIN_480, response.links.quality_480[0].src);
    assert_eq!(PLAIN_480, response.links.quality_480[1].src);
    assert!(response.links.quality_720.is_empty());
}

#[test]
fn decode_links_reports_the_failing_link() {
    let mut response = KodikResponse {
        links: Links { quality_360: vec![link(SRC_360), link("!!!!")], quality_480: vec![], quality_720: vec![] },
    };
    let mut cache = ShiftCache::new();
    match decode_links(&mut response, &mut cache) {
        Err(Error::LinkCannotBeDecoded(src)) => assert_eq!("!!!!", src),
        other => panic!("unexpected: {other:?}"),
    }
    assert_eq!(PLAIN_360, response.links.quality_360[0].src);
    assert_eq!(2, response.links.quality_360.len());
    assert_eq!(MIME, response.links.quality_360[1].mime_type);
}

#[test]
fn try_decode_names_the_failing_step() {
    assert!(matches!(try_decode("!!!!", 3), Err(Error::Decode(_))));
    assert!(matches!(try_decode("/w==", 0), Err(Error::FromUtf8(_))));
}

#[test]
fn replace_swaps_every_occurrence() {
    assert_eq!("a/480.mp4b/480.mp4", replace("a/360.mp4b/360.mp4", "/360.mp4", "/480.mp4"));
    assert_eq!("no segment", replace("no segment", "/360.mp4", "/480.mp4"));
    assert_eq!("xx", replace("aaaa", "aa", "x"));
}
