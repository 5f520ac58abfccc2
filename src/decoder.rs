//! Decoding of obfuscated stream links.
//!
//! A link is a base64 text whose letters were rotated forward through the
//! alphabet. Decoding rotates them back, pads the text, decodes the base64 and
//! checks that the bytes are UTF-8. The rotation is unknown: the first one of
//! `1..=25` that gives a valid text is taken and kept in a [`ShiftCache`], which
//! later decodings try first.
use base64::Engine as _;
use vstd::prelude::*;
use vstd::utf8::{decode_utf8, valid_utf8};

use crate::error::Error;
use crate::scraper::{mime_types, srcs, KodikResponse, Link, Links};
use crate::text::{lemma_replace_single, occurs_at, push_char, replace, replace_all};
use vstd::string::StrSliceExecFns;

verus! {

/// The bytes that standard base64 (canonical padding) gives for a text, or
/// `None` where it rejects the text.
pub uninterp spec fn base64_standard(s: Seq<char>) -> Option<Seq<u8>>;

/// Relies on `Engine::decode` of `base64::engine::general_purpose::STANDARD`:
/// it rejects the text or returns its bytes, which depend on the text alone.
#[verifier::external_body]
fn decode_base64(input: &str) -> (r: Result<Vec<u8>, base64::DecodeError>)
    ensures
        match r {
            Ok(bytes) => base64_standard(input@) == Some(bytes@),
            Err(_) => base64_standard(input@) is None,
        },
{
    base64::engine::general_purpose::STANDARD.decode(input)
}

/// Relies on `String::from_utf8`: it accepts exactly the valid UTF-8 byte
/// sequences and then holds the characters that they encode.
#[verifier::external_body]
fn string_from_utf8(bytes: Vec<u8>) -> (r: Result<String, std::string::FromUtf8Error>)
    ensures
        match r {
            Ok(s) => valid_utf8(bytes@) && s@ == decode_utf8(bytes@),
            Err(_) => !valid_utf8(bytes@),
        },
{
    String::from_utf8(bytes)
}

/// The text that a base64 text stands for: its bytes read as UTF-8.
pub open spec fn base64_text(s: Seq<char>) -> Option<Seq<char>> {
    match base64_standard(s) {
        Some(bytes) => if valid_utf8(bytes) {
            Some(decode_utf8(bytes))
        } else {
            None
        },
        None => None,
    }
}

/// Decodes a standard base64 text into the string that its bytes encode.
pub fn b64(input: &str) -> (r: Result<String, Error>)
    ensures
        match r {
            Ok(s) => base64_text(input@) == Some(s@),
            Err(e) => base64_text(input@) is None && match e {
                Error::Decode(_) => base64_standard(input@) is None,
                Error::FromUtf8(_) => base64_standard(input@) is Some,
                _ => false,
            },
        },
{
    match decode_base64(input) {
        Ok(bytes) => match string_from_utf8(bytes) {
            Ok(s) => Ok(s),
            Err(e) => Err(Error::FromUtf8(e)),
        },
        Err(e) => Err(Error::Decode(e)),
    }
}

/// Whether `c` is a lower-case ASCII letter.
pub open spec fn is_lower(c: char) -> bool {
    'a' <= c && c <= 'z'
}

/// Whether `c` is an upper-case ASCII letter.
pub open spec fn is_upper(c: char) -> bool {
    'A' <= c && c <= 'Z'
}

/// The letter `shift` places before `c` in its alphabet, wrapping around;
/// any other character is kept.
pub open spec fn rotate_back_char(c: char, shift: u8) -> char {
    if is_lower(c) {
        ('a' as int + (c as int - 'a' as int + 26 - shift as int) % 26) as char
    } else if is_upper(c) {
        ('A' as int + (c as int - 'A' as int + 26 - shift as int) % 26) as char
    } else {
        c
    }
}

/// The letter `shift` places after `c` in its alphabet, wrapping around;
/// any other character is kept. This is how the site hides its links.
pub open spec fn rotate_char(c: char, shift: u8) -> char {
    if is_lower(c) {
        ('a' as int + (c as int - 'a' as int + shift as int) % 26) as char
    } else if is_upper(c) {
        ('A' as int + (c as int - 'A' as int + shift as int) % 26) as char
    } else {
        c
    }
}

/// Every letter of `s` rotated back by `shift`.
pub open spec fn rotate_back(s: Seq<char>, shift: u8) -> Seq<char> {
    s.map_values(|c: char| rotate_back_char(c, shift))
}

/// Every letter of `s` rotated forward by `shift`.
pub open spec fn rotate(s: Seq<char>, shift: u8) -> Seq<char> {
    s.map_values(|c: char| rotate_char(c, shift))
}

fn rotate_back_one(c: char, shift: u8) -> (r: char)
    ensures
        r == rotate_back_char(c, shift),
{
    let s: u32 = (shift % 26) as u32;
    if 'a' <= c && c <= 'z' {
        let p: u32 = (c as u32) - ('a' as u32);
        let q: u32 = (p + 26 - s) % 26;
        assert((p + 26 - s) % 26 == (p as int + 26 - shift as int) % 26) by (nonlinear_arith)
            requires
                s == shift as int % 26,
                0 <= p < 26,
        ;
        ((q as u8) + 97u8) as char
    } else if 'A' <= c && c <= 'Z' {
        let p: u32 = (c as u32) - ('A' as u32);
        let q: u32 = (p + 26 - s) % 26;
        assert((p + 26 - s) % 26 == (p as int + 26 - shift as int) % 26) by (nonlinear_arith)
            requires
                s == shift as int % 26,
                0 <= p < 26,
        ;
        ((q as u8) + 65u8) as char
    } else {
        c
    }
}

/// Rotates every ASCII letter of `text` back by `shift` places within its own
/// case; other characters are kept.
pub fn caesar_cipher(text: &str, shift: u8) -> (r: String)
    ensures
        r@ == rotate_back(text@, shift),
{
    let mut r = String::new();
    for c in it: text.chars()
        invariant
            it.seq() == text@,
            r@ == rotate_back(it.seq().subrange(0, it.index() as int), shift),
    {
        let ghost done = it.seq().subrange(0, it.index() as int);
        push_char(&mut r, rotate_back_one(c, shift));
        assert(rotate_back(it.seq().subrange(0, it.index() + 1), shift) =~= rotate_back(done, shift).push(
            rotate_back_char(c, shift),
        ));
    }
    r
}

/// `s` followed by as many `=` as bring its length to a multiple of four.
pub open spec fn padded(s: Seq<char>) -> Seq<char> {
    s + Seq::new(((4 - s.len() % 4) % 4) as nat, |i: int| '=')
}

/// The text that `src` stands for under rotation `shift`, if it is one.
pub open spec fn attempt(src: Seq<char>, shift: u8) -> Option<Seq<char>> {
    base64_text(padded(rotate_back(src, shift)))
}

/// The least rotation in `from..=25` under which `src` decodes.
pub open spec fn search_from(src: Seq<char>, from: int) -> Option<u8>
    decreases 26 - from,
{
    if from < 1 || from > 25 {
        None
    } else if attempt(src, from as u8) is Some {
        Some(from as u8)
    } else {
        search_from(src, from + 1)
    }
}

/// The least rotation in `1..=25` under which `src` decodes.
pub open spec fn search(src: Seq<char>) -> Option<u8> {
    search_from(src, 1)
}

/// What decoding `src` gives when the cache holds `cached`: the text and the
/// rotation that the cache holds afterwards, or `None` where no rotation works.
/// A cached rotation (not 0) that works is used without a search.
pub open spec fn link_outcome(cached: u8, src: Seq<char>) -> Option<(Seq<char>, u8)> {
    if cached != 0 && attempt(src, cached) is Some {
        Some((attempt(src, cached)->0, cached))
    } else {
        match search(src) {
            Some(k) => Some((attempt(src, k)->0, k)),
            None => None,
        }
    }
}

/// Rotates `src` back by `shift`, pads it with `=` to a multiple of four
/// characters and decodes it as base64 text.
pub fn try_decode(src: &str, shift: u8) -> (r: Result<String, Error>)
    ensures
        match r {
            Ok(s) => attempt(src@, shift) == Some(s@),
            Err(e) => attempt(src@, shift) is None && match e {
                Error::Decode(_) => base64_standard(padded(rotate_back(src@, shift))) is None,
                Error::FromUtf8(_) => base64_standard(padded(rotate_back(src@, shift))) is Some,
                _ => false,
            },
        },
{
    let mut decoded = caesar_cipher(src, shift);
    let n = src.unicode_len();
    let pad = (4 - n % 4) % 4;
    let mut i: usize = 0;
    while i < pad
        invariant
            n == src@.len(),
            pad == (4 - n % 4) % 4,
            i <= pad,
            decoded@ == rotate_back(src@, shift) + Seq::new(i as nat, |j: int| '='),
        decreases pad - i,
    {
        push_char(&mut decoded, '=');
        i += 1;
        assert(decoded@ =~= rotate_back(src@, shift) + Seq::new(i as nat, |j: int| '='));
    }
    b64(decoded.as_str())
}

/// The rotation found by earlier decodings; 0 while none is known.
pub struct ShiftCache {
    shift: u8,
}

impl View for ShiftCache {
    type V = u8;

    closed spec fn view(&self) -> u8 {
        self.shift
    }
}

impl ShiftCache {
    /// The rotation held is 0 (none known) or one of `1..=25`.
    #[verifier::type_invariant]
    spec fn inv(&self) -> bool {
        self.shift <= 25
    }

    /// A cache that knows no rotation yet.
    pub fn new() -> (r: ShiftCache)
        ensures
            r@ == 0,
    {
        ShiftCache { shift: 0 }
    }

    /// The rotation held, 0 if none.
    pub fn shift(&self) -> (r: u8)
        ensures
            r == self@,
            r <= 25,
    {
        proof {
            use_type_invariant(self);
        }
        self.shift
    }
}

proof fn lemma_search_skips(src: Seq<char>, from: int)
    requires
        1 <= from <= 25,
        attempt(src, from as u8) is None,
    ensures
        search_from(src, from) == search_from(src, from + 1),
{
}

/// Decodes one link: first with the cached rotation, if any, then by trying
/// the rotations `1..=25` in order; the rotation that works is cached.
pub fn decode_link(src: &str, cache: &mut ShiftCache) -> (r: Result<String, Error>)
    ensures
        match link_outcome(old(cache)@, src@) {
            Some((text, k)) => r is Ok && r->Ok_0@ == text && final(cache)@ == k,
            None => r is Err && r->Err_0 is LinkCannotBeDecoded
                && r->Err_0->LinkCannotBeDecoded_0@ == src@ && final(cache)@ == old(cache)@,
        },
        final(cache)@ <= 25,
{
    proof {
        use_type_invariant(&*cache);
    }
    let shift = cache.shift;
    if shift != 0 {
        if let Ok(decoded) = try_decode(src, shift) {
            return Ok(decoded);
        }
    }
    let mut k: u8 = 1;
    while k <= 25
        invariant
            1 <= k <= 26,
            cache@ == old(cache)@,
            old(cache)@ == 0 || attempt(src@, old(cache)@) is None,
            search(src@) == search_from(src@, k as int),
        decreases 26 - k,
    {
        match try_decode(src, k) {
            Ok(decoded) => {
                cache.shift = k;
                return Ok(decoded);
            },
            Err(_) => {
                proof {
                    lemma_search_skips(src@, k as int);
                }
            },
        }
        k += 1;
    }
    Err(Error::LinkCannotBeDecoded(src.to_owned()))
}

/// Decoding a list of links in order, starting with `cached` in the cache:
/// the decoded links and the rotation cached at the end, or the first link that
/// no rotation decodes.
pub open spec fn decoded_tier(cached: u8, links: Seq<Seq<char>>) -> Result<(Seq<Seq<char>>, u8), Seq<char>>
    decreases links.len(),
{
    if links.len() == 0 {
        Ok((Seq::empty(), cached))
    } else {
        match decoded_tier(cached, links.drop_last()) {
            Ok((done, k)) => match link_outcome(k, links.last()) {
                Some((text, k2)) => Ok((done.push(text), k2)),
                None => Err(links.last()),
            },
            Err(s) => Err(s),
        }
    }
}

/// The segment of a decoded address that names its resolution.
pub open spec fn segment(q: int) -> Seq<char> {
    if q == 480 {
        "/480.mp4"@
    } else if q == 720 {
        "/720.mp4"@
    } else {
        "/360.mp4"@
    }
}

/// A link of resolution `q` derived from a decoded 360p address.
pub open spec fn derived(first_360: Seq<char>, q: int) -> Seq<char> {
    replace_all(first_360, segment(360), segment(q))
}

/// Decoding all three tiers, starting with `cached` in the cache: the decoded
/// addresses of each tier and the rotation cached at the end, or the first
/// link that no rotation decodes. Where the 360p tier holds a link, the other
/// tiers are derived from its first decoded address.
pub open spec fn decoded_links(cached: u8, links: Links) -> Result<
    (Seq<Seq<char>>, Seq<Seq<char>>, Seq<Seq<char>>, u8),
    Seq<char>,
> {
    match decoded_tier(cached, srcs(links.quality_360@)) {
        Err(s) => Err(s),
        Ok((d360, k1)) => if d360.len() > 0 {
            Ok(
                (
                    d360,
                    Seq::new(links.quality_480@.len(), |i: int| derived(d360[0], 480)),
                    Seq::new(links.quality_720@.len(), |i: int| derived(d360[0], 720)),
                    k1,
                ),
            )
        } else {
            match decoded_tier(k1, srcs(links.quality_480@)) {
                Err(s) => Err(s),
                Ok((d480, k2)) => match decoded_tier(k2, srcs(links.quality_720@)) {
                    Err(s) => Err(s),
                    Ok((d720, k3)) => Ok((d360, d480, d720, k3)),
                },
            }
        },
    }
}

proof fn lemma_tier_length(cached: u8, links: Seq<Seq<char>>)
    ensures
        decoded_tier(cached, links) matches Ok((d, k)) ==> d.len() == links.len(),
    decreases links.len(),
{
    if links.len() > 0 {
        lemma_tier_length(cached, links.drop_last());
    }
}

/// Decodes every link of `links` in order, replacing each address.
fn decode_tier(links: &mut Vec<Link>, cache: &mut ShiftCache) -> (r: Result<(), Error>)
    ensures
        final(links).len() == old(links).len(),
        mime_types(final(links)@) == mime_types(old(links)@),
        match decoded_tier(old(cache)@, srcs(old(links)@)) {
            Ok((out, k)) => r is Ok && srcs(final(links)@) == out && final(cache)@ == k,
            Err(s) => r is Err && r->Err_0 is LinkCannotBeDecoded
                && r->Err_0->LinkCannotBeDecoded_0@ == s,
        },
{
    let ghost start = srcs(links@);
    let ghost cached = cache@;
    let n = links.len();
    let mut i: usize = 0;
    assert(start.subrange(0, 0) =~= Seq::<Seq<char>>::empty());
    assert(srcs(links@).subrange(0, 0) =~= Seq::<Seq<char>>::empty());
    while i < n
        invariant
            links.len() == n,
            start.len() == n,
            start == srcs(old(links)@),
            cached == old(cache)@,
            i <= n,
            decoded_tier(cached, start.subrange(0, i as int)) == Ok::<(Seq<Seq<char>>, u8), Seq<char>>(
                (srcs(links@).subrange(0, i as int), cache@),
            ),
            forall|j: int| i <= j < n ==> links@[j].src@ == start[j],
            mime_types(links@) == mime_types(old(links)@),
        decreases n - i,
    {
        let ghost before = links@;
        assert(start.subrange(0, i + 1).drop_last() =~= start.subrange(0, i as int));
        let decoded = match decode_link(links[i].src.as_str(), cache) {
            Ok(d) => d,
            Err(e) => {
                proof {
                    lemma_tier_failure_propagates(cached, start, i as int);
                }
                return Err(e);
            },
        };
        links[i].src = decoded;
        assert(srcs(links@).subrange(0, i + 1) =~= srcs(before).subrange(0, i as int).push(
            links@[i as int].src@,
        ));
        assert(mime_types(links@) =~= mime_types(before));
        i += 1;
    }
    assert(start.subrange(0, n as int) =~= start);
    assert(srcs(links@).subrange(0, n as int) =~= srcs(links@));
    Ok(())
}

proof fn lemma_tier_failure_propagates(cached: u8, links: Seq<Seq<char>>, i: int)
    requires
        0 <= i < links.len(),
        decoded_tier(cached, links.subrange(0, i + 1)) is Err,
    ensures
        decoded_tier(cached, links) == decoded_tier(cached, links.subrange(0, i + 1)),
    decreases links.len() - i,
{
    if i + 1 < links.len() {
        assert(links.subrange(0, i + 2).drop_last() =~= links.subrange(0, i + 1));
        lemma_tier_failure_propagates(cached, links, i + 1);
    } else {
        assert(links.subrange(0, i + 1) =~= links);
    }
}

/// Sets the address of every link of `links` to `src`.
fn set_all(links: &mut Vec<Link>, src: &String)
    ensures
        final(links).len() == old(links).len(),
        srcs(final(links)@) == Seq::new(old(links)@.len(), |i: int| src@),
        mime_types(final(links)@) == mime_types(old(links)@),
{
    let n = links.len();
    let mut i: usize = 0;
    while i < n
        invariant
            links.len() == n,
            n == old(links).len(),
            i <= n,
            forall|j: int| 0 <= j < i ==> links@[j].src@ == src@,
            mime_types(links@) == mime_types(old(links)@),
        decreases n - i,
    {
        let ghost before = links@;
        links[i].src = src.clone();
        assert(mime_types(links@) =~= mime_types(before));
        i += 1;
    }
    assert(srcs(links@) =~= Seq::new(old(links)@.len(), |i: int| src@));
}

/// How decoding the links of `before`, with `cached` in the cache, ends.
/// Every tier keeps its length and its MIME types, whatever happens; on
/// success the addresses and the cached rotation are those of
/// `decoded_links`, and otherwise the error names the first link that no
/// rotation decodes.
pub open spec fn links_decoded(
    cached: u8,
    before: KodikResponse,
    cached_after: u8,
    after: KodikResponse,
    r: Result<(), Error>,
) -> bool {
    &&& after.links.quality_360@.len() == before.links.quality_360@.len()
    &&& after.links.quality_480@.len() == before.links.quality_480@.len()
    &&& after.links.quality_720@.len() == before.links.quality_720@.len()
    &&& mime_types(after.links.quality_360@) == mime_types(before.links.quality_360@)
    &&& mime_types(after.links.quality_480@) == mime_types(before.links.quality_480@)
    &&& mime_types(after.links.quality_720@) == mime_types(before.links.quality_720@)
    &&& match decoded_links(cached, before.links) {
        Ok((d360, d480, d720, k)) => {
            &&& r is Ok
            &&& srcs(after.links.quality_360@) == d360
            &&& srcs(after.links.quality_480@) == d480
            &&& srcs(after.links.quality_720@) == d720
            &&& cached_after == k
        },
        Err(s) => r is Err && r->Err_0 is LinkCannotBeDecoded && r->Err_0->LinkCannotBeDecoded_0@ == s,
    }
}

/// Decodes every link of the response in place, with `cache` holding the
/// rotation between links.
///
/// The 360p links are decoded one by one. If there is one, the 480p and 720p
/// links are derived from the first decoded 360p address by replacing its
/// `/360.mp4` segment; otherwise they are decoded one by one as well. MIME
/// types are kept. On failure, links decoded before the failing one stay
/// decoded.
pub fn decode_links(kodik_response: &mut KodikResponse, cache: &mut ShiftCache) -> (r: Result<(), Error>)
    ensures
        links_decoded(old(cache)@, *old(kodik_response), final(cache)@, *final(kodik_response), r),
{
    match decode_tier(&mut kodik_response.links.quality_360, cache) {
        Ok(()) => {},
        Err(e) => {
            return Err(e);
        },
    }
    if kodik_response.links.quality_360.len() > 0 {
        proof {
            reveal_strlit("/360.mp4");
        }
        let first = kodik_response.links.quality_360[0].src.as_str();
        let to_480 = replace(first, "/360.mp4", "/480.mp4");
        let to_720 = replace(first, "/360.mp4", "/720.mp4");
        set_all(&mut kodik_response.links.quality_480, &to_480);
        set_all(&mut kodik_response.links.quality_720, &to_720);
    } else {
        match decode_tier(&mut kodik_response.links.quality_480, cache) {
            Ok(()) => {},
            Err(e) => {
                return Err(e);
            },
        }
        match decode_tier(&mut kodik_response.links.quality_720, cache) {
            Ok(()) => {},
            Err(e) => {
                return Err(e);
            },
        }
    }
    Ok(())
}

/// Where the first decoded 360p address holds the `/360.mp4` segment once,
/// every 480p and 720p address comes out as that address with the segment
/// replaced by `/480.mp4` or `/720.mp4`, all other characters the same.
pub proof fn lemma_derived_tiers(cached: u8, links: Links, prefix: Seq<char>, suffix: Seq<char>)
    requires
        decoded_links(cached, links) is Ok,
        links.quality_360@.len() > 0,
        decoded_links(cached, links)->Ok_0.0[0] == prefix + segment(360) + suffix,
        forall|i: int|
            occurs_at(prefix + segment(360) + suffix, i, segment(360)) ==> i == prefix.len(),
    ensures
        decoded_links(cached, links)->Ok_0.1.len() == links.quality_480@.len(),
        decoded_links(cached, links)->Ok_0.2.len() == links.quality_720@.len(),
        forall|i: int|
            0 <= i < links.quality_480@.len() ==> decoded_links(cached, links)->Ok_0.1[i] == prefix
                + segment(480) + suffix,
        forall|i: int|
            0 <= i < links.quality_720@.len() ==> decoded_links(cached, links)->Ok_0.2[i] == prefix
                + segment(720) + suffix,
{
    reveal_strlit("/360.mp4");
    lemma_tier_length(cached, srcs(links.quality_360@));
    lemma_replace_single(prefix, suffix, segment(360), segment(480));
    lemma_replace_single(prefix, suffix, segment(360), segment(720));
}

proof fn lemma_rotate_back_inverts(c: char, k: u8)
    requires
        1 <= k <= 25,
    ensures
        rotate_back_char(rotate_char(c, k), k) == c,
{
    if is_lower(c) {
        let p = c as int - 'a' as int;
        let q = (p + k) % 26;
        assert(0 <= q < 26);
        assert((q + 26 - k) % 26 == p);
    } else if is_upper(c) {
        let p = c as int - 'A' as int;
        let q = (p + k) % 26;
        assert(0 <= q < 26);
        assert((q + 26 - k) % 26 == p);
    }
}

proof fn lemma_search_finds(src: Seq<char>, from: int, k: u8)
    requires
        1 <= from <= k <= 25,
        attempt(src, k) is Some,
        forall|j: u8| from <= j < k ==> attempt(src, j) is None,
    ensures
        search_from(src, from) == Some(k),
    decreases k - from,
{
    if from < k {
        assert(attempt(src, from as u8) is None);
        lemma_search_finds(src, from + 1, k);
    }
}

/// Decoding undoes the site's obfuscation. Let `e` be a base64 text whose
/// length is a multiple of four and which stands for the string `s`, and `k` a
/// rotation in `1..=25`. Rotated forward by `k`, `e` decodes to `s` under `k`.
/// When no smaller rotation decodes it, the search settles on `k` (where the
/// cache holds nothing that works), and once `k` is cached a second decoding
/// returns `s` with the cached rotation, without a search.
pub proof fn lemma_rotation_round_trip(e: Seq<char>, s: Seq<char>, k: u8, cached: u8)
    requires
        1 <= k <= 25,
        e.len() % 4 == 0,
        base64_text(e) == Some(s),
        forall|j: u8| 1 <= j < k ==> attempt(rotate(e, k), j) is None,
    ensures
        attempt(rotate(e, k), k) == Some(s),
        search(rotate(e, k)) == Some(k),
        cached == 0 || attempt(rotate(e, k), cached) is None ==> link_outcome(cached, rotate(e, k))
            == Some((s, k)),
        link_outcome(k, rotate(e, k)) == Some((s, k)),
{
    let hidden = rotate(e, k);
    assert forall|i: int| 0 <= i < e.len() implies rotate_back(hidden, k)[i] == e[i] by {
        lemma_rotate_back_inverts(e[i], k);
    }
    assert(rotate_back(hidden, k) =~= e);
    assert(padded(e) =~= e);
    lemma_search_finds(hidden, 1, k);
}

} // verus!
