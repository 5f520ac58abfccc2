//! Extraction of fields from page and player-script text.
//!
//! Each extractor looks for one fixed micro-format: a dotted host name in an
//! address, the `videoInfo.<field> = '<value>';` assignments of a player page,
//! the player script tag, and the base64 endpoint inside the player script.
use vstd::prelude::*;

use crate::decoder::{b64, base64_standard, base64_text};
use crate::error::{Error, Field};
use crate::text::{chars_of, occurs_at, string_of};
use vstd::string::StringExecFns;

verus! {

/// A character that may stand inside a host label: `a-z`, `0-9` or `-`.
pub open spec fn is_host_char(c: char) -> bool {
    ('a' <= c && c <= 'z') || ('0' <= c && c <= '9') || c == '-'
}

/// A character that may begin or end a host label: `a-z` or `0-9`.
pub open spec fn is_host_alnum(c: char) -> bool {
    ('a' <= c && c <= 'z') || ('0' <= c && c <= '9')
}

/// A host label: 1 to 63 host characters, beginning and ending with a letter
/// or digit.
pub open spec fn is_label(s: Seq<char>) -> bool {
    &&& 1 <= s.len() <= 63
    &&& forall|i: int| 0 <= i < s.len() ==> is_host_char(s[i])
    &&& is_host_alnum(s[0])
    &&& is_host_alnum(s[s.len() - 1])
}

/// `s[a..b]` is one of the dot-free pieces of `s`: it is bounded by dots or
/// by the ends of `s`.
pub open spec fn is_piece(s: Seq<char>, a: int, b: int) -> bool {
    &&& 0 <= a <= b <= s.len()
    &&& (a == 0 || s[a - 1] == '.')
    &&& (b == s.len() || s[b] == '.')
    &&& forall|i: int| a <= i < b ==> s[i] != '.'
}

/// A dotted host name: two or more labels joined by dots.
pub open spec fn is_hostname(s: Seq<char>) -> bool {
    &&& forall|i: int| 0 <= i < s.len() ==> is_host_char(s[i]) || s[i] == '.'
    &&& exists|i: int| 0 <= i < s.len() && s[i] == '.'
    &&& forall|a: int, b: int| is_piece(s, a, b) ==> is_label(s.subrange(a, b))
}

/// A host name stands in `t` at `t[i..j]`.
pub open spec fn host_at(t: Seq<char>, i: int, j: int) -> bool {
    0 <= i < j <= t.len() && is_hostname(t.subrange(i, j))
}

/// `t[i..j]` is the host name that starts first in `t`, taken as long as
/// possible.
pub open spec fn first_host(t: Seq<char>, i: int, j: int) -> bool {
    &&& host_at(t, i, j)
    &&& forall|i2: int, j2: int| i2 < i ==> !host_at(t, i2, j2)
    &&& forall|j2: int| j < j2 ==> !host_at(t, i, j2)
}

fn host_char(c: char) -> (r: bool)
    ensures
        r == is_host_char(c),
{
    ('a' <= c && c <= 'z') || ('0' <= c && c <= '9') || c == '-'
}

fn host_alnum(c: char) -> (r: bool)
    ensures
        r == is_host_alnum(c),
{
    ('a' <= c && c <= 'z') || ('0' <= c && c <= '9')
}

/// Whether `t[a..b]` is a label, given that it holds no dot.
fn label_between(t: &Vec<char>, a: usize, b: usize) -> (r: bool)
    requires
        a <= b <= t.len(),
        forall|i: int| a <= i < b ==> is_host_char(t@[i]) || t@[i] == '.',
        forall|i: int| a <= i < b ==> t@[i] != '.',
    ensures
        r == is_label(t@.subrange(a as int, b as int)),
{
    a < b && b - a <= 63 && host_alnum(t[a]) && host_alnum(t[b - 1])
}

/// Whether `t[a..b]` is a dotted host name.
fn hostname_between(t: &Vec<char>, a: usize, b: usize) -> (r: bool)
    requires
        a <= b <= t.len(),
    ensures
        r == is_hostname(t@.subrange(a as int, b as int)),
{
    let ghost s = t@.subrange(a as int, b as int);
    let mut seg: usize = a;
    let mut dots: bool = false;
    let mut i: usize = a;
    while i < b
        invariant
            s == t@.subrange(a as int, b as int),
            a <= seg <= i <= b <= t.len(),
            seg == a || t@[seg - 1] == '.',
            forall|k: int| seg <= k < i ==> t@[k] != '.',
            forall|k: int| a <= k < i ==> is_host_char(t@[k]) || t@[k] == '.',
            dots <==> exists|k: int| a <= k < i && t@[k] == '.',
            forall|x: int, y: int|
                #![trigger is_piece(s, x, y)]
                is_piece(s, x, y) && y < i - a ==> is_label(s.subrange(x, y)),
        decreases b - i,
    {
        let c = t[i];
        if c == '.' {
            if !label_between(t, seg, i) {
                proof {
                    assert(is_piece(s, seg - a, i - a));
                    assert(s.subrange(seg - a, i - a) =~= t@.subrange(seg as int, i as int));
                }
                return false;
            }
            proof {
                assert(s.subrange(seg - a, i - a) =~= t@.subrange(seg as int, i as int));
                assert forall|x: int, y: int|
                    #![trigger is_piece(s, x, y)]
                    is_piece(s, x, y) && y < i + 1 - a implies is_label(s.subrange(x, y)) by {
                    if y == i - a {
                        if x < seg - a {
                            assert(s[seg - a - 1] == '.');
                        } else if x > seg - a {
                            assert(s[x - 1] == '.');
                            assert(t@[a + x - 1] == '.');
                        }
                    }
                }
            }
            seg = i + 1;
            dots = true;
        } else if !host_char(c) {
            proof {
                assert(s[i - a] == c);
            }
            return false;
        }
        i += 1;
    }
    let last_ok = label_between(t, seg, b);
    proof {
        assert(s.subrange(seg - a, b - a) =~= t@.subrange(seg as int, b as int));
        assert(is_piece(s, seg - a, b - a));
        assert forall|x: int| #[trigger] is_piece(s, x, b - a) implies x == seg - a by {
            if x < seg - a {
                assert(s[seg - a - 1] == '.');
            } else if x > seg - a {
                assert(s[x - 1] == '.');
                assert(t@[a + x - 1] == '.');
            }
        }
        if dots {
            let k = choose|k: int| a <= k < i && t@[k] == '.';
            assert(s[k - a] == '.');
        }
        if exists|k: int| 0 <= k < s.len() && s[k] == '.' {
            let k = choose|k: int| 0 <= k < s.len() && s[k] == '.';
            assert(t@[a + k] == '.');
        }
    }
    dots && last_ok
}

/// The first dotted host name in `url`, taken as long as possible; the address
/// may carry a scheme or not.
pub fn get_domain(url: &str) -> (r: Result<String, Error>)
    ensures
        match r {
            Ok(d) => exists|i: int, j: int| first_host(url@, i, j) && d@ == url@.subrange(i, j),
            Err(e) => e is NoDomainFound && forall|i: int, j: int| !host_at(url@, i, j),
        },
{
    let t = chars_of(url);
    let n = t.len();
    let mut i: usize = 0;
    while i < n
        invariant
            t@ == url@,
            n == t.len(),
            i <= n,
            forall|i2: int, j2: int| i2 < i ==> !host_at(url@, i2, j2),
        decreases n - i,
    {
        let mut e = i;
        while e < n && (host_char(t[e]) || t[e] == '.')
            invariant
                t@ == url@,
                n == t.len(),
                i <= e <= n,
                forall|i2: int, j2: int| i2 < i ==> !host_at(url@, i2, j2),
                forall|k: int| i <= k < e ==> is_host_char(t@[k]) || t@[k] == '.',
            decreases n - e,
        {
            e += 1;
        }
        assert forall|j2: int| e < j2 implies !host_at(url@, i as int, j2) by {
            if host_at(url@, i as int, j2) {
                assert(url@.subrange(i as int, j2)[e - i] == t@[e as int]);
            }
        }
        let mut j = e;
        while j > i
            invariant
                t@ == url@,
                n == t.len(),
                i <= j <= e <= n,
                forall|i2: int, j2: int| i2 < i ==> !host_at(url@, i2, j2),
                forall|j2: int| j < j2 ==> !host_at(url@, i as int, j2),
            decreases j - i,
        {
            if hostname_between(&t, i, j) {
                assert(first_host(url@, i as int, j as int));
                return Ok(string_of(&t, i, j));
            }
            j -= 1;
        }
        i += 1;
    }
    Err(Error::NoDomainFound)
}

/// A host name that stands in an address between text that holds no host
/// name and ends in a character that cannot belong to one, and text that
/// begins with such a character, is the one that `get_domain` returns: it is
/// the first host name of the address, taken as long as possible.
pub proof fn lemma_domain_in_url(before: Seq<char>, host: Seq<char>, after: Seq<char>)
    requires
        is_hostname(host),
        forall|i: int, j: int| !host_at(before, i, j),
        before.len() > 0 ==> !is_host_char(before.last()) && before.last() != '.',
        after.len() > 0 ==> !is_host_char(after[0]) && after[0] != '.',
    ensures
        first_host(before + host + after, before.len() as int, (before.len() + host.len()) as int),
{
    let t = before + host + after;
    let b = before.len() as int;
    let h = host.len() as int;
    assert(t.subrange(b, b + h) =~= host);
    assert forall|i2: int, j2: int| i2 < b implies !host_at(t, i2, j2) by {
        if host_at(t, i2, j2) {
            let s = t.subrange(i2, j2);
            if j2 > b {
                assert(s[b - 1 - i2] == before.last());
            } else {
                assert(s =~= before.subrange(i2, j2));
                assert(host_at(before, i2, j2));
            }
        }
    }
    assert forall|j2: int| b + h < j2 implies !host_at(t, b, j2) by {
        if host_at(t, b, j2) {
            let s = t.subrange(b, j2);
            assert(s[h] == after[0]);
        }
    }
}

/// A host name written after no scheme, `http://` or `https://`, and
/// followed by nothing or by a path, port, query or fragment (text that
/// begins with `/`, `:`, `?` or `#`), is the one that `get_domain` returns.
pub proof fn lemma_domain_after_scheme(scheme: Seq<char>, host: Seq<char>, rest: Seq<char>)
    requires
        scheme == Seq::<char>::empty() || scheme == "http://"@ || scheme == "https://"@,
        is_hostname(host),
        rest.len() > 0 ==> rest[0] == '/' || rest[0] == ':' || rest[0] == '?' || rest[0] == '#',
    ensures
        first_host(scheme + host + rest, scheme.len() as int, (scheme.len() + host.len()) as int),
{
    reveal_strlit("http://");
    reveal_strlit("https://");
    assert(forall|k: int| 0 <= k < scheme.len() ==> scheme[k] != '.');
    assert forall|i: int, j: int| !host_at(scheme, i, j) by {
        if host_at(scheme, i, j) {
            let s = scheme.subrange(i, j);
            let k = choose|k: int| 0 <= k < s.len() && s[k] == '.';
            assert(scheme[i + k] == '.');
        }
    }
    lemma_domain_in_url(scheme, host, rest);
}

/// The identity of a video as the link endpoint expects it: its type, hash
/// and numeric id, sent with three fixed fields.
#[derive(Debug, PartialEq, Eq)]
pub struct VideoInfo {
    video_type: String,
    hash: String,
    id: String,
}

impl View for VideoInfo {
    type V = (Seq<char>, Seq<char>, Seq<char>);

    /// The type, hash and id.
    closed spec fn view(&self) -> (Seq<char>, Seq<char>, Seq<char>) {
        (self.video_type@, self.hash@, self.id@)
    }
}

/// The form fields sent for an identity of type `t`, hash `h` and id `i`,
/// in order.
pub open spec fn form_of(t: Seq<char>, h: Seq<char>, i: Seq<char>) -> Seq<(Seq<char>, Seq<char>)> {
    seq![
        ("type"@, t),
        ("hash"@, h),
        ("id"@, i),
        ("bad_user"@, "True"@),
        ("info"@, "{}"@),
        ("cdn_is_working"@, "True"@),
    ]
}

impl VideoInfo {
    /// An identity of the given type, hash and id.
    pub fn new(video_type: &str, hash: &str, id: &str) -> (r: VideoInfo)
        ensures
            r@ == (video_type@, hash@, id@),
    {
        VideoInfo { video_type: video_type.to_owned(), hash: hash.to_owned(), id: id.to_owned() }
    }

    /// The type of the video.
    pub fn video_type(&self) -> (r: &str)
        ensures
            r@ == self@.0,
    {
        self.video_type.as_str()
    }

    /// The hash of the video.
    pub fn hash(&self) -> (r: &str)
        ensures
            r@ == self@.1,
    {
        self.hash.as_str()
    }

    /// The numeric id of the video.
    pub fn id(&self) -> (r: &str)
        ensures
            r@ == self@.2,
    {
        self.id.as_str()
    }

    /// The form fields to send, as (name, value) pairs in order: the type,
    /// hash and id, then `bad_user`, `info` and `cdn_is_working`.
    pub fn form_fields(&self) -> (r: Vec<(String, String)>)
        ensures
            r@.map_values(|p: (String, String)| (p.0@, p.1@)) == form_of(self@.0, self@.1, self@.2),
    {
        let mut r: Vec<(String, String)> = Vec::new();
        r.push(("type".to_owned(), self.video_type.clone()));
        r.push(("hash".to_owned(), self.hash.clone()));
        r.push(("id".to_owned(), self.id.clone()));
        r.push(("bad_user".to_owned(), "True".to_owned()));
        r.push(("info".to_owned(), "{}".to_owned()));
        r.push(("cdn_is_working".to_owned(), "True".to_owned()));
        assert(r@.map_values(|p: (String, String)| (p.0@, p.1@)) =~= form_of(self@.0, self@.1, self@.2));
        r
    }
}

/// The text that opens an assignment to field `f` in a player page.
pub open spec fn assignment_head(f: Field) -> Seq<char> {
    match f {
        Field::Type => "videoInfo.type = '"@,
        Field::Hash => "videoInfo.hash = '"@,
        Field::Id => "videoInfo.id = '"@,
    }
}

/// The length of the value that starts at `k`: the distance to the first
/// `';` at or after `k`, or `None` where a line break or the end of the text
/// comes first.
pub open spec fn value_len(t: Seq<char>, k: int) -> Option<nat>
    decreases (t.len() - k) as nat,
{
    if k < 0 || k + 1 >= t.len() || t[k] == '\n' {
        None
    } else if t[k] == '\'' && t[k + 1] == ';' {
        Some(0)
    } else {
        match value_len(t, k + 1) {
            Some(n) => Some(n + 1),
            None => None,
        }
    }
}

/// The value that the assignments of field `f` in `t` from position `i` on
/// give, or `last` where there is none. The assignments of `f` are searched
/// from left to right, each search going on after the end of the last one
/// found, and a later value replaces an earlier one. The other fields play no
/// part: each field is searched on its own.
pub open spec fn field_value_from(t: Seq<char>, f: Field, i: int, last: Option<Seq<char>>) -> Option<
    Seq<char>,
>
    decreases if i < t.len() {
        t.len() - i
    } else {
        0
    },
{
    if i < 0 || i >= t.len() {
        last
    } else {
        let vs = i + assignment_head(f).len();
        if occurs_at(t, i, assignment_head(f)) && value_len(t, vs) is Some {
            let n = value_len(t, vs)->0;
            field_value_from(t, f, vs + n + 2, Some(t.subrange(vs, vs + n)))
        } else {
            field_value_from(t, f, i + 1, last)
        }
    }
}

/// The value that the page text `t` assigns to field `f`, if any.
pub open spec fn field_value(t: Seq<char>, f: Field) -> Option<Seq<char>> {
    field_value_from(t, f, 0, None)
}

/// Whether a found value is present and not empty.
pub open spec fn present(v: Option<Seq<char>>) -> bool {
    v is Some && v->0.len() > 0
}

/// The identity that the page text `t` gives: its type, hash and id, or the
/// first of them that it assigns no value, or only an empty one.
pub open spec fn identity_of(t: Seq<char>) -> Result<(Seq<char>, Seq<char>, Seq<char>), Field> {
    let ty = field_value(t, Field::Type);
    let hash = field_value(t, Field::Hash);
    let id = field_value(t, Field::Id);
    if !present(ty) {
        Err(Field::Type)
    } else if !present(hash) {
        Err(Field::Hash)
    } else if !present(id) {
        Err(Field::Id)
    } else {
        Ok((ty->0, hash->0, id->0))
    }
}

/// Whether `pat` occurs in `t` at position `i`.
fn occurs_at_exec(t: &Vec<char>, i: usize, pat: &Vec<char>) -> (r: bool)
    ensures
        r == occurs_at(t@, i as int, pat@),
        r ==> i + pat.len() <= t.len(),
{
    if i > t.len() || pat.len() > t.len() - i {
        return false;
    }
    let mut k: usize = 0;
    while k < pat.len()
        invariant
            i + pat.len() <= t.len(),
            k <= pat.len(),
            forall|j: int| 0 <= j < k ==> t@[i + j] == pat@[j],
        decreases pat.len() - k,
    {
        if t[i + k] != pat[k] {
            assert(t@.subrange(i as int, i + pat.len())[k as int] != pat@[k as int]);
            return false;
        }
        k += 1;
    }
    assert(t@.subrange(i as int, i + pat.len()) =~= pat@);
    true
}

/// The length of the value that starts at `k`, as `value_len` gives it.
fn value_len_exec(t: &Vec<char>, k: usize) -> (r: Option<usize>)
    ensures
        match value_len(t@, k as int) {
            Some(n) => r == Some(n as usize) && k + n + 2 <= t.len(),
            None => r is None,
        },
{
    let mut j: usize = k;
    while t.len() > 0 && j < t.len() - 1
        invariant
            k <= j,
            value_len(t@, k as int) == match value_len(t@, j as int) {
                Some(n) => Some((n + (j - k)) as nat),
                None => None::<nat>,
            },
        decreases t.len() - j,
    {
        if t[j] == '\n' {
            return None;
        }
        if t[j] == '\'' && t[j + 1] == ';' {
            return Some(j - k);
        }
        j += 1;
    }
    None
}

/// The text of `t[r.0..r.1]`, if a range was found.
pub open spec fn range_text(t: Seq<char>, r: Option<(usize, usize)>) -> Option<Seq<char>> {
    match r {
        Some((a, b)) => Some(t.subrange(a as int, b as int)),
        None => None,
    }
}

/// Whether a found range lies within `n` characters.
pub open spec fn range_ok(r: Option<(usize, usize)>, n: int) -> bool {
    r matches Some((a, b)) ==> a <= b <= n
}

/// The range of the value that `t` assigns to field `f`, whose opening
/// text is `head`.
fn field_range(t: &Vec<char>, f: Field, head: &Vec<char>) -> (r: Option<(usize, usize)>)
    requires
        head@ == assignment_head(f),
    ensures
        range_text(t@, r) == field_value(t@, f),
        range_ok(r, t.len() as int),
{
    let n = t.len();
    let mut found: Option<(usize, usize)> = None;
    let mut i: usize = 0;
    while i < n
        invariant
            n == t.len(),
            i <= n,
            head@ == assignment_head(f),
            range_ok(found, n as int),
            field_value(t@, f) == field_value_from(t@, f, i as int, range_text(t@, found)),
        decreases n - i,
    {
        let mut next = i + 1;
        if occurs_at_exec(t, i, head) {
            let vs = i + head.len();
            if let Some(len) = value_len_exec(t, vs) {
                found = Some((vs, vs + len));
                next = vs + len + 2;
            }
        }
        i = next;
    }
    found
}

/// Extracts the type, hash and id that a player page assigns with
/// `videoInfo.<field> = '<value>';`, each field searched on its own.
pub fn extract_video_info(response_text: &str) -> (r: Result<VideoInfo, Error>)
    ensures
        match identity_of(response_text@) {
            Ok(v) => r is Ok && r->Ok_0@ == v,
            Err(f) => r is Err && r->Err_0 is MissingField && r->Err_0->MissingField_0 == f,
        },
{
    let t = chars_of(response_text);
    let found_type = field_range(&t, Field::Type, &chars_of("videoInfo.type = '"));
    let found_hash = field_range(&t, Field::Hash, &chars_of("videoInfo.hash = '"));
    let found_id = field_range(&t, Field::Id, &chars_of("videoInfo.id = '"));
    let ty = match found_type {
        Some((a, b)) if a < b => string_of(&t, a, b),
        _ => return Err(Error::MissingField(Field::Type)),
    };
    let hash = match found_hash {
        Some((a, b)) if a < b => string_of(&t, a, b),
        _ => return Err(Error::MissingField(Field::Hash)),
    };
    let id = match found_id {
        Some((a, b)) if a < b => string_of(&t, a, b),
        _ => return Err(Error::MissingField(Field::Id)),
    };
    Ok(VideoInfo { video_type: ty, hash, id })
}

/// The text of an assignment of value `v` to field `f`.
pub open spec fn assignment(f: Field, v: Seq<char>) -> Seq<char> {
    assignment_head(f) + v + "';"@
}

/// A value that an assignment carries whole: not empty, with no line break
/// and no `';` in it.
pub open spec fn plain_value(v: Seq<char>) -> bool {
    &&& v.len() > 0
    &&& forall|k: int| 0 <= k < v.len() ==> v[k] != '\n'
    &&& forall|k: int| 0 <= k < v.len() - 1 ==> !(#[trigger] v[k] == '\'' && v[k + 1] == ';')
}

proof fn lemma_field_skip(t: Seq<char>, f: Field, from: int, to: int, last: Option<Seq<char>>)
    requires
        0 <= from <= to <= t.len(),
        forall|i: int| from <= i < to ==> !occurs_at(t, i, assignment_head(f)),
    ensures
        field_value_from(t, f, from, last) == field_value_from(t, f, to, last),
    decreases to - from,
{
    if from < to {
        lemma_field_skip(t, f, from + 1, to, last);
    }
}

proof fn lemma_value_len(t: Seq<char>, vs: int, v: Seq<char>, j: int)
    requires
        plain_value(v),
        0 <= vs,
        vs + v.len() + 2 <= t.len(),
        t.subrange(vs, vs + v.len()) == v,
        t[vs + v.len()] == '\'',
        t[vs + v.len() + 1] == ';',
        0 <= j <= v.len(),
    ensures
        value_len(t, vs + j) == Some((v.len() - j) as nat),
    decreases v.len() - j,
{
    if j < v.len() {
        lemma_value_len(t, vs, v, j + 1);
        assert(t[vs + j] == v[j]);
        if j + 1 < v.len() {
            assert(t[vs + j + 1] == v[j + 1]);
        }
    }
}

/// Where the text holds one assignment of field `f`, of a plain value `v`,
/// and the field's opening text `videoInfo.<field> = '` stands nowhere else,
/// the field's value is `v`, whatever text surrounds the assignment.
pub proof fn lemma_field_in_text(t: Seq<char>, f: Field, v: Seq<char>, p: int)
    requires
        plain_value(v),
        0 <= p,
        p + assignment(f, v).len() <= t.len(),
        t.subrange(p, p + assignment(f, v).len()) == assignment(f, v),
        forall|i: int| occurs_at(t, i, assignment_head(f)) ==> i == p,
    ensures
        field_value(t, f) == Some(v),
{
    reveal_strlit("';");
    let h = assignment_head(f);
    let a = assignment(f, v);
    let vs = p + h.len();
    let e = p + a.len();
    assert forall|k: int| 0 <= k < a.len() implies t[p + k] == a[k] by {
        assert(t.subrange(p, e)[k] == a[k]);
    }
    assert(t.subrange(p, p + h.len()) =~= h) by {
        assert forall|k: int| 0 <= k < h.len() implies t.subrange(p, p + h.len())[k] == h[k] by {
            assert(a[k] == h[k]);
        }
    }
    assert(t.subrange(vs, vs + v.len()) =~= v) by {
        assert forall|k: int| 0 <= k < v.len() implies t.subrange(vs, vs + v.len())[k] == v[k] by {
            assert(a[h.len() + k] == v[k]);
            assert(t[p + h.len() + k] == a[h.len() + k]);
        }
    }
    assert(t[vs + v.len()] == '\'') by {
        assert(a[(h.len() + v.len()) as int] == '\'');
        assert(t[p + h.len() + v.len()] == a[(h.len() + v.len()) as int]);
    }
    assert(t[vs + v.len() + 1] == ';') by {
        assert(a[(h.len() + v.len() + 1) as int] == ';');
        assert(t[p + h.len() + v.len() + 1] == a[(h.len() + v.len() + 1) as int]);
    }
    lemma_value_len(t, vs, v, 0);
    lemma_field_skip(t, f, 0, p, None);
    lemma_field_skip(t, f, e, t.len() as int, Some(v));
}

/// Three assignments `videoInfo.<field> = '<value>';`, one for each field,
/// in any order and with any text around them, give the identity made of
/// their values, as long as each value is plain and no field's opening text
/// `videoInfo.<field> = '` stands anywhere but at its own assignment.
pub proof fn lemma_identity_in_text(
    t: Seq<char>,
    vt: Seq<char>,
    pt: int,
    vh: Seq<char>,
    ph: int,
    vi: Seq<char>,
    pi: int,
)
    requires
        plain_value(vt) && plain_value(vh) && plain_value(vi),
        0 <= pt && pt + assignment(Field::Type, vt).len() <= t.len(),
        0 <= ph && ph + assignment(Field::Hash, vh).len() <= t.len(),
        0 <= pi && pi + assignment(Field::Id, vi).len() <= t.len(),
        t.subrange(pt, pt + assignment(Field::Type, vt).len()) == assignment(Field::Type, vt),
        t.subrange(ph, ph + assignment(Field::Hash, vh).len()) == assignment(Field::Hash, vh),
        t.subrange(pi, pi + assignment(Field::Id, vi).len()) == assignment(Field::Id, vi),
        forall|i: int| occurs_at(t, i, assignment_head(Field::Type)) ==> i == pt,
        forall|i: int| occurs_at(t, i, assignment_head(Field::Hash)) ==> i == ph,
        forall|i: int| occurs_at(t, i, assignment_head(Field::Id)) ==> i == pi,
    ensures
        identity_of(t) == Ok::<(Seq<char>, Seq<char>, Seq<char>), Field>((vt, vh, vi)),
{
    lemma_field_in_text(t, Field::Type, vt, pt);
    lemma_field_in_text(t, Field::Hash, vh, ph);
    lemma_field_in_text(t, Field::Id, vi, pi);
}

/// A white-space character: one with the Unicode `White_Space` property.
pub open spec fn is_space(c: char) -> bool {
    ||| c == '\t' || c == '\n' || c == '\u{0B}' || c == '\u{0C}' || c == '\r' || c == ' '
    ||| c == '\u{85}' || c == '\u{A0}' || c == '\u{1680}'
    ||| '\u{2000}' <= c && c <= '\u{200A}'
    ||| c == '\u{2028}' || c == '\u{2029}' || c == '\u{202F}' || c == '\u{205F}' || c == '\u{3000}'
}

fn space(c: char) -> (r: bool)
    ensures
        r == is_space(c),
{
    c == '\t' || c == '\n' || c == '\u{0B}' || c == '\u{0C}' || c == '\r' || c == ' ' || c == '\u{85}'
        || c == '\u{A0}' || c == '\u{1680}' || ('\u{2000}' <= c && c <= '\u{200A}') || c == '\u{2028}'
        || c == '\u{2029}' || c == '\u{202F}' || c == '\u{205F}' || c == '\u{3000}'
}

/// The first position at or after `k` that holds no white space.
pub open spec fn skip_spaces(t: Seq<char>, k: int) -> int
    decreases if k < t.len() {
        t.len() - k
    } else {
        0
    },
{
    if k < 0 || k >= t.len() || !is_space(t[k]) {
        k
    } else {
        skip_spaces(t, k + 1)
    }
}

fn skip_spaces_exec(t: &Vec<char>, k: usize) -> (r: usize)
    ensures
        r == skip_spaces(t@, k as int),
        k <= r,
        r <= t.len() || r == k,
{
    let mut j = k;
    while j < t.len() && space(t[j])
        invariant
            k <= j,
            j <= t.len() || j == k,
            skip_spaces(t@, k as int) == skip_spaces(t@, j as int),
        decreases t.len() - j,
    {
        j += 1;
    }
    j
}

/// The first position at or after `k` that holds a `"`.
pub open spec fn quote_from(t: Seq<char>, k: int) -> Option<int>
    decreases if k < t.len() {
        t.len() - k
    } else {
        0
    },
{
    if k < 0 || k >= t.len() {
        None
    } else if t[k] == '"' {
        Some(k)
    } else {
        quote_from(t, k + 1)
    }
}

fn quote_from_exec(t: &Vec<char>, k: usize) -> (r: Option<usize>)
    ensures
        match r {
            Some(e) => quote_from(t@, k as int) == Some(e as int) && k <= e < t.len(),
            None => quote_from(t@, k as int) is None,
        },
{
    let mut j = k;
    while j < t.len()
        invariant
            k <= j,
            quote_from(t@, k as int) == quote_from(t@, j as int),
        decreases t.len() - j,
    {
        if t[j] == '"' {
            return Some(j);
        }
        j += 1;
    }
    None
}

/// The path of the player script whose tag starts at `i`, as a range of
/// `t`: the tag reads `<script`, `type="text/javascript"` and `src="/`, with
/// any white space before each of the last two, and the path begins with
/// `assets/js/app.player_single` and runs to the next `"`.
pub open spec fn player_path_at(t: Seq<char>, i: int) -> Option<(int, int)> {
    if !occurs_at(t, i, "<script"@) {
        None
    } else {
        let a = skip_spaces(t, i + "<script"@.len());
        if !occurs_at(t, a, "type=\"text/javascript\""@) {
            None
        } else {
            let b = skip_spaces(t, a + "type=\"text/javascript\""@.len());
            if !occurs_at(t, b, "src=\"/"@) {
                None
            } else {
                let c = b + "src=\"/"@.len();
                if !occurs_at(t, c, "assets/js/app.player_single"@) {
                    None
                } else {
                    match quote_from(t, c + "assets/js/app.player_single"@.len()) {
                        Some(e) => Some((c, e)),
                        None => None,
                    }
                }
            }
        }
    }
}

/// The path of the first player script tag at or after position `i`.
pub open spec fn first_player_path(t: Seq<char>, i: int) -> Option<(int, int)>
    decreases if i < t.len() {
        t.len() - i
    } else {
        0
    },
{
    if i < 0 || i >= t.len() {
        None
    } else if player_path_at(t, i) is Some {
        player_path_at(t, i)
    } else {
        first_player_path(t, i + 1)
    }
}

/// The address of the player script that a player page on `domain` loads:
/// `https://<domain>/<path>`, for the first player script tag of the page.
pub fn extract_player_url(domain: &str, response_text: &str) -> (r: Result<String, Error>)
    ensures
        match first_player_path(response_text@, 0) {
            Some((c, e)) => r is Ok && r->Ok_0@ == "https://"@ + domain@ + "/"@
                + response_text@.subrange(c, e),
            None => r is Err && r->Err_0 is NoPlayerScript,
        },
{
    let t = chars_of(response_text);
    let script = chars_of("<script");
    let kind = chars_of("type=\"text/javascript\"");
    let src = chars_of("src=\"/");
    let path = chars_of("assets/js/app.player_single");
    let n = t.len();
    let mut i: usize = 0;
    while i < n
        invariant
            t@ == response_text@,
            n == t.len(),
            i <= n,
            script@ == "<script"@,
            kind@ == "type=\"text/javascript\""@,
            src@ == "src=\"/"@,
            path@ == "assets/js/app.player_single"@,
            first_player_path(t@, 0) == first_player_path(t@, i as int),
        decreases n - i,
    {
        if occurs_at_exec(&t, i, &script) {
            let a = skip_spaces_exec(&t, i + script.len());
            if occurs_at_exec(&t, a, &kind) {
                let b = skip_spaces_exec(&t, a + kind.len());
                if occurs_at_exec(&t, b, &src) {
                    let c = b + src.len();
                    if occurs_at_exec(&t, c, &path) {
                        if let Some(e) = quote_from_exec(&t, c + path.len()) {
                            let mut url = "https://".to_owned();
                            url.append(domain);
                            url.append("/");
                            url.append(string_of(&t, c, e).as_str());
                            return Ok(url);
                        }
                    }
                }
            }
        }
        i += 1;
    }
    Err(Error::NoPlayerScript)
}

/// A character of an encoded endpoint: one of the standard base64 alphabet
/// (an ASCII letter or digit, `+` or `/`), the padding `=`, or `_`.
pub open spec fn is_payload_char(c: char) -> bool {
    ||| ('a' <= c && c <= 'z') || ('A' <= c && c <= 'Z') || ('0' <= c && c <= '9')
    ||| c == '+' || c == '/' || c == '=' || c == '_'
}

/// A quote: `"` or `'`.
pub open spec fn is_quote(c: char) -> bool {
    c == '"' || c == '\''
}

/// The first position at or after `k` that holds no endpoint character.
pub open spec fn payload_end(t: Seq<char>, k: int) -> int
    decreases if k < t.len() {
        t.len() - k
    } else {
        0
    },
{
    if k < 0 || k >= t.len() || !is_payload_char(t[k]) {
        k
    } else {
        payload_end(t, k + 1)
    }
}

/// The encoded endpoint of the `,url: atob("...")` that starts at `k`, as a
/// range of `t`: `,url:`, any white space, `atob(`, a quote, one or more
/// endpoint characters, a quote and `)`.
pub open spec fn endpoint_at(t: Seq<char>, k: int) -> Option<(int, int)> {
    if !occurs_at(t, k, ",url:"@) {
        None
    } else {
        let a = skip_spaces(t, k + ",url:"@.len());
        let q = a + "atob("@.len();
        if !occurs_at(t, a, "atob("@) || !(q < t.len() && is_quote(t[q])) {
            None
        } else {
            let e = payload_end(t, q + 1);
            if q + 1 < e && e + 1 < t.len() && is_quote(t[e]) && t[e + 1] == ')' {
                Some((q + 1, e))
            } else {
                None
            }
        }
    }
}

/// The first position at or after `k` that holds a `>`, or the end of `t`.
pub open spec fn tag_end(t: Seq<char>, k: int) -> int
    decreases if k < t.len() {
        t.len() - k
    } else {
        0
    },
{
    if k < 0 || k >= t.len() || t[k] == '>' {
        k
    } else {
        tag_end(t, k + 1)
    }
}

/// The encoded endpoint of the last `,url: atob(...)` that starts in
/// `lo..=hi`.
pub open spec fn last_endpoint(t: Seq<char>, lo: int, hi: int) -> Option<(int, int)>
    decreases if lo <= hi {
        hi - lo + 1
    } else {
        0
    },
{
    if hi < lo {
        None
    } else if endpoint_at(t, hi) is Some {
        endpoint_at(t, hi)
    } else {
        last_endpoint(t, lo, hi - 1)
    }
}

/// The encoded endpoint of the `$.ajax(` call that starts at `i`: that of the
/// last `,url: atob(...)` after it, with at least one character between the
/// two and no `>` among them.
pub open spec fn ajax_endpoint_at(t: Seq<char>, i: int) -> Option<(int, int)> {
    if occurs_at(t, i, "$.ajax("@) {
        let k = i + "$.ajax("@.len();
        last_endpoint(t, k + 1, tag_end(t, k))
    } else {
        None
    }
}

/// The encoded endpoint of the first `$.ajax(` call at or after `i` that
/// has one.
pub open spec fn first_ajax_endpoint(t: Seq<char>, i: int) -> Option<(int, int)>
    decreases if i < t.len() {
        t.len() - i
    } else {
        0
    },
{
    if i < 0 || i >= t.len() {
        None
    } else if ajax_endpoint_at(t, i) is Some {
        ajax_endpoint_at(t, i)
    } else {
        first_ajax_endpoint(t, i + 1)
    }
}

fn payload_char(c: char) -> (r: bool)
    ensures
        r == is_payload_char(c),
{
    ('a' <= c && c <= 'z') || ('A' <= c && c <= 'Z') || ('0' <= c && c <= '9') || c == '+' || c == '/'
        || c == '=' || c == '_'
}

fn endpoint_at_exec(t: &Vec<char>, k: usize, url: &Vec<char>, atob: &Vec<char>) -> (r: Option<(usize, usize)>)
    requires
        url@ == ",url:"@,
        atob@ == "atob("@,
    ensures
        match r {
            Some((a, b)) => endpoint_at(t@, k as int) == Some((a as int, b as int)) && a <= b <= t.len(),
            None => endpoint_at(t@, k as int) is None,
        },
{
    if !occurs_at_exec(t, k, url) {
        return None;
    }
    let a = skip_spaces_exec(t, k + url.len());
    if !occurs_at_exec(t, a, atob) {
        return None;
    }
    let q = a + atob.len();
    if !(q < t.len() && (t[q] == '"' || t[q] == '\'')) {
        return None;
    }
    let mut e = q + 1;
    while e < t.len() && payload_char(t[e])
        invariant
            q < t.len(),
            q + 1 <= e <= t.len(),
            payload_end(t@, q + 1) == payload_end(t@, e as int),
        decreases t.len() - e,
    {
        e += 1;
    }
    if q + 1 < e && e < t.len() && t.len() - e > 1 && (t[e] == '"' || t[e] == '\'') && t[e + 1] == ')' {
        Some((q + 1, e))
    } else {
        None
    }
}

/// Finds the base64 endpoint that the player script passes to `atob` in the
/// `url` of its first `$.ajax(` call, and decodes it.
pub fn get_api_endpoint(kodik_response_text: &str) -> (r: Result<String, Error>)
    ensures
        match first_ajax_endpoint(kodik_response_text@, 0) {
            Some((a, b)) => match r {
                Ok(s) => base64_text(kodik_response_text@.subrange(a, b)) == Some(s@),
                Err(e) => base64_text(kodik_response_text@.subrange(a, b)) is None && match e {
                    Error::Decode(_) => base64_standard(kodik_response_text@.subrange(a, b)) is None,
                    Error::FromUtf8(_) => base64_standard(kodik_response_text@.subrange(a, b)) is Some,
                    _ => false,
                },
            },
            None => r is Err && r->Err_0 is NoEndpointMarker,
        },
{
    let t = chars_of(kodik_response_text);
    let ajax = chars_of("$.ajax(");
    let url = chars_of(",url:");
    let atob = chars_of("atob(");
    let n = t.len();
    let mut i: usize = 0;
    while i < n
        invariant
            t@ == kodik_response_text@,
            n == t.len(),
            i <= n,
            ajax@ == "$.ajax("@,
            url@ == ",url:"@,
            atob@ == "atob("@,
            first_ajax_endpoint(t@, 0) == first_ajax_endpoint(t@, i as int),
        decreases n - i,
    {
        if occurs_at_exec(&t, i, &ajax) {
            let k = i + ajax.len();
            let mut g = k;
            while g < n && t[g] != '>'
                invariant
                    n == t.len(),
                    k <= g <= n,
                    tag_end(t@, k as int) == tag_end(t@, g as int),
                decreases n - g,
            {
                g += 1;
            }
            assert(tag_end(t@, g as int) == g);
            let mut hi = g;
            while hi > k
                invariant
                    k == i + ajax.len(),
                    occurs_at(t@, i as int, ajax@),
                    ajax@ == "$.ajax("@,
                    t@ == kodik_response_text@,
                    first_ajax_endpoint(t@, 0) == first_ajax_endpoint(t@, i as int),
                    i < n,
                    tag_end(t@, k as int) == g,
                    k <= hi <= g <= n,
                    n == t.len(),
                    url@ == ",url:"@,
                    atob@ == "atob("@,
                    last_endpoint(t@, k + 1, g as int) == last_endpoint(t@, k + 1, hi as int),
                decreases hi - k,
            {
                if let Some((a, b)) = endpoint_at_exec(&t, hi, &url, &atob) {
                    let payload = string_of(&t, a, b);
                    return b64(payload.as_str());
                }
                hi -= 1;
            }
        }
        i += 1;
    }
    Err(Error::NoEndpointMarker)
}

} // verus!
