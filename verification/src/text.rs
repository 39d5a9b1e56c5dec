use vstd::prelude::*;

verus! {

// ---------------------------------------------------------------------------
// Small trusted surface over std's string functions that vstd leaves
// unspecified.
// ---------------------------------------------------------------------------

/// Relies on String::push: appends exactly the one character.
pub assume_specification[ String::push ](s: &mut String, ch: char)
    ensures
        final(s)@ == old(s)@.push(ch),
;

/// What str::to_lowercase returns; a function of the characters alone.
pub uninterp spec fn lower_of(s: Seq<char>) -> Seq<char>;

/// Relies on str::to_lowercase: the lowercased text depends only on the
/// characters of the input.
#[verifier::external_body]
pub fn lowercase(s: &str) -> (r: String)
    ensures
        r@ == lower_of(s@),
{
    s.to_lowercase()
}

/// `needle` occurs as a contiguous run of characters inside `hay`.
pub open spec fn contains_seq(hay: Seq<char>, needle: Seq<char>) -> bool {
    exists|i: int|
        0 <= i && i + needle.len() <= hay.len() && #[trigger] hay.subrange(i, i + needle.len())
            == needle
}

/// Relies on str::contains with a &str pattern: true exactly when the needle
/// occurs as a substring of the haystack.
#[verifier::external_body]
pub fn contains_sub(hay: &str, needle: &str) -> (r: bool)
    ensures
        r == contains_seq(hay@, needle@),
{
    hay.contains(needle)
}

/// What str::trim returns; a function of the characters alone.
pub uninterp spec fn trim_of(s: Seq<char>) -> Seq<char>;

/// Relies on str::trim: strips leading and trailing whitespace, returning a
/// substring of the input.
#[verifier::external_body]
pub fn trim_str(s: &str) -> (r: String)
    ensures
        r@ == trim_of(s@),
        r@.len() <= s@.len(),
{
    s.trim().to_string()
}

// ---------------------------------------------------------------------------
// Lower-case hex encoding (verified).
// ---------------------------------------------------------------------------

/// The lower-case hex digit for `n`, for `0 <= n < 16`.
pub open spec fn hex_char(n: int) -> char {
    if n == 0 {
        '0'
    } else if n == 1 {
        '1'
    } else if n == 2 {
        '2'
    } else if n == 3 {
        '3'
    } else if n == 4 {
        '4'
    } else if n == 5 {
        '5'
    } else if n == 6 {
        '6'
    } else if n == 7 {
        '7'
    } else if n == 8 {
        '8'
    } else if n == 9 {
        '9'
    } else if n == 10 {
        'a'
    } else if n == 11 {
        'b'
    } else if n == 12 {
        'c'
    } else if n == 13 {
        'd'
    } else if n == 14 {
        'e'
    } else {
        'f'
    }
}

/// The two hex digits of one byte, high nibble first.
pub open spec fn byte_hex(b: u8) -> Seq<char> {
    seq![hex_char(b as int / 16), hex_char(b as int % 16)]
}

/// The lower-case hex encoding of a byte string.
pub open spec fn hex_of(bytes: Seq<u8>) -> Seq<char>
    decreases bytes.len(),
{
    if bytes.len() == 0 {
        Seq::empty()
    } else {
        byte_hex(bytes.first()) + hex_of(bytes.drop_first())
    }
}

/// Appending a byte appends its two digits.
pub proof fn lemma_hex_of_push(bytes: Seq<u8>, b: u8)
    ensures
        hex_of(bytes.push(b)) == hex_of(bytes) + byte_hex(b),
    decreases bytes.len(),
{
    if bytes.len() == 0 {
        assert(bytes.push(b).drop_first() =~= Seq::<u8>::empty());
        assert(bytes.push(b).first() == b);
        assert(hex_of(bytes.push(b)) == byte_hex(b) + hex_of(Seq::<u8>::empty()));
        assert(hex_of(bytes.push(b)) =~= hex_of(bytes) + byte_hex(b));
    } else {
        assert(bytes.push(b).drop_first() =~= bytes.drop_first().push(b));
        lemma_hex_of_push(bytes.drop_first(), b);
        assert(hex_of(bytes.push(b)) =~= hex_of(bytes) + byte_hex(b));
    }
}

/// The encoding has two characters per byte.
pub proof fn lemma_hex_of_len(bytes: Seq<u8>)
    ensures
        hex_of(bytes).len() == 2 * bytes.len(),
    decreases bytes.len(),
{
    if bytes.len() > 0 {
        lemma_hex_of_len(bytes.drop_first());
    }
}

fn hex_char_of(n: u8) -> (c: char)
    requires
        n < 16,
    ensures
        c == hex_char(n as int),
{
    match n {
        0 => '0',
        1 => '1',
        2 => '2',
        3 => '3',
        4 => '4',
        5 => '5',
        6 => '6',
        7 => '7',
        8 => '8',
        9 => '9',
        10 => 'a',
        11 => 'b',
        12 => 'c',
        13 => 'd',
        14 => 'e',
        _ => 'f',
    }
}

/// Encode a byte string as lower-case hex.
pub fn to_hex(bytes: &[u8]) -> (r: String)
    ensures
        r@ == hex_of(bytes@),
        r@.len() == 2 * bytes@.len(),
{
    let mut r = String::new();
    let n = bytes.len();
    let mut i: usize = 0;
    while i < n
        invariant
            n == bytes@.len(),
            i <= n,
            r@ == hex_of(bytes@.take(i as int)),
        decreases n - i,
    {
        let b = bytes[i];
        r.push(hex_char_of(b / 16));
        r.push(hex_char_of(b % 16));
        proof {
            assert(bytes@.take(i + 1) =~= bytes@.take(i as int).push(bytes@[i as int]));
            lemma_hex_of_push(bytes@.take(i as int), bytes@[i as int]);
        }
        i = i + 1;
    }
    proof {
        assert(bytes@.take(n as int) =~= bytes@);
        lemma_hex_of_len(bytes@);
    }
    r
}

// ---------------------------------------------------------------------------
// Filename sanitizing (verified).
// ---------------------------------------------------------------------------

/// Characters that would upset a file system are replaced by underscores.
pub open spec fn sanitize_char(c: char) -> char {
    if c == '/' || c == '\\' || c == ':' || c == '*' || c == '?' || c == '"' || c == '<' || c == '>'
        || c == '|' {
        '_'
    } else {
        c
    }
}

/// A label made safe for use inside a filename: every unsafe character
/// replaced, then cut to at most 50 characters.
pub open spec fn sanitized_of(name: Seq<char>) -> Seq<char> {
    let mapped = name.map_values(|c: char| sanitize_char(c));
    if mapped.len() <= 50 {
        mapped
    } else {
        mapped.take(50)
    }
}

fn sanitize_char_exec(c: char) -> (r: char)
    ensures
        r == sanitize_char(c),
{
    match c {
        '/' | '\\' | ':' | '*' | '?' | '"' | '<' | '>' | '|' => '_',
        _ => c,
    }
}

/// Make a label safe for use inside a filename.
pub fn sanitize_filename(name: &str) -> (r: String)
    ensures
        r@ == sanitized_of(name@),
{
    let len = name.unicode_len();
    let n = if len <= 50 {
        len
    } else {
        50
    };
    let mut r = String::new();
    let mut i: usize = 0;
    while i < n
        invariant
            len == name@.len(),
            n == if len <= 50 {
                len as int
            } else {
                50
            },
            i <= n,
            r@ == name@.map_values(|c: char| sanitize_char(c)).take(i as int),
        decreases n - i,
    {
        let c = name.get_char(i);
        r.push(sanitize_char_exec(c));
        proof {
            let mapped = name@.map_values(|c: char| sanitize_char(c));
            assert(mapped.take(i + 1) =~= mapped.take(i as int).push(mapped[i as int]));
        }
        i = i + 1;
    }
    proof {
        let mapped = name@.map_values(|c: char| sanitize_char(c));
        if len <= 50 {
            assert(mapped.take(n as int) =~= mapped);
        }
    }
    r
}

// ---------------------------------------------------------------------------
// Url extension (verified).
// ---------------------------------------------------------------------------

/// The characters after the last `'.'`, or the whole string when it holds no
/// `'.'` at all — the way splitting from the right on `'.'` would see it.
pub open spec fn ext_of(s: Seq<char>) -> Seq<char>
    decreases s.len(),
{
    if s.len() == 0 {
        Seq::empty()
    } else if s.last() == '.' {
        Seq::empty()
    } else {
        ext_of(s.drop_last()).push(s.last())
    }
}

/// When position `i` holds the last dot, the extension is everything after it.
proof fn lemma_ext_after_dot(s: Seq<char>, i: int)
    requires
        0 <= i < s.len(),
        s[i] == '.',
        forall|j: int| i < j < s.len() ==> s[j] != '.',
    ensures
        ext_of(s) == s.subrange(i + 1, s.len() as int),
    decreases s.len(),
{
    if i == s.len() - 1 {
        assert(ext_of(s) =~= s.subrange(i + 1, s.len() as int));
    } else {
        lemma_ext_after_dot(s.drop_last(), i);
        assert(ext_of(s) =~= s.subrange(i + 1, s.len() as int));
    }
}

/// Without any dot the extension is the string itself.
proof fn lemma_ext_no_dot(s: Seq<char>)
    requires
        forall|j: int| 0 <= j < s.len() ==> s[j] != '.',
    ensures
        ext_of(s) == s,
    decreases s.len(),
{
    if s.len() > 0 {
        lemma_ext_no_dot(s.drop_last());
        assert(ext_of(s) =~= s);
    }
}

/// The extension of a url, read as the text after its last dot.
pub fn extension_of(url: &str) -> (r: String)
    ensures
        r@ == ext_of(url@),
{
    let len = url.unicode_len();
    let mut j: usize = len;
    while j > 0
        invariant
            len == url@.len(),
            j <= len,
            forall|k: int| j <= k < len ==> url@[k] != '.',
        decreases j,
    {
        if url.get_char(j - 1) == '.' {
            let r = url.substring_char(j, len).to_owned();
            proof {
                lemma_ext_after_dot(url@, j - 1);
            }
            return r;
        }
        j = j - 1;
    }
    proof {
        lemma_ext_no_dot(url@);
    }
    url.to_owned()
}

// ---------------------------------------------------------------------------
// Url normalization (verified).
// ---------------------------------------------------------------------------

/// `p` is a prefix of `s`.
pub open spec fn starts_with_seq(s: Seq<char>, p: Seq<char>) -> bool {
    p.len() <= s.len() && s.subrange(0, p.len() as int) == p
}

/// Whether `p` is a prefix of `s`.
pub fn starts_with_str(s: &str, p: &str) -> (r: bool)
    ensures
        r == starts_with_seq(s@, p@),
{
    let sn = s.unicode_len();
    let pn = p.unicode_len();
    if pn > sn {
        return false;
    }
    let mut i: usize = 0;
    while i < pn
        invariant
            sn == s@.len(),
            pn == p@.len(),
            pn <= sn,
            i <= pn,
            forall|k: int| 0 <= k < i ==> s@[k] == p@[k],
        decreases pn - i,
    {
        if s.get_char(i) != p.get_char(i) {
            assert(s@.subrange(0, pn as int)[i as int] != p@[i as int]);
            return false;
        }
        i = i + 1;
    }
    assert(s@.subrange(0, pn as int) =~= p@);
    true
}

/// A resource locator made absolute against a base url: already-absolute urls
/// pass through, scheme-relative ones get `https:`, site-relative ones are
/// joined to the base, and bare paths are joined with a separating slash.
pub open spec fn normalized_url(url: Seq<char>, base: Seq<char>) -> Seq<char> {
    if starts_with_seq(url, "http://"@) || starts_with_seq(url, "https://"@) {
        url
    } else if starts_with_seq(url, "//"@) {
        "https:"@ + url
    } else if url.len() > 0 && url[0] == '/' {
        base + url
    } else {
        base + "/"@ + url
    }
}

/// Make a possibly relative url absolute against `base`.
pub fn normalize_url(url: &str, base_url: &str) -> (r: String)
    ensures
        r@ == normalized_url(url@, base_url@),
{
    if starts_with_str(url, "http://") || starts_with_str(url, "https://") {
        url.to_owned()
    } else if starts_with_str(url, "//") {
        let mut r = String::from_str("https:");
        r.append(url);
        r
    } else if url.unicode_len() > 0 && url.get_char(0) == '/' {
        let mut r = base_url.to_owned();
        r.append(url);
        r
    } else {
        let mut r = base_url.to_owned();
        r.append("/");
        r.append(url);
        r
    }
}

} // verus!
