//! Character-level helpers shared by the text format parsers and writers.
use vstd::prelude::*;

verus! {

broadcast use vstd::string::group_string_axioms;

/// `String::push` appends one character at the end of the string.
pub assume_specification[ std::string::String::push ](s: &mut std::string::String, ch: char)
    ensures
        final(s)@ == old(s)@.push(ch),
;

#[verifier::external_type_specification]
#[verifier::external_body]
pub struct ExUtf8Error(std::str::Utf8Error);

/// `std::str::from_utf8` succeeds exactly on valid UTF-8 and decodes it.
pub assume_specification[ std::str::from_utf8 ](v: &[u8]) -> (r: Result<&str, std::str::Utf8Error>)
    ensures
        r is Ok <==> vstd::utf8::valid_utf8(v@),
        r matches Ok(s) ==> s@ == vstd::utf8::decode_utf8(v@),
;

/// The message of a UTF-8 decoding error: `Invalid UTF-8: ` and the
/// error's own text.
pub fn utf8_error_message(e: &std::str::Utf8Error) -> (r: std::string::String)
    ensures
        starts_with(r@, "Invalid UTF-8: "@),
{
    let p = "Invalid UTF-8: ";
    let mut m = p.to_owned();
    let t = utf8_error_text(e);
    m.append(t.as_str());
    proof {
        reveal_strlit("Invalid UTF-8: ");
        assert(p@.len() == 15);
        assert(m@ == p@ + t@);
        assert(m@.take(15) =~= p@);
    }
    m
}

/// The message of a UTF-8 decoding error, as its `Display` writes it. The
/// text is not stated.
#[verifier::external_body]
pub fn utf8_error_text(e: &std::str::Utf8Error) -> std::string::String {
    e.to_string()
}

/// The UTF-8 encoding of `s`.
pub fn string_bytes(s: &std::string::String) -> (b: Vec<u8>)
    ensures
        b@ == vstd::utf8::encode_utf8(s@),
{
    s.as_str().as_bytes_vec()
}

/// The characters of `s`, in order.
pub fn str_chars(s: &str) -> (v: Vec<char>)
    ensures
        v@ == s@,
{
    let mut v: Vec<char> = Vec::new();
    for c in it: s.chars()
        invariant
            v@ == it.seq().take(it.index() as int),
            it.seq() == s@,
    {
        v.push(c);
    }
    v
}


/// A string made of the characters of `v`.
pub fn string_of(v: &[char]) -> (s: std::string::String)
    ensures
        s@ == v@,
{
    let mut s = std::string::String::new();
    let mut i: usize = 0;
    while i < v.len()
        invariant
            i <= v@.len(),
            s@ == v@.take(i as int),
        decreases v@.len() - i,
    {
        s.push(v[i]);
        i = i + 1;
        assert(s@ == v@.take(i as int));
    }
    assert(v@.take(v@.len() as int) == v@);
    s
}

/// Appends the characters of `v` to `out`.
pub fn push_chars(out: &mut std::string::String, v: &[char])
    ensures
        final(out)@ == old(out)@ + v@,
{
    let mut i: usize = 0;
    while i < v.len()
        invariant
            i <= v@.len(),
            out@ == old(out)@ + v@.take(i as int),
        decreases v@.len() - i,
    {
        out.push(v[i]);
        i = i + 1;
        assert(out@ == old(out)@ + v@.take(i as int));
    }
    assert(v@.take(v@.len() as int) == v@);
}

/// Appends the characters of `v` from `a` to `b` to `out`.
pub fn push_range(out: &mut std::string::String, v: &[char], a: usize, b: usize)
    requires
        a <= b <= v@.len(),
    ensures
        final(out)@ == old(out)@ + v@.subrange(a as int, b as int),
{
    let mut i: usize = a;
    while i < b
        invariant
            a <= i <= b <= v@.len(),
            out@ == old(out)@ + v@.subrange(a as int, i as int),
        decreases b - i,
    {
        out.push(v[i]);
        i = i + 1;
        assert(out@ == old(out)@ + v@.subrange(a as int, i as int));
    }
}

/// The characters of an optional character vector.
pub open spec fn opt_chars(o: Option<Vec<char>>) -> Option<Seq<char>> {
    match o {
        Some(v) => Some(v@),
        None => None,
    }
}

/// The characters of `v` from `a` to `b`.
pub fn chars_range(v: &[char], a: usize, b: usize) -> (r: Vec<char>)
    requires
        a <= b <= v@.len(),
    ensures
        r@ == v@.subrange(a as int, b as int),
{
    let mut r: Vec<char> = Vec::new();
    let mut i: usize = a;
    while i < b
        invariant
            a <= i <= b <= v@.len(),
            r@ == v@.subrange(a as int, i as int),
        decreases b - i,
    {
        r.push(v[i]);
        i = i + 1;
        assert(r@ == v@.subrange(a as int, i as int));
    }
    r
}

/// The White_Space characters of Unicode, which `char::is_whitespace` accepts.
pub open spec fn is_ws(c: char) -> bool {
    ||| ('\t' <= c && c <= '\r')
    ||| c == ' '
    ||| c == '\u{85}'
    ||| c == '\u{a0}'
    ||| c == '\u{1680}'
    ||| ('\u{2000}' <= c && c <= '\u{200a}')
    ||| c == '\u{2028}'
    ||| c == '\u{2029}'
    ||| c == '\u{202f}'
    ||| c == '\u{205f}'
    ||| c == '\u{3000}'
}

/// Whether `c` is a White_Space character, as `char::is_whitespace` decides.
pub fn is_whitespace(c: char) -> (b: bool)
    ensures
        b == is_ws(c),
{
    ('\t' <= c && c <= '\r') || c == ' ' || c == '\u{85}' || c == '\u{a0}' || c == '\u{1680}'
        || ('\u{2000}' <= c && c <= '\u{200a}') || c == '\u{2028}' || c == '\u{2029}'
        || c == '\u{202f}' || c == '\u{205f}' || c == '\u{3000}'
}

/// `s` without its leading white space.
pub open spec fn trim_start(s: Seq<char>) -> Seq<char>
    decreases s.len(),
{
    if s.len() > 0 && is_ws(s[0]) {
        trim_start(s.drop_first())
    } else {
        s
    }
}

/// `s` without its trailing white space.
pub open spec fn trim_end(s: Seq<char>) -> Seq<char>
    decreases s.len(),
{
    if s.len() > 0 && is_ws(s.last()) {
        trim_end(s.drop_last())
    } else {
        s
    }
}

/// `s` without leading and trailing white space, as `str::trim` gives it.
pub open spec fn trim(s: Seq<char>) -> Seq<char> {
    trim_end(trim_start(s))
}

/// Number of leading white space characters of `s`.
pub open spec fn ws_prefix_len(s: Seq<char>) -> nat
    decreases s.len(),
{
    if s.len() > 0 && is_ws(s[0]) {
        1 + ws_prefix_len(s.drop_first())
    } else {
        0
    }
}

/// Number of trailing white space characters of `s`.
pub open spec fn ws_suffix_len(s: Seq<char>) -> nat
    decreases s.len(),
{
    if s.len() > 0 && is_ws(s.last()) {
        1 + ws_suffix_len(s.drop_last())
    } else {
        0
    }
}

pub proof fn lemma_trim_start(s: Seq<char>)
    ensures
        ws_prefix_len(s) <= s.len(),
        trim_start(s) == s.skip(ws_prefix_len(s) as int),
        forall|j: int| 0 <= j < ws_prefix_len(s) ==> is_ws(#[trigger] s[j]),
        ws_prefix_len(s) < s.len() ==> !is_ws(s[ws_prefix_len(s) as int]),
    decreases s.len(),
{
    if s.len() > 0 && is_ws(s[0]) {
        lemma_trim_start(s.drop_first());
        assert(s.drop_first().skip(ws_prefix_len(s.drop_first()) as int) == s.skip(ws_prefix_len(s) as int));
        assert forall|j: int| 0 <= j < ws_prefix_len(s) implies is_ws(#[trigger] s[j]) by {
            if j > 0 {
                assert(s[j] == s.drop_first()[j - 1]);
            }
        }
    } else {
        assert(s.skip(0) == s);
    }
}

pub proof fn lemma_trim_end(s: Seq<char>)
    ensures
        ws_suffix_len(s) <= s.len(),
        trim_end(s) == s.take(s.len() - ws_suffix_len(s)),
        forall|j: int| s.len() - ws_suffix_len(s) <= j < s.len() ==> is_ws(#[trigger] s[j]),
        ws_suffix_len(s) < s.len() ==> !is_ws(s[s.len() - ws_suffix_len(s) - 1]),
    decreases s.len(),
{
    if s.len() > 0 && is_ws(s.last()) {
        lemma_trim_end(s.drop_last());
        assert(s.drop_last().take(s.drop_last().len() - ws_suffix_len(s.drop_last())) == s.take(s.len() - ws_suffix_len(s)));
        assert forall|j: int| s.len() - ws_suffix_len(s) <= j < s.len() implies is_ws(#[trigger] s[j]) by {
            if j < s.len() - 1 {
                assert(s[j] == s.drop_last()[j]);
            }
        }
    } else {
        assert(s.take(s.len() as int) == s);
    }
}

/// Index of the first character at or after `i` that is not white space.
pub fn skip_ws_from(s: &[char], i: usize) -> (j: usize)
    requires
        i <= s@.len(),
    ensures
        i <= j <= s@.len(),
        forall|k: int| i <= k < j ==> is_ws(#[trigger] s@[k]),
        j < s@.len() ==> !is_ws(s@[j as int]),
{
    let mut j = i;
    while j < s.len() && is_whitespace(s[j])
        invariant
            i <= j <= s@.len(),
            forall|k: int| i <= k < j ==> is_ws(#[trigger] s@[k]),
        decreases s@.len() - j,
    {
        j = j + 1;
    }
    j
}

/// `s` without leading and trailing white space.
pub fn trim_chars(s: &[char]) -> (r: Vec<char>)
    ensures
        r@ == trim(s@),
{
    proof {
        lemma_trim_start(s@);
    }
    let a = skip_ws_from(s, 0);
    proof {
        assert(a == ws_prefix_len(s@)) by {
            if a < ws_prefix_len(s@) {
                assert(is_ws(s@[a as int]));
            } else if a > ws_prefix_len(s@) {
                assert(is_ws(s@[ws_prefix_len(s@) as int]));
            }
        }
    }
    let ghost t = s@.skip(a as int);
    let mut b = s.len();
    while b > a && is_whitespace(s[b - 1])
        invariant
            a <= b <= s@.len(),
            forall|k: int| b <= k < s@.len() ==> is_ws(#[trigger] s@[k]),
        decreases b,
    {
        b = b - 1;
    }
    proof {
        lemma_trim_end(t);
        let n = ws_suffix_len(t);
        assert(b - a == t.len() - n) by {
            if b - a < t.len() - n {
                assert(is_ws(t[b - a]));
                assert(t[b - a] == s@[b as int]);
            } else if b - a > t.len() - n {
                assert(is_ws(t[b - a - 1]));
                assert(t[b - a - 1] == s@[b - 1]);
            }
        }
    }
    let mut r: Vec<char> = Vec::new();
    let mut k = a;
    while k < b
        invariant
            a <= k <= b <= s@.len(),
            r@ == s@.subrange(a as int, k as int),
        decreases b - k,
    {
        r.push(s[k]);
        k = k + 1;
        assert(r@ == s@.subrange(a as int, k as int));
    }
    assert(r@ == t.take(b - a));
    r
}

/// The concatenation of `f` applied to each character of `s`, in order.
pub open spec fn concat_map(s: Seq<char>, f: spec_fn(char) -> Seq<char>) -> Seq<char>
    decreases s.len(),
{
    if s.len() == 0 {
        Seq::empty()
    } else {
        concat_map(s.drop_last(), f) + f(s.last())
    }
}

pub proof fn lemma_concat_map_step(s: Seq<char>, i: int, f: spec_fn(char) -> Seq<char>)
    requires
        0 <= i < s.len(),
    ensures
        concat_map(s.take(i + 1), f) == concat_map(s.take(i), f) + f(s[i]),
{
    assert(s.take(i + 1).drop_last() == s.take(i));
}

/// The mapped text of a sequence starts with the mapped first character.
pub proof fn lemma_concat_map_front(s: Seq<char>, f: spec_fn(char) -> Seq<char>)
    requires
        s.len() > 0,
    ensures
        concat_map(s, f) == f(s[0]) + concat_map(s.drop_first(), f),
    decreases s.len(),
{
    if s.len() == 1 {
        assert(s.drop_last() =~= Seq::<char>::empty());
        assert(s.drop_first() =~= Seq::<char>::empty());
        assert(f(s[0]) + Seq::<char>::empty() =~= f(s[0]));
    } else {
        lemma_concat_map_front(s.drop_last(), f);
        assert(s.drop_last().drop_first() =~= s.drop_first().drop_last());
        assert(s.drop_first().last() == s.last());
        assert(s.drop_last()[0] == s[0]);
    }
}

/// The strings of `parts` joined with `sep` between each two.
pub open spec fn join(parts: Seq<Seq<char>>, sep: Seq<char>) -> Seq<char>
    decreases parts.len(),
{
    if parts.len() == 0 {
        Seq::empty()
    } else if parts.len() == 1 {
        parts[0]
    } else {
        join(parts.drop_last(), sep) + sep + parts.last()
    }
}

/// The characters of each string of `v`.
pub open spec fn string_views(v: Seq<std::string::String>) -> Seq<Seq<char>> {
    v.map_values(|s: std::string::String| s@)
}

/// The strings of `parts` joined with `sep`, as `[String]::join` gives them.
pub fn join_strings(parts: &Vec<std::string::String>, sep: &str) -> (r: std::string::String)
    ensures
        r@ == join(string_views(parts@), sep@),
{
    let mut r = std::string::String::new();
    let mut i: usize = 0;
    while i < parts.len()
        invariant
            i <= parts@.len(),
            r@ == join(string_views(parts@).take(i as int), sep@),
        decreases parts@.len() - i,
    {
        let ghost views = string_views(parts@);
        assert(views.take(i + 1).drop_last() == views.take(i as int));
        if i > 0 {
            r.append(sep);
        }
        r.append(parts[i].as_str());
        i = i + 1;
    }
    assert(string_views(parts@).take(parts@.len() as int) == string_views(parts@));
    r
}


/// A Unicode scalar value: a code point that is not a surrogate.
pub open spec fn is_scalar_value(n: int) -> bool {
    (0 <= n < 0xD800) || (0xE000 <= n < 0x110000)
}

/// `char::from_u32` gives the character of a scalar value, and `None` for
/// every other number.
pub assume_specification[ char::from_u32 ](i: u32) -> (r: Option<char>)
    ensures
        r is Some <==> is_scalar_value(i as int),
        r matches Some(c) ==> c == (i as char),
;

/// An ASCII hexadecimal digit.
pub open spec fn is_hex(c: char) -> bool {
    ('0' <= c && c <= '9') || ('a' <= c && c <= 'f') || ('A' <= c && c <= 'F')
}

/// The value of a hexadecimal digit.
pub open spec fn hex_digit_value(c: char) -> nat {
    if '0' <= c && c <= '9' {
        ((c as int) - ('0' as int)) as nat
    } else if 'a' <= c && c <= 'f' {
        ((c as int) - ('a' as int) + 10) as nat
    } else {
        ((c as int) - ('A' as int) + 10) as nat
    }
}

/// Number of hexadecimal digits at the start of `s`, at most `max`.
pub open spec fn hex_run(s: Seq<char>, max: nat) -> nat
    decreases max,
{
    if max == 0 || s.len() == 0 || !is_hex(s[0]) {
        0
    } else {
        1 + hex_run(s.drop_first(), (max - 1) as nat)
    }
}

/// The number that the hexadecimal digits `s` write.
pub open spec fn hex_value(s: Seq<char>) -> nat
    decreases s.len(),
{
    if s.len() == 0 {
        0
    } else {
        hex_value(s.drop_last()) * 16 + hex_digit_value(s.last())
    }
}

pub open spec fn pow16(n: nat) -> nat
    decreases n,
{
    if n == 0 { 1 } else { 16 * pow16((n - 1) as nat) }
}

pub proof fn lemma_hex_value_bound(s: Seq<char>)
    requires
        forall|i: int| 0 <= i < s.len() ==> is_hex(#[trigger] s[i]),
    ensures
        hex_value(s) < pow16(s.len()),
    decreases s.len(),
{
    if s.len() > 0 {
        lemma_hex_value_bound(s.drop_last());
        assert(is_hex(s[s.len() - 1]));
    }
}

pub proof fn lemma_hex_run(s: Seq<char>, max: nat)
    ensures
        hex_run(s, max) <= max,
        hex_run(s, max) <= s.len(),
        forall|i: int| 0 <= i < hex_run(s, max) ==> is_hex(#[trigger] s[i]),
        hex_run(s, max) < max && hex_run(s, max) < s.len() ==> !is_hex(s[hex_run(s, max) as int]),
    decreases max,
{
    if !(max == 0 || s.len() == 0 || !is_hex(s[0])) {
        lemma_hex_run(s.drop_first(), (max - 1) as nat);
        assert forall|i: int| 0 <= i < hex_run(s, max) implies is_hex(#[trigger] s[i]) by {
            if i > 0 {
                assert(s[i] == s.drop_first()[i - 1]);
            }
        }
    }
}

/// The value of a hexadecimal digit, or `None` for another character.
pub fn hex_digit(c: char) -> (r: Option<u32>)
    ensures
        r is Some <==> is_hex(c),
        r matches Some(v) ==> v == hex_digit_value(c) && v < 16,
{
    if '0' <= c && c <= '9' {
        Some((c as u32) - ('0' as u32))
    } else if 'a' <= c && c <= 'f' {
        Some((c as u32) - ('a' as u32) + 10)
    } else if 'A' <= c && c <= 'F' {
        Some((c as u32) - ('A' as u32) + 10)
    } else {
        None
    }
}

/// Reads at most `max` hexadecimal digits of `s` from `from` on, continuing
/// the value of the digits from `start` to `from`. Gives the number of
/// digits read and the value of all digits from `start`.
pub fn read_hex(s: &[char], start: usize, from: usize, max: usize, acc: u32) -> (r: (usize, u32))
    requires
        start <= from <= s@.len(),
        forall|i: int| start <= i < from ==> is_hex(#[trigger] s@[i]),
        acc == hex_value(s@.subrange(start as int, from as int)),
        (from - start) + max <= 8,
    ensures
        r.0 == hex_run(s@.skip(from as int), max as nat),
        from + r.0 <= s@.len(),
        forall|i: int| start <= i < from + r.0 ==> is_hex(#[trigger] s@[i]),
        r.1 == hex_value(s@.subrange(start as int, from + r.0)),
{
    let mut n: usize = 0;
    let mut v: u32 = acc;
    proof {
        lemma_hex_run(s@.skip(from as int), max as nat);
    }
    while n < max && n < s.len() - from && hex_digit(s[from + n]).is_some()
        invariant
            start <= from,
            from + n <= s@.len(),
            n <= max,
            (from - start) + max <= 8,
            forall|i: int| start <= i < from + n ==> is_hex(#[trigger] s@[i]),
            v == hex_value(s@.subrange(start as int, from + n)),
            hex_run(s@.skip(from as int), max as nat) == n + hex_run(s@.skip(from + n), (max - n) as nat),
        decreases max - n,
    {
        let d = hex_digit(s[from + n]).unwrap();
        let ghost digits = s@.subrange(start as int, from + n);
        proof {
            assert(forall|i: int| 0 <= i < digits.len() ==> is_hex(#[trigger] digits[i]) ) by {
                assert forall|i: int| 0 <= i < digits.len() implies is_hex(#[trigger] digits[i]) by {
                    assert(digits[i] == s@[start + i]);
                }
            }
            lemma_hex_value_bound(digits);
            reveal_with_fuel(pow16, 9);
            if digits.len() <= 6 {
                assert(pow16(digits.len()) <= pow16(6)) by {
                    lemma_pow16_mono(digits.len(), 6);
                }
            } else {
                assert(digits.len() == 7);
            }
            assert(s@.subrange(start as int, from + n + 1).drop_last() == digits);
            let t = s@.skip(from + n);
            assert(t[0] == s@[from + n]);
            assert(t.drop_first() == s@.skip(from + n + 1));
        }
        v = v * 16 + d;
        n = n + 1;
    }
    proof {
        let t = s@.skip(from + n);
        if n < max && from + n < s@.len() {
            assert(t[0] == s@[from + n]);
        }
    }
    (n, v)
}

pub proof fn lemma_pow16_mono(a: nat, b: nat)
    requires
        a <= b,
    ensures
        pow16(a) <= pow16(b),
    decreases b,
{
    if a < b {
        lemma_pow16_mono(a, (b - 1) as nat);
    }
}


/// Whether `a` and `b` hold the same characters.
pub fn chars_eq(a: &[char], b: &[char]) -> (r: bool)
    ensures
        r == (a@ == b@),
{
    if a.len() != b.len() {
        return false;
    }
    let mut i: usize = 0;
    while i < a.len()
        invariant
            a@.len() == b@.len(),
            i <= a@.len(),
            forall|k: int| 0 <= k < i ==> a@[k] == b@[k],
        decreases a@.len() - i,
    {
        if a[i] != b[i] {
            return false;
        }
        i = i + 1;
    }
    assert(a@ =~= b@);
    true
}

/// Whether `a` and `b` are the same string.
pub fn str_eq(a: &str, b: &str) -> (r: bool)
    ensures
        r == (a@ == b@),
{
    let x = str_chars(a);
    let y = str_chars(b);
    chars_eq(x.as_slice(), y.as_slice())
}

/// `needle` occurs in `hay` at index `i`.
pub open spec fn occurs_at(hay: Seq<char>, needle: Seq<char>, i: int) -> bool {
    0 <= i && i + needle.len() <= hay.len() && hay.subrange(i, i + needle.len()) == needle
}

/// `needle` occurs somewhere in `hay`, as `str::contains` decides.
pub open spec fn contains(hay: Seq<char>, needle: Seq<char>) -> bool {
    exists|i: int| occurs_at(hay, needle, i)
}

/// Whether `needle` occurs in `hay` at index `i`.
pub fn matches_at(hay: &[char], needle: &[char], i: usize) -> (r: bool)
    ensures
        r == occurs_at(hay@, needle@, i as int),
{
    if i > hay.len() || needle.len() > hay.len() - i {
        return false;
    }
    let mut k: usize = 0;
    while k < needle.len()
        invariant
            i <= hay@.len(),
            i + needle@.len() <= hay.len(),
            k <= needle@.len(),
            forall|j: int| 0 <= j < k ==> hay@[i + j] == needle@[j],
        decreases needle@.len() - k,
    {
        if hay[i + k] != needle[k] {
            assert(hay@.subrange(i as int, i + needle@.len())[k as int] != needle@[k as int]);
            return false;
        }
        k = k + 1;
    }
    assert(hay@.subrange(i as int, i + needle@.len()) =~= needle@);
    true
}

/// Index of the first occurrence of `needle` in `hay` at or after `from`.
pub fn find_from(hay: &[char], needle: &[char], from: usize) -> (r: Option<usize>)
    ensures
        r matches Some(i) ==> from <= i && occurs_at(hay@, needle@, i as int)
            && forall|j: int| from <= j < i ==> !occurs_at(hay@, needle@, j),
        r is None ==> forall|j: int| from <= j ==> !occurs_at(hay@, needle@, j),
{
    if from > hay.len() {
        return None;
    }
    let mut i = from;
    while i < hay.len()
        invariant
            from <= i <= hay@.len(),
            forall|j: int| from <= j < i ==> !occurs_at(hay@, needle@, j),
        decreases hay@.len() - i,
    {
        if matches_at(hay, needle, i) {
            return Some(i);
        }
        i = i + 1;
    }
    if matches_at(hay, needle, i) {
        return Some(i);
    }
    None
}

/// Whether `needle` occurs in `hay`.
pub fn chars_contain(hay: &[char], needle: &[char]) -> (r: bool)
    ensures
        r == contains(hay@, needle@),
{
    match find_from(hay, needle, 0) {
        Some(_) => true,
        None => {
            assert(forall|j: int| 0 <= j ==> !occurs_at(hay@, needle@, j));
            false
        },
    }
}

/// Whether `needle` occurs in `hay`, as `str::contains` decides.
pub fn str_contains(hay: &str, needle: &str) -> (r: bool)
    ensures
        r == contains(hay@, needle@),
{
    let h = str_chars(hay);
    let n = str_chars(needle);
    chars_contain(h.as_slice(), n.as_slice())
}

/// Whether the character `c` occurs in `hay`.
pub fn chars_contain_char(hay: &[char], c: char) -> (r: bool)
    ensures
        r == hay@.contains(c),
{
    let mut i: usize = 0;
    while i < hay.len()
        invariant
            i <= hay@.len(),
            forall|j: int| 0 <= j < i ==> hay@[j] != c,
        decreases hay@.len() - i,
    {
        if hay[i] == c {
            return true;
        }
        i = i + 1;
    }
    false
}


/// Index of the first `c` in `s`, if any.
pub open spec fn index_of(s: Seq<char>, c: char) -> Option<int>
    decreases s.len(),
{
    if s.len() == 0 {
        None
    } else if s[0] == c {
        Some(0)
    } else {
        match index_of(s.drop_first(), c) {
            Some(k) => Some(k + 1),
            None => None,
        }
    }
}

pub proof fn lemma_index_of(s: Seq<char>, c: char)
    ensures
        index_of(s, c) matches Some(k) ==> 0 <= k < s.len() && s[k] == c && forall|j: int| 0 <= j < k ==> s[j] != c,
        index_of(s, c) is None ==> forall|j: int| 0 <= j < s.len() ==> s[j] != c,
    decreases s.len(),
{
    if s.len() > 0 && s[0] != c {
        lemma_index_of(s.drop_first(), c);
        assert forall|j: int| 1 <= j < s.len() implies s[j] == s.drop_first()[j - 1] by {}
    }
}

/// `l` without one trailing carriage return.
pub open spec fn strip_cr(l: Seq<char>) -> Seq<char> {
    if l.len() > 0 && l.last() == '\r' { l.drop_last() } else { l }
}

/// The lines of `s`, as `str::lines` gives them: split at each `\n`, a
/// `\r` right before the `\n` dropped, and no empty last line after a
/// final `\n`.
pub open spec fn lines(s: Seq<char>) -> Seq<Seq<char>>
    decreases s.len(),
{
    if s.len() == 0 {
        Seq::empty()
    } else {
        proof {
            lemma_index_of(s, '\n');
        }
        match index_of(s, '\n') {
            Some(k) => seq![strip_cr(s.take(k))] + lines(s.skip(k + 1)),
            None => seq![s],
        }
    }
}

/// The lines of `s`, as `str::lines` gives them.
pub fn split_lines(s: &[char]) -> (r: Vec<Vec<char>>)
    ensures
        r@.map_values(|l: Vec<char>| l@) == lines(s@),
{
    let mut r: Vec<Vec<char>> = Vec::new();
    let mut start: usize = 0;
    let mut cur: Vec<char> = Vec::new();
    let mut i: usize = 0;
    assert(s@.skip(0) == s@);
    while i < s.len()
        invariant
            start <= i <= s@.len(),
            cur@ == s@.subrange(start as int, i as int),
            forall|j: int| start <= j < i ==> s@[j] != '\n',
            lines(s@) == r@.map_values(|l: Vec<char>| l@) + lines(s@.skip(start as int)),
        decreases s@.len() - i,
    {
        if s[i] == '\n' {
            let ghost t = s@.skip(start as int);
            proof {
                lemma_index_of(t, '\n');
                assert(index_of(t, '\n') == Some(i - start)) by {
                    if let Some(k) = index_of(t, '\n') {
                        if k < i - start {
                            assert(t[k] == s@[start + k]);
                        } else if k > i - start {
                            assert(t[i - start] == s@[i as int]);
                        }
                    } else {
                        assert(t[i - start] == s@[i as int]);
                    }
                }
                assert(t.take(i - start) == cur@);
                assert(t.skip(i - start + 1) == s@.skip(i + 1));
            }
            let mut line = cur;
            if line.len() > 0 && line[line.len() - 1] == '\r' {
                line.pop();
            }
            let ghost before = r@.map_values(|l: Vec<char>| l@);
            r.push(line);
            assert(r@.map_values(|l: Vec<char>| l@) == before.push(strip_cr(t.take(i - start))));
            cur = Vec::new();
            start = i + 1;
            assert(cur@ == s@.subrange(start as int, start as int));
        } else {
            cur.push(s[i]);
        }
        i = i + 1;
        assert(cur@ == s@.subrange(start as int, i as int));
    }
    let ghost t = s@.skip(start as int);
    if start < s.len() {
        proof {
            lemma_index_of(t, '\n');
            if let Some(k) = index_of(t, '\n') {
                assert(t[k] == s@[start + k]);
            }
            assert(t == cur@);
        }
        let ghost before = r@.map_values(|l: Vec<char>| l@);
        r.push(cur);
        assert(r@.map_values(|l: Vec<char>| l@) == before + seq![t]);
    } else {
        assert(t.len() == 0);
    }
    r
}

/// `s` without its leading white space.
pub fn trim_start_chars(s: &[char]) -> (r: Vec<char>)
    ensures
        r@ == trim_start(s@),
{
    proof {
        lemma_trim_start(s@);
    }
    let a = skip_ws_from(s, 0);
    proof {
        assert(a == ws_prefix_len(s@)) by {
            if a < ws_prefix_len(s@) {
                assert(is_ws(s@[a as int]));
            } else if a > ws_prefix_len(s@) {
                assert(is_ws(s@[ws_prefix_len(s@) as int]));
            }
        }
        assert(s@.skip(a as int) == s@.subrange(a as int, s@.len() as int));
    }
    chars_range(s, a, s.len())
}

/// First index at or after `i` that holds neither a space nor a tab.
pub open spec fn skip_blank(s: Seq<char>, i: int) -> int
    decreases s.len() - i,
{
    if 0 <= i < s.len() && (s[i] == ' ' || s[i] == '\t') {
        skip_blank(s, i + 1)
    } else {
        i
    }
}

/// Index of the first character at or after `i` that is neither a space
/// nor a tab.
pub fn skip_blank_from(s: &[char], i: usize) -> (j: usize)
    requires
        i <= s@.len(),
    ensures
        j == skip_blank(s@, i as int),
        i <= j <= s@.len(),
{
    let mut j = i;
    while j < s.len() && (s[j] == ' ' || s[j] == '\t')
        invariant
            i <= j <= s@.len(),
            skip_blank(s@, i as int) == skip_blank(s@, j as int),
        decreases s@.len() - j,
    {
        j = j + 1;
    }
    j
}

/// Number of `c` characters that `s` ends with.
pub open spec fn trailing_count(s: Seq<char>, c: char) -> nat
    decreases s.len(),
{
    if s.len() > 0 && s.last() == c {
        1 + trailing_count(s.drop_last(), c)
    } else {
        0
    }
}

/// Number of `c` characters that `s` ends with.
pub fn count_trailing(s: &[char], c: char) -> (n: usize)
    ensures
        n == trailing_count(s@, c),
{
    let mut n: usize = 0;
    assert(s@.take(s@.len() as int) == s@);
    while n < s.len() && s[s.len() - 1 - n] == c
        invariant
            n <= s@.len(),
            trailing_count(s@, c) == n + trailing_count(s@.take(s@.len() - n), c),
        decreases s@.len() - n,
    {
        let ghost t = s@.take(s@.len() - n);
        assert(t.last() == s@[s@.len() - 1 - n]);
        assert(t.drop_last() == s@.take(s@.len() - (n + 1)));
        n = n + 1;
    }
    proof {
        let t = s@.take(s@.len() - n);
        if n < s@.len() {
            assert(t.last() == s@[s@.len() - 1 - n]);
        }
    }
    n
}

/// The decimal digits of `n`, without leading zeros.
pub open spec fn decimal(n: nat) -> Seq<char>
    decreases n,
{
    if n < 10 {
        seq![((n + 48) as u8) as char]
    } else {
        decimal(n / 10) + seq![(((n % 10) + 48) as u8) as char]
    }
}

/// Appends the decimal digits of `n`.
pub fn push_decimal(out: &mut String, n: u64)
    ensures
        final(out)@ == old(out)@ + decimal(n as nat),
    decreases n,
{
    if n >= 10 {
        push_decimal(out, n / 10);
    }
    let d = (n % 10) as u8;
    out.push((d + 48) as char);
}


/// `s` starts with `p`.
pub open spec fn starts_with(s: Seq<char>, p: Seq<char>) -> bool {
    p.len() <= s.len() && s.take(p.len() as int) == p
}

/// Whether `s` starts with `p`.
pub fn chars_start_with(s: &[char], p: &[char]) -> (r: bool)
    ensures
        r == starts_with(s@, p@),
{
    let r = matches_at(s, p, 0);
    proof {
        if p@.len() <= s@.len() {
            assert(s@.subrange(0, p@.len() as int) == s@.take(p@.len() as int));
        }
    }
    r
}

/// The pieces of `s` between the occurrences of `c`, as `str::split` with a
/// character gives them.
pub open spec fn split_char(s: Seq<char>, c: char) -> Seq<Seq<char>>
    decreases s.len(),
{
    proof {
        lemma_index_of(s, c);
    }
    match index_of(s, c) {
        Some(k) => seq![s.take(k)] + split_char(s.skip(k + 1), c),
        None => seq![s],
    }
}

/// The pieces of `s` between the occurrences of `c`.
pub fn split_at_char(s: &[char], c: char) -> (r: Vec<Vec<char>>)
    ensures
        r@.map_values(|l: Vec<char>| l@) == split_char(s@, c),
{
    let mut r: Vec<Vec<char>> = Vec::new();
    let mut start: usize = 0;
    let mut cur: Vec<char> = Vec::new();
    let mut i: usize = 0;
    assert(s@.skip(0) == s@);
    while i < s.len()
        invariant
            start <= i <= s@.len(),
            cur@ == s@.subrange(start as int, i as int),
            forall|j: int| start <= j < i ==> s@[j] != c,
            split_char(s@, c) == r@.map_values(|l: Vec<char>| l@) + split_char(s@.skip(start as int), c),
        decreases s@.len() - i,
    {
        if s[i] == c {
            let ghost t = s@.skip(start as int);
            proof {
                lemma_index_of(t, c);
                assert(index_of(t, c) == Some(i - start)) by {
                    if let Some(k) = index_of(t, c) {
                        if k < i - start {
                            assert(t[k] == s@[start + k]);
                        } else if k > i - start {
                            assert(t[i - start] == s@[i as int]);
                        }
                    } else {
                        assert(t[i - start] == s@[i as int]);
                    }
                }
                assert(t.take(i - start) == cur@);
                assert(t.skip(i - start + 1) == s@.skip(i + 1));
            }
            let ghost before = r@.map_values(|l: Vec<char>| l@);
            r.push(cur);
            assert(r@.map_values(|l: Vec<char>| l@) == before.push(t.take(i - start)));
            cur = Vec::new();
            start = i + 1;
            assert(cur@ == s@.subrange(start as int, start as int));
        } else {
            cur.push(s[i]);
        }
        i = i + 1;
        assert(cur@ == s@.subrange(start as int, i as int));
    }
    let ghost t = s@.skip(start as int);
    proof {
        lemma_index_of(t, c);
        if let Some(k) = index_of(t, c) {
            assert(t[k] == s@[start + k]);
        }
        assert(t == cur@);
    }
    let ghost before = r@.map_values(|l: Vec<char>| l@);
    r.push(cur);
    assert(r@.map_values(|l: Vec<char>| l@) == before + seq![t]);
    r
}

/// Index of the first occurrence of the non-empty `pat` in `s` at or after
/// `i`, if any.
pub open spec fn find_pat(s: Seq<char>, pat: Seq<char>, i: int) -> Option<int>
    decreases s.len() - i,
{
    if i < 0 || i + pat.len() > s.len() {
        None
    } else if occurs_at(s, pat, i) {
        Some(i)
    } else if i >= s.len() {
        None
    } else {
        find_pat(s, pat, i + 1)
    }
}

pub proof fn lemma_find_pat(s: Seq<char>, pat: Seq<char>, i: int)
    requires
        0 <= i,
    ensures
        find_pat(s, pat, i) matches Some(k) ==> i <= k && k + pat.len() <= s.len(),
    decreases s.len() - i,
{
    if i + pat.len() <= s.len() && !occurs_at(s, pat, i) && i < s.len() {
        lemma_find_pat(s, pat, i + 1);
    }
}

/// Index of the first occurrence of `pat` in `s` at or after `from`.
pub fn find_pat_from(s: &[char], pat: &[char], from: usize) -> (r: Option<usize>)
    requires
        from <= s@.len(),
    ensures
        match find_pat(s@, pat@, from as int) {
            Some(k) => r matches Some(j) && j == k,
            None => r is None,
        },
{
    let mut i = from;
    while i < s.len() && pat.len() <= s.len() - i
        invariant
            from <= i <= s@.len(),
            find_pat(s@, pat@, from as int) == find_pat(s@, pat@, i as int),
        decreases s@.len() - i,
    {
        if matches_at(s, pat, i) {
            return Some(i);
        }
        i = i + 1;
    }
    if i <= s.len() && pat.len() <= s.len() - i {
        if matches_at(s, pat, i) {
            return Some(i);
        }
    }
    None
}

/// The pieces of `s` between the occurrences of the non-empty `pat`, as
/// `str::split` with a string gives them, from index `i` on.
pub open spec fn split_pat_from(s: Seq<char>, pat: Seq<char>, i: int) -> Seq<Seq<char>>
    decreases s.len() - i,
{
    if i < 0 || i > s.len() || pat.len() == 0 {
        seq![s.skip(i)]
    } else {
        proof {
            lemma_find_pat(s, pat, i);
        }
        match find_pat(s, pat, i) {
            Some(k) => seq![s.subrange(i, k)] + split_pat_from(s, pat, k + pat.len()),
            None => seq![s.skip(i)],
        }
    }
}

/// The pieces of `s` between the occurrences of the non-empty `pat`.
pub fn split_at_pat(s: &[char], pat: &[char]) -> (r: Vec<Vec<char>>)
    requires
        pat@.len() > 0,
    ensures
        r@.map_values(|l: Vec<char>| l@) == split_pat_from(s@, pat@, 0),
{
    let mut r: Vec<Vec<char>> = Vec::new();
    let mut i: usize = 0;
    loop
        invariant
            i <= s@.len(),
            pat@.len() > 0,
            split_pat_from(s@, pat@, 0) == r@.map_values(|l: Vec<char>| l@) + split_pat_from(s@, pat@, i as int),
        decreases s@.len() - i,
    {
        proof {
            lemma_find_pat(s@, pat@, i as int);
        }
        match find_pat_from(s, pat, i) {
            Some(k) => {
                let piece = chars_range(s, i, k);
                let ghost before = r@.map_values(|l: Vec<char>| l@);
                r.push(piece);
                assert(r@.map_values(|l: Vec<char>| l@) == before.push(s@.subrange(i as int, k as int)));
                assert(k + pat@.len() <= s@.len());
                assert(s@.len() == s.len());
                i = k + pat.len();
            },
            None => {
                let piece = chars_range(s, i, s.len());
                assert(s@.subrange(i as int, s@.len() as int) == s@.skip(i as int));
                let ghost before = r@.map_values(|l: Vec<char>| l@);
                r.push(piece);
                assert(r@.map_values(|l: Vec<char>| l@) == before.push(s@.skip(i as int)));
                return r;
            },
        }
    }
}

/// The value of a run of ASCII digits, or `None` when it is empty or holds
/// something else.
pub open spec fn digits_value(g: Seq<char>) -> Option<nat>
    decreases g.len(),
{
    if g.len() == 0 || !('0' <= g.last() && g.last() <= '9') {
        None
    } else if g.len() == 1 {
        Some(((g.last() as int) - ('0' as int)) as nat)
    } else {
        match digits_value(g.drop_last()) {
            Some(n) => Some(n * 10 + ((g.last() as int) - ('0' as int)) as nat),
            None => None,
        }
    }
}

/// What `str::parse::<u32>` gives: an optional `+` and ASCII digits whose
/// value fits in a `u32`.
pub open spec fn parse_u32_spec(g: Seq<char>) -> Option<u32> {
    let d = if g.len() > 0 && g[0] == '+' { g.skip(1) } else { g };
    match digits_value(d) {
        Some(n) => if n <= u32::MAX { Some(n as u32) } else { None },
        None => None,
    }
}

pub proof fn lemma_digits_value_prefix(g: Seq<char>, i: int)
    requires
        0 <= i < g.len(),
        !('0' <= g[i] && g[i] <= '9'),
    ensures
        digits_value(g) is None,
    decreases g.len(),
{
    if i < g.len() - 1 {
        lemma_digits_value_prefix(g.drop_last(), i);
    }
}

pub proof fn lemma_digits_value_grows(g: Seq<char>, i: int)
    requires
        0 < i <= g.len(),
        digits_value(g.take(i)) is Some,
    ensures
        digits_value(g) is None || digits_value(g).unwrap() >= digits_value(g.take(i)).unwrap(),
    decreases g.len(),
{
    if i < g.len() {
        assert(g.drop_last().take(i) == g.take(i));
        lemma_digits_value_grows(g.drop_last(), i);
        if digits_value(g) is Some {
            assert(digits_value(g.drop_last()) is Some);
        }
    } else {
        assert(g.take(i) == g);
    }
}

/// Parses a `u32` as `str::parse::<u32>` does.
pub fn parse_u32(g: &[char]) -> (r: Option<u32>)
    ensures
        r == parse_u32_spec(g@),
{
    let start: usize = if g.len() > 0 && g[0] == '+' { 1 } else { 0 };
    let d = chars_range(g, start, g.len());
    proof {
        if start == 1 {
            assert(g@.skip(1) == d@);
        } else {
            assert(g@ == d@);
        }
    }
    if d.len() == 0 {
        return None;
    }
    let mut n: u32 = 0;
    let mut i: usize = 0;
    while i < d.len()
        invariant
            d@ == (if g@.len() > 0 && g@[0] == '+' { g@.skip(1) } else { g@ }),
            0 < d@.len(),
            i <= d@.len(),
            i == 0 ==> n == 0,
            i > 0 ==> digits_value(d@.take(i as int)) == Some(n as nat),
        decreases d@.len() - i,
    {
        let c = d[i];
        assert(d@.take(i + 1).drop_last() == d@.take(i as int));
        assert(d@.take(i + 1).last() == c);
        if !('0' <= c && c <= '9') {
            proof {
                lemma_digits_value_prefix(d@, i as int);
            }
            return None;
        }
        let v = (c as u32) - ('0' as u32);
        if n > (u32::MAX - v) / 10 {
            proof {
                lemma_digits_value_grows(d@, (i + 1) as int);
                assert(n * 10 + v > u32::MAX) by (nonlinear_arith)
                    requires
                        n > (u32::MAX - v) / 10,
                        v <= 9,
                ;
            }
            return None;
        }
        n = n * 10 + v;
        i = i + 1;
    }
    assert(d@.take(d@.len() as int) == d@);
    Some(n)
}

/// What `str::parse::<usize>` gives: an optional `+` and ASCII digits whose
/// value fits in a `usize`.
pub open spec fn parse_usize_spec(g: Seq<char>) -> Option<usize> {
    let d = if g.len() > 0 && g[0] == '+' { g.skip(1) } else { g };
    match digits_value(d) {
        Some(n) => if n <= usize::MAX { Some(n as usize) } else { None },
        None => None,
    }
}

/// Parses a `usize` as `str::parse::<usize>` does.
pub fn parse_usize(g: &[char]) -> (r: Option<usize>)
    ensures
        r == parse_usize_spec(g@),
{
    let start: usize = if g.len() > 0 && g[0] == '+' { 1 } else { 0 };
    let d = chars_range(g, start, g.len());
    proof {
        if start == 1 {
            assert(g@.skip(1) == d@);
        } else {
            assert(g@ == d@);
        }
    }
    if d.len() == 0 {
        return None;
    }
    let mut n: usize = 0;
    let mut i: usize = 0;
    while i < d.len()
        invariant
            d@ == (if g@.len() > 0 && g@[0] == '+' { g@.skip(1) } else { g@ }),
            0 < d@.len(),
            i <= d@.len(),
            i == 0 ==> n == 0,
            i > 0 ==> digits_value(d@.take(i as int)) == Some(n as nat),
        decreases d@.len() - i,
    {
        let c = d[i];
        assert(d@.take(i + 1).drop_last() == d@.take(i as int));
        assert(d@.take(i + 1).last() == c);
        if !('0' <= c && c <= '9') {
            proof {
                lemma_digits_value_prefix(d@, i as int);
            }
            return None;
        }
        let v = (c as usize) - ('0' as usize);
        if n > (usize::MAX - v) / 10 {
            proof {
                lemma_digits_value_grows(d@, (i + 1) as int);
                assert(n * 10 + v > usize::MAX) by (nonlinear_arith)
                    requires
                        n > (usize::MAX - v) / 10,
                        v <= 9,
                ;
            }
            return None;
        }
        n = n * 10 + v;
        i = i + 1;
    }
    assert(d@.take(d@.len() as int) == d@);
    Some(n)
}

/// The runs of characters that are not white space, as
/// `str::split_whitespace` gives them, from index `i` on.
pub open spec fn words_from(s: Seq<char>, i: int) -> Seq<Seq<char>>
    decreases s.len() - i, 1int,
{
    if i < 0 || i >= s.len() {
        Seq::empty()
    } else if is_ws(s[i]) {
        words_from(s, i + 1)
    } else {
        let e = word_end(s, i);
        proof {
            lemma_word_end(s, i);
        }
        seq![s.subrange(i, e)] + words_from(s, e)
    }
}

/// Index of the first white space character at or after `i` (or the end).
pub open spec fn word_end(s: Seq<char>, i: int) -> int
    decreases s.len() - i,
{
    if i < 0 || i >= s.len() || is_ws(s[i]) { i } else { word_end(s, i + 1) }
}

pub proof fn lemma_word_end(s: Seq<char>, i: int)
    requires
        0 <= i < s.len(),
        !is_ws(s[i]),
    ensures
        i < word_end(s, i) <= s.len(),
    decreases s.len() - i,
{
    if i + 1 < s.len() && !is_ws(s[i + 1]) {
        lemma_word_end(s, i + 1);
    } else {
        assert(word_end(s, i + 1) == i + 1);
    }
}

/// The runs of characters of `s` that are not white space.
pub fn split_words(s: &[char]) -> (r: Vec<Vec<char>>)
    ensures
        r@.map_values(|l: Vec<char>| l@) == words_from(s@, 0),
{
    let mut r: Vec<Vec<char>> = Vec::new();
    let mut i: usize = 0;
    while i < s.len()
        invariant
            i <= s@.len(),
            words_from(s@, 0) == r@.map_values(|l: Vec<char>| l@) + words_from(s@, i as int),
        decreases s@.len() - i,
    {
        if is_whitespace(s[i]) {
            i = i + 1;
        } else {
            let mut e = i;
            while e < s.len() && !is_whitespace(s[e])
                invariant
                    i <= e <= s@.len(),
                    word_end(s@, i as int) == word_end(s@, e as int),
                decreases s@.len() - e,
            {
                e = e + 1;
            }
            proof {
                lemma_word_end(s@, i as int);
            }
            let piece = chars_range(s, i, e);
            let ghost before = r@.map_values(|l: Vec<char>| l@);
            r.push(piece);
            assert(r@.map_values(|l: Vec<char>| l@) == before.push(s@.subrange(i as int, e as int)));
            i = e;
        }
    }
    r
}

/// Index of the last `c` in `s`, if any.
pub open spec fn last_index_of(s: Seq<char>, c: char) -> Option<int>
    decreases s.len(),
{
    if s.len() == 0 {
        None
    } else if s.last() == c {
        Some(s.len() - 1)
    } else {
        last_index_of(s.drop_last(), c)
    }
}

/// Index of the last `c` in `s`, if any.
pub fn rfind_char(s: &[char], c: char) -> (r: Option<usize>)
    ensures
        match last_index_of(s@, c) {
            Some(k) => r matches Some(j) && j == k,
            None => r is None,
        },
{
    let mut n: usize = s.len();
    assert(s@.take(n as int) == s@);
    while n > 0
        invariant
            n <= s@.len(),
            last_index_of(s@, c) == last_index_of(s@.take(n as int), c),
        decreases n,
    {
        let ghost t = s@.take(n as int);
        assert(t.last() == s@[n - 1]);
        if s[n - 1] == c {
            return Some(n - 1);
        }
        assert(t.drop_last() == s@.take(n - 1));
        n = n - 1;
    }
    None
}

/// Index of the first `c` in `s`, if any.
pub fn find_char(s: &[char], c: char) -> (r: Option<usize>)
    ensures
        match index_of(s@, c) {
            Some(k) => r matches Some(j) && j == k,
            None => r is None,
        },
{
    proof {
        lemma_index_of(s@, c);
    }
    let mut i: usize = 0;
    while i < s.len()
        invariant
            i <= s@.len(),
            forall|j: int| 0 <= j < i ==> s@[j] != c,
        decreases s@.len() - i,
    {
        if s[i] == c {
            proof {
                lemma_index_of(s@, c);
                if let Some(k) = index_of(s@, c) {
                    assert(k == i);
                }
            }
            return Some(i);
        }
        i = i + 1;
    }
    proof {
        lemma_index_of(s@, c);
        if let Some(k) = index_of(s@, c) {
            assert(s@[k] == c);
        }
    }
    None
}


/// The texts of the items of `s`, one after another.
pub open spec fn concat_all<A>(s: Seq<A>, f: spec_fn(A) -> Seq<char>) -> Seq<char>
    decreases s.len(),
{
    if s.len() == 0 {
        Seq::empty()
    } else {
        concat_all(s.drop_last(), f) + f(s.last())
    }
}

pub proof fn lemma_concat_all_step<A>(s: Seq<A>, i: int, f: spec_fn(A) -> Seq<char>)
    requires
        0 <= i < s.len(),
    ensures
        concat_all(s.take(i + 1), f) == concat_all(s.take(i), f) + f(s[i]),
{
    assert(s.take(i + 1).drop_last() == s.take(i));
}

pub proof fn lemma_concat_all_full<A>(s: Seq<A>, f: spec_fn(A) -> Seq<char>)
    ensures
        concat_all(s.take(s.len() as int), f) == concat_all(s, f),
{
    assert(s.take(s.len() as int) == s);
}


/// The text that `String::from_utf8_lossy` reads from bytes.
pub uninterp spec fn lossy_utf8(b: Seq<u8>) -> Seq<char>;

/// `String::from_utf8_lossy`: the text of the bytes, each invalid sequence
/// replaced by U+FFFD; bytes that are valid UTF-8 give their text as it is.
#[verifier::external_body]
pub fn from_utf8_lossy(b: &[u8]) -> (s: String)
    ensures
        s@ == lossy_utf8(b@),
        vstd::utf8::valid_utf8(b@) ==> s@ == vstd::utf8::decode_utf8(b@),
{
    String::from_utf8_lossy(b).into_owned()
}


pub proof fn lemma_split_char_len(s: Seq<char>, c: char)
    ensures
        split_char(s, c).len() >= 1,
{
    lemma_index_of(s, c);
}

pub fn decimal_string(n: u64) -> (r: String)
    ensures
        r@ == decimal(n as nat),
{
    let mut r = String::new();
    push_decimal(&mut r, n);
    r
}


/// The text `str::to_lowercase` gives: each character by its Unicode
/// lowercase mapping.
pub uninterp spec fn lowercase(s: Seq<char>) -> Seq<char>;

/// `str::to_lowercase`.
#[verifier::external_body]
pub fn to_lowercase(s: &str) -> (r: std::string::String)
    ensures
        r@ == lowercase(s@),
{
    s.to_lowercase()
}

/// Whether `char::is_alphanumeric` holds: the character is alphabetic or
/// numeric by the Unicode tables.
pub uninterp spec fn alphanumeric(c: char) -> bool;

/// `char::is_alphanumeric`.
#[verifier::external_body]
pub fn is_alphanumeric(c: char) -> (r: bool)
    ensures
        r == alphanumeric(c),
{
    c.is_alphanumeric()
}

/// The first character of the Unicode lowercase mapping of `c` (the
/// character itself when the mapping is empty).
pub uninterp spec fn lower_first(c: char) -> char;

/// `char::to_lowercase`, its first character.
#[verifier::external_body]
pub fn char_lower_first(c: char) -> (r: char)
    ensures
        r == lower_first(c),
{
    c.to_lowercase().next().unwrap_or(c)
}

/// The Unicode uppercase mapping of `c`.
pub uninterp spec fn upper(c: char) -> Seq<char>;

/// `char::to_uppercase`, collected.
#[verifier::external_body]
pub fn char_upper(c: char) -> (r: std::string::String)
    ensures
        r@ == upper(c),
{
    c.to_uppercase().collect()
}

} // verus!
