//! Text primitives shared by the parsers and the exposition encoder.
//!
//! Text is modelled as a sequence of characters.  Parsers work on character
//! slices so that every offset is a character offset.
use vstd::prelude::*;
use vstd::slice::slice_subrange;
use vstd::string::*;
use vstd::utf8::*;

verus! {

// ---------------------------------------------------------------------------
// Strings and character slices
// ---------------------------------------------------------------------------

/// `String::push` appends one character to the end of the string.
pub assume_specification[ String::push ](s: &mut String, c: char)
    ensures
        final(s)@ == old(s)@.push(c),
;

/// Collects the characters of `s`.
pub fn chars_of(s: &str) -> (r: Vec<char>)
    ensures
        r@ == s@,
{
    let mut r: Vec<char> = Vec::new();
    for c in it: s.chars()
        invariant
            it.seq() == s@,
            r@ == s@.take(it.index() as int),
    {
        proof {
            assert(s@.take(it.index() as int).push(c) =~= s@.take(it.index() as int + 1));
        }
        r.push(c);
    }
    proof {
        assert(s@.take(s@.len() as int) =~= s@);
    }
    r
}

/// Builds a string from a character slice.
pub fn string_of(c: &[char]) -> (r: String)
    ensures
        r@ == c@,
{
    let mut r = String::new();
    let mut i: usize = 0;
    while i < c.len()
        invariant
            i <= c.len(),
            r@ == c@.take(i as int),
        decreases c.len() - i,
    {
        r.push(c[i]);
        proof {
            assert(c@.take(i as int).push(c@[i as int]) =~= c@.take(i as int + 1));
        }
        i += 1;
    }
    proof {
        assert(c@.take(c@.len() as int) =~= c@);
    }
    r
}

/// Whether two strings hold the same characters.
pub fn str_eq(a: &str, b: &str) -> (r: bool)
    ensures
        r == (a@ == b@),
{
    a.to_owned() == b.to_owned()
}

/// Whether a character slice spells out `lit`.
pub fn chars_eq(c: &[char], lit: &str) -> (r: bool)
    ensures
        r == (c@ == lit@),
{
    string_of(c) == lit.to_owned()
}

/// Joins two strings.
pub fn join2(a: &str, b: &str) -> (r: String)
    ensures
        r@ == a@ + b@,
{
    let mut r = a.to_owned();
    r.append(b);
    r
}

// ---------------------------------------------------------------------------
// UTF-8
// ---------------------------------------------------------------------------

/// `core::str::from_utf8`: the text that `bytes` encodes, if they are valid
/// UTF-8.  Claimed: it succeeds exactly on valid UTF-8, and the string it
/// returns has those very bytes.
#[verifier::external_body]
pub(crate) fn utf8_text(bytes: &[u8]) -> (r: Option<&str>)
    ensures
        r is Some <==> valid_utf8(bytes@),
        r matches Some(s) ==> s@ == decode_utf8(bytes@),
{
    core::str::from_utf8(bytes).ok()
}

/// What `String::from_utf8_lossy` makes of a byte sequence.
pub uninterp spec fn lossy_text(bytes: Seq<u8>) -> Seq<char>;

/// `String::from_utf8_lossy`: the text that `bytes` encodes, with replacement
/// characters for invalid sequences.  Claimed: the result depends on the bytes
/// alone, valid UTF-8 is decoded unchanged, and only no bytes give no text.
#[verifier::external_body]
pub(crate) fn utf8_lossy(bytes: &[u8]) -> (r: String)
    ensures
        r@ == lossy_text(bytes@),
        valid_utf8(bytes@) ==> r@ == decode_utf8(bytes@),
        bytes@.len() > 0 ==> r@.len() > 0,
{
    String::from_utf8_lossy(bytes).into_owned()
}

/// The text of a byte sequence: what valid UTF-8 encodes, and else the text
/// with replacement characters.
pub open spec fn decoded(bytes: Seq<u8>) -> Seq<char> {
    if valid_utf8(bytes) {
        decode_utf8(bytes)
    } else {
        lossy_text(bytes)
    }
}

// ---------------------------------------------------------------------------
// Numbers to text
// ---------------------------------------------------------------------------

/// The character of one digit, in lower case for the digits above nine.
pub open spec fn digit_char(d: nat) -> char {
    if d < 10 {
        (('0' as u32) + d) as char
    } else {
        (('a' as u32) + (d - 10)) as char
    }
}

/// Decimal notation without leading zeros.
pub open spec fn dec(n: nat) -> Seq<char>
    decreases n,
{
    if n < 10 {
        seq![digit_char(n)]
    } else {
        dec(n / 10).push(digit_char(n % 10))
    }
}

/// Decimal notation of a signed number.
pub open spec fn signed_dec(n: int) -> Seq<char> {
    if n < 0 {
        seq!['-'] + dec((-n) as nat)
    } else {
        dec(n as nat)
    }
}

/// Lower-case hexadecimal notation without leading zeros.
pub open spec fn hex(n: nat) -> Seq<char>
    decreases n,
{
    if n < 16 {
        seq![digit_char(n)]
    } else {
        hex(n / 16).push(digit_char(n % 16))
    }
}

/// The last `width` lower-case hexadecimal digits of `n`.
pub open spec fn hex_fixed(n: nat, width: nat) -> Seq<char>
    decreases width,
{
    if width == 0 {
        seq![]
    } else {
        hex_fixed(n / 16, (width - 1) as nat).push(digit_char(n % 16))
    }
}

fn digit(d: u8) -> (c: char)
    requires
        d < 16,
    ensures
        c == digit_char(d as nat),
{
    if d < 10 {
        (48u8 + d) as char
    } else {
        (87u8 + d) as char
    }
}

/// Appends the decimal notation of `n`.
pub fn push_dec(s: &mut String, n: u64)
    ensures
        final(s)@ == old(s)@ + dec(n as nat),
    decreases n,
{
    if n >= 10 {
        push_dec(s, n / 10);
    }
    s.push(digit((n % 10) as u8));
    proof {
        if n >= 10 {
            assert(old(s)@ + dec(n as nat) =~= (old(s)@ + dec(n as nat / 10)).push(digit_char(n as nat % 10)));
        } else {
            assert(old(s)@ + dec(n as nat) =~= old(s)@.push(digit_char(n as nat)));
        }
    }
}

/// Decimal notation of `n`.
pub fn dec_text(n: u64) -> (r: String)
    ensures
        r@ == dec(n as nat),
{
    let mut r = String::new();
    push_dec(&mut r, n);
    proof {
        assert(Seq::<char>::empty() + dec(n as nat) =~= dec(n as nat));
    }
    r
}

/// Decimal notation of a signed number.
pub fn signed_dec_text(n: i64) -> (r: String)
    ensures
        r@ == signed_dec(n as int),
{
    let mut r = String::new();
    if n < 0 {
        r.push('-');
        let magnitude: u64 = (-(n as i128)) as u64;
        push_dec(&mut r, magnitude);
        proof {
            assert(r@ =~= seq!['-'] + dec((-(n as int)) as nat));
        }
    } else {
        push_dec(&mut r, n as u64);
        proof {
            assert(r@ =~= dec(n as nat));
        }
    }
    r
}

/// Appends the hexadecimal notation of `n`.
pub fn push_hex(s: &mut String, n: u64)
    ensures
        final(s)@ == old(s)@ + hex(n as nat),
    decreases n,
{
    if n >= 16 {
        push_hex(s, n / 16);
    }
    s.push(digit((n % 16) as u8));
    proof {
        if n >= 16 {
            assert(old(s)@ + hex(n as nat) =~= (old(s)@ + hex(n as nat / 16)).push(digit_char(n as nat % 16)));
        } else {
            assert(old(s)@ + hex(n as nat) =~= old(s)@.push(digit_char(n as nat)));
        }
    }
}

/// Appends the last `width` hexadecimal digits of `n`.
pub fn push_hex_fixed(s: &mut String, n: u64, width: u8)
    ensures
        final(s)@ == old(s)@ + hex_fixed(n as nat, width as nat),
    decreases width,
{
    if width > 0 {
        push_hex_fixed(s, n / 16, width - 1);
        s.push(digit((n % 16) as u8));
        proof {
            assert(old(s)@ + hex_fixed(n as nat, width as nat) =~= (old(s)@ + hex_fixed(
                n as nat / 16,
                (width - 1) as nat,
            )).push(digit_char(n as nat % 16)));
        }
    } else {
        proof {
            assert(old(s)@ + hex_fixed(n as nat, 0) =~= old(s)@);
        }
    }
}

// ---------------------------------------------------------------------------
// Text to numbers
// ---------------------------------------------------------------------------

/// The value of a digit character, if it is a digit of `base`.
pub open spec fn digit_value(c: char, base: nat) -> Option<nat> {
    let v: int = if '0' <= c <= '9' {
        c as int - '0' as int
    } else if 'a' <= c <= 'f' {
        c as int - 'a' as int + 10
    } else if 'A' <= c <= 'F' {
        c as int - 'A' as int + 10
    } else {
        base as int
    };
    if v < base {
        Some(v as nat)
    } else {
        None
    }
}

/// Every character of `s` is a digit of `base`.
pub open spec fn all_digits(s: Seq<char>, base: nat) -> bool {
    forall|i: int| 0 <= i < s.len() ==> digit_value(#[trigger] s[i], base) is Some
}

/// The number that the digits of `s` write in `base`.
pub open spec fn digits_value(s: Seq<char>, base: nat) -> nat
    decreases s.len(),
{
    if s.len() == 0 {
        0
    } else {
        digits_value(s.drop_last(), base) * base + digit_value(s.last(), base).unwrap_or(0)
    }
}

/// `s` without one leading `sign`.
pub open spec fn strip_sign(s: Seq<char>, sign: char) -> Seq<char> {
    if s.len() > 0 && s[0] == sign {
        s.skip(1)
    } else {
        s
    }
}

/// The number that `s` writes in `base`: an optional `+`, then one digit or
/// more and nothing else.
pub open spec fn unsigned_value(s: Seq<char>, base: nat) -> Option<nat> {
    let body = strip_sign(s, '+');
    if body.len() > 0 && all_digits(body, base) {
        Some(digits_value(body, base))
    } else {
        None
    }
}

/// The signed decimal number that `s` writes.
pub open spec fn signed_value(s: Seq<char>) -> Option<int> {
    if s.len() > 0 && s[0] == '-' {
        if s.len() > 1 && all_digits(s.skip(1), 10) {
            Some(-digits_value(s.skip(1), 10))
        } else {
            None
        }
    } else {
        match unsigned_value(s, 10) {
            Some(n) => Some(n as int),
            None => None,
        }
    }
}

/// The number that `s` writes in `base`, when it is at most `max`.
pub open spec fn parsed_unsigned(s: Seq<char>, base: nat, max: nat) -> Option<nat> {
    match unsigned_value(s, base) {
        Some(n) if n <= max => Some(n),
        _ => None,
    }
}

/// The decimal number that `s` writes, when it fits in 64 signed bits.
pub open spec fn parsed_i64(s: Seq<char>) -> Option<int> {
    match signed_value(s) {
        Some(n) if i64::MIN <= n <= i64::MAX => Some(n),
        _ => None,
    }
}

fn digit_in(c: char, base: u8) -> (r: Option<u8>)
    requires
        base == 10 || base == 16,
    ensures
        r is Some <==> digit_value(c, base as nat) is Some,
        r matches Some(d) ==> d < base && digit_value(c, base as nat) == Some(d as nat),
{
    let n: u32 = c as u32;
    let v: u32 = if 48 <= n && n <= 57 {
        n - 48
    } else if 97 <= n && n <= 102 {
        n - 87
    } else if 65 <= n && n <= 70 {
        n - 55
    } else {
        base as u32
    };
    if v < base as u32 {
        Some(v as u8)
    } else {
        None
    }
}

/// Reads a non-empty run of digits; `None` when a character is no digit or the
/// number does not fit.
fn digits_u64(s: &[char], base: u8) -> (r: Option<u64>)
    requires
        base == 10 || base == 16,
    ensures
        r is Some <==> s@.len() > 0 && all_digits(s@, base as nat) && digits_value(s@, base as nat)
            <= u64::MAX,
        r matches Some(n) ==> n == digits_value(s@, base as nat),
{
    if s.len() == 0 {
        return None;
    }
    let mut acc: Option<u64> = Some(0);
    let mut i: usize = 0;
    while i < s.len()
        invariant
            i <= s.len(),
            base == 10 || base == 16,
            all_digits(s@.take(i as int), base as nat),
            acc matches Some(n) ==> n == digits_value(s@.take(i as int), base as nat),
            acc is None ==> digits_value(s@.take(i as int), base as nat) > u64::MAX,
        decreases s.len() - i,
    {
        let ghost before = s@.take(i as int);
        let ghost after = s@.take(i as int + 1);
        proof {
            assert(after.drop_last() =~= before);
            assert(after.last() == s@[i as int]);
        }
        let d: u8 = match digit_in(s[i], base) {
            Some(d) => d,
            None => {
                return None;
            },
        };
        proof {
            assert(digits_value(after, base as nat) == digits_value(before, base as nat) * base as nat + d);
            assert(digits_value(before, base as nat) * base as nat >= digits_value(before, base as nat))
                by (nonlinear_arith)
                requires
                    base >= 1,
            ;
            assert forall|k: int| 0 <= k < after.len() implies digit_value(
                #[trigger] after[k],
                base as nat,
            ) is Some by {
                if k < i {
                    assert(before[k] == after[k]);
                }
            }
        }
        acc = match acc {
            Some(n) => {
                let wide: u128 = n as u128 * base as u128 + d as u128;
                if wide <= 0xffff_ffff_ffff_ffff {
                    Some(wide as u64)
                } else {
                    None
                }
            },
            None => None,
        };
        i += 1;
    }
    proof {
        assert(s@.take(i as int) =~= s@);
    }
    acc
}

/// Reads an unsigned number in `base`.
pub fn parse_unsigned(s: &[char], base: u8) -> (r: Option<u64>)
    requires
        base == 10 || base == 16,
    ensures
        r is Some <==> parsed_unsigned(s@, base as nat, u64::MAX as nat) is Some,
        r matches Some(n) ==> parsed_unsigned(s@, base as nat, u64::MAX as nat) == Some(n as nat),
{
    if s.len() > 0 && s[0] == '+' {
        let body = slice_subrange(s, 1, s.len());
        proof {
            assert(body@ =~= s@.skip(1));
        }
        digits_u64(body, base)
    } else {
        digits_u64(s, base)
    }
}

/// Reads a signed decimal number.
pub fn parse_i64(s: &[char]) -> (r: Option<i64>)
    ensures
        r is Some <==> parsed_i64(s@) is Some,
        r matches Some(n) ==> parsed_i64(s@) == Some(n as int),
{
    if s.len() > 0 && s[0] == '-' {
        let body = slice_subrange(s, 1, s.len());
        proof {
            assert(body@ =~= s@.skip(1));
        }
        match digits_u64(body, 10) {
            Some(n) => {
                if n <= 0x8000_0000_0000_0000 {
                    Some((-(n as i128)) as i64)
                } else {
                    None
                }
            },
            None => None,
        }
    } else {
        match parse_unsigned(s, 10) {
            Some(n) => {
                if n <= 0x7fff_ffff_ffff_ffff {
                    Some(n as i64)
                } else {
                    None
                }
            },
            None => None,
        }
    }
}

// ---------------------------------------------------------------------------
// White space, tokens and lines
// ---------------------------------------------------------------------------

/// The characters with the Unicode property `White_Space`.
pub open spec fn is_space(c: char) -> bool {
    let n = c as u32;
    ||| 0x9 <= n <= 0xd
    ||| n == 0x20
    ||| n == 0x85
    ||| n == 0xa0
    ||| n == 0x1680
    ||| 0x2000 <= n <= 0x200a
    ||| n == 0x2028
    ||| n == 0x2029
    ||| n == 0x202f
    ||| n == 0x205f
    ||| n == 0x3000
}

/// Whether `c` is white space.
pub fn space(c: char) -> (r: bool)
    ensures
        r == is_space(c),
{
    let n: u32 = c as u32;
    (0x9 <= n && n <= 0xd) || n == 0x20 || n == 0x85 || n == 0xa0 || n == 0x1680 || (0x2000 <= n
        && n <= 0x200a) || n == 0x2028 || n == 0x2029 || n == 0x202f || n == 0x205f || n == 0x3000
}

/// `s` without leading white space.
pub open spec fn trim_start_spec(s: Seq<char>) -> Seq<char>
    decreases s.len(),
{
    if s.len() > 0 && is_space(s[0]) {
        trim_start_spec(s.skip(1))
    } else {
        s
    }
}

/// `s` without trailing white space.
pub open spec fn trim_end_spec(s: Seq<char>) -> Seq<char>
    decreases s.len(),
{
    if s.len() > 0 && is_space(s.last()) {
        trim_end_spec(s.drop_last())
    } else {
        s
    }
}

/// `s` without white space at either end.
pub open spec fn trim_spec(s: Seq<char>) -> Seq<char> {
    trim_end_spec(trim_start_spec(s))
}

/// Removes white space at both ends.
pub fn trim(s: &[char]) -> (r: &[char])
    ensures
        r@ == trim_spec(s@),
{
    let mut i: usize = 0;
    proof {
        assert(s@.skip(0) =~= s@);
    }
    while i < s.len() && space(s[i])
        invariant
            i <= s.len(),
            trim_start_spec(s@) == trim_start_spec(s@.skip(i as int)),
        decreases s.len() - i,
    {
        proof {
            assert(s@.skip(i as int).skip(1) =~= s@.skip(i as int + 1));
        }
        i += 1;
    }
    let ghost rest = s@.skip(i as int);
    proof {
        assert(trim_start_spec(s@) == rest);
    }
    let mut j: usize = s.len();
    proof {
        assert(s@.subrange(i as int, j as int) =~= rest);
    }
    while j > i && space(s[j - 1])
        invariant
            i <= j <= s.len(),
            trim_end_spec(rest) == trim_end_spec(s@.subrange(i as int, j as int)),
        decreases j,
    {
        proof {
            assert(s@.subrange(i as int, j as int).drop_last() =~= s@.subrange(i as int, j as int - 1));
        }
        j -= 1;
    }
    slice_subrange(s, i, j)
}

/// The number of leading characters of `s` that are no white space.
pub open spec fn word_len(s: Seq<char>) -> nat
    decreases s.len(),
{
    if s.len() > 0 && !is_space(s[0]) {
        1 + word_len(s.skip(1))
    } else {
        0
    }
}

pub proof fn lemma_word_len(s: Seq<char>)
    ensures
        word_len(s) <= s.len(),
        forall|i: int| 0 <= i < word_len(s) ==> !is_space(#[trigger] s[i]),
        word_len(s) < s.len() ==> is_space(s[word_len(s) as int]),
    decreases s.len(),
{
    if s.len() > 0 && !is_space(s[0]) {
        lemma_word_len(s.skip(1));
        assert forall|i: int| 0 <= i < word_len(s) implies !is_space(#[trigger] s[i]) by {
            if i > 0 {
                assert(s.skip(1)[i - 1] == s[i]);
            }
        }
    }
}

/// The words of `s`, separated by white space.
pub open spec fn words_spec(s: Seq<char>) -> Seq<Seq<char>>
    decreases s.len(),
{
    if s.len() == 0 {
        seq![]
    } else if is_space(s[0]) {
        words_spec(s.skip(1))
    } else {
        let n = word_len(s);
        if 0 < n <= s.len() {
            seq![s.take(n as int)] + words_spec(s.skip(n as int))
        } else {
            seq![]
        }
    }
}

/// The views of a vector of words or lines.
pub open spec fn word_views(v: Seq<Vec<char>>) -> Seq<Seq<char>> {
    v.map_values(|w: Vec<char>| w@)
}

/// Copies the characters from `from` up to `to`.
pub fn copy_chars(s: &[char], from: usize, to: usize) -> (r: Vec<char>)
    requires
        from <= to <= s@.len(),
    ensures
        r@ == s@.subrange(from as int, to as int),
{
    let mut r: Vec<char> = Vec::new();
    let mut i: usize = from;
    while i < to
        invariant
            from <= i <= to <= s@.len(),
            r@ == s@.subrange(from as int, i as int),
        decreases to - i,
    {
        r.push(s[i]);
        proof {
            assert(s@.subrange(from as int, i as int).push(s@[i as int]) =~= s@.subrange(
                from as int,
                i as int + 1,
            ));
        }
        i += 1;
    }
    r
}

/// Splits `s` into the words between white space.
pub fn words(s: &[char]) -> (r: Vec<Vec<char>>)
    ensures
        word_views(r@) == words_spec(s@),
{
    let mut r: Vec<Vec<char>> = Vec::new();
    let mut i: usize = 0;
    proof {
        assert(s@.skip(0) =~= s@);
        assert(word_views(r@) + words_spec(s@) =~= words_spec(s@));
    }
    while i < s.len()
        invariant
            i <= s.len(),
            word_views(r@) + words_spec(s@.skip(i as int)) == words_spec(s@),
        decreases s.len() - i,
    {
        let ghost rest = s@.skip(i as int);
        if space(s[i]) {
            proof {
                assert(rest.skip(1) =~= s@.skip(i as int + 1));
            }
            i += 1;
        } else {
            let mut j: usize = i;
            proof {
                assert(s@.skip(j as int) =~= rest);
            }
            while j < s.len() && !space(s[j])
                invariant
                    i <= j <= s.len(),
                    word_len(rest) == (j - i) + word_len(s@.skip(j as int)),
                decreases s.len() - j,
            {
                proof {
                    assert(s@.skip(j as int).skip(1) =~= s@.skip(j as int + 1));
                }
                j += 1;
            }
            proof {
                assert(rest[0] == s@[i as int]);
                assert(word_len(rest) == j - i);
            }
            let w = copy_chars(s, i, j);
            let ghost before = r@;
            proof {
                assert(w@ =~= rest.take(j - i));
                assert(rest.skip(j - i) =~= s@.skip(j as int));
            }
            r.push(w);
            proof {
                assert(word_views(r@) =~= word_views(before).push(w@));
                assert(word_views(r@) + words_spec(s@.skip(j as int)) =~= word_views(before) + words_spec(rest));
            }
            i = j;
        }
    }
    proof {
        assert(word_views(r@) + words_spec(s@.skip(i as int)) =~= word_views(r@));
    }
    r
}

/// Index of the first `c` in `s`; the length of `s` when there is none.
pub open spec fn first_index(s: Seq<char>, c: char) -> nat
    decreases s.len(),
{
    if s.len() == 0 || s[0] == c {
        0
    } else {
        1 + first_index(s.skip(1), c)
    }
}

pub proof fn lemma_first_index(s: Seq<char>, c: char)
    ensures
        first_index(s, c) <= s.len(),
        forall|i: int| 0 <= i < first_index(s, c) ==> #[trigger] s[i] != c,
        first_index(s, c) < s.len() ==> s[first_index(s, c) as int] == c,
    decreases s.len(),
{
    if s.len() == 0 || s[0] == c {
    } else {
        lemma_first_index(s.skip(1), c);
        assert forall|i: int| 0 <= i < first_index(s, c) implies #[trigger] s[i] != c by {
            if i > 0 {
                assert(s.skip(1)[i - 1] == s[i]);
            }
        }
    }
}

/// Finds the first `c` at or after `from`; the length of `s` when there is none.
pub fn find_char(s: &[char], from: usize, c: char) -> (r: usize)
    requires
        from <= s@.len(),
    ensures
        r == from + first_index(s@.skip(from as int), c),
        from <= r <= s@.len(),
{
    let mut i: usize = from;
    while i < s.len() && s[i] != c
        invariant
            from <= i <= s.len(),
            first_index(s@.skip(from as int), c) == (i - from) + first_index(s@.skip(i as int), c),
        decreases s.len() - i,
    {
        proof {
            assert(s@.skip(i as int).skip(1) =~= s@.skip(i as int + 1));
        }
        i += 1;
    }
    i
}

/// A line without one trailing carriage return.
pub open spec fn strip_cr(s: Seq<char>) -> Seq<char> {
    if s.len() > 0 && s.last() == '\r' {
        s.drop_last()
    } else {
        s
    }
}

/// The lines of `s`.  A line ends in a line feed, with or without a carriage
/// return before it; the last line may lack the line feed.
pub open spec fn lines_spec(s: Seq<char>) -> Seq<Seq<char>>
    decreases s.len(),
{
    let n = first_index(s, '\n') as int;
    if s.len() == 0 {
        seq![]
    } else if n < s.len() {
        seq![strip_cr(s.take(n))] + lines_spec(s.skip(n + 1))
    } else {
        seq![s]
    }
}

/// Splits `s` into lines.
pub fn lines(s: &[char]) -> (r: Vec<Vec<char>>)
    ensures
        word_views(r@) == lines_spec(s@),
{
    let mut r: Vec<Vec<char>> = Vec::new();
    let mut i: usize = 0;
    proof {
        assert(s@.skip(0) =~= s@);
        assert(word_views(r@) + lines_spec(s@) =~= lines_spec(s@));
    }
    while i < s.len()
        invariant
            i <= s.len(),
            word_views(r@) + lines_spec(s@.skip(i as int)) == lines_spec(s@),
        decreases s.len() - i,
    {
        let ghost rest = s@.skip(i as int);
        let ghost before = r@;
        let n: usize = find_char(s, i, '\n');
        if n < s.len() {
            let end: usize = if n > i && s[n - 1] == '\r' {
                n - 1
            } else {
                n
            };
            let w = copy_chars(s, i, end);
            proof {
                assert(w@ =~= strip_cr(rest.take(n - i)));
                assert(rest.skip(n - i + 1) =~= s@.skip(n as int + 1));
            }
            r.push(w);
            proof {
                assert(word_views(r@) =~= word_views(before).push(w@));
                assert(word_views(r@) + lines_spec(s@.skip(n as int + 1)) =~= word_views(before)
                    + lines_spec(rest));
            }
            i = n + 1;
        } else {
            let w = copy_chars(s, i, n);
            proof {
                assert(w@ =~= rest);
            }
            r.push(w);
            proof {
                assert(word_views(r@) =~= word_views(before).push(w@));
                assert(lines_spec(s@.skip(n as int)) =~= seq![]);
                assert(word_views(r@) + lines_spec(s@.skip(n as int)) =~= word_views(before)
                    + lines_spec(rest));
            }
            i = n;
        }
    }
    proof {
        assert(word_views(r@) + lines_spec(s@.skip(i as int)) =~= word_views(r@));
    }
    r
}

// ---------------------------------------------------------------------------
// Prefixes and searches
// ---------------------------------------------------------------------------

/// `s` starts with `p`.
pub open spec fn has_prefix(s: Seq<char>, p: Seq<char>) -> bool {
    s.len() >= p.len() && s.take(p.len() as int) == p
}

/// Whether `s` starts with `p`.
pub fn starts_with(s: &[char], p: &str) -> (r: bool)
    ensures
        r == has_prefix(s@, p@),
{
    let lit = chars_of(p);
    if s.len() < lit.len() {
        return false;
    }
    let head = slice_subrange(s, 0, lit.len());
    proof {
        assert(head@ =~= s@.take(p@.len() as int));
    }
    chars_eq(head, p)
}

/// Every character of `s` is an ASCII digit.
pub open spec fn ascii_digits(s: Seq<char>) -> bool {
    forall|i: int| 0 <= i < s.len() ==> '0' <= #[trigger] s[i] <= '9'
}

/// Whether every character of `s` is an ASCII digit.
pub fn is_digits(s: &[char]) -> (r: bool)
    ensures
        r == ascii_digits(s@),
{
    let mut i: usize = 0;
    while i < s.len()
        invariant
            i <= s.len(),
            forall|j: int| 0 <= j < i ==> '0' <= #[trigger] s@[j] <= '9',
        decreases s.len() - i,
    {
        let c = s[i];
        if c < '0' || c > '9' {
            return false;
        }
        i += 1;
    }
    true
}

/// The text in lower case, as far as its letters are ASCII.
pub open spec fn lower_char(c: char) -> char {
    if 'A' <= c <= 'Z' {
        ((c as u32) + 32) as char
    } else {
        c
    }
}

/// The text in lower case, as far as its letters are ASCII.
pub open spec fn lowered(s: Seq<char>) -> Seq<char> {
    s.map_values(|c: char| lower_char(c))
}

/// Puts the ASCII letters of a text in lower case.
pub fn to_lower(s: &[char]) -> (r: String)
    ensures
        r@ == lowered(s@),
{
    let mut r = String::new();
    let mut i: usize = 0;
    proof {
        assert(r@ =~= lowered(s@).take(0));
    }
    while i < s.len()
        invariant
            i <= s.len(),
            r@ == lowered(s@).take(i as int),
        decreases s.len() - i,
    {
        let c = s[i];
        if 'A' <= c && c <= 'Z' {
            r.push((c as u8 + 32) as char);
        } else {
            r.push(c);
        }
        proof {
            assert(lowered(s@).take(i as int + 1) =~= lowered(s@).take(i as int).push(
                lower_char(s@[i as int]),
            ));
        }
        i += 1;
    }
    proof {
        assert(lowered(s@).take(i as int) =~= lowered(s@));
    }
    r
}

/// Removes white space at the start.
pub fn trim_start(s: &[char]) -> (r: &[char])
    ensures
        r@ == trim_start_spec(s@),
{
    let mut i: usize = 0;
    proof {
        assert(s@.skip(0) =~= s@);
    }
    while i < s.len() && space(s[i])
        invariant
            i <= s.len(),
            trim_start_spec(s@) == trim_start_spec(s@.skip(i as int)),
        decreases s.len() - i,
    {
        proof {
            assert(s@.skip(i as int).skip(1) =~= s@.skip(i as int + 1));
        }
        i += 1;
    }
    let r = slice_subrange(s, i, s.len());
    proof {
        assert(r@ =~= s@.skip(i as int));
    }
    r
}

/// Decimal notation holds digits only, and they write the number.
pub proof fn lemma_dec_digits(n: nat)
    ensures
        dec(n).len() > 0,
        all_digits(dec(n), 10),
        digits_value(dec(n), 10) == n,
    decreases n,
{
    let d = dec(n);
    if n >= 10 {
        lemma_dec_digits(n / 10);
        assert(d.drop_last() =~= dec(n / 10));
        assert forall|i: int| 0 <= i < d.len() implies digit_value(#[trigger] d[i], 10) is Some by {
            if i < d.len() - 1 {
                assert(d[i] == dec(n / 10)[i]);
            }
        }
    } else {
        assert(d.drop_last() =~= seq![]);
        assert(digits_value(d.drop_last(), 10) == 0);
    }
}

/// Reading back a number that was written gives the number.
pub proof fn law_signed_round_trip(n: i64)
    ensures
        parsed_i64(signed_dec(n as int)) == Some(n as int),
{
    if n < 0 {
        let digits = dec((-(n as int)) as nat);
        lemma_dec_digits((-(n as int)) as nat);
        assert(signed_dec(n as int).skip(1) =~= digits);
    } else {
        lemma_dec_digits(n as nat);
        assert(digit_value(dec(n as nat)[0], 10) is Some);
    }
}

/// Reading back an unsigned number that was written gives the number.
pub proof fn law_unsigned_round_trip(n: u64)
    ensures
        parsed_unsigned(dec(n as nat), 10, u64::MAX as nat) == Some(n as nat),
{
    lemma_dec_digits(n as nat);
    assert(digit_value(dec(n as nat)[0], 10) is Some);
}

// ---------------------------------------------------------------------------
// How text is taken apart
// ---------------------------------------------------------------------------

/// No character of the text is white space.
pub open spec fn no_space(s: Seq<char>) -> bool {
    forall|i: int| 0 <= i < s.len() ==> !is_space(#[trigger] s[i])
}

/// Every character of the text is white space.
pub open spec fn all_space(s: Seq<char>) -> bool {
    forall|i: int| 0 <= i < s.len() ==> is_space(#[trigger] s[i])
}

/// Blanks, tabs and line breaks are white space; no other character between
/// the first and the last printable one of ASCII is.
pub proof fn law_spaces(c: char)
    ensures
        is_space(' ') && is_space('\t') && is_space('\n') && is_space('\r'),
        '!' <= c <= '~' ==> !is_space(c),
{
}

proof fn lemma_word_end(w: Seq<char>, rest: Seq<char>)
    requires
        no_space(w),
        rest.len() == 0 || is_space(rest[0]),
    ensures
        word_len(w + rest) == w.len(),
    decreases w.len(),
{
    let s = w + rest;
    if w.len() == 0 {
        assert(s =~= rest);
    } else {
        assert(!is_space(w[0]));
        assert(s[0] == w[0]);
        let more = w.skip(1);
        assert(s.skip(1) =~= more + rest);
        assert forall|i: int| 0 <= i < more.len() implies !is_space(#[trigger] more[i]) by {
            assert(more[i] == w[i + 1]);
        }
        lemma_word_end(more, rest);
    }
}

/// White space separates words: a word in front of it is the first word, and
/// the others are those of what follows, however much white space there is.
pub proof fn law_words_separated(w: Seq<char>, c: char, rest: Seq<char>)
    requires
        w.len() > 0,
        no_space(w),
        is_space(c),
    ensures
        words_spec(seq![]) == Seq::<Seq<char>>::empty(),
        words_spec(w) == seq![w],
        words_spec(seq![c] + rest) == words_spec(rest),
        words_spec(w + seq![c] + rest) == seq![w] + words_spec(rest),
{
    let gap = seq![c] + rest;
    assert(gap.skip(1) =~= rest);
    assert(gap[0] == c);
    let s = w + seq![c] + rest;
    assert(s =~= w + gap);
    lemma_word_end(w, gap);
    assert(!is_space(w[0]));
    assert(s[0] == w[0]);
    assert(s.take(w.len() as int) =~= w);
    assert(s.skip(w.len() as int) =~= gap);
    assert(w + seq![] =~= w);
    lemma_word_end(w, seq![]);
    assert(w.take(w.len() as int) =~= w);
    assert(w.skip(w.len() as int) =~= seq![]);
    assert(words_spec(seq![]) =~= Seq::<Seq<char>>::empty());
    assert(words_spec(w) =~= seq![w]);
}

proof fn lemma_feed_end(l: Seq<char>, rest: Seq<char>)
    requires
        !l.contains('\n'),
    ensures
        first_index(l + seq!['\n'] + rest, '\n') == l.len(),
        first_index(l, '\n') == l.len(),
    decreases l.len(),
{
    let s = l + seq!['\n'] + rest;
    if l.len() == 0 {
        assert(s[0] == '\n');
    } else {
        assert(l[0] != '\n');
        assert(s[0] == l[0]);
        let more = l.skip(1);
        assert(s.skip(1) =~= more + seq!['\n'] + rest);
        assert forall|i: int| 0 <= i < more.len() implies more[i] != '\n' by {
            assert(more[i] == l[i + 1]);
        }
        lemma_feed_end(more, rest);
    }
}

/// A line feed ends a line, and a carriage return in front of it belongs to the
/// end; the other lines are those of what follows.  Text behind the last line
/// feed is a line too.
pub proof fn law_lines_separated(l: Seq<char>, rest: Seq<char>)
    requires
        !l.contains('\n'),
    ensures
        lines_spec(seq![]) == Seq::<Seq<char>>::empty(),
        l.len() > 0 ==> lines_spec(l) == seq![l],
        l.len() == 0 || l.last() != '\r' ==> lines_spec(l + seq!['\n'] + rest) == seq![l]
            + lines_spec(rest),
        lines_spec(l + seq!['\r', '\n'] + rest) == seq![l] + lines_spec(rest),
{
    lemma_feed_end(l, rest);
    let s = l + seq!['\n'] + rest;
    assert(s.take(l.len() as int) =~= l);
    assert(s.skip(l.len() as int + 1) =~= rest);
    let r = l + seq!['\r'];
    let t = l + seq!['\r', '\n'] + rest;
    assert(t =~= r + seq!['\n'] + rest);
    assert forall|i: int| 0 <= i < r.len() implies r[i] != '\n' by {
        if i < l.len() {
            assert(r[i] == l[i]);
        }
    }
    lemma_feed_end(r, rest);
    assert(t.take(r.len() as int) =~= r);
    assert(t.skip(r.len() as int + 1) =~= rest);
    assert(r.drop_last() =~= l);
}

/// White space in front is taken away up to the first other character.
pub proof fn lemma_trim_front(pad: Seq<char>, rest: Seq<char>)
    requires
        all_space(pad),
        rest.len() == 0 || !is_space(rest[0]),
    ensures
        trim_start_spec(pad + rest) == rest,
    decreases pad.len(),
{
    let s = pad + rest;
    if pad.len() == 0 {
        assert(s =~= rest);
    } else {
        assert(is_space(pad[0]));
        let more = pad.skip(1);
        assert(s.skip(1) =~= more + rest);
        assert forall|i: int| 0 <= i < more.len() implies is_space(#[trigger] more[i]) by {
            assert(more[i] == pad[i + 1]);
        }
        lemma_trim_front(more, rest);
    }
}

proof fn lemma_trim_back(rest: Seq<char>, pad: Seq<char>)
    requires
        all_space(pad),
        rest.len() == 0 || !is_space(rest.last()),
    ensures
        trim_end_spec(rest + pad) == rest,
    decreases pad.len(),
{
    let s = rest + pad;
    if pad.len() == 0 {
        assert(s =~= rest);
    } else {
        assert(is_space(pad[pad.len() - 1]));
        let more = pad.drop_last();
        assert(s.drop_last() =~= rest + more);
        assert forall|i: int| 0 <= i < more.len() implies is_space(#[trigger] more[i]) by {
            assert(more[i] == pad[i]);
        }
        lemma_trim_back(rest, more);
    }
}

/// Trimming takes away the white space on both sides and nothing else.
pub proof fn law_trim_exact(left: Seq<char>, core: Seq<char>, right: Seq<char>)
    requires
        all_space(left),
        all_space(right),
        core.len() > 0,
        !is_space(core[0]),
        !is_space(core.last()),
    ensures
        trim_spec(left + core + right) == core,
        trim_start_spec(left + core + right) == core + right,
{
    assert(left + core + right =~= left + (core + right));
    assert((core + right)[0] == core[0]);
    lemma_trim_front(left, core + right);
    lemma_trim_back(core, right);
}

/// Every hexadecimal number reads back, and one digit more counts sixteen times
/// what was there.
pub proof fn law_hex_round_trip(n: nat)
    ensures
        hex(n).len() > 0,
        all_digits(hex(n), 16),
        digits_value(hex(n), 16) == n,
    decreases n,
{
    if n < 16 {
        assert(hex(n).drop_last() =~= seq![]);
        assert(digits_value(seq![], 16) == 0);
        assert(digit_value(hex(n)[0], 16) == Some(n));
    } else {
        law_hex_round_trip(n / 16);
        let s = hex(n);
        assert(s.drop_last() =~= hex(n / 16));
        assert(digit_value(s.last(), 16) == Some(n % 16));
        assert forall|i: int| 0 <= i < s.len() implies digit_value(#[trigger] s[i], 16) is Some by {
            if i < s.len() - 1 {
                assert(s[i] == hex(n / 16)[i]);
            }
        }
    }
}

/// A number of fixed width has that many digits, whatever it is, and reads back
/// where it fits.
pub proof fn law_hex_fixed_round_trip(n: nat, width: nat)
    ensures
        hex_fixed(n, width).len() == width,
        all_digits(hex_fixed(n, width), 16),
        n < pow16(width) ==> digits_value(hex_fixed(n, width), 16) == n,
    decreases width,
{
    if width > 0 {
        law_hex_fixed_round_trip(n / 16, (width - 1) as nat);
        let s = hex_fixed(n, width);
        assert(s.drop_last() =~= hex_fixed(n / 16, (width - 1) as nat));
        assert(digit_value(s.last(), 16) == Some(n % 16));
        assert forall|i: int| 0 <= i < s.len() implies digit_value(#[trigger] s[i], 16) is Some by {
            if i < s.len() - 1 {
                assert(s[i] == s.drop_last()[i]);
            }
        }
    }
}

/// Sixteen to the power `k`.
pub open spec fn pow16(k: nat) -> nat
    decreases k,
{
    if k == 0 {
        1
    } else {
        16 * pow16((k - 1) as nat)
    }
}

/// A number is read digit by digit: one digit more counts ten times what was
/// there, and anything but a digit spoils the number.
pub proof fn law_digits_count(s: Seq<char>, c: char)
    requires
        unsigned_value(s, 10) is Some,
    ensures
        '0' <= c <= '9' ==> unsigned_value(s.push(c), 10) == Some(
            (10 * unsigned_value(s, 10)->0 + (c as int - '0' as int)) as nat,
        ),
        !('0' <= c <= '9') ==> unsigned_value(s.push(c), 10) is None,
{
    let body = strip_sign(s, '+');
    let t = s.push(c);
    assert(strip_sign(t, '+') =~= body.push(c));
    let grown = body.push(c);
    assert(grown.drop_last() =~= body);
    assert(grown[grown.len() - 1] == c);
    assert forall|i: int| 0 <= i < body.len() implies digit_value(grown[i], 10) is Some by {
        assert(grown[i] == body[i]);
    }
}

/// A number beyond the limit is no number, and one up to it is itself.
pub proof fn law_limit_respected(n: nat, max: nat)
    ensures
        n <= max ==> parsed_unsigned(dec(n), 10, max) == Some(n),
        n > max ==> parsed_unsigned(dec(n), 10, max) is None,
{
    lemma_dec_digits(n);
    assert(digit_value('+', 10) is None);
    assert(digit_value(dec(n)[0], 10) is Some);
}

/// Lowering a text turns every capital letter into the small one and keeps all
/// other characters.
pub proof fn law_lowered(s: Seq<char>, i: int)
    requires
        0 <= i < s.len(),
    ensures
        lowered(s).len() == s.len(),
        'A' <= s[i] <= 'Z' ==> lowered(s)[i] as int == s[i] as int + ('a' as int - 'A' as int),
        !('A' <= s[i] <= 'Z') ==> lowered(s)[i] == s[i],
{
}

/// A number may have a plus sign, and its letters may be capital; a sign alone
/// is no number.
pub proof fn law_number_forms(s: Seq<char>, base: nat, d: nat)
    requires
        s.len() > 0,
        s[0] != '+',
        base == 10 || base == 16,
        10 <= d < 16,
    ensures
        unsigned_value(seq!['+'] + s, base) == unsigned_value(s, base),
        unsigned_value(seq!['+'], base) is None,
        unsigned_value(seq![], base) is None,
        digit_value((('A' as u32) + (d - 10)) as char, 16) == Some(d),
        digit_value(digit_char(d), 16) == Some(d),
        digit_value(digit_char(d), 10) is None,
{
    assert((seq!['+'] + s).skip(1) =~= s);
    assert(seq!['+'].skip(1) =~= seq![]);
}

/// A minus sign makes a number negative, and only where one follows.
pub proof fn law_negative_numbers(s: Seq<char>)
    requires
        s.len() > 0,
        all_digits(s, 10),
    ensures
        signed_value(seq!['-'] + s) == Some(-digits_value(s, 10)),
        signed_value(s) == Some(digits_value(s, 10) as int),
        signed_value(seq!['-']) is None,
{
    let t = seq!['-'] + s;
    assert(t.skip(1) =~= s);
    assert(digit_value(s[0], 10) is Some);
    assert(digit_value('+', 10) is None && digit_value('-', 10) is None);
    assert(strip_sign(s, '+') =~= s);
}

/// A decimal number is made of digits, and one other character spoils it.
pub proof fn law_ascii_digits(n: nat, s: Seq<char>, i: int)
    ensures
        ascii_digits(dec(n)),
        0 <= i < s.len() && (s[i] < '0' || s[i] > '9') ==> !ascii_digits(s),
        ascii_digits(s) <==> all_digits(s, 10),
{
    lemma_dec_digits(n);
    let d = dec(n);
    assert forall|j: int| 0 <= j < d.len() implies '0' <= #[trigger] d[j] <= '9' by {
        assert(digit_value(d[j], 10) is Some);
    }
    if all_digits(s, 10) {
        assert forall|j: int| 0 <= j < s.len() implies '0' <= #[trigger] s[j] <= '9' by {
            assert(digit_value(s[j], 10) is Some);
        }
    }
}

/// A text begins with a prefix exactly when it is the prefix and something
/// behind it.
pub proof fn law_prefix_exact(s: Seq<char>, p: Seq<char>, tail: Seq<char>)
    ensures
        has_prefix(p + tail, p),
        has_prefix(s, p) ==> s == p + s.skip(p.len() as int),
        s.len() < p.len() ==> !has_prefix(s, p),
{
    assert((p + tail).take(p.len() as int) =~= p);
    if has_prefix(s, p) {
        assert(s =~= s.take(p.len() as int) + s.skip(p.len() as int));
    }
}

} // verus!
