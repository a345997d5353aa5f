use vstd::prelude::*;
use vstd::string::*;

verus! {

/// The character of a hexadecimal digit, upper case.
pub open spec fn hex_char(n: nat) -> char {
    if n < 10 {
        (48 + n) as char
    } else {
        (55 + n) as char
    }
}

/// The two upper-case hexadecimal digits of a byte.
pub open spec fn hex2(b: u8) -> Seq<char> {
    seq![hex_char(b as nat / 16), hex_char(b as nat % 16)]
}

/// The upper-case hex text of bytes, two digits per byte.
pub open spec fn hex_text(s: Seq<u8>) -> Seq<char>
    decreases s.len(),
{
    if s.len() == 0 {
        Seq::empty()
    } else {
        hex_text(s.drop_last()) + hex2(s.last())
    }
}

/// Whether `c` is an upper-case hexadecimal digit.
pub open spec fn is_upper_hex(c: char) -> bool {
    ('0' <= c <= '9') || ('A' <= c <= 'F')
}

/// The hex text of bytes starts with the digits of the first byte.
pub proof fn lemma_hex_text_front(b: Seq<u8>)
    requires
        b.len() > 0,
    ensures
        hex_text(b) == hex2(b[0]) + hex_text(b.drop_first()),
    decreases b.len(),
{
    if b.len() == 1 {
        assert(b.drop_first() =~= Seq::<u8>::empty());
        assert(hex_text(b.drop_last()) =~= Seq::<char>::empty());
        assert(hex_text(b) =~= hex2(b[0]) + hex_text(b.drop_first()));
    } else {
        lemma_hex_text_front(b.drop_last());
        assert(b.drop_last().drop_first() =~= b.drop_first().drop_last());
        assert(b.drop_last()[0] == b[0]);
        assert(b.drop_first().last() == b.last());
        assert(hex_text(b) =~= hex2(b[0]) + hex_text(b.drop_first()));
    }
}

/// Every character of the hex text of bytes is an upper-case hexadecimal digit.
pub proof fn lemma_hex_text_digits(b: Seq<u8>)
    ensures
        forall|i: int| 0 <= i < hex_text(b).len() ==> is_upper_hex(#[trigger] hex_text(b)[i]),
    decreases b.len(),
{
    if b.len() > 0 {
        lemma_hex_text_digits(b.drop_last());
        let h = hex_text(b.drop_last());
        let t = hex2(b.last());
        assert forall|i: int| 0 <= i < hex_text(b).len() implies is_upper_hex(
            #[trigger] hex_text(b)[i],
        ) by {
            if i < h.len() {
                assert(hex_text(b)[i] == h[i]);
            } else {
                assert(hex_text(b)[i] == t[i - h.len()]);
            }
        }
    }
}

/// The two hex digits of a byte read back as that byte.
pub proof fn lemma_hex2_reads_back(b: u8)
    ensures
        parse_hex_u8(hex2(b)) == Some(b),
{
    let h = hex2(b);
    assert(h.drop_last() =~= seq![h[0]]);
    assert(seq![h[0]].drop_last() =~= Seq::<char>::empty());
    assert(hex_digit_value(h[0]) == b as nat / 16);
    assert(hex_digit_value(h[1]) == b as nat % 16);
    assert(hex_value(seq![h[0]].drop_last()) == 0);
    assert(hex_value(seq![h[0]]) == b as nat / 16);
    assert(h.last() == h[1]);
    assert(hex_value(h) == hex_value(h.drop_last()) * 16 + hex_digit_value(h[1]));
    assert((b as nat / 16) * 16 + b as nat % 16 == b as nat) by (nonlinear_arith);
    assert(hex_value(h) == b as nat);
}

/// Text of upper-case hex digits has no whitespace to trim.
pub proof fn lemma_trim_hex_digits(s: Seq<char>)
    requires
        forall|i: int| 0 <= i < s.len() ==> is_upper_hex(#[trigger] s[i]),
    ensures
        trim_text(s) == s,
{
    if s.len() > 0 {
        assert(is_upper_hex(s[0]));
        assert(is_upper_hex(s[s.len() - 1]));
    }
}

/// Text of upper-case hex digits has no separators to drop.
pub proof fn lemma_no_separators(s: Seq<char>)
    requires
        forall|i: int| 0 <= i < s.len() ==> is_upper_hex(#[trigger] s[i]),
    ensures
        drop_separators(s) == s,
    decreases s.len(),
{
    if s.len() > 0 {
        assert(is_upper_hex(s[s.len() - 1]));
        assert forall|i: int| 0 <= i < s.drop_last().len() implies is_upper_hex(
            #[trigger] s.drop_last()[i],
        ) by {
            assert(s.drop_last()[i] == s[i]);
        }
        lemma_no_separators(s.drop_last());
        assert(s.drop_last().push(s.last()) =~= s);
    }
}

/// The hex text of bytes, read two characters at a time, gives the bytes back.
pub proof fn lemma_hex_pairs_of_hex_text(b: Seq<u8>)
    ensures
        hex_pairs(hex_text(b)) == Some(b),
    decreases b.len(),
{
    if b.len() == 0 {
        assert(hex_text(b) =~= Seq::<char>::empty());
    } else {
        lemma_hex_text_front(b);
        lemma_hex_pairs_of_hex_text(b.drop_first());
        lemma_hex2_reads_back(b[0]);
        let c = hex_text(b);
        assert(c.skip(2) =~= hex_text(b.drop_first()));
        assert(c.take(2) =~= hex2(b[0]));
        assert(seq![b[0]] + b.drop_first() =~= b);
    }
}

/// A one-character string holding the hexadecimal digit `n`.
fn hex_digit_str(n: u8) -> (r: &'static str)
    requires
        n < 16,
    ensures
        r@ =~= seq![hex_char(n as nat)],
{
    match n {
        0 => { proof { reveal_strlit("0"); } "0" },
        1 => { proof { reveal_strlit("1"); } "1" },
        2 => { proof { reveal_strlit("2"); } "2" },
        3 => { proof { reveal_strlit("3"); } "3" },
        4 => { proof { reveal_strlit("4"); } "4" },
        5 => { proof { reveal_strlit("5"); } "5" },
        6 => { proof { reveal_strlit("6"); } "6" },
        7 => { proof { reveal_strlit("7"); } "7" },
        8 => { proof { reveal_strlit("8"); } "8" },
        9 => { proof { reveal_strlit("9"); } "9" },
        10 => { proof { reveal_strlit("A"); } "A" },
        11 => { proof { reveal_strlit("B"); } "B" },
        12 => { proof { reveal_strlit("C"); } "C" },
        13 => { proof { reveal_strlit("D"); } "D" },
        14 => { proof { reveal_strlit("E"); } "E" },
        _ => { proof { reveal_strlit("F"); } "F" },
    }
}

/// Appends the two upper-case hexadecimal digits of `b` (as `{:02X}` writes them).
pub fn push_hex_byte(s: &mut String, b: u8)
    ensures
        final(s)@ == old(s)@ + hex2(b),
{
    s.append(hex_digit_str(b / 16));
    s.append(hex_digit_str(b % 16));
    assert(final(s)@ =~= old(s)@ + hex2(b));
}


/// The decimal digits of `n`, most significant first, without leading zeros.
pub open spec fn dec_digits(n: nat) -> Seq<char>
    decreases n,
{
    if n < 10 {
        seq![hex_char(n)]
    } else {
        dec_digits(n / 10).push(hex_char(n % 10))
    }
}

/// Exactly `width` decimal digits of `n`, the lowest ones, most significant first.
pub open spec fn fixed_digits(n: nat, width: nat) -> Seq<char>
    decreases width,
{
    if width == 0 {
        Seq::empty()
    } else {
        fixed_digits(n / 10, (width - 1) as nat).push(hex_char(n % 10))
    }
}

/// `s` with its trailing `'0'` characters removed.
pub open spec fn strip_trailing_zeros(s: Seq<char>) -> Seq<char>
    decreases s.len(),
{
    if s.len() > 0 && s.last() == '0' {
        strip_trailing_zeros(s.drop_last())
    } else {
        s
    }
}

/// Ten to the power `p`.
pub open spec fn pow10(p: nat) -> nat
    decreases p,
{
    if p == 0 {
        1
    } else {
        10 * pow10((p - 1) as nat)
    }
}

/// `"-"` for a negative value, nothing otherwise.
pub open spec fn sign_text(negative: bool) -> Seq<char> {
    if negative {
        seq!['-']
    } else {
        Seq::empty()
    }
}

/// The text of `±magnitude / 10^places` written with exactly `places`
/// decimals, as `{:.places$}` writes the value.
pub open spec fn fixed_text(negative: bool, magnitude: nat, places: nat) -> Seq<char> {
    sign_text(negative) + dec_digits(magnitude / pow10(places)) + if places == 0 {
        Seq::empty()
    } else {
        seq!['.'] + fixed_digits(magnitude % pow10(places), places)
    }
}

/// The shortest text of `±magnitude / 10^places`, as `{}` writes the value:
/// no decimal point when the value is whole, otherwise no trailing zeros.
pub open spec fn short_text(negative: bool, magnitude: nat, places: nat) -> Seq<char> {
    sign_text(negative) + dec_digits(magnitude / pow10(places)) + if magnitude % pow10(places)
        == 0 {
        Seq::empty()
    } else {
        seq!['.'] + strip_trailing_zeros(fixed_digits(magnitude % pow10(places), places))
    }
}

/// A number written with at least two digits, as `{:02}` writes it.
pub open spec fn pad2(n: nat) -> Seq<char> {
    if n < 10 {
        seq!['0', hex_char(n)]
    } else {
        dec_digits(n)
    }
}

/// Appends the decimal digits of `n`.
pub fn push_decimal(s: &mut String, n: u64)
    ensures
        final(s)@ == old(s)@ + dec_digits(n as nat),
    decreases n,
{
    if n >= 10 {
        push_decimal(s, n / 10);
    }
    s.append(hex_digit_str((n % 10) as u8));
    assert(final(s)@ =~= old(s)@ + dec_digits(n as nat));
}

/// Appends exactly `width` digits: the lowest `width` decimal digits of `n`.
pub fn push_fixed_digits(s: &mut String, n: u64, width: u32)
    ensures
        final(s)@ == old(s)@ + fixed_digits(n as nat, width as nat),
    decreases width,
{
    if width > 0 {
        push_fixed_digits(s, n / 10, width - 1);
        s.append(hex_digit_str((n % 10) as u8));
    }
    assert(final(s)@ =~= old(s)@ + fixed_digits(n as nat, width as nat));
}

/// Appends `"-"` when `negative` holds.
pub fn push_sign(s: &mut String, negative: bool)
    ensures
        final(s)@ == old(s)@ + sign_text(negative),
{
    if negative {
        proof {
            reveal_strlit("-");
        }
        s.append("-");
    }
    assert(final(s)@ =~= old(s)@ + sign_text(negative));
}

/// Ten to the power `p`, for the small powers used by the display formats.
pub fn pow10_u64(p: u32) -> (r: u64)
    requires
        p <= 9,
    ensures
        r == pow10(p as nat),
{
    let mut r: u64 = 1;
    let mut i: u32 = 0;
    while i < p
        invariant
            i <= p <= 9,
            r == pow10(i as nat),
            r <= 1_000_000_000,
        decreases p - i,
    {
        proof {
            lemma_pow10_bound((i + 1) as nat);
        }
        r = r * 10;
        i = i + 1;
    }
    r
}

/// Ten to the power `p` grows with `p` and stays below `10^9` up to `p == 9`.
pub proof fn lemma_pow10_bound(p: nat)
    ensures
        pow10(p) >= 1,
        p <= 9 ==> pow10(p) <= 1_000_000_000,
    decreases p,
{
    if p > 0 {
        lemma_pow10_bound((p - 1) as nat);
    }
    assert(pow10(0) == 1);
    assert(pow10(1) == 10);
    assert(pow10(2) == 100);
    assert(pow10(3) == 1000);
    assert(pow10(4) == 10000);
    assert(pow10(5) == 100000);
    assert(pow10(6) == 1000000);
    assert(pow10(7) == 10000000);
    assert(pow10(8) == 100000000);
    assert(pow10(9) == 1000000000);
    if p <= 9 {
        assert(p == 0 || p == 1 || p == 2 || p == 3 || p == 4 || p == 5 || p == 6 || p == 7
            || p == 8 || p == 9);
    }
}

/// Appends `±magnitude / 10^places` with exactly `places` decimals.
pub fn push_fixed(s: &mut String, negative: bool, magnitude: u64, places: u32)
    requires
        places <= 9,
    ensures
        final(s)@ == old(s)@ + fixed_text(negative, magnitude as nat, places as nat),
{
    let scale = pow10_u64(places);
    proof {
        lemma_pow10_bound(places as nat);
    }
    push_sign(s, negative);
    push_decimal(s, magnitude / scale);
    if places > 0 {
        proof {
            reveal_strlit(".");
        }
        s.append(".");
        push_fixed_digits(s, magnitude % scale, places);
    }
    assert(final(s)@ =~= old(s)@ + fixed_text(negative, magnitude as nat, places as nat));
}

/// Dropping one trailing zero digit of the number drops one trailing `'0'`.
proof fn lemma_strip_fixed_digits(n: nat, width: nat)
    requires
        width > 0,
        n % 10 == 0,
    ensures
        strip_trailing_zeros(fixed_digits(n, width)) == strip_trailing_zeros(
            fixed_digits(n / 10, (width - 1) as nat),
        ),
{
    let f = fixed_digits(n, width);
    assert(f.last() == '0');
    assert(f.drop_last() =~= fixed_digits(n / 10, (width - 1) as nat));
}

/// Appends `±magnitude / 10^places` in its shortest form.
pub fn push_short(s: &mut String, negative: bool, magnitude: u64, places: u32)
    requires
        places <= 9,
    ensures
        final(s)@ == old(s)@ + short_text(negative, magnitude as nat, places as nat),
{
    let scale = pow10_u64(places);
    proof {
        lemma_pow10_bound(places as nat);
    }
    push_sign(s, negative);
    push_decimal(s, magnitude / scale);
    let frac = magnitude % scale;
    if frac != 0 {
        proof {
            reveal_strlit(".");
        }
        s.append(".");
        let mut f = frac;
        let mut w = places;
        while w > 0 && f % 10 == 0
            invariant
                w <= places,
                strip_trailing_zeros(fixed_digits(frac as nat, places as nat))
                    == strip_trailing_zeros(fixed_digits(f as nat, w as nat)),
            decreases w,
        {
            proof {
                lemma_strip_fixed_digits(f as nat, w as nat);
            }
            f = f / 10;
            w = w - 1;
        }
        proof {
            let fd = fixed_digits(f as nat, w as nat);
            if w > 0 {
                assert(fd.last() == hex_char(f as nat % 10));
                assert(fd.last() != '0');
            }
        }
        push_fixed_digits(s, f, w);
    }
    assert(final(s)@ =~= old(s)@ + short_text(negative, magnitude as nat, places as nat));
}

/// Appends `n` with at least two digits, as `{:02}` writes it.
pub fn push_pad2(s: &mut String, n: u64)
    ensures
        final(s)@ == old(s)@ + pad2(n as nat),
{
    if n < 10 {
        proof {
            reveal_strlit("0");
        }
        s.append("0");
    }
    push_decimal(s, n);
    assert(final(s)@ =~= old(s)@ + pad2(n as nat));
}


/// Whether `c` carries the Unicode `White_Space` property, as `char::is_whitespace` tells.
pub open spec fn is_whitespace(c: char) -> bool {
    let u = c as u32;
    (0x09 <= u <= 0x0D) || u == 0x20 || u == 0x85 || u == 0xA0 || u == 0x1680 || (0x2000 <= u
        <= 0x200A) || u == 0x2028 || u == 0x2029 || u == 0x202F || u == 0x205F || u == 0x3000
}

/// `s` without its leading whitespace.
pub open spec fn trim_front(s: Seq<char>) -> Seq<char>
    decreases s.len(),
{
    if s.len() > 0 && is_whitespace(s[0]) {
        trim_front(s.drop_first())
    } else {
        s
    }
}

/// `s` without its trailing whitespace.
pub open spec fn trim_back(s: Seq<char>) -> Seq<char>
    decreases s.len(),
{
    if s.len() > 0 && is_whitespace(s.last()) {
        trim_back(s.drop_last())
    } else {
        s
    }
}

/// `s` without leading and trailing whitespace, as `str::trim` returns it.
pub open spec fn trim_text(s: Seq<char>) -> Seq<char> {
    trim_back(trim_front(s))
}

/// Whether `c` is whitespace.
pub fn char_is_whitespace(c: char) -> (r: bool)
    ensures
        r == is_whitespace(c),
{
    let u = c as u32;
    (0x09 <= u && u <= 0x0D) || u == 0x20 || u == 0x85 || u == 0xA0 || u == 0x1680 || (0x2000
        <= u && u <= 0x200A) || u == 0x2028 || u == 0x2029 || u == 0x202F || u == 0x205F || u
        == 0x3000
}

/// The characters of `s`.
pub fn chars_of(s: &str) -> (r: Vec<char>)
    ensures
        r@ == s@,
{
    let n = s.unicode_len();
    let mut r: Vec<char> = Vec::new();
    let mut i: usize = 0;
    while i < n
        invariant
            n == s@.len(),
            i <= n,
            r@ =~= s@.subrange(0, i as int),
        decreases n - i,
    {
        let c = s.get_char(i);
        r.push(c);
        i = i + 1;
    }
    r
}

/// `s` without leading and trailing whitespace.
pub fn trim(s: &str) -> (r: &str)
    ensures
        r@ == trim_text(s@),
{
    let n = s.unicode_len();
    let ghost t = s@;
    let mut a: usize = 0;
    assert(t.subrange(0, n as int) =~= t);
    while a < n && char_is_whitespace(s.get_char(a))
        invariant
            n == t.len(),
            t == s@,
            a <= n,
            trim_front(t) == trim_front(t.subrange(a as int, n as int)),
        decreases n - a,
    {
        proof {
            assert(t.subrange(a as int, n as int).drop_first() =~= t.subrange(a + 1, n as int));
        }
        a = a + 1;
    }
    proof {
        if a < n {
            assert(!is_whitespace(t.subrange(a as int, n as int)[0]));
        }
        assert(trim_front(t) == t.subrange(a as int, n as int));
    }
    let mut e: usize = n;
    while e > a && char_is_whitespace(s.get_char(e - 1))
        invariant
            n == t.len(),
            t == s@,
            a <= e <= n,
            trim_back(t.subrange(a as int, n as int)) == trim_back(t.subrange(a as int, e as int)),
        decreases e,
    {
        proof {
            assert(t.subrange(a as int, e as int).drop_last() =~= t.subrange(a as int, e - 1));
        }
        e = e - 1;
    }
    proof {
        let m = t.subrange(a as int, e as int);
        if e > a {
            assert(m.last() == t[e - 1]);
        }
        assert(trim_back(m) == m);
    }
    s.substring_char(a, e)
}

/// Whether two texts hold the same characters.
pub fn text_eq(a: &str, b: &str) -> (r: bool)
    ensures
        r == (a@ == b@),
{
    let x = a.as_bytes();
    let y = b.as_bytes();
    proof {
        vstd::utf8::encode_utf8_decode_utf8(a@);
        vstd::utf8::encode_utf8_decode_utf8(b@);
    }
    if x.len() != y.len() {
        return false;
    }
    let mut i: usize = 0;
    while i < x.len()
        invariant
            x.len() == y.len(),
            x@ == a.spec_bytes(),
            y@ == b.spec_bytes(),
            i <= x.len(),
            forall|j: int| 0 <= j < i ==> x@[j] == y@[j],
        decreases x.len() - i,
    {
        if x[i] != y[i] {
            assert(x@[i as int] != y@[i as int]);
            return false;
        }
        i = i + 1;
    }
    assert(x@ =~= y@);
    true
}

/// Whether `c` is a hexadecimal digit of either case.
pub open spec fn is_hex_digit(c: char) -> bool {
    ('0' <= c <= '9') || ('a' <= c <= 'f') || ('A' <= c <= 'F')
}

/// The value of a hexadecimal digit.
pub open spec fn hex_digit_value(c: char) -> nat {
    if '0' <= c <= '9' {
        (c as nat - 48) as nat
    } else if 'a' <= c <= 'f' {
        (c as nat - 87) as nat
    } else {
        (c as nat - 55) as nat
    }
}

/// Whether every character of `s` is a hexadecimal digit.
pub open spec fn all_hex(s: Seq<char>) -> bool {
    forall|i: int| 0 <= i < s.len() ==> is_hex_digit(#[trigger] s[i])
}

/// The value of a string of hexadecimal digits, most significant first.
pub open spec fn hex_value(s: Seq<char>) -> nat
    decreases s.len(),
{
    if s.len() == 0 {
        0
    } else {
        hex_value(s.drop_last()) * 16 + hex_digit_value(s.last())
    }
}

/// The byte that `u8::from_str_radix(s, 16)` reads from `s`: an optional `'+'`
/// followed by at least one hexadecimal digit, of value at most 255.
pub open spec fn parse_hex_u8(s: Seq<char>) -> Option<u8> {
    let d = if s.len() > 0 && s[0] == '+' {
        s.drop_first()
    } else {
        s
    };
    parse_hex_digits(d)
}

/// The byte held by the hexadecimal digit string `d`, if it holds one.
pub open spec fn parse_hex_digits(d: Seq<char>) -> Option<u8> {
    if d.len() == 0 || !all_hex(d) || hex_value(d) > 255 {
        None
    } else {
        Some(hex_value(d) as u8)
    }
}

/// The value of the hexadecimal digit `c`, if it is one.
pub fn hex_digit_of(c: char) -> (r: Option<u8>)
    ensures
        r is Some <==> is_hex_digit(c),
        r matches Some(v) ==> v as nat == hex_digit_value(c) && v < 16,
{
    if '0' <= c && c <= '9' {
        Some(((c as u32) - 48) as u8)
    } else if 'a' <= c && c <= 'f' {
        Some(((c as u32) - 87) as u8)
    } else if 'A' <= c && c <= 'F' {
        Some(((c as u32) - 55) as u8)
    } else {
        None
    }
}

/// A longer digit string never has a smaller value.
proof fn lemma_hex_value_prefix(s: Seq<char>, i: int)
    requires
        0 <= i <= s.len(),
    ensures
        hex_value(s.subrange(0, i)) <= hex_value(s),
    decreases s.len() - i,
{
    if i < s.len() {
        lemma_hex_value_prefix(s, i + 1);
        assert(s.subrange(0, i + 1).drop_last() =~= s.subrange(0, i));
    } else {
        assert(s.subrange(0, i) =~= s);
    }
}

/// Reads the byte that `u8::from_str_radix(.., 16)` reads from `c[lo..hi]`.
pub fn parse_hex_u8_in(c: &Vec<char>, lo: usize, hi: usize) -> (r: Option<u8>)
    requires
        lo <= hi <= c.len(),
    ensures
        r == parse_hex_u8(c@.subrange(lo as int, hi as int)),
{
    let ghost s = c@.subrange(lo as int, hi as int);
    let mut start = lo;
    if lo < hi && c[lo] == '+' {
        start = lo + 1;
    }
    let ghost d = c@.subrange(start as int, hi as int);
    proof {
        if lo < hi && c@[lo as int] == '+' {
            assert(d =~= s.drop_first());
        } else {
            assert(d =~= s);
        }
    }
    if start == hi {
        return None;
    }
    let mut acc: u32 = 0;
    let mut i = start;
    while i < hi
        invariant
            lo <= start <= i <= hi <= c.len(),
            d == c@.subrange(start as int, hi as int),
            parse_hex_u8(c@.subrange(lo as int, hi as int)) == parse_hex_digits(d),
            acc as nat == hex_value(c@.subrange(start as int, i as int)),
            acc <= 255,
            all_hex(c@.subrange(start as int, i as int)),
        decreases hi - i,
    {
        let ghost p = c@.subrange(start as int, i + 1);
        proof {
            assert(p.drop_last() =~= c@.subrange(start as int, i as int));
            assert(d.subrange(0, i + 1 - start) =~= p);
        }
        match hex_digit_of(c[i]) {
            None => {
                assert(!is_hex_digit(d[i - start]));
                assert(!all_hex(d));
                return None;
            },
            Some(v) => {
                let next = acc * 16 + v as u32;
                if next > 255 {
                    proof {
                        assert(p.last() == c@[i as int]);
                        assert(hex_value(p) == next);
                        lemma_hex_value_prefix(d, i + 1 - start);
                        assert(hex_value(d) > 255);
                    }
                    return None;
                }
                acc = next;
            },
        }
        i = i + 1;
        proof {
            assert forall|j: int| 0 <= j < p.len() implies is_hex_digit(#[trigger] p[j]) by {
                if j < p.len() - 1 {
                    assert(p[j] == c@.subrange(start as int, i - 1)[j]);
                }
            }
        }
    }
    proof {
        assert(c@.subrange(start as int, i as int) =~= d);
    }
    Some(acc as u8)
}


/// Whether `c` is one of the separators dropped from a hex line: space, tab, newline, return.
pub open spec fn is_hex_separator(c: char) -> bool {
    c == ' ' || c == '\n' || c == '\t' || c == '\r'
}

/// `s` without its separator characters.
pub open spec fn drop_separators(s: Seq<char>) -> Seq<char>
    decreases s.len(),
{
    if s.len() == 0 {
        s
    } else if is_hex_separator(s.last()) {
        drop_separators(s.drop_last())
    } else {
        drop_separators(s.drop_last()).push(s.last())
    }
}

/// The number of bytes of the UTF-8 encoding of `c`.
pub open spec fn utf8_width(c: char) -> nat {
    let u = c as u32;
    if u < 0x80 {
        1
    } else if u < 0x800 {
        2
    } else if u < 0x10000 {
        3
    } else {
        4
    }
}

/// The bytes read from text split into two-byte pieces, each piece read as a
/// hexadecimal byte and dropped when it is not one. `None` when the text does
/// not split into two-byte pieces along character boundaries (an odd byte
/// count, or a character of three or four bytes, or of two bytes at an odd
/// offset).
pub open spec fn hex_pairs(c: Seq<char>) -> Option<Seq<u8>>
    decreases c.len(),
{
    if c.len() == 0 {
        Some(Seq::empty())
    } else if utf8_width(c[0]) == 1 {
        if c.len() < 2 || utf8_width(c[1]) != 1 {
            None
        } else {
            match hex_pairs(c.skip(2)) {
                None => None,
                Some(rest) => match parse_hex_u8(c.take(2)) {
                    Some(b) => Some(seq![b] + rest),
                    None => Some(rest),
                },
            }
        }
    } else if utf8_width(c[0]) == 2 {
        hex_pairs(c.skip(1))
    } else {
        None
    }
}

/// The bytes written in a line of hex text: the line is trimmed, its spaces,
/// tabs, newlines and returns are dropped, and the rest is read two bytes at a time.
pub open spec fn hex_line_bytes(s: Seq<char>) -> Option<Seq<u8>> {
    hex_pairs(drop_separators(trim_text(s)))
}

/// `prefix` put in front of an optional sequence.
pub open spec fn prepend_some(prefix: Seq<u8>, r: Option<Seq<u8>>) -> Option<Seq<u8>> {
    match r {
        None => None,
        Some(rest) => Some(prefix + rest),
    }
}

/// Whether `c` writes the bytes `b` as pairs of hexadecimal digits of either
/// case, most significant digit first.
pub open spec fn hex_pairs_of(c: Seq<char>, b: Seq<u8>) -> bool {
    &&& c.len() == 2 * b.len()
    &&& forall|i: int| 0 <= i < c.len() ==> is_hex_digit(#[trigger] c[i])
    &&& forall|i: int|
        0 <= i < b.len() ==> #[trigger] b[i] == hex_digit_value(c[2 * i]) * 16 + hex_digit_value(
            c[2 * i + 1],
        )
}

/// Whether every character of `s` is a hexadecimal digit or a separator.
pub open spec fn hex_or_separators(s: Seq<char>) -> bool {
    forall|i: int| 0 <= i < s.len() ==> is_hex_digit(#[trigger] s[i]) || is_hex_separator(s[i])
}

/// Hex digit pairs read two characters at a time give their bytes back.
proof fn lemma_hex_pairs_of_reads(c: Seq<char>, b: Seq<u8>)
    requires
        hex_pairs_of(c, b),
    ensures
        hex_pairs(c) == Some(b),
    decreases b.len(),
{
    if b.len() == 0 {
        assert(c.len() == 0);
    } else {
        assert(is_hex_digit(c[0]));
        assert(is_hex_digit(c[1]));
        let h = c.take(2);
        assert(b[0] == hex_digit_value(c[0]) * 16 + hex_digit_value(c[1]));
        assert(h.drop_last() =~= seq![c[0]]);
        assert(seq![c[0]].drop_last() =~= Seq::<char>::empty());
        assert(hex_value(seq![c[0]].drop_last()) == 0);
        assert(seq![c[0]].last() == c[0]);
        assert(hex_value(seq![c[0]]) == hex_digit_value(c[0]));
        assert(hex_value(h) == hex_value(h.drop_last()) * 16 + hex_digit_value(h[1]));
        assert(hex_value(h) == b[0]);
        assert(all_hex(h));
        assert(parse_hex_u8(h) == Some(b[0]));
        let c2 = c.skip(2);
        let b2 = b.drop_first();
        assert forall|i: int| 0 <= i < c2.len() implies is_hex_digit(#[trigger] c2[i]) by {
            assert(c2[i] == c[i + 2]);
        }
        assert forall|i: int| 0 <= i < b2.len() implies #[trigger] b2[i] == hex_digit_value(
            c2[2 * i],
        ) * 16 + hex_digit_value(c2[2 * i + 1]) by {
            assert(b2[i] == b[i + 1]);
            assert(c2[2 * i] == c[2 * (i + 1)]);
            assert(c2[2 * i + 1] == c[2 * (i + 1) + 1]);
        }
        lemma_hex_pairs_of_reads(c2, b2);
        assert(seq![b[0]] + b2 =~= b);
    }
}

/// A leading separator does not change what is left once separators are dropped.
proof fn lemma_drop_separators_first(s: Seq<char>)
    requires
        s.len() > 0,
        is_hex_separator(s[0]),
    ensures
        drop_separators(s) == drop_separators(s.drop_first()),
    decreases s.len(),
{
    if s.len() == 1 {
        assert(s.drop_last() =~= Seq::<char>::empty());
        assert(s.drop_first() =~= Seq::<char>::empty());
    } else {
        lemma_drop_separators_first(s.drop_last());
        assert(s.drop_last().drop_first() =~= s.drop_first().drop_last());
        assert(s.drop_first().last() == s.last());
    }
}

/// Trimming text of hex digits and separators removes only separators.
proof fn lemma_trim_front_separators(s: Seq<char>)
    requires
        hex_or_separators(s),
    ensures
        drop_separators(trim_front(s)) == drop_separators(s),
        hex_or_separators(trim_front(s)),
    decreases s.len(),
{
    if s.len() > 0 && is_whitespace(s[0]) {
        assert(is_hex_digit(s[0]) || is_hex_separator(s[0]));
        lemma_drop_separators_first(s);
        assert forall|i: int| 0 <= i < s.drop_first().len() implies is_hex_digit(
            #[trigger] s.drop_first()[i],
        ) || is_hex_separator(s.drop_first()[i]) by {
            assert(s.drop_first()[i] == s[i + 1]);
        }
        lemma_trim_front_separators(s.drop_first());
    }
}

/// Trimming the end of text of hex digits and separators removes only separators.
proof fn lemma_trim_back_separators(s: Seq<char>)
    requires
        hex_or_separators(s),
    ensures
        drop_separators(trim_back(s)) == drop_separators(s),
    decreases s.len(),
{
    if s.len() > 0 && is_whitespace(s.last()) {
        assert(is_hex_digit(s[s.len() - 1]) || is_hex_separator(s[s.len() - 1]));
        assert forall|i: int| 0 <= i < s.drop_last().len() implies is_hex_digit(
            #[trigger] s.drop_last()[i],
        ) || is_hex_separator(s.drop_last()[i]) by {
            assert(s.drop_last()[i] == s[i]);
        }
        lemma_trim_back_separators(s.drop_last());
    }
}

/// A line of hex digit pairs of either case, with spaces, tabs, newlines or
/// returns anywhere, is read by `hex_to_bytes` as exactly the bytes the pairs
/// write.
pub proof fn lemma_hex_line_reads_back(s: Seq<char>, b: Seq<u8>)
    requires
        hex_or_separators(s),
        hex_pairs_of(drop_separators(s), b),
    ensures
        hex_line_bytes(s) == Some(b),
{
    lemma_trim_front_separators(s);
    lemma_trim_back_separators(trim_front(s));
    lemma_hex_pairs_of_reads(drop_separators(s), b);
}

/// Reads the bytes written in a line of hex text (see `hex_line_bytes`);
/// pieces that are not hexadecimal bytes are skipped. `None` when the text
/// does not split into two-byte pieces.
pub fn hex_to_bytes(hex: &str) -> (r: Option<Vec<u8>>)
    ensures
        r is Some <==> hex_line_bytes(hex@) is Some,
        r matches Some(v) ==> v@ == hex_line_bytes(hex@).unwrap(),
{
    let t = trim(hex);
    let all = chars_of(t);
    let mut cs: Vec<char> = Vec::new();
    let mut k: usize = 0;
    while k < all.len()
        invariant
            k <= all.len(),
            cs@ == drop_separators(all@.subrange(0, k as int)),
        decreases all.len() - k,
    {
        proof {
            assert(all@.subrange(0, k + 1).drop_last() =~= all@.subrange(0, k as int));
        }
        let ch = all[k];
        if !(ch == ' ' || ch == '\n' || ch == '\t' || ch == '\r') {
            cs.push(ch);
        }
        k = k + 1;
    }
    proof {
        assert(all@.subrange(0, all@.len() as int) =~= all@);
    }
    let ghost c = cs@;
    let mut out: Vec<u8> = Vec::new();
    let mut i: usize = 0;
    proof {
        assert(c.skip(0) =~= c);
        match hex_pairs(c) {
            Some(r) => {
                assert(out@ + r =~= r);
            },
            None => {},
        }
    }
    while i < cs.len()
        invariant
            c == cs@,
            hex_line_bytes(hex@) == hex_pairs(c),
            i <= cs.len(),
            hex_pairs(c) == prepend_some(out@, hex_pairs(c.skip(i as int))),
        decreases cs.len() - i,
    {
        let ghost rest = c.skip(i as int);
        let u = cs[i] as u32;
        assert(rest[0] == cs@[i as int]);
        if u < 0x80 {
            if i + 1 >= cs.len() {
                return None;
            }
            let u1 = cs[i + 1] as u32;
            assert(rest[1] == cs@[i + 1]);
            if u1 >= 0x80 {
                return None;
            }
            proof {
                assert(rest.skip(2) =~= c.skip(i + 2));
                assert(rest.take(2) =~= cs@.subrange(i as int, i + 2));
            }
            match parse_hex_u8_in(&cs, i, i + 2) {
                Some(b) => {
                    proof {
                        match hex_pairs(c.skip(i + 2)) {
                            None => {},
                            Some(tail) => {
                                assert(out@ + (seq![b] + tail) =~= out@.push(b) + tail);
                            },
                        }
                    }
                    out.push(b);
                },
                None => {},
            }
            i = i + 2;
        } else if u < 0x800 {
            proof {
                assert(rest.skip(1) =~= c.skip(i + 1));
            }
            i = i + 1;
        } else {
            return None;
        }
    }
    proof {
        assert(c.skip(i as int).len() == 0);
        assert(out@ + Seq::<u8>::empty() =~= out@);
    }
    Some(out)
}


/// Reads bytes as UTF-8 text by calling `std::str::from_utf8`, which returns
/// the text exactly when the bytes are valid UTF-8 (as its documentation
/// states). The contract claims: `Some` exactly for valid UTF-8, holding the
/// characters the bytes encode.
#[verifier::external_body]
pub(crate) fn utf8_text(bytes: &[u8]) -> (r: Option<&str>)
    ensures
        r is Some <==> vstd::utf8::valid_utf8(bytes@),
        r matches Some(t) ==> t@ == vstd::utf8::decode_utf8(bytes@),
{
    match std::str::from_utf8(bytes) {
        Ok(t) => Some(t),
        Err(_) => None,
    }
}


/// The characters `c[lo..hi]`.
pub fn sub_chars(c: &Vec<char>, lo: usize, hi: usize) -> (r: Vec<char>)
    requires
        lo <= hi <= c.len(),
    ensures
        r@ == c@.subrange(lo as int, hi as int),
{
    let mut r: Vec<char> = Vec::new();
    let mut i = lo;
    while i < hi
        invariant
            lo <= i <= hi <= c.len(),
            r@ =~= c@.subrange(lo as int, i as int),
        decreases hi - i,
    {
        r.push(c[i]);
        i = i + 1;
    }
    r
}

/// Whether `c` is a decimal digit.
pub open spec fn is_dec_digit(c: char) -> bool {
    '0' <= c <= '9'
}

/// Whether every character of `s` is a decimal digit.
pub open spec fn all_dec(s: Seq<char>) -> bool {
    forall|i: int| 0 <= i < s.len() ==> is_dec_digit(#[trigger] s[i])
}

/// The value of a string of decimal digits.
pub open spec fn dec_value(s: Seq<char>) -> nat
    decreases s.len(),
{
    if s.len() == 0 {
        0
    } else {
        dec_value(s.drop_last()) * 10 + (s.last() as nat - 48) as nat
    }
}

/// The number `str::parse::<u32>` reads from `s`: an optional `'+'` followed by
/// at least one decimal digit, of value at most `u32::MAX`.
#[verifier::opaque]
pub open spec fn parse_dec_u32(s: Seq<char>) -> Option<u32> {
    let d = if s.len() > 0 && s[0] == '+' {
        s.drop_first()
    } else {
        s
    };
    parse_dec_digits(d)
}

/// The number held by the decimal digit string `d`, if it holds one.
pub open spec fn parse_dec_digits(d: Seq<char>) -> Option<u32> {
    if d.len() == 0 || !all_dec(d) || dec_value(d) > u32::MAX {
        None
    } else {
        Some(dec_value(d) as u32)
    }
}

/// Reads a number of at most three characters as `str::parse::<u32>` does.
pub fn parse_short_u32(c: &Vec<char>) -> (r: Option<u32>)
    requires
        c.len() <= 3,
    ensures
        r == parse_dec_u32(c@),
{
    reveal(parse_dec_u32);
    let mut start: usize = 0;
    if c.len() > 0 && c[0] == '+' {
        start = 1;
    }
    let ghost d = c@.subrange(start as int, c@.len() as int);
    proof {
        if c.len() > 0 && c@[0] == '+' {
            assert(d =~= c@.drop_first());
        } else {
            assert(d =~= c@);
        }
    }
    if start == c.len() {
        return None;
    }
    let mut acc: u32 = 0;
    let mut i = start;
    while i < c.len()
        invariant
            start <= i <= c.len() <= 3,
            d == c@.subrange(start as int, c@.len() as int),
            parse_dec_u32(c@) == parse_dec_digits(d),
            acc as nat == dec_value(c@.subrange(start as int, i as int)),
            acc < pow10((i - start) as nat),
            all_dec(c@.subrange(start as int, i as int)),
        decreases c.len() - i,
    {
        let ghost p = c@.subrange(start as int, i + 1);
        assert(p.drop_last() =~= c@.subrange(start as int, i as int));
        assert(d.subrange(0, i + 1 - start) =~= p);
        let ch = c[i];
        if !('0' <= ch && ch <= '9') {
            assert(!is_dec_digit(d[i - start]));
            return None;
        }
        proof {
            assert(pow10((i + 1 - start) as nat) == 10 * pow10((i - start) as nat));
            assert(pow10(2) == 100) by {
                reveal_with_fuel(pow10, 3);
            }
            assert(pow10(1) == 10);
            assert(pow10(0) == 1);
            assert(acc < 100);
        }
        acc = acc * 10 + ((ch as u32) - 48);
        i = i + 1;
        proof {
            assert forall|j: int| 0 <= j < p.len() implies is_dec_digit(#[trigger] p[j]) by {
                if j < p.len() - 1 {
                    assert(p[j] == c@.subrange(start as int, i - 1)[j]);
                }
            }
        }
    }
    proof {
        assert(c@.subrange(start as int, i as int) =~= d);
    }
    Some(acc)
}

/// The position of the first non-digit of `s` at or after `i`.
pub open spec fn digit_run(s: Seq<char>, i: int) -> int
    decreases s.len() - i,
{
    if 0 <= i < s.len() && is_dec_digit(s[i]) {
        digit_run(s, i + 1)
    } else {
        i
    }
}

/// Whether `e` is empty or an exponent: `e` or `E`, an optional sign, and at
/// least one decimal digit.
pub open spec fn exponent_syntax(e: Seq<char>) -> bool {
    e.len() == 0 || ((e[0] == 'e' || e[0] == 'E') && {
        let f = if e.len() > 1 && (e[1] == '+' || e[1] == '-') {
            e.skip(2)
        } else {
            e.skip(1)
        };
        f.len() > 0 && all_dec(f)
    })
}

/// Whether `b` is a decimal number: digits, or digits and a point, or a point
/// and digits, or digits, a point and digits, with at least one digit, then an
/// optional exponent.
pub open spec fn number_syntax(b: Seq<char>) -> bool {
    let i = digit_run(b, 0);
    if i < b.len() && b[i] == '.' {
        let j = digit_run(b, i + 1);
        (i > 0 || j > i + 1) && exponent_syntax(b.skip(j))
    } else {
        i > 0 && exponent_syntax(b.skip(i))
    }
}

/// The ASCII lower case of a character.
pub open spec fn ascii_lower(c: char) -> char {
    if 'A' <= c <= 'Z' {
        ((c as u32) + 32) as char
    } else {
        c
    }
}

/// Whether `b` equals the lower-case word `w` ignoring ASCII case.
pub open spec fn word_ignoring_case(b: Seq<char>, w: Seq<char>) -> bool {
    b.len() == w.len() && forall|i: int| 0 <= i < b.len() ==> ascii_lower(#[trigger] b[i]) == w[i]
}

/// Whether `str::parse::<f64>` accepts `s`: an optional sign, then `inf`,
/// `infinity` or `nan` in any case, or a decimal number (see `number_syntax`).
#[verifier::opaque]
pub open spec fn float_syntax(s: Seq<char>) -> bool {
    let b = if s.len() > 0 && (s[0] == '+' || s[0] == '-') {
        s.drop_first()
    } else {
        s
    };
    word_ignoring_case(b, seq!['i', 'n', 'f']) || word_ignoring_case(
        b,
        seq!['i', 'n', 'f', 'i', 'n', 'i', 't', 'y'],
    ) || word_ignoring_case(b, seq!['n', 'a', 'n']) || number_syntax(b)
}

/// The position of the first non-digit of `c` at or after `i`.
fn digit_run_of(c: &Vec<char>, i: usize) -> (r: usize)
    requires
        i <= c.len(),
    ensures
        r as int == digit_run(c@, i as int),
        i <= r <= c.len(),
    decreases c.len() - i,
{
    if i < c.len() && '0' <= c[i] && c[i] <= '9' {
        digit_run_of(c, i + 1)
    } else {
        i
    }
}

/// Whether every character of `c` from position `i` on is a decimal digit.
fn all_dec_from(c: &Vec<char>, i: usize) -> (r: bool)
    requires
        i <= c.len(),
    ensures
        r == all_dec(c@.skip(i as int)),
{
    let j = digit_run_of(c, i);
    proof {
        lemma_digit_run(c@, i as int);
        if j < c.len() {
            assert(c@.skip(i as int)[j - i] == c@[j as int]);
        }
    }
    j == c.len()
}

/// The characters between `i` and the end of their digit run are digits, and
/// the run ends at a non-digit or at the end.
proof fn lemma_digit_run(s: Seq<char>, i: int)
    requires
        0 <= i <= s.len(),
    ensures
        i <= digit_run(s, i) <= s.len(),
        forall|k: int| i <= k < digit_run(s, i) ==> is_dec_digit(#[trigger] s[k]),
        digit_run(s, i) < s.len() ==> !is_dec_digit(s[digit_run(s, i)]),
        all_dec(s.skip(i)) <==> digit_run(s, i) == s.len(),
    decreases s.len() - i,
{
    if i < s.len() && is_dec_digit(s[i]) {
        lemma_digit_run(s, i + 1);
        if all_dec(s.skip(i)) {
            assert forall|k: int| 0 <= k < s.skip(i + 1).len() implies is_dec_digit(
                #[trigger] s.skip(i + 1)[k],
            ) by {
                assert(s.skip(i + 1)[k] == s.skip(i)[k + 1]);
            }
        }
        if digit_run(s, i) == s.len() {
            assert forall|k: int| 0 <= k < s.skip(i).len() implies is_dec_digit(
                #[trigger] s.skip(i)[k],
            ) by {
                assert(s.skip(i)[k] == s[i + k]);
            }
        }
    } else if i < s.len() {
        assert(s.skip(i)[0] == s[i]);
    }
}

/// Whether `c` from position `i` on is empty or an exponent.
fn exponent_syntax_from(c: &Vec<char>, i: usize) -> (r: bool)
    requires
        i <= c.len(),
    ensures
        r == exponent_syntax(c@.skip(i as int)),
{
    let ghost e = c@.skip(i as int);
    if i == c.len() {
        return true;
    }
    assert(e[0] == c@[i as int]);
    if !(c[i] == 'e' || c[i] == 'E') {
        return false;
    }
    let mut k = i + 1;
    if k < c.len() && (c[k] == '+' || c[k] == '-') {
        assert(e[1] == c@[k as int]);
        k = k + 1;
        assert(e.skip(2) =~= c@.skip(k as int));
    } else {
        assert(e.skip(1) =~= c@.skip(k as int));
    }
    k < c.len() && all_dec_from(c, k)
}

/// Whether `c` from position `s` on is a decimal number.
fn number_syntax_from(c: &Vec<char>, s: usize) -> (r: bool)
    requires
        s <= c.len(),
    ensures
        r == number_syntax(c@.skip(s as int)),
{
    let ghost b = c@.skip(s as int);
    proof {
        lemma_digit_run_shift(c@, s as int, 0);
    }
    let i = digit_run_of(c, s);
    if i < c.len() && c[i] == '.' {
        proof {
            lemma_digit_run_shift(c@, s as int, i - s + 1);
            assert(b[i - s] == c@[i as int]);
        }
        let j = digit_run_of(c, i + 1);
        proof {
            assert(b.skip(j - s) =~= c@.skip(j as int));
        }
        (i > s || j > i + 1) && exponent_syntax_from(c, j)
    } else {
        proof {
            if i < c.len() {
                assert(b[i - s] == c@[i as int]);
            }
            assert(b.skip(i - s) =~= c@.skip(i as int));
        }
        i > s && exponent_syntax_from(c, i)
    }
}

/// A digit run measured in a suffix is the same run measured in the whole.
proof fn lemma_digit_run_shift(c: Seq<char>, s: int, i: int)
    requires
        0 <= s <= c.len(),
        0 <= i <= c.len() - s,
    ensures
        digit_run(c.skip(s), i) == digit_run(c, s + i) - s,
    decreases c.len() - s - i,
{
    if i < c.len() - s {
        assert(c.skip(s)[i] == c[s + i]);
        lemma_digit_run_shift(c, s, i + 1);
    }
}

/// Whether `c` from position `s` on is the lower-case word `w` ignoring ASCII case.
fn word_from(c: &Vec<char>, s: usize, w: &Vec<char>) -> (r: bool)
    requires
        s <= c.len(),
    ensures
        r == word_ignoring_case(c@.skip(s as int), w@),
{
    let ghost b = c@.skip(s as int);
    if c.len() - s != w.len() {
        return false;
    }
    let mut i: usize = 0;
    while i < w.len()
        invariant
            c.len() - s == w.len(),
            b == c@.skip(s as int),
            i <= w.len(),
            forall|k: int| 0 <= k < i ==> ascii_lower(#[trigger] b[k]) == w@[k],
        decreases w.len() - i,
    {
        let ch = c[s + i];
        assert(b[i as int] == ch);
        let low = if 'A' <= ch && ch <= 'Z' {
            char_from_u32(ch as u32 + 32)
        } else {
            ch
        };
        if low != w[i] {
            return false;
        }
        i = i + 1;
    }
    true
}

/// The character with code `u`, for a code of an ASCII letter.
fn char_from_u32(u: u32) -> (r: char)
    requires
        0x61 <= u <= 0x7A,
    ensures
        r == u as char,
{
    let r = u as u8 as char;
    r
}

/// Whether `str::parse::<f64>` accepts `c` (see `float_syntax`).
pub fn is_float_text(c: &Vec<char>) -> (r: bool)
    ensures
        r == float_syntax(c@),
{
    reveal(float_syntax);
    let mut s: usize = 0;
    if c.len() > 0 && (c[0] == '+' || c[0] == '-') {
        s = 1;
        assert(c@.skip(1) =~= c@.drop_first());
    } else {
        assert(c@.skip(0) =~= c@);
    }
    let inf = vec!['i', 'n', 'f'];
    let infinity = vec!['i', 'n', 'f', 'i', 'n', 'i', 't', 'y'];
    let nan = vec!['n', 'a', 'n'];
    assert(inf@ =~= seq!['i', 'n', 'f']);
    assert(infinity@ =~= seq!['i', 'n', 'f', 'i', 'n', 'i', 't', 'y']);
    assert(nan@ =~= seq!['n', 'a', 'n']);
    word_from(c, s, &inf) || word_from(c, s, &infinity) || word_from(c, s, &nan)
        || number_syntax_from(c, s)
}

} // verus!
