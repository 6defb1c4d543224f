//! Text helpers: the renderings that failure messages and selection text are
//! built from, each stated as a spec function over `Seq<char>`.

use vstd::prelude::*;

verus! {

/// Whether `c` has the Unicode `White_Space` property (what `char::is_whitespace`
/// reports): tab to carriage return, space, next line, no-break space, ogham
/// space mark, the spaces from en quad to hair space, the line and paragraph
/// separators, narrow no-break space, medium mathematical space and
/// ideographic space.
pub open spec fn white_space(c: char) -> bool {
    let n = c as u32;
    ||| 0x9 <= n <= 0xd
    ||| n == 0x20 || n == 0x85 || n == 0xa0 || n == 0x1680
    ||| 0x2000 <= n <= 0x200a
    ||| n == 0x2028 || n == 0x2029 || n == 0x202f || n == 0x205f || n == 0x3000
}

/// What `{:?}` prints for a `str`: the quoted text with its escapes.
pub uninterp spec fn str_debug(s: Seq<char>) -> Seq<char>;

/// What `{:?}` prints for a `char`: the single-quoted character with its escapes.
pub uninterp spec fn char_debug(c: char) -> Seq<char>;

/// `s` without its trailing whitespace (what `str::trim_end` keeps).
pub open spec fn trim_end(s: Seq<char>) -> Seq<char>
    decreases s.len(),
{
    if s.len() > 0 && white_space(s.last()) {
        trim_end(s.drop_last())
    } else {
        s
    }
}

/// The ASCII digit for `d` (`d < 10`, or `d < 2` in binary).
pub open spec fn digit(d: nat) -> char {
    ((48 + d) as u32) as char
}

/// Decimal digits of `n`, most significant first, no leading zeros.
pub open spec fn dec(n: nat) -> Seq<char>
    decreases n,
{
    if n < 10 {
        seq![digit(n)]
    } else {
        dec(n / 10) + seq![digit(n % 10)]
    }
}

/// Binary digits of `n`, most significant first, no leading zeros.
pub open spec fn bin(n: nat) -> Seq<char>
    decreases n,
{
    if n < 2 {
        seq![digit(n)]
    } else {
        bin(n / 2) + seq![digit(n % 2)]
    }
}

/// `n` in `{:#06b}` form: `0b`, then the binary digits zero-padded to four.
pub open spec fn bin6(n: nat) -> Seq<char> {
    let b = bin(n);
    let pad = if b.len() < 4 { 4 - b.len() } else { 0 };
    seq!['0', 'b'] + Seq::new(pad as nat, |_i: int| '0') + b
}

/// The number that digit characters `s` spell in base `base`, most significant first.
pub open spec fn digits_value(s: Seq<char>, base: nat) -> nat
    decreases s.len(),
{
    if s.len() == 0 {
        0
    } else {
        digits_value(s.drop_last(), base) * base + ((s.last() as u32) - 48) as nat
    }
}

/// Decimal notation reads back: `dec(n)` is made of the digits `0`..`9`, spells
/// `n`, and starts with `0` only for zero itself.
pub proof fn lemma_dec_reads_back(n: nat)
    ensures
        digits_value(dec(n), 10) == n,
        forall|i: int| 0 <= i < dec(n).len() ==> '0' <= #[trigger] dec(n)[i] <= '9',
        dec(n)[0] == '0' ==> n == 0,
    decreases n,
{
    if n >= 10 {
        lemma_dec_reads_back(n / 10);
        let d = dec(n);
        assert(d.drop_last() =~= dec(n / 10));
        assert(d.last() == digit(n % 10));
        assert(digit(n % 10) as u32 == 48 + n % 10);
        assert(d[0] == dec(n / 10)[0]);
        assert(((d.last() as u32) - 48) as nat == n % 10);
        assert(digits_value(d, 10) == digits_value(dec(n / 10), 10) * 10 + n % 10);
        assert((n / 10) * 10 + n % 10 == n);
    } else {
        assert(digit(n) as u32 == 48 + n);
        assert(dec(n).drop_last() =~= Seq::<char>::empty());
        assert(digits_value(dec(n), 10) == digits_value(Seq::<char>::empty(), 10) * 10 + n);
    }
}

/// Binary notation reads back: `bin(n)` is made of the digits `0` and `1`,
/// spells `n`, and starts with `0` only for zero itself.
pub proof fn lemma_bin_reads_back(n: nat)
    ensures
        digits_value(bin(n), 2) == n,
        forall|i: int| 0 <= i < bin(n).len() ==> '0' <= #[trigger] bin(n)[i] <= '1',
        bin(n)[0] == '0' ==> n == 0,
    decreases n,
{
    if n >= 2 {
        lemma_bin_reads_back(n / 2);
        let d = bin(n);
        assert(d.drop_last() =~= bin(n / 2));
        assert(d.last() == digit(n % 2));
        assert(digit(n % 2) as u32 == 48 + n % 2);
        assert(d[0] == bin(n / 2)[0]);
        assert(((d.last() as u32) - 48) as nat == n % 2);
        assert(digits_value(d, 2) == digits_value(bin(n / 2), 2) * 2 + n % 2);
        assert((n / 2) * 2 + n % 2 == n);
    } else {
        assert(digit(n) as u32 == 48 + n);
        assert(bin(n).drop_last() =~= Seq::<char>::empty());
        assert(digits_value(bin(n), 2) == digits_value(Seq::<char>::empty(), 2) * 2 + n);
    }
}

/// `true` or `false`, as `{}` prints a `bool`.
pub open spec fn bool_text(b: bool) -> Seq<char> {
    if b { seq!['t', 'r', 'u', 'e'] } else { seq!['f', 'a', 'l', 's', 'e'] }
}

/// Appends one character (`String::push`).
#[verifier::external_body]
pub(crate) fn push_char(s: &mut String, c: char)
    ensures
        final(s)@ == old(s)@.push(c),
{
    s.push(c);
}

/// Appends a string slice.
pub(crate) fn push_str(s: &mut String, t: &str)
    ensures
        final(s)@ == old(s)@ + t@,
{
    s.append(t);
}

/// Whether `c` is whitespace, as `char::is_whitespace` decides it.
pub fn is_white_space(c: char) -> (b: bool)
    ensures
        b == white_space(c),
{
    let n = c as u32;
    (0x9 <= n && n <= 0xd) || n == 0x20 || n == 0x85 || n == 0xa0 || n == 0x1680 || (0x2000 <= n
        && n <= 0x200a) || n == 0x2028 || n == 0x2029 || n == 0x202f || n == 0x205f || n == 0x3000
}

/// `{:?}` of a `str`.
#[verifier::external_body]
pub(crate) fn debug_str(s: &str) -> (r: String)
    ensures
        r@ == str_debug(s@),
{
    format!("{:?}", s)
}

/// `{:?}` of a `char`.
#[verifier::external_body]
pub(crate) fn debug_char(c: char) -> (r: String)
    ensures
        r@ == char_debug(c),
{
    format!("{:?}", c)
}

fn digit_char(d: u32) -> (c: char)
    requires
        d < 10,
    ensures
        c == digit(d as nat),
{
    let v: u8 = 48 + (d as u8);
    v as char
}

/// Appends the decimal digits of `n`.
pub fn push_dec(s: &mut String, n: usize)
    ensures
        final(s)@ == old(s)@ + dec(n as nat),
    decreases n,
{
    if n >= 10 {
        push_dec(s, n / 10);
    }
    push_char(s, digit_char((n % 10) as u32));
    proof {
        if n < 10 {
            assert(dec(n as nat) == seq![digit(n as nat)]);
        }
    }
}

proof fn lemma_bin_len(n: nat)
    ensures
        n < 2 ==> bin(n).len() == 1,
        2 <= n < 4 ==> bin(n).len() == 2,
        4 <= n < 8 ==> bin(n).len() == 3,
        8 <= n ==> bin(n).len() >= 4,
    decreases n,
{
    if n >= 2 {
        lemma_bin_len(n / 2);
    }
}

fn push_bin(s: &mut String, n: u16)
    ensures
        final(s)@ == old(s)@ + bin(n as nat),
    decreases n,
{
    if n >= 2 {
        push_bin(s, n / 2);
    }
    push_char(s, digit_char((n % 2) as u32));
    proof {
        if n < 2 {
            assert(bin(n as nat) == seq![digit(n as nat)]);
        }
    }
}

/// Appends `n` as `{:#06b}` prints it.
pub fn push_bin6(s: &mut String, n: u16)
    ensures
        final(s)@ == old(s)@ + bin6(n as nat),
{
    let ghost s0 = s@;
    proof {
        lemma_bin_len(n as nat);
    }
    push_char(s, '0');
    push_char(s, 'b');
    let pad: usize = if n < 2 { 3 } else if n < 4 { 2 } else if n < 8 { 1 } else { 0 };
    let mut i: usize = 0;
    while i < pad
        invariant
            i <= pad,
            s@ == s0 + seq!['0', 'b'] + Seq::new(i as nat, |_i: int| '0'),
        decreases pad - i,
    {
        push_char(s, '0');
        i = i + 1;
        assert(Seq::new(i as nat, |_i: int| '0') =~= Seq::new((i - 1) as nat, |_i: int| '0').push('0'));
    }
    push_bin(s, n);
    assert(s@ =~= s0 + bin6(n as nat));
}

/// Appends `true` or `false`.
pub fn push_bool(s: &mut String, b: bool)
    ensures
        final(s)@ == old(s)@ + bool_text(b),
{
    if b {
        push_str(s, "true");
        proof { reveal_strlit("true"); }
    } else {
        push_str(s, "false");
        proof { reveal_strlit("false"); }
    }
}

/// The characters of `v` as a `String` (collecting a char iterator).
#[verifier::external_body]
pub(crate) fn string_of_chars(v: &Vec<char>) -> (s: String)
    ensures
        s@ == v@,
{
    v.iter().collect()
}

/// How many characters of `v` remain once its trailing whitespace is removed.
pub fn trimmed_len(v: &Vec<char>) -> (n: usize)
    ensures
        n <= v@.len(),
        v@.subrange(0, n as int) == trim_end(v@),
{
    let mut end: usize = v.len();
    assert(v@.subrange(0, end as int) =~= v@);
    while end > 0 && is_white_space(v[end - 1])
        invariant
            end <= v.len(),
            trim_end(v@) == trim_end(v@.subrange(0, end as int)),
        decreases end,
    {
        assert(v@.subrange(0, end as int).drop_last() =~= v@.subrange(0, end - 1));
        end = end - 1;
    }
    end
}

/// Appends `v[from..to]` to `out`.
pub fn extend_chars(out: &mut Vec<char>, v: &Vec<char>, from: usize, to: usize)
    requires
        from <= to <= v@.len(),
    ensures
        final(out)@ == old(out)@ + v@.subrange(from as int, to as int),
{
    let ghost o0 = out@;
    let mut i: usize = from;
    while i < to
        invariant
            from <= i <= to <= v@.len(),
            out@ == o0 + v@.subrange(from as int, i as int),
        decreases to - i,
    {
        out.push(v[i]);
        i = i + 1;
        assert(out@ =~= o0 + v@.subrange(from as int, i as int));
    }
}

/// `v` with its trailing whitespace removed, as a `String`.
pub fn trimmed_string(v: &Vec<char>) -> (s: String)
    ensures
        s@ == trim_end(v@),
{
    let end = trimmed_len(v);
    let mut out: Vec<char> = Vec::new();
    extend_chars(&mut out, v, 0, end);
    assert(out@ =~= v@.subrange(0, end as int));
    string_of_chars(&out)
}

/// What `str::to_lowercase` returns for `s`.
pub uninterp spec fn lower(s: Seq<char>) -> Seq<char>;

/// `str::to_lowercase`. Each character lowercases to one or more characters, so
/// a non-empty string stays non-empty.
#[verifier::external_body]
pub(crate) fn to_lower(s: &str) -> (r: String)
    ensures
        r@ == lower(s@),
        s@.len() > 0 ==> r@.len() > 0,
{
    s.to_lowercase()
}

/// The characters of `s` (collecting `str::chars`).
#[verifier::external_body]
pub(crate) fn chars_of(s: &str) -> (v: Vec<char>)
    ensures
        v@ == s@,
{
    s.chars().collect()
}

} // verus!
